//! Launch and attach configuration for a debug session.
//!
//! Paths are held as their text: a path given to the adapter arrives as a
//! JSON string and goes to the process spawner as one.
use vstd::prelude::*;

use std::collections::HashMap;

verus! {

/// What `Path::parent` gives for the path with this text, as text: the path
/// without its final component, or `None` for a root, a prefix or the empty
/// path.
pub uninterp spec fn path_parent(p: Seq<char>) -> Option<Seq<char>>;

/// `std::path::Path::parent` on the path with text `p`.  Its contract claims
/// that the result is the text of the parent path as `path_parent` names it;
/// the parent of a path made from UTF-8 text is a prefix of it, so the
/// conversion back to text loses nothing.
#[verifier::external_body]
fn parent_of(p: &str) -> (r: Option<String>)
    ensures
        match r {
            Some(s) => path_parent(p@) == Some(s@),
            None => path_parent(p@) is None,
        },
{
    match std::path::Path::new(p).parent() {
        Some(q) => Some(q.to_string_lossy().into_owned()),
        None => None,
    }
}

/// Configuration for launching a Robot Framework debug session.
#[derive(Debug, Clone)]
pub struct LaunchConfig {
    /// Path to the robot file or directory to execute.
    pub program: String,
    /// Additional arguments forwarded to `python -m robot`.
    pub args: Vec<String>,
    /// Working directory (defaults to the parent of `program`).
    pub cwd: Option<String>,
    /// Path to the Python interpreter (defaults to `python3` on PATH).
    pub python: Option<String>,
    /// Extra environment variables for the RF subprocess.
    pub env: HashMap<String, String>,
}

/// The interpreter a configuration runs: the one given, else `python3`.
pub open spec fn python_of(python: Option<String>) -> Seq<char> {
    match python {
        Some(p) => p@,
        None => "python3"@,
    }
}

/// The working directory of a configuration: the one given, else the
/// program's parent directory, else `.`.
pub open spec fn cwd_of(cwd: Option<String>, program: Seq<char>) -> Seq<char> {
    match cwd {
        Some(c) => c@,
        None => match path_parent(program) {
            Some(p) => p,
            None => "."@,
        },
    }
}

impl LaunchConfig {
    /// Resolve the Python interpreter path as a string.
    pub fn python_executable(&self) -> (r: String)
        ensures
            r@ == python_of(self.python),
    {
        match &self.python {
            Some(p) => p.clone(),
            None => "python3".to_owned(),
        }
    }

    /// Resolve the working directory (falls back to `program`'s parent).
    pub fn resolved_cwd(&self) -> (r: String)
        ensures
            r@ == cwd_of(self.cwd, self.program@),
    {
        if let Some(cwd) = &self.cwd {
            return cwd.clone();
        }
        match parent_of(self.program.as_str()) {
            Some(p) => p,
            None => ".".to_owned(),
        }
    }
}

/// Configuration for attaching to a running Robot Framework debug session.
#[derive(Debug, Clone)]
pub struct AttachConfig {
    /// Host where the RF debug listener is running.
    pub host: String,
    /// Port where the RF debug listener is running.
    pub port: u16,
}

impl Default for AttachConfig {
    fn default() -> (r: Self)
        ensures
            r.host@ == "127.0.0.1"@,
            r.port == 6612,
    {
        AttachConfig { host: "127.0.0.1".to_owned(), port: 6612 }
    }
}

} // verus!
