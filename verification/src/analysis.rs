//! Batch static analysis: which files are analyzed, the diagnostics of a
//! parse error, and the report with its counts and exit code.
use vstd::prelude::*;

use std::collections::HashMap;

use crate::lsp::{Position, Range};
use crate::lsp_items::{Diagnostic, DiagnosticSeverity};
use crate::text::str_eq;

verus! {

/// Output format for `robotcode analyze`.
#[derive(Debug, Clone, Copy, PartialEq, Eq, Structural)]
pub enum OutputFormat {
    /// Human-readable text output.
    Text,
    /// Machine-readable JSON output.
    Json,
}

/// Arguments for `robotcode analyze`.
#[derive(Debug, Clone)]
pub struct AnalyzeArgs {
    /// Paths to analyze (files or directories).
    pub paths: Vec<String>,
    /// Optional Python interpreter (reserved for future Python-bridge diagnostics).
    pub python: Option<String>,
    /// Output format.
    pub output_format: OutputFormat,
    /// Exit with code 1 when any errors are found.
    pub fail_on_error: bool,
    /// Exit with code 2 when any warnings are found (and no errors).
    pub fail_on_warning: bool,
}

/// Per-file diagnostics.
#[derive(Debug, Clone)]
pub struct FileDiagnostics {
    /// Path to the analyzed file (canonicalized when possible).
    pub path: String,
    /// Diagnostics found in this file.
    pub diagnostics: Vec<Diagnostic>,
}

/// Top-level analysis report.
#[derive(Debug, Clone)]
pub struct AnalysisReport {
    /// Number of files analyzed.
    pub files_analyzed: usize,
    /// Number of error-severity diagnostics.
    pub errors: usize,
    /// Number of warning-severity diagnostics.
    pub warnings: usize,
    /// All per-file diagnostics.
    pub diagnostics: Vec<FileDiagnostics>,
    /// Suggested CLI exit code: `0` means no configured failure condition was
    /// triggered; `1` means errors were found and `fail_on_error` is enabled;
    /// `2` means only warnings were found and `fail_on_warning` is enabled.
    pub exit_code: i32,
}

/// The number of diagnostics of severity `sev` in `ds`.
pub open spec fn count_in(ds: Seq<Diagnostic>, sev: DiagnosticSeverity) -> nat
    decreases ds.len(),
{
    if ds.len() == 0 {
        0
    } else {
        count_in(ds.drop_last(), sev) + if ds.last().severity == Some(sev) {
            1nat
        } else {
            0nat
        }
    }
}

/// The number of diagnostics of severity `sev` over all files.
pub open spec fn count_severity(fs: Seq<FileDiagnostics>, sev: DiagnosticSeverity) -> nat
    decreases fs.len(),
{
    if fs.len() == 0 {
        0
    } else {
        count_severity(fs.drop_last(), sev) + count_in(fs.last().diagnostics@, sev)
    }
}

/// The number of diagnostics over all files.
pub open spec fn total_diagnostics(fs: Seq<FileDiagnostics>) -> nat
    decreases fs.len(),
{
    if fs.len() == 0 {
        0
    } else {
        total_diagnostics(fs.drop_last()) + fs.last().diagnostics@.len()
    }
}

/// The exit code a run reports: `1` for errors when they fail the run, `2`
/// when only warnings were found and they fail the run, `0` otherwise.
pub open spec fn exit_code_for(fail_on_error: bool, fail_on_warning: bool, errors: nat, warnings: nat) -> i32 {
    if fail_on_error && errors > 0 {
        1
    } else if fail_on_warning && warnings > 0 && errors == 0 {
        2
    } else {
        0
    }
}

proof fn lemma_count_in_le(ds: Seq<Diagnostic>, sev: DiagnosticSeverity)
    ensures
        count_in(ds, sev) <= ds.len(),
    decreases ds.len(),
{
    if ds.len() > 0 {
        lemma_count_in_le(ds.drop_last(), sev);
    }
}

proof fn lemma_count_le(fs: Seq<FileDiagnostics>, sev: DiagnosticSeverity)
    ensures
        count_severity(fs, sev) <= total_diagnostics(fs),
    decreases fs.len(),
{
    if fs.len() > 0 {
        lemma_count_le(fs.drop_last(), sev);
        lemma_count_in_le(fs.last().diagnostics@, sev);
    }
}

proof fn lemma_total_mono(fs: Seq<FileDiagnostics>, i: int)
    requires
        0 <= i <= fs.len(),
    ensures
        total_diagnostics(fs.take(i)) <= total_diagnostics(fs),
    decreases fs.len() - i,
{
    if i < fs.len() {
        lemma_total_mono(fs, i + 1);
        assert(fs.take(i + 1).drop_last() == fs.take(i));
    } else {
        assert(fs.take(i) == fs);
    }
}

fn count_file(ds: &Vec<Diagnostic>, sev: DiagnosticSeverity) -> (n: usize)
    ensures
        n == count_in(ds@, sev),
{
    let mut n: usize = 0;
    for i in 0..ds.len()
        invariant
            n == count_in(ds@.take(i as int), sev),
            n <= i,
    {
        assert(ds@.take(i + 1).drop_last() == ds@.take(i as int));
        if ds[i].severity == Some(sev) {
            n += 1;
        }
    }
    assert(ds@.take(ds.len() as int) == ds@);
    n
}

/// Count the diagnostics of one severity over all files.
fn count_all(fs: &Vec<FileDiagnostics>, sev: DiagnosticSeverity) -> (n: usize)
    requires
        total_diagnostics(fs@) <= usize::MAX,
    ensures
        n == count_severity(fs@, sev),
{
    let mut n: usize = 0;
    for i in 0..fs.len()
        invariant
            total_diagnostics(fs@) <= usize::MAX,
            n == count_severity(fs@.take(i as int), sev),
    {
        assert(fs@.take(i + 1).drop_last() == fs@.take(i as int));
        proof {
            lemma_count_le(fs@.take(i + 1), sev);
            lemma_total_mono(fs@, i + 1);
        }
        let c = count_file(&fs[i].diagnostics, sev);
        n = n + c;
    }
    assert(fs@.take(fs.len() as int) == fs@);
    n
}

/// Whether the diagnostics of all files can be counted in a `usize`.
pub fn total_diagnostics_check(fs: &Vec<FileDiagnostics>) -> (r: bool)
    ensures
        r == (total_diagnostics(fs@) <= usize::MAX),
{
    let mut n: usize = 0;
    for i in 0..fs.len()
        invariant
            n == total_diagnostics(fs@.take(i as int)),
    {
        assert(fs@.take(i + 1).drop_last() == fs@.take(i as int));
        match n.checked_add(fs[i].diagnostics.len()) {
            Some(m) => {
                n = m;
            },
            None => {
                proof {
                    lemma_total_mono(fs@, i + 1);
                }
                return false;
            },
        }
    }
    assert(fs@.take(fs.len() as int) == fs@);
    true
}

/// The report of a run over the files analyzed, one entry each, in order.
pub fn build_report(args: &AnalyzeArgs, diagnostics: Vec<FileDiagnostics>) -> (r: AnalysisReport)
    requires
        total_diagnostics(diagnostics@) <= usize::MAX,
    ensures
        r.files_analyzed == diagnostics@.len(),
        r.errors == count_severity(diagnostics@, DiagnosticSeverity::Error),
        r.warnings == count_severity(diagnostics@, DiagnosticSeverity::Warning),
        r.diagnostics@ == diagnostics@,
        r.exit_code == exit_code_for(
            args.fail_on_error,
            args.fail_on_warning,
            r.errors as nat,
            r.warnings as nat,
        ),
{
    let errors = count_all(&diagnostics, DiagnosticSeverity::Error);
    let warnings = count_all(&diagnostics, DiagnosticSeverity::Warning);
    let exit_code: i32 = if args.fail_on_error && errors > 0 {
        1
    } else if args.fail_on_warning && warnings > 0 && errors == 0 {
        2
    } else {
        0
    };
    AnalysisReport { files_analyzed: diagnostics.len(), errors, warnings, diagnostics, exit_code }
}

/// What `Path::extension` gives for the path with this text: the part of
/// the file name after its last `.`, if the name has one that does not
/// start it.
pub uninterp spec fn path_extension(p: Seq<char>) -> Option<Seq<char>>;

/// `std::path::Path::extension` on the path with text `p`, as text.  Its
/// contract claims the result is `path_extension` of the text; an
/// extension of a path made from UTF-8 text is UTF-8 itself.
#[verifier::external_body]
fn extension_of(p: &str) -> (r: Option<String>)
    ensures
        match r {
            Some(e) => path_extension(p@) == Some(e@),
            None => path_extension(p@) is None,
        },
{
    match std::path::Path::new(p).extension() {
        Some(e) => match e.to_str() {
            Some(s) => Some(s.to_owned()),
            None => None,
        },
        None => None,
    }
}

/// Whether a path names a Robot Framework file: its extension is `robot`
/// or `resource`.
pub fn is_robot_file(p: &str) -> (r: bool)
    ensures
        r == (path_extension(p@) == Some("robot"@) || path_extension(p@) == Some("resource"@)),
{
    match extension_of(p) {
        Some(e) => str_eq(e.as_str(), "robot") || str_eq(e.as_str(), "resource"),
        None => false,
    }
}

/// The diagnostic of a parse error at the start of (0-indexed) `line`.
pub fn make_error_diagnostic(message: &str, line: u32) -> (d: Diagnostic)
    ensures
        d.range == (Range {
            start: Position { line, character: 0 },
            end: Position { line, character: 0 },
        }),
        d.severity == Some(DiagnosticSeverity::Error),
        d.message@ == message@,
        d.code is None,
        d.source is None,
{
    Diagnostic {
        range: Range {
            start: Position { line, character: 0 },
            end: Position { line, character: 0 },
        },
        severity: Some(DiagnosticSeverity::Error),
        code: None,
        source: None,
        message: message.to_owned(),
    }
}

/// A single cached entry for one analyzed file.
#[derive(Debug, Clone)]
pub struct CacheEntry {
    /// Absolute path of the analyzed file.
    pub path: String,
    /// Last-modified time (seconds since Unix epoch) at analysis time.
    pub mtime: u64,
    /// Diagnostics produced for this file.
    pub diagnostics: Vec<Diagnostic>,
}

/// Full cache file contents.
#[derive(Debug, Clone, Default)]
pub struct CacheData {
    /// Map from file path string to its cached entry.
    pub entries: HashMap<String, CacheEntry>,
}

/// Persistent file-based analysis cache, stored as JSON at `path`.
#[derive(Debug, Clone)]
pub struct AnalysisCache {
    pub path: String,
}

impl AnalysisCache {
    /// Create a new cache backed by the file at `path`; the file need not
    /// exist yet.
    pub fn new(path: String) -> (c: Self)
        ensures
            c.path == path,
    {
        AnalysisCache { path }
    }
}

} // verus!
