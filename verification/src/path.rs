//! File identity and path utilities.
use vstd::prelude::*;

use crate::text::{char_utf8_len, chars_of, str_eq, utf8_len_seq};

verus! {

/// A stable file identity: (device, inode) on Unix, zeros on Windows.
#[derive(Debug, Clone, Copy, PartialEq, Eq, Hash, Structural)]
pub struct FileId {
    pub dev: u64,
    pub ino: u64,
}

/// Return `true` if `id1` and `id2` refer to the same file; `None` never
/// matches anything.
pub fn same_file_id(id1: Option<FileId>, id2: Option<FileId>) -> (r: bool)
    ensures
        r == (id1 is Some && id2 is Some && id1 == id2),
{
    match (id1, id2) {
        (Some(a), Some(b)) => a.dev == b.dev && a.ino == b.ino,
        _ => false,
    }
}

/// Whether the path with text `base` is a prefix of the path with text
/// `path`, component by component, as `Path::starts_with` decides.
pub uninterp spec fn path_starts_with(path: Seq<char>, base: Seq<char>) -> bool;

/// `std::path::Path::starts_with`: its contract claims the result is
/// `path_starts_with` of the two texts.
#[verifier::external_body]
fn starts_with_path(path: &str, base: &str) -> (r: bool)
    ensures
        r == path_starts_with(path@, base@),
{
    std::path::Path::new(path).starts_with(std::path::Path::new(base))
}

/// Return `true` if `path` is relative to (a descendant of) `base`.
pub fn path_is_relative_to(path: &str, base: &str) -> (r: bool)
    ensures
        r == path_starts_with(path@, base@),
{
    starts_with_path(path, base)
}

/// The components of the path with this text, each as its text: `/` for
/// the root, `.` for a leading current directory, `..` for a parent
/// directory, a name otherwise (as `Path::components` splits it).
pub uninterp spec fn path_components(p: Seq<char>) -> Seq<Seq<char>>;

/// The text of the path built by pushing these components in turn onto an
/// empty `PathBuf`.
pub uninterp spec fn path_join(parts: Seq<Seq<char>>) -> Seq<char>;

/// `Path::components`, each component as its text.  Its contract claims the
/// texts are `path_components` of the path.
#[verifier::external_body]
fn components_of(p: &str) -> (r: Vec<String>)
    ensures
        r@.map_values(|c: String| c@) == path_components(p@),
{
    let mut r = Vec::new();
    for c in std::path::Path::new(p).components() {
        r.push(c.as_os_str().to_string_lossy().into_owned());
    }
    r
}

/// `PathBuf::push` of each component in turn onto an empty `PathBuf`, as
/// text.  Its contract claims the text is `path_join` of the components.
#[verifier::external_body]
fn join_components(parts: &Vec<String>) -> (r: String)
    ensures
        r@ == path_join(parts@.map_values(|c: String| c@)),
{
    let mut buf = std::path::PathBuf::new();
    for c in parts {
        buf.push(c);
    }
    buf.to_string_lossy().into_owned()
}

/// The components left after dropping `.` and letting each `..` remove the
/// component before it (the root too).
pub open spec fn clean_components(cs: Seq<Seq<char>>) -> Seq<Seq<char>>
    decreases cs.len(),
{
    if cs.len() == 0 {
        cs
    } else {
        let a = clean_components(cs.drop_last());
        let c = cs.last();
        if c == "."@ {
            a
        } else if c == ".."@ {
            if a.len() > 0 {
                a.drop_last()
            } else {
                a
            }
        } else {
            a.push(c)
        }
    }
}

/// The text of a path cleaned lexically: `.` and `..` resolved without
/// looking at the file system; `/` when nothing is left.
pub open spec fn clean_path_text(p: Seq<char>) -> Seq<char> {
    let cs = clean_components(path_components(p));
    if cs.len() == 0 {
        "/"@
    } else {
        path_join(cs)
    }
}

/// Lexically clean `path`: remove `.` components and resolve `..` against
/// the component before it.  Symlinks are not resolved.
pub fn clean_path(path: &str) -> (r: String)
    ensures
        r@ == clean_path_text(path@),
{
    let comps = components_of(path);
    let ghost cs = comps@.map_values(|c: String| c@);
    let mut out: Vec<String> = Vec::new();
    for i in 0..comps.len()
        invariant
            cs == comps@.map_values(|c: String| c@),
            out@.map_values(|c: String| c@) == clean_components(cs.take(i as int)),
    {
        let ghost before = out@.map_values(|c: String| c@);
        assert(cs.take(i + 1).drop_last() == cs.take(i as int));
        assert(cs.take(i + 1).last() == comps@[i as int]@);
        let c = &comps[i];
        if str_eq(c.as_str(), ".") {
        } else if str_eq(c.as_str(), "..") {
            if out.len() > 0 {
                out.pop();
                assert(out@.map_values(|c: String| c@) == before.drop_last());
            }
        } else {
            out.push(c.clone());
            assert(out@.map_values(|c: String| c@) == before.push(comps@[i as int]@));
        }
    }
    assert(cs.take(comps.len() as int) == cs);
    if out.len() == 0 {
        return "/".to_owned();
    }
    join_components(&out)
}

/// The folder that contains `target` most specifically: among the folders
/// whose path is known and is a prefix of `target`, one with the longest
/// path (counted in bytes), the last such on a tie.
pub open spec fn innermost_index(target: Seq<char>, folders: Seq<Option<Seq<char>>>) -> Option<int>
    decreases folders.len(),
{
    if folders.len() == 0 {
        None
    } else {
        let prev = innermost_index(target, folders.drop_last());
        let last = folders.len() - 1;
        match folders.last() {
            Some(p) => if path_starts_with(target, p) {
                match prev {
                    Some(j) => if utf8_len_seq(p) >= utf8_len_seq(folders[j]->0) {
                        Some(last)
                    } else {
                        prev
                    },
                    None => Some(last),
                }
            } else {
                prev
            },
            None => prev,
        }
    }
}

/// The folder chosen is one of the folders, and one with a path.
pub proof fn lemma_innermost_index_bounds(target: Seq<char>, folders: Seq<Option<Seq<char>>>)
    ensures
        innermost_index(target, folders) matches Some(j) ==> 0 <= j < folders.len()
            && folders[j] is Some,
    decreases folders.len(),
{
    if folders.len() > 0 {
        lemma_innermost_index_bounds(target, folders.drop_last());
    }
}

pub(crate) fn utf8_byte_len(s: &str) -> (n: u128)
    ensures
        n == utf8_len_seq(s@),
{
    let cs = chars_of(s);
    let mut n: u128 = 0;
    for i in 0..cs.len()
        invariant
            cs@ == s@,
            n == utf8_len_seq(cs@.take(i as int)),
            n <= 4 * i,
    {
        assert(cs@.take(i + 1).drop_last() == cs@.take(i as int));
        let c = char_utf8_len(cs[i]);
        n = n + c as u128;
    }
    assert(cs@.take(cs.len() as int) == cs@);
    n
}

/// The index of the folder that contains `target` most specifically, given
/// each folder's path where it has one.
pub fn innermost_folder(target: &str, folder_paths: &Vec<Option<String>>) -> (r: Option<usize>)
    ensures
        match innermost_index(target@, folder_paths@.map_values(|p: Option<String>| match p {
            Some(s) => Some(s@),
            None => None,
        })) {
            Some(j) => r == Some(j as usize),
            None => r is None,
        },
        r matches Some(j) ==> j < folder_paths@.len(),
{
    let ghost fs = folder_paths@.map_values(|p: Option<String>| match p {
        Some(s) => Some(s@),
        None => None,
    });
    let mut best: Option<usize> = None;
    let mut best_len: u128 = 0;
    for i in 0..folder_paths.len()
        invariant
            fs == folder_paths@.map_values(|p: Option<String>| match p {
                Some(s) => Some(s@),
                None => None,
            }),
            match innermost_index(target@, fs.take(i as int)) {
                Some(j) => best == Some(j as usize) && best_len == utf8_len_seq(fs[j]->0) && 0 <= j < i
                    && fs[j] is Some,
                None => best is None,
            },
    {
        assert(fs.take(i + 1).drop_last() == fs.take(i as int));
        assert(fs.take(i + 1).last() == fs[i as int]);
        match &folder_paths[i] {
            Some(p) => {
                if starts_with_path(target, p.as_str()) {
                    let len = utf8_byte_len(p.as_str());
                    match best {
                        Some(_) => {
                            if len >= best_len {
                                best = Some(i);
                                best_len = len;
                            }
                        },
                        None => {
                            best = Some(i);
                            best_len = len;
                        },
                    }
                }
            },
            None => {},
        }
    }
    assert(fs.take(folder_paths.len() as int) == fs);
    best
}

} // verus!
