//! What the scan of a project tree and the reading of its manifest give.

use vstd::prelude::*;
use crate::path::{extension, extension_of, file_name, file_name_of, parent, parent_of};
use crate::text::to_chars;

verus! {

/// A file of the project tree.
#[derive(Debug, Clone, PartialEq, Eq)]
pub struct File {
    pub name: String,
    pub path: String,
    pub parent_path: String,
    pub size: u64,
    pub ext: String,
    pub file_type: String,
}

/// A directory of the project tree.
#[derive(Debug, Clone, PartialEq, Eq)]
pub struct Dir {
    pub name: String,
    pub path: String,
    pub parent_path: String,
}

/// The files and directories found under the root of a project.
#[derive(Debug, Clone, PartialEq, Eq)]
pub struct Project {
    pub files: Vec<File>,
    pub dirs: Vec<Dir>,
    pub project_root_path: String,
}

/// The manifest of a project: its name and version, and the packages it
/// declares, each with the version asked for, those needed at run time apart
/// from those needed for development.
#[derive(Debug, Clone, PartialEq, Eq)]
pub struct PackageJson {
    pub name: String,
    pub version: String,
    pub dependencies: Vec<(String, String)>,
    pub dev_dependencies: Vec<(String, String)>,
}

/// The extension of `path`, or nothing where it has none.
pub open spec fn extension_or_empty(path: Seq<char>) -> Seq<char> {
    match extension(path) {
        Some(e) => e,
        None => Seq::empty(),
    }
}

/// Whether `file` describes the file at `path`, of `size` bytes: its name
/// is what follows the last `/`, its parent what stands before it, its
/// extension what follows the last `.` of the name, if any. The kind of file
/// is left open.
pub open spec fn describes_file(file: File, path: Seq<char>, size: u64) -> bool {
    &&& file.path@ == path
    &&& file.name@ == file_name(path)
    &&& file.parent_path@ == parent(path)
    &&& file.size == size
    &&& file.ext@ == extension_or_empty(path)
    &&& file.file_type@ == Seq::<char>::empty()
}

/// Whether `dir` describes the directory at `path`.
pub open spec fn describes_dir(dir: Dir, path: Seq<char>) -> bool {
    &&& dir.path@ == path
    &&& dir.name@ == file_name(path)
    &&& dir.parent_path@ == parent(path)
}

/// Describes the file at `path`, of `size` bytes.
pub fn create_file_from_path(path: &str, size: u64) -> (file: File)
    ensures
        describes_file(file, path@, size),
{
    let ext = match extension_of(path) {
        Some(e) => e,
        None => String::new(),
    };
    File {
        name: file_name_of(path),
        path: String::from_str(path),
        parent_path: parent_of(path),
        size,
        ext,
        file_type: String::new(),
    }
}

/// Describes the directory at `path`.
pub fn create_dir_from_path(path: &str) -> (dir: Dir)
    ensures
        describes_dir(dir, path@),
{
    Dir { name: file_name_of(path), path: String::from_str(path), parent_path: parent_of(path) }
}

/// Whether `needle` occurs in `text` at position `at`.
pub open spec fn occurs_at(text: Seq<char>, needle: Seq<char>, at: int) -> bool {
    0 <= at && at + needle.len() <= text.len() && text.subrange(at, at + needle.len()) == needle
}

/// Whether `needle` occurs somewhere in `text`.
pub open spec fn contains_text(text: Seq<char>, needle: Seq<char>) -> bool {
    exists|at: int| occurs_at(text, needle, at)
}

/// Whether one of `exclude` occurs in `dir_path`.
pub open spec fn excluded(dir_path: Seq<char>, exclude: Seq<String>) -> bool {
    exists|k: int| 0 <= k < exclude.len() && contains_text(dir_path, #[trigger] exclude[k]@)
}

fn matches_at(text: &Vec<char>, needle: &Vec<char>, at: usize) -> (found: bool)
    requires
        at + needle.len() <= text.len(),
    ensures
        found == occurs_at(text@, needle@, at as int),
{
    let mut j: usize = 0;
    while j < needle.len()
        invariant
            j <= needle.len(),
            at + needle.len() <= text.len(),
            forall|i: int| 0 <= i < j ==> text@[at + i] == needle@[i],
        decreases needle.len() - j,
    {
        if text[at + j] != needle[j] {
            proof {
                let part = text@.subrange(at as int, at + needle.len());
                assert(part[j as int] == text@[at + j]);
            }
            return false;
        }
        j += 1;
    }
    assert(text@.subrange(at as int, at + needle.len()) =~= needle@);
    true
}

fn contains_chars(text: &Vec<char>, needle: &Vec<char>) -> (found: bool)
    ensures
        found == contains_text(text@, needle@),
{
    if needle.len() == 0 {
        assert(text@.subrange(0, 0) =~= needle@);
        assert(occurs_at(text@, needle@, 0));
        return true;
    }
    let mut at: usize = 0;
    while at < text.len() && text.len() - at >= needle.len()
        invariant
            needle.len() > 0,
            forall|i: int| 0 <= i < at ==> !occurs_at(text@, needle@, i),
        decreases text.len() - at,
    {
        if matches_at(text, needle, at) {
            return true;
        }
        at += 1;
    }
    false
}

/// Whether the entry at `path` is left out of a scan: it is where one of the
/// texts of `exclude` occurs in its path. Without a list nothing is left
/// out.
pub open spec fn left_out(path: Seq<char>, exclude: Option<Vec<String>>) -> bool {
    match exclude {
        Some(list) => excluded(path, list@),
        None => false,
    }
}

/// Decides whether the entry at `path` is left out of a scan.
pub fn is_excluded(path: &str, exclude: &Option<Vec<String>>) -> (out: bool)
    ensures
        out == left_out(path@, *exclude),
{
    match exclude {
        None => false,
        Some(list) => {
            let text = to_chars(path);
            let mut k: usize = 0;
            while k < list.len()
                invariant
                    k <= list.len(),
                    *exclude == Some(*list),
                    text@ == path@,
                    forall|i: int| 0 <= i < k ==> !contains_text(path@, (#[trigger] list@[i])@),
                decreases list.len() - k,
            {
                let needle = to_chars(list[k].as_str());
                if contains_chars(&text, &needle) {
                    assert(contains_text(path@, list@[k as int]@));
                    return true;
                }
                k += 1;
            }
            false
        },
    }
}

/// What a scan does with one entry of a directory.
#[derive(Debug, Clone, PartialEq, Eq)]
pub enum ScanStep {
    /// The entry is a file: it is recorded.
    Record(File),
    /// The entry is a directory: it is recorded, and the scan goes on
    /// inside it.
    Enter(Dir),
    /// The entry is left out, and with it, for a directory, all that lies
    /// below it.
    Skip,
}

/// Decides what a scan does with the entry at `path`. An entry in whose
/// path one of the texts of `exclude` occurs is left out, be it a file or a
/// directory. Any other file is recorded, and any other directory is
/// recorded and entered. So nothing that a scan records has an excluded
/// text in its path, and everything else under the root is recorded.
pub fn scan_entry(
    path: &str,
    is_dir: bool,
    size: u64,
    exclude: &Option<Vec<String>>,
) -> (step: ScanStep)
    ensures
        match step {
            ScanStep::Skip => left_out(path@, *exclude),
            ScanStep::Record(file) => {
                &&& !left_out(path@, *exclude)
                &&& !is_dir
                &&& describes_file(file, path@, size)
            },
            ScanStep::Enter(dir) => {
                &&& !left_out(path@, *exclude)
                &&& is_dir
                &&& describes_dir(dir, path@)
            },
        },
{
    if is_excluded(path, exclude) {
        ScanStep::Skip
    } else if is_dir {
        ScanStep::Enter(create_dir_from_path(path))
    } else {
        ScanStep::Record(create_file_from_path(path, size))
    }
}

/// A path with an excluded text in it has that text in every path below it:
/// what lies under a directory that is left out would be left out as well.
pub proof fn lemma_left_out_below(path: Seq<char>, below: Seq<char>, exclude: Option<Vec<String>>)
    requires
        left_out(path, exclude),
        path.is_prefix_of(below),
    ensures
        left_out(below, exclude),
{
    let list = exclude->0;
    let k = choose|k: int| 0 <= k < list@.len() && contains_text(path, #[trigger] list@[k]@);
    let needle = list@[k]@;
    let at = choose|at: int| occurs_at(path, needle, at);
    assert(below.subrange(at, at + needle.len()) =~= path.subrange(at, at + needle.len()));
    assert(occurs_at(below, needle, at));
}

} // verus!
