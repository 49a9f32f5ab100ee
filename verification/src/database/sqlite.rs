//! The rows of the cache's tables, as plain records.

use vstd::prelude::*;

verus! {

/// A row of the table of directories.
#[derive(Debug, Clone, PartialEq, Eq)]
pub struct Dir {
    pub name: String,
    pub path: String,
    pub parent_path: String,
}

/// A row of the table of files.
#[derive(Debug, Clone, PartialEq, Eq)]
pub struct File {
    pub name: String,
    pub path: String,
    pub parent_path: String,
    pub size: u64,
    pub ext: String,
}

/// A row of the table of declared packages.
#[derive(Debug, Clone, PartialEq, Eq)]
pub struct NpmPkg {
    pub name: String,
    pub version: String,
    pub pkg_type: String,
}

/// A row of the table of references: the file `file_id` imports the binding
/// `module` from the file or package `ref_id`.
#[derive(Debug, Clone, PartialEq, Eq)]
pub struct FileRefs {
    pub file_id: u64,
    pub ref_id: u64,
    pub ref_type: String,
    pub module: String,
}

/// The value of a `FileRefs`.
pub struct FileRefsView {
    pub file_id: u64,
    pub ref_id: u64,
    pub ref_type: Seq<char>,
    pub module: Seq<char>,
}

impl View for FileRefs {
    type V = FileRefsView;

    open spec fn view(&self) -> FileRefsView {
        FileRefsView {
            file_id: self.file_id,
            ref_id: self.ref_id,
            ref_type: self.ref_type@,
            module: self.module@,
        }
    }
}

/// The value of an `NpmPkg`.
pub struct NpmPkgView {
    pub name: Seq<char>,
    pub version: Seq<char>,
    pub pkg_type: Seq<char>,
}

impl View for NpmPkg {
    type V = NpmPkgView;

    open spec fn view(&self) -> NpmPkgView {
        NpmPkgView { name: self.name@, version: self.version@, pkg_type: self.pkg_type@ }
    }
}

} // verus!
