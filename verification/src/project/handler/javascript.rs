//! Resolution of JavaScript and TypeScript import specifiers, in the manner
//! of Node: a specifier names a project file, directly or through an added
//! extension or an index file, or a declared package, or nothing known.

use vstd::prelude::*;
use crate::parser::javascript::{RawImport, RawImportView};
use crate::path::{dot, extension, extension_of, join, join_from_file};
use crate::project::alias::{rewrite_alias, rewritten, AliasTable};
use crate::project::analyze::javascript::{
    all_extracted,
    analyze_all,
    keeps_failure,
    ExtractedFile,
    ExtractedView,
    SourceFile,
};
use crate::project::context::{table_of, IdTable};
use crate::text::{clone_strings, strings, to_chars, views_of};

verus! {

/// The extensions of source files, in the order in which they are tried.
pub open spec fn source_extensions() -> Seq<Seq<char>> {
    seq![
        seq!['j', 's'],
        seq!['j', 's', 'x'],
        seq!['t', 's'],
        seq!['t', 's', 'x'],
        seq!['c', 'j', 's'],
        seq!['m', 'j', 's'],
    ]
}

/// Whether `e` is one of the source extensions.
pub open spec fn is_source_extension(e: Seq<char>) -> bool {
    exists|k: int| 0 <= k < 6 && source_extensions()[k] == e
}

/// Whether `specifier` is relative: it starts with `./` or `../`, or is `.`.
pub open spec fn is_relative(specifier: Seq<char>) -> bool {
    ||| specifier.len() >= 2 && specifier[0] == '.' && specifier[1] == '/'
    ||| specifier.len() >= 3 && specifier[0] == '.' && specifier[1] == '.' && specifier[2] == '/'
    ||| specifier == dot()
}

/// The path that `specifier` stands for when the file at `file_path` imports
/// it. A relative specifier is joined against that file's directory; any
/// other is taken as an absolute path, with a `/` put in front where it has
/// none.
pub open spec fn constructed_path(specifier: Seq<char>, file_path: Seq<char>) -> Seq<char> {
    if is_relative(specifier) {
        join_from_file(file_path, specifier)
    } else if specifier.len() > 0 && specifier[0] == '/' {
        specifier
    } else {
        seq!['/'] + specifier
    }
}

/// `stem` with the `k`-th source extension added.
pub open spec fn with_extension(stem: Seq<char>, k: int) -> Seq<char> {
    stem + seq!['.'] + source_extensions()[k]
}

/// The index file of the directory `stem`, with the `k`-th source extension.
pub open spec fn index_file(stem: Seq<char>, k: int) -> Seq<char> {
    stem + seq!['/', 'i', 'n', 'd', 'e', 'x', '.'] + source_extensions()[k]
}

/// The `k`-th candidate for `stem`: its index file, or itself with an
/// extension.
pub open spec fn candidate(stem: Seq<char>, index: bool, k: int) -> Seq<char> {
    if index {
        index_file(stem, k)
    } else {
        with_extension(stem, k)
    }
}

/// The first candidate for `stem`, from the `k`-th on, that `files` holds.
pub open spec fn first_present(
    stem: Seq<char>,
    files: Set<Seq<char>>,
    index: bool,
    k: int,
) -> Option<int>
    decreases 6 - k,
{
    if k < 0 || k >= 6 {
        None
    } else if files.contains(candidate(stem, index, k)) {
        Some(k)
    } else {
        first_present(stem, files, index, k + 1)
    }
}

/// Whether `path` carries a source extension and is itself one of `files`.
pub open spec fn is_exact_match(path: Seq<char>, files: Set<Seq<char>>) -> bool {
    &&& extension(path) matches Some(e)
    &&& is_source_extension(e)
    &&& files.contains(path)
}

/// Whether `path`, which has no extension, names a file once an extension
/// is added.
pub open spec fn has_extension_match(path: Seq<char>, files: Set<Seq<char>>) -> bool {
    extension(path) is None && first_present(path, files, false, 0) is Some
}

/// The project file that `path` names: itself, where it carries a source
/// extension and is a file; else, where it has no extension, the first file
/// among `path.js`, `path.jsx`, `path.ts`, `path.tsx`, `path.cjs` and
/// `path.mjs`; else the first file among `path/index.js` up to
/// `path/index.mjs`, in the same order.
pub open spec fn matched_file(path: Seq<char>, files: Set<Seq<char>>) -> Option<Seq<char>> {
    if is_exact_match(path, files) {
        Some(path)
    } else if has_extension_match(path, files) {
        Some(with_extension(path, first_present(path, files, false, 0)->0))
    } else if first_present(path, files, true, 0) is Some {
        Some(index_file(path, first_present(path, files, true, 0)->0))
    } else {
        None
    }
}

/// The `k`-th source extension.
fn source_extension(k: usize) -> (e: &'static str)
    requires
        k < 6,
    ensures
        e@ == source_extensions()[k as int],
{
    proof {
        reveal_strlit("js");
        reveal_strlit("jsx");
        reveal_strlit("ts");
        reveal_strlit("tsx");
        reveal_strlit("cjs");
        reveal_strlit("mjs");
    }
    let e = if k == 0 {
        "js"
    } else if k == 1 {
        "jsx"
    } else if k == 2 {
        "ts"
    } else if k == 3 {
        "tsx"
    } else if k == 4 {
        "cjs"
    } else {
        "mjs"
    };
    assert(e@ =~= source_extensions()[k as int]);
    e
}

/// Whether `e` is a source extension.
fn is_known_extension(e: &String) -> (known: bool)
    ensures
        known == is_source_extension(e@),
{
    let mut k: usize = 0;
    while k < 6
        invariant
            k <= 6,
            forall|j: int| 0 <= j < k ==> source_extensions()[j] != e@,
        decreases 6 - k,
    {
        let candidate = String::from_str(source_extension(k));
        if candidate == *e {
            return true;
        }
        k += 1;
    }
    false
}

/// The first candidate for `stem` that is a project file.
fn probe(stem: &str, project_files: &IdTable, index: bool) -> (found: Option<String>)
    ensures
        match found {
            Some(p) => {
                &&& first_present(stem@, project_files@.dom(), index, 0) matches Some(k)
                &&& p@ == candidate(stem@, index, k)
            },
            None => first_present(stem@, project_files@.dom(), index, 0) is None,
        },
{
    let mut k: usize = 0;
    while k < 6
        invariant
            k <= 6,
            first_present(stem@, project_files@.dom(), index, 0) == first_present(
                stem@,
                project_files@.dom(),
                index,
                k as int,
            ),
        decreases 6 - k,
    {
        let mut path = String::from_str(stem);
        if index {
            path.append("/index.");
        } else {
            path.append(".");
        }
        path.append(source_extension(k));
        proof {
            reveal_strlit("/index.");
            reveal_strlit(".");
            assert("/index."@ =~= seq!['/', 'i', 'n', 'd', 'e', 'x', '.']);
            assert("."@ =~= seq!['.']);
            assert(path@ =~= candidate(stem@, index, k as int));
        }
        if project_files.contains(path.as_str()) {
            return Some(path);
        }
        k += 1;
    }
    None
}

/// Finds the project file that the absolute path `import_path` names, the
/// way Node does: the path itself where it carries a source extension and is
/// a file; else, where it has no extension, the path with the first of
/// `js`, `jsx`, `ts`, `tsx`, `cjs`, `mjs` that gives a file; else its index
/// file, with the extensions tried in the same order.
pub fn auto_match_project_file_by_import_path(
    import_path: &str,
    project_files: &IdTable,
) -> (found: Option<String>)
    ensures
        match found {
            Some(p) => matched_file(import_path@, project_files@.dom()) == Some(p@),
            None => matched_file(import_path@, project_files@.dom()) is None,
        },
{
    let ext = extension_of(import_path);
    let has_extension = ext.is_some();
    if let Some(e) = ext {
        if is_known_extension(&e) && project_files.contains(import_path) {
            return Some(String::from_str(import_path));
        }
    }
    if !has_extension {
        if let Some(p) = probe(import_path, project_files, false) {
            return Some(p);
        }
    }
    probe(import_path, project_files, true)
}

/// Writes the path that `specifier` stands for when the file at `file_path`
/// imports it.
pub fn construct_path(specifier: &str, file_path: &str) -> (path: String)
    ensures
        path@ == constructed_path(specifier@, file_path@),
{
    let chars = to_chars(specifier);
    let n = chars.len();
    let relative = (n >= 2 && chars[0] == '.' && chars[1] == '/') || (n >= 3 && chars[0] == '.'
        && chars[1] == '.' && chars[2] == '/') || (n == 1 && chars[0] == '.');
    proof {
        if n == 1 && chars[0] == '.' {
            assert(specifier@ =~= dot());
        }
    }
    if relative {
        join(file_path, specifier)
    } else if n > 0 && chars[0] == '/' {
        String::from_str(specifier)
    } else {
        let mut path = String::from_str("/");
        path.append(specifier);
        proof {
            reveal_strlit("/");
            assert("/"@ =~= seq!['/']);
        }
        path
    }
}

/// Resolves the specifier `import_path`, written in the file at `file_path`,
/// to the project file it names, if it names one.
pub fn resolve_import_file_path(
    import_path: &str,
    file_path: &str,
    project_files: &IdTable,
) -> (found: Option<String>)
    ensures
        match found {
            Some(p) => matched_file(
                constructed_path(import_path@, file_path@),
                project_files@.dom(),
            ) == Some(p@),
            None => matched_file(constructed_path(import_path@, file_path@), project_files@.dom())
                is None,
        },
{
    let path = construct_path(import_path, file_path);
    auto_match_project_file_by_import_path(path.as_str(), project_files)
}

/// What a specifier resolves to: a file of the project, by its identifier;
/// a declared package, by its identifier; or nothing known, in which case
/// the specifier is kept as it stood when resolution began.
#[derive(Debug, Clone, PartialEq, Eq)]
pub enum Resolution {
    ProjectFileRef(u64),
    PackageRef(u64),
    Unresolved(String),
}

/// The value of a `Resolution`.
pub enum ResolutionView {
    ProjectFileRef(u64),
    PackageRef(u64),
    Unresolved(Seq<char>),
}

impl View for Resolution {
    type V = ResolutionView;

    open spec fn view(&self) -> ResolutionView {
        match self {
            Resolution::ProjectFileRef(id) => ResolutionView::ProjectFileRef(*id),
            Resolution::PackageRef(id) => ResolutionView::PackageRef(*id),
            Resolution::Unresolved(specifier) => ResolutionView::Unresolved(specifier@),
        }
    }
}

/// The resolution of `specifier`, as written in the file at `file_path`,
/// against the files and packages of a run. A file that the constructed path
/// names comes first; failing that, a package whose name is the specifier
/// itself; failing that, the specifier stays unresolved.
pub open spec fn resolution_of(
    specifier: Seq<char>,
    file_path: Seq<char>,
    files: Map<Seq<char>, u64>,
    packages: Map<Seq<char>, u64>,
) -> ResolutionView {
    match matched_file(constructed_path(specifier, file_path), files.dom()) {
        Some(path) => ResolutionView::ProjectFileRef(files[path]),
        None => {
            if packages.contains_key(specifier) {
                ResolutionView::PackageRef(packages[specifier])
            } else {
                ResolutionView::Unresolved(specifier)
            }
        },
    }
}

/// What `first_present` finds is a file, the candidates before it are not,
/// and where it finds nothing no candidate is a file.
pub proof fn lemma_first_present(stem: Seq<char>, files: Set<Seq<char>>, index: bool, k: int)
    requires
        0 <= k <= 6,
    ensures
        match first_present(stem, files, index, k) {
            Some(m) => {
                &&& k <= m < 6
                &&& files.contains(candidate(stem, index, m))
                &&& forall|j: int| k <= j < m ==> !files.contains(candidate(stem, index, j))
            },
            None => forall|j: int| k <= j < 6 ==> !files.contains(candidate(stem, index, j)),
        },
    decreases 6 - k,
{
    if k < 6 && !files.contains(candidate(stem, index, k)) {
        lemma_first_present(stem, files, index, k + 1);
    }
}

/// Two candidates of one kind for one stem are different paths.
pub proof fn lemma_candidates_differ(stem: Seq<char>, index: bool, j: int, k: int)
    requires
        0 <= j < 6,
        0 <= k < 6,
        j != k,
    ensures
        candidate(stem, index, j) != candidate(stem, index, k),
{
    let a = candidate(stem, index, j);
    let b = candidate(stem, index, k);
    let n = stem.len() as int + if index {
        7int
    } else {
        1int
    };
    assert(a.skip(n) =~= source_extensions()[j]);
    assert(b.skip(n) =~= source_extensions()[k]);
    let ej = source_extensions()[j];
    let ek = source_extensions()[k];
    if ej.len() == ek.len() {
        assert(ej[0] != ek[0] || ej[1] != ek[1]);
    }
}

/// Whatever `matched_file` names is one of the files.
pub proof fn lemma_matched_file_is_file(path: Seq<char>, files: Set<Seq<char>>)
    ensures
        matched_file(path, files) matches Some(p) ==> files.contains(p),
{
    lemma_first_present(path, files, false, 0);
    lemma_first_present(path, files, true, 0);
}

/// A path that carries a source extension and is itself a file resolves to
/// that file, whatever other files share its stem.
pub proof fn lemma_exact_match_wins(path: Seq<char>, files: Set<Seq<char>>)
    requires
        is_exact_match(path, files),
    ensures
        matched_file(path, files) == Some(path),
{
}

/// A specifier whose constructed path carries a source extension and is
/// itself a file resolves to that file, whatever else the file set and the
/// package set hold.
pub proof fn lemma_exact_match_resolves(
    specifier: Seq<char>,
    file_path: Seq<char>,
    files: Map<Seq<char>, u64>,
    packages: Map<Seq<char>, u64>,
)
    requires
        is_exact_match(constructed_path(specifier, file_path), files.dom()),
    ensures
        resolution_of(specifier, file_path, files, packages) == ResolutionView::ProjectFileRef(
            files[constructed_path(specifier, file_path)],
        ),
{
}

/// Among the files `stem.js`, `stem.jsx`, `stem.ts`, `stem.tsx`, `stem.cjs`
/// and `stem.mjs`, an earlier one beats a later one: where the `j`-th exists,
/// a stem without extension resolves to it or to one before it, and never to
/// the `k`-th for a `k` after `j`.
pub proof fn lemma_extension_priority(stem: Seq<char>, files: Set<Seq<char>>, j: int, k: int)
    requires
        extension(stem) is None,
        0 <= j < k < 6,
        files.contains(with_extension(stem, j)),
    ensures
        exists|m: int| 0 <= m <= j && matched_file(stem, files) == Some(with_extension(stem, m)),
        matched_file(stem, files) != Some(with_extension(stem, k)),
{
    lemma_first_present(stem, files, false, 0);
    let m = first_present(stem, files, false, 0)->0;
    assert(candidate(stem, false, j) == with_extension(stem, j));
    assert(0 <= m <= j);
    assert(matched_file(stem, files) == Some(with_extension(stem, m)));
    lemma_candidates_differ(stem, false, m, k);
}

/// The same order holds among index files: where `stem/index` with the
/// `j`-th extension exists and resolution reaches the index files, an index
/// file after it is never chosen.
pub proof fn lemma_index_priority(stem: Seq<char>, files: Set<Seq<char>>, j: int, k: int)
    requires
        !is_exact_match(stem, files),
        !has_extension_match(stem, files),
        0 <= j < k < 6,
        files.contains(index_file(stem, j)),
    ensures
        exists|m: int| 0 <= m <= j && matched_file(stem, files) == Some(index_file(stem, m)),
        matched_file(stem, files) != Some(index_file(stem, k)),
{
    lemma_first_present(stem, files, true, 0);
    let m = first_present(stem, files, true, 0)->0;
    assert(candidate(stem, true, j) == index_file(stem, j));
    assert(0 <= m <= j);
    assert(matched_file(stem, files) == Some(index_file(stem, m)));
    lemma_candidates_differ(stem, true, m, k);
}

/// An index file is the last resort: where a path resolves to one of its
/// index files, the path is no exact match, and, if it has no extension,
/// none of `path.js` up to `path.mjs` is a file.
pub proof fn lemma_index_is_last_resort(path: Seq<char>, files: Set<Seq<char>>, k: int)
    requires
        0 <= k < 6,
        matched_file(path, files) == Some(index_file(path, k)),
    ensures
        !is_exact_match(path, files),
        extension(path) is None ==> forall|j: int|
            0 <= j < 6 ==> !files.contains(#[trigger] with_extension(path, j)),
{
    let found = index_file(path, k);
    assert(found.len() > path.len());
    if has_extension_match(path, files) {
        let m = first_present(path, files, false, 0)->0;
        lemma_first_present(path, files, false, 0);
        assert(with_extension(path, m)[path.len() as int] == '.');
        assert(found[path.len() as int] == '/');
    }
    if extension(path) is None {
        lemma_first_present(path, files, false, 0);
        assert forall|j: int| 0 <= j < 6 implies !files.contains(
            #[trigger] with_extension(path, j),
        ) by {
            assert(candidate(path, false, j) == with_extension(path, j));
        }
    }
}

/// A resolution to a project file names a file of the run: some path of the
/// file table has the identifier.
pub proof fn lemma_resolved_file_exists(
    specifier: Seq<char>,
    file_path: Seq<char>,
    files: Map<Seq<char>, u64>,
    packages: Map<Seq<char>, u64>,
)
    ensures
        resolution_of(specifier, file_path, files, packages) matches ResolutionView::ProjectFileRef(
            id,
        ) ==> exists|path: Seq<char>| #[trigger] files.contains_key(path) && files[path] == id,
        resolution_of(specifier, file_path, files, packages) matches ResolutionView::PackageRef(id)
            ==> packages.contains_key(specifier) && packages[specifier] == id,
        resolution_of(specifier, file_path, files, packages) matches ResolutionView::Unresolved(s)
            ==> s == specifier,
{
    let path = constructed_path(specifier, file_path);
    lemma_matched_file_is_file(path, files.dom());
    if let Some(p) = matched_file(path, files.dom()) {
        assert(files.contains_key(p));
    }
}

/// Resolution is a function of its inputs: two resolutions of equal
/// specifiers, from equal paths, against equal tables, are equal.
pub proof fn lemma_resolution_is_a_function(
    specifier1: Seq<char>,
    file_path1: Seq<char>,
    files1: Map<Seq<char>, u64>,
    packages1: Map<Seq<char>, u64>,
    specifier2: Seq<char>,
    file_path2: Seq<char>,
    files2: Map<Seq<char>, u64>,
    packages2: Map<Seq<char>, u64>,
)
    requires
        specifier1 =~= specifier2,
        file_path1 =~= file_path2,
        files1 =~= files2,
        packages1 =~= packages2,
    ensures
        resolution_of(specifier1, file_path1, files1, packages1) == resolution_of(
            specifier2,
            file_path2,
            files2,
            packages2,
        ),
{
}

/// Resolves `specifier`, as written in the file at `file_path` and after any
/// aliasing, against the files and the packages of the run.
pub fn resolve(
    specifier: &str,
    file_path: &str,
    project_files: &IdTable,
    project_npm_pkgs: &IdTable,
) -> (resolution: Resolution)
    ensures
        resolution@ == resolution_of(specifier@, file_path@, project_files@, project_npm_pkgs@),
{
    match resolve_import_file_path(specifier, file_path, project_files) {
        Some(path) => {
            proof {
                lemma_matched_file_is_file(
                    constructed_path(specifier@, file_path@),
                    project_files@.dom(),
                );
                assert(project_files@.contains_key(path@));
            }
            match project_files.get(path.as_str()) {
                Some(id) => Resolution::ProjectFileRef(id),
                // The matched path is a key of the table: this arm is never taken.
                None => Resolution::Unresolved(String::from_str(specifier)),
            }
        },
        None => match project_npm_pkgs.get(specifier) {
            Some(id) => Resolution::PackageRef(id),
            None => Resolution::Unresolved(String::from_str(specifier)),
        },
    }
}

/// One edge of the reference graph: the file that imports, what its
/// specifier resolved to, and the bindings that it imports.
#[derive(Debug, Clone, PartialEq, Eq)]
pub struct ReferenceEdge {
    pub source_file_id: u64,
    pub resolution: Resolution,
    pub symbols: Vec<String>,
}

/// The value of a `ReferenceEdge`.
pub struct ReferenceEdgeView {
    pub source_file_id: u64,
    pub resolution: ResolutionView,
    pub symbols: Seq<Seq<char>>,
}

impl View for ReferenceEdge {
    type V = ReferenceEdgeView;

    open spec fn view(&self) -> ReferenceEdgeView {
        ReferenceEdgeView {
            source_file_id: self.source_file_id,
            resolution: self.resolution@,
            symbols: strings(self.symbols@),
        }
    }
}

/// The edges of one file, by the kind of what they resolved to.
#[derive(Debug)]
pub struct FileImports {
    /// The edges to files of the project.
    pub module: Vec<ReferenceEdge>,
    /// The edges to declared packages.
    pub npm_pkg: Vec<ReferenceEdge>,
    /// The edges that stayed unresolved.
    pub file: Vec<ReferenceEdge>,
}

/// The value of a `FileImports`.
pub struct FileImportsView {
    pub module: Seq<ReferenceEdgeView>,
    pub npm_pkg: Seq<ReferenceEdgeView>,
    pub file: Seq<ReferenceEdgeView>,
}

impl View for FileImports {
    type V = FileImportsView;

    open spec fn view(&self) -> FileImportsView {
        FileImportsView {
            module: views_of(self.module@),
            npm_pkg: views_of(self.npm_pkg@),
            file: views_of(self.file@),
        }
    }
}

/// The value of an optional alias table.
pub open spec fn alias_view(alias: Option<AliasTable>) -> Option<Seq<(Seq<char>, Seq<char>)>> {
    match alias {
        Some(table) => Some(table@),
        None => None,
    }
}

/// `specifier` after aliasing by `alias`, if there is a table.
pub open spec fn aliased(
    specifier: Seq<char>,
    alias: Option<Seq<(Seq<char>, Seq<char>)>>,
) -> Seq<char> {
    match alias {
        Some(table) => rewritten(specifier, table),
        None => specifier,
    }
}

/// The edge that one import of the file `file_id` at `file_path` gives: its
/// specifier is aliased, then resolved, and its bindings are carried along.
pub open spec fn edge_of(
    file_id: u64,
    file_path: Seq<char>,
    import: RawImportView,
    files: Map<Seq<char>, u64>,
    packages: Map<Seq<char>, u64>,
    alias: Option<Seq<(Seq<char>, Seq<char>)>>,
) -> ReferenceEdgeView {
    ReferenceEdgeView {
        source_file_id: file_id,
        resolution: resolution_of(aliased(import.specifier, alias), file_path, files, packages),
        symbols: import.symbols,
    }
}

/// The edges of one file: one for each of its imports, in their order.
pub open spec fn edges_of(
    file_id: u64,
    file_path: Seq<char>,
    imports: Seq<RawImportView>,
    files: Map<Seq<char>, u64>,
    packages: Map<Seq<char>, u64>,
    alias: Option<Seq<(Seq<char>, Seq<char>)>>,
) -> Seq<ReferenceEdgeView> {
    Seq::new(
        imports.len(),
        |i: int| edge_of(file_id, file_path, imports[i], files, packages, alias),
    )
}

/// Those of `edges` that lead to a file of the project, in their order.
pub open spec fn file_edges(edges: Seq<ReferenceEdgeView>) -> Seq<ReferenceEdgeView> {
    edges.filter(|e: ReferenceEdgeView| e.resolution is ProjectFileRef)
}

/// Those of `edges` that lead to a declared package, in their order.
pub open spec fn package_edges(edges: Seq<ReferenceEdgeView>) -> Seq<ReferenceEdgeView> {
    edges.filter(|e: ReferenceEdgeView| e.resolution is PackageRef)
}

/// Those of `edges` that stayed unresolved, in their order.
pub open spec fn unresolved_edges(edges: Seq<ReferenceEdgeView>) -> Seq<ReferenceEdgeView> {
    edges.filter(|e: ReferenceEdgeView| e.resolution is Unresolved)
}

/// `edges` by the kind of what they resolved to.
pub open spec fn partition(edges: Seq<ReferenceEdgeView>) -> FileImportsView {
    FileImportsView {
        module: file_edges(edges),
        npm_pkg: package_edges(edges),
        file: unresolved_edges(edges),
    }
}

/// One more edge goes to the end of the part of its kind and leaves the
/// other two parts as they are.
pub proof fn lemma_partition_push(edges: Seq<ReferenceEdgeView>, edge: ReferenceEdgeView)
    ensures
        file_edges(edges.push(edge)) == if edge.resolution is ProjectFileRef {
            file_edges(edges).push(edge)
        } else {
            file_edges(edges)
        },
        package_edges(edges.push(edge)) == if edge.resolution is PackageRef {
            package_edges(edges).push(edge)
        } else {
            package_edges(edges)
        },
        unresolved_edges(edges.push(edge)) == if edge.resolution is Unresolved {
            unresolved_edges(edges).push(edge)
        } else {
            unresolved_edges(edges)
        },
{
    edges.lemma_filter_push(edge, |e: ReferenceEdgeView| e.resolution is ProjectFileRef);
    edges.lemma_filter_push(edge, |e: ReferenceEdgeView| e.resolution is PackageRef);
    edges.lemma_filter_push(edge, |e: ReferenceEdgeView| e.resolution is Unresolved);
}

/// Every edge lies in exactly one part: the three parts together hold as
/// many edges as there are imports.
pub proof fn lemma_partition_is_total(edges: Seq<ReferenceEdgeView>)
    ensures
        file_edges(edges).len() + package_edges(edges).len() + unresolved_edges(edges).len()
            == edges.len(),
    decreases edges.len(),
{
    if edges.len() > 0 {
        lemma_partition_is_total(edges.drop_last());
        lemma_partition_push(edges.drop_last(), edges.last());
        assert(edges.drop_last().push(edges.last()) =~= edges);
    }
}

/// Builds the edges of the file `file_id` at `file_path` from its imports.
/// Each import gives exactly one edge, with the bindings of the import: its
/// specifier is first rewritten by `alias`, where there is a table, then
/// resolved against the files and packages. The edges come back in three
/// parts, by what they resolved to, each in the order of the imports.
pub fn auto_compete_import_path(
    file_id: u64,
    file_path: &str,
    imports: &Vec<RawImport>,
    project_files: &IdTable,
    project_npm_pkgs: &IdTable,
    alias: &Option<AliasTable>,
) -> (result: FileImports)
    ensures
        result@ == partition(
            edges_of(
                file_id,
                file_path@,
                views_of(imports@),
                project_files@,
                project_npm_pkgs@,
                alias_view(*alias),
            ),
        ),
{
    let mut module: Vec<ReferenceEdge> = Vec::new();
    let mut npm_pkg: Vec<ReferenceEdge> = Vec::new();
    let mut file: Vec<ReferenceEdge> = Vec::new();
    let ghost all = edges_of(
        file_id,
        file_path@,
        views_of(imports@),
        project_files@,
        project_npm_pkgs@,
        alias_view(*alias),
    );
    let mut n: usize = 0;
    proof {
        assert(all.take(0) =~= Seq::<ReferenceEdgeView>::empty());
        assert(views_of(module@) =~= file_edges(all.take(0)));
        assert(views_of(npm_pkg@) =~= package_edges(all.take(0)));
        assert(views_of(file@) =~= unresolved_edges(all.take(0)));
    }
    while n < imports.len()
        invariant
            n <= imports.len(),
            all == edges_of(
                file_id,
                file_path@,
                views_of(imports@),
                project_files@,
                project_npm_pkgs@,
                alias_view(*alias),
            ),
            views_of(module@) == file_edges(all.take(n as int)),
            views_of(npm_pkg@) == package_edges(all.take(n as int)),
            views_of(file@) == unresolved_edges(all.take(n as int)),
        decreases imports.len() - n,
    {
        let import = &imports[n];
        let specifier = match alias {
            Some(table) => rewrite_alias(import.specifier.as_str(), table),
            None => import.specifier.clone(),
        };
        let resolution = resolve(specifier.as_str(), file_path, project_files, project_npm_pkgs);
        let kind: u8 = match &resolution {
            Resolution::ProjectFileRef(_) => 0,
            Resolution::PackageRef(_) => 1,
            Resolution::Unresolved(_) => 2,
        };
        let edge = ReferenceEdge {
            source_file_id: file_id,
            resolution,
            symbols: clone_strings(&import.symbols),
        };
        let ghost old_module = views_of(module@);
        let ghost old_npm_pkg = views_of(npm_pkg@);
        let ghost old_file = views_of(file@);
        proof {
            assert(views_of(imports@)[n as int] == import@);
            assert(edge@ == all[n as int]);
            assert(all.take(n + 1) =~= all.take(n as int).push(edge@));
            lemma_partition_push(all.take(n as int), edge@);
        }
        if kind == 0 {
            module.push(edge);
            assert(views_of(module@) =~= old_module.push(edge@));
        } else if kind == 1 {
            npm_pkg.push(edge);
            assert(views_of(npm_pkg@) =~= old_npm_pkg.push(edge@));
        } else {
            file.push(edge);
            assert(views_of(file@) =~= old_file.push(edge@));
        }
        n += 1;
    }
    proof {
        assert(all.take(imports.len() as int) =~= all);
    }
    FileImports { module, npm_pkg, file }
}

/// A source file of the project with its edges.
#[derive(Debug)]
pub struct File {
    /// The identifier of the file.
    pub id: u64,
    /// The path of the file.
    pub path: String,
    /// The edges that start at the file.
    pub imports: FileImports,
}

/// The value of a `File`.
pub struct FileView {
    pub id: u64,
    pub path: Seq<char>,
    pub imports: FileImportsView,
}

impl View for File {
    type V = FileView;

    open spec fn view(&self) -> FileView {
        FileView { id: self.id, path: self.path@, imports: self.imports@ }
    }
}

/// The note that a file was left out of the graph because its imports could
/// not be extracted.
#[derive(Debug, Clone, PartialEq, Eq)]
pub struct FileWarning {
    pub path: String,
    pub message: String,
}

/// The reference graph of the JavaScript and TypeScript files of a project.
pub struct ProjectJavascriptDataInfo {
    /// The files whose imports were extracted, each with its edges, in the
    /// order in which the files were given.
    pub files: Vec<File>,
    /// The declared packages, by name.
    pub npm_pkgs: IdTable,
    /// All the files of the run, by path.
    pub file_ids: IdTable,
    /// One warning for each file whose imports could not be extracted, in
    /// the order in which the files were given.
    pub warnings: Vec<FileWarning>,
}

/// The table of all the files of a run, by path: a later file replaces an
/// earlier one of the same path.
pub open spec fn file_table(files: Seq<ExtractedView>) -> Map<Seq<char>, u64>
    decreases files.len(),
{
    if files.len() == 0 {
        Map::empty()
    } else {
        file_table(files.drop_last()).insert(files.last().path, files.last().id)
    }
}

/// The file `file` with the edges that `imports` give.
pub open spec fn analyzed_file(
    file: ExtractedView,
    imports: Seq<RawImportView>,
    table: Map<Seq<char>, u64>,
    packages: Map<Seq<char>, u64>,
    alias: Option<Seq<(Seq<char>, Seq<char>)>>,
) -> FileView {
    FileView {
        id: file.id,
        path: file.path,
        imports: partition(edges_of(file.id, file.path, imports, table, packages, alias)),
    }
}

/// Those of `files` that have imports, each with its edges, in their order.
pub open spec fn analyzed(
    files: Seq<ExtractedView>,
    table: Map<Seq<char>, u64>,
    packages: Map<Seq<char>, u64>,
    alias: Option<Seq<(Seq<char>, Seq<char>)>>,
) -> Seq<FileView>
    decreases files.len(),
{
    if files.len() == 0 {
        Seq::empty()
    } else {
        let before = analyzed(files.drop_last(), table, packages, alias);
        match files.last().imports {
            Some(imports) => before.push(
                analyzed_file(files.last(), imports, table, packages, alias),
            ),
            None => before,
        }
    }
}

/// The paths of those of `files` that have no imports, in their order.
pub open spec fn skipped(files: Seq<ExtractedView>) -> Seq<Seq<char>>
    decreases files.len(),
{
    if files.len() == 0 {
        Seq::empty()
    } else {
        let before = skipped(files.drop_last());
        match files.last().imports {
            Some(_) => before,
            None => before.push(files.last().path),
        }
    }
}

/// The paths that `warnings` name.
pub open spec fn warning_paths(warnings: Seq<FileWarning>) -> Seq<Seq<char>> {
    Seq::new(warnings.len(), |i: int| warnings[i].path@)
}

/// Whether `warning` tells of the failure to extract the imports of `file`,
/// with the message of that failure.
pub open spec fn is_failure_of(warning: FileWarning, file: ExtractedFile) -> bool {
    &&& file.imports matches Err(error)
    &&& warning.path == file.path
    &&& warning.message == error.message
}

/// Whether `warning` tells of the failure of one of `files`.
pub open spec fn reports_failure(warning: FileWarning, files: Seq<ExtractedFile>) -> bool {
    exists|j: int| 0 <= j < files.len() && is_failure_of(warning, #[trigger] files[j])
}

/// Whether `warning` tells that `source` gave no imports: the source came
/// without its statements, and the warning names its path and carries the
/// message that it came with.
pub open spec fn is_warning_of(warning: FileWarning, source: SourceFile) -> bool {
    &&& warning.path@ == source.path@
    &&& source.parsed matches Err(error)
    &&& warning.message == error.message
}

/// Whether `warning` tells that one of `sources` gave no imports.
pub open spec fn warns_of_source(warning: FileWarning, sources: Seq<SourceFile>) -> bool {
    exists|j: int| 0 <= j < sources.len() && is_warning_of(warning, #[trigger] sources[j])
}

/// Every file is attempted: each is either in the graph or named by a
/// warning.
pub proof fn lemma_every_file_is_attempted(
    files: Seq<ExtractedView>,
    table: Map<Seq<char>, u64>,
    packages: Map<Seq<char>, u64>,
    alias: Option<Seq<(Seq<char>, Seq<char>)>>,
)
    ensures
        analyzed(files, table, packages, alias).len() + skipped(files).len() == files.len(),
    decreases files.len(),
{
    if files.len() > 0 {
        lemma_every_file_is_attempted(files.drop_last(), table, packages, alias);
    }
}

/// Where every file has imports, every file is in the graph: the graph
/// holds the files one for one, in their order, each under its identifier
/// and path, and no path is skipped.
pub proof fn lemma_all_files_in_graph(
    files: Seq<ExtractedView>,
    table: Map<Seq<char>, u64>,
    packages: Map<Seq<char>, u64>,
    alias: Option<Seq<(Seq<char>, Seq<char>)>>,
)
    requires
        forall|i: int| 0 <= i < files.len() ==> (#[trigger] files[i]).imports is Some,
    ensures
        analyzed(files, table, packages, alias).len() == files.len(),
        skipped(files).len() == 0,
        forall|i: int|
            0 <= i < files.len() ==> (#[trigger] analyzed(files, table, packages, alias)[i])
                == analyzed_file(files[i], files[i].imports->0, table, packages, alias),
    decreases files.len(),
{
    if files.len() > 0 {
        let init = files.drop_last();
        assert forall|i: int| 0 <= i < init.len() implies (#[trigger] init[i]).imports is Some by {
            assert(init[i] == files[i]);
        }
        lemma_all_files_in_graph(init, table, packages, alias);
        assert(files[files.len() - 1].imports is Some);
        let all = analyzed(files, table, packages, alias);
        assert forall|i: int| 0 <= i < files.len() implies (#[trigger] all[i]) == analyzed_file(
            files[i],
            files[i].imports->0,
            table,
            packages,
            alias,
        ) by {
            if i < init.len() {
                assert(init[i] == files[i]);
                assert(all[i] == analyzed(init, table, packages, alias)[i]);
            }
        }
    }
}

/// Files can be worked on in parts: against one file set, one package set
/// and one alias table, the graph of two runs of files one after the other
/// is the graph of the first followed by the graph of the second, and
/// likewise the skipped paths. No file's edges depend on another file's
/// imports.
pub proof fn lemma_graph_of_parts(
    first: Seq<ExtractedView>,
    second: Seq<ExtractedView>,
    table: Map<Seq<char>, u64>,
    packages: Map<Seq<char>, u64>,
    alias: Option<Seq<(Seq<char>, Seq<char>)>>,
)
    ensures
        analyzed(first + second, table, packages, alias) == analyzed(
            first,
            table,
            packages,
            alias,
        ) + analyzed(second, table, packages, alias),
        skipped(first + second) == skipped(first) + skipped(second),
    decreases second.len(),
{
    if second.len() == 0 {
        assert(first + second =~= first);
        assert(analyzed(first, table, packages, alias) + Seq::<FileView>::empty() =~= analyzed(
            first,
            table,
            packages,
            alias,
        ));
        assert(skipped(first) + Seq::<Seq<char>>::empty() =~= skipped(first));
    } else {
        let all = first + second;
        assert(all.drop_last() =~= first + second.drop_last());
        assert(all.last() == second.last());
        lemma_graph_of_parts(first, second.drop_last(), table, packages, alias);
        let a = analyzed(first, table, packages, alias);
        let b = analyzed(second.drop_last(), table, packages, alias);
        let sa = skipped(first);
        let sb = skipped(second.drop_last());
        match second.last().imports {
            Some(imports) => {
                let node = analyzed_file(second.last(), imports, table, packages, alias);
                assert((a + b).push(node) =~= a + b.push(node));
            },
            None => {
                assert((sa + sb).push(second.last().path) =~= sa + sb.push(second.last().path));
            },
        }
    }
}

/// The table of the paths and identifiers of `files`.
fn index_files(files: &Vec<ExtractedFile>) -> (table: IdTable)
    ensures
        table@ == file_table(views_of(files@)),
{
    let mut table = IdTable::new();
    let mut i: usize = 0;
    assert(views_of(files@).take(0) =~= Seq::<ExtractedView>::empty());
    while i < files.len()
        invariant
            i <= files.len(),
            table@ == file_table(views_of(files@).take(i as int)),
        decreases files.len() - i,
    {
        table.insert(files[i].path.clone(), files[i].id);
        proof {
            let all = views_of(files@);
            assert(all.take(i + 1).drop_last() =~= all.take(i as int));
            assert(all.take(i + 1).last() == files@[i as int]@);
        }
        i += 1;
    }
    assert(views_of(files@).take(files.len() as int) =~= views_of(files@));
    table
}

impl ProjectJavascriptDataInfo {
    /// Whether this is the graph of the run over `files`, with the declared
    /// packages `packages` and the aliases `alias`: the two tables are those
    /// of the files and of the packages, the files with imports stand in
    /// their order, each with its edges, and the warnings name the files
    /// without imports, in their order.
    pub open spec fn is_graph_of(
        &self,
        files: Seq<ExtractedView>,
        packages: Seq<(String, u64)>,
        alias: Option<Seq<(Seq<char>, Seq<char>)>>,
    ) -> bool {
        &&& self.npm_pkgs@ == table_of(packages)
        &&& self.file_ids@ == file_table(files)
        &&& views_of(self.files@) == analyzed(
            files,
            file_table(files),
            table_of(packages),
            alias,
        )
        &&& warning_paths(self.warnings@) == skipped(files)
    }

    /// Builds the reference graph of a run from the source files of the
    /// project, the declared packages and the aliases. The imports of each
    /// file are collected from its statements; what follows is
    /// `from_extracted`. Every file that came with its statements is in the
    /// graph; every other is named by a warning.
    pub fn new(
        alias: &Option<AliasTable>,
        sources: &Vec<SourceFile>,
        npm_pkgs: &Vec<(String, u64)>,
    ) -> (info: Self)
        ensures
            info.is_graph_of(all_extracted(sources@), npm_pkgs@, alias_view(*alias)),
            forall|i: int|
                0 <= i < info.warnings.len() ==> warns_of_source(
                    #[trigger] info.warnings[i],
                    sources@,
                ),
    {
        let files = analyze_all(sources);
        let info = Self::from_extracted(alias, &files, npm_pkgs);
        proof {
            assert forall|i: int| 0 <= i < info.warnings.len() implies warns_of_source(
                #[trigger] info.warnings[i],
                sources@,
            ) by {
                let warning = info.warnings[i];
                let j = choose|j: int|
                    0 <= j < files@.len() && is_failure_of(warning, #[trigger] files@[j]);
                assert(views_of(files@)[j] == all_extracted(sources@)[j]);
                assert(keeps_failure(sources[j], files[j]));
                assert(is_warning_of(warning, sources@[j]));
            }
        }
        info
    }

    /// Builds the reference graph of a run from files whose imports have
    /// been extracted. All the files, with or without imports, make up the
    /// file set against which specifiers are resolved. Each file with
    /// imports comes back with its edges; each file without is left out of
    /// the graph and named by a warning that carries the error's message.
    pub fn from_extracted(
        alias: &Option<AliasTable>,
        files: &Vec<ExtractedFile>,
        npm_pkgs: &Vec<(String, u64)>,
    ) -> (info: Self)
        ensures
            info.is_graph_of(views_of(files@), npm_pkgs@, alias_view(*alias)),
            forall|i: int|
                0 <= i < info.warnings.len() ==> reports_failure(
                    #[trigger] info.warnings[i],
                    files@,
                ),
    {
        let table = index_files(files);
        let packages = IdTable::from_pairs(npm_pkgs);
        let mut graph: Vec<File> = Vec::new();
        let mut warnings: Vec<FileWarning> = Vec::new();
        let ghost all = views_of(files@);
        let mut i: usize = 0;
        proof {
            assert(all.take(0) =~= Seq::<ExtractedView>::empty());
            assert(views_of(graph@) =~= Seq::<FileView>::empty());
            assert(warning_paths(warnings@) =~= Seq::<Seq<char>>::empty());
        }
        while i < files.len()
            invariant
                i <= files.len(),
                all == views_of(files@),
                table@ == file_table(all),
                packages@ == table_of(npm_pkgs@),
                views_of(graph@) == analyzed(
                    all.take(i as int),
                    table@,
                    packages@,
                    alias_view(*alias),
                ),
                warning_paths(warnings@) == skipped(all.take(i as int)),
                forall|k: int|
                    0 <= k < warnings.len() ==> reports_failure(#[trigger] warnings[k], files@),
            decreases files.len() - i,
        {
            let file = &files[i];
            proof {
                assert(all.take(i + 1).drop_last() =~= all.take(i as int));
                assert(all.take(i + 1).last() == file@);
            }
            match &file.imports {
                Ok(imports) => {
                    let edges = auto_compete_import_path(
                        file.id,
                        file.path.as_str(),
                        imports,
                        &table,
                        &packages,
                        alias,
                    );
                    let ghost before = views_of(graph@);
                    let node = File { id: file.id, path: file.path.clone(), imports: edges };
                    graph.push(node);
                    assert(views_of(graph@) =~= before.push(node@));
                },
                Err(error) => {
                    let ghost before = warning_paths(warnings@);
                    let ghost old_warnings = warnings@;
                    let warning = FileWarning {
                        path: file.path.clone(),
                        message: error.message.clone(),
                    };
                    warnings.push(warning);
                    proof {
                        assert(warning_paths(warnings@) =~= before.push(file.path@));
                        assert(is_failure_of(warning, files@[i as int]));
                        assert forall|k: int| 0 <= k < warnings.len() implies reports_failure(
                            #[trigger] warnings[k],
                            files@,
                        ) by {
                            if k < old_warnings.len() {
                                assert(warnings[k] == old_warnings[k]);
                            }
                        }
                    }
                },
            }
            i += 1;
        }
        proof {
            assert(all.take(files.len() as int) =~= all);
        }
        ProjectJavascriptDataInfo { files: graph, npm_pkgs: packages, file_ids: table, warnings }
    }
}

/// How a run ended, in numbers: the files in the graph, the files left out,
/// and the edges of each kind.
#[derive(Debug, Clone, Copy, PartialEq, Eq)]
pub struct RunCounts {
    pub analyzed_files: usize,
    pub skipped_files: usize,
    pub file_edges: u128,
    pub package_edges: u128,
    pub unresolved_edges: u128,
}

/// The number of edges to project files in `graph`.
pub open spec fn count_file_edges(graph: Seq<FileView>) -> nat
    decreases graph.len(),
{
    if graph.len() == 0 {
        0
    } else {
        count_file_edges(graph.drop_last()) + graph.last().imports.module.len()
    }
}

/// The number of edges to packages in `graph`.
pub open spec fn count_package_edges(graph: Seq<FileView>) -> nat
    decreases graph.len(),
{
    if graph.len() == 0 {
        0
    } else {
        count_package_edges(graph.drop_last()) + graph.last().imports.npm_pkg.len()
    }
}

/// The number of unresolved edges in `graph`.
pub open spec fn count_unresolved_edges(graph: Seq<FileView>) -> nat
    decreases graph.len(),
{
    if graph.len() == 0 {
        0
    } else {
        count_unresolved_edges(graph.drop_last()) + graph.last().imports.file.len()
    }
}

/// A sum of `n` lengths, none above `m`, stays within `n * m`, and one more
/// length keeps it within 128 bits.
proof fn lemma_count_fits(total: nat, n: nat, m: nat, more: nat)
    requires
        total <= n * m,
        more <= m,
        n < m,
        m <= 0xffff_ffff_ffff_ffff,
    ensures
        total + more <= (n + 1) * m,
        total + more <= 0xffff_ffff_ffff_ffff_ffff_ffff_ffff_ffff,
{
    assert((n + 1) * m == n * m + m) by (nonlinear_arith);
    assert((n + 1) * m <= m * m) by (nonlinear_arith)
        requires
            n + 1 <= m,
    ;
    assert(m * m <= 0xffff_ffff_ffff_ffff * 0xffff_ffff_ffff_ffff) by (nonlinear_arith)
        requires
            m <= 0xffff_ffff_ffff_ffff,
    ;
}

impl ProjectJavascriptDataInfo {
    /// Counts what the run gave: files, warnings, and edges by kind.
    pub fn counts(&self) -> (counts: RunCounts)
        ensures
            counts.analyzed_files == self.files.len(),
            counts.skipped_files == self.warnings.len(),
            counts.file_edges == count_file_edges(views_of(self.files@)),
            counts.package_edges == count_package_edges(views_of(self.files@)),
            counts.unresolved_edges == count_unresolved_edges(views_of(self.files@)),
    {
        let mut file_edges: u128 = 0;
        let mut package_edges: u128 = 0;
        let mut unresolved_edges: u128 = 0;
        let ghost all = views_of(self.files@);
        let ghost m = usize::MAX as nat;
        let mut i: usize = 0;
        proof {
            assert(all.take(0) =~= Seq::<FileView>::empty());
            assert(0 * m == 0) by (nonlinear_arith);
        }
        while i < self.files.len()
            invariant
                i <= self.files.len(),
                all == views_of(self.files@),
                m == usize::MAX,
                file_edges == count_file_edges(all.take(i as int)),
                package_edges == count_package_edges(all.take(i as int)),
                unresolved_edges == count_unresolved_edges(all.take(i as int)),
                file_edges <= i * m,
                package_edges <= i * m,
                unresolved_edges <= i * m,
            decreases self.files.len() - i,
        {
            let imports = &self.files[i].imports;
            proof {
                assert(all.take(i + 1).drop_last() =~= all.take(i as int));
                assert(all.take(i + 1).last() == self.files@[i as int]@);
                lemma_count_fits(file_edges as nat, i as nat, m, imports.module.len() as nat);
                lemma_count_fits(package_edges as nat, i as nat, m, imports.npm_pkg.len() as nat);
                lemma_count_fits(unresolved_edges as nat, i as nat, m, imports.file.len() as nat);
            }
            file_edges = file_edges + imports.module.len() as u128;
            package_edges = package_edges + imports.npm_pkg.len() as u128;
            unresolved_edges = unresolved_edges + imports.file.len() as u128;
            i += 1;
        }
        proof {
            assert(all.take(self.files.len() as int) =~= all);
        }
        RunCounts {
            analyzed_files: self.files.len(),
            skipped_files: self.warnings.len(),
            file_edges,
            package_edges,
            unresolved_edges,
        }
    }
}

} // verus!
