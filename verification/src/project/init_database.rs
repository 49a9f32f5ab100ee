//! The rows that a project is written to the cache as.

use vstd::prelude::*;
use crate::database::sqlite::{Dir, File, FileRefs, FileRefsView, NpmPkg, NpmPkgView};
use crate::project::handler::javascript::{
    FileView,
    ProjectJavascriptDataInfo,
    ReferenceEdge,
    ReferenceEdgeView,
    Resolution,
    ResolutionView,
};
use crate::project::reader::{Dir as ProjectDir, File as ProjectFile, PackageJson};
use crate::text::{strings, views_of};

verus! {

/// The row for one directory of the scan.
pub open spec fn dir_row(dir: ProjectDir) -> Dir {
    Dir { name: dir.name, path: dir.path, parent_path: dir.parent_path }
}

/// The row for one file of the scan.
pub open spec fn file_row(file: ProjectFile) -> File {
    File {
        name: file.name,
        path: file.path,
        parent_path: file.parent_path,
        size: file.size,
        ext: file.ext,
    }
}

/// The rows for the directories of a scan, in their order.
pub fn dir_records(dirs: &Vec<ProjectDir>) -> (rows: Vec<Dir>)
    ensures
        rows@ == Seq::new(dirs@.len(), |i: int| dir_row(dirs@[i])),
{
    let mut rows: Vec<Dir> = Vec::new();
    let mut i: usize = 0;
    while i < dirs.len()
        invariant
            i <= dirs.len(),
            rows@ == Seq::new(i as nat, |j: int| dir_row(dirs@[j])),
        decreases dirs.len() - i,
    {
        let dir = &dirs[i];
        rows.push(
            Dir {
                name: dir.name.clone(),
                path: dir.path.clone(),
                parent_path: dir.parent_path.clone(),
            },
        );
        assert(rows@ =~= Seq::new((i + 1) as nat, |j: int| dir_row(dirs@[j])));
        i += 1;
    }
    rows
}

/// The rows for the files of a scan, in their order.
pub fn file_records(files: &Vec<ProjectFile>) -> (rows: Vec<File>)
    ensures
        rows@ == Seq::new(files@.len(), |i: int| file_row(files@[i])),
{
    let mut rows: Vec<File> = Vec::new();
    let mut i: usize = 0;
    while i < files.len()
        invariant
            i <= files.len(),
            rows@ == Seq::new(i as nat, |j: int| file_row(files@[j])),
        decreases files.len() - i,
    {
        let file = &files[i];
        rows.push(
            File {
                name: file.name.clone(),
                path: file.path.clone(),
                parent_path: file.parent_path.clone(),
                size: file.size,
                ext: file.ext.clone(),
            },
        );
        assert(rows@ =~= Seq::new((i + 1) as nat, |j: int| file_row(files@[j])));
        i += 1;
    }
    rows
}

/// The kind under which a package needed at run time is recorded.
pub open spec fn runtime_kind() -> Seq<char> {
    "dependencies"@
}

/// The kind under which a package needed for development is recorded.
pub open spec fn dev_kind() -> Seq<char> {
    "dev_dependencies"@
}

/// The rows for the declared packages `group`, all of the kind `kind`.
pub open spec fn group_rows(group: Seq<(String, String)>, kind: Seq<char>) -> Seq<NpmPkgView> {
    Seq::new(
        group.len(),
        |i: int| NpmPkgView { name: group[i].0@, version: group[i].1@, pkg_type: kind },
    )
}

fn push_group(rows: &mut Vec<NpmPkg>, group: &Vec<(String, String)>, kind: &str)
    ensures
        views_of(final(rows)@) == views_of(old(rows)@) + group_rows(group@, kind@),
{
    let ghost start = views_of(rows@);
    let mut i: usize = 0;
    assert(start + group_rows(group@, kind@).take(0) =~= start);
    while i < group.len()
        invariant
            i <= group.len(),
            views_of(rows@) == start + group_rows(group@, kind@).take(i as int),
        decreases group.len() - i,
    {
        let ghost before = views_of(rows@);
        let row = NpmPkg {
            name: group[i].0.clone(),
            version: group[i].1.clone(),
            pkg_type: String::from_str(kind),
        };
        rows.push(row);
        proof {
            let all = group_rows(group@, kind@);
            assert(views_of(rows@) =~= before.push(row@));
            assert(row@ == all[i as int]);
            assert(start + all.take(i + 1) =~= (start + all.take(i as int)).push(all[i as int]));
        }
        i += 1;
    }
    proof {
        let all = group_rows(group@, kind@);
        assert(all.take(group.len() as int) =~= all);
    }
}

/// The rows for the packages that a manifest declares: those needed at run
/// time first, as `dependencies`, then those needed for development, as
/// `dev_dependencies`, each group in its order.
pub fn package_records(package_json: &PackageJson) -> (rows: Vec<NpmPkg>)
    ensures
        views_of(rows@) == group_rows(package_json.dependencies@, runtime_kind()) + group_rows(
            package_json.dev_dependencies@,
            dev_kind(),
        ),
{
    let mut rows: Vec<NpmPkg> = Vec::new();
    assert(views_of(rows@) =~= Seq::<NpmPkgView>::empty());
    push_group(&mut rows, &package_json.dependencies, "dependencies");
    push_group(&mut rows, &package_json.dev_dependencies, "dev_dependencies");
    assert(Seq::<NpmPkgView>::empty() + group_rows(package_json.dependencies@, runtime_kind())
        =~= group_rows(package_json.dependencies@, runtime_kind()));
    rows
}

/// The kind under which a reference to a project file is recorded.
pub open spec fn file_module_kind() -> Seq<char> {
    "file_module"@
}

/// The kind under which a reference to a package is recorded.
pub open spec fn npm_module_kind() -> Seq<char> {
    "npm_module"@
}

/// The kind under which a reference is recorded that did not resolve, yet
/// whose specifier is the path of a file of the run.
pub open spec fn other_kind() -> Seq<char> {
    "others"@
}

/// One row for each of `symbols`, all from `file_id` to `ref_id`.
pub open spec fn symbol_rows(
    file_id: u64,
    ref_id: u64,
    kind: Seq<char>,
    symbols: Seq<Seq<char>>,
) -> Seq<FileRefsView> {
    Seq::new(
        symbols.len(),
        |i: int| FileRefsView { file_id, ref_id, ref_type: kind, module: symbols[i] },
    )
}

/// The rows for one edge: one for each binding. An unresolved edge has rows
/// only where its specifier is the path of a file of the run.
pub open spec fn edge_rows(edge: ReferenceEdgeView, files: Map<Seq<char>, u64>) -> Seq<FileRefsView> {
    match edge.resolution {
        ResolutionView::ProjectFileRef(id) => symbol_rows(
            edge.source_file_id,
            id,
            file_module_kind(),
            edge.symbols,
        ),
        ResolutionView::PackageRef(id) => symbol_rows(
            edge.source_file_id,
            id,
            npm_module_kind(),
            edge.symbols,
        ),
        ResolutionView::Unresolved(specifier) => {
            if files.contains_key(specifier) {
                symbol_rows(edge.source_file_id, files[specifier], other_kind(), edge.symbols)
            } else {
                Seq::empty()
            }
        },
    }
}

/// The rows for `edges`, edge after edge.
pub open spec fn edges_rows(
    edges: Seq<ReferenceEdgeView>,
    files: Map<Seq<char>, u64>,
) -> Seq<FileRefsView>
    decreases edges.len(),
{
    if edges.len() == 0 {
        Seq::empty()
    } else {
        edges_rows(edges.drop_last(), files) + edge_rows(edges.last(), files)
    }
}

/// The rows for one file: those of its edges to project files, then those of
/// its edges to packages, then those of its unresolved edges.
pub open spec fn file_rows(file: FileView, files: Map<Seq<char>, u64>) -> Seq<FileRefsView> {
    edges_rows(file.imports.module, files) + edges_rows(file.imports.npm_pkg, files) + edges_rows(
        file.imports.file,
        files,
    )
}

/// The rows for a whole graph, file after file.
pub open spec fn graph_rows(graph: Seq<FileView>, files: Map<Seq<char>, u64>) -> Seq<FileRefsView>
    decreases graph.len(),
{
    if graph.len() == 0 {
        Seq::empty()
    } else {
        graph_rows(graph.drop_last(), files) + file_rows(graph.last(), files)
    }
}

fn push_symbol_rows(
    rows: &mut Vec<FileRefs>,
    file_id: u64,
    ref_id: u64,
    kind: &str,
    symbols: &Vec<String>,
)
    ensures
        views_of(final(rows)@) == views_of(old(rows)@) + symbol_rows(
            file_id,
            ref_id,
            kind@,
            strings(symbols@),
        ),
{
    let ghost start = views_of(rows@);
    let ghost all = symbol_rows(file_id, ref_id, kind@, strings(symbols@));
    let mut i: usize = 0;
    assert(start + all.take(0) =~= start);
    while i < symbols.len()
        invariant
            i <= symbols.len(),
            all == symbol_rows(file_id, ref_id, kind@, strings(symbols@)),
            views_of(rows@) == start + all.take(i as int),
        decreases symbols.len() - i,
    {
        let ghost before = views_of(rows@);
        let row = FileRefs {
            file_id,
            ref_id,
            ref_type: String::from_str(kind),
            module: symbols[i].clone(),
        };
        rows.push(row);
        proof {
            assert(views_of(rows@) =~= before.push(row@));
            assert(row@ == all[i as int]);
            assert(start + all.take(i + 1) =~= (start + all.take(i as int)).push(all[i as int]));
        }
        i += 1;
    }
    proof {
        assert(all.take(symbols.len() as int) =~= all);
    }
}

fn push_edge_rows(rows: &mut Vec<FileRefs>, edge: &ReferenceEdge, info: &ProjectJavascriptDataInfo)
    ensures
        views_of(final(rows)@) == views_of(old(rows)@) + edge_rows(edge@, info.file_ids@),
{
    match &edge.resolution {
        Resolution::ProjectFileRef(id) => {
            push_symbol_rows(rows, edge.source_file_id, *id, "file_module", &edge.symbols);
        },
        Resolution::PackageRef(id) => {
            push_symbol_rows(rows, edge.source_file_id, *id, "npm_module", &edge.symbols);
        },
        Resolution::Unresolved(specifier) => {
            match info.file_ids.get(specifier.as_str()) {
                Some(id) => {
                    push_symbol_rows(rows, edge.source_file_id, id, "others", &edge.symbols);
                },
                None => {
                    assert(views_of(rows@) + Seq::<FileRefsView>::empty() =~= views_of(rows@));
                },
            }
        },
    }
}

fn push_edges_rows(
    rows: &mut Vec<FileRefs>,
    edges: &Vec<ReferenceEdge>,
    info: &ProjectJavascriptDataInfo,
)
    ensures
        views_of(final(rows)@) == views_of(old(rows)@) + edges_rows(
            views_of(edges@),
            info.file_ids@,
        ),
{
    let ghost start = views_of(rows@);
    let ghost all = views_of(edges@);
    let mut i: usize = 0;
    proof {
        assert(all.take(0) =~= Seq::<ReferenceEdgeView>::empty());
        assert(start + edges_rows(all.take(0), info.file_ids@) =~= start);
    }
    while i < edges.len()
        invariant
            i <= edges.len(),
            all == views_of(edges@),
            views_of(rows@) == start + edges_rows(all.take(i as int), info.file_ids@),
        decreases edges.len() - i,
    {
        let ghost before = views_of(rows@);
        push_edge_rows(rows, &edges[i], info);
        proof {
            assert(all.take(i + 1).drop_last() =~= all.take(i as int));
            assert(all.take(i + 1).last() == edges@[i as int]@);
            let done = edges_rows(all.take(i as int), info.file_ids@);
            let more = edge_rows(edges@[i as int]@, info.file_ids@);
            assert((start + done) + more =~= start + (done + more));
        }
        i += 1;
    }
    proof {
        assert(all.take(edges.len() as int) =~= all);
    }
}

/// The rows that record the references of a graph: for each file in its
/// order, for each of its edges to project files, then to packages, then
/// unresolved, one row for each binding of the edge.
pub fn file_references(info: &ProjectJavascriptDataInfo) -> (rows: Vec<FileRefs>)
    ensures
        views_of(rows@) == graph_rows(views_of(info.files@), info.file_ids@),
{
    let mut rows: Vec<FileRefs> = Vec::new();
    let ghost all = views_of(info.files@);
    let mut i: usize = 0;
    proof {
        assert(all.take(0) =~= Seq::<FileView>::empty());
        assert(views_of(rows@) =~= Seq::<FileRefsView>::empty());
    }
    while i < info.files.len()
        invariant
            i <= info.files.len(),
            all == views_of(info.files@),
            views_of(rows@) == graph_rows(all.take(i as int), info.file_ids@),
        decreases info.files.len() - i,
    {
        let file = &info.files[i];
        let ghost start = views_of(rows@);
        push_edges_rows(&mut rows, &file.imports.module, info);
        push_edges_rows(&mut rows, &file.imports.npm_pkg, info);
        push_edges_rows(&mut rows, &file.imports.file, info);
        proof {
            assert(all.take(i + 1).drop_last() =~= all.take(i as int));
            assert(all.take(i + 1).last() == file@);
            let a = edges_rows(file@.imports.module, info.file_ids@);
            let b = edges_rows(file@.imports.npm_pkg, info.file_ids@);
            let c = edges_rows(file@.imports.file, info.file_ids@);
            assert(((start + a) + b) + c =~= start + ((a + b) + c));
        }
        i += 1;
    }
    proof {
        assert(all.take(info.files.len() as int) =~= all);
    }
    rows
}

} // verus!
