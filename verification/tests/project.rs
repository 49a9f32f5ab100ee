use fura::database::sqlite::{Dir as DirRow, File as FileRow, FileRefs, NpmPkg};
use fura::parser::javascript::{
    strip_bom, ExtractionError, ImportSpecifier, ImportStatement, RawImport,
};
use fura::path::{extension_of, file_name_of, join, parent_of};
use fura::project::analyze::javascript::{analyze_all, ExtractedFile, ParsedText, SourceFile};
use fura::project::context::IdTable;
use fura::project::handler::javascript::{ProjectJavascriptDataInfo, Resolution, RunCounts};
use fura::project::init_database::{dir_records, file_records, file_references, package_records};
use fura::project::reader::{
    create_dir_from_path, create_file_from_path, is_excluded, scan_entry, Dir, File, PackageJson,
    ScanStep,
};
use fura::project::{init_project_data, project_alias};
use fura::text::{from_chars, to_chars};


fn statements_of(text: &str) -> Result<Vec<Option<ImportStatement>>, ExtractionError> {
    let parsed = deno_ast::parse_module(deno_ast::ParseParams {
        specifier: deno_ast::ModuleSpecifier::parse("file:///index.js").unwrap(),
        text: strip_bom(text).into(),
        media_type: deno_ast::MediaType::Tsx,
        capture_tokens: true,
        scope_analysis: false,
        maybe_syntax: None,
    })
    .map_err(|diagnostic| ExtractionError { message: diagnostic.kind().msg().into_owned() })?;
    let items = parsed
        .program_ref()
        .body()
        .map(|item| match item {
            deno_ast::ModuleItemRef::ModuleDecl(deno_ast::swc::ast::ModuleDecl::Import(decl)) => {
                Some(ImportStatement {
                    source: decl.src.value.to_string_lossy().into_owned(),
                    specifiers: decl.specifiers.iter().map(specifier_of).collect(),
                })
            }
            _ => None,
        })
        .collect();
    Ok(items)
}

fn specifier_of(specifier: &deno_ast::swc::ast::ImportSpecifier) -> ImportSpecifier {
    match specifier {
        deno_ast::swc::ast::ImportSpecifier::Named(named) => ImportSpecifier::Named {
            local: named.local.sym.to_string(),
            imported: named.imported.as_ref().map(|name| match name {
                deno_ast::swc::ast::ModuleExportName::Ident(ident) => ident.sym.to_string(),
                deno_ast::swc::ast::ModuleExportName::Str(text) => {
                    text.value.to_string_lossy().into_owned()
                }
            }),
        },
        deno_ast::swc::ast::ImportSpecifier::Default(_) => ImportSpecifier::Default,
        deno_ast::swc::ast::ImportSpecifier::Namespace(_) => ImportSpecifier::Namespace,
    }
}

fn source(id: u64, path: &str, text: &str) -> SourceFile {
    let parsed =
        statements_of(text).map(|statements| ParsedText { text: text.to_string(), statements });
    SourceFile { id, path: path.to_string(), parsed }
}

fn reference(file_id: u64, ref_id: u64, ref_type: &str, module: &str) -> FileRefs {
    FileRefs { file_id, ref_id, ref_type: ref_type.to_string(), module: module.to_string() }
}

#[test]
fn join_follows_the_logical_rules() {
    assert_eq!(join("/root/src/index.js", "./a"), "/root/src/a");
    assert_eq!(join("/root/src/index.js", "../a"), "/root/a");
    assert_eq!(join("/root/src/index.js", "../../a"), "/a");
    assert_eq!(join("/root/src/index.js", "../../../../a"), "/a");
    assert_eq!(join("/root/src/index.js", "."), "/root/src");
    assert_eq!(join("/root/src/index.js", ".."), "/root");
    assert_eq!(join("/root/src/index.js", "../.."), "/");
    assert_eq!(join("/root/src/index.js", "./a/"), "/root/src/a");
    assert_eq!(join("/root/src/index.js", "a//b/./c"), "/root/src/a/b/c");
    assert_eq!(join("/root/src/index.js", "..."), "/root/src/...");
    assert_eq!(join("/index.js", "./a"), "/a");
    assert_eq!(join("index.js", "./a"), "/a");
    assert_eq!(join("", ""), "/");
    assert_eq!(join("/root/./x/../src/index.js", "./a"), "/root/src/a");
    assert_eq!(join("/root/src/", "./a"), "/root/src/a");
    assert_eq!(join("/r\u{e9}sum\u{e9}/x.js", "./\u{4e2d}"), "/r\u{e9}sum\u{e9}/\u{4e2d}");
}

#[test]
fn file_name_parent_and_extension() {
    assert_eq!(file_name_of("/root/src/index.js"), "index.js");
    assert_eq!(file_name_of("index.js"), "index.js");
    assert_eq!(file_name_of("/root/src/"), "");
    assert_eq!(file_name_of(""), "");
    assert_eq!(parent_of("/root/src/index.js"), "/root/src");
    assert_eq!(parent_of("/index.js"), "/");
    assert_eq!(parent_of("index.js"), "");
    assert_eq!(parent_of("/"), "/");
    assert_eq!(extension_of("/root/src/index.js"), Some("js".to_string()));
    assert_eq!(extension_of("/root/src/a.test.tsx"), Some("tsx".to_string()));
    assert_eq!(extension_of("/root/src/a."), Some("".to_string()));
    assert_eq!(extension_of("/root/src/a"), None);
    assert_eq!(extension_of("/root/src/.gitignore"), None);
    assert_eq!(extension_of("/root/src/.eslintrc.js"), Some("js".to_string()));
    assert_eq!(extension_of("/root.d/src"), None);
    assert_eq!(extension_of("/root/.."), None);
    assert_eq!(extension_of("/root/..."), Some("".to_string()));
    assert_eq!(extension_of(""), None);
}

#[test]
fn text_helpers_keep_every_character() {
    let text = "a/\u{e9}\u{4e2d}\u{1f600}.js";
    let chars = to_chars(text);
    assert_eq!(chars.len(), 8);
    assert_eq!(from_chars(&chars), text);
    assert_eq!(from_chars(&Vec::new()), "");
    assert!(to_chars("").is_empty());
}

#[test]
fn file_is_described_from_its_path() {
    let file = create_file_from_path("/root/src/index.test.ts", 42);
    assert_eq!(
        file,
        File {
            name: "index.test.ts".to_string(),
            path: "/root/src/index.test.ts".to_string(),
            parent_path: "/root/src".to_string(),
            size: 42,
            ext: "ts".to_string(),
            file_type: "".to_string(),
        }
    );
    let plain = create_file_from_path("/root/LICENSE", 0);
    assert_eq!(plain.name, "LICENSE");
    assert_eq!(plain.ext, "");
    assert_eq!(plain.parent_path, "/root");
    let dir = create_dir_from_path("/root/src");
    assert_eq!(
        dir,
        Dir { name: "src".to_string(), path: "/root/src".to_string(), parent_path: "/root".to_string() }
    );
}

#[test]
fn directory_is_excluded_where_a_text_occurs_in_its_path() {
    let list = Some(vec!["node_modules".to_string(), ".git".to_string()]);
    assert!(is_excluded("/root/node_modules", &list));
    assert!(is_excluded("/root/node_modules/a/b", &list));
    assert!(is_excluded("/root/.github", &list));
    assert!(is_excluded("/root/x.git", &list));
    assert!(!is_excluded("/root/src", &list));
    assert!(!is_excluded("/root/node_module", &list));
    assert!(!is_excluded("", &list));
    assert!(!is_excluded("/root/node_modules", &None));
    assert!(!is_excluded("/root/node_modules", &Some(vec![])));
    assert!(is_excluded("/root", &Some(vec!["".to_string()])));
    assert!(is_excluded("git", &Some(vec!["git".to_string()])));
    assert!(!is_excluded("gi", &Some(vec!["git".to_string()])));
}

#[test]
fn scan_leaves_out_every_entry_with_an_excluded_text_in_its_path() {
    let list = Some(vec!["node_modules".to_string(), ".git".to_string()]);
    assert_eq!(
        scan_entry("/p/a.js", false, 3, &list),
        ScanStep::Record(create_file_from_path("/p/a.js", 3))
    );
    assert_eq!(scan_entry("/p/src", true, 0, &list), ScanStep::Enter(create_dir_from_path("/p/src")));
    assert_eq!(scan_entry("/p/node_modules", true, 0, &list), ScanStep::Skip);
    assert_eq!(scan_entry("/p/node_modules/x.js", false, 3, &list), ScanStep::Skip);
    assert_eq!(scan_entry("/p/node_modules/x", true, 0, &list), ScanStep::Skip);
    assert_eq!(scan_entry("/p/.gitignore", false, 1, &list), ScanStep::Skip);
    assert_eq!(scan_entry("/p/src/my_node_modules_copy/a.js", false, 1, &list), ScanStep::Skip);
    assert_eq!(
        scan_entry("/p/node_modules", true, 0, &None),
        ScanStep::Enter(create_dir_from_path("/p/node_modules"))
    );
    assert_eq!(
        scan_entry("/p/node_modules/x.js", false, 3, &Some(vec![])),
        ScanStep::Record(create_file_from_path("/p/node_modules/x.js", 3))
    );
}

#[test]
fn file_without_statements_is_skipped_with_its_own_message() {
    let sources = vec![
        SourceFile {
            id: 1,
            path: "/p/gone.js".to_string(),
            parsed: Err(ExtractionError { message: "permission denied".to_string() }),
        },
        source(2, "/p/a.js", "import g from './gone';"),
    ];
    let files = analyze_all(&sources);
    assert_eq!(files.len(), 2);
    assert_eq!(
        files[0].imports,
        Err(ExtractionError { message: "permission denied".to_string() })
    );
    let project = init_project_data("/p", &sources, &Vec::new());
    let info = &project.javascript;
    assert_eq!(info.files.len(), 1);
    assert_eq!(info.files[0].imports.module[0].resolution, Resolution::ProjectFileRef(1));
    assert_eq!(info.warnings.len(), 1);
    assert_eq!(info.warnings[0].path, "/p/gone.js");
    assert_eq!(info.warnings[0].message, "permission denied");
}

#[test]
fn scan_rows_keep_fields_and_order() {
    let dirs = vec![create_dir_from_path("/root/src"), create_dir_from_path("/root/lib")];
    assert_eq!(
        dir_records(&dirs),
        vec![
            DirRow {
                name: "src".to_string(),
                path: "/root/src".to_string(),
                parent_path: "/root".to_string()
            },
            DirRow {
                name: "lib".to_string(),
                path: "/root/lib".to_string(),
                parent_path: "/root".to_string()
            },
        ]
    );
    let files = vec![create_file_from_path("/root/src/a.js", 7)];
    assert_eq!(
        file_records(&files),
        vec![FileRow {
            name: "a.js".to_string(),
            path: "/root/src/a.js".to_string(),
            parent_path: "/root/src".to_string(),
            size: 7,
            ext: "js".to_string(),
        }]
    );
    assert_eq!(dir_records(&Vec::new()), vec![]);
}

#[test]
fn package_rows_runtime_first_then_dev() {
    let manifest = PackageJson {
        name: "demo".to_string(),
        version: "1.0.0".to_string(),
        dependencies: vec![
            ("lodash".to_string(), "^4".to_string()),
            ("react".to_string(), "18".to_string()),
        ],
        dev_dependencies: vec![("jest".to_string(), "29".to_string())],
    };
    let row = |name: &str, version: &str, kind: &str| NpmPkg {
        name: name.to_string(),
        version: version.to_string(),
        pkg_type: kind.to_string(),
    };
    assert_eq!(
        package_records(&manifest),
        vec![
            row("lodash", "^4", "dependencies"),
            row("react", "18", "dependencies"),
            row("jest", "29", "dev_dependencies"),
        ]
    );
}

#[test]
fn graph_of_a_small_project() {
    let sources = vec![
        source(
            1,
            "/root/src/index.js",
            "import a, { b } from '../a';\nimport _ from 'lodash';\nimport x from './missing';\nimport { c } from '../a';\nimport { u } from '@/utils';\n",
        ),
        source(2, "/root/a.js", "export default 1;"),
        source(3, "/root/a.ts", "export default 1;"),
        source(4, "/root/src/utils.ts", "import a from '../a.ts';"),
        source(5, "/root/src/broken.js", "import {"),
    ];
    let packages = vec![("lodash".to_string(), 9u64)];
    let project = init_project_data("/root", &sources, &packages);
    assert_eq!(project.root_path, "/root");
    let info = &project.javascript;

    assert_eq!(info.files.len(), 4);
    assert_eq!(info.warnings.len(), 1);
    assert_eq!(info.warnings[0].path, "/root/src/broken.js");
    assert_eq!(info.npm_pkgs.get("lodash"), Some(9));
    assert_eq!(info.file_ids.get("/root/src/broken.js"), Some(5));

    let index = &info.files[0];
    assert_eq!(index.id, 1);
    assert_eq!(index.path, "/root/src/index.js");
    assert_eq!(index.imports.module.len(), 2);
    assert_eq!(index.imports.module[0].resolution, Resolution::ProjectFileRef(2));
    assert_eq!(index.imports.module[0].symbols, vec!["default", "b", "c"]);
    assert_eq!(index.imports.module[1].resolution, Resolution::ProjectFileRef(4));
    assert_eq!(index.imports.npm_pkg.len(), 1);
    assert_eq!(index.imports.npm_pkg[0].resolution, Resolution::PackageRef(9));
    assert_eq!(index.imports.file.len(), 1);
    assert_eq!(index.imports.file[0].resolution, Resolution::Unresolved("./missing".to_string()));

    assert_eq!(
        info.counts(),
        RunCounts {
            analyzed_files: 4,
            skipped_files: 1,
            file_edges: 3,
            package_edges: 1,
            unresolved_edges: 1,
        }
    );

    let utils = &info.files[3];
    assert_eq!(utils.id, 4);
    assert_eq!(utils.imports.module[0].resolution, Resolution::ProjectFileRef(3));

    assert_eq!(
        file_references(info),
        vec![
            reference(1, 2, "file_module", "default"),
            reference(1, 2, "file_module", "b"),
            reference(1, 2, "file_module", "c"),
            reference(1, 4, "file_module", "u"),
            reference(1, 9, "npm_module", "default"),
            reference(4, 3, "file_module", "default"),
        ]
    );
}

#[test]
fn one_bad_file_does_not_stop_the_run() {
    let files = vec![
        ExtractedFile {
            id: 1,
            path: "/p/bad.js".to_string(),
            imports: Err(ExtractionError { message: "unexpected token".to_string() }),
        },
        ExtractedFile {
            id: 2,
            path: "/p/good.js".to_string(),
            imports: Ok(vec![RawImport {
                specifier: "./bad".to_string(),
                symbols: vec!["default".to_string()],
            }]),
        },
    ];
    let info = ProjectJavascriptDataInfo::from_extracted(&None, &files, &Vec::new());
    assert_eq!(info.files.len(), 1);
    assert_eq!(info.files[0].id, 2);
    assert_eq!(info.files[0].imports.module[0].resolution, Resolution::ProjectFileRef(1));
    assert_eq!(info.warnings.len(), 1);
    assert_eq!(info.warnings[0].path, "/p/bad.js");
    assert_eq!(info.warnings[0].message, "unexpected token");
}

#[test]
fn unresolved_specifier_that_is_a_file_path_is_recorded_as_other() {
    let files = vec![
        ExtractedFile {
            id: 1,
            path: "/p/a.js".to_string(),
            imports: Ok(vec![
                RawImport {
                    specifier: "/p/style.css".to_string(),
                    symbols: vec!["default".to_string(), "x".to_string()],
                },
                RawImport { specifier: "./style.css".to_string(), symbols: vec!["y".to_string()] },
            ]),
        },
        ExtractedFile { id: 2, path: "/p/style.css".to_string(), imports: Ok(vec![]) },
    ];
    let info = ProjectJavascriptDataInfo::from_extracted(&None, &files, &Vec::new());
    assert_eq!(info.files[0].imports.file.len(), 2);
    assert_eq!(
        file_references(&info),
        vec![reference(1, 2, "others", "default"), reference(1, 2, "others", "x")]
    );
}

#[test]
fn later_file_of_the_same_path_takes_the_path() {
    let pairs = vec![("/p/a.js".to_string(), 1u64), ("/p/a.js".to_string(), 2u64)];
    let table = IdTable::from_pairs(&pairs);
    assert_eq!(table.get("/p/a.js"), Some(2));
    assert_eq!(table.get("/p/b.js"), None);
    assert!(table.contains("/p/a.js"));
    assert!(!table.contains("/p/a"));
}

#[test]
fn extraction_keeps_every_file_in_its_place() {
    let sources = vec![
        source(1, "/p/a.js", "import a from './b';"),
        source(2, "/p/bad.js", "import {"),
        source(3, "/p/b.js", ""),
    ];
    let files = analyze_all(&sources);
    assert_eq!(files.len(), 3);
    assert_eq!(files[0].id, 1);
    assert_eq!(files[0].path, "/p/a.js");
    assert_eq!(
        files[0].imports,
        Ok(vec![RawImport { specifier: "./b".to_string(), symbols: vec!["default".to_string()] }])
    );
    assert!(files[1].imports.is_err());
    assert_eq!(files[1].path, "/p/bad.js");
    assert_eq!(files[2].imports, Ok(vec![]));
}

#[test]
fn project_alias_maps_at_sign_to_src() {
    let alias = project_alias("/home/me/app");
    assert_eq!(alias.entries, vec![("@".to_string(), "/home/me/app/src".to_string())]);
}
