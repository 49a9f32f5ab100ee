use fura::project::alias::{rewrite_alias, AliasTable};
use fura::project::context::{IdTable, RunContext};
use fura::project::handler::javascript::{
    auto_compete_import_path, auto_match_project_file_by_import_path, construct_path, resolve,
    resolve_import_file_path, Resolution,
};
use fura::parser::javascript::RawImport;

fn table(paths: &[&str]) -> IdTable {
    let mut files = IdTable::new();
    for (i, path) in paths.iter().enumerate() {
        files.insert(path.to_string(), i as u64 + 1);
    }
    files
}

fn get_project_files() -> (&'static str, IdTable) {
    let target_file = "/root/src/index.js";
    let project_files = table(&[
        "/root/a.js",
        "/root/a.ts",
        "/root/a.tsx",
        "/root/a.jsx",
        "/root/b/index.ts",
        "/root/b/index.tsx",
        "/root/b/index.js",
        "/root/b/index.jsx",
        "/root/c.ts",
        "/root/c.jsx",
        "/root/c.tsx",
        "/root/d.jsx",
        "/root/d.tsx",
        "/root/e.js",
        "/root/e.ts",
        "/root/e/index.js",
        "/root/e/index.ts",
        "/root/f/a.js",
        "/root/f/b/index.js",
    ]);
    (target_file, project_files)
}

fn some(path: &str) -> Option<String> {
    Some(path.to_string())
}

#[test]
fn test_auto_match_project_file_by_import_path() {
    let (_, project_files) = get_project_files();
    let check = |input: &str, output: Option<String>| {
        let result = auto_match_project_file_by_import_path(input, &project_files);
        assert_eq!(result, output, "import path {}", input);
    };

    check("/root/a", some("/root/a.js"));
    check("/root/c", some("/root/c.jsx"));
    check("/root/d", some("/root/d.jsx"));
    check("/root/e", some("/root/e.js"));
    check("/root/f", None);

    check("/root/b", some("/root/b/index.js"));

    check("/root/a.ts", some("/root/a.ts"));
    check("/root/b/index.ts", some("/root/b/index.ts"));
    check("/root/b.ts", None);
}

#[test]
fn test_resolve_import_file_path() {
    let (target_file, project_files) = get_project_files();
    let check = |input: &str, output: Option<String>| {
        let result = resolve_import_file_path(input, target_file, &project_files);
        assert_eq!(result, output, "import path {}", input);
    };

    check("../c", some("/root/c.jsx"));
    check("../b", some("/root/b/index.js"));
    check("lodash", None);
    check("../f/a", some("/root/f/a.js"));
    check("../f/b", some("/root/f/b/index.js"));
}

#[test]
fn extension_order_is_js_jsx_ts_tsx_cjs_mjs() {
    let order = ["js", "jsx", "ts", "tsx", "cjs", "mjs"];
    for first in 0..order.len() {
        let paths: Vec<String> = order[first..].iter().map(|e| format!("/p/x.{}", e)).collect();
        let refs: Vec<&str> = paths.iter().map(|p| p.as_str()).collect();
        let files = table(&refs);
        assert_eq!(
            auto_match_project_file_by_import_path("/p/x", &files),
            Some(format!("/p/x.{}", order[first]))
        );
        let index_paths: Vec<String> =
            order[first..].iter().map(|e| format!("/p/x/index.{}", e)).collect();
        let index_refs: Vec<&str> = index_paths.iter().map(|p| p.as_str()).collect();
        let index_files = table(&index_refs);
        assert_eq!(
            auto_match_project_file_by_import_path("/p/x", &index_files),
            Some(format!("/p/x/index.{}", order[first]))
        );
    }
}

#[test]
fn exact_match_beats_every_other_candidate() {
    let files = table(&["/p/a.js", "/p/a.ts", "/p/a.ts.js", "/p/a.ts/index.js", "/p/a/index.js"]);
    assert_eq!(auto_match_project_file_by_import_path("/p/a.ts", &files), some("/p/a.ts"));
    assert_eq!(auto_match_project_file_by_import_path("/p/a.js", &files), some("/p/a.js"));
}

#[test]
fn index_file_only_when_no_extension_candidate() {
    let both = table(&["/p/a.mjs", "/p/a/index.js"]);
    assert_eq!(auto_match_project_file_by_import_path("/p/a", &both), some("/p/a.mjs"));
    let index_only = table(&["/p/a/index.js"]);
    assert_eq!(auto_match_project_file_by_import_path("/p/a", &index_only), some("/p/a/index.js"));
}

#[test]
fn path_with_extension_is_not_extended() {
    let files = table(&["/p/a.min.js", "/p/b.css", "/p/c.js/index.ts"]);
    assert_eq!(auto_match_project_file_by_import_path("/p/a.min", &files), None);
    assert_eq!(auto_match_project_file_by_import_path("/p/b.css", &files), None);
    assert_eq!(auto_match_project_file_by_import_path("/p/c.js", &files), some("/p/c.js/index.ts"));

    let files = table(&["/p/b.ts.js", "/p/b.ts/index.js"]);
    assert_eq!(auto_match_project_file_by_import_path("/p/b.ts", &files), some("/p/b.ts/index.js"));
}

#[test]
fn hidden_file_name_has_no_extension() {
    let files = table(&["/p/.config.js"]);
    assert_eq!(auto_match_project_file_by_import_path("/p/.config", &files), some("/p/.config.js"));
}

#[test]
fn construct_path_relative_and_absolute() {
    assert_eq!(construct_path("./a", "/root/src/index.js"), "/root/src/a");
    assert_eq!(construct_path("../a", "/root/src/index.js"), "/root/a");
    assert_eq!(construct_path(".", "/root/src/index.js"), "/root/src");
    assert_eq!(construct_path("../../../a", "/root/src/index.js"), "/a");
    assert_eq!(construct_path("./a/./b//c/../d", "/root/src/index.js"), "/root/src/a/b/d");
    assert_eq!(construct_path("/abs/x", "/root/src/index.js"), "/abs/x");
    assert_eq!(construct_path("lodash", "/root/src/index.js"), "/lodash");
    assert_eq!(construct_path("antd/lib/button", "/root/src/index.js"), "/antd/lib/button");
    assert_eq!(construct_path("..", "/root/src/index.js"), "/..");
    assert_eq!(construct_path(".hidden", "/root/src/index.js"), "/.hidden");
    assert_eq!(construct_path("", "/root/src/index.js"), "/");
}

#[test]
fn scenario_js_before_ts_index_package_and_unresolved() {
    let mut files = IdTable::new();
    files.insert("/root/a.js".to_string(), 11);
    files.insert("/root/a.ts".to_string(), 12);
    files.insert("/root/b/index.js".to_string(), 13);
    files.insert("/root/c.ts".to_string(), 14);
    let mut packages = IdTable::new();
    packages.insert("lodash".to_string(), 7);
    let from = "/root/src/index.js";

    assert_eq!(resolve("../a", from, &files, &packages), Resolution::ProjectFileRef(11));
    assert_eq!(resolve("../b", from, &files, &packages), Resolution::ProjectFileRef(13));
    assert_eq!(resolve("lodash", from, &files, &packages), Resolution::PackageRef(7));
    assert_eq!(
        resolve("./missing", from, &files, &packages),
        Resolution::Unresolved("./missing".to_string())
    );
}

#[test]
fn file_match_comes_before_package_match() {
    let mut files = IdTable::new();
    files.insert("/lodash.js".to_string(), 1);
    let mut packages = IdTable::new();
    packages.insert("lodash".to_string(), 2);
    assert_eq!(resolve("lodash", "/root/src/index.js", &files, &packages), Resolution::ProjectFileRef(1));
}

#[test]
fn package_is_matched_by_the_whole_specifier() {
    let files = IdTable::new();
    let mut packages = IdTable::new();
    packages.insert("antd".to_string(), 2);
    assert_eq!(
        resolve("antd/lib/button", "/root/src/index.js", &files, &packages),
        Resolution::Unresolved("antd/lib/button".to_string())
    );
    assert_eq!(resolve("antd", "/root/src/index.js", &files, &packages), Resolution::PackageRef(2));
}

#[test]
fn resolution_is_repeatable() {
    let (from, files) = get_project_files();
    let packages = IdTable::new();
    for specifier in ["../a", "../b", "../c", "lodash", "./x", "../e"] {
        let first = resolve(specifier, from, &files, &packages);
        let second = resolve(specifier, from, &files, &packages);
        assert_eq!(first, second);
    }
}

#[test]
fn scenario_alias_rewrites_before_resolution() {
    let mut alias = AliasTable::new();
    alias.insert("@".to_string(), "/root/src".to_string());
    assert_eq!(rewrite_alias("@/utils", &alias), "/root/src/utils");

    let files = vec![("/root/src/utils.ts".to_string(), 5u64)];
    let context = RunContext::new(&files, &Vec::new(), Some(alias));
    assert_eq!(context.resolve("@/utils", "/anywhere/else.js"), Resolution::ProjectFileRef(5));
    assert_eq!(context.resolve("@/utils", "/root/src/deep/file.ts"), Resolution::ProjectFileRef(5));
}

#[test]
fn alias_is_noop_without_matching_first_segment() {
    let mut alias = AliasTable::new();
    alias.insert("@".to_string(), "/root/src".to_string());
    alias.insert("~".to_string(), "/root/lib".to_string());
    for specifier in ["./a", "../@/a", "@x/a", "lodash", "a/@/b", "", "/@/a", "@@"] {
        assert_eq!(rewrite_alias(specifier, &alias), specifier);
    }
}

#[test]
fn alias_changes_only_the_first_segment() {
    let mut alias = AliasTable::new();
    alias.insert("@".to_string(), "/root/src".to_string());
    alias.insert("~".to_string(), "/root/lib".to_string());
    assert_eq!(rewrite_alias("@", &alias), "/root/src");
    assert_eq!(rewrite_alias("@/", &alias), "/root/src/");
    assert_eq!(rewrite_alias("@/@/~/x", &alias), "/root/src/@/~/x");
    assert_eq!(rewrite_alias("~/x/y", &alias), "/root/lib/x/y");
}

#[test]
fn alias_first_entry_wins_and_is_applied_once() {
    let mut alias = AliasTable::new();
    alias.insert("a".to_string(), "b".to_string());
    alias.insert("a".to_string(), "z".to_string());
    alias.insert("b".to_string(), "c".to_string());
    assert_eq!(rewrite_alias("a/x", &alias), "b/x");
}

fn import(specifier: &str, symbols: &[&str]) -> RawImport {
    RawImport {
        specifier: specifier.to_string(),
        symbols: symbols.iter().map(|s| s.to_string()).collect(),
    }
}

#[test]
fn one_edge_for_each_import_in_three_parts() {
    let mut files = IdTable::new();
    files.insert("/root/a.js".to_string(), 11);
    files.insert("/root/src/utils.ts".to_string(), 12);
    let mut packages = IdTable::new();
    packages.insert("lodash".to_string(), 7);
    let mut alias = AliasTable::new();
    alias.insert("@".to_string(), "/root/src".to_string());
    let imports = vec![
        import("../a", &["default", "b", "c"]),
        import("lodash", &["*"]),
        import("./missing", &["m"]),
        import("@/utils", &["u", "u"]),
        import("@/nothing", &[]),
    ];
    let result = auto_compete_import_path(
        3,
        "/root/src/index.js",
        &imports,
        &files,
        &packages,
        &Some(alias),
    );
    assert_eq!(result.module.len() + result.npm_pkg.len() + result.file.len(), imports.len());

    assert_eq!(result.module.len(), 2);
    assert_eq!(result.module[0].source_file_id, 3);
    assert_eq!(result.module[0].resolution, Resolution::ProjectFileRef(11));
    assert_eq!(result.module[0].symbols, vec!["default", "b", "c"]);
    assert_eq!(result.module[1].resolution, Resolution::ProjectFileRef(12));
    assert_eq!(result.module[1].symbols, vec!["u", "u"]);

    assert_eq!(result.npm_pkg.len(), 1);
    assert_eq!(result.npm_pkg[0].resolution, Resolution::PackageRef(7));
    assert_eq!(result.npm_pkg[0].symbols, vec!["*"]);

    assert_eq!(result.file.len(), 2);
    assert_eq!(result.file[0].resolution, Resolution::Unresolved("./missing".to_string()));
    assert_eq!(result.file[0].symbols, vec!["m"]);
    assert_eq!(
        result.file[1].resolution,
        Resolution::Unresolved("/root/src/nothing".to_string())
    );
    assert!(result.file[1].symbols.is_empty());
}

#[test]
fn without_alias_table_specifiers_stay() {
    let files = IdTable::new();
    let packages = IdTable::new();
    let imports = vec![import("@/utils", &["u"])];
    let result =
        auto_compete_import_path(1, "/root/src/index.js", &imports, &files, &packages, &None);
    assert_eq!(result.file[0].resolution, Resolution::Unresolved("@/utils".to_string()));
}
