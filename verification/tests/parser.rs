use fura::parser::javascript::{
    collect_imports, strip_bom, Code, ExtractionError, File, ImportSpecifier, ImportStatement,
    RawImport,
};

fn entry(specifier: &str, symbols: &[&str]) -> RawImport {
    RawImport {
        specifier: specifier.to_string(),
        symbols: symbols.iter().map(|s| s.to_string()).collect(),
    }
}

fn named(local: &str) -> ImportSpecifier {
    ImportSpecifier::Named { local: local.to_string(), imported: None }
}

fn renamed(imported: &str, local: &str) -> ImportSpecifier {
    ImportSpecifier::Named { local: local.to_string(), imported: Some(imported.to_string()) }
}

fn statements_of(text: &str) -> Result<Vec<Option<ImportStatement>>, ExtractionError> {
    let parsed = deno_ast::parse_module(deno_ast::ParseParams {
        specifier: deno_ast::ModuleSpecifier::parse("file:///index.js").unwrap(),
        text: strip_bom(text).into(),
        media_type: deno_ast::MediaType::Tsx,
        capture_tokens: true,
        scope_analysis: false,
        maybe_syntax: None,
    })
    .map_err(|diagnostic| ExtractionError { message: diagnostic.kind().msg().into_owned() })?;
    let items = parsed
        .program_ref()
        .body()
        .map(|item| match item {
            deno_ast::ModuleItemRef::ModuleDecl(deno_ast::swc::ast::ModuleDecl::Import(decl)) => {
                Some(ImportStatement {
                    source: decl.src.value.to_string_lossy().into_owned(),
                    specifiers: decl.specifiers.iter().map(specifier_of).collect(),
                })
            }
            _ => None,
        })
        .collect();
    Ok(items)
}

fn specifier_of(specifier: &deno_ast::swc::ast::ImportSpecifier) -> ImportSpecifier {
    match specifier {
        deno_ast::swc::ast::ImportSpecifier::Named(named) => ImportSpecifier::Named {
            local: named.local.sym.to_string(),
            imported: named.imported.as_ref().map(|name| match name {
                deno_ast::swc::ast::ModuleExportName::Ident(ident) => ident.sym.to_string(),
                deno_ast::swc::ast::ModuleExportName::Str(text) => {
                    text.value.to_string_lossy().into_owned()
                }
            }),
        },
        deno_ast::swc::ast::ImportSpecifier::Default(_) => ImportSpecifier::Default,
        deno_ast::swc::ast::ImportSpecifier::Namespace(_) => ImportSpecifier::Namespace,
    }
}

fn code(text: &str) -> Code {
    Code::new(text, &statements_of(text).unwrap())
}

#[test]
fn test_js_code_parser() {
    let code = r#"
      import a from './a';
      import b, { c } from './b';
      import * as d from './d';
      import e, * as f from './f';
    "#;

    let result = Code::new(code, &statements_of(code).unwrap());

    assert_eq!(
        result.imports,
        vec![
            entry("./a", &["default"]),
            entry("./b", &["default", "c"]),
            entry("./d", &["*"]),
            entry("./f", &["default", "*"]),
        ]
    );
}

#[test]
fn test_js_file_parser() {
    let content = r#"
      import * as ns from './c';
      import a, { b } from './a';
      import c2 from './c';
      import { c, d } from './a';
      import ab from './a/b';
    "#;
    let result =
        File::new("./tests/mock/files/imports.ts", content, &statements_of(content).unwrap());
    assert_eq!(result.code_parser.code, content);

    assert_eq!(result.file_path, "./tests/mock/files/imports.ts");
    assert_eq!(
        result.code_parser.imports,
        vec![
            entry("./c", &["*", "default"]),
            entry("./a", &["default", "b", "c", "d"]),
            entry("./a/b", &["default"]),
        ]
    );
}

#[test]
fn scenario_two_statements_for_one_specifier_are_concatenated() {
    let code = "import a from './a';\nimport { b, c } from './a';\n";
    let result = Code::new(code, &statements_of(code).unwrap());
    assert_eq!(result.imports, vec![entry("./a", &["default", "b", "c"])]);
    assert_eq!(result.code, code);
}

#[test]
fn repeated_symbols_are_kept() {
    let items = vec![
        Some(ImportStatement {
            source: "./a".to_string(),
            specifiers: vec![ImportSpecifier::Default, named("b")],
        }),
        None,
        Some(ImportStatement {
            source: "./z".to_string(),
            specifiers: vec![ImportSpecifier::Namespace],
        }),
        Some(ImportStatement {
            source: "./a".to_string(),
            specifiers: vec![renamed("x", "b"), ImportSpecifier::Default],
        }),
        Some(ImportStatement { source: "./side-effect".to_string(), specifiers: vec![] }),
    ];
    assert_eq!(
        collect_imports(&items),
        vec![
            entry("./a", &["default", "b", "b", "default"]),
            entry("./z", &["*"]),
            entry("./side-effect", &[]),
        ]
    );
}

#[test]
fn named_import_is_recorded_under_its_local_name() {
    let items = vec![Some(ImportStatement {
        source: "m".to_string(),
        specifiers: vec![renamed("a", "b"), named("c")],
    })];
    assert_eq!(collect_imports(&items), vec![entry("m", &["b", "c"])]);

    let text = "import { a as b, c } from 'm';";
    assert_eq!(statements_of(text).unwrap(), items);
    assert_eq!(code(text).imports, vec![entry("m", &["b", "c"])]);
}

#[test]
fn items_that_are_no_imports_add_nothing() {
    let text = "const x = 1;\nimport a from './a';\nexport default x;\n";
    let items = statements_of(text).unwrap();
    assert_eq!(
        items,
        vec![
            None,
            Some(ImportStatement {
                source: "./a".to_string(),
                specifiers: vec![ImportSpecifier::Default],
            }),
            None,
        ]
    );
    assert_eq!(collect_imports(&items), vec![entry("./a", &["default"])]);
}

#[test]
fn typescript_and_jsx_are_read() {
    let text = "import React from 'react';\nconst x: number = 1;\nexport const e = <div>{x}</div>;\n";
    assert_eq!(code(text).imports, vec![entry("react", &["default"])]);
}

#[test]
fn valid_modules_keep_their_imports_whatever_else_they_hold() {
    for rest in [
        "const s = '&#128512;';",
        "switch (x) { case a<b: y.z(); }",
        "const a = b ? c < d : e.f;",
        "const a = <p>&#39; &#x2019; &#128512;</p>;",
        "const a = <svg:rect x={b.c}/>;",
    ] {
        let text = format!("import a from './a';\n{}\nimport {{ b }} from './a';", rest);
        assert_eq!(code(&text).imports, vec![entry("./a", &["default", "b"])], "{:?}", rest);
    }
}

#[test]
fn invalid_source_has_no_statements() {
    assert!(statements_of("import from from from;").is_err());
    assert!(statements_of("const = ;").is_err());
}

#[test]
fn empty_source_has_no_imports() {
    assert_eq!(code("").imports, vec![]);
    assert_eq!(Code::new("", &Vec::new()).imports, vec![]);
}

#[test]
fn byte_order_marks_are_passed_over() {
    assert_eq!(strip_bom("\u{feff}abc"), "abc");
    assert_eq!(strip_bom("\u{feff}\u{feff}\u{feff}abc"), "abc");
    assert_eq!(strip_bom("abc"), "abc");
    assert_eq!(strip_bom("a\u{feff}bc"), "a\u{feff}bc");
    assert_eq!(strip_bom("\u{feff}"), "");
    assert_eq!(strip_bom(""), "");
    let result = code("\u{feff}import a from './a';");
    assert_eq!(result.imports, vec![entry("./a", &["default"])]);
    assert_eq!(result.code, "\u{feff}import a from './a';");
    let twice = code("\u{feff}\u{feff}import a from './a';");
    assert_eq!(twice.imports, vec![entry("./a", &["default"])]);
}
