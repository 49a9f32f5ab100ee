//! What a JavaScript or TypeScript file imports: its import statements as
//! a source reader finds them, and, collected from them, the bindings that
//! the file takes from each specifier.

use vstd::prelude::*;
use crate::text::{clone_strings, from_chars, skip_chars, strings, to_chars, views_of};

verus! {

/// One binding that an import statement introduces.
#[derive(Debug, Clone, PartialEq, Eq)]
pub enum ImportSpecifier {
    /// `import { a } from ..`, where `local` is `a` and nothing is renamed,
    /// or `import { a as b } from ..`, where `local` is `b` and `imported`
    /// is `a`.
    Named { local: String, imported: Option<String> },
    /// `import a from ..`
    Default,
    /// `import * as a from ..`
    Namespace,
}

/// The value of an `ImportSpecifier`.
pub enum ImportSpecifierView {
    Named { local: Seq<char>, imported: Option<Seq<char>> },
    Default,
    Namespace,
}

impl View for ImportSpecifier {
    type V = ImportSpecifierView;

    open spec fn view(&self) -> ImportSpecifierView {
        match self {
            ImportSpecifier::Named { local, imported } => ImportSpecifierView::Named {
                local: local@,
                imported: match imported {
                    Some(name) => Some(name@),
                    None => None,
                },
            },
            ImportSpecifier::Default => ImportSpecifierView::Default,
            ImportSpecifier::Namespace => ImportSpecifierView::Namespace,
        }
    }
}

/// One import statement: the specifier it imports from and its bindings, in
/// the order in which they are written.
#[derive(Debug, Clone, PartialEq, Eq)]
pub struct ImportStatement {
    pub source: String,
    pub specifiers: Vec<ImportSpecifier>,
}

/// The value of an `ImportStatement`.
pub struct ImportStatementView {
    pub source: Seq<char>,
    pub specifiers: Seq<ImportSpecifierView>,
}

impl View for ImportStatement {
    type V = ImportStatementView;

    open spec fn view(&self) -> ImportStatementView {
        ImportStatementView { source: self.source@, specifiers: views_of(self.specifiers@) }
    }
}

/// The value of an optional `ImportStatement`.
pub open spec fn statement_view(statement: Option<ImportStatement>) -> Option<ImportStatementView> {
    match statement {
        Some(s) => Some(s@),
        None => None,
    }
}

/// The values of the top-level items of a module: for each the import
/// statement that it is, or nothing where it is something else.
pub open spec fn statement_views(
    statements: Seq<Option<ImportStatement>>,
) -> Seq<Option<ImportStatementView>> {
    Seq::new(statements.len(), |i: int| statement_view(statements[i]))
}

/// The imports of one file from one specifier: the specifier as written, and
/// the names of the bindings that all the import statements for it
/// introduce, in source order and with repetitions kept.
#[derive(Debug, Clone, PartialEq, Eq)]
pub struct RawImport {
    pub specifier: String,
    pub symbols: Vec<String>,
}

/// The value of a `RawImport`.
pub struct RawImportView {
    pub specifier: Seq<char>,
    pub symbols: Seq<Seq<char>>,
}

impl View for RawImport {
    type V = RawImportView;

    open spec fn view(&self) -> RawImportView {
        RawImportView { specifier: self.specifier@, symbols: strings(self.symbols@) }
    }
}

/// The name under which a binding is recorded: `default` for a default
/// import, `*` for a namespace import, and for a named one its local name,
/// whether or not the statement renames what it imports.
pub open spec fn symbol_of(specifier: ImportSpecifierView) -> Seq<char> {
    match specifier {
        ImportSpecifierView::Named { local, imported } => local,
        ImportSpecifierView::Default => seq!['d', 'e', 'f', 'a', 'u', 'l', 't'],
        ImportSpecifierView::Namespace => seq!['*'],
    }
}

/// The names of the bindings of one import statement, in order.
pub open spec fn symbols_of(specifiers: Seq<ImportSpecifierView>) -> Seq<Seq<char>> {
    Seq::new(specifiers.len(), |i: int| symbol_of(specifiers[i]))
}

/// The position of the first entry for `specifier`.
pub open spec fn position_of(entries: Seq<RawImportView>, specifier: Seq<char>) -> Option<int>
    decreases entries.len(),
{
    if entries.len() == 0 {
        None
    } else if position_of(entries.drop_last(), specifier) is Some {
        position_of(entries.drop_last(), specifier)
    } else if entries.last().specifier == specifier {
        Some(entries.len() - 1)
    } else {
        None
    }
}

/// `entries` after one more import statement: its bindings go to the end of
/// the entry for its source, or make a new last entry where there is none.
pub open spec fn add_statement(
    entries: Seq<RawImportView>,
    statement: ImportStatementView,
) -> Seq<RawImportView> {
    match position_of(entries, statement.source) {
        Some(i) => entries.update(
            i,
            RawImportView {
                specifier: statement.source,
                symbols: entries[i].symbols + symbols_of(statement.specifiers),
            },
        ),
        None => entries.push(
            RawImportView {
                specifier: statement.source,
                symbols: symbols_of(statement.specifiers),
            },
        ),
    }
}

/// The imports that the top-level items of a module add up to, the items
/// taken in source order; an item that is no import statement adds nothing.
pub open spec fn collected(items: Seq<Option<ImportStatementView>>) -> Seq<RawImportView>
    decreases items.len(),
{
    if items.len() == 0 {
        Seq::empty()
    } else {
        match items.last() {
            Some(statement) => add_statement(collected(items.drop_last()), statement),
            None => collected(items.drop_last()),
        }
    }
}

/// `position_of` names the first entry for the specifier, if there is one.
pub proof fn lemma_position_of(entries: Seq<RawImportView>, specifier: Seq<char>)
    ensures
        match position_of(entries, specifier) {
            Some(i) => {
                &&& 0 <= i < entries.len()
                &&& entries[i].specifier == specifier
                &&& forall|j: int| 0 <= j < i ==> (#[trigger] entries[j]).specifier != specifier
            },
            None => forall|j: int|
                0 <= j < entries.len() ==> (#[trigger] entries[j]).specifier != specifier,
        },
    decreases entries.len(),
{
    if entries.len() > 0 {
        let init = entries.drop_last();
        lemma_position_of(init, specifier);
        assert forall|j: int| 0 <= j < init.len() implies init[j] == entries[j] by {}
        match position_of(init, specifier) {
            Some(i) => {
                assert forall|j: int| 0 <= j < i implies (#[trigger] entries[j]).specifier
                    != specifier by {
                    assert(init[j] == entries[j]);
                }
            },
            None => {
                assert forall|j: int| 0 <= j < init.len() implies (#[trigger] entries[j]).specifier
                    != specifier by {
                    assert(init[j] == entries[j]);
                }
            },
        }
    }
}

/// Whether no two of `entries` are for the same specifier.
pub open spec fn distinct_specifiers(entries: Seq<RawImportView>) -> bool {
    forall|i: int, j: int|
        0 <= i < j < entries.len() ==> (#[trigger] entries[i]).specifier != (
        #[trigger] entries[j]).specifier
}

/// The collected imports hold one entry for each specifier: no specifier
/// occurs twice.
pub proof fn lemma_collected_distinct(items: Seq<Option<ImportStatementView>>)
    ensures
        distinct_specifiers(collected(items)),
    decreases items.len(),
{
    if items.len() > 0 {
        let before = collected(items.drop_last());
        lemma_collected_distinct(items.drop_last());
        if let Some(statement) = items.last() {
            lemma_position_of(before, statement.source);
            let after = add_statement(before, statement);
            assert forall|i: int, j: int| 0 <= i < j < after.len() implies (
            #[trigger] after[i]).specifier != (#[trigger] after[j]).specifier by {
                if i < before.len() {
                    assert(after[i].specifier == before[i].specifier);
                }
                if j < before.len() {
                    assert(after[j].specifier == before[j].specifier);
                }
            }
        }
    }
}

/// Whether `item` is an import statement for `specifier`.
pub open spec fn is_import_from(item: Option<ImportStatementView>, specifier: Seq<char>) -> bool {
    match item {
        Some(statement) => statement.source == specifier,
        None => false,
    }
}

/// The bindings that the statements of `items` for `specifier` introduce,
/// statement after statement, none removed.
pub open spec fn symbols_for(items: Seq<Option<ImportStatementView>>, specifier: Seq<char>) -> Seq<
    Seq<char>,
>
    decreases items.len(),
{
    if items.len() == 0 {
        Seq::empty()
    } else {
        let before = symbols_for(items.drop_last(), specifier);
        if is_import_from(items.last(), specifier) {
            before + symbols_of(items.last()->0.specifiers)
        } else {
            before
        }
    }
}

/// Whether one of `items` is an import statement for `specifier`.
pub open spec fn imports_from(items: Seq<Option<ImportStatementView>>, specifier: Seq<char>) -> bool {
    exists|i: int| 0 <= i < items.len() && is_import_from(#[trigger] items[i], specifier)
}

/// The collected imports say what the statements say, specifier by
/// specifier: a specifier has an entry exactly where a statement imports
/// from it, and the entry carries the bindings of all the statements for the
/// specifier, in source order, with repetitions.
pub proof fn lemma_collected_concatenates(items: Seq<Option<ImportStatementView>>)
    ensures
        forall|specifier: Seq<char>|
            (#[trigger] position_of(collected(items), specifier)) is Some <==> imports_from(
                items,
                specifier,
            ),
        forall|j: int|
            0 <= j < collected(items).len() ==> (#[trigger] collected(items)[j]).symbols
                == symbols_for(items, collected(items)[j].specifier),
    decreases items.len(),
{
    if items.len() == 0 {
        assert forall|specifier: Seq<char>|
            (#[trigger] position_of(collected(items), specifier)) is Some <==> imports_from(
                items,
                specifier,
            ) by {}
    } else {
        let init = items.drop_last();
        let before = collected(init);
        let after = collected(items);
        lemma_collected_concatenates(init);
        lemma_collected_distinct(init);
        assert forall|i: int| 0 <= i < init.len() implies init[i] == items[i] by {}
        match items.last() {
            Some(statement) => {
                lemma_position_of(before, statement.source);
                assert forall|specifier: Seq<char>|
                    (#[trigger] position_of(after, specifier)) is Some <==> imports_from(
                        items,
                        specifier,
                    ) by {
                    lemma_position_of(before, specifier);
                    lemma_position_of(after, specifier);
                    if position_of(after, specifier) is Some {
                        let k = position_of(after, specifier)->0;
                        if specifier == statement.source {
                            assert(items[items.len() - 1] == Some(statement));
                        } else {
                            assert(k < before.len());
                            assert(before[k].specifier == after[k].specifier);
                            assert(position_of(before, specifier) is Some);
                            let i = choose|i: int|
                                0 <= i < init.len() && is_import_from(#[trigger] init[i], specifier);
                            assert(items[i] == init[i]);
                        }
                    }
                    if imports_from(items, specifier) {
                        let i = choose|i: int|
                            0 <= i < items.len() && is_import_from(#[trigger] items[i], specifier);
                        if i < init.len() {
                            assert(init[i] == items[i]);
                            assert(imports_from(init, specifier));
                            let k = position_of(before, specifier)->0;
                            assert(after[k].specifier == specifier);
                        } else {
                            assert(specifier == statement.source);
                            match position_of(before, statement.source) {
                                Some(k) => {
                                    assert(after[k].specifier == specifier);
                                },
                                None => {
                                    assert(after[after.len() - 1].specifier == specifier);
                                },
                            }
                        }
                    }
                }
                assert forall|j: int| 0 <= j < after.len() implies (#[trigger] after[j]).symbols
                    == symbols_for(items, after[j].specifier) by {
                    match position_of(before, statement.source) {
                        Some(k) => {
                            if j != k {
                                assert(after[j] == before[j]);
                                assert(before[j].specifier != before[k].specifier);
                            }
                        },
                        None => {
                            if j < before.len() {
                                assert(after[j] == before[j]);
                            } else {
                                lemma_symbols_for_absent(init, statement.source);
                                assert(Seq::<Seq<char>>::empty() + symbols_of(statement.specifiers)
                                    =~= symbols_of(statement.specifiers));
                            }
                        },
                    }
                }
            },
            None => {
                assert forall|specifier: Seq<char>|
                    (#[trigger] position_of(after, specifier)) is Some <==> imports_from(
                        items,
                        specifier,
                    ) by {
                    if imports_from(items, specifier) {
                        let i = choose|i: int|
                            0 <= i < items.len() && is_import_from(#[trigger] items[i], specifier);
                        assert(init[i] == items[i]);
                    }
                    if imports_from(init, specifier) {
                        let i = choose|i: int|
                            0 <= i < init.len() && is_import_from(#[trigger] init[i], specifier);
                        assert(items[i] == init[i]);
                    }
                }
            },
        }
    }
}

/// No statement for a specifier, no bindings for it.
proof fn lemma_symbols_for_absent(items: Seq<Option<ImportStatementView>>, specifier: Seq<char>)
    requires
        !imports_from(items, specifier),
    ensures
        symbols_for(items, specifier) == Seq::<Seq<char>>::empty(),
    decreases items.len(),
{
    if items.len() > 0 {
        let init = items.drop_last();
        assert(items[items.len() - 1] == items.last());
        if imports_from(init, specifier) {
            let i = choose|i: int|
                0 <= i < init.len() && is_import_from(#[trigger] init[i], specifier);
            assert(items[i] == init[i]);
        }
        lemma_symbols_for_absent(init, specifier);
    }
}

/// The name under which the binding `specifier` is recorded.
fn symbol(specifier: &ImportSpecifier) -> (name: String)
    ensures
        name@ == symbol_of(specifier@),
{
    proof {
        reveal_strlit("default");
        reveal_strlit("*");
    }
    match specifier {
        ImportSpecifier::Named { local, imported: _ } => local.clone(),
        ImportSpecifier::Default => {
            let name = String::from_str("default");
            assert(name@ =~= seq!['d', 'e', 'f', 'a', 'u', 'l', 't']);
            name
        },
        ImportSpecifier::Namespace => {
            let name = String::from_str("*");
            assert(name@ =~= seq!['*']);
            name
        },
    }
}

/// Adds the names of the bindings of `statement` to the end of `symbols`.
fn push_symbols(symbols: &mut Vec<String>, statement: &ImportStatement)
    ensures
        strings(final(symbols)@) == strings(old(symbols)@) + symbols_of(statement@.specifiers),
{
    let mut k: usize = 0;
    let ghost start = strings(symbols@);
    assert(symbols_of(statement@.specifiers).take(0) =~= Seq::<Seq<char>>::empty());
    assert(start + Seq::<Seq<char>>::empty() =~= start);
    while k < statement.specifiers.len()
        invariant
            k <= statement.specifiers.len(),
            start == strings(old(symbols)@),
            strings(symbols@) == start + symbols_of(statement@.specifiers).take(k as int),
        decreases statement.specifiers.len() - k,
    {
        let name = symbol(&statement.specifiers[k]);
        let ghost before = symbols@;
        symbols.push(name);
        proof {
            let all = symbols_of(statement@.specifiers);
            assert(statement@.specifiers[k as int] == statement.specifiers@[k as int]@);
            assert(all.take(k + 1) =~= all.take(k as int).push(name@));
            assert(strings(symbols@) =~= strings(before).push(name@));
            assert(start + all.take(k + 1) =~= (start + all.take(k as int)).push(name@));
        }
        k += 1;
    }
    proof {
        let all = symbols_of(statement@.specifiers);
        assert(all.take(all.len() as int) =~= all);
    }
}

/// The position of the first of `entries` that is for `specifier`.
fn find_entry(entries: &Vec<RawImport>, specifier: &String) -> (found: Option<usize>)
    ensures
        match found {
            Some(i) => i < entries.len() && position_of(views_of(entries@), specifier@) == Some(
                i as int,
            ),
            None => position_of(views_of(entries@), specifier@) is None,
        },
{
    let mut i: usize = 0;
    while i < entries.len()
        invariant
            i <= entries.len(),
            forall|j: int| 0 <= j < i ==> (#[trigger] views_of(entries@)[j]).specifier != specifier@,
        decreases entries.len() - i,
    {
        if entries[i].specifier == *specifier {
            proof {
                assert(views_of(entries@)[i as int].specifier == specifier@);
                lemma_position_of(views_of(entries@), specifier@);
            }
            return Some(i);
        }
        i += 1;
    }
    proof {
        lemma_position_of(views_of(entries@), specifier@);
    }
    None
}

/// Collects the imports of a module from its top-level items: one entry for
/// each specifier, in the order in which the specifiers first occur, with
/// the bindings of all the statements for it one after another, in source
/// order, none removed.
pub fn collect_imports(items: &Vec<Option<ImportStatement>>) -> (imports: Vec<RawImport>)
    ensures
        views_of(imports@) == collected(statement_views(items@)),
{
    let mut imports: Vec<RawImport> = Vec::new();
    let mut n: usize = 0;
    proof {
        assert(statement_views(items@).take(0) =~= Seq::<Option<ImportStatementView>>::empty());
        assert(views_of(imports@) =~= Seq::<RawImportView>::empty());
    }
    while n < items.len()
        invariant
            n <= items.len(),
            views_of(imports@) == collected(statement_views(items@).take(n as int)),
        decreases items.len() - n,
    {
        proof {
            let all = statement_views(items@);
            assert(all.take(n + 1).drop_last() =~= all.take(n as int));
            assert(all.take(n + 1).last() == all[n as int]);
        }
        if let Some(statement) = &items[n] {
            let ghost before = views_of(imports@);
            match find_entry(&imports, &statement.source) {
                Some(i) => {
                    let mut symbols = clone_strings(&imports[i].symbols);
                    push_symbols(&mut symbols, statement);
                    let entry = RawImport { specifier: statement.source.clone(), symbols };
                    imports.set(i, entry);
                    assert(views_of(imports@) =~= add_statement(before, statement@));
                },
                None => {
                    let mut symbols: Vec<String> = Vec::new();
                    assert(strings(symbols@) =~= Seq::<Seq<char>>::empty());
                    push_symbols(&mut symbols, statement);
                    assert(Seq::<Seq<char>>::empty() + symbols_of(statement@.specifiers)
                        =~= symbols_of(statement@.specifiers));
                    let entry = RawImport { specifier: statement.source.clone(), symbols };
                    imports.push(entry);
                    assert(views_of(imports@) =~= add_statement(before, statement@));
                },
            }
        }
        n += 1;
    }
    proof {
        let all = statement_views(items@);
        assert(all.take(items.len() as int) =~= all);
    }
    imports
}

/// Why the imports of a file could not be extracted: its text could not be
/// had, or is no valid module. The message is that of whoever failed.
#[derive(Debug, Clone, PartialEq, Eq)]
pub struct ExtractionError {
    pub message: String,
}

/// Whether `text` begins with a byte order mark.
pub open spec fn has_bom(text: Seq<char>) -> bool {
    text.len() > 0 && text[0] == '\u{feff}'
}

/// The number of byte order marks that stand in `text` from position `from`
/// on, one after another.
pub open spec fn bom_run(text: Seq<char>, from: int) -> int
    decreases text.len() - from,
{
    if 0 <= from < text.len() && text[from] == '\u{feff}' {
        1 + bom_run(text, from + 1)
    } else {
        0
    }
}

/// `text` without the byte order marks that it may begin with.
pub open spec fn without_bom(text: Seq<char>) -> Seq<char> {
    text.skip(bom_run(text, 0))
}

/// A copy of `text` without the byte order marks that it may begin with:
/// every leading mark is passed over, and what follows the last of them is
/// kept as it is.
pub fn strip_bom(text: &str) -> (stripped: String)
    ensures
        stripped@ == without_bom(text@),
        !has_bom(stripped@),
{
    let chars = to_chars(text);
    let mut n: usize = 0;
    while n < chars.len() && chars[n] == '\u{feff}'
        invariant
            n <= chars.len(),
            bom_run(chars@, 0) == n + bom_run(chars@, n as int),
        decreases chars.len() - n,
    {
        n += 1;
    }
    from_chars(&skip_chars(&chars, n))
}

/// A piece of JavaScript or TypeScript code with its imports.
#[derive(Debug)]
pub struct Code {
    /// The code as it was given.
    pub code: String,
    /// Its imports, one entry for each specifier.
    pub imports: Vec<RawImport>,
}

impl Code {
    /// The code `code`, whose top-level items are `statements`, with the
    /// imports that the statements add up to.
    pub fn new(code: &str, statements: &Vec<Option<ImportStatement>>) -> (parsed: Code)
        ensures
            parsed.code@ == code@,
            views_of(parsed.imports@) == collected(statement_views(statements@)),
    {
        Code { code: String::from_str(code), imports: collect_imports(statements) }
    }
}

/// A JavaScript or TypeScript file with what its code imports.
#[derive(Debug)]
pub struct File {
    /// The path of the file.
    pub file_path: String,
    /// The code of the file, parsed.
    pub code_parser: Code,
}

impl File {
    /// The file at `file_path`, whose text is `content` and whose top-level
    /// items are `statements`, with the imports of its code.
    pub fn new(
        file_path: &str,
        content: &str,
        statements: &Vec<Option<ImportStatement>>,
    ) -> (file: File)
        ensures
            file.file_path@ == file_path@,
            file.code_parser.code@ == content@,
            views_of(file.code_parser.imports@) == collected(statement_views(statements@)),
    {
        File { file_path: String::from_str(file_path), code_parser: Code::new(content, statements) }
    }
}

} // verus!
