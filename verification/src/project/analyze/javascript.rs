//! The imports of all the JavaScript and TypeScript files of a project.

use vstd::prelude::*;
use crate::parser::javascript::{
    collected,
    statement_views,
    ExtractionError,
    File,
    ImportStatement,
    RawImport,
    RawImportView,
};
use crate::text::views_of;

verus! {

/// The text of a source file as a source reader found it: the text itself
/// and its top-level items, each the import statement that it is, or
/// nothing where it is something else.
#[derive(Debug, PartialEq, Eq)]
pub struct ParsedText {
    pub text: String,
    pub statements: Vec<Option<ImportStatement>>,
}

/// A source file of the project: its identifier, its path, and its text as
/// read and parsed, or the reason why that could not be had.
#[derive(Debug, PartialEq, Eq)]
pub struct SourceFile {
    pub id: u64,
    pub path: String,
    pub parsed: Result<ParsedText, ExtractionError>,
}

/// A source file after extraction: its identifier, its path, and its imports
/// or the reason why there are none.
#[derive(Debug)]
pub struct ExtractedFile {
    pub id: u64,
    pub path: String,
    pub imports: Result<Vec<RawImport>, ExtractionError>,
}

/// The value of an `ExtractedFile`: the imports, where extraction gave any.
pub struct ExtractedView {
    pub id: u64,
    pub path: Seq<char>,
    pub imports: Option<Seq<RawImportView>>,
}

impl View for ExtractedFile {
    type V = ExtractedView;

    open spec fn view(&self) -> ExtractedView {
        ExtractedView {
            id: self.id,
            path: self.path@,
            imports: match self.imports {
                Ok(imports) => Some(views_of(imports@)),
                Err(_) => None,
            },
        }
    }
}

/// What extraction makes of one source file: the imports that its
/// statements add up to, and none where it came without them.
pub open spec fn extracted(source: SourceFile) -> ExtractedView {
    ExtractedView {
        id: source.id,
        path: source.path@,
        imports: match source.parsed {
            Ok(parsed) => Some(collected(statement_views(parsed.statements@))),
            Err(_) => None,
        },
    }
}

/// Whether `file` hands on the failure that `source` came with.
pub open spec fn keeps_failure(source: SourceFile, file: ExtractedFile) -> bool {
    source.parsed matches Err(error) ==> file.imports matches Err(kept) && kept.message
        == error.message
}

/// What extraction makes of each of `sources`.
pub open spec fn all_extracted(sources: Seq<SourceFile>) -> Seq<ExtractedView> {
    Seq::new(sources.len(), |i: int| extracted(sources[i]))
}

/// Extracts the imports of each of `sources`. A file that came without its
/// statements keeps its place, with the error that it came with in place of
/// imports: one bad file never stops the others.
pub fn analyze_all(sources: &Vec<SourceFile>) -> (files: Vec<ExtractedFile>)
    ensures
        views_of(files@) == all_extracted(sources@),
        files.len() == sources.len(),
        forall|i: int| 0 <= i < sources.len() ==> keeps_failure(sources[i], #[trigger] files[i]),
{
    let mut files: Vec<ExtractedFile> = Vec::new();
    let mut i: usize = 0;
    while i < sources.len()
        invariant
            i <= sources.len(),
            files.len() == i,
            views_of(files@) == all_extracted(sources@).take(i as int),
            forall|j: int| 0 <= j < i ==> keeps_failure(sources[j], #[trigger] files[j]),
        decreases sources.len() - i,
    {
        let source = &sources[i];
        let imports = match &source.parsed {
            Ok(parsed) => {
                let file = File::new(source.path.as_str(), parsed.text.as_str(), &parsed.statements);
                Ok(file.code_parser.imports)
            },
            Err(error) => Err(ExtractionError { message: error.message.clone() }),
        };
        let file = ExtractedFile { id: source.id, path: source.path.clone(), imports };
        let ghost before = files@;
        files.push(file);
        proof {
            let all = all_extracted(sources@);
            assert(file@ == all[i as int]);
            assert forall|j: int| 0 <= j < i + 1 implies views_of(files@)[j] == all.take(i + 1)[j] by {
                if j < i {
                    assert(files@[j] == before[j]);
                    assert(views_of(before)[j] == all.take(i as int)[j]);
                }
            }
            assert(views_of(files@) =~= all.take(i + 1));
            assert forall|j: int| 0 <= j < i + 1 implies keeps_failure(
                sources[j],
                #[trigger] files[j],
            ) by {
                if j < i {
                    assert(files@[j] == before[j]);
                }
            }
        }
        i += 1;
    }
    proof {
        let all = all_extracted(sources@);
        assert(all.take(sources.len() as int) =~= all);
    }
    files
}

} // verus!
