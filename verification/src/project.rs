//! The analysis of one project: its run context, the resolution of its
//! imports, and the records that describe it.

use vstd::prelude::*;
use crate::project::alias::AliasTable;
use crate::project::analyze::javascript::{all_extracted, SourceFile};
use crate::project::handler::javascript::{warns_of_source, ProjectJavascriptDataInfo};

pub mod alias;
pub mod analyze;
pub mod context;
pub mod handler;
pub mod init_database;
pub mod reader;

verus! {

/// The data of one project.
pub struct Project {
    /// The root directory of the project.
    pub root_path: String,
    /// The reference graph of its JavaScript and TypeScript files.
    pub javascript: ProjectJavascriptDataInfo,
}

/// The aliases that every project has: `@` stands for the directory `src`
/// under the root.
pub open spec fn default_alias(root_path: Seq<char>) -> Seq<(Seq<char>, Seq<char>)> {
    seq![(seq!['@'], root_path + seq!['/', 's', 'r', 'c'])]
}

/// Builds the aliases that every project has.
pub fn project_alias(root_path: &str) -> (table: AliasTable)
    ensures
        table@ == default_alias(root_path@),
{
    let mut target = String::from_str(root_path);
    target.append("/src");
    let key = String::from_str("@");
    proof {
        reveal_strlit("/src");
        reveal_strlit("@");
        assert(target@ =~= root_path@ + seq!['/', 's', 'r', 'c']);
        assert(key@ =~= seq!['@']);
    }
    let mut table = AliasTable::new();
    table.insert(key, target);
    assert(table@ =~= default_alias(root_path@));
    table
}

/// Builds the data of the project rooted at `root_path` from its source
/// files and its declared packages: the reference graph of the run, with the
/// project's own aliases. A source without a text, or whose text gives no
/// imports, is left out of the graph and named by a warning.
pub fn init_project_data(
    root_path: &str,
    sources: &Vec<SourceFile>,
    npm_pkgs: &Vec<(String, u64)>,
) -> (project: Project)
    ensures
        project.root_path@ == root_path@,
        project.javascript.is_graph_of(
            all_extracted(sources@),
            npm_pkgs@,
            Some(default_alias(root_path@)),
        ),
        forall|i: int|
            0 <= i < project.javascript.warnings.len() ==> warns_of_source(
                #[trigger] project.javascript.warnings[i],
                sources@,
            ),
{
    let alias = Some(project_alias(root_path));
    let javascript = ProjectJavascriptDataInfo::new(&alias, sources, npm_pkgs);
    Project { root_path: String::from_str(root_path), javascript }
}

} // verus!
