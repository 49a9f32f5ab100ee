//! The data that one analysis run reads and never changes: which files the
//! project holds, which packages it declares, and how specifiers are aliased.

use vstd::prelude::*;
use vstd::hash_map::StringHashMap;
use crate::project::alias::{rewrite_alias, AliasTable};
use crate::project::handler::javascript::{alias_view, aliased, resolution_of, resolve, Resolution};

verus! {

/// A table from names (file paths, package names) to their identifiers.
pub struct IdTable {
    map: StringHashMap<u64>,
}

impl View for IdTable {
    type V = Map<Seq<char>, u64>;

    closed spec fn view(&self) -> Map<Seq<char>, u64> {
        self.map@
    }
}

/// The table that `pairs` describes: each name with its identifier, a later
/// pair replacing an earlier one of the same name.
pub open spec fn table_of(pairs: Seq<(String, u64)>) -> Map<Seq<char>, u64>
    decreases pairs.len(),
{
    if pairs.len() == 0 {
        Map::empty()
    } else {
        table_of(pairs.drop_last()).insert(pairs.last().0@, pairs.last().1)
    }
}

impl IdTable {
    /// The empty table.
    pub fn new() -> (table: Self)
        ensures
            table@ == Map::<Seq<char>, u64>::empty(),
    {
        IdTable { map: StringHashMap::new() }
    }

    /// Gives `name` the identifier `id`, in place of the one it had, if any.
    pub fn insert(&mut self, name: String, id: u64)
        ensures
            final(self)@ == old(self)@.insert(name@, id),
    {
        self.map.insert(name, id);
    }

    /// The identifier of `name`, if the table holds it.
    pub fn get(&self, name: &str) -> (id: Option<u64>)
        ensures
            id == (if self@.contains_key(name@) {
                Some(self@[name@])
            } else {
                None
            }),
    {
        match self.map.get(name) {
            Some(id) => Some(*id),
            None => None,
        }
    }

    /// Whether the table holds `name`.
    pub fn contains(&self, name: &str) -> (found: bool)
        ensures
            found == self@.contains_key(name@),
    {
        self.map.contains_key(name)
    }

    /// The table that `pairs` describes.
    pub fn from_pairs(pairs: &Vec<(String, u64)>) -> (table: Self)
        ensures
            table@ == table_of(pairs@),
    {
        let mut table = IdTable::new();
        let mut i: usize = 0;
        assert(pairs@.take(0) =~= Seq::<(String, u64)>::empty());
        while i < pairs.len()
            invariant
                i <= pairs.len(),
                table@ == table_of(pairs@.take(i as int)),
            decreases pairs.len() - i,
        {
            let name = pairs[i].0.clone();
            let id = pairs[i].1;
            table.insert(name, id);
            proof {
                assert(pairs@.take(i + 1).drop_last() =~= pairs@.take(i as int));
            }
            i += 1;
        }
        assert(pairs@.take(pairs.len() as int) =~= pairs@);
        table
    }
}

/// What one analysis run resolves against: the files of the project, the
/// packages it declares, and its aliases. It is built once, before any
/// specifier is resolved, and only read afterwards.
pub struct RunContext {
    pub files: IdTable,
    pub packages: IdTable,
    pub alias: Option<AliasTable>,
}

impl RunContext {
    /// The context of a run over the files and packages given, each with
    /// its identifier.
    pub fn new(
        files: &Vec<(String, u64)>,
        packages: &Vec<(String, u64)>,
        alias: Option<AliasTable>,
    ) -> (context: Self)
        ensures
            context.files@ == table_of(files@),
            context.packages@ == table_of(packages@),
            context.alias == alias,
    {
        RunContext {
            files: IdTable::from_pairs(files),
            packages: IdTable::from_pairs(packages),
            alias,
        }
    }

    /// Resolves `specifier` as written in the file at `file_path`: the
    /// aliases are applied first, then the result is resolved against the
    /// files and the packages. Every specifier gets an answer.
    pub fn resolve(&self, specifier: &str, file_path: &str) -> (resolution: Resolution)
        ensures
            resolution@ == resolution_of(
                aliased(specifier@, alias_view(self.alias)),
                file_path@,
                self.files@,
                self.packages@,
            ),
    {
        match &self.alias {
            Some(table) => {
                let rewritten = rewrite_alias(specifier, table);
                resolve(rewritten.as_str(), file_path, &self.files, &self.packages)
            },
            None => resolve(specifier, file_path, &self.files, &self.packages),
        }
    }
}

} // verus!
