//! Aliases: configured replacements for the first segment of a specifier.

use vstd::prelude::*;
use crate::path::{lemma_segments_nonempty, segments};
use crate::text::{from_chars, skip_chars, to_chars};

verus! {

/// An ordered table of aliases: each entry is a prefix and the text that
/// takes its place.
pub struct AliasTable {
    pub entries: Vec<(String, String)>,
}

impl View for AliasTable {
    type V = Seq<(Seq<char>, Seq<char>)>;

    open spec fn view(&self) -> Seq<(Seq<char>, Seq<char>)> {
        Seq::new(self.entries@.len(), |i: int| (self.entries@[i].0@, self.entries@[i].1@))
    }
}

/// The text that the first entry of `table` with the prefix `key` puts in
/// its place.
pub open spec fn lookup_alias(
    table: Seq<(Seq<char>, Seq<char>)>,
    key: Seq<char>,
) -> Option<Seq<char>>
    decreases table.len(),
{
    if table.len() == 0 {
        None
    } else if table[0].0 == key {
        Some(table[0].1)
    } else {
        lookup_alias(table.drop_first(), key)
    }
}

/// The first segment of `specifier`: what stands before its first `/`.
pub open spec fn first_segment(specifier: Seq<char>) -> Seq<char> {
    segments(specifier)[0]
}

/// `specifier` after aliasing: where its first segment is a prefix of
/// `table`, that segment gives way to the prefix's replacement and the rest
/// stays; otherwise nothing changes.
pub open spec fn rewritten(specifier: Seq<char>, table: Seq<(Seq<char>, Seq<char>)>) -> Seq<char> {
    match lookup_alias(table, first_segment(specifier)) {
        Some(value) => value + specifier.skip(first_segment(specifier).len() as int),
        None => specifier,
    }
}

/// The first segment of `s` ends at its first `/`, or with `s` where it has
/// none; a string with a `/` has a second segment.
pub proof fn lemma_first_segment(s: Seq<char>, i: int)
    requires
        0 <= i <= s.len(),
        forall|j: int| 0 <= j < i ==> s[j] != '/',
        i == s.len() || s[i] == '/',
    ensures
        first_segment(s) == s.take(i),
        i < s.len() ==> segments(s).len() >= 2,
        i == s.len() ==> segments(s).len() == 1,
    decreases s.len(),
{
    if s.len() == 0 {
        assert(s.take(0) =~= Seq::<char>::empty());
    } else {
        let init = s.drop_last();
        lemma_segments_nonempty(init);
        if i == s.len() {
            lemma_first_segment(init, i - 1);
            assert(init.take(i - 1) =~= init);
            assert(segments(s) =~= seq![init.push(s.last())]);
            assert(init.push(s.last()) =~= s.take(i));
        } else if i == s.len() - 1 {
            lemma_first_segment(init, i);
            assert(init.take(i) =~= s.take(i));
        } else {
            lemma_first_segment(init, i);
            assert(init.take(i) =~= s.take(i));
        }
    }
}

/// A lookup finds an entry with the key, and none goes before it.
pub proof fn lemma_lookup_alias(table: Seq<(Seq<char>, Seq<char>)>, key: Seq<char>)
    ensures
        lookup_alias(table, key) is None <==> (forall|i: int|
            0 <= i < table.len() ==> (#[trigger] table[i]).0 != key),
        lookup_alias(table, key) matches Some(value) ==> exists|i: int|
            0 <= i < table.len() && (#[trigger] table[i]) == (key, value),
    decreases table.len(),
{
    if table.len() > 0 {
        let rest = table.drop_first();
        lemma_lookup_alias(rest, key);
        if table[0].0 != key {
            assert forall|i: int| 0 <= i < rest.len() implies table[i + 1] == #[trigger] rest[i] by {}
            if lookup_alias(rest, key) is None {
                assert forall|i: int| 0 <= i < table.len() implies (#[trigger] table[i]).0
                    != key by {
                    if i > 0 {
                        assert(table[i] == rest[i - 1]);
                    }
                }
            } else {
                let value = lookup_alias(rest, key)->0;
                let i = choose|i: int| 0 <= i < rest.len() && (#[trigger] rest[i]) == (key, value);
                assert(table[i + 1] == (key, value));
            }
        } else {
            assert(table[0] == (key, table[0].1));
        }
    }
}

/// Aliasing leaves alone every specifier whose first segment is no prefix
/// of the table.
pub proof fn lemma_rewrite_is_noop_without_key(
    specifier: Seq<char>,
    table: Seq<(Seq<char>, Seq<char>)>,
)
    requires
        forall|i: int| 0 <= i < table.len() ==> (#[trigger] table[i]).0 != first_segment(specifier),
    ensures
        rewritten(specifier, table) == specifier,
{
    lemma_lookup_alias(table, first_segment(specifier));
}

/// Where the first segment of a specifier is a prefix of the table, aliasing
/// changes that segment and nothing else: the result is a replacement that
/// the table gives for the segment, followed by everything that followed the
/// segment in the specifier.
pub proof fn lemma_rewrite_changes_first_segment_only(
    specifier: Seq<char>,
    table: Seq<(Seq<char>, Seq<char>)>,
)
    requires
        exists|i: int| 0 <= i < table.len() && (#[trigger] table[i]).0 == first_segment(specifier),
    ensures
        exists|i: int|
            0 <= i < table.len() && (#[trigger] table[i]).0 == first_segment(specifier)
                && rewritten(specifier, table).take(table[i].1.len() as int) == table[i].1
                && rewritten(specifier, table).skip(table[i].1.len() as int) == specifier.skip(
                first_segment(specifier).len() as int,
            ),
{
    let head = first_segment(specifier);
    lemma_lookup_alias(table, head);
    let value = lookup_alias(table, head)->0;
    let i = choose|i: int| 0 <= i < table.len() && (#[trigger] table[i]) == (head, value);
    let rest = specifier.skip(head.len() as int);
    assert((value + rest).take(value.len() as int) =~= value);
    assert((value + rest).skip(value.len() as int) =~= rest);
}

impl AliasTable {
    /// The table without aliases.
    pub fn new() -> (table: Self)
        ensures
            table@ == Seq::<(Seq<char>, Seq<char>)>::empty(),
    {
        let table = AliasTable { entries: Vec::new() };
        assert(table@ =~= Seq::<(Seq<char>, Seq<char>)>::empty());
        table
    }

    /// Adds an alias after those that the table holds.
    pub fn insert(&mut self, prefix: String, replacement: String)
        ensures
            final(self)@ == old(self)@.push((prefix@, replacement@)),
    {
        self.entries.push((prefix, replacement));
        assert(self@ =~= old(self)@.push((prefix@, replacement@)));
    }

    /// The replacement that the first alias with the prefix `key` gives.
    fn lookup(&self, key: &String) -> (found: Option<&String>)
        ensures
            match found {
                Some(value) => lookup_alias(self@, key@) == Some(value@),
                None => lookup_alias(self@, key@) is None,
            },
    {
        let mut i: usize = 0;
        assert(self@.skip(0) =~= self@);
        while i < self.entries.len()
            invariant
                i <= self.entries.len(),
                self@.len() == self.entries.len(),
                lookup_alias(self@, key@) == lookup_alias(self@.skip(i as int), key@),
            decreases self.entries.len() - i,
        {
            proof {
                assert(self@.skip(i as int).drop_first() =~= self@.skip(i + 1));
                assert(self@.skip(i as int)[0] == self@[i as int]);
            }
            if self.entries[i].0 == *key {
                return Some(&self.entries[i].1);
            }
            i += 1;
        }
        None
    }
}

/// Rewrites `specifier` by the aliases of `alias`: the specifier is split at
/// its first `/`; where what stands before it is a prefix of the table, the
/// replacement of the first such alias takes its place, once. Any other
/// specifier comes back as it is.
pub fn rewrite_alias(specifier: &str, alias: &AliasTable) -> (out: String)
    ensures
        out@ == rewritten(specifier@, alias@),
{
    let chars = to_chars(specifier);
    let mut i: usize = 0;
    while i < chars.len() && chars[i] != '/'
        invariant
            i <= chars.len(),
            forall|j: int| 0 <= j < i ==> chars@[j] != '/',
        decreases chars.len() - i,
    {
        i += 1;
    }
    proof {
        lemma_first_segment(chars@, i as int);
    }
    let mut head_chars: Vec<char> = Vec::new();
    let mut j: usize = 0;
    while j < i
        invariant
            j <= i <= chars.len(),
            head_chars@ == chars@.take(j as int),
        decreases i - j,
    {
        head_chars.push(chars[j]);
        assert(chars@.take(j + 1) =~= chars@.take(j as int).push(chars@[j as int]));
        j += 1;
    }
    let head = from_chars(&head_chars);
    match alias.lookup(&head) {
        Some(value) => {
            let rest = from_chars(&skip_chars(&chars, i));
            let mut out = value.clone();
            out.append(rest.as_str());
            out
        },
        None => String::from_str(specifier),
    }
}

} // verus!
