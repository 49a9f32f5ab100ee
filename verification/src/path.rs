//! Logical path arithmetic on forward-slash paths.
//!
//! Nothing here touches a file system: a path is a sequence of characters,
//! its segments are the pieces between `/` characters, and joining is the
//! usual left-to-right walk in which `.` and empty segments change nothing
//! and `..` removes the segment before it.

use vstd::prelude::*;
use crate::text::{from_chars, to_chars, views_of};

verus! {

/// The pieces of `s` between `/` characters. A string without `/` is its own
/// single segment; `n` slashes give `n + 1` segments, some possibly empty.
pub open spec fn segments(s: Seq<char>) -> Seq<Seq<char>>
    decreases s.len(),
{
    if s.len() == 0 {
        seq![Seq::<char>::empty()]
    } else {
        let init = segments(s.drop_last());
        if s.last() == '/' {
            init.push(Seq::<char>::empty())
        } else {
            init.update(init.len() - 1, init.last().push(s.last()))
        }
    }
}

/// The text `.`.
pub open spec fn dot() -> Seq<char> {
    seq!['.']
}

/// The text `..`.
pub open spec fn dot_dot() -> Seq<char> {
    seq!['.', '.']
}

/// One step of a walk: where `stack` names a directory, the directory reached
/// from it through `segment`.
pub open spec fn step(stack: Seq<Seq<char>>, segment: Seq<char>) -> Seq<Seq<char>> {
    if segment.len() == 0 || segment == dot() {
        stack
    } else if segment == dot_dot() {
        if stack.len() > 0 {
            stack.drop_last()
        } else {
            stack
        }
    } else {
        stack.push(segment)
    }
}

/// The directory reached from `stack` by taking `segs` one after another,
/// from the left.
pub open spec fn walk(stack: Seq<Seq<char>>, segs: Seq<Seq<char>>) -> Seq<Seq<char>>
    decreases segs.len(),
{
    if segs.len() == 0 {
        stack
    } else {
        step(walk(stack, segs.drop_last()), segs.last())
    }
}

/// Each segment of `stack` with a `/` in front of it, one after another.
pub open spec fn slashed(stack: Seq<Seq<char>>) -> Seq<char>
    decreases stack.len(),
{
    if stack.len() == 0 {
        Seq::<char>::empty()
    } else {
        slashed(stack.drop_last()) + seq!['/'] + stack.last()
    }
}

/// The absolute path that `stack` names; the empty stack is the root `/`.
pub open spec fn render(stack: Seq<Seq<char>>) -> Seq<char> {
    if stack.len() == 0 {
        seq!['/']
    } else {
        slashed(stack)
    }
}

/// The path reached from the directory that holds the file `from` by walking
/// along `target`.
pub open spec fn join_from_file(from: Seq<char>, target: Seq<char>) -> Seq<char> {
    render(walk(walk(Seq::empty(), segments(from).drop_last()), segments(target)))
}

/// Every string has at least one segment.
pub proof fn lemma_segments_nonempty(s: Seq<char>)
    ensures
        segments(s).len() >= 1,
    decreases s.len(),
{
    if s.len() > 0 {
        lemma_segments_nonempty(s.drop_last());
    }
}

/// Whether `segment` holds no `/`.
pub open spec fn is_slash_free(segment: Seq<char>) -> bool {
    forall|j: int| 0 <= j < segment.len() ==> segment[j] != '/'
}

/// Whether each of `segs` holds no `/`.
pub open spec fn all_slash_free(segs: Seq<Seq<char>>) -> bool {
    forall|i: int| 0 <= i < segs.len() ==> is_slash_free(#[trigger] segs[i])
}

/// `segs` with a `/` between each two neighbours.
pub open spec fn joined(segs: Seq<Seq<char>>) -> Seq<char>
    decreases segs.len(),
{
    if segs.len() == 0 {
        Seq::<char>::empty()
    } else if segs.len() == 1 {
        segs[0]
    } else {
        joined(segs.drop_last()) + seq!['/'] + segs.last()
    }
}

/// The segments of a string are what splitting at `/` should give: none of
/// them holds a `/`, and put together again with a `/` between each two they
/// are the string.
pub proof fn lemma_segments_split(s: Seq<char>)
    ensures
        all_slash_free(segments(s)),
        joined(segments(s)) == s,
    decreases s.len(),
{
    if s.len() == 0 {
        assert(segments(s)[0] =~= Seq::<char>::empty());
        assert(joined(segments(s)) =~= s);
    } else {
        let init_text = s.drop_last();
        let init = segments(init_text);
        let c = s.last();
        lemma_segments_split(init_text);
        lemma_segments_nonempty(init_text);
        let segs = segments(s);
        if c == '/' {
            assert(segs.drop_last() =~= init);
            assert(joined(segs) =~= init_text + seq!['/'] + Seq::<char>::empty());
            assert(init_text + seq!['/'] + Seq::<char>::empty() =~= s);
            assert forall|i: int| 0 <= i < segs.len() implies is_slash_free(#[trigger] segs[i]) by {
                if i < init.len() {
                    assert(segs[i] == init[i]);
                }
            }
        } else {
            let last = init.last().push(c);
            assert(segs.last() == last);
            assert forall|i: int| 0 <= i < segs.len() implies is_slash_free(#[trigger] segs[i]) by {
                if i < init.len() - 1 {
                    assert(segs[i] == init[i]);
                } else {
                    assert(is_slash_free(init.last()));
                    assert forall|j: int| 0 <= j < last.len() implies last[j] != '/' by {
                        if j < init.last().len() {
                            assert(last[j] == init.last()[j]);
                        }
                    }
                }
            }
            if init.len() == 1 {
                assert(joined(segs) =~= joined(init).push(c));
            } else {
                assert(segs.drop_last() =~= init.drop_last());
                assert(joined(segs) =~= joined(init).push(c));
            }
            assert(joined(init).push(c) =~= s);
        }
    }
}

/// Whether `stack` is in canonical form: each of its segments is a name,
/// that is, it is not empty, is neither `.` nor `..`, and holds no `/`.
pub open spec fn is_canonical(stack: Seq<Seq<char>>) -> bool {
    forall|i: int|
        0 <= i < stack.len() ==> {
            &&& (#[trigger] stack[i]).len() > 0
            &&& stack[i] != dot()
            &&& stack[i] != dot_dot()
            &&& is_slash_free(stack[i])
        }
}

/// A walk from a canonical stack ends in a canonical stack.
pub proof fn lemma_walk_is_canonical(stack: Seq<Seq<char>>, segs: Seq<Seq<char>>)
    requires
        is_canonical(stack),
        all_slash_free(segs),
    ensures
        is_canonical(walk(stack, segs)),
    decreases segs.len(),
{
    if segs.len() > 0 {
        let before = walk(stack, segs.drop_last());
        assert forall|i: int| 0 <= i < segs.drop_last().len() implies is_slash_free(
            #[trigger] segs.drop_last()[i],
        ) by {
            assert(segs.drop_last()[i] == segs[i]);
        }
        lemma_walk_is_canonical(stack, segs.drop_last());
        let after = step(before, segs.last());
        assert(is_slash_free(segs[segs.len() - 1]));
        assert forall|i: int| 0 <= i < after.len() implies {
            &&& (#[trigger] after[i]).len() > 0
            &&& after[i] != dot()
            &&& after[i] != dot_dot()
            &&& is_slash_free(after[i])
        } by {
            if i < before.len() {
                assert(after[i] == before[i]);
            }
        }
    }
}

/// A join gives a canonical absolute path: it is the rendering of a stack of
/// names, so it starts with `/` and holds no empty, `.` or `..` segment.
pub proof fn lemma_join_is_canonical(from: Seq<char>, target: Seq<char>)
    ensures
        exists|stack: Seq<Seq<char>>|
            is_canonical(stack) && join_from_file(from, target) == #[trigger] render(stack),
        join_from_file(from, target).len() > 0,
        join_from_file(from, target)[0] == '/',
{
    lemma_segments_split(from);
    lemma_segments_split(target);
    lemma_segments_nonempty(from);
    let dir = segments(from).drop_last();
    assert forall|i: int| 0 <= i < dir.len() implies is_slash_free(#[trigger] dir[i]) by {
        assert(dir[i] == segments(from)[i]);
    }
    let base = walk(Seq::empty(), dir);
    lemma_walk_is_canonical(Seq::empty(), dir);
    lemma_walk_is_canonical(base, segments(target));
    let stack = walk(base, segments(target));
    assert(join_from_file(from, target) == render(stack));
    lemma_slashed_starts_with_slash(stack);
}

/// The rendering of a canonical stack that is not empty starts with `/`.
pub proof fn lemma_slashed_starts_with_slash(stack: Seq<Seq<char>>)
    requires
        is_canonical(stack),
    ensures
        stack.len() > 0 ==> slashed(stack).len() > 0 && slashed(stack)[0] == '/',
    decreases stack.len(),
{
    if stack.len() > 1 {
        assert forall|i: int| 0 <= i < stack.drop_last().len() implies {
            &&& (#[trigger] stack.drop_last()[i]).len() > 0
            &&& stack.drop_last()[i] != dot()
            &&& stack.drop_last()[i] != dot_dot()
            &&& is_slash_free(stack.drop_last()[i])
        } by {
            assert(stack.drop_last()[i] == stack[i]);
        }
        lemma_slashed_starts_with_slash(stack.drop_last());
    } else if stack.len() == 1 {
        assert(stack.drop_last().len() == 0);
        assert(slashed(stack.drop_last()) =~= Seq::<char>::empty());
    }
}

fn is_dot(segment: &Vec<char>) -> (b: bool)
    ensures
        b == (segment@ == dot()),
{
    let b = segment.len() == 1 && segment[0] == '.';
    proof {
        if b {
            assert(segment@ =~= dot());
        }
    }
    b
}

fn is_dot_dot(segment: &Vec<char>) -> (b: bool)
    ensures
        b == (segment@ == dot_dot()),
{
    let b = segment.len() == 2 && segment[0] == '.' && segment[1] == '.';
    proof {
        if b {
            assert(segment@ =~= dot_dot());
        }
    }
    b
}

/// Takes one step of a walk on `stack`.
fn take_step(stack: &mut Vec<Vec<char>>, segment: Vec<char>)
    ensures
        views_of(final(stack)@) == step(views_of(old(stack)@), segment@),
{
    if segment.len() == 0 || is_dot(&segment) {
    } else if is_dot_dot(&segment) {
        if stack.len() > 0 {
            stack.pop();
            assert(views_of(stack@) =~= views_of(old(stack)@).drop_last());
        }
    } else {
        stack.push(segment);
        assert(views_of(stack@) =~= views_of(old(stack)@).push(segment@));
    }
}

/// Walks `stack` along every segment of `s` but the last, which is returned.
fn walk_chars(stack: &mut Vec<Vec<char>>, s: &Vec<char>) -> (last: Vec<char>)
    ensures
        views_of(final(stack)@) == walk(views_of(old(stack)@), segments(s@).drop_last()),
        last@ == segments(s@).last(),
{
    let mut cur: Vec<char> = Vec::new();
    let mut i: usize = 0;
    proof {
        assert(s@.take(0) =~= Seq::<char>::empty());
        assert(segments(s@.take(0)).drop_last() =~= Seq::<Seq<char>>::empty());
    }
    while i < s.len()
        invariant
            i <= s.len(),
            views_of(stack@) == walk(views_of(old(stack)@), segments(s@.take(i as int)).drop_last()),
            cur@ == segments(s@.take(i as int)).last(),
        decreases s.len() - i,
    {
        let c = s[i];
        proof {
            let before = s@.take(i as int);
            let after = s@.take(i + 1);
            assert(after.drop_last() =~= before);
            assert(after.last() == c);
            lemma_segments_nonempty(before);
            if c == '/' {
                assert(segments(after).drop_last() =~= segments(before));
            } else {
                assert(segments(after).drop_last() =~= segments(before).drop_last());
            }
        }
        if c == '/' {
            take_step(stack, cur);
            cur = Vec::new();
        } else {
            cur.push(c);
        }
        i += 1;
    }
    proof {
        assert(s@.take(s.len() as int) =~= s@);
    }
    cur
}

/// Writes the absolute path that `stack` names.
fn render_stack(stack: &Vec<Vec<char>>) -> (out: Vec<char>)
    ensures
        out@ == render(views_of(stack@)),
{
    let mut out: Vec<char> = Vec::new();
    if stack.len() == 0 {
        out.push('/');
        assert(out@ =~= seq!['/']);
        return out;
    }
    let mut i: usize = 0;
    proof {
        assert(views_of(stack@).take(0) =~= Seq::<Seq<char>>::empty());
    }
    while i < stack.len()
        invariant
            i <= stack.len(),
            out@ == slashed(views_of(stack@).take(i as int)),
        decreases stack.len() - i,
    {
        out.push('/');
        let segment = &stack[i];
        let ghost head = out@;
        let mut j: usize = 0;
        while j < segment.len()
            invariant
                j <= segment.len(),
                out@ == head + segment@.take(j as int),
            decreases segment.len() - j,
        {
            out.push(segment[j]);
            assert(segment@.take(j + 1) =~= segment@.take(j as int).push(segment@[j as int]));
            j += 1;
        }
        proof {
            assert(segment@.take(segment.len() as int) =~= segment@);
            let taken = views_of(stack@).take(i + 1);
            assert(taken.drop_last() =~= views_of(stack@).take(i as int));
            assert(taken.last() == segment@);
        }
        i += 1;
    }
    proof {
        assert(views_of(stack@).take(stack.len() as int) =~= views_of(stack@));
    }
    out
}

/// Joins `target` against the directory that holds the file `from`, by the
/// logical rules alone: `.` and empty segments are skipped, `..` drops the
/// segment before it (and stays at the root when there is none), and the
/// result is absolute, without a trailing `/` unless it is the root itself.
pub fn join(from: &str, target: &str) -> (joined: String)
    ensures
        joined@ == join_from_file(from@, target@),
{
    let base = to_chars(from);
    let steps = to_chars(target);
    let mut stack: Vec<Vec<char>> = Vec::new();
    assert(views_of(stack@) =~= Seq::<Seq<char>>::empty());
    let _name = walk_chars(&mut stack, &base);
    let last = walk_chars(&mut stack, &steps);
    proof {
        lemma_segments_nonempty(target@);
        let segs = segments(target@);
        assert(segs.drop_last().push(segs.last()) =~= segs);
    }
    take_step(&mut stack, last);
    let out = render_stack(&stack);
    from_chars(&out)
}

/// The position of the last `c` in `s`, or -1 where `s` holds none.
pub open spec fn last_index_of(s: Seq<char>, c: char) -> int
    decreases s.len(),
{
    if s.len() == 0 {
        -1
    } else if s.last() == c {
        s.len() - 1
    } else {
        last_index_of(s.drop_last(), c)
    }
}

/// What follows the last `/` of `path`; the whole of it where it holds none.
pub open spec fn file_name(path: Seq<char>) -> Seq<char> {
    path.subrange(last_index_of(path, '/') + 1, path.len() as int)
}

/// What stands before the last `/` of `path`: the root where that `/` is the
/// first character, nothing where `path` holds no `/`.
pub open spec fn parent(path: Seq<char>) -> Seq<char> {
    let k = last_index_of(path, '/');
    if k < 0 {
        Seq::<char>::empty()
    } else if k == 0 {
        seq!['/']
    } else {
        path.subrange(0, k)
    }
}

/// The extension of `path`: what follows the last `.` of its file name,
/// where that `.` is not the name's first character and the name is not `..`.
pub open spec fn extension(path: Seq<char>) -> Option<Seq<char>> {
    let name = file_name(path);
    let d = last_index_of(name, '.');
    if d > 0 && name != dot_dot() {
        Some(name.subrange(d + 1, name.len() as int))
    } else {
        None
    }
}

/// `last_index_of` names a position of `c`, and no `c` stands after it.
pub proof fn lemma_last_index_of(s: Seq<char>, c: char)
    ensures
        -1 <= last_index_of(s, c) < s.len(),
        last_index_of(s, c) >= 0 ==> s[last_index_of(s, c)] == c,
        forall|i: int| last_index_of(s, c) < i < s.len() ==> s[i] != c,
    decreases s.len(),
{
    if s.len() > 0 && s.last() != c {
        let init = s.drop_last();
        lemma_last_index_of(init, c);
        assert forall|i: int| last_index_of(s, c) < i < s.len() implies s[i] != c by {
            if i < init.len() {
                assert(s[i] == init[i]);
            }
        }
    }
}

fn find_last(s: &Vec<char>, c: char) -> (r: Option<usize>)
    ensures
        match r {
            Some(k) => k < s.len() && k == last_index_of(s@, c),
            None => last_index_of(s@, c) == -1,
        },
{
    let mut i: usize = s.len();
    proof {
        assert(s@.take(s.len() as int) =~= s@);
    }
    while i > 0
        invariant
            i <= s.len(),
            last_index_of(s@, c) == last_index_of(s@.take(i as int), c),
        decreases i,
    {
        proof {
            assert(s@.take(i as int).drop_last() =~= s@.take(i - 1));
        }
        if s[i - 1] == c {
            return Some(i - 1);
        }
        i -= 1;
    }
    None
}

fn copy_range(s: &Vec<char>, from: usize, to: usize) -> (out: Vec<char>)
    requires
        from <= to <= s.len(),
    ensures
        out@ == s@.subrange(from as int, to as int),
{
    let mut out: Vec<char> = Vec::new();
    let mut i: usize = from;
    while i < to
        invariant
            from <= i <= to <= s.len(),
            out@ == s@.subrange(from as int, i as int),
        decreases to - i,
    {
        out.push(s[i]);
        assert(s@.subrange(from as int, i + 1) =~= s@.subrange(from as int, i as int).push(s@[i as int]));
        i += 1;
    }
    out
}

fn file_name_chars(path: &Vec<char>) -> (name: Vec<char>)
    ensures
        name@ == file_name(path@),
{
    proof {
        lemma_last_index_of(path@, '/');
    }
    match find_last(path, '/') {
        Some(k) => copy_range(path, k + 1, path.len()),
        None => copy_range(path, 0, path.len()),
    }
}

fn extension_chars(path: &Vec<char>) -> (ext: Option<Vec<char>>)
    ensures
        match ext {
            Some(e) => extension(path@) == Some(e@),
            None => extension(path@) is None,
        },
{
    let name = file_name_chars(path);
    proof {
        lemma_last_index_of(name@, '.');
    }
    match find_last(&name, '.') {
        Some(d) => {
            if d > 0 && !is_dot_dot(&name) {
                Some(copy_range(&name, d + 1, name.len()))
            } else {
                None
            }
        },
        None => None,
    }
}

/// The file name of `path`.
pub fn file_name_of(path: &str) -> (name: String)
    ensures
        name@ == file_name(path@),
{
    let chars = to_chars(path);
    let name = file_name_chars(&chars);
    from_chars(&name)
}

/// The parent directory of `path`.
pub fn parent_of(path: &str) -> (dir: String)
    ensures
        dir@ == parent(path@),
{
    let chars = to_chars(path);
    proof {
        lemma_last_index_of(path@, '/');
    }
    let dir = match find_last(&chars, '/') {
        Some(k) => {
            if k == 0 {
                let mut root: Vec<char> = Vec::new();
                root.push('/');
                assert(root@ =~= seq!['/']);
                root
            } else {
                copy_range(&chars, 0, k)
            }
        },
        None => Vec::new(),
    };
    from_chars(&dir)
}

/// The extension of `path`, if it has one.
pub fn extension_of(path: &str) -> (ext: Option<String>)
    ensures
        match ext {
            Some(e) => extension(path@) == Some(e@),
            None => extension(path@) is None,
        },
{
    let chars = to_chars(path);
    match extension_chars(&chars) {
        Some(e) => Some(from_chars(&e)),
        None => None,
    }
}

} // verus!
