//! Dotted component paths (`Root.Engine.Speed`): the enclosing group, the
//! leaf segment, and the segment count.

use crate::text::{chars_of, string_from_chars};
use vstd::prelude::*;

verus! {

/// The position of the last `.` in `s`, or `-1` when there is none.
pub open spec fn last_dot(s: Seq<char>) -> int
    decreases s.len(),
{
    if s.len() == 0 {
        -1
    } else if s.last() == '.' {
        s.len() - 1
    } else {
        last_dot(s.drop_last())
    }
}

/// The enclosing group of a path: everything before the last `.`; empty for a
/// single-segment path (`Root.Engine.Speed` → `Root.Engine`, `Root` → ``).
pub open spec fn parent_of(s: Seq<char>) -> Seq<char> {
    if last_dot(s) < 0 {
        Seq::empty()
    } else {
        s.take(last_dot(s))
    }
}

/// The leaf segment of a path: everything after the last `.` (the whole path
/// when there is none).
pub open spec fn leaf_of(s: Seq<char>) -> Seq<char> {
    s.skip(last_dot(s) + 1)
}

/// The number of `.`-separated segments (`Root.A.B` → 3; the empty path has one
/// empty segment).
pub open spec fn segment_count(s: Seq<char>) -> nat
    decreases s.len(),
{
    if s.len() == 0 {
        1
    } else if s.last() == '.' {
        segment_count(s.drop_last()) + 1
    } else {
        segment_count(s.drop_last())
    }
}

pub proof fn lemma_last_dot_bounds(s: Seq<char>)
    ensures
        -1 <= last_dot(s) < s.len(),
        last_dot(s) >= 0 ==> s[last_dot(s)] == '.',
        forall|i: int| last_dot(s) < i < s.len() ==> s[i] != '.',
    decreases s.len(),
{
    if s.len() > 0 && s.last() != '.' {
        lemma_last_dot_bounds(s.drop_last());
        assert forall|i: int| last_dot(s) < i < s.len() implies s[i] != '.' by {
            if i < s.len() - 1 {
                assert(s.drop_last()[i] == s[i]);
            }
        }
    }
}

/// The position of the last `.` among the chars `v`.
pub fn find_last_dot(v: &Vec<char>) -> (r: Option<usize>)
    ensures
        match r {
            Some(i) => last_dot(v@) == i as int,
            None => last_dot(v@) == -1,
        },
{
    let mut i = v.len();
    assert(v@.take(i as int) =~= v@);
    while i > 0
        invariant
            i <= v.len(),
            last_dot(v@) == last_dot(v@.take(i as int)),
        decreases i,
    {
        assert(v@.take(i as int).drop_last() =~= v@.take(i - 1));
        if v[i - 1] == '.' {
            return Some(i - 1);
        }
        i -= 1;
    }
    None
}

/// The enclosing group of `path` (see [`parent_of`]).
pub fn parent_group(path: &str) -> (r: String)
    ensures
        r@ == parent_of(path@),
{
    let v = chars_of(path);
    proof {
        assert(v@.take(v@.len() as int) =~= v@);
        lemma_last_dot_bounds(v@);
    }
    match find_last_dot(&v) {
        Some(i) => string_from_chars(&v, 0, i),
        None => String::new(),
    }
}

/// The leaf segment of `path` (see [`leaf_of`]).
pub fn last_segment(path: &str) -> (r: String)
    ensures
        r@ == leaf_of(path@),
{
    let v = chars_of(path);
    proof {
        assert(v@.take(v@.len() as int) =~= v@);
        lemma_last_dot_bounds(v@);
    }
    let start = match find_last_dot(&v) {
        Some(i) => i + 1,
        None => 0,
    };
    let r = string_from_chars(&v, start, v.len());
    assert(v@.skip(start as int) =~= v@.subrange(start as int, v@.len() as int));
    r
}

/// The number of `.`-separated segments of `path`.
pub fn count_segments(path: &str) -> (n: usize)
    requires
        path@.len() < usize::MAX,
    ensures
        n == segment_count(path@),
{
    let v = chars_of(path);
    let mut n: usize = 1;
    let mut i: usize = 0;
    while i < v.len()
        invariant
            i <= v.len(),
            v@ == path@,
            n == segment_count(v@.take(i as int)),
            n <= i + 1,
            v.len() < usize::MAX,
        decreases v.len() - i,
    {
        assert(v@.take(i + 1).drop_last() =~= v@.take(i as int));
        if v[i] == '.' {
            n += 1;
        }
        i += 1;
    }
    assert(v@.take(v@.len() as int) =~= v@);
    n
}

} // verus!
