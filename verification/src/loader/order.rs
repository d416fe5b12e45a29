//! Stable ordering of symbol-table indices: by path, or (for CAN signals) by
//! start bit and then path.
use super::ProjectSymbols;
use crate::text::{seq_lt, str_lt};
use vstd::prelude::*;

verus! {

/// The path of the symbol at index `i`.
pub open spec fn path_at(t: ProjectSymbols, i: usize) -> Seq<char> {
    t.symbols@[i as int].path@
}

/// A CAN signal's start bit, when the symbol has one.
pub open spec fn start_bit_at(t: ProjectSymbols, i: usize) -> Option<u32> {
    match t.symbols@[i as int].can {
        Some(c) => c.start_bit,
        None => None,
    }
}

/// `a < b` on optional numbers, with `None` first.
pub open spec fn opt_lt(a: Option<u32>, b: Option<u32>) -> bool {
    match (a, b) {
        (None, Some(_)) => true,
        (Some(x), Some(y)) => x < y,
        _ => false,
    }
}

/// Whether symbol `a` sorts strictly before symbol `b`: by path, or with
/// `by_bit` by start bit first and path second.
pub open spec fn key_lt(t: ProjectSymbols, a: usize, b: usize, by_bit: bool) -> bool {
    if by_bit {
        opt_lt(start_bit_at(t, a), start_bit_at(t, b)) || (start_bit_at(t, a) == start_bit_at(t, b)
            && seq_lt(path_at(t, a), path_at(t, b)))
    } else {
        seq_lt(path_at(t, a), path_at(t, b))
    }
}

/// `i` inserted into the ordered `s` after every element that does not sort
/// after it (so equal keys keep their arrival order).
pub open spec fn ins_key(t: ProjectSymbols, s: Seq<usize>, i: usize, by_bit: bool) -> Seq<usize>
    decreases s.len(),
{
    if s.len() == 0 {
        Seq::empty().push(i)
    } else if key_lt(t, i, s.last(), by_bit) {
        ins_key(t, s.drop_last(), i, by_bit).push(s.last())
    } else {
        s.push(i)
    }
}

/// `s` in stable ascending key order.
pub open spec fn sort_keys(t: ProjectSymbols, s: Seq<usize>, by_bit: bool) -> Seq<usize>
    decreases s.len(),
{
    if s.len() == 0 {
        s
    } else {
        ins_key(t, sort_keys(t, s.drop_last(), by_bit), s.last(), by_bit)
    }
}

/// Every index of `s` points into the table.
pub open spec fn in_table(t: ProjectSymbols, s: Seq<usize>) -> bool {
    forall|k: int| 0 <= k < s.len() ==> #[trigger] s[k] < t.symbols@.len()
}

/// Inserting keeps every element satisfying `good` when the new one does.
pub proof fn lemma_ins_all(t: ProjectSymbols, s: Seq<usize>, i: usize, by_bit: bool, good: spec_fn(usize) -> bool)
    requires
        forall|k: int| 0 <= k < s.len() ==> good(#[trigger] s[k]),
        good(i),
    ensures
        forall|k: int| 0 <= k < ins_key(t, s, i, by_bit).len() ==> good(#[trigger] ins_key(t, s, i, by_bit)[k]),
        ins_key(t, s, i, by_bit).len() == s.len() + 1,
    decreases s.len(),
{
    if s.len() > 0 && key_lt(t, i, s.last(), by_bit) {
        let d = s.drop_last();
        assert forall|k: int| 0 <= k < d.len() implies good(#[trigger] d[k]) by {
            assert(d[k] == s[k]);
        }
        lemma_ins_all(t, d, i, by_bit, good);
        assert(good(s[s.len() - 1]));
    }
}

proof fn lemma_ins_at(t: ProjectSymbols, s: Seq<usize>, i: usize, by_bit: bool, pos: int)
    requires
        0 <= pos <= s.len(),
        forall|k: int| pos <= k < s.len() ==> key_lt(t, i, #[trigger] s[k], by_bit),
        pos == 0 || !key_lt(t, i, s[pos - 1], by_bit),
    ensures
        ins_key(t, s, i, by_bit) == s.take(pos).push(i) + s.skip(pos),
    decreases s.len(),
{
    if s.len() == 0 {
        assert(s.take(pos).push(i) + s.skip(pos) =~= Seq::empty().push(i));
    } else if pos == s.len() {
        assert(s.take(pos).push(i) + s.skip(pos) =~= s.push(i));
    } else {
        assert(key_lt(t, i, s[s.len() - 1], by_bit));
        let d = s.drop_last();
        assert forall|k: int| pos <= k < d.len() implies key_lt(t, i, #[trigger] d[k], by_bit) by {
            assert(d[k] == s[k]);
        }
        if pos > 0 {
            assert(d[pos - 1] == s[pos - 1]);
        }
        lemma_ins_at(t, d, i, by_bit, pos);
        assert((d.take(pos).push(i) + d.skip(pos)).push(s.last()) =~= s.take(pos).push(i) + s.skip(pos));
    }
}

/// Whether symbol `a` sorts strictly before symbol `b`.
pub fn key_less(t: &ProjectSymbols, a: usize, b: usize, by_bit: bool) -> (r: bool)
    requires
        a < t.symbols@.len(),
        b < t.symbols@.len(),
    ensures
        r == key_lt(*t, a, b, by_bit),
{
    let pa = t.symbols[a].path.as_str();
    let pb = t.symbols[b].path.as_str();
    if by_bit {
        let sa = match &t.symbols[a].can {
            Some(c) => c.start_bit,
            None => None,
        };
        let sb = match &t.symbols[b].can {
            Some(c) => c.start_bit,
            None => None,
        };
        match (sa, sb) {
            (None, Some(_)) => true,
            (Some(x), Some(y)) => x < y || (x == y && str_lt(pa, pb)),
            (None, None) => str_lt(pa, pb),
            (Some(_), None) => false,
        }
    } else {
        str_lt(pa, pb)
    }
}

/// Insert index `i` into the ordered list `v` as [`ins_key`] does.
pub fn insert_index(t: &ProjectSymbols, v: &mut Vec<usize>, i: usize, by_bit: bool)
    requires
        i < t.symbols@.len(),
        in_table(*t, old(v)@),
    ensures
        final(v)@ == ins_key(*t, old(v)@, i, by_bit),
        in_table(*t, final(v)@),
{
    let mut pos: usize = v.len();
    while pos > 0 && key_less(t, i, v[pos - 1], by_bit)
        invariant
            v@ == old(v)@,
            in_table(*t, v@),
            i < t.symbols@.len(),
            pos <= v@.len(),
            forall|k: int| pos <= k < v@.len() ==> key_lt(*t, i, #[trigger] v@[k], by_bit),
        decreases pos,
    {
        pos -= 1;
    }
    proof {
        lemma_ins_at(*t, v@, i, by_bit, pos as int);
    }
    v.insert(pos, i);
    proof {
        assert(v@ =~= old(v)@.take(pos as int).push(i) + old(v)@.skip(pos as int));
    }
}

/// Inserting adds exactly the new index.
pub proof fn lemma_ins_contains(t: ProjectSymbols, s: Seq<usize>, i: usize, by_bit: bool, x: usize)
    ensures
        ins_key(t, s, i, by_bit).contains(x) <==> (s.contains(x) || x == i),
    decreases s.len(),
{
    if s.len() == 0 {
        let r = ins_key(t, s, i, by_bit);
        assert(r =~= Seq::empty().push(i));
        assert(r[0] == i);
        if r.contains(x) {
            let k = choose|k: int| 0 <= k < r.len() && r[k] == x;
            assert(k == 0);
        }
        if x == i {
            assert(r[0] == x);
        }
    } else if key_lt(t, i, s.last(), by_bit) {
        let d = s.drop_last();
        lemma_ins_contains(t, d, i, by_bit, x);
        let r = ins_key(t, d, i, by_bit);
        assert(ins_key(t, s, i, by_bit) == r.push(s.last()));
        if s.contains(x) {
            let k = choose|k: int| 0 <= k < s.len() && s[k] == x;
            if k < d.len() {
                assert(d[k] == x);
            } else {
                assert(r.push(s.last())[r.len() as int] == x);
            }
        }
        if r.push(s.last()).contains(x) {
            let k = choose|k: int| 0 <= k < r.len() + 1 && r.push(s.last())[k] == x;
            if k < r.len() {
                assert(r[k] == x);
                if d.contains(x) {
                    let m = choose|m: int| 0 <= m < d.len() && d[m] == x;
                    assert(s[m] == x);
                }
            } else {
                assert(s[s.len() - 1] == x);
            }
        }
        if x == i {
            assert(r.contains(x));
            let k = choose|k: int| 0 <= k < r.len() && r[k] == x;
            assert(r.push(s.last())[k] == x);
        }
    } else {
        assert(ins_key(t, s, i, by_bit) == s.push(i));
        if s.push(i).contains(x) {
            let k = choose|k: int| 0 <= k < s.len() + 1 && s.push(i)[k] == x;
            if k < s.len() {
                assert(s[k] == x);
            }
        }
        if s.contains(x) {
            let k = choose|k: int| 0 <= k < s.len() && s[k] == x;
            assert(s.push(i)[k] == x);
        }
        if x == i {
            assert(s.push(i)[s.len() as int] == x);
        }
    }
}

/// Sorting keeps exactly the indices it was given.
pub proof fn lemma_sort_contains(t: ProjectSymbols, s: Seq<usize>, by_bit: bool, x: usize)
    ensures
        sort_keys(t, s, by_bit).contains(x) <==> s.contains(x),
    decreases s.len(),
{
    if s.len() > 0 {
        let d = s.drop_last();
        lemma_sort_contains(t, d, by_bit, x);
        lemma_ins_contains(t, sort_keys(t, d, by_bit), s.last(), by_bit, x);
        if s.contains(x) {
            let k = choose|k: int| 0 <= k < s.len() && s[k] == x;
            if k < d.len() {
                assert(d[k] == x);
            }
        }
        if d.contains(x) {
            let k = choose|k: int| 0 <= k < d.len() && d[k] == x;
            assert(s[k] == x);
        }
    }
}

} // verus!
