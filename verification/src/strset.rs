//! Sorted, duplicate-free string lists — the library's ordered string sets.

use crate::text::{lemma_seq_lt_asymmetric, lemma_seq_lt_irreflexive, lemma_seq_lt_total, lemma_seq_lt_transitive, seq_lt, str_eq, str_lt, to_owned_string};
use vstd::prelude::*;

verus! {

/// The character views of a list of strings.
pub open spec fn views(v: Seq<String>) -> Seq<Seq<char>> {
    v.map_values(|s: String| s@)
}

/// Strictly increasing in the lexicographic order (so also duplicate-free).
pub open spec fn strictly_sorted(s: Seq<Seq<char>>) -> bool {
    forall|i: int, j: int| 0 <= i < j < s.len() ==> seq_lt(#[trigger] s[i], #[trigger] s[j])
}

/// `set` is the sorted, duplicate-free list whose members are exactly those
/// satisfying `member`.
pub open spec fn is_sorted_set_of(set: Seq<String>, member: spec_fn(Seq<char>) -> bool) -> bool {
    &&& strictly_sorted(views(set))
    &&& forall|x: Seq<char>| #[trigger] views(set).contains(x) <==> member(x)
}

/// Two strictly sorted lists with the same members are the same list.
pub proof fn lemma_sorted_sets_equal(a: Seq<Seq<char>>, b: Seq<Seq<char>>)
    requires
        strictly_sorted(a),
        strictly_sorted(b),
        forall|x: Seq<char>| a.contains(x) <==> b.contains(x),
    ensures
        a == b,
    decreases a.len(),
{
    if a.len() == 0 {
        if b.len() > 0 {
            assert(b.contains(b[0]));
        }
        assert(a =~= b);
    } else if b.len() == 0 {
        assert(a.contains(a[0]));
    } else {
        // The first elements are the least members of each list.
        assert(a.contains(a[0]));
        assert(b.contains(b[0]));
        let ia = choose|i: int| 0 <= i < a.len() && a[i] == b[0];
        let ib = choose|i: int| 0 <= i < b.len() && b[i] == a[0];
        if a[0] != b[0] {
            if ib > 0 {
                assert(seq_lt(b[0], b[ib]));
            }
            if ia > 0 {
                assert(seq_lt(a[0], a[ia]));
            }
            lemma_seq_lt_asymmetric(a[0], b[0]);
            lemma_seq_lt_irreflexive(a[0]);
        }
        let a1 = a.drop_first();
        let b1 = b.drop_first();
        assert forall|x: Seq<char>| a1.contains(x) <==> b1.contains(x) by {
            if a1.contains(x) {
                let k = choose|k: int| 0 <= k < a1.len() && a1[k] == x;
                assert(a[k + 1] == x);
                assert(seq_lt(a[0], x));
                lemma_seq_lt_irreflexive(x);
                assert(b.contains(x));
                let m = choose|m: int| 0 <= m < b.len() && b[m] == x;
                assert(m != 0);
                assert(b1[m - 1] == x);
            }
            if b1.contains(x) {
                let k = choose|k: int| 0 <= k < b1.len() && b1[k] == x;
                assert(b[k + 1] == x);
                assert(seq_lt(b[0], x));
                lemma_seq_lt_irreflexive(x);
                assert(a.contains(x));
                let m = choose|m: int| 0 <= m < a.len() && a[m] == x;
                assert(m != 0);
                assert(a1[m - 1] == x);
            }
        }
        lemma_sorted_sets_equal(a1, b1);
        assert(a =~= seq![a[0]] + a1);
        assert(b =~= seq![b[0]] + b1);
    }
}

/// Insert `s` into the sorted list `set`, keeping it sorted and duplicate-free.
pub fn insert_sorted(set: &mut Vec<String>, s: &str)
    requires
        strictly_sorted(views(old(set)@)),
    ensures
        strictly_sorted(views(final(set)@)),
        forall|x: Seq<char>| #[trigger] views(final(set)@).contains(x)
            <==> (views(old(set)@).contains(x) || x == s@),
{
    let mut i: usize = 0;
    while i < set.len() && str_lt(set[i].as_str(), s)
        invariant
            i <= set.len(),
            set@ == old(set)@,
            strictly_sorted(views(set@)),
            forall|k: int| 0 <= k < i ==> seq_lt(#[trigger] views(set@)[k], s@),
        decreases set.len() - i,
    {
        i += 1;
    }
    let ghost old_views = views(set@);
    if i < set.len() && str_eq(set[i].as_str(), s) {
        assert(views(set@)[i as int] == s@);
        return;
    }
    proof {
        if i < set.len() {
            lemma_seq_lt_total(old_views[i as int], s@);
        }
        assert forall|k: int| i <= k < old_views.len() implies seq_lt(s@, #[trigger] old_views[k]) by {
            if k > i {
                lemma_seq_lt_transitive(s@, old_views[i as int], old_views[k]);
            }
        }
    }
    set.insert(i, to_owned_string(s));
    proof {
        let nv = views(set@);
        assert(nv =~= old_views.insert(i as int, s@));
        assert forall|a: int, b: int| 0 <= a < b < nv.len() implies seq_lt(#[trigger] nv[a], #[trigger] nv[b]) by {
            if b < i {
            } else if b == i {
            } else if a < i {
                assert(seq_lt(s@, old_views[b - 1]));
                lemma_seq_lt_transitive(nv[a], s@, nv[b]);
            } else if a == i {
                assert(seq_lt(s@, old_views[b - 1]));
            } else {
            }
        }
        assert forall|x: Seq<char>| #[trigger] nv.contains(x) <==> (old_views.contains(x) || x == s@) by {
            if old_views.contains(x) {
                let k = choose|k: int| 0 <= k < old_views.len() && old_views[k] == x;
                if k < i {
                    assert(nv[k] == x);
                } else {
                    assert(nv[k + 1] == x);
                }
            }
            if x == s@ {
                assert(nv[i as int] == x);
            }
            if nv.contains(x) {
                let k = choose|k: int| 0 <= k < nv.len() && nv[k] == x;
                if k < i {
                    assert(old_views[k] == x);
                } else if k > i {
                    assert(old_views[k - 1] == x);
                }
            }
        }
    }
}

/// Whether the sorted-or-not list `v` holds a string equal to `s`.
pub fn contains_str(v: &Vec<String>, s: &str) -> (r: bool)
    ensures
        r == views(v@).contains(s@),
{
    let mut i: usize = 0;
    while i < v.len()
        invariant
            i <= v.len(),
            forall|k: int| 0 <= k < i ==> views(v@)[k] != s@,
        decreases v.len() - i,
    {
        if str_eq(v[i].as_str(), s) {
            assert(views(v@)[i as int] == s@);
            return true;
        }
        i += 1;
    }
    proof {
        if views(v@).contains(s@) {
            let k = choose|k: int| 0 <= k < views(v@).len() && views(v@)[k] == s@;
            assert(views(v@)[k] != s@);
        }
    }
    false
}

} // verus!
