//! "Did you mean" suggestions for a mistyped group path: the Levenshtein edit
//! distance and the closest group within a third of the name's length.
use crate::model::DocModel;
use crate::text::chars_of;
use vstd::prelude::*;

verus! {

/// The smallest of three numbers.
pub open spec fn min3(x: nat, y: nat, z: nat) -> nat {
    if x <= y && x <= z {
        x
    } else if y <= z {
        y
    } else {
        z
    }
}

/// Levenshtein distance: the fewest single-character insertions, deletions and
/// substitutions that turn `a` into `b`.
pub open spec fn lev(a: Seq<char>, b: Seq<char>) -> nat
    decreases a.len() + b.len(),
{
    if a.len() == 0 {
        b.len()
    } else if b.len() == 0 {
        a.len()
    } else {
        min3(
            lev(a.drop_last(), b) + 1,
            lev(a, b.drop_last()) + 1,
            lev(a.drop_last(), b.drop_last()) + (if a.last() == b.last() {
                0nat
            } else {
                1nat
            }),
        )
    }
}

/// The distance never exceeds the longer of the two lengths.
pub proof fn lemma_lev_bound(a: Seq<char>, b: Seq<char>)
    ensures
        lev(a, b) <= if a.len() >= b.len() {
            a.len()
        } else {
            b.len()
        },
    decreases a.len() + b.len(),
{
    if a.len() > 0 && b.len() > 0 {
        lemma_lev_bound(a.drop_last(), b.drop_last());
    }
}

/// Levenshtein edit distance between two strings, counted in characters.
pub fn edit_distance(a: &str, b: &str) -> (r: usize)
    requires
        a@.len() < usize::MAX,
        b@.len() < usize::MAX,
    ensures
        r == lev(a@, b@),
{
    let av = chars_of(a);
    let bv = chars_of(b);
    let n = bv.len();
    let ghost sa = av@;
    let ghost sb = bv@;
    let mut prev: Vec<usize> = Vec::new();
    let mut j: usize = 0;
    while j <= n
        invariant
            n == sb.len(),
            n < usize::MAX,
            j <= n + 1,
            prev@.len() == j,
            forall|k: int| 0 <= k < j ==> prev@[k] == lev(Seq::<char>::empty(), sb.take(k)),
        decreases n + 1 - j,
    {
        prev.push(j);
        j += 1;
    }
    let mut i: usize = 0;
    while i < av.len()
        invariant
            sa == av@,
            sb == bv@,
            sa.len() < usize::MAX,
            n == sb.len(),
            n < usize::MAX,
            i <= sa.len(),
            prev@.len() == n + 1,
            forall|k: int| 0 <= k <= n ==> prev@[k] == lev(sa.take(i as int), sb.take(k)),
        decreases sa.len() - i,
    {
        let mut cur: Vec<usize> = Vec::new();
        cur.push(i + 1);
        proof {
            assert(sa.take(i + 1).len() > 0);
        }
        let mut j: usize = 0;
        while j < n
            invariant
                sa == av@,
                sb == bv@,
                sa.len() < usize::MAX,
                n == sb.len(),
                n < usize::MAX,
                i < sa.len(),
                j <= n,
                prev@.len() == n + 1,
                forall|k: int| 0 <= k <= n ==> prev@[k] == lev(sa.take(i as int), sb.take(k)),
                cur@.len() == j + 1,
                forall|k: int| 0 <= k <= j ==> cur@[k] == lev(sa.take(i + 1), sb.take(k)),
            decreases n - j,
        {
            let ghost x = sa.take(i + 1);
            let ghost y = sb.take(j + 1);
            proof {
                assert(x.drop_last() =~= sa.take(i as int));
                assert(y.drop_last() =~= sb.take(j as int));
                lemma_lev_bound(sa.take(i as int), sb.take(j + 1));
                lemma_lev_bound(x, sb.take(j as int));
                lemma_lev_bound(sa.take(i as int), sb.take(j as int));
            }
            let cost: usize = if av[i] == bv[j] { 0 } else { 1 };
            let up = prev[j + 1] + 1;
            let left = cur[j] + 1;
            let diag = prev[j] + cost;
            let best = if up <= left && up <= diag {
                up
            } else if left <= diag {
                left
            } else {
                diag
            };
            cur.push(best);
            j += 1;
        }
        prev = cur;
        i += 1;
    }
    proof {
        assert(sa.take(sa.len() as int) =~= sa);
        assert(sb.take(n as int) =~= sb);
    }
    prev[n]
}

/// The closest-distance threshold for a name: a third of its length, at least 1.
pub open spec fn hint_threshold(group: Seq<char>) -> nat {
    if group.len() / 3 >= 1 {
        (group.len() / 3) as nat
    } else {
        1
    }
}

/// Whether group `k` of `model` is the first among those closest to `group`
/// within the threshold.
pub open spec fn is_nearest(group: Seq<char>, model: DocModel, k: int) -> bool {
    &&& 0 <= k < model.groups@.len()
    &&& lev(group, model.groups@[k].path@) <= hint_threshold(group)
    &&& forall|m: int|
        0 <= m < model.groups@.len() ==> lev(group, model.groups@[k].path@) <= lev(
            group,
            model.groups@[m].path@,
        )
    &&& forall|m: int|
        0 <= m < k ==> lev(group, model.groups@[k].path@) < lev(group, model.groups@[m].path@)
}

/// The closest group path to `group` by edit distance, when one lies within a
/// third of `group`'s length (at least 1); the first such group on a tie.
pub fn nearest_group<'a>(group: &str, model: &'a DocModel) -> (r: Option<&'a str>)
    requires
        group@.len() < usize::MAX,
        forall|k: int| 0 <= k < model.groups@.len() ==> model.groups@[k].path@.len() < usize::MAX,
    ensures
        r.is_none() <==> forall|k: int|
            0 <= k < model.groups@.len() ==> lev(group@, model.groups@[k].path@) > hint_threshold(
                group@,
            ),
        r.is_some() ==> exists|k: int| is_nearest(group@, *model, k) && r.unwrap()@ == model.groups@[k].path@,
{
    let count = chars_of(group).len();
    let threshold: usize = if count / 3 >= 1 { count / 3 } else { 1 };
    let mut best: Option<(usize, usize)> = None;
    let mut k: usize = 0;
    while k < model.groups.len()
        invariant
            threshold == hint_threshold(group@),
            group@.len() < usize::MAX,
            forall|q: int| 0 <= q < model.groups@.len() ==> model.groups@[q].path@.len() < usize::MAX,
            k <= model.groups@.len(),
            best.is_none() ==> forall|m: int|
                0 <= m < k ==> lev(group@, model.groups@[m].path@) > threshold,
            best.is_some() ==> {
                let (d, at) = best.unwrap();
                &&& at < k
                &&& d == lev(group@, model.groups@[at as int].path@)
                &&& d <= threshold
                &&& forall|m: int| 0 <= m < k ==> lev(group@, model.groups@[m].path@) > threshold || d <= lev(group@, model.groups@[m].path@)
                &&& forall|m: int| 0 <= m < at ==> d < lev(group@, model.groups@[m].path@)
            },
        decreases model.groups@.len() - k,
    {
        let d = edit_distance(group, model.groups[k].path.as_str());
        if d <= threshold {
            match best {
                None => {
                    best = Some((d, k));
                },
                Some((bd, _)) => {
                    if d < bd {
                        best = Some((d, k));
                    }
                },
            }
        }
        k += 1;
    }
    match best {
        None => None,
        Some((_, at)) => {
            assert(is_nearest(group@, *model, at as int));
            Some(model.groups[at].path.as_str())
        },
    }
}

/// The distance from a text to the empty text is its length, and back.
pub proof fn lemma_lev_empty(a: Seq<char>)
    ensures
        lev(a, Seq::empty()) == a.len(),
        lev(Seq::empty(), a) == a.len(),
{
}

/// A text is at distance zero from itself.
pub proof fn lemma_lev_self(a: Seq<char>)
    ensures
        lev(a, a) == 0,
    decreases a.len(),
{
    if a.len() > 0 {
        lemma_lev_self(a.drop_last());
    }
}

/// The distance is symmetric.
pub proof fn lemma_lev_symmetric(a: Seq<char>, b: Seq<char>)
    ensures
        lev(a, b) == lev(b, a),
    decreases a.len() + b.len(),
{
    if a.len() > 0 && b.len() > 0 {
        lemma_lev_symmetric(a.drop_last(), b);
        lemma_lev_symmetric(a, b.drop_last());
        lemma_lev_symmetric(a.drop_last(), b.drop_last());
    }
}

} // verus!
