//! Whether a model is within what the renderers can count and walk: every
//! count of the landing page and every subtree total fits in a `usize`, every
//! group path is shorter than `usize::MAX` characters, and the group tree is
//! finite from its roots.
use crate::facets::{
    children_total, count_can_messages, count_can_signals, count_channels, count_constants, count_functions,
    count_objects, count_parameters, count_tables, direct_count, find_last_group, forest_root, kind_count,
    lemma_children_total_prefix, lemma_last_group_index, lemma_seq_sum_bounded, lemma_seq_sum_prefix,
    lemma_seq_sum_step, seq_sum, signal_count, stats_fit, subtree_total, tree_fits,
};
use crate::html::chrome::{nav_children, nav_fits, nav_node, nav_roots};
use crate::markdown::pages::summary_fits;
use crate::model::{CanMessageDoc, DocModel, GroupDoc, SymbolDoc, SymbolDocKind};
use crate::text::chars_of;
use vstd::prelude::*;

verus! {

/// The count of kind `which` in one group: channels, parameters, constants,
/// functions, tables, objects, CAN messages, CAN signals.
pub open spec fn group_count(g: GroupDoc, which: nat) -> nat {
    if which == 0 {
        kind_count(g.symbols@, SymbolDocKind::Channel)
    } else if which == 1 {
        kind_count(g.symbols@, SymbolDocKind::Parameter)
    } else if which == 2 {
        kind_count(g.symbols@, SymbolDocKind::Constant)
    } else if which == 3 {
        g.functions@.len()
    } else if which == 4 {
        g.tables@.len()
    } else if which == 5 {
        g.objects@.len()
    } else if which == 6 {
        g.can_messages@.len()
    } else {
        signal_count(g.can_messages@)
    }
}

/// The count of kind `which` over all groups.
pub open spec fn total_count(gs: Seq<GroupDoc>, which: nat) -> nat {
    seq_sum(gs, |g: GroupDoc| group_count(g, which))
}

proof fn lemma_total_counts(gs: Seq<GroupDoc>)
    ensures
        total_count(gs, 0) == count_channels(gs),
        total_count(gs, 1) == count_parameters(gs),
        total_count(gs, 2) == count_constants(gs),
        total_count(gs, 3) == count_functions(gs),
        total_count(gs, 4) == count_tables(gs),
        total_count(gs, 5) == count_objects(gs),
        total_count(gs, 6) == count_can_messages(gs),
        total_count(gs, 7) == count_can_signals(gs),
{
    assert((|g: GroupDoc| group_count(g, 0)) =~= (|g: GroupDoc| kind_count(g.symbols@, SymbolDocKind::Channel)));
    assert((|g: GroupDoc| group_count(g, 1)) =~= (|g: GroupDoc| kind_count(g.symbols@, SymbolDocKind::Parameter)));
    assert((|g: GroupDoc| group_count(g, 2)) =~= (|g: GroupDoc| kind_count(g.symbols@, SymbolDocKind::Constant)));
    assert((|g: GroupDoc| group_count(g, 3)) =~= (|g: GroupDoc| g.functions@.len()));
    assert((|g: GroupDoc| group_count(g, 4)) =~= (|g: GroupDoc| g.tables@.len()));
    assert((|g: GroupDoc| group_count(g, 5)) =~= (|g: GroupDoc| g.objects@.len()));
    assert((|g: GroupDoc| group_count(g, 6)) =~= (|g: GroupDoc| g.can_messages@.len()));
    assert((|g: GroupDoc| group_count(g, 7)) =~= (|g: GroupDoc| signal_count(g.can_messages@)));
}

/// The counts of the first `n` kinds over all groups, added up.
pub open spec fn sum_counts(gs: Seq<GroupDoc>, n: nat) -> nat
    decreases n,
{
    if n == 0 {
        0
    } else {
        sum_counts(gs, (n - 1) as nat) + total_count(gs, (n - 1) as nat)
    }
}

fn kind_total(syms: &Vec<SymbolDoc>, k: SymbolDocKind) -> (n: usize)
    ensures
        n == kind_count(syms@, k),
{
    let ghost f = |s: SymbolDoc| if s.kind == k { 1nat } else { 0nat };
    let mut n: usize = 0;
    let mut i: usize = 0;
    while i < syms.len()
        invariant
            i <= syms.len(),
            n == seq_sum(syms@.take(i as int), f),
            f == (|s: SymbolDoc| if s.kind == k { 1nat } else { 0nat }),
        decreases syms.len() - i,
    {
        proof {
            lemma_seq_sum_step(syms@, f, i as int);
            lemma_seq_sum_bounded(syms@.take(i + 1), f);
        }
        if syms[i].kind.same(k) {
            n += 1;
        }
        i += 1;
    }
    assert(syms@.take(syms@.len() as int) =~= syms@);
    n
}

/// The count of kind `which` in one group, or `None` when it exceeds
/// `usize::MAX`.
fn group_count_checked(g: &GroupDoc, which: u8) -> (r: Option<usize>)
    ensures
        match r {
            Some(n) => n == group_count(*g, which as nat),
            None => group_count(*g, which as nat) > usize::MAX,
        },
{
    if which == 0 {
        Some(kind_total(&g.symbols, SymbolDocKind::Channel))
    } else if which == 1 {
        Some(kind_total(&g.symbols, SymbolDocKind::Parameter))
    } else if which == 2 {
        Some(kind_total(&g.symbols, SymbolDocKind::Constant))
    } else if which == 3 {
        Some(g.functions.len())
    } else if which == 4 {
        Some(g.tables.len())
    } else if which == 5 {
        Some(g.objects.len())
    } else if which == 6 {
        Some(g.can_messages.len())
    } else {
        let ghost f = |m: CanMessageDoc| m.signals@.len();
        let ghost ms = g.can_messages@;
        assert(f =~= (|m: CanMessageDoc| m.signals@.len()));
        assert(group_count(*g, which as nat) == seq_sum(ms, f));
        let mut sum: u128 = 0;
        let mut i: usize = 0;
        while i < g.can_messages.len()
            invariant
                ms == g.can_messages@,
                which >= 7,
                group_count(*g, which as nat) == seq_sum(ms, f),
                i <= ms.len(),
                sum == seq_sum(ms.take(i as int), f),
                sum <= usize::MAX,
                f == (|m: CanMessageDoc| m.signals@.len()),
            decreases ms.len() - i,
        {
            proof {
                lemma_seq_sum_step(ms, f, i as int);
                lemma_seq_sum_prefix(ms, f, i + 1);
            }
            sum = sum + g.can_messages[i].signals.len() as u128;
            if sum > usize::MAX as u128 {
                return None;
            }
            i += 1;
        }
        assert(ms.take(ms.len() as int) =~= ms);
        Some(sum as usize)
    }
}

/// The count of kind `which` over all groups, or `None` when it exceeds
/// `usize::MAX`.
fn total_count_checked(gs: &Vec<GroupDoc>, which: u8) -> (r: Option<usize>)
    ensures
        match r {
            Some(n) => n == total_count(gs@, which as nat),
            None => total_count(gs@, which as nat) > usize::MAX,
        },
{
    let ghost f = |g: GroupDoc| group_count(g, which as nat);
    let mut sum: u128 = 0;
    let mut i: usize = 0;
    while i < gs.len()
        invariant
            i <= gs@.len(),
            sum == seq_sum(gs@.take(i as int), f),
            sum <= usize::MAX,
            f == (|g: GroupDoc| group_count(g, which as nat)),
        decreases gs@.len() - i,
    {
        proof {
            lemma_seq_sum_step(gs@, f, i as int);
            lemma_seq_sum_prefix(gs@, f, i + 1);
        }
        match group_count_checked(&gs[i], which) {
            Some(n) => {
                sum = sum + n as u128;
                if sum > usize::MAX as u128 {
                    return None;
                }
            },
            None => {
                return None;
            },
        }
        i += 1;
    }
    assert(gs@.take(gs@.len() as int) =~= gs@);
    Some(sum as usize)
}

/// Every statistic of the landing page fits in a `usize`, and so does their
/// total; every group path is shorter than `usize::MAX` characters.
pub fn summary_fits_check(model: &DocModel) -> (b: bool)
    ensures
        b == summary_fits(*model),
{
    let gs = &model.groups;
    proof {
        lemma_total_counts(gs@);
    }
    let mut i: usize = 0;
    while i < gs.len()
        invariant
            gs@ == model.groups@,
            i <= gs@.len(),
            forall|k: int| 0 <= k < i ==> (#[trigger] gs@[k]).path@.len() < usize::MAX,
        decreases gs@.len() - i,
    {
        let n = chars_of(gs[i].path.as_str()).len();
        if n == usize::MAX {
            assert(gs@[i as int].path@.len() == usize::MAX);
            return false;
        }
        i += 1;
    }
    let mut total: u128 = 0;
    let mut which: u8 = 0;
    while which < 8
        invariant
            gs@ == model.groups@,
            which <= 8,
            forall|k: int| 0 <= k < gs@.len() ==> (#[trigger] gs@[k]).path@.len() < usize::MAX,
            forall|w: nat| w < which ==> #[trigger] total_count(gs@, w) <= usize::MAX,
            total == sum_counts(gs@, which as nat),
            total <= which as u128 * 0x1_0000_0000_0000_0000u128,
        decreases 8 - which,
    {
        match total_count_checked(gs, which) {
            Some(n) => {
                total = total + n as u128;
            },
            None => {
                proof {
                    lemma_total_counts(gs@);
                    if which == 0 {
                        assert(count_channels(gs@) > usize::MAX);
                    } else if which == 1 {
                        assert(count_parameters(gs@) > usize::MAX);
                    } else if which == 2 {
                        assert(count_constants(gs@) > usize::MAX);
                    } else if which == 3 {
                        assert(count_functions(gs@) > usize::MAX);
                    } else if which == 4 {
                        assert(count_tables(gs@) > usize::MAX);
                    } else if which == 5 {
                        assert(count_objects(gs@) > usize::MAX);
                    } else if which == 6 {
                        assert(count_can_messages(gs@) > usize::MAX);
                    } else {
                        assert(count_can_signals(gs@) > usize::MAX);
                    }
                }
                return false;
            },
        }
        which += 1;
    }
    proof {
        lemma_total_counts(gs@);
        reveal_with_fuel(sum_counts, 9);
        assert(total_count(gs@, 0) <= usize::MAX);
        assert(total_count(gs@, 1) <= usize::MAX);
        assert(total_count(gs@, 2) <= usize::MAX);
        assert(total_count(gs@, 3) <= usize::MAX);
        assert(total_count(gs@, 4) <= usize::MAX);
        assert(total_count(gs@, 5) <= usize::MAX);
        assert(total_count(gs@, 6) <= usize::MAX);
        assert(total_count(gs@, 7) <= usize::MAX);
        assert(stats_fit(*model));
    }
    total <= usize::MAX as u128
}

/// The subtree total of `groups[gi]` with `fuel` levels of descent, or `None`
/// when it exceeds `usize::MAX`.
fn subtree_checked(groups: &Vec<GroupDoc>, gi: usize, fuel: usize) -> (r: Option<usize>)
    requires
        gi < groups@.len(),
    ensures
        match r {
            Some(n) => n == subtree_total(groups@, groups@[gi as int], fuel as nat),
            None => subtree_total(groups@, groups@[gi as int], fuel as nat) > usize::MAX,
        },
    decreases fuel,
{
    let g = &groups[gi];
    let direct: u128 = g.symbols.len() as u128 + g.functions.len() as u128 + g.tables.len() as u128
        + g.objects.len() as u128 + g.can_messages.len() as u128;
    assert(direct == direct_count(*g));
    if direct > usize::MAX as u128 {
        return None;
    }
    if fuel == 0 {
        return Some(direct as usize);
    }
    let ghost gs = groups@;
    let ghost cs = g.children@;
    let ghost f = (fuel - 1) as nat;
    let mut total: u128 = direct;
    let mut ci: usize = 0;
    while ci < g.children.len()
        invariant
            gs == groups@,
            gi < gs.len(),
            *g == gs[gi as int],
            cs == g.children@,
            fuel > 0,
            f == fuel - 1,
            ci <= cs.len(),
            total == direct_count(*g) + children_total(gs, cs.take(ci as int), f),
            total <= usize::MAX,
            subtree_total(gs, *g, fuel as nat) == direct_count(*g) + children_total(gs, cs, f),
        decreases cs.len() - ci,
    {
        proof {
            assert(cs.take(ci + 1).drop_last() =~= cs.take(ci as int));
            assert(cs.take(ci + 1).last() == cs[ci as int]);
            lemma_children_total_prefix(gs, cs, f, ci + 1);
            lemma_last_group_index(gs, cs[ci as int]@);
        }
        match find_last_group(groups, g.children[ci].as_str()) {
            Some(k) => {
                match subtree_checked(groups, k, fuel - 1) {
                    Some(sub) => {
                        total = total + sub as u128;
                        if total > usize::MAX as u128 {
                            return None;
                        }
                    },
                    None => {
                        return None;
                    },
                }
            },
            None => {},
        }
        ci += 1;
    }
    assert(cs.take(cs.len() as int) =~= cs);
    Some(total as usize)
}

/// Every group's subtree total fits in a `usize`.
pub fn tree_fits_check(groups: &Vec<GroupDoc>) -> (b: bool)
    ensures
        b == tree_fits(groups@),
{
    let mut k: usize = 0;
    while k < groups.len()
        invariant
            k <= groups@.len(),
            forall|m: int| 0 <= m < k ==> subtree_total(groups@, #[trigger] groups@[m], groups@.len()) <= usize::MAX,
        decreases groups@.len() - k,
    {
        match subtree_checked(groups, k, groups.len()) {
            Some(_) => {},
            None => {
                return false;
            },
        }
        k += 1;
    }
    true
}

/// Whether the navigation entry of `groups[gi]` can be built within `fuel`
/// levels.
fn nav_node_check(groups: &Vec<GroupDoc>, gi: usize, fuel: usize) -> (r: bool)
    requires
        gi < groups@.len(),
    ensures
        r == nav_node(groups@, groups@[gi as int], fuel as nat) is Some,
    decreases fuel,
{
    if fuel == 0 {
        return false;
    }
    let g = &groups[gi];
    if g.children.len() == 0 {
        return true;
    }
    let ghost gs = groups@;
    let ghost cs = g.children@;
    let ghost f = (fuel - 1) as nat;
    let mut ok = true;
    let mut ci: usize = 0;
    assert(cs.take(0) =~= Seq::<String>::empty());
    while ci < g.children.len()
        invariant
            gs == groups@,
            gi < gs.len(),
            *g == gs[gi as int],
            cs == g.children@,
            fuel > 0,
            f == fuel - 1,
            ci <= cs.len(),
            ok == nav_children(gs, cs.take(ci as int), f) is Some,
        decreases cs.len() - ci,
    {
        proof {
            assert(cs.take(ci + 1).drop_last() =~= cs.take(ci as int));
            assert(cs.take(ci + 1).last() == cs[ci as int]);
            lemma_last_group_index(gs, cs[ci as int]@);
        }
        if ok {
            match find_last_group(groups, g.children[ci].as_str()) {
                Some(k) => {
                    ok = nav_node_check(groups, k, fuel - 1);
                },
                None => {},
            }
        }
        ci += 1;
    }
    assert(cs.take(cs.len() as int) =~= cs);
    ok
}

/// Whether the navigation tree can be built from every forest root.
pub fn nav_fits_check(groups: &Vec<GroupDoc>) -> (b: bool)
    ensures
        b == nav_fits(groups@),
{
    let ghost gs = groups@;
    let mut ok = true;
    let mut i: usize = 0;
    assert(gs.take(0) =~= Seq::<GroupDoc>::empty());
    while i < groups.len()
        invariant
            gs == groups@,
            i <= gs.len(),
            ok == nav_roots(gs, gs.take(i as int)) is Some,
        decreases gs.len() - i,
    {
        proof {
            assert(gs.take(i + 1).drop_last() =~= gs.take(i as int));
            assert(gs.take(i + 1).last() == gs[i as int]);
        }
        if ok && forest_root(groups, groups[i].path.as_str()) {
            ok = nav_node_check(groups, i, groups.len());
        }
        i += 1;
    }
    assert(gs.take(gs.len() as int) =~= gs);
    ok
}

/// Whether the model is within what the Markdown and HTML renderers can count
/// and walk: their preconditions, checked.
pub fn render_inputs_fit(model: &DocModel) -> (b: bool)
    ensures
        b == (summary_fits(*model) && tree_fits(model.groups@) && nav_fits(model.groups@)),
{
    summary_fits_check(model) && tree_fits_check(&model.groups) && nav_fits_check(&model.groups)
}

} // verus!
