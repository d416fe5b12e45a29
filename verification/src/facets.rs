//! Whole-model views of a [`DocModel`]: the security levels and tags the project
//! uses, the landing-page statistics and tree, and the scoped (filtered) model.

use crate::model::{CanMessageDoc, DocModel, GroupDoc, ProjectStats, SymbolDoc, SymbolDocKind, TreeNode};
use crate::path::{parent_group, parent_of, segment_count, count_segments};
use crate::text::str_eq;
use crate::strset::{insert_sorted, is_sorted_set_of, strictly_sorted, views};
use vstd::prelude::*;

verus! {

/// Every symbol of the groups, group by group, in member order.
pub open spec fn all_symbols(gs: Seq<GroupDoc>) -> Seq<SymbolDoc>
    decreases gs.len(),
{
    if gs.len() == 0 {
        Seq::empty()
    } else {
        all_symbols(gs.drop_last()) + gs.last().symbols@
    }
}

/// Some symbol declares security level `x`.
pub open spec fn uses_security(syms: Seq<SymbolDoc>, x: Seq<char>) -> bool {
    exists|k: int| 0 <= k < syms.len() && (#[trigger] syms[k]).security is Some
        && syms[k].security->0@ == x
}

/// Some symbol carries tag `x`.
pub open spec fn uses_tag(syms: Seq<SymbolDoc>, x: Seq<char>) -> bool {
    exists|k: int, t: int| 0 <= k < syms.len() && 0 <= t < syms[k].tags.len()
        && (#[trigger] syms[k].tags@[t])@ == x
}

pub proof fn lemma_all_symbols_step(gs: Seq<GroupDoc>, i: int)
    requires
        0 <= i < gs.len(),
    ensures
        all_symbols(gs.take(i + 1)) == all_symbols(gs.take(i)) + gs[i].symbols@,
{
    assert(gs.take(i + 1).drop_last() =~= gs.take(i));
}

/// The sum of `f` over the items of `s`.
pub open spec fn seq_sum<A>(s: Seq<A>, f: spec_fn(A) -> nat) -> nat
    decreases s.len(),
{
    if s.len() == 0 {
        0
    } else {
        seq_sum(s.drop_last(), f) + f(s.last())
    }
}

pub proof fn lemma_seq_sum_step<A>(s: Seq<A>, f: spec_fn(A) -> nat, i: int)
    requires
        0 <= i < s.len(),
    ensures
        seq_sum(s.take(i + 1), f) == seq_sum(s.take(i), f) + f(s[i]),
{
    assert(s.take(i + 1).drop_last() =~= s.take(i));
}

pub proof fn lemma_seq_sum_prefix<A>(s: Seq<A>, f: spec_fn(A) -> nat, i: int)
    requires
        0 <= i <= s.len(),
    ensures
        seq_sum(s.take(i), f) <= seq_sum(s, f),
    decreases s.len() - i,
{
    if i < s.len() {
        lemma_seq_sum_step(s, f, i);
        lemma_seq_sum_prefix(s, f, i + 1);
    } else {
        assert(s.take(i) =~= s);
    }
}

pub proof fn lemma_seq_sum_bounded<A>(s: Seq<A>, f: spec_fn(A) -> nat)
    requires
        forall|a: A| #[trigger] f(a) <= 1,
    ensures
        seq_sum(s, f) <= s.len(),
    decreases s.len(),
{
    if s.len() > 0 {
        lemma_seq_sum_bounded(s.drop_last(), f);
    }
}

/// How many of `syms` are of kind `k`.
pub open spec fn kind_count(syms: Seq<SymbolDoc>, k: SymbolDocKind) -> nat {
    seq_sum(syms, |s: SymbolDoc| if s.kind == k { 1nat } else { 0nat })
}

/// How many signals the messages carry.
pub open spec fn signal_count(msgs: Seq<CanMessageDoc>) -> nat {
    seq_sum(msgs, |m: CanMessageDoc| m.signals@.len())
}

/// Some group has path `p`.
pub open spec fn group_exists(gs: Seq<GroupDoc>, p: Seq<char>) -> bool {
    exists|k: int| 0 <= k < gs.len() && (#[trigger] gs[k]).path@ == p
}

/// A forest root: a group whose parent is not itself a documented group.
pub open spec fn is_forest_root(gs: Seq<GroupDoc>, p: Seq<char>) -> bool {
    parent_of(p).len() == 0 || !group_exists(gs, parent_of(p))
}

/// The deepest group path measured in dot-segments; zero with no groups.
pub open spec fn max_depth(gs: Seq<GroupDoc>) -> nat
    decreases gs.len(),
{
    if gs.len() == 0 {
        0
    } else {
        let d = segment_count(gs.last().path@);
        let m = max_depth(gs.drop_last());
        if d > m {
            d
        } else {
            m
        }
    }
}

pub open spec fn count_channels(gs: Seq<GroupDoc>) -> nat {
    seq_sum(gs, |g: GroupDoc| kind_count(g.symbols@, SymbolDocKind::Channel))
}

pub open spec fn count_parameters(gs: Seq<GroupDoc>) -> nat {
    seq_sum(gs, |g: GroupDoc| kind_count(g.symbols@, SymbolDocKind::Parameter))
}

pub open spec fn count_constants(gs: Seq<GroupDoc>) -> nat {
    seq_sum(gs, |g: GroupDoc| kind_count(g.symbols@, SymbolDocKind::Constant))
}

pub open spec fn count_functions(gs: Seq<GroupDoc>) -> nat {
    seq_sum(gs, |g: GroupDoc| g.functions@.len())
}

pub open spec fn count_tables(gs: Seq<GroupDoc>) -> nat {
    seq_sum(gs, |g: GroupDoc| g.tables@.len())
}

pub open spec fn count_objects(gs: Seq<GroupDoc>) -> nat {
    seq_sum(gs, |g: GroupDoc| g.objects@.len())
}

pub open spec fn count_can_messages(gs: Seq<GroupDoc>) -> nat {
    seq_sum(gs, |g: GroupDoc| g.can_messages@.len())
}

pub open spec fn count_can_signals(gs: Seq<GroupDoc>) -> nat {
    seq_sum(gs, |g: GroupDoc| signal_count(g.can_messages@))
}

pub open spec fn count_forest_roots(gs: Seq<GroupDoc>) -> nat {
    seq_sum(gs, |g: GroupDoc| if is_forest_root(gs, g.path@) { 1nat } else { 0nat })
}

/// Every count the statistics hold fits in a `usize`, and every group path is
/// shorter than `usize::MAX` characters (machine limits).
pub open spec fn stats_fit(m: DocModel) -> bool {
    let gs = m.groups@;
    &&& count_channels(gs) <= usize::MAX
    &&& count_parameters(gs) <= usize::MAX
    &&& count_constants(gs) <= usize::MAX
    &&& count_functions(gs) <= usize::MAX
    &&& count_tables(gs) <= usize::MAX
    &&& count_objects(gs) <= usize::MAX
    &&& count_can_messages(gs) <= usize::MAX
    &&& count_can_signals(gs) <= usize::MAX
    &&& forall|k: int| 0 <= k < gs.len() ==> (#[trigger] gs[k]).path@.len() < usize::MAX
}

/// The statistics of a model, every figure computed from its groups and enums.
pub open spec fn spec_stats(m: DocModel) -> ProjectStats {
    let gs = m.groups@;
    ProjectStats {
        channels: count_channels(gs) as usize,
        parameters: count_parameters(gs) as usize,
        constants: count_constants(gs) as usize,
        functions: count_functions(gs) as usize,
        tables: count_tables(gs) as usize,
        objects: count_objects(gs) as usize,
        can_messages: count_can_messages(gs) as usize,
        can_signals: count_can_signals(gs) as usize,
        enums: m.enums@.len() as usize,
        groups: gs.len() as usize,
        top_level_groups: count_forest_roots(gs) as usize,
        max_depth: max_depth(gs) as usize,
    }
}

/// Whether some group has the path `p`.
pub fn has_group(groups: &Vec<GroupDoc>, p: &str) -> (r: bool)
    ensures
        r == group_exists(groups@, p@),
{
    let mut i: usize = 0;
    while i < groups.len()
        invariant
            i <= groups.len(),
            forall|k: int| 0 <= k < i ==> groups@[k].path@ != p@,
        decreases groups.len() - i,
    {
        if str_eq(groups[i].path.as_str(), p) {
            assert(groups@[i as int].path@ == p@);
            return true;
        }
        i += 1;
    }
    false
}

/// Whether the group path `p` is a forest root of `groups`.
pub fn forest_root(groups: &Vec<GroupDoc>, p: &str) -> (r: bool)
    ensures
        r == is_forest_root(groups@, p@),
{
    let parent = parent_group(p);
    parent.as_str().is_empty() || !has_group(groups, parent.as_str())
}

/// How many of `syms` are of kind `k`.
fn count_kind(syms: &Vec<SymbolDoc>, k: SymbolDocKind) -> (n: usize)
    ensures
        n == kind_count(syms@, k),
{
    let ghost f = |s: SymbolDoc| if s.kind == k { 1nat } else { 0nat };
    let mut n: usize = 0;
    let mut i: usize = 0;
    while i < syms.len()
        invariant
            i <= syms.len(),
            n == seq_sum(syms@.take(i as int), f),
            f == (|s: SymbolDoc| if s.kind == k { 1nat } else { 0nat }),
        decreases syms.len() - i,
    {
        proof {
            lemma_seq_sum_step(syms@, f, i as int);
            lemma_seq_sum_bounded(syms@.take(i + 1), f);
        }
        if syms[i].kind.same(k) {
            n += 1;
        }
        i += 1;
    }
    assert(syms@.take(syms@.len() as int) =~= syms@);
    n
}

impl DocModel {
    /// Compute the project stats from the model: every documented component,
    /// the group structure, and the enum reference.
    pub fn stats(&self) -> (s: ProjectStats)
        requires
            stats_fit(*self),
        ensures
            s == spec_stats(*self),
    {
        let ghost gs = self.groups@;
        let ghost fc = |g: GroupDoc| kind_count(g.symbols@, SymbolDocKind::Channel);
        let ghost fp = |g: GroupDoc| kind_count(g.symbols@, SymbolDocKind::Parameter);
        let ghost fk = |g: GroupDoc| kind_count(g.symbols@, SymbolDocKind::Constant);
        let ghost ff = |g: GroupDoc| g.functions@.len();
        let ghost ft = |g: GroupDoc| g.tables@.len();
        let ghost fo = |g: GroupDoc| g.objects@.len();
        let ghost fm = |g: GroupDoc| g.can_messages@.len();
        let ghost fs = |g: GroupDoc| signal_count(g.can_messages@);
        let ghost fr = |g: GroupDoc| if is_forest_root(gs, g.path@) { 1nat } else { 0nat };
        let mut s = ProjectStats {
            channels: 0,
            parameters: 0,
            constants: 0,
            functions: 0,
            tables: 0,
            objects: 0,
            can_messages: 0,
            can_signals: 0,
            enums: self.enums.len(),
            groups: self.groups.len(),
            top_level_groups: 0,
            max_depth: 0,
        };
        let mut gi: usize = 0;
        while gi < self.groups.len()
            invariant
                gs == self.groups@,
                stats_fit(*self),
                gi <= gs.len(),
                fc == (|g: GroupDoc| kind_count(g.symbols@, SymbolDocKind::Channel)),
                fp == (|g: GroupDoc| kind_count(g.symbols@, SymbolDocKind::Parameter)),
                fk == (|g: GroupDoc| kind_count(g.symbols@, SymbolDocKind::Constant)),
                ff == (|g: GroupDoc| g.functions@.len()),
                ft == (|g: GroupDoc| g.tables@.len()),
                fo == (|g: GroupDoc| g.objects@.len()),
                fm == (|g: GroupDoc| g.can_messages@.len()),
                fs == (|g: GroupDoc| signal_count(g.can_messages@)),
                fr == (|g: GroupDoc| if is_forest_root(gs, g.path@) { 1nat } else { 0nat }),
                s.channels == seq_sum(gs.take(gi as int), fc),
                s.parameters == seq_sum(gs.take(gi as int), fp),
                s.constants == seq_sum(gs.take(gi as int), fk),
                s.functions == seq_sum(gs.take(gi as int), ff),
                s.tables == seq_sum(gs.take(gi as int), ft),
                s.objects == seq_sum(gs.take(gi as int), fo),
                s.can_messages == seq_sum(gs.take(gi as int), fm),
                s.can_signals == seq_sum(gs.take(gi as int), fs),
                s.top_level_groups == seq_sum(gs.take(gi as int), fr),
                s.top_level_groups <= gi,
                s.max_depth == max_depth(gs.take(gi as int)),
                s.enums == self.enums@.len(),
                s.groups == gs.len(),
            decreases gs.len() - gi,
        {
            let g = &self.groups[gi];
            proof {
                lemma_seq_sum_step(gs, fc, gi as int);
                lemma_seq_sum_step(gs, fp, gi as int);
                lemma_seq_sum_step(gs, fk, gi as int);
                lemma_seq_sum_step(gs, ff, gi as int);
                lemma_seq_sum_step(gs, ft, gi as int);
                lemma_seq_sum_step(gs, fo, gi as int);
                lemma_seq_sum_step(gs, fm, gi as int);
                lemma_seq_sum_step(gs, fs, gi as int);
                lemma_seq_sum_step(gs, fr, gi as int);
                lemma_seq_sum_prefix(gs, fc, gi + 1);
                lemma_seq_sum_prefix(gs, fp, gi + 1);
                lemma_seq_sum_prefix(gs, fk, gi + 1);
                lemma_seq_sum_prefix(gs, ff, gi + 1);
                lemma_seq_sum_prefix(gs, ft, gi + 1);
                lemma_seq_sum_prefix(gs, fo, gi + 1);
                lemma_seq_sum_prefix(gs, fm, gi + 1);
                lemma_seq_sum_prefix(gs, fs, gi + 1);
                assert(gs.take(gi + 1).drop_last() =~= gs.take(gi as int));
            }
            s.channels = s.channels + count_kind(&g.symbols, SymbolDocKind::Channel);
            s.parameters = s.parameters + count_kind(&g.symbols, SymbolDocKind::Parameter);
            s.constants = s.constants + count_kind(&g.symbols, SymbolDocKind::Constant);
            s.functions = s.functions + g.functions.len();
            s.tables = s.tables + g.tables.len();
            s.objects = s.objects + g.objects.len();
            s.can_messages = s.can_messages + g.can_messages.len();
            // Signals of every message of this group.
            let ghost fsig = |m: CanMessageDoc| m.signals@.len();
            let mut sig: usize = s.can_signals;
            let mut mi: usize = 0;
            while mi < g.can_messages.len()
                invariant
                    g == gs[gi as int],
                    mi <= g.can_messages.len(),
                    fsig == (|m: CanMessageDoc| m.signals@.len()),
                    sig == seq_sum(gs.take(gi as int), fs) + seq_sum(g.can_messages@.take(mi as int), fsig),
                    seq_sum(gs.take(gi as int), fs) + signal_count(g.can_messages@) <= usize::MAX,
                decreases g.can_messages.len() - mi,
            {
                proof {
                    lemma_seq_sum_step(g.can_messages@, fsig, mi as int);
                    lemma_seq_sum_prefix(g.can_messages@, fsig, mi + 1);
                }
                sig = sig + g.can_messages[mi].signals.len();
                mi += 1;
            }
            assert(g.can_messages@.take(g.can_messages@.len() as int) =~= g.can_messages@);
            s.can_signals = sig;
            let depth = count_segments(g.path.as_str());
            if depth > s.max_depth {
                s.max_depth = depth;
            }
            if forest_root(&self.groups, g.path.as_str()) {
                s.top_level_groups = s.top_level_groups + 1;
            }
            gi += 1;
        }
        assert(gs.take(gs.len() as int) =~= gs);
        s
    }
}

/// Components declared directly on a group: its symbols, functions, tables,
/// objects and CAN messages.
pub open spec fn direct_count(g: GroupDoc) -> nat {
    g.symbols@.len() + g.functions@.len() + g.tables@.len() + g.objects@.len()
        + g.can_messages@.len()
}

/// The last position of a group with path `p`, or `-1` (a path lookup where a
/// later duplicate shadows an earlier one).
pub open spec fn last_group_index(gs: Seq<GroupDoc>, p: Seq<char>) -> int
    decreases gs.len(),
{
    if gs.len() == 0 {
        -1
    } else if gs.last().path@ == p {
        gs.len() - 1
    } else {
        last_group_index(gs.drop_last(), p)
    }
}

pub proof fn lemma_last_group_index(gs: Seq<GroupDoc>, p: Seq<char>)
    ensures
        -1 <= last_group_index(gs, p) < gs.len(),
        last_group_index(gs, p) >= 0 ==> gs[last_group_index(gs, p)].path@ == p,
        last_group_index(gs, p) == -1 <==> !group_exists(gs, p),
    decreases gs.len(),
{
    if gs.len() > 0 && gs.last().path@ != p {
        lemma_last_group_index(gs.drop_last(), p);
        if group_exists(gs, p) {
            let k = choose|k: int| 0 <= k < gs.len() && (#[trigger] gs[k]).path@ == p;
            assert(gs.drop_last()[k].path@ == p);
        }
        if group_exists(gs.drop_last(), p) {
            let k = choose|k: int| 0 <= k < gs.len() - 1 && (#[trigger] gs.drop_last()[k]).path@ == p;
            assert(gs[k].path@ == p);
        }
    } else if gs.len() > 0 {
        assert(gs[gs.len() - 1].path@ == p);
    }
}

/// Components across a group and the subtree reached through its `children`
/// links (each child path naming the last group with that path), descending at
/// most `fuel` levels. With `fuel` at least the number of groups this is the
/// whole subtree of an acyclic tree.
pub open spec fn subtree_total(gs: Seq<GroupDoc>, g: GroupDoc, fuel: nat) -> nat
    decreases fuel, 0int, 0int,
{
    direct_count(g) + if fuel == 0 {
        0
    } else {
        children_total(gs, g.children@, (fuel - 1) as nat)
    }
}

/// The subtree totals of the groups the child paths `cs` name.
pub open spec fn children_total(gs: Seq<GroupDoc>, cs: Seq<String>, fuel: nat) -> nat
    decreases fuel, 1int, cs.len(),
{
    if cs.len() == 0 {
        0
    } else {
        let k = last_group_index(gs, cs.last()@);
        children_total(gs, cs.drop_last(), fuel) + if 0 <= k < gs.len() {
            subtree_total(gs, gs[k], fuel)
        } else {
            0
        }
    }
}

/// Every subtree total a landing tree needs fits in a `usize`.
pub open spec fn tree_fits(gs: Seq<GroupDoc>) -> bool {
    forall|k: int| 0 <= k < gs.len() ==> subtree_total(gs, #[trigger] gs[k], gs.len()) <= usize::MAX
}

/// The forest-root groups, in model order.
pub open spec fn forest_roots(gs: Seq<GroupDoc>) -> Seq<GroupDoc> {
    gs.filter(|g: GroupDoc| is_forest_root(gs, g.path@))
}

/// The landing-tree node of a forest-root group.
pub open spec fn spec_tree_node(gs: Seq<GroupDoc>, g: GroupDoc) -> (String, nat, nat, bool) {
    (g.path, direct_count(g), subtree_total(gs, g, gs.len()), g.children@.len() > 0)
}

/// The position of the last group with path `p`.
pub fn find_last_group(groups: &Vec<GroupDoc>, p: &str) -> (r: Option<usize>)
    ensures
        match r {
            Some(k) => last_group_index(groups@, p@) == k as int,
            None => last_group_index(groups@, p@) == -1,
        },
{
    let mut i = groups.len();
    assert(groups@.take(i as int) =~= groups@);
    while i > 0
        invariant
            i <= groups.len(),
            last_group_index(groups@, p@) == last_group_index(groups@.take(i as int), p@),
        decreases i,
    {
        assert(groups@.take(i as int).drop_last() =~= groups@.take(i - 1));
        if str_eq(groups[i - 1].path.as_str(), p) {
            return Some(i - 1);
        }
        i -= 1;
    }
    None
}

fn direct_count_exec(g: &GroupDoc) -> (n: usize)
    requires
        direct_count(*g) <= usize::MAX,
    ensures
        n == direct_count(*g),
{
    g.symbols.len() + g.functions.len() + g.tables.len() + g.objects.len() + g.can_messages.len()
}

pub proof fn lemma_children_total_prefix(gs: Seq<GroupDoc>, cs: Seq<String>, fuel: nat, i: int)
    requires
        0 <= i <= cs.len(),
    ensures
        children_total(gs, cs.take(i), fuel) <= children_total(gs, cs, fuel),
    decreases cs.len() - i,
{
    if i < cs.len() {
        lemma_children_total_prefix(gs, cs, fuel, i + 1);
        assert(cs.take(i + 1).drop_last() =~= cs.take(i));
    } else {
        assert(cs.take(i) =~= cs);
    }
}

/// The subtree total of `groups[gi]` with `fuel` levels of descent.
fn subtree_count(groups: &Vec<GroupDoc>, gi: usize, fuel: usize) -> (n: usize)
    requires
        gi < groups.len(),
        subtree_total(groups@, groups@[gi as int], fuel as nat) <= usize::MAX,
    ensures
        n == subtree_total(groups@, groups@[gi as int], fuel as nat),
    decreases fuel,
{
    let g = &groups[gi];
    let mut total = direct_count_exec(g);
    if fuel == 0 {
        return total;
    }
    let ghost gs = groups@;
    let ghost cs = g.children@;
    let ghost f = (fuel - 1) as nat;
    let mut ci: usize = 0;
    while ci < g.children.len()
        invariant
            gs == groups@,
            g == gs[gi as int],
            cs == g.children@,
            fuel > 0,
            f == fuel - 1,
            ci <= cs.len(),
            total == direct_count(*g) + children_total(gs, cs.take(ci as int), f),
            direct_count(*g) + children_total(gs, cs, f) <= usize::MAX,
        decreases cs.len() - ci,
    {
        proof {
            assert(cs.take(ci + 1).drop_last() =~= cs.take(ci as int));
            lemma_children_total_prefix(gs, cs, f, ci + 1);
            lemma_last_group_index(gs, cs[ci as int]@);
        }
        match find_last_group(groups, g.children[ci].as_str()) {
            Some(k) => {
                let sub = subtree_count(groups, k, fuel - 1);
                total = total + sub;
            },
            None => {},
        }
        ci += 1;
    }
    assert(cs.take(cs.len() as int) =~= cs);
    total
}

impl DocModel {
    /// The forest-root groups for the landing tree, in model order, each with
    /// its direct and subtree component counts and whether it has children.
    pub fn top_level_tree(&self) -> (r: Vec<TreeNode>)
        requires
            tree_fits(self.groups@),
        ensures
            r@.len() == forest_roots(self.groups@).len(),
            forall|i: int| 0 <= i < r@.len() ==> {
                let g = forest_roots(self.groups@)[i];
                &&& (#[trigger] r@[i]).path@ == g.path@
                &&& r@[i].direct_count == direct_count(g)
                &&& r@[i].subtree_count == subtree_total(self.groups@, g, self.groups@.len())
                &&& r@[i].has_children == (g.children@.len() > 0)
            },
    {
        let ghost gs = self.groups@;
        let ghost pred = |g: GroupDoc| is_forest_root(gs, g.path@);
        let mut out: Vec<TreeNode> = Vec::new();
        let mut gi: usize = 0;
        while gi < self.groups.len()
            invariant
                gs == self.groups@,
                pred == (|g: GroupDoc| is_forest_root(gs, g.path@)),
                tree_fits(gs),
                gi <= gs.len(),
                out@.len() == gs.take(gi as int).filter(pred).len(),
                forall|i: int| 0 <= i < out@.len() ==> {
                    let g = gs.take(gi as int).filter(pred)[i];
                    &&& (#[trigger] out@[i]).path@ == g.path@
                    &&& out@[i].direct_count == direct_count(g)
                    &&& out@[i].subtree_count == subtree_total(gs, g, gs.len())
                    &&& out@[i].has_children == (g.children@.len() > 0)
                },
            decreases gs.len() - gi,
        {
            let g = &self.groups[gi];
            proof {
                assert(gs.take(gi + 1).drop_last() =~= gs.take(gi as int));
                reveal(Seq::filter);
                assert(subtree_total(gs, gs[gi as int], gs.len()) <= usize::MAX);
            }
            if forest_root(&self.groups, g.path.as_str()) {
                let sub = subtree_count(&self.groups, gi, self.groups.len());
                let direct = direct_count_exec(g);
                out.push(TreeNode {
                    path: crate::text::to_owned_string(g.path.as_str()),
                    direct_count: direct,
                    subtree_count: sub,
                    has_children: g.children.len() > 0,
                });
            }
            gi += 1;
        }
        assert(gs.take(gs.len() as int) =~= gs);
        out
    }
}

impl DocModel {
    /// Every distinct security level the project declares, sorted, deduped.
    pub fn security_levels(&self) -> (r: Vec<String>)
        ensures
            is_sorted_set_of(r@, |x: Seq<char>| uses_security(all_symbols(self.groups@), x)),
    {
        let mut set: Vec<String> = Vec::new();
        let ghost gs = self.groups@;
        let mut gi: usize = 0;
        while gi < self.groups.len()
            invariant
                gs == self.groups@,
                gi <= gs.len(),
                strictly_sorted(views(set@)),
                forall|x: Seq<char>| #[trigger] views(set@).contains(x)
                    <==> uses_security(all_symbols(gs.take(gi as int)), x),
            decreases gs.len() - gi,
        {
            let g = &self.groups[gi];
            let ghost before = all_symbols(gs.take(gi as int));
            proof {
                lemma_all_symbols_step(gs, gi as int);
            }
            let mut si: usize = 0;
            while si < g.symbols.len()
                invariant
                    g == gs[gi as int],
                    si <= g.symbols.len(),
                    strictly_sorted(views(set@)),
                    forall|x: Seq<char>| #[trigger] views(set@).contains(x)
                        <==> uses_security(before + g.symbols@.take(si as int), x),
                decreases g.symbols.len() - si,
            {
                let ghost prev = before + g.symbols@.take(si as int);
                let ghost next = before + g.symbols@.take(si + 1);
                assert(next =~= prev.push(g.symbols@[si as int]));
                if let Some(sec) = &g.symbols[si].security {
                    insert_sorted(&mut set, sec.as_str());
                    assert forall|x: Seq<char>| #[trigger] views(set@).contains(x)
                        <==> uses_security(next, x) by {
                        if uses_security(prev, x) {
                            let k = choose|k: int| 0 <= k < prev.len() && (#[trigger] prev[k]).security is Some
                                && prev[k].security->0@ == x;
                            assert(next[k] == prev[k]);
                        }
                        if x == sec@ {
                            assert(next[prev.len() as int] == g.symbols@[si as int]);
                        }
                        if uses_security(next, x) {
                            let k = choose|k: int| 0 <= k < next.len() && (#[trigger] next[k]).security is Some
                                && next[k].security->0@ == x;
                            if k < prev.len() {
                                assert(prev[k] == next[k]);
                            }
                        }
                    }
                } else {
                    assert forall|x: Seq<char>| #[trigger] views(set@).contains(x)
                        <==> uses_security(next, x) by {
                        if uses_security(prev, x) {
                            let k = choose|k: int| 0 <= k < prev.len() && (#[trigger] prev[k]).security is Some
                                && prev[k].security->0@ == x;
                            assert(next[k] == prev[k]);
                        }
                        if uses_security(next, x) {
                            let k = choose|k: int| 0 <= k < next.len() && (#[trigger] next[k]).security is Some
                                && next[k].security->0@ == x;
                            if k < prev.len() {
                                assert(prev[k] == next[k]);
                            }
                        }
                    }
                }
                si += 1;
            }
            assert(g.symbols@.take(g.symbols@.len() as int) =~= g.symbols@);
            gi += 1;
        }
        assert(gs.take(gs.len() as int) =~= gs);
        set
    }

    /// Every distinct tag any symbol carries, sorted, deduped.
    pub fn tags(&self) -> (r: Vec<String>)
        ensures
            is_sorted_set_of(r@, |x: Seq<char>| uses_tag(all_symbols(self.groups@), x)),
    {
        let mut set: Vec<String> = Vec::new();
        let ghost gs = self.groups@;
        let mut gi: usize = 0;
        while gi < self.groups.len()
            invariant
                gs == self.groups@,
                gi <= gs.len(),
                strictly_sorted(views(set@)),
                forall|x: Seq<char>| #[trigger] views(set@).contains(x)
                    <==> uses_tag(all_symbols(gs.take(gi as int)), x),
            decreases gs.len() - gi,
        {
            let g = &self.groups[gi];
            let ghost before = all_symbols(gs.take(gi as int));
            proof {
                lemma_all_symbols_step(gs, gi as int);
            }
            let mut si: usize = 0;
            while si < g.symbols.len()
                invariant
                    g == gs[gi as int],
                    si <= g.symbols.len(),
                    strictly_sorted(views(set@)),
                    forall|x: Seq<char>| #[trigger] views(set@).contains(x)
                        <==> uses_tag(before + g.symbols@.take(si as int), x),
                decreases g.symbols.len() - si,
            {
                let ghost prev = before + g.symbols@.take(si as int);
                let ghost next = before + g.symbols@.take(si + 1);
                assert(next =~= prev.push(g.symbols@[si as int]));
                let sym = &g.symbols[si];
                let mut ti: usize = 0;
                while ti < sym.tags.len()
                    invariant
                        sym == next[prev.len() as int],
                        next.len() == prev.len() + 1,
                        forall|k: int| 0 <= k < prev.len() ==> next[k] == prev[k],
                        ti <= sym.tags.len(),
                        strictly_sorted(views(set@)),
                        forall|x: Seq<char>| #[trigger] views(set@).contains(x)
                            <==> (uses_tag(prev, x) || exists|t: int| 0 <= t < ti && (#[trigger] sym.tags@[t])@ == x),
                    decreases sym.tags.len() - ti,
                {
                    insert_sorted(&mut set, sym.tags[ti].as_str());
                    assert forall|x: Seq<char>| #[trigger] views(set@).contains(x)
                        <==> (uses_tag(prev, x) || exists|t: int| 0 <= t < ti + 1 && (#[trigger] sym.tags@[t])@ == x) by {
                        if x == sym.tags@[ti as int]@ {
                            assert(sym.tags@[ti as int]@ == x);
                        }
                    }
                    ti += 1;
                }
                assert forall|x: Seq<char>| #[trigger] views(set@).contains(x) <==> uses_tag(next, x) by {
                    if uses_tag(prev, x) {
                        let (k, t) = choose|k: int, t: int| 0 <= k < prev.len() && 0 <= t < prev[k].tags.len()
                            && (#[trigger] prev[k].tags@[t])@ == x;
                        assert(next[k].tags@[t]@ == x);
                    }
                    if exists|t: int| 0 <= t < sym.tags.len() && (#[trigger] sym.tags@[t])@ == x {
                        let t = choose|t: int| 0 <= t < sym.tags.len() && (#[trigger] sym.tags@[t])@ == x;
                        assert(next[prev.len() as int].tags@[t]@ == x);
                    }
                    if uses_tag(next, x) {
                        let (k, t) = choose|k: int, t: int| 0 <= k < next.len() && 0 <= t < next[k].tags.len()
                            && (#[trigger] next[k].tags@[t])@ == x;
                        if k < prev.len() {
                            assert(prev[k].tags@[t]@ == x);
                        } else {
                            assert(sym.tags@[t]@ == x);
                        }
                    }
                }
                si += 1;
            }
            assert(g.symbols@.take(g.symbols@.len() as int) =~= g.symbols@);
            gi += 1;
        }
        assert(gs.take(gs.len() as int) =~= gs);
        set
    }
}

proof fn lemma_forest_root_count_prefix(gs: Seq<GroupDoc>, i: int)
    requires
        0 <= i <= gs.len(),
    ensures
        seq_sum(gs.take(i), |g: GroupDoc| if is_forest_root(gs, g.path@) { 1nat } else { 0nat })
            == gs.take(i).filter(|g: GroupDoc| is_forest_root(gs, g.path@)).len(),
    decreases i,
{
    reveal(Seq::filter);
    if i > 0 {
        lemma_forest_root_count_prefix(gs, i - 1);
        lemma_seq_sum_step(gs, |g: GroupDoc| if is_forest_root(gs, g.path@) { 1nat } else { 0nat }, i - 1);
        assert(gs.take(i).drop_last() =~= gs.take(i - 1));
    } else {
        assert(gs.take(0) =~= Seq::<GroupDoc>::empty());
    }
}

/// The number of forest roots the statistics count is the number of nodes of
/// the landing tree.
pub proof fn lemma_forest_root_count(gs: Seq<GroupDoc>)
    ensures
        count_forest_roots(gs) == forest_roots(gs).len(),
{
    lemma_forest_root_count_prefix(gs, gs.len() as int);
    assert(gs.take(gs.len() as int) =~= gs);
}

} // verus!
