//! Relationship-graph diagrams: a focused sub-graph of the project graph (a
//! group's subsystem, or one page's members and their neighbours), rendered as
//! a Mermaid body and as the JSON payload of the inline canvas renderer.
//!
//! Both renderings come from the same computed sub-graph. Nodes are kept sorted
//! by path and edges by `(from, to, kind)`, so every render is reproducible.

use crate::model::{edge_kind_rank, spec_edge_kind_name, EdgeKind, GraphEdge, ProjectGraph};
use crate::path::{find_last_dot, last_dot, lemma_last_dot_bounds};
use crate::strset::{contains_str, insert_sorted, lemma_sorted_sets_equal, strictly_sorted, views};
use crate::text::{
    has_prefix, lemma_seq_lt_irreflexive, lemma_seq_lt_total,
    lemma_seq_lt_transitive, seq_lt, str_eq, str_lt, starts_with, to_owned_string, chars_of,
    string_from_chars, contains_text, lemma_contains_left, lemma_contains_prefix, decimal, digit, hex_lower, push_decimal, push_decimal_wide, unicode_escape, push_unicode_escape,
};
use vstd::prelude::*;

verus! {

/// One node in a rendered diagram. `primary` marks a node that is part of the
/// focus (a seed) rather than a neighbour pulled in by depth.
#[derive(Debug, Clone, PartialEq, Eq)]
pub struct DiagramNode {
    pub path: String,
    pub primary: bool,
}

/// One typed edge between two diagram nodes.
#[derive(Debug, Clone, PartialEq, Eq)]
pub struct DiagramEdge {
    pub from: String,
    pub to: String,
    pub kind: EdgeKind,
}

/// A computed sub-graph ready to render: nodes sorted by path, edges sorted by
/// `(from, to, kind)`.
#[derive(Debug, Clone, PartialEq, Eq)]
pub struct Diagram {
    /// Human title (e.g. `Subsystem Root.Engine`).
    pub title: String,
    pub nodes: Vec<DiagramNode>,
    pub edges: Vec<DiagramEdge>,
}

// ---------------------------------------------------------------------------
// The graph model
// ---------------------------------------------------------------------------

/// An edge as plain values: `(from, to, kind)`.
pub type EdgeKey = (Seq<char>, Seq<char>, EdgeKind);

pub open spec fn graph_key(e: GraphEdge) -> EdgeKey {
    (e.from@, e.to@, e.kind)
}

pub open spec fn diagram_key(e: DiagramEdge) -> EdgeKey {
    (e.from@, e.to@, e.kind)
}

pub open spec fn graph_keys(g: Seq<GraphEdge>) -> Seq<EdgeKey> {
    g.map_values(|e: GraphEdge| graph_key(e))
}

pub open spec fn diagram_keys(es: Seq<DiagramEdge>) -> Seq<EdgeKey> {
    es.map_values(|e: DiagramEdge| diagram_key(e))
}

pub open spec fn node_paths(ns: Seq<DiagramNode>) -> Seq<Seq<char>> {
    ns.map_values(|n: DiagramNode| n.path@)
}

/// `p` is the source or target of some edge of `g`.
pub open spec fn is_endpoint(g: Seq<GraphEdge>, p: Seq<char>) -> bool {
    exists|i: int| 0 <= i < g.len() && (#[trigger] g[i].from@ == p || g[i].to@ == p)
}

/// Some edge of `g` joins `a` and `b`, in either direction.
pub open spec fn linked(g: Seq<GraphEdge>, a: Seq<char>, b: Seq<char>) -> bool {
    exists|i: int|
        0 <= i < g.len() && ((#[trigger] g[i].from@ == a && g[i].to@ == b) || (g[i].from@ == b
            && g[i].to@ == a))
}

/// The paths within `d` hops (edges followed in either direction) of a seed
/// that is an endpoint of `g`.
pub open spec fn layer(g: Seq<GraphEdge>, seeds: Set<Seq<char>>, d: nat) -> Set<Seq<char>>
    decreases d,
{
    if d == 0 {
        Set::new(|p: Seq<char>| seeds.contains(p) && is_endpoint(g, p))
    } else {
        let prev = layer(g, seeds, (d - 1) as nat);
        Set::new(
            |p: Seq<char>|
                prev.contains(p) || exists|q: Seq<char>| #[trigger] prev.contains(q) && linked(g, q, p),
        )
    }
}

/// `p` lies within `d` hops of a seed.
pub open spec fn within(g: Seq<GraphEdge>, seeds: Set<Seq<char>>, p: Seq<char>, d: nat) -> bool {
    layer(g, seeds, d).contains(p)
}

/// The order edges are listed in: by source, then target, then kind.
pub open spec fn key_lt(a: EdgeKey, b: EdgeKey) -> bool {
    ||| seq_lt(a.0, b.0)
    ||| a.0 == b.0 && seq_lt(a.1, b.1)
    ||| a.0 == b.0 && a.1 == b.1 && edge_kind_rank(a.2) < edge_kind_rank(b.2)
}

pub open spec fn keys_sorted(s: Seq<EdgeKey>) -> bool {
    forall|i: int, j: int| 0 <= i < j < s.len() ==> key_lt(#[trigger] s[i], #[trigger] s[j])
}

/// The diagram of `g` around `seeds` at `depth`: its nodes are exactly the paths
/// within `depth` hops, sorted, each primary exactly when it is itself a seed
/// endpoint; its edges are exactly the edges of `g` between two of its nodes,
/// sorted and without repeats.
pub open spec fn is_diagram_around(
    d: Diagram,
    g: Seq<GraphEdge>,
    seeds: Set<Seq<char>>,
    depth: nat,
) -> bool {
    &&& strictly_sorted(node_paths(d.nodes@))
    &&& forall|p: Seq<char>| #[trigger]
        node_paths(d.nodes@).contains(p) <==> within(g, seeds, p, depth)
    &&& forall|i: int|
        0 <= i < d.nodes@.len() ==> (#[trigger] d.nodes@[i]).primary == within(
            g,
            seeds,
            d.nodes@[i].path@,
            0,
        )
    &&& keys_sorted(diagram_keys(d.edges@))
    &&& forall|k: EdgeKey| #[trigger]
        diagram_keys(d.edges@).contains(k) <==> (graph_keys(g).contains(k) && within(
            g,
            seeds,
            k.0,
            depth,
        ) && within(g, seeds, k.1, depth))
}

// ---------------------------------------------------------------------------
// Lemmas
// ---------------------------------------------------------------------------

proof fn lemma_rank_injective(a: EdgeKind, b: EdgeKind)
    ensures
        edge_kind_rank(a) == edge_kind_rank(b) ==> a == b,
{
}

proof fn lemma_key_lt_irreflexive(a: EdgeKey)
    ensures
        !key_lt(a, a),
{
    lemma_seq_lt_irreflexive(a.0);
    lemma_seq_lt_irreflexive(a.1);
}

proof fn lemma_key_lt_transitive(a: EdgeKey, b: EdgeKey, c: EdgeKey)
    requires
        key_lt(a, b),
        key_lt(b, c),
    ensures
        key_lt(a, c),
{
    if seq_lt(a.0, b.0) && seq_lt(b.0, c.0) {
        lemma_seq_lt_transitive(a.0, b.0, c.0);
    }
    if a.0 == b.0 && b.0 == c.0 && seq_lt(a.1, b.1) && seq_lt(b.1, c.1) {
        lemma_seq_lt_transitive(a.1, b.1, c.1);
    }
}

proof fn lemma_key_lt_total(a: EdgeKey, b: EdgeKey)
    ensures
        key_lt(a, b) || a == b || key_lt(b, a),
{
    lemma_seq_lt_total(a.0, b.0);
    lemma_seq_lt_total(a.1, b.1);
    lemma_rank_injective(a.2, b.2);
}

/// Within `d` hops implies within any larger number of hops.
proof fn lemma_within_monotone(g: Seq<GraphEdge>, seeds: Set<Seq<char>>, p: Seq<char>, d: nat, e: nat)
    requires
        d <= e,
        within(g, seeds, p, d),
    ensures
        within(g, seeds, p, e),
    decreases e,
{
    if d < e {
        lemma_within_monotone(g, seeds, p, d, (e - 1) as nat);
    }
}

/// Once one more hop adds nothing, no number of further hops adds anything.
proof fn lemma_within_stable(g: Seq<GraphEdge>, seeds: Set<Seq<char>>, d: nat, e: nat)
    requires
        d <= e,
        forall|x: Seq<char>| #[trigger] within(g, seeds, x, d + 1) ==> within(g, seeds, x, d),
    ensures
        forall|x: Seq<char>| #[trigger] within(g, seeds, x, e) <==> within(g, seeds, x, d),
    decreases e,
{
    if d < e {
        let e1 = (e - 1) as nat;
        lemma_within_stable(g, seeds, d, e1);
        assert forall|x: Seq<char>| #[trigger] within(g, seeds, x, e) <==> within(g, seeds, x, d) by {
            if within(g, seeds, x, e) && !within(g, seeds, x, e1) {
                let q = choose|q: Seq<char>| #[trigger] layer(g, seeds, e1).contains(q) && linked(g, q, x);
                assert(within(g, seeds, q, e1));
                assert(layer(g, seeds, d).contains(q));
                assert(within(g, seeds, x, d + 1));
            }
            if within(g, seeds, x, d) {
                lemma_within_monotone(g, seeds, x, d, e);
            }
        }
    }
}

/// Two seed sets that agree on the endpoints of `g` give the same
/// neighbourhoods.
proof fn lemma_within_same_seeds(g: Seq<GraphEdge>, s1: Set<Seq<char>>, s2: Set<Seq<char>>, d: nat)
    requires
        forall|q: Seq<char>| is_endpoint(g, q) ==> (s1.contains(q) <==> s2.contains(q)),
    ensures
        layer(g, s1, d) == layer(g, s2, d),
    decreases d,
{
    if d > 0 {
        lemma_within_same_seeds(g, s1, s2, (d - 1) as nat);
    }
    assert(layer(g, s1, d) =~= layer(g, s2, d));
}

// ---------------------------------------------------------------------------
// Building the sub-graph
// ---------------------------------------------------------------------------

/// Some edge among the first `j` of `g` joins a member of `set` to `x`.
pub open spec fn joined_before(g: Seq<GraphEdge>, set: Seq<Seq<char>>, x: Seq<char>, j: int) -> bool {
    exists|k: int|
        0 <= k < j && ((set.contains(#[trigger] g[k].from@) && g[k].to@ == x) || (set.contains(
            g[k].to@,
        ) && g[k].from@ == x))
}

/// `e` starts or ends at `p`.
pub open spec fn touches(e: GraphEdge, p: Seq<char>) -> bool {
    e.from@ == p || e.to@ == p
}

proof fn lemma_endpoint_edge(g: Seq<GraphEdge>, q: Seq<char>)
    requires
        is_endpoint(g, q),
    ensures
        exists|k: int| 0 <= k < g.len() && #[trigger] touches(g[k], q),
{
    let k = choose|k: int| 0 <= k < g.len() && (#[trigger] g[k].from@ == q || g[k].to@ == q);
    assert(touches(g[k], q));
}

/// Whether `p` is the source or target of some edge of `g`.
fn endpoint_in(g: &Vec<GraphEdge>, p: &str) -> (found: bool)
    ensures
        found == is_endpoint(g@, p@),
{
    let mut i: usize = 0;
    while i < g.len()
        invariant
            i <= g.len(),
            forall|k: int| 0 <= k < i ==> !touches(#[trigger] g@[k], p@),
        decreases g.len() - i,
    {
        let a = str_eq(g[i].from.as_str(), p);
        let b = str_eq(g[i].to.as_str(), p);
        if a || b {
            assert(touches(g@[i as int], p@));
            return true;
        }
        i += 1;
    }
    proof {
        if is_endpoint(g@, p@) {
            let k = choose|k: int| 0 <= k < g@.len() && (#[trigger] g@[k].from@ == p@ || g@[k].to@ == p@);
            assert(touches(g@[k], p@));
        }
    }
    false
}

/// A copy of a list of strings.
fn copy_strings(v: &Vec<String>) -> (copy: Vec<String>)
    ensures
        views(copy@) == views(v@),
{
    let mut out: Vec<String> = Vec::new();
    let mut i: usize = 0;
    while i < v.len()
        invariant
            i <= v.len(),
            out@.len() == i,
            views(out@) == views(v@).take(i as int),
        decreases v.len() - i,
    {
        out.push(to_owned_string(v[i].as_str()));
        assert(views(out@) =~= views(v@).take(i + 1));
        i += 1;
    }
    assert(views(v@).take(v@.len() as int) =~= views(v@));
    out
}

/// One more hop: `included` together with every path that an edge joins to one
/// of its members, and whether that added anything.
fn expand(g: &Vec<GraphEdge>, included: &Vec<String>) -> (r: (Vec<String>, bool))
    requires
        strictly_sorted(views(included@)),
    ensures
        strictly_sorted(views(r.0@)),
        forall|x: Seq<char>| #[trigger]
            views(r.0@).contains(x) <==> (views(included@).contains(x) || exists|q: Seq<char>|
                views(included@).contains(q) && #[trigger] linked(g@, q, x)),
        !r.1 ==> forall|x: Seq<char>| #[trigger]
            views(r.0@).contains(x) ==> views(included@).contains(x),
{
    let ghost inc = views(included@);
    let mut next = copy_strings(included);
    let mut grew = false;
    let mut j: usize = 0;
    while j < g.len()
        invariant
            j <= g.len(),
            inc == views(included@),
            strictly_sorted(views(next@)),
            forall|x: Seq<char>| #[trigger]
                views(next@).contains(x) <==> (inc.contains(x) || joined_before(g@, inc, x, j as int)),
            !grew ==> forall|x: Seq<char>| #[trigger] views(next@).contains(x) ==> inc.contains(x),
        decreases g.len() - j,
    {
        let ghost before = views(next@);
        assert forall|x: Seq<char>| joined_before(g@, inc, x, j as int) implies joined_before(g@, inc, x, j + 1) by {
            let k = choose|k: int|
                0 <= k < j && ((inc.contains(#[trigger] g@[k].from@) && g@[k].to@ == x) || (inc.contains(
                    g@[k].to@,
                ) && g@[k].from@ == x));
            assert(0 <= k < j + 1);
        }
        let from_in = contains_str(included, g[j].from.as_str());
        let to_in = contains_str(included, g[j].to.as_str());
        if from_in && !contains_str(&next, g[j].to.as_str()) {
            insert_sorted(&mut next, g[j].to.as_str());
            grew = true;
        }
        if to_in && !contains_str(&next, g[j].from.as_str()) {
            insert_sorted(&mut next, g[j].from.as_str());
            grew = true;
        }
        proof {
            let jj = j as int;
            assert forall|x: Seq<char>| #[trigger]
                views(next@).contains(x) <==> (inc.contains(x) || joined_before(g@, inc, x, jj + 1)) by {
                if joined_before(g@, inc, x, jj + 1) && !joined_before(g@, inc, x, jj) {
                    let k = choose|k: int|
                        0 <= k < jj + 1 && ((inc.contains(#[trigger] g@[k].from@) && g@[k].to@ == x)
                            || (inc.contains(g@[k].to@) && g@[k].from@ == x));
                    assert(k == jj);
                }
                if views(next@).contains(x) && !before.contains(x) {
                    assert(joined_before(g@, inc, x, jj + 1)) by {
                        assert(g@[jj].from@ == g@[jj].from@);
                    }
                }
            }
        }
        j += 1;
    }
    proof {
        assert forall|x: Seq<char>| #[trigger]
            views(next@).contains(x) <==> (inc.contains(x) || exists|q: Seq<char>|
                inc.contains(q) && #[trigger] linked(g@, q, x)) by {
            if joined_before(g@, inc, x, g@.len() as int) {
                let k = choose|k: int|
                    0 <= k < g@.len() && ((inc.contains(#[trigger] g@[k].from@) && g@[k].to@ == x) || (
                    inc.contains(g@[k].to@) && g@[k].from@ == x));
                if inc.contains(g@[k].from@) && g@[k].to@ == x {
                    assert(linked(g@, g@[k].from@, x));
                } else {
                    assert(linked(g@, g@[k].to@, x));
                }
            }
            if exists|q: Seq<char>| inc.contains(q) && #[trigger] linked(g@, q, x) {
                let q = choose|q: Seq<char>| inc.contains(q) && #[trigger] linked(g@, q, x);
                let k = choose|k: int|
                    0 <= k < g@.len() && ((#[trigger] g@[k].from@ == q && g@[k].to@ == x) || (g@[k].from@
                        == x && g@[k].to@ == q));
                assert(joined_before(g@, inc, x, g@.len() as int));
            }
        }
    }
    (next, grew)
}

/// The layer one hop further out is what `expand` computes from this one.
proof fn lemma_next_layer(g: Seq<GraphEdge>, seeds: Set<Seq<char>>, d: nat, inc: Seq<Seq<char>>, next: Seq<Seq<char>>)
    requires
        forall|x: Seq<char>| #[trigger] inc.contains(x) <==> within(g, seeds, x, d),
        forall|x: Seq<char>| #[trigger]
            next.contains(x) <==> (inc.contains(x) || exists|q: Seq<char>|
                inc.contains(q) && #[trigger] linked(g, q, x)),
    ensures
        forall|x: Seq<char>| #[trigger] next.contains(x) <==> within(g, seeds, x, d + 1),
{
    assert forall|x: Seq<char>| #[trigger] next.contains(x) <==> within(g, seeds, x, d + 1) by {
        let prev = layer(g, seeds, d);
        assert(layer(g, seeds, d + 1).contains(x) == (prev.contains(x) || exists|q: Seq<char>|
            #[trigger] prev.contains(q) && linked(g, q, x)));
        if next.contains(x) && !inc.contains(x) {
            let q = choose|q: Seq<char>| inc.contains(q) && #[trigger] linked(g, q, x);
            assert(prev.contains(q));
        }
        if within(g, seeds, x, d + 1) && !prev.contains(x) {
            let q = choose|q: Seq<char>| #[trigger] prev.contains(q) && linked(g, q, x);
            assert(inc.contains(q));
        }
    }
}

/// Whether edge `e` sorts strictly before the key `(from, to, kind)`.
fn edge_before(e: &DiagramEdge, from: &str, to: &str, kind: EdgeKind) -> (r: bool)
    ensures
        r == key_lt(diagram_key(*e), (from@, to@, kind)),
{
    if str_lt(e.from.as_str(), from) {
        return true;
    }
    if !str_eq(e.from.as_str(), from) {
        return false;
    }
    if str_lt(e.to.as_str(), to) {
        return true;
    }
    if !str_eq(e.to.as_str(), to) {
        return false;
    }
    e.kind.rank() < kind.rank()
}

/// Whether edge `e` has the key `(from, to, kind)`.
fn edge_is(e: &DiagramEdge, from: &str, to: &str, kind: EdgeKind) -> (r: bool)
    ensures
        r == (diagram_key(*e) == (from@, to@, kind)),
{
    proof {
        lemma_rank_injective(e.kind, kind);
    }
    str_eq(e.from.as_str(), from) && str_eq(e.to.as_str(), to) && e.kind.rank() == kind.rank()
}

/// Insert the edge `(from, to, kind)` into the sorted list `edges`, keeping it
/// sorted and without repeats.
pub(crate) fn insert_edge(edges: &mut Vec<DiagramEdge>, from: &str, to: &str, kind: EdgeKind)
    requires
        keys_sorted(diagram_keys(old(edges)@)),
    ensures
        keys_sorted(diagram_keys(final(edges)@)),
        forall|k: EdgeKey| #[trigger] diagram_keys(final(edges)@).contains(k)
            <==> (diagram_keys(old(edges)@).contains(k) || k == (from@, to@, kind)),
{
    let ghost key: EdgeKey = (from@, to@, kind);
    let mut i: usize = 0;
    let mut searching = true;
    while searching && i < edges.len()
        invariant
            key == (from@, to@, kind),
            i <= edges.len(),
            edges@ == old(edges)@,
            keys_sorted(diagram_keys(edges@)),
            forall|k: int| 0 <= k < i ==> key_lt(#[trigger] diagram_keys(edges@)[k], key),
            !searching ==> i < edges.len() && !key_lt(diagram_keys(edges@)[i as int], key),
        decreases edges.len() - i + (if searching { 1int } else { 0int }),
    {
        assert(diagram_keys(edges@)[i as int] == diagram_key(edges@[i as int]));
        if edge_before(&edges[i], from, to, kind) {
            i += 1;
        } else {
            searching = false;
        }
    }
    let ghost old_keys = diagram_keys(edges@);
    if i < edges.len() && edge_is(&edges[i], from, to, kind) {
        assert(old_keys[i as int] == key);
        return;
    }
    proof {
        if i < edges.len() {
            lemma_key_lt_total(old_keys[i as int], key);
        }
        assert forall|k: int| i <= k < old_keys.len() implies key_lt(key, #[trigger] old_keys[k]) by {
            if k > i {
                lemma_key_lt_transitive(key, old_keys[i as int], old_keys[k]);
            }
        }
    }
    let e = DiagramEdge { from: to_owned_string(from), to: to_owned_string(to), kind };
    assert(diagram_key(e) == key);
    edges.insert(i, e);
    proof {
        let nk = diagram_keys(edges@);
        assert(nk =~= old_keys.insert(i as int, key));
        assert forall|a: int, b: int| 0 <= a < b < nk.len() implies key_lt(#[trigger] nk[a], #[trigger] nk[b]) by {
            if b < i {
            } else if b == i {
            } else if a < i {
                assert(key_lt(key, old_keys[b - 1]));
                lemma_key_lt_transitive(nk[a], key, nk[b]);
            } else if a == i {
                assert(key_lt(key, old_keys[b - 1]));
            } else {
            }
        }
        assert forall|x: EdgeKey| #[trigger] nk.contains(x) <==> (old_keys.contains(x) || x == key) by {
            if old_keys.contains(x) {
                let k = choose|k: int| 0 <= k < old_keys.len() && old_keys[k] == x;
                if k < i {
                    assert(nk[k] == x);
                } else {
                    assert(nk[k + 1] == x);
                }
            }
            if x == key {
                assert(nk[i as int] == x);
            }
            if nk.contains(x) {
                let k = choose|k: int| 0 <= k < nk.len() && nk[k] == x;
                if k < i {
                    assert(old_keys[k] == x);
                } else if k > i {
                    assert(old_keys[k - 1] == x);
                }
            }
        }
    }
}

/// Every edge of `g` whose two endpoints are in `included`, sorted and
/// without repeats.
fn collect_edges(g: &Vec<GraphEdge>, included: &Vec<String>) -> (r: Vec<DiagramEdge>)
    ensures
        keys_sorted(diagram_keys(r@)),
        forall|k: EdgeKey| #[trigger]
            diagram_keys(r@).contains(k) <==> (graph_keys(g@).contains(k) && views(included@).contains(k.0)
                && views(included@).contains(k.1)),
{
    let mut out: Vec<DiagramEdge> = Vec::new();
    let mut j: usize = 0;
    while j < g.len()
        invariant
            j <= g.len(),
            keys_sorted(diagram_keys(out@)),
            forall|k: EdgeKey| #[trigger]
                diagram_keys(out@).contains(k) <==> (graph_keys(g@).take(j as int).contains(k)
                    && views(included@).contains(k.0) && views(included@).contains(k.1)),
        decreases g.len() - j,
    {
        let ghost before = diagram_keys(out@);
        let ghost gk = graph_key(g@[j as int]);
        assert(graph_keys(g@).take(j + 1) =~= graph_keys(g@).take(j as int).push(gk));
        if contains_str(included, g[j].from.as_str()) && contains_str(included, g[j].to.as_str()) {
            insert_edge(&mut out, g[j].from.as_str(), g[j].to.as_str(), g[j].kind);
        }
        proof {
            assert forall|k: EdgeKey| #[trigger]
                diagram_keys(out@).contains(k) <==> (graph_keys(g@).take(j + 1).contains(k)
                    && views(included@).contains(k.0) && views(included@).contains(k.1)) by {
                if graph_keys(g@).take(j + 1).contains(k) && k != gk {
                    let m = choose|m: int| 0 <= m < j + 1 && #[trigger] graph_keys(g@).take(j + 1)[m] == k;
                    assert(graph_keys(g@).take(j as int)[m] == k);
                }
                if graph_keys(g@).take(j as int).contains(k) {
                    let m = choose|m: int| 0 <= m < j && #[trigger] graph_keys(g@).take(j as int)[m] == k;
                    assert(graph_keys(g@).take(j + 1)[m] == k);
                }
                if k == gk {
                    assert(graph_keys(g@).take(j + 1)[j as int] == k);
                }
            }
        }
        j += 1;
    }
    assert(graph_keys(g@).take(g@.len() as int) =~= graph_keys(g@));
    out
}

/// The seed paths of `seeds` that are endpoints of `g`, sorted.
fn seed_endpoints(g: &Vec<GraphEdge>, seeds: &Vec<String>) -> (r: Vec<String>)
    ensures
        strictly_sorted(views(r@)),
        forall|x: Seq<char>| #[trigger]
            views(r@).contains(x) <==> within(g@, views(seeds@).to_set(), x, 0),
{
    let mut out: Vec<String> = Vec::new();
    let mut i: usize = 0;
    while i < seeds.len()
        invariant
            i <= seeds.len(),
            strictly_sorted(views(out@)),
            forall|x: Seq<char>| #[trigger]
                views(out@).contains(x) <==> (views(seeds@).take(i as int).contains(x) && is_endpoint(g@, x)),
        decreases seeds.len() - i,
    {
        let ghost sv = views(seeds@)[i as int];
        assert(views(seeds@).take(i + 1) =~= views(seeds@).take(i as int).push(sv));
        if endpoint_in(g, seeds[i].as_str()) {
            insert_sorted(&mut out, seeds[i].as_str());
        }
        proof {
            assert forall|x: Seq<char>| #[trigger]
                views(out@).contains(x) <==> (views(seeds@).take(i + 1).contains(x) && is_endpoint(g@, x)) by {
                if views(seeds@).take(i + 1).contains(x) && x != sv {
                    let m = choose|m: int| 0 <= m < i + 1 && #[trigger] views(seeds@).take(i + 1)[m] == x;
                    assert(views(seeds@).take(i as int)[m] == x);
                }
                if views(seeds@).take(i as int).contains(x) {
                    let m = choose|m: int| 0 <= m < i && #[trigger] views(seeds@).take(i as int)[m] == x;
                    assert(views(seeds@).take(i + 1)[m] == x);
                }
                if x == sv {
                    assert(views(seeds@).take(i + 1)[i as int] == x);
                }
            }
        }
        i += 1;
    }
    assert(views(seeds@).take(seeds@.len() as int) =~= views(seeds@));
    out
}

impl Diagram {
    /// Build the diagram around `seeds`: every path within `depth` hops of a
    /// seed (following edges in either direction) and every edge among those
    /// paths. Only seeds that occur in the graph anchor the diagram; they are
    /// the primary nodes, the others are context.
    pub fn around(graph: &ProjectGraph, seeds: &Vec<String>, depth: usize) -> (d: Diagram)
        ensures
            is_diagram_around(d, graph.edges@, views(seeds@).to_set(), depth as nat),
            d.title@ == Seq::<char>::empty(),
    {
        let g = &graph.edges;
        let ghost sset = views(seeds@).to_set();
        let primary = seed_endpoints(g, seeds);
        let mut included = copy_strings(&primary);
        let mut level: usize = 0;
        let mut stable = false;
        while level < depth && !stable
            invariant
                sset == views(seeds@).to_set(),
                level <= depth,
                strictly_sorted(views(included@)),
                forall|x: Seq<char>| #[trigger]
                    views(included@).contains(x) <==> within(g@, sset, x, level as nat),
                stable ==> forall|x: Seq<char>| #[trigger]
                    within(g@, sset, x, depth as nat) <==> within(g@, sset, x, level as nat),
            decreases (depth - level) + (if stable { 0int } else { 1int }),
        {
            let (next, grew) = expand(g, &included);
            proof {
                lemma_next_layer(g@, sset, level as nat, views(included@), views(next@));
            }
            if !grew {
                proof {
                    assert forall|x: Seq<char>| #[trigger] within(g@, sset, x, level as nat + 1) implies within(
                        g@,
                        sset,
                        x,
                        level as nat,
                    ) by {
                        assert(views(next@).contains(x));
                        assert(views(included@).contains(x));
                    }
                    lemma_within_stable(g@, sset, level as nat, depth as nat);
                }
                stable = true;
            } else {
                included = next;
                level += 1;
            }
        }
        let mut nodes: Vec<DiagramNode> = Vec::new();
        let mut i: usize = 0;
        while i < included.len()
            invariant
                sset == views(seeds@).to_set(),
                forall|x: Seq<char>| #[trigger] views(primary@).contains(x) <==> within(g@, sset, x, 0),
                i <= included.len(),
                nodes@.len() == i,
                node_paths(nodes@) == views(included@).take(i as int),
                forall|k: int|
                    0 <= k < i ==> (#[trigger] nodes@[k]).primary == within(g@, sset, nodes@[k].path@, 0),
            decreases included.len() - i,
        {
            let is_primary = contains_str(&primary, included[i].as_str());
            let n = DiagramNode { path: to_owned_string(included[i].as_str()), primary: is_primary };
            let ghost before = nodes@;
            assert(within(g@, sset, n.path@, 0) == views(primary@).contains(n.path@));
            nodes.push(n);
            assert(nodes@[i as int] == n);
            assert forall|k: int| 0 <= k < i + 1 implies #[trigger] node_paths(nodes@)[k]
                == views(included@).take(i + 1)[k] by {
                if k < i {
                    assert(nodes@[k] == before[k]);
                    assert(node_paths(before)[k] == views(included@).take(i as int)[k]);
                }
            }
            assert(node_paths(nodes@) =~= views(included@).take(i + 1));
            i += 1;
        }
        assert(views(included@).take(included@.len() as int) =~= views(included@));
        let edges = collect_edges(g, &included);
        Diagram { title: String::new(), nodes, edges }
    }
}

/// `p` is the group path itself or lies under it.
pub open spec fn in_subsystem(p: Seq<char>, group: Seq<char>) -> bool {
    p == group || has_prefix(p, group + "."@)
}

/// The paths of `group`'s subsystem.
pub open spec fn subsystem_seeds(group: Seq<char>) -> Set<Seq<char>> {
    Set::new(|p: Seq<char>| in_subsystem(p, group))
}

/// The character views of a list of string slices.
pub open spec fn str_views(s: Seq<&str>) -> Seq<Seq<char>> {
    s.map_values(|x: &str| x@)
}

/// The character views of a list of string slices, as a set.
pub open spec fn str_set(s: Seq<&str>) -> Set<Seq<char>> {
    str_views(s).to_set()
}

/// The string `a` followed by `b`.
fn concat(a: &str, b: &str) -> (r: String)
    ensures
        r@ == a@ + b@,
{
    let mut r = String::new();
    r.append(a);
    r.append(b);
    r
}

/// Both endpoints of `e` that lie in `group`'s subsystem are in `s`.
pub open spec fn covered(s: Seq<Seq<char>>, e: GraphEdge, group: Seq<char>) -> bool {
    &&& in_subsystem(e.from@, group) ==> s.contains(e.from@)
    &&& in_subsystem(e.to@, group) ==> s.contains(e.to@)
}

proof fn lemma_covered_step(g: Seq<GraphEdge>, group: Seq<char>, before: Seq<Seq<char>>, now: Seq<Seq<char>>, j: int)
    requires
        0 <= j < g.len(),
        before.len() <= now.len(),
        forall|m: int| 0 <= m < before.len() ==> now[m] == before[m],
        forall|k: int| 0 <= k < j ==> #[trigger] covered(before, g[k], group),
        covered(now, g[j], group),
    ensures
        forall|k: int| 0 <= k < j + 1 ==> #[trigger] covered(now, g[k], group),
{
    assert forall|k: int| 0 <= k < j + 1 implies #[trigger] covered(now, g[k], group) by {
        if k < j {
            assert(covered(before, g[k], group));
            if in_subsystem(g[k].from@, group) {
                let m = choose|m: int| 0 <= m < before.len() && before[m] == g[k].from@;
                assert(now[m] == g[k].from@);
            }
            if in_subsystem(g[k].to@, group) {
                let m = choose|m: int| 0 <= m < before.len() && before[m] == g[k].to@;
                assert(now[m] == g[k].to@);
            }
        }
    }
}

/// Every endpoint of `g` that lies in `group`'s subsystem (with repeats).
fn subsystem_endpoints(g: &Vec<GraphEdge>, group: &str) -> (seeds: Vec<String>)
    ensures
        forall|q: Seq<char>| #[trigger]
            views(seeds@).contains(q) <==> is_endpoint(g@, q) && in_subsystem(q, group@),
{
    let prefix = concat(group, ".");
    let mut seeds: Vec<String> = Vec::new();
    let mut j: usize = 0;
    while j < g.len()
        invariant
            j <= g.len(),
            prefix@ == group@ + "."@,
            forall|q: Seq<char>| #[trigger]
                views(seeds@).contains(q) ==> is_endpoint(g@, q) && in_subsystem(q, group@),
            forall|k: int| 0 <= k < j ==> #[trigger] covered(views(seeds@), g@[k], group@),
        decreases g.len() - j,
    {
        let ghost before = views(seeds@);
        let from = g[j].from.as_str();
        if str_eq(from, group) || starts_with(from, prefix.as_str()) {
            seeds.push(to_owned_string(from));
        }
        let ghost mid = views(seeds@);
        let to = g[j].to.as_str();
        if str_eq(to, group) || starts_with(to, prefix.as_str()) {
            seeds.push(to_owned_string(to));
        }
        proof {
            let now = views(seeds@);
            assert(before.len() <= mid.len() <= now.len());
            assert forall|m: int| 0 <= m < before.len() implies now[m] == before[m] by {
                assert(mid[m] == before[m]);
            }
            if in_subsystem(g@[j as int].from@, group@) {
                assert(mid[before.len() as int] == g@[j as int].from@);
                assert(now[before.len() as int] == mid[before.len() as int]);
            }
            if in_subsystem(g@[j as int].to@, group@) {
                assert(now[mid.len() as int] == g@[j as int].to@);
            }
            assert(covered(now, g@[j as int], group@));
            lemma_covered_step(g@, group@, before, now, j as int);
            assert forall|q: Seq<char>| #[trigger] now.contains(q) implies is_endpoint(g@, q)
                && in_subsystem(q, group@) by {
                let m = choose|m: int| 0 <= m < now.len() && now[m] == q;
                if m < before.len() {
                    assert(before.contains(q));
                } else {
                    assert(touches(g@[j as int], q));
                }
            }
        }
        j += 1;
    }
    proof {
        assert forall|q: Seq<char>| is_endpoint(g@, q) && in_subsystem(q, group@) implies #[trigger] views(
            seeds@,
        ).contains(q) by {
            lemma_endpoint_edge(g@, q);
            let k = choose|k: int| 0 <= k < g@.len() && #[trigger] touches(g@[k], q);
            assert(covered(views(seeds@), g@[k], group@));
        }
    }
    seeds
}

impl Diagram {
    /// The subsystem under `group`: every path of the graph that is `group`
    /// or lies under it, plus `depth` hops across the boundary, and the edges
    /// among them.
    pub fn subsystem(graph: &ProjectGraph, group: &str, depth: usize) -> (d: Diagram)
        ensures
            is_diagram_around(d, graph.edges@, subsystem_seeds(group@), depth as nat),
            d.title@ == "Subsystem "@ + group@,
    {
        let g = &graph.edges;
        let seeds = subsystem_endpoints(g, group);
        proof {
            let s1 = views(seeds@).to_set();
            let s2 = subsystem_seeds(group@);
            assert forall|q: Seq<char>| is_endpoint(g@, q) implies (s1.contains(q) <==> s2.contains(q)) by {
                assert(s1.contains(q) == views(seeds@).contains(q));
                assert(s2.contains(q) == in_subsystem(q, group@));
            }
            lemma_within_same_seeds(g@, s1, s2, depth as nat);
            lemma_within_same_seeds(g@, s1, s2, 0);
        }
        let mut d = Self::around(graph, &seeds, depth);
        d.title = concat("Subsystem ", group);
        d
    }

    /// The relationships for one group page: seeded by the group's direct
    /// `members`, expanded `depth` hops so each member's neighbours show even
    /// when they live elsewhere.
    pub fn for_group(graph: &ProjectGraph, members: &[&str], group: &str, depth: usize) -> (d: Diagram)
        ensures
            is_diagram_around(d, graph.edges@, str_set(members@), depth as nat),
            d.title@ == "Relationships in "@ + group@,
    {
        let mut seeds: Vec<String> = Vec::new();
        let mut i: usize = 0;
        while i < members.len()
            invariant
                i <= members.len(),
                seeds@.len() == i,
                views(seeds@) == str_views(members@).take(i as int),
            decreases members.len() - i,
        {
            let ghost before = seeds@;
            seeds.push(to_owned_string(members[i]));
            assert forall|k: int| 0 <= k < i + 1 implies #[trigger] views(seeds@)[k] == str_views(
                members@,
            ).take(i + 1)[k] by {
                if k < i {
                    assert(seeds@[k] == before[k]);
                    assert(views(before)[k] == str_views(members@).take(i as int)[k]);
                }
            }
            assert(views(seeds@) =~= str_views(members@).take(i + 1));
            i += 1;
        }
        assert(str_views(members@).take(members@.len() as int) =~= str_views(members@));
        let mut d = Self::around(graph, &seeds, depth);
        d.title = concat("Relationships in ", group);
        d
    }

    /// True when there is nothing worth drawing (no edges).
    pub fn is_empty(&self) -> (r: bool)
        ensures
            r == (self.edges@.len() == 0),
    {
        self.edges.len() == 0
    }
}

// ---------------------------------------------------------------------------
// Labels and string literals
// ---------------------------------------------------------------------------

/// A node's community: its owning group, the path with the leaf segment
/// removed (`Root.Engine.Speed` → `Root.Engine`); a single-segment path is its
/// own community.
pub open spec fn community_of(p: Seq<char>) -> Seq<char> {
    if last_dot(p) >= 0 {
        p.take(last_dot(p))
    } else {
        p
    }
}

/// The visible label of a node: its last two dot-segments
/// (`Root.Engine.Fuel.Pump` → `Fuel.Pump`), or the whole path when it has at
/// most two.
pub open spec fn short_label_of(p: Seq<char>) -> Seq<char> {
    if last_dot(p) >= 0 && last_dot(p.take(last_dot(p))) >= 0 {
        p.skip(last_dot(p.take(last_dot(p))) + 1)
    } else {
        p
    }
}

/// One character of a Mermaid quoted label.
pub open spec fn mermaid_char(c: char) -> Seq<char> {
    if c == '"' {
        "&quot;"@
    } else {
        seq![c]
    }
}

/// A Mermaid quoted label: `"` becomes `&quot;`.
pub open spec fn mermaid_label_of(s: Seq<char>) -> Seq<char>
    decreases s.len(),
{
    if s.len() == 0 {
        Seq::empty()
    } else {
        mermaid_label_of(s.drop_last()) + mermaid_char(s.last())
    }
}

/// One character inside a JSON string embedded in an inline script: the quote,
/// backslash and control characters escaped, and `<` and `/` too, so the
/// payload never closes its element.
pub open spec fn js_char(c: char) -> Seq<char> {
    if c == '"' {
        "\\\""@
    } else if c == '\\' {
        "\\\\"@
    } else if c == '\n' {
        "\\n"@
    } else if c == '\r' {
        "\\r"@
    } else if c == '\t' {
        "\\t"@
    } else if c == '<' {
        "\\u003c"@
    } else if c == '/' {
        "\\/"@
    } else if (c as u32) < 0x20 {
        unicode_escape(c)
    } else {
        seq![c]
    }
}

pub open spec fn js_body(s: Seq<char>) -> Seq<char>
    decreases s.len(),
{
    if s.len() == 0 {
        Seq::empty()
    } else {
        js_body(s.drop_last()) + js_char(s.last())
    }
}

/// `s` as a quoted JSON string literal, safe inside an inline script.
pub open spec fn js_of(s: Seq<char>) -> Seq<char> {
    seq!['"'] + js_body(s) + seq!['"']
}

/// The community of a node path (see [`community_of`]).
pub fn community(path: &str) -> (r: String)
    ensures
        r@ == community_of(path@),
{
    let v = chars_of(path);
    proof {
        lemma_last_dot_bounds(v@);
    }
    match find_last_dot(&v) {
        Some(i) => string_from_chars(&v, 0, i),
        None => {
            assert(v@.subrange(0, v@.len() as int) =~= v@);
            string_from_chars(&v, 0, v.len())
        },
    }
}

/// The visible label of a node path (see [`short_label_of`]).
pub fn short_label(path: &str) -> (r: String)
    ensures
        r@ == short_label_of(path@),
{
    let v = chars_of(path);
    proof {
        lemma_last_dot_bounds(v@);
    }
    assert(v@.subrange(0, v@.len() as int) =~= v@);
    match find_last_dot(&v) {
        Some(i) => {
            let head = string_from_chars(&v, 0, i);
            let hv = chars_of(head.as_str());
            assert(hv@ == v@.take(i as int));
            proof {
                lemma_last_dot_bounds(hv@);
            }
            match find_last_dot(&hv) {
                Some(j) => {
                    assert(v@.subrange(j + 1, v@.len() as int) =~= v@.skip(j + 1));
                    string_from_chars(&v, j + 1, v.len())
                },
                None => string_from_chars(&v, 0, v.len()),
            }
        },
        None => string_from_chars(&v, 0, v.len()),
    }
}

/// Escape a label for a Mermaid quoted node label.
pub fn mermaid_label(s: &str) -> (r: String)
    ensures
        r@ == mermaid_label_of(s@),
{
    let v = chars_of(s);
    let mut out = String::new();
    let mut i: usize = 0;
    while i < v.len()
        invariant
            v@ == s@,
            i <= v.len(),
            out@ == mermaid_label_of(s@.take(i as int)),
        decreases v.len() - i,
    {
        let ch = v[i];
        if ch == '"' {
            out.append("&quot;");
        } else {
            out.push(ch);
        }
        proof {
            assert(s@.take(i + 1).drop_last() =~= s@.take(i as int));
        }
        assert(out@ =~= mermaid_label_of(s@.take(i + 1)));
        i += 1;
    }
    assert(s@.take(s@.len() as int) =~= s@);
    out
}

/// Append `s` as a quoted JSON string literal (see [`js_of`]).
fn push_js(out: &mut String, s: &str)
    ensures
        final(out)@ == old(out)@ + js_of(s@),
{
    let v = chars_of(s);
    let ghost start = out@;
    out.push('"');
    let mut i: usize = 0;
    while i < v.len()
        invariant
            v@ == s@,
            i <= v.len(),
            out@ == start + seq!['"'] + js_body(s@.take(i as int)),
        decreases v.len() - i,
    {
        let ch = v[i];
        let ghost before = out@;
        if ch == '"' {
            out.append("\\\"");
        } else if ch == '\\' {
            out.append("\\\\");
        } else if ch == '\n' {
            out.append("\\n");
        } else if ch == '\r' {
            out.append("\\r");
        } else if ch == '\t' {
            out.append("\\t");
        } else if ch == '<' {
            out.append("\\u003c");
        } else if ch == '/' {
            out.append("\\/");
        } else if (ch as u32) < 0x20 {
            push_unicode_escape(out, ch);
        } else {
            out.push(ch);
        }
        proof {
            assert(s@.take(i + 1).drop_last() =~= s@.take(i as int));
            assert(out@ =~= before + js_char(ch));
        }
        i += 1;
    }
    assert(s@.take(s@.len() as int) =~= s@);
    out.push('"');
    assert(out@ =~= start + js_of(s@));
}

/// Encode a string as a JSON string literal for an inline
/// `<script type="application/json">`: quoted, with the quote, backslash and
/// control characters escaped, and `<` and `/` escaped so the payload can
/// never close the embedding element early.
pub fn js(s: &str) -> (r: String)
    ensures
        r@ == js_of(s@),
{
    let mut out = String::new();
    push_js(&mut out, s);
    out
}

// ---------------------------------------------------------------------------
// Mermaid
// ---------------------------------------------------------------------------

/// The position of the last occurrence of `p` in `s`, or `-1`.
pub open spec fn last_index(s: Seq<Seq<char>>, p: Seq<char>) -> int
    decreases s.len(),
{
    if s.len() == 0 {
        -1
    } else if s.last() == p {
        s.len() - 1
    } else {
        last_index(s.drop_last(), p)
    }
}

proof fn lemma_last_index(s: Seq<Seq<char>>, p: Seq<char>)
    ensures
        -1 <= last_index(s, p) < s.len(),
        s.contains(p) <==> last_index(s, p) >= 0,
        last_index(s, p) >= 0 ==> s[last_index(s, p)] == p,
    decreases s.len(),
{
    if s.len() > 0 {
        lemma_last_index(s.drop_last(), p);
        if s.last() != p {
            if s.contains(p) {
                let k = choose|k: int| 0 <= k < s.len() && s[k] == p;
                assert(s.drop_last()[k] == p);
            }
            if s.drop_last().contains(p) {
                let k = choose|k: int| 0 <= k < s.drop_last().len() && s.drop_last()[k] == p;
                assert(s[k] == p);
            }
        } else {
            assert(s[s.len() - 1] == p);
        }
    }
}

/// The Mermaid id of the node with path `p`: `n` and the position of its last
/// occurrence among the nodes.
pub open spec fn node_id(nodes: Seq<DiagramNode>, p: Seq<char>) -> Seq<char> {
    "n"@ + decimal(last_index(node_paths(nodes), p) as nat)
}

/// The Mermaid line declaring node `n`.
pub open spec fn mermaid_node_line(nodes: Seq<DiagramNode>, n: DiagramNode) -> Seq<char> {
    "  "@ + node_id(nodes, n.path@) + "[\""@ + mermaid_label_of(short_label_of(n.path@)) + "\"]\n"@
}

/// The Mermaid link from `a` to `b` drawn for an edge of `kind`.
pub open spec fn mermaid_link(a: Seq<char>, b: Seq<char>, kind: EdgeKind) -> Seq<char> {
    match kind {
        EdgeKind::Call => a + " --> "@ + b,
        EdgeKind::Read => a + " -. reads .-> "@ + b,
        EdgeKind::Write => a + " -- writes --> "@ + b,
        EdgeKind::Reference => a + " -. ref .-> "@ + b,
    }
}

/// The Mermaid line drawing edge `e`.
pub open spec fn mermaid_edge_line(nodes: Seq<DiagramNode>, e: DiagramEdge) -> Seq<char> {
    "  "@ + mermaid_link(node_id(nodes, e.from@), node_id(nodes, e.to@), e.kind) + "\n"@
}

pub open spec fn mermaid_node_lines(nodes: Seq<DiagramNode>, k: nat) -> Seq<char>
    decreases k,
{
    if k == 0 {
        Seq::empty()
    } else {
        mermaid_node_lines(nodes, (k - 1) as nat) + mermaid_node_line(nodes, nodes[k - 1])
    }
}

pub open spec fn mermaid_edge_lines(nodes: Seq<DiagramNode>, edges: Seq<DiagramEdge>, k: nat) -> Seq<char>
    decreases k,
{
    if k == 0 {
        Seq::empty()
    } else {
        mermaid_edge_lines(nodes, edges, (k - 1) as nat) + mermaid_edge_line(nodes, edges[k - 1])
    }
}

/// The Mermaid `graph LR` body of a diagram: the header, one line per node,
/// then one line per edge.
pub open spec fn mermaid_text(d: Diagram) -> Seq<char> {
    "graph LR\n"@ + mermaid_node_lines(d.nodes@, d.nodes@.len()) + mermaid_edge_lines(
        d.nodes@,
        d.edges@,
        d.edges@.len(),
    )
}

/// Every edge of the diagram joins two of its nodes.
pub open spec fn edges_on_nodes(d: Diagram) -> bool {
    forall|i: int|
        0 <= i < d.edges@.len() ==> node_paths(d.nodes@).contains(#[trigger] d.edges@[i].from@)
            && node_paths(d.nodes@).contains(d.edges@[i].to@)
}

/// The position of the last node with path `p`.
fn find_node(nodes: &Vec<DiagramNode>, p: &str) -> (r: usize)
    requires
        node_paths(nodes@).contains(p@),
    ensures
        r as int == last_index(node_paths(nodes@), p@),
{
    proof {
        lemma_last_index(node_paths(nodes@), p@);
    }
    let mut i = nodes.len();
    assert(node_paths(nodes@).take(i as int) =~= node_paths(nodes@));
    while i > 0
        invariant
            i <= nodes.len(),
            last_index(node_paths(nodes@), p@) == last_index(node_paths(nodes@).take(i as int), p@),
            last_index(node_paths(nodes@), p@) >= 0,
        decreases i,
    {
        assert(node_paths(nodes@).take(i as int).drop_last() =~= node_paths(nodes@).take(i - 1));
        assert(node_paths(nodes@).take(i as int).last() == nodes@[i - 1].path@);
        if str_eq(nodes[i - 1].path.as_str(), p) {
            return i - 1;
        }
        i -= 1;
    }
    i
}

/// Append the Mermaid id of the node with path `p`.
fn push_node_id(out: &mut String, nodes: &Vec<DiagramNode>, p: &str)
    requires
        node_paths(nodes@).contains(p@),
    ensures
        final(out)@ == old(out)@ + node_id(nodes@, p@),
{
    let k = find_node(nodes, p);
    proof {
        reveal_strlit("n");
    }
    out.push('n');
    let k64 = k as u64;
    assert(k64 as nat == last_index(node_paths(nodes@), p@) as nat);
    push_decimal(out, k64);
    assert(final(out)@ =~= old(out)@ + node_id(nodes@, p@));
}

/// Append the Mermaid line declaring node `n`.
fn push_node_line(out: &mut String, nodes: &Vec<DiagramNode>, i: usize)
    requires
        i < nodes@.len(),
    ensures
        final(out)@ == old(out)@ + mermaid_node_line(nodes@, nodes@[i as int]),
{
    let path = nodes[i].path.as_str();
    assert(node_paths(nodes@)[i as int] == path@);
    out.append("  ");
    push_node_id(out, nodes, path);
    out.append("[\"");
    let label = mermaid_label(short_label(path).as_str());
    out.append(label.as_str());
    out.append("\"]\n");
    assert(final(out)@ =~= old(out)@ + mermaid_node_line(nodes@, nodes@[i as int]));
}

/// Append the Mermaid line drawing edge `e`.
fn push_edge_line(out: &mut String, nodes: &Vec<DiagramNode>, e: &DiagramEdge)
    requires
        node_paths(nodes@).contains(e.from@),
        node_paths(nodes@).contains(e.to@),
    ensures
        final(out)@ == old(out)@ + mermaid_edge_line(nodes@, *e),
{
    out.append("  ");
    push_node_id(out, nodes, e.from.as_str());
    match e.kind {
        EdgeKind::Call => out.append(" --> "),
        EdgeKind::Read => out.append(" -. reads .-> "),
        EdgeKind::Write => out.append(" -- writes --> "),
        EdgeKind::Reference => out.append(" -. ref .-> "),
    }
    push_node_id(out, nodes, e.to.as_str());
    out.append("\n");
    assert(final(out)@ =~= old(out)@ + mermaid_edge_line(nodes@, *e));
}

impl Diagram {
    /// Render the diagram as a Mermaid `graph LR` body (no fence). Node ids are
    /// positional so they are always Mermaid-safe; the last two segments of the
    /// path are the quoted label.
    pub fn to_mermaid(&self) -> (r: String)
        requires
            edges_on_nodes(*self),
        ensures
            r@ == mermaid_text(*self),
    {
        let nodes = &self.nodes;
        let edges = &self.edges;
        let mut out = String::new();
        out.append("graph LR\n");
        let mut i: usize = 0;
        while i < nodes.len()
            invariant
                i <= nodes.len(),
                out@ == "graph LR\n"@ + mermaid_node_lines(nodes@, i as nat),
            decreases nodes.len() - i,
        {
            push_node_line(&mut out, nodes, i);
            i += 1;
        }
        let ghost head = out@;
        let mut j: usize = 0;
        while j < edges.len()
            invariant
                j <= edges.len(),
                forall|k: int|
                    0 <= k < edges@.len() ==> node_paths(nodes@).contains(#[trigger] edges@[k].from@)
                        && node_paths(nodes@).contains(edges@[k].to@),
                out@ == head + mermaid_edge_lines(nodes@, edges@, j as nat),
            decreases edges.len() - j,
        {
            assert(node_paths(nodes@).contains(edges@[j as int].from@));
            push_edge_line(&mut out, nodes, &edges[j]);
            j += 1;
        }
        out
    }
}

// ---------------------------------------------------------------------------
// The JSON payload of the canvas renderer
// ---------------------------------------------------------------------------

/// `names` is the sorted, duplicate-free list of the nodes' communities.
pub open spec fn is_community_list(nodes: Seq<DiagramNode>, names: Seq<Seq<char>>) -> bool {
    &&& strictly_sorted(names)
    &&& forall|x: Seq<char>| #[trigger]
        names.contains(x) <==> exists|i: int| 0 <= i < nodes.len() && x == community_of(#[trigger] nodes[i].path@)
}

/// The sorted, duplicate-free list of the nodes' communities.
pub open spec fn community_list(nodes: Seq<DiagramNode>) -> Seq<Seq<char>> {
    choose|names: Seq<Seq<char>>| is_community_list(nodes, names)
}

/// The categorical palette, cycled when there are more communities than
/// colours.
pub open spec fn palette(i: int) -> Seq<char> {
    let k = i % 10;
    if k == 0 {
        "#4E79A7"@
    } else if k == 1 {
        "#F28E2B"@
    } else if k == 2 {
        "#E15759"@
    } else if k == 3 {
        "#76B7B2"@
    } else if k == 4 {
        "#59A14F"@
    } else if k == 5 {
        "#EDC948"@
    } else if k == 6 {
        "#B07AA1"@
    } else if k == 7 {
        "#FF9DA7"@
    } else if k == 8 {
        "#9C755F"@
    } else {
        "#BAB0AC"@
    }
}

/// The colour of the node with path `p`: the palette entry of its community's
/// position among the sorted communities.
pub open spec fn colour_of(nodes: Seq<DiagramNode>, p: Seq<char>) -> Seq<char> {
    palette(last_index(community_list(nodes), community_of(p)))
}

/// The number of edge ends at `p` (a self-loop counts twice).
pub open spec fn degree_of(edges: Seq<DiagramEdge>, p: Seq<char>) -> nat
    decreases edges.len(),
{
    if edges.len() == 0 {
        0
    } else {
        degree_of(edges.drop_last(), p) + (if edges.last().from@ == p { 1nat } else { 0nat }) + (
        if edges.last().to@ == p {
            1nat
        } else {
            0nat
        })
    }
}

pub open spec fn bool_text(b: bool) -> Seq<char> {
    if b {
        "true"@
    } else {
        "false"@
    }
}

/// The `href` member of a node, present only when the node has a page link.
pub open spec fn href_part(h: Option<Seq<char>>) -> Seq<char> {
    match h {
        Some(s) => ",\"href\":"@ + js_of(s),
        None => Seq::empty(),
    }
}

/// The characters of each optional string.
pub open spec fn opt_views(hs: Seq<Option<String>>) -> Seq<Option<Seq<char>>> {
    hs.map_values(|h: Option<String>| opt_view(h))
}

pub open spec fn opt_view(h: Option<String>) -> Option<Seq<char>> {
    match h {
        Some(s) => Some(s@),
        None => None,
    }
}

/// The JSON object of one node: its identity and colour, then its degree,
/// whether it is primary, and its page link.
pub open spec fn node_json(d: Diagram, n: DiagramNode, h: Option<Seq<char>>) -> Seq<char> {
    node_json_head(d, n) + node_json_tail(d, n, h)
}

pub open spec fn node_json_head(d: Diagram, n: DiagramNode) -> Seq<char> {
    "{\"id\":"@ + js_of(n.path@) + ",\"label\":"@ + js_of(short_label_of(n.path@)) + ",\"community\":"@
        + js_of(community_of(n.path@)) + ",\"color\":\""@ + colour_of(d.nodes@, n.path@)
}

pub open spec fn node_json_tail(d: Diagram, n: DiagramNode, h: Option<Seq<char>>) -> Seq<char> {
    "\",\"degree\":"@ + decimal(degree_of(d.edges@, n.path@)) + ",\"primary\":"@ + bool_text(n.primary)
        + href_part(h) + "}"@
}

/// The separator before the item at position `k` of a JSON array.
pub open spec fn sep(k: int) -> Seq<char> {
    if k > 0 {
        ","@
    } else {
        Seq::empty()
    }
}

pub open spec fn node_items(d: Diagram, hrefs: Seq<Option<Seq<char>>>, k: nat) -> Seq<char>
    decreases k,
{
    if k == 0 {
        Seq::empty()
    } else {
        node_items(d, hrefs, (k - 1) as nat) + sep(k - 1) + node_json(d, d.nodes@[k - 1], hrefs[k - 1])
    }
}

/// The JSON object of one edge.
pub open spec fn edge_json(e: DiagramEdge) -> Seq<char> {
    "{\"from\":"@ + js_of(e.from@) + ",\"to\":"@ + js_of(e.to@) + ",\"kind\":\""@ + spec_edge_kind_name(
        e.kind,
    ) + "\"}"@
}

pub open spec fn edge_items(edges: Seq<DiagramEdge>, k: nat) -> Seq<char>
    decreases k,
{
    if k == 0 {
        Seq::empty()
    } else {
        edge_items(edges, (k - 1) as nat) + sep(k - 1) + edge_json(edges[k - 1])
    }
}

/// The legend entry of the community at position `i`.
pub open spec fn legend_json(name: Seq<char>, i: int) -> Seq<char> {
    "{\"name\":"@ + js_of(name) + ",\"color\":\""@ + palette(i) + "\"}"@
}

pub open spec fn legend_items(names: Seq<Seq<char>>, k: nat) -> Seq<char>
    decreases k,
{
    if k == 0 {
        Seq::empty()
    } else {
        legend_items(names, (k - 1) as nat) + sep(k - 1) + legend_json(names[k - 1], k - 1)
    }
}

/// The whole payload: the nodes (with the page links `hrefs`, one per node),
/// the edges, and the community legend.
pub open spec fn json_text(d: Diagram, hrefs: Seq<Option<Seq<char>>>) -> Seq<char> {
    "{\"nodes\":["@ + node_items(d, hrefs, d.nodes@.len()) + "],\"edges\":["@ + edge_items(
        d.edges@,
        d.edges@.len(),
    ) + "],\"communities\":["@ + legend_items(community_list(d.nodes@), community_list(d.nodes@).len())
        + "]}"@
}

/// `out` is one of the values `f` may return for a string with the characters
/// `path`.
pub open spec fn produced_by<F: Fn(&str) -> Option<String>>(f: F, path: Seq<char>, out: Option<String>) -> bool {
    exists|p: &str| p@ == path && #[trigger] f.ensures((p,), out)
}

/// The palette colour at position `i`.
fn palette_colour(i: usize) -> (r: &'static str)
    ensures
        r@ == palette(i as int),
{
    let k = i % 10;
    if k == 0 {
        "#4E79A7"
    } else if k == 1 {
        "#F28E2B"
    } else if k == 2 {
        "#E15759"
    } else if k == 3 {
        "#76B7B2"
    } else if k == 4 {
        "#59A14F"
    } else if k == 5 {
        "#EDC948"
    } else if k == 6 {
        "#B07AA1"
    } else if k == 7 {
        "#FF9DA7"
    } else if k == 8 {
        "#9C755F"
    } else {
        "#BAB0AC"
    }
}

/// The position of the last string equal to `p` in `v`.
fn find_string(v: &Vec<String>, p: &str) -> (r: usize)
    requires
        views(v@).contains(p@),
    ensures
        r as int == last_index(views(v@), p@),
{
    proof {
        lemma_last_index(views(v@), p@);
    }
    let mut i = v.len();
    assert(views(v@).take(i as int) =~= views(v@));
    while i > 0
        invariant
            i <= v.len(),
            last_index(views(v@), p@) == last_index(views(v@).take(i as int), p@),
            last_index(views(v@), p@) >= 0,
        decreases i,
    {
        assert(views(v@).take(i as int).drop_last() =~= views(v@).take(i - 1));
        assert(views(v@).take(i as int).last() == v@[i - 1]@);
        if str_eq(v[i - 1].as_str(), p) {
            return i - 1;
        }
        i -= 1;
    }
    i
}

/// The sorted communities of the nodes.
fn community_names(nodes: &Vec<DiagramNode>) -> (names: Vec<String>)
    ensures
        views(names@) == community_list(nodes@),
        is_community_list(nodes@, views(names@)),
{
    let mut names: Vec<String> = Vec::new();
    let mut i: usize = 0;
    while i < nodes.len()
        invariant
            i <= nodes.len(),
            strictly_sorted(views(names@)),
            forall|x: Seq<char>| #[trigger]
                views(names@).contains(x) <==> exists|k: int|
                    0 <= k < i && x == community_of(#[trigger] nodes@[k].path@),
        decreases nodes.len() - i,
    {
        let c = community(nodes[i].path.as_str());
        insert_sorted(&mut names, c.as_str());
        proof {
            assert forall|x: Seq<char>| #[trigger] views(names@).contains(x) <==> exists|k: int|
                0 <= k < i + 1 && x == community_of(#[trigger] nodes@[k].path@) by {
                if x == c@ {
                    assert(x == community_of(nodes@[i as int].path@));
                }
                if exists|k: int| 0 <= k < i + 1 && x == community_of(#[trigger] nodes@[k].path@) {
                    let k = choose|k: int| 0 <= k < i + 1 && x == community_of(#[trigger] nodes@[k].path@);
                    if k < i {
                        assert(exists|k: int| 0 <= k < i && x == community_of(#[trigger] nodes@[k].path@));
                    }
                }
            }
        }
        i += 1;
    }
    proof {
        assert(is_community_list(nodes@, views(names@)));
        let chosen = community_list(nodes@);
        assert(is_community_list(nodes@, chosen));
        assert forall|x: Seq<char>| views(names@).contains(x) <==> chosen.contains(x) by {
            assert(views(names@).contains(x) <==> chosen.contains(x));
        }
        lemma_sorted_sets_equal(views(names@), chosen);
    }
    names
}

/// The number of edge ends at `p`.
fn degree(edges: &Vec<DiagramEdge>, p: &str) -> (n: u128)
    ensures
        n == degree_of(edges@, p@),
{
    let mut n: u128 = 0;
    let mut i: usize = 0;
    while i < edges.len()
        invariant
            i <= edges.len(),
            n == degree_of(edges@.take(i as int), p@),
            n <= 2 * i,
        decreases edges.len() - i,
    {
        assert(edges@.take(i + 1).drop_last() =~= edges@.take(i as int));
        if str_eq(edges[i].from.as_str(), p) {
            n += 1;
        }
        if str_eq(edges[i].to.as_str(), p) {
            n += 1;
        }
        i += 1;
    }
    assert(edges@.take(edges@.len() as int) =~= edges@);
    n
}

/// Append the identity and colour of node `i`.
#[verifier::rlimit(40)]
fn push_node_head(out: &mut String, d: &Diagram, names: &Vec<String>, i: usize)
    requires
        i < d.nodes@.len(),
        views(names@) == community_list(d.nodes@),
        is_community_list(d.nodes@, views(names@)),
    ensures
        final(out)@ == old(out)@ + node_json_head(*d, d.nodes@[i as int]),
{
    let path = d.nodes[i].path.as_str();
    out.append("{\"id\":");
    push_js(out, path);
    out.append(",\"label\":");
    push_js(out, short_label(path).as_str());
    out.append(",\"community\":");
    let c = community(path);
    push_js(out, c.as_str());
    out.append(",\"color\":\"");
    assert(views(names@).contains(c@)) by {
        assert(c@ == community_of(d.nodes@[i as int].path@));
    }
    let idx = find_string(names, c.as_str());
    out.append(palette_colour(idx));
    assert(final(out)@ =~= old(out)@ + node_json_head(*d, d.nodes@[i as int]));
}

/// Append the degree, primary flag and page link of node `i`.
fn push_node_tail(out: &mut String, d: &Diagram, i: usize, h: &Option<String>)
    requires
        i < d.nodes@.len(),
    ensures
        final(out)@ == old(out)@ + node_json_tail(*d, d.nodes@[i as int], opt_view(*h)),
{
    let n = &d.nodes[i];
    out.append("\",\"degree\":");
    let deg = degree(&d.edges, n.path.as_str());
    push_decimal_wide(out, deg);
    out.append(",\"primary\":");
    if n.primary {
        out.append("true");
    } else {
        out.append("false");
    }
    match h {
        Some(link) => {
            out.append(",\"href\":");
            push_js(out, link.as_str());
        },
        None => {},
    }
    out.append("}");
    assert(final(out)@ =~= old(out)@ + node_json_tail(*d, d.nodes@[i as int], opt_view(*h)));
}

/// Append the JSON object of edge `e`.
fn push_edge_json(out: &mut String, e: &DiagramEdge)
    ensures
        final(out)@ == old(out)@ + edge_json(*e),
{
    out.append("{\"from\":");
    push_js(out, e.from.as_str());
    out.append(",\"to\":");
    push_js(out, e.to.as_str());
    out.append(",\"kind\":\"");
    out.append(e.kind.as_str());
    out.append("\"}");
    assert(final(out)@ =~= old(out)@ + edge_json(*e));
}

/// Append the legend entry of community `name` at position `k`.
fn push_legend_json(out: &mut String, name: &str, k: usize)
    ensures
        final(out)@ == old(out)@ + legend_json(name@, k as int),
{
    out.append("{\"name\":");
    push_js(out, name);
    out.append(",\"color\":\"");
    out.append(palette_colour(k));
    out.append("\"}");
    assert(final(out)@ =~= old(out)@ + legend_json(name@, k as int));
}

/// Append the array separator before the item at position `k`.
fn push_sep(out: &mut String, k: usize)
    ensures
        final(out)@ == old(out)@ + sep(k as int),
{
    if k > 0 {
        out.append(",");
    } else {
        assert(old(out)@ + sep(k as int) =~= old(out)@);
    }
}

impl Diagram {
    /// The JSON payload of the inline renderer, with the page link of each
    /// node given in `hrefs` (one per node, in node order). Each node carries
    /// its label, community colour, degree, whether it is primary and its link;
    /// each edge its kind; a trailing `communities` array drives the legend.
    pub fn json_with_links(&self, hrefs: &Vec<Option<String>>) -> (r: String)
        requires
            hrefs@.len() == self.nodes@.len(),
        ensures
            r@ == json_text(*self, opt_views(hrefs@)),
            script_safe(r@),
    {
        proof {
            lemma_json_text_script_safe(*self, opt_views(hrefs@));
        }
        let names = community_names(&self.nodes);
        let mut out = String::new();
        out.append("{\"nodes\":[");
        let mut i: usize = 0;
        while i < self.nodes.len()
            invariant
                i <= self.nodes.len(),
                hrefs@.len() == self.nodes@.len(),
                views(names@) == community_list(self.nodes@),
                is_community_list(self.nodes@, views(names@)),
                out@ == "{\"nodes\":["@ + node_items(*self, opt_views(hrefs@), i as nat),
            decreases self.nodes.len() - i,
        {
            let ghost before = out@;
            push_sep(&mut out, i);
            push_node_head(&mut out, self, &names, i);
            push_node_tail(&mut out, self, i, &hrefs[i]);
            assert(opt_views(hrefs@)[i as int] == opt_view(hrefs@[i as int]));
            assert(out@ =~= before + sep(i as int) + node_json(*self, self.nodes@[i as int], opt_views(hrefs@)[i as int]));
            i += 1;
        }
        out.append("],\"edges\":[");
        let ghost head = out@;
        let mut j: usize = 0;
        while j < self.edges.len()
            invariant
                j <= self.edges.len(),
                out@ == head + edge_items(self.edges@, j as nat),
            decreases self.edges.len() - j,
        {
            push_sep(&mut out, j);
            push_edge_json(&mut out, &self.edges[j]);
            j += 1;
        }
        out.append("],\"communities\":[");
        let ghost mid = out@;
        let mut k: usize = 0;
        while k < names.len()
            invariant
                k <= names.len(),
                out@ == mid + legend_items(views(names@), k as nat),
            decreases names.len() - k,
        {
            push_sep(&mut out, k);
            push_legend_json(&mut out, names[k].as_str(), k);
            k += 1;
        }
        out.append("]}");
        out
    }
    /// The JSON payload of the inline renderer, linking each node to the page
    /// that `href` gives for its path (no link where it gives `None`).
    pub fn to_json<F: Fn(&str) -> Option<String>>(&self, href: F) -> (r: String)
        requires
            forall|p: &str| #[trigger] href.requires((p,)),
        ensures
            exists|links: Seq<Option<String>>|
                links.len() == self.nodes@.len() && (forall|i: int|
                    0 <= i < links.len() ==> #[trigger] produced_by(href, self.nodes@[i].path@, links[i]))
                    && r@ == json_text(*self, opt_views(links)),
            script_safe(r@),
    {
        let mut links: Vec<Option<String>> = Vec::new();
        let mut i: usize = 0;
        while i < self.nodes.len()
            invariant
                i <= self.nodes.len(),
                links@.len() == i,
                forall|p: &str| #[trigger] href.requires((p,)),
                forall|k: int| 0 <= k < i ==> #[trigger] produced_by(href, self.nodes@[k].path@, links@[k]),
            decreases self.nodes.len() - i,
        {
            let p = self.nodes[i].path.as_str();
            let h = href(p);
            assert(produced_by(href, self.nodes@[i as int].path@, h));
            links.push(h);
            i += 1;
        }
        let r = self.json_with_links(&links);
        assert(links@.len() == self.nodes@.len());
        r
    }
}

// ---------------------------------------------------------------------------
// Laws
// ---------------------------------------------------------------------------

/// Every edge of a computed diagram joins two of its nodes, so it can always
/// be rendered as Mermaid.
pub proof fn lemma_around_edges_on_nodes(d: Diagram, g: Seq<GraphEdge>, seeds: Set<Seq<char>>, depth: nat)
    requires
        is_diagram_around(d, g, seeds, depth),
    ensures
        edges_on_nodes(d),
{
    assert forall|i: int| 0 <= i < d.edges@.len() implies node_paths(d.nodes@).contains(
        #[trigger] d.edges@[i].from@,
    ) && node_paths(d.nodes@).contains(d.edges@[i].to@) by {
        let k = diagram_key(d.edges@[i]);
        assert(diagram_keys(d.edges@)[i] == k);
        assert(diagram_keys(d.edges@).contains(k));
    }
}

/// A deeper diagram around the same seeds keeps every node of a shallower one.
pub proof fn lemma_deeper_keeps_nodes(
    shallow: Diagram,
    deep: Diagram,
    g: Seq<GraphEdge>,
    seeds: Set<Seq<char>>,
    a: nat,
    b: nat,
    p: Seq<char>,
)
    requires
        is_diagram_around(shallow, g, seeds, a),
        is_diagram_around(deep, g, seeds, b),
        a <= b,
        node_paths(shallow.nodes@).contains(p),
    ensures
        node_paths(deep.nodes@).contains(p),
{
    lemma_within_monotone(g, seeds, p, a, b);
}

/// The script-safe literal of any string never holds a `<`, so a payload made
/// of such literals can never close its `<script>` element.
pub proof fn lemma_js_has_no_open_angle(s: Seq<char>)
    ensures
        forall|i: int| 0 <= i < js_of(s).len() ==> #[trigger] js_of(s)[i] != '<',
{
    lemma_js_body_has_no_open_angle(s);
    assert forall|i: int| 0 <= i < js_of(s).len() implies #[trigger] js_of(s)[i] != '<' by {
        if 0 < i < js_of(s).len() - 1 {
            assert(js_of(s)[i] == js_body(s)[i - 1]);
        }
    }
}

proof fn lemma_js_body_has_no_open_angle(s: Seq<char>)
    ensures
        forall|i: int| 0 <= i < js_body(s).len() ==> #[trigger] js_body(s)[i] != '<',
    decreases s.len(),
{
    if s.len() > 0 {
        lemma_js_body_has_no_open_angle(s.drop_last());
        let c = s.last();
        let tail = js_char(c);
        reveal_strlit("\\\"");
        reveal_strlit("\\\\");
        reveal_strlit("\\n");
        reveal_strlit("\\r");
        reveal_strlit("\\t");
        reveal_strlit("\\u003c");
        reveal_strlit("\\/");
        assert forall|j: int| 0 <= j < tail.len() implies #[trigger] tail[j] != '<' by {
            if (c as u32) < 0x20 && c != '\n' && c != '\r' && c != '\t' {
                assert(tail == unicode_escape(c));
            }
        }
        let prev = js_body(s.drop_last());
        assert forall|i: int| 0 <= i < js_body(s).len() implies #[trigger] js_body(s)[i] != '<' by {
            if i < prev.len() {
                assert(js_body(s)[i] == prev[i]);
            } else {
                assert(js_body(s)[i] == tail[i - prev.len()]);
            }
        }
    }
}


/// Safe inside an inline `<script>`: no `<` at all, and every `/` escaped by a
/// `\` right before it, so neither `</script` nor `//` can appear.
pub open spec fn script_safe(s: Seq<char>) -> bool {
    forall|i: int| 0 <= i < s.len() ==> #[trigger] s[i] != '<' && (s[i] == '/' ==> i > 0 && s[i - 1] == '\\')
}

/// No `<` and no `/` at all.
pub open spec fn plain_text(s: Seq<char>) -> bool
    decreases s.len(),
{
    s.len() == 0 || (s[0] != '<' && s[0] != '/' && plain_text(s.drop_first()))
}

proof fn lemma_plain_safe(s: Seq<char>)
    requires
        plain_text(s),
    ensures
        script_safe(s),
        forall|i: int| 0 <= i < s.len() ==> #[trigger] s[i] != '/',
    decreases s.len(),
{
    if s.len() > 0 {
        lemma_plain_safe(s.drop_first());
        assert forall|i: int| 0 <= i < s.len() implies #[trigger] s[i] != '/' && s[i] != '<' by {
            if i > 0 {
                assert(s[i] == s.drop_first()[i - 1]);
            }
        }
    }
}

proof fn lemma_safe_concat(a: Seq<char>, b: Seq<char>)
    requires
        script_safe(a),
        script_safe(b),
    ensures
        script_safe(a + b),
{
    let c = a + b;
    assert forall|i: int| 0 <= i < c.len() implies #[trigger] c[i] != '<' && (c[i] == '/' ==> i > 0 && c[i - 1]
        == '\\') by {
        if i >= a.len() {
            let j = i - a.len();
            assert(c[i] == b[j]);
            if b[j] == '/' {
                assert(c[i - 1] == b[j - 1]);
            }
        } else {
            assert(c[i] == a[i]);
            if a[i] == '/' {
                assert(c[i - 1] == a[i - 1]);
            }
        }
    }
}

proof fn lemma_lit_safe(s: Seq<char>)
    requires
        plain_text(s),
    ensures
        script_safe(s),
{
    lemma_plain_safe(s);
}

proof fn lemma_digit_plain(d: nat)
    requires
        d < 10,
    ensures
        digit(d) != '<',
        digit(d) != '/',
{
    assert(((48 + d) as char) as u32 == 48 + d);
}

proof fn lemma_decimal_safe(n: nat)
    ensures
        script_safe(decimal(n)),
    decreases n,
{
    if n < 10 {
        lemma_digit_plain(n);
        assert(decimal(n) =~= seq![digit(n)]);
    } else {
        lemma_decimal_safe(n / 10);
        lemma_digit_plain(n % 10);
        let t = seq![digit(n % 10)];
        assert(script_safe(t));
        lemma_safe_concat(decimal(n / 10), t);
        assert(decimal(n) =~= decimal(n / 10) + t);
    }
}

proof fn lemma_hex_plain(d: nat)
    requires
        d < 16,
    ensures
        hex_lower(d) != '<',
        hex_lower(d) != '/',
{
    if d < 10 {
        lemma_digit_plain(d);
    } else {
        assert(((87 + d) as char) as u32 == 87 + d);
    }
}

proof fn lemma_js_char_safe(c: char)
    ensures
        script_safe(js_char(c)),
{
    reveal_strlit("\\\"");
    reveal_strlit("\\\\");
    reveal_strlit("\\n");
    reveal_strlit("\\r");
    reveal_strlit("\\t");
    reveal_strlit("\\u003c");
    reveal_strlit("\\/");
    reveal_with_fuel(plain_text, 8);
    let t = js_char(c);
    if c == '/' {
        assert(t[0] == '\\' && t[1] == '/');
    } else if c == '"' || c == '\\' || c == '\n' || c == '\r' || c == '\t' || c == '<' {
        lemma_plain_safe(t);
    } else if (c as u32) < 0x20 {
        lemma_hex_plain((c as nat) / 16);
        lemma_hex_plain((c as nat) % 16);
        lemma_plain_safe(t);
    } else {
        assert(t =~= seq![c]);
    }
}

proof fn lemma_js_body_safe(s: Seq<char>)
    ensures
        script_safe(js_body(s)),
    decreases s.len(),
{
    if s.len() > 0 {
        lemma_js_body_safe(s.drop_last());
        lemma_js_char_safe(s.last());
        lemma_safe_concat(js_body(s.drop_last()), js_char(s.last()));
    }
}

proof fn lemma_js_of_safe(s: Seq<char>)
    ensures
        script_safe(js_of(s)),
{
    lemma_js_body_safe(s);
    let q = seq!['"'];
    assert(script_safe(q));
    lemma_safe_concat(q, js_body(s));
    lemma_safe_concat(q + js_body(s), q);
}

proof fn lemma_palette_safe(i: int)
    ensures
        script_safe(palette(i)),
{
    reveal_strlit("#4E79A7");
    reveal_strlit("#F28E2B");
    reveal_strlit("#E15759");
    reveal_strlit("#76B7B2");
    reveal_strlit("#59A14F");
    reveal_strlit("#EDC948");
    reveal_strlit("#B07AA1");
    reveal_strlit("#FF9DA7");
    reveal_strlit("#9C755F");
    reveal_strlit("#BAB0AC");
    reveal_with_fuel(plain_text, 8);
    lemma_plain_safe(palette(i));
}

proof fn lemma_node_safe(d: Diagram, n: DiagramNode, h: Option<Seq<char>>)
    ensures
        script_safe(node_json(d, n, h)),
{
    reveal_strlit("{\"id\":");
    reveal_strlit(",\"label\":");
    reveal_strlit(",\"community\":");
    reveal_strlit(",\"color\":\"");
    reveal_strlit("\",\"degree\":");
    reveal_strlit(",\"primary\":");
    reveal_strlit(",\"href\":");
    reveal_strlit("true");
    reveal_strlit("false");
    reveal_strlit("}");
    reveal_with_fuel(plain_text, 16);
    lemma_lit_safe("{\"id\":"@);
    lemma_lit_safe(",\"label\":"@);
    lemma_lit_safe(",\"community\":"@);
    lemma_lit_safe(",\"color\":\""@);
    lemma_lit_safe("\",\"degree\":"@);
    lemma_lit_safe(",\"primary\":"@);
    lemma_lit_safe(",\"href\":"@);
    lemma_lit_safe("true"@);
    lemma_lit_safe("false"@);
    lemma_lit_safe("}"@);
    lemma_js_of_safe(n.path@);
    lemma_js_of_safe(short_label_of(n.path@));
    lemma_js_of_safe(community_of(n.path@));
    lemma_palette_safe(last_index(community_list(d.nodes@), community_of(n.path@)));
    lemma_decimal_safe(degree_of(d.edges@, n.path@));
    let h1 = "{\"id\":"@ + js_of(n.path@);
    lemma_safe_concat("{\"id\":"@, js_of(n.path@));
    lemma_safe_concat(h1, ",\"label\":"@);
    lemma_safe_concat(h1 + ",\"label\":"@, js_of(short_label_of(n.path@)));
    let h2 = h1 + ",\"label\":"@ + js_of(short_label_of(n.path@));
    lemma_safe_concat(h2, ",\"community\":"@);
    lemma_safe_concat(h2 + ",\"community\":"@, js_of(community_of(n.path@)));
    let h3 = h2 + ",\"community\":"@ + js_of(community_of(n.path@));
    lemma_safe_concat(h3, ",\"color\":\""@);
    lemma_safe_concat(h3 + ",\"color\":\""@, colour_of(d.nodes@, n.path@));
    assert(node_json_head(d, n) == h3 + ",\"color\":\""@ + colour_of(d.nodes@, n.path@));
    let t1 = "\",\"degree\":"@ + decimal(degree_of(d.edges@, n.path@));
    lemma_safe_concat("\",\"degree\":"@, decimal(degree_of(d.edges@, n.path@)));
    lemma_safe_concat(t1, ",\"primary\":"@);
    lemma_safe_concat(t1 + ",\"primary\":"@, bool_text(n.primary));
    let t2 = t1 + ",\"primary\":"@ + bool_text(n.primary);
    match h {
        Some(x) => {
            lemma_js_of_safe(x);
            lemma_safe_concat(",\"href\":"@, js_of(x));
        },
        None => {},
    }
    assert(script_safe(href_part(h)));
    lemma_safe_concat(t2, href_part(h));
    lemma_safe_concat(t2 + href_part(h), "}"@);
    assert(node_json_tail(d, n, h) == t2 + href_part(h) + "}"@);
    lemma_safe_concat(node_json_head(d, n), node_json_tail(d, n, h));
}

proof fn lemma_sep_safe(k: int)
    ensures
        script_safe(sep(k)),
{
    reveal_strlit(",");
    reveal_with_fuel(plain_text, 2);
    lemma_lit_safe(","@);
}

proof fn lemma_node_items_safe(d: Diagram, hrefs: Seq<Option<Seq<char>>>, k: nat)
    ensures
        script_safe(node_items(d, hrefs, k)),
    decreases k,
{
    if k > 0 {
        lemma_node_items_safe(d, hrefs, (k - 1) as nat);
        lemma_sep_safe(k - 1);
        lemma_node_safe(d, d.nodes@[k - 1], hrefs[k - 1]);
        lemma_safe_concat(node_items(d, hrefs, (k - 1) as nat), sep(k - 1));
        lemma_safe_concat(
            node_items(d, hrefs, (k - 1) as nat) + sep(k - 1),
            node_json(d, d.nodes@[k - 1], hrefs[k - 1]),
        );
    }
}

proof fn lemma_edge_safe(e: DiagramEdge)
    ensures
        script_safe(edge_json(e)),
{
    reveal_strlit("{\"from\":");
    reveal_strlit(",\"to\":");
    reveal_strlit(",\"kind\":\"");
    reveal_strlit("\"}");
    reveal_strlit("call");
    reveal_strlit("read");
    reveal_strlit("write");
    reveal_strlit("reference");
    reveal_with_fuel(plain_text, 12);
    lemma_lit_safe("{\"from\":"@);
    lemma_lit_safe(",\"to\":"@);
    lemma_lit_safe(",\"kind\":\""@);
    lemma_lit_safe("\"}"@);
    lemma_lit_safe(spec_edge_kind_name(e.kind));
    lemma_js_of_safe(e.from@);
    lemma_js_of_safe(e.to@);
    let a = "{\"from\":"@ + js_of(e.from@);
    lemma_safe_concat("{\"from\":"@, js_of(e.from@));
    lemma_safe_concat(a, ",\"to\":"@);
    lemma_safe_concat(a + ",\"to\":"@, js_of(e.to@));
    let b = a + ",\"to\":"@ + js_of(e.to@);
    lemma_safe_concat(b, ",\"kind\":\""@);
    lemma_safe_concat(b + ",\"kind\":\""@, spec_edge_kind_name(e.kind));
    lemma_safe_concat(b + ",\"kind\":\""@ + spec_edge_kind_name(e.kind), "\"}"@);
}

proof fn lemma_edge_items_safe(edges: Seq<DiagramEdge>, k: nat)
    ensures
        script_safe(edge_items(edges, k)),
    decreases k,
{
    if k > 0 {
        lemma_edge_items_safe(edges, (k - 1) as nat);
        lemma_sep_safe(k - 1);
        lemma_edge_safe(edges[k - 1]);
        lemma_safe_concat(edge_items(edges, (k - 1) as nat), sep(k - 1));
        lemma_safe_concat(edge_items(edges, (k - 1) as nat) + sep(k - 1), edge_json(edges[k - 1]));
    }
}

proof fn lemma_legend_items_safe(names: Seq<Seq<char>>, k: nat)
    ensures
        script_safe(legend_items(names, k)),
    decreases k,
{
    if k > 0 {
        lemma_legend_items_safe(names, (k - 1) as nat);
        lemma_sep_safe(k - 1);
        reveal_strlit("{\"name\":");
        reveal_strlit(",\"color\":\"");
        reveal_strlit("\"}");
        reveal_with_fuel(plain_text, 12);
        lemma_lit_safe("{\"name\":"@);
        lemma_lit_safe(",\"color\":\""@);
        lemma_lit_safe("\"}"@);
        let name = names[k - 1];
        lemma_js_of_safe(name);
        lemma_palette_safe(k - 1);
        let a = "{\"name\":"@ + js_of(name);
        lemma_safe_concat("{\"name\":"@, js_of(name));
        lemma_safe_concat(a, ",\"color\":\""@);
        lemma_safe_concat(a + ",\"color\":\""@, palette(k - 1));
        lemma_safe_concat(a + ",\"color\":\""@ + palette(k - 1), "\"}"@);
        lemma_safe_concat(legend_items(names, (k - 1) as nat), sep(k - 1));
        lemma_safe_concat(legend_items(names, (k - 1) as nat) + sep(k - 1), legend_json(name, k - 1));
    }
}

/// The diagram payload is safe inside an inline `<script>`, whatever the
/// paths and page links: it holds no `<` (so never `</script`), and every `/`
/// is escaped as `\/` (so never `//`, as in `http://`).
pub proof fn lemma_json_text_script_safe(d: Diagram, hrefs: Seq<Option<Seq<char>>>)
    ensures
        script_safe(json_text(d, hrefs)),
        forall|i: int| 0 <= i < json_text(d, hrefs).len() ==> #[trigger] json_text(d, hrefs)[i] != '<',
        forall|i: int|
            0 <= i < json_text(d, hrefs).len() - 1 ==> !(#[trigger] json_text(d, hrefs)[i] == '/' && json_text(
                d,
                hrefs,
            )[i + 1] == '/'),
{
    reveal_strlit("{\"nodes\":[");
    reveal_strlit("],\"edges\":[");
    reveal_strlit("],\"communities\":[");
    reveal_strlit("]}");
    reveal_with_fuel(plain_text, 20);
    lemma_lit_safe("{\"nodes\":["@);
    lemma_lit_safe("],\"edges\":["@);
    lemma_lit_safe("],\"communities\":["@);
    lemma_lit_safe("]}"@);
    let ni = node_items(d, hrefs, d.nodes@.len());
    let ei = edge_items(d.edges@, d.edges@.len());
    let li = legend_items(community_list(d.nodes@), community_list(d.nodes@).len());
    lemma_node_items_safe(d, hrefs, d.nodes@.len());
    lemma_edge_items_safe(d.edges@, d.edges@.len());
    lemma_legend_items_safe(community_list(d.nodes@), community_list(d.nodes@).len());
    let a = "{\"nodes\":["@ + ni;
    lemma_safe_concat("{\"nodes\":["@, ni);
    lemma_safe_concat(a, "],\"edges\":["@);
    lemma_safe_concat(a + "],\"edges\":["@, ei);
    let b = a + "],\"edges\":["@ + ei;
    lemma_safe_concat(b, "],\"communities\":["@);
    lemma_safe_concat(b + "],\"communities\":["@, li);
    lemma_safe_concat(b + "],\"communities\":["@ + li, "]}"@);
    let t = json_text(d, hrefs);
    assert(t == b + "],\"communities\":["@ + li + "]}"@);
    assert forall|i: int| 0 <= i < t.len() - 1 implies !(#[trigger] t[i] == '/' && t[i + 1] == '/') by {
        if t[i + 1] == '/' {
            assert(t[i] == '\\');
        }
    }
}


/// Two key-sorted edge lists with the same keys are the same list of keys.
proof fn lemma_sorted_keys_equal(a: Seq<EdgeKey>, b: Seq<EdgeKey>)
    requires
        keys_sorted(a),
        keys_sorted(b),
        forall|x: EdgeKey| a.contains(x) <==> b.contains(x),
    ensures
        a == b,
    decreases a.len(),
{
    if a.len() == 0 {
        if b.len() > 0 {
            assert(b.contains(b[0]));
        }
        assert(a =~= b);
    } else if b.len() == 0 {
        assert(a.contains(a[0]));
    } else {
        assert(a.contains(a[0]));
        assert(b.contains(b[0]));
        let ia = choose|i: int| 0 <= i < a.len() && a[i] == b[0];
        let ib = choose|i: int| 0 <= i < b.len() && b[i] == a[0];
        if a[0] != b[0] {
            assert(ib > 0 && ia > 0);
            assert(key_lt(b[0], b[ib]));
            assert(key_lt(a[0], a[ia]));
            lemma_key_lt_transitive(a[0], b[0], a[0]);
            lemma_key_lt_irreflexive(a[0]);
        }
        let a1 = a.drop_first();
        let b1 = b.drop_first();
        assert forall|x: EdgeKey| a1.contains(x) <==> b1.contains(x) by {
            if a1.contains(x) {
                let k = choose|k: int| 0 <= k < a1.len() && a1[k] == x;
                assert(a[k + 1] == x);
                assert(key_lt(a[0], x));
                lemma_key_lt_irreflexive(x);
                assert(b.contains(x));
                let m = choose|m: int| 0 <= m < b.len() && b[m] == x;
                assert(m != 0);
                assert(b1[m - 1] == x);
            }
            if b1.contains(x) {
                let k = choose|k: int| 0 <= k < b1.len() && b1[k] == x;
                assert(b[k + 1] == x);
                assert(key_lt(b[0], x));
                lemma_key_lt_irreflexive(x);
                assert(a.contains(x));
                let m = choose|m: int| 0 <= m < a.len() && a[m] == x;
                assert(m != 0);
                assert(a1[m - 1] == x);
            }
        }
        lemma_sorted_keys_equal(a1, b1);
        assert(a =~= seq![a[0]] + a1);
        assert(b =~= seq![b[0]] + b1);
    }
}

proof fn lemma_same_keys_same_links(g1: Seq<GraphEdge>, g2: Seq<GraphEdge>)
    requires
        forall|k: EdgeKey| graph_keys(g1).contains(k) ==> graph_keys(g2).contains(k),
    ensures
        forall|p: Seq<char>| is_endpoint(g1, p) ==> is_endpoint(g2, p),
        forall|a: Seq<char>, b: Seq<char>| linked(g1, a, b) ==> linked(g2, a, b),
{
    assert forall|p: Seq<char>| is_endpoint(g1, p) implies is_endpoint(g2, p) by {
        let i = choose|i: int| 0 <= i < g1.len() && (#[trigger] g1[i].from@ == p || g1[i].to@ == p);
        assert(graph_keys(g1)[i] == graph_key(g1[i]));
        assert(graph_keys(g1).contains(graph_key(g1[i])));
        let j = choose|j: int| 0 <= j < graph_keys(g2).len() && graph_keys(g2)[j] == graph_key(g1[i]);
        assert(graph_keys(g2)[j] == graph_key(g2[j]));
        assert(g2[j].from@ == p || g2[j].to@ == p);
    }
    assert forall|a: Seq<char>, b: Seq<char>| linked(g1, a, b) implies linked(g2, a, b) by {
        let i = choose|i: int|
            0 <= i < g1.len() && ((#[trigger] g1[i].from@ == a && g1[i].to@ == b) || (g1[i].from@ == b
                && g1[i].to@ == a));
        assert(graph_keys(g1)[i] == graph_key(g1[i]));
        assert(graph_keys(g1).contains(graph_key(g1[i])));
        let j = choose|j: int| 0 <= j < graph_keys(g2).len() && graph_keys(g2)[j] == graph_key(g1[i]);
        assert(graph_keys(g2)[j] == graph_key(g2[j]));
        assert((g2[j].from@ == a && g2[j].to@ == b) || (g2[j].from@ == b && g2[j].to@ == a));
    }
}

proof fn lemma_same_keys_same_layer(g1: Seq<GraphEdge>, g2: Seq<GraphEdge>, seeds: Set<Seq<char>>, d: nat)
    requires
        forall|k: EdgeKey| graph_keys(g1).contains(k) <==> graph_keys(g2).contains(k),
    ensures
        layer(g1, seeds, d) == layer(g2, seeds, d),
    decreases d,
{
    lemma_same_keys_same_links(g1, g2);
    lemma_same_keys_same_links(g2, g1);
    if d > 0 {
        lemma_same_keys_same_layer(g1, g2, seeds, (d - 1) as nat);
    }
    assert(layer(g1, seeds, d) =~= layer(g2, seeds, d));
}

/// The diagram around seeds does not depend on the order or repetition of the
/// graph's edges: two graphs with the same `(from, to, kind)` edges give the
/// same nodes (with the same primary marks) and the same edges.
pub proof fn lemma_around_ignores_edge_order(
    d1: Diagram,
    d2: Diagram,
    g1: Seq<GraphEdge>,
    g2: Seq<GraphEdge>,
    seeds: Set<Seq<char>>,
    depth: nat,
)
    requires
        forall|k: EdgeKey| graph_keys(g1).contains(k) <==> graph_keys(g2).contains(k),
        is_diagram_around(d1, g1, seeds, depth),
        is_diagram_around(d2, g2, seeds, depth),
    ensures
        node_paths(d1.nodes@) == node_paths(d2.nodes@),
        forall|i: int| 0 <= i < d1.nodes@.len() ==> (#[trigger] d1.nodes@[i]).primary == d2.nodes@[i].primary,
        diagram_keys(d1.edges@) == diagram_keys(d2.edges@),
{
    lemma_same_keys_same_layer(g1, g2, seeds, depth);
    lemma_same_keys_same_layer(g1, g2, seeds, 0);
    lemma_sorted_sets_equal(node_paths(d1.nodes@), node_paths(d2.nodes@));
    lemma_sorted_keys_equal(diagram_keys(d1.edges@), diagram_keys(d2.edges@));
    assert forall|i: int| 0 <= i < d1.nodes@.len() implies (#[trigger] d1.nodes@[i]).primary == d2.nodes@[i].primary by {
        assert(node_paths(d1.nodes@)[i] == d1.nodes@[i].path@);
        assert(node_paths(d2.nodes@)[i] == d2.nodes@[i].path@);
    }
}


/// `x` placed into the ascending list `s` before the first greater element.
pub open spec fn insert_sorted_text(s: Seq<Seq<char>>, x: Seq<char>) -> Seq<Seq<char>>
    decreases s.len(),
{
    if s.len() == 0 {
        Seq::empty().push(x)
    } else if seq_lt(x, s[0]) {
        Seq::empty().push(x) + s
    } else {
        Seq::empty().push(s[0]) + insert_sorted_text(s.drop_first(), x)
    }
}

proof fn lemma_insert_sorted_text(s: Seq<Seq<char>>, x: Seq<char>)
    requires
        strictly_sorted(s),
        !s.contains(x),
    ensures
        strictly_sorted(insert_sorted_text(s, x)),
        forall|y: Seq<char>| #[trigger] insert_sorted_text(s, x).contains(y) <==> (s.contains(y) || y == x),
    decreases s.len(),
{
    let r = insert_sorted_text(s, x);
    if s.len() == 0 {
        assert(r[0] == x);
        assert forall|y: Seq<char>| #[trigger] r.contains(y) <==> (s.contains(y) || y == x) by {
            if r.contains(y) {
                let k = choose|k: int| 0 <= k < r.len() && r[k] == y;
            }
        }
    } else if seq_lt(x, s[0]) {
        assert forall|i: int, j: int| 0 <= i < j < r.len() implies seq_lt(#[trigger] r[i], #[trigger] r[j]) by {
            if i == 0 {
                assert(r[j] == s[j - 1]);
                if j - 1 > 0 {
                    lemma_seq_lt_transitive(x, s[0], s[j - 1]);
                }
            } else {
                assert(r[i] == s[i - 1] && r[j] == s[j - 1]);
            }
        }
        assert forall|y: Seq<char>| #[trigger] r.contains(y) <==> (s.contains(y) || y == x) by {
            if r.contains(y) {
                let k = choose|k: int| 0 <= k < r.len() && r[k] == y;
                if k > 0 {
                    assert(s[k - 1] == y);
                }
            }
            if s.contains(y) {
                let k = choose|k: int| 0 <= k < s.len() && s[k] == y;
                assert(r[k + 1] == y);
            }
            if y == x {
                assert(r[0] == y);
            }
        }
    } else {
        let t = s.drop_first();
        assert(s.contains(s[0]));
        lemma_seq_lt_total(x, s[0]);
        assert(seq_lt(s[0], x));
        assert forall|i: int, j: int| 0 <= i < j < t.len() implies seq_lt(#[trigger] t[i], #[trigger] t[j]) by {
            assert(t[i] == s[i + 1] && t[j] == s[j + 1]);
        }
        assert(!t.contains(x)) by {
            if t.contains(x) {
                let k = choose|k: int| 0 <= k < t.len() && t[k] == x;
                assert(s[k + 1] == x);
            }
        }
        lemma_insert_sorted_text(t, x);
        let rt = insert_sorted_text(t, x);
        assert forall|i: int, j: int| 0 <= i < j < r.len() implies seq_lt(#[trigger] r[i], #[trigger] r[j]) by {
            if i == 0 {
                assert(r[j] == rt[j - 1]);
                assert(rt.contains(rt[j - 1]));
                if rt[j - 1] != x {
                    let k = choose|k: int| 0 <= k < t.len() && t[k] == rt[j - 1];
                    assert(s[k + 1] == t[k]);
                }
            } else {
                assert(r[i] == rt[i - 1] && r[j] == rt[j - 1]);
            }
        }
        assert forall|y: Seq<char>| #[trigger] r.contains(y) <==> (s.contains(y) || y == x) by {
            if r.contains(y) {
                let k = choose|k: int| 0 <= k < r.len() && r[k] == y;
                if k > 0 {
                    assert(rt[k - 1] == y);
                    assert(rt.contains(y));
                    if t.contains(y) {
                        let m = choose|m: int| 0 <= m < t.len() && t[m] == y;
                        assert(s[m + 1] == y);
                    }
                }
            }
            if s.contains(y) {
                let k = choose|k: int| 0 <= k < s.len() && s[k] == y;
                if k > 0 {
                    assert(t[k - 1] == y);
                    assert(rt.contains(y));
                    let m = choose|m: int| 0 <= m < rt.len() && rt[m] == y;
                    assert(r[m + 1] == y);
                } else {
                    assert(r[0] == y);
                }
            }
            if y == x {
                assert(rt.contains(y));
                let m = choose|m: int| 0 <= m < rt.len() && rt[m] == y;
                assert(r[m + 1] == y);
            }
        }
    }
}

/// The sorted, duplicate-free communities of the first `n` nodes.
pub open spec fn communities_upto(nodes: Seq<DiagramNode>, n: int) -> Seq<Seq<char>>
    decreases n,
{
    if n <= 0 {
        Seq::empty()
    } else {
        let prev = communities_upto(nodes, n - 1);
        let c = community_of(nodes[n - 1].path@);
        if prev.contains(c) {
            prev
        } else {
            insert_sorted_text(prev, c)
        }
    }
}

proof fn lemma_communities_upto(nodes: Seq<DiagramNode>, n: int)
    requires
        0 <= n <= nodes.len(),
    ensures
        strictly_sorted(communities_upto(nodes, n)),
        forall|x: Seq<char>| #[trigger] communities_upto(nodes, n).contains(x) <==> exists|i: int|
            0 <= i < n && x == community_of(#[trigger] nodes[i].path@),
    decreases n,
{
    if n > 0 {
        lemma_communities_upto(nodes, n - 1);
        let prev = communities_upto(nodes, n - 1);
        let c = community_of(nodes[n - 1].path@);
        if !prev.contains(c) {
            lemma_insert_sorted_text(prev, c);
        }
        assert forall|x: Seq<char>| #[trigger] communities_upto(nodes, n).contains(x) <==> exists|i: int|
            0 <= i < n && x == community_of(#[trigger] nodes[i].path@) by {
            if x == c {
                assert(0 <= n - 1 < n && x == community_of(nodes[n - 1].path@));
            }
            if exists|i: int| 0 <= i < n && x == community_of(#[trigger] nodes[i].path@) {
                let i = choose|i: int| 0 <= i < n && x == community_of(#[trigger] nodes[i].path@);
                if i < n - 1 {
                    assert(prev.contains(x));
                }
            }
        }
    }
}

/// The legend of a diagram's payload lists each community of its nodes once, in
/// ascending order, and each node is coloured with the palette entry of its
/// community's position in that list.
pub proof fn lemma_community_colours(nodes: Seq<DiagramNode>)
    ensures
        is_community_list(nodes, community_list(nodes)),
        forall|i: int|
            0 <= i < nodes.len() ==> {
                let k = last_index(community_list(nodes), community_of(#[trigger] nodes[i].path@));
                &&& 0 <= k < community_list(nodes).len()
                &&& community_list(nodes)[k] == community_of(nodes[i].path@)
                &&& colour_of(nodes, nodes[i].path@) == palette(k)
            },
{
    lemma_communities_upto(nodes, nodes.len() as int);
    assert(is_community_list(nodes, communities_upto(nodes, nodes.len() as int)));
    let cl = community_list(nodes);
    assert(is_community_list(nodes, cl));
    assert forall|i: int| 0 <= i < nodes.len() implies {
        let k = last_index(cl, community_of(#[trigger] nodes[i].path@));
        &&& 0 <= k < cl.len()
        &&& cl[k] == community_of(nodes[i].path@)
        &&& colour_of(nodes, nodes[i].path@) == palette(k)
    } by {
        let c = community_of(nodes[i].path@);
        assert(cl.contains(c));
        lemma_last_index(cl, c);
    }
}


/// How many nodes have path `x`.
pub open spec fn path_hits(nodes: Seq<DiagramNode>, x: Seq<char>) -> nat
    decreases nodes.len(),
{
    if nodes.len() == 0 {
        0
    } else {
        path_hits(nodes.drop_last(), x) + if nodes.last().path@ == x {
            1nat
        } else {
            0nat
        }
    }
}

/// The degrees of all nodes, added up.
pub open spec fn degree_total(nodes: Seq<DiagramNode>, edges: Seq<DiagramEdge>) -> nat
    decreases nodes.len(),
{
    if nodes.len() == 0 {
        0
    } else {
        degree_total(nodes.drop_last(), edges) + degree_of(edges, nodes.last().path@)
    }
}

/// No two nodes share a path.
pub open spec fn distinct_paths(nodes: Seq<DiagramNode>) -> bool {
    forall|i: int, j: int| 0 <= i < j < nodes.len() ==> (#[trigger] nodes[i]).path@ != (#[trigger] nodes[j]).path@
}

proof fn lemma_degree_total_push(nodes: Seq<DiagramNode>, edges: Seq<DiagramEdge>, e: DiagramEdge)
    ensures
        degree_total(nodes, edges.push(e)) == degree_total(nodes, edges) + path_hits(nodes, e.from@) + path_hits(
            nodes,
            e.to@,
        ),
    decreases nodes.len(),
{
    if nodes.len() > 0 {
        lemma_degree_total_push(nodes.drop_last(), edges, e);
        assert(edges.push(e).drop_last() =~= edges);
    }
}

proof fn lemma_path_hits_one(nodes: Seq<DiagramNode>, x: Seq<char>)
    requires
        distinct_paths(nodes),
    ensures
        node_paths(nodes).contains(x) ==> path_hits(nodes, x) == 1,
        !node_paths(nodes).contains(x) ==> path_hits(nodes, x) == 0,
    decreases nodes.len(),
{
    if nodes.len() > 0 {
        let d = nodes.drop_last();
        assert(distinct_paths(d)) by {
            assert forall|i: int, j: int| 0 <= i < j < d.len() implies (#[trigger] d[i]).path@ != (#[trigger] d[j]).path@ by {
                assert(d[i] == nodes[i] && d[j] == nodes[j]);
            }
        }
        lemma_path_hits_one(d, x);
        if node_paths(d).contains(x) {
            let k = choose|k: int| 0 <= k < node_paths(d).len() && node_paths(d)[k] == x;
            assert(nodes[k].path@ == x);
            assert(nodes[nodes.len() - 1].path@ != nodes[k].path@);
            assert(node_paths(nodes).contains(x)) by {
                assert(node_paths(nodes)[k] == x);
            }
        }
        if node_paths(nodes).contains(x) {
            let k = choose|k: int| 0 <= k < node_paths(nodes).len() && node_paths(nodes)[k] == x;
            if k < d.len() {
                assert(node_paths(d)[k] == x);
            } else {
                assert(nodes.last().path@ == x);
            }
        } else {
            if nodes.last().path@ == x {
                assert(node_paths(nodes)[nodes.len() - 1] == x);
            }
            if node_paths(d).contains(x) {
                let k = choose|k: int| 0 <= k < node_paths(d).len() && node_paths(d)[k] == x;
                assert(node_paths(nodes)[k] == x);
            }
        }
    }
}

/// Every edge counts once at each of its two ends: where every edge joins two
/// of the nodes and no two nodes share a path, the nodes' degrees add up to
/// twice the number of edges.
pub proof fn lemma_degrees_sum_to_twice_edges(nodes: Seq<DiagramNode>, edges: Seq<DiagramEdge>)
    requires
        distinct_paths(nodes),
        forall|i: int|
            0 <= i < edges.len() ==> node_paths(nodes).contains(#[trigger] edges[i].from@) && node_paths(
                nodes,
            ).contains(edges[i].to@),
    ensures
        degree_total(nodes, edges) == 2 * edges.len(),
    decreases edges.len(),
{
    if edges.len() == 0 {
        lemma_degree_total_zero(nodes);
        assert(edges =~= Seq::<DiagramEdge>::empty());
    } else {
        let d = edges.drop_last();
        let e = edges.last();
        assert forall|i: int| 0 <= i < d.len() implies node_paths(nodes).contains(#[trigger] d[i].from@)
            && node_paths(nodes).contains(d[i].to@) by {
            assert(d[i] == edges[i]);
        }
        lemma_degrees_sum_to_twice_edges(nodes, d);
        assert(edges =~= d.push(e));
        lemma_degree_total_push(nodes, d, e);
        assert(e == edges[edges.len() - 1]);
        assert(node_paths(nodes).contains(edges[edges.len() - 1].from@));
        assert(node_paths(nodes).contains(e.to@));
        lemma_path_hits_one(nodes, e.from@);
        lemma_path_hits_one(nodes, e.to@);
    }
}

proof fn lemma_degree_total_zero(nodes: Seq<DiagramNode>)
    ensures
        degree_total(nodes, Seq::empty()) == 0,
    decreases nodes.len(),
{
    if nodes.len() > 0 {
        lemma_degree_total_zero(nodes.drop_last());
    }
}

/// A node at either end of some edge has a degree of at least one; in
/// particular a node that is only ever the target of edges (a pure callee, a
/// channel that is only read) is not drawn as isolated.
pub proof fn lemma_degree_counts_both_ends(edges: Seq<DiagramEdge>, p: Seq<char>, i: int)
    requires
        0 <= i < edges.len(),
        edges[i].from@ == p || edges[i].to@ == p,
    ensures
        degree_of(edges, p) >= 1,
    decreases edges.len(),
{
    if i < edges.len() - 1 {
        assert(edges.drop_last()[i] == edges[i]);
        lemma_degree_counts_both_ends(edges.drop_last(), p, i);
    }
}

/// A computed diagram's node degrees add up to twice its number of edges.
pub proof fn lemma_diagram_degrees(d: Diagram, g: Seq<GraphEdge>, seeds: Set<Seq<char>>, depth: nat)
    requires
        is_diagram_around(d, g, seeds, depth),
    ensures
        degree_total(d.nodes@, d.edges@) == 2 * d.edges@.len(),
{
    lemma_around_edges_on_nodes(d, g, seeds, depth);
    assert(distinct_paths(d.nodes@)) by {
        assert forall|i: int, j: int| 0 <= i < j < d.nodes@.len() implies (#[trigger] d.nodes@[i]).path@
            != (#[trigger] d.nodes@[j]).path@ by {
            assert(node_paths(d.nodes@)[i] == d.nodes@[i].path@);
            assert(node_paths(d.nodes@)[j] == d.nodes@[j].path@);
            assert(seq_lt(node_paths(d.nodes@)[i], node_paths(d.nodes@)[j]));
            lemma_seq_lt_irreflexive(d.nodes@[i].path@);
        }
    }
    lemma_degrees_sum_to_twice_edges(d.nodes@, d.edges@);
}


/// Each node object of the diagram payload carries the node's degree: the
/// number of edge ends at its path.
pub proof fn lemma_node_json_degree(d: Diagram, n: DiagramNode, h: Option<Seq<char>>)
    ensures
        contains_text(node_json(d, n, h), "\",\"degree\":"@ + decimal(degree_of(d.edges@, n.path@)) + ",\"primary\":"@),
{
    let w = "\",\"degree\":"@ + decimal(degree_of(d.edges@, n.path@)) + ",\"primary\":"@;
    let rest = bool_text(n.primary) + href_part(h) + "}"@;
    assert(node_json_tail(d, n, h) =~= w + rest);
    lemma_contains_prefix(w, rest);
    lemma_contains_left(node_json_head(d, n), node_json_tail(d, n, h), w);
}

} // verus!
