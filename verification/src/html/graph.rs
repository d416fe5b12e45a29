//! Relationship-graph widgets. The Markdown renderer leaves a sentinel comment
//! and a Mermaid fallback for each graph; here that pair becomes the
//! interactive widget — a `<canvas>` and an inline JSON payload the page's
//! script draws with no library and no network. The diagram is rebuilt from the
//! model using the sentinel's `mode:depth:group`, so both outputs agree.

use crate::anchored::{model_entities, EntityView};
use crate::diagram::{
    is_diagram_around, json_text, opt_view, opt_views, produced_by, str_set, str_views,
    subsystem_seeds, Diagram, DiagramNode,
};
use crate::html::escaping::{html_escape, html_escaped};
use crate::markdown::group::member_paths;
use crate::model::{spec_href, AnchoredKind, DocModel, GroupDoc, ReferenceDoc, SymbolDoc};
use crate::text::{
    chars_of, find_from, index_from, is_empty_str, lemma_index_from, lemma_map_push,
    lemma_take_push, str_eq, string_from_chars, to_owned_string,
};
use vstd::prelude::*;

verus! {

// ---------------------------------------------------------------------------
// Node links
// ---------------------------------------------------------------------------

/// The page link of every entity that can be a graph node (everything
/// anchored on a group page — not the enums), in entity order.
pub open spec fn graph_links(es: Seq<EntityView>) -> Seq<(Seq<char>, Seq<char>)>
    decreases es.len(),
{
    if es.len() == 0 {
        Seq::empty()
    } else {
        let e = es.last();
        graph_links(es.drop_last()) + if e.kind != AnchoredKind::Enum {
            seq![(e.path, spec_href(e.page, e.anchor))]
        } else {
            Seq::empty()
        }
    }
}

/// The link of the last entry for `p`, if any (a later entry wins).
pub open spec fn link_of(links: Seq<(Seq<char>, Seq<char>)>, p: Seq<char>) -> Option<Seq<char>>
    decreases links.len(),
{
    if links.len() == 0 {
        None
    } else if links.last().0 == p {
        Some(links.last().1)
    } else {
        link_of(links.drop_last(), p)
    }
}

/// Each graph-eligible entity's path with its page link.
pub struct NodeHrefs {
    pub links: Vec<(String, String)>,
}

impl NodeHrefs {
    pub open spec fn view_links(&self) -> Seq<(Seq<char>, Seq<char>)> {
        self.links@.map_values(|l: (String, String)| (l.0@, l.1@))
    }

    /// The page link of the node with path `p`.
    pub fn get(&self, p: &str) -> (r: Option<&String>)
        ensures
            match r {
                Some(h) => link_of(self.view_links(), p@) == Some(h@),
                None => link_of(self.view_links(), p@) is None,
            },
    {
        let mut i = self.links.len();
        assert(self.view_links().take(i as int) =~= self.view_links());
        while i > 0
            invariant
                i <= self.links.len(),
                link_of(self.view_links(), p@) == link_of(self.view_links().take(i as int), p@),
            decreases i,
        {
            assert(self.view_links().take(i as int).drop_last() =~= self.view_links().take(i - 1));
            assert(self.view_links().take(i as int).last() == (self.links@[i - 1].0@, self.links@[i - 1].1@));
            if str_eq(self.links[i - 1].0.as_str(), p) {
                return Some(&self.links[i - 1].1);
            }
            i -= 1;
        }
        None
    }

    /// Whether some node has the path `p`.
    pub fn contains_key(&self, p: &str) -> (r: bool)
        ensures
            r == (link_of(self.view_links(), p@) is Some),
    {
        self.get(p).is_some()
    }

    /// An owned copy of the page link of the node with path `p`.
    fn link(&self, p: &str) -> (r: Option<String>)
        ensures
            opt_view(r) == link_of(self.view_links(), p@),
    {
        match self.get(p) {
            Some(h) => Some(to_owned_string(h.as_str())),
            None => None,
        }
    }
}

/// Map every graph-eligible documented entity's path to its page link
/// (`<group>.html#<anchor>`). Built from the model's anchored-entity walk and
/// filtered to the kinds that can be graph nodes; enums live on the shared
/// reference page and are not graph nodes.
pub fn node_hrefs(model: &DocModel) -> (r: NodeHrefs)
    ensures
        r.view_links() == graph_links(model_entities(*model)),
{
    let ents = model.anchored_entities();
    let ghost es = model_entities(*model);
    let mut links: Vec<(String, String)> = Vec::new();
    let mut i: usize = 0;
    while i < ents.len()
        invariant
            i <= ents.len(),
            es == model_entities(*model),
            crate::anchored::entity_views(ents@) == es,
            links@.map_values(|l: (String, String)| (l.0@, l.1@)) == graph_links(es.take(i as int)),
        decreases ents.len() - i,
    {
        let e = &ents[i];
        assert(es[i as int] == ents@[i as int]@);
        assert(es.take(i + 1).drop_last() =~= es.take(i as int));
        let ghost before = links@;
        if !e.kind.is_enum() {
            let mut p = String::new();
            p.append(e.path);
            let l = (p, e.href());
            links.push(l);
            proof {
                lemma_map_push(before, l, |l: (String, String)| (l.0@, l.1@));
            }
        }
        assert(links@.map_values(|l: (String, String)| (l.0@, l.1@)) =~= graph_links(es.take(i + 1)));
        i += 1;
    }
    assert(es.take(es.len() as int) =~= es);
    NodeHrefs { links }
}

// ---------------------------------------------------------------------------
// Rebuilding a sentinel's diagram
// ---------------------------------------------------------------------------

/// The position of the first group with path `p` at or after `i`, or `-1`.
pub open spec fn first_group(gs: Seq<GroupDoc>, p: Seq<char>, i: int) -> int
    decreases gs.len() - i,
{
    if i < 0 || i >= gs.len() {
        -1
    } else if gs[i].path@ == p {
        i
    } else {
        first_group(gs, p, i + 1)
    }
}

/// `d` is the diagram a sentinel asks for: the subsystem of `group` for mode
/// `subtree`, else the relationships of the first group with that path (no
/// seeds when there is none).
pub open spec fn is_diagram_for(d: Diagram, m: DocModel, mode: Seq<char>, group: Seq<char>, depth: nat) -> bool {
    if mode == "subtree"@ {
        is_diagram_around(d, m.graph.edges@, subsystem_seeds(group), depth) && d.title@ == "Subsystem "@ + group
    } else {
        let k = first_group(m.groups@, group, 0);
        is_diagram_around(
            d,
            m.graph.edges@,
            if k >= 0 {
                member_paths(m.groups@[k])
            } else {
                Set::empty()
            },
            depth,
        ) && d.title@ == "Relationships in "@ + group
    }
}

proof fn lemma_first_group_bounds(gs: Seq<GroupDoc>, p: Seq<char>, i: int)
    requires
        0 <= i,
    ensures
        first_group(gs, p, i) == -1 || (i <= first_group(gs, p, i) < gs.len() && gs[first_group(gs, p, i)].path@ == p),
    decreases gs.len() - i,
{
    if i < gs.len() && gs[i].path@ != p {
        lemma_first_group_bounds(gs, p, i + 1);
    }
}

/// The direct member paths of `g`: symbols, then functions, then references.
fn member_list(g: &GroupDoc) -> (r: Vec<&str>)
    ensures
        str_set(r@) == member_paths(*g),
{
    let mut members: Vec<&str> = Vec::new();
    let mut i: usize = 0;
    while i < g.symbols.len()
        invariant
            i <= g.symbols.len(),
            str_views(members@) =~= g.symbols@.take(i as int).map_values(|s: SymbolDoc| s.path@),
        decreases g.symbols.len() - i,
    {
        let ghost before = members@;
        let p = g.symbols[i].path.as_str();
        members.push(p);
        proof {
            lemma_map_push(before, p, |x: &str| x@);
            lemma_take_push(g.symbols@, i as int);
            lemma_map_push(g.symbols@.take(i as int), g.symbols@[i as int], |s: SymbolDoc| s.path@);
        }
        i += 1;
    }
    assert(g.symbols@.take(g.symbols@.len() as int) =~= g.symbols@);
    let mut j: usize = 0;
    while j < g.functions.len()
        invariant
            j <= g.functions.len(),
            str_views(members@) =~= g.symbols@.map_values(|s: SymbolDoc| s.path@) + g.functions@.take(
                j as int,
            ).map_values(|f: crate::model::FunctionDoc| f.path@),
        decreases g.functions.len() - j,
    {
        let ghost before = members@;
        let p = g.functions[j].path.as_str();
        members.push(p);
        proof {
            lemma_map_push(before, p, |x: &str| x@);
            lemma_take_push(g.functions@, j as int);
            lemma_map_push(g.functions@.take(j as int), g.functions@[j as int], |f: crate::model::FunctionDoc| f.path@);
        }
        assert(str_views(members@) =~= g.symbols@.map_values(|s: SymbolDoc| s.path@) + g.functions@.take(
            j + 1,
        ).map_values(|f: crate::model::FunctionDoc| f.path@));
        j += 1;
    }
    assert(g.functions@.take(g.functions@.len() as int) =~= g.functions@);
    let mut k: usize = 0;
    while k < g.references.len()
        invariant
            k <= g.references.len(),
            str_views(members@) =~= g.symbols@.map_values(|s: SymbolDoc| s.path@) + g.functions@.map_values(
                |f: crate::model::FunctionDoc| f.path@,
            ) + g.references@.take(k as int).map_values(|r: ReferenceDoc| r.path@),
        decreases g.references.len() - k,
    {
        let ghost before = members@;
        let p = g.references[k].path.as_str();
        members.push(p);
        proof {
            lemma_map_push(before, p, |x: &str| x@);
            lemma_take_push(g.references@, k as int);
            lemma_map_push(g.references@.take(k as int), g.references@[k as int], |r: ReferenceDoc| r.path@);
        }
        assert(str_views(members@) =~= g.symbols@.map_values(|s: SymbolDoc| s.path@) + g.functions@.map_values(
            |f: crate::model::FunctionDoc| f.path@,
        ) + g.references@.take(k + 1).map_values(|r: ReferenceDoc| r.path@));
        k += 1;
    }
    proof {
        let sv = g.symbols@.map_values(|s: SymbolDoc| s.path@);
        let fv = g.functions@.map_values(|f: crate::model::FunctionDoc| f.path@);
        let rv = g.references@.map_values(|r: ReferenceDoc| r.path@);
        assert(g.references@.take(g.references@.len() as int) =~= g.references@);
        let all = str_views(members@);
        assert(all =~= sv + fv + rv);
        assert forall|p: Seq<char>| str_set(members@).contains(p) <==> member_paths(*g).contains(p) by {
            if all.contains(p) {
                let m = choose|m: int| 0 <= m < all.len() && all[m] == p;
                if m < sv.len() {
                    assert(g.symbols@[m].path@ == p);
                } else if m < sv.len() + fv.len() {
                    assert(g.functions@[m - sv.len()].path@ == p);
                } else {
                    assert(g.references@[m - sv.len() - fv.len()].path@ == p);
                }
            }
            if exists|i: int| 0 <= i < g.symbols@.len() && #[trigger] g.symbols@[i].path@ == p {
                let i = choose|i: int| 0 <= i < g.symbols@.len() && #[trigger] g.symbols@[i].path@ == p;
                assert(all[i] == p);
            }
            if exists|i: int| 0 <= i < g.functions@.len() && #[trigger] g.functions@[i].path@ == p {
                let i = choose|i: int| 0 <= i < g.functions@.len() && #[trigger] g.functions@[i].path@ == p;
                assert(all[sv.len() + i] == p);
            }
            if exists|i: int| 0 <= i < g.references@.len() && #[trigger] g.references@[i].path@ == p {
                let i = choose|i: int| 0 <= i < g.references@.len() && #[trigger] g.references@[i].path@ == p;
                assert(all[sv.len() + fv.len() + i] == p);
            }
        }
        assert(str_set(members@) =~= member_paths(*g));
    }
    members
}

/// Rebuild the diagram a sentinel refers to. `mode` is `subtree` (the whole
/// subsystem) or anything else (seed on the group's direct members).
pub fn diagram_for(model: &DocModel, mode: &str, group: &str, depth: usize) -> (d: Diagram)
    ensures
        is_diagram_for(d, *model, mode@, group@, depth as nat),
{
    if str_eq(mode, "subtree") {
        return Diagram::subsystem(&model.graph, group, depth);
    }
    let mut i: usize = 0;
    while i < model.groups.len()
        invariant
            i <= model.groups.len(),
            mode@ != "subtree"@,
            first_group(model.groups@, group@, 0) == first_group(model.groups@, group@, i as int),
        decreases model.groups.len() - i,
    {
        if str_eq(model.groups[i].path.as_str(), group) {
            let members = member_list(&model.groups[i]);
            assert(first_group(model.groups@, group@, i as int) == i);
            let sl = members.as_slice();
            assert(sl@ == members@);
            let d = Diagram::for_group(&model.graph, sl, group, depth);
            assert(str_set(sl@) == member_paths(model.groups@[i as int]));
            assert(is_diagram_around(d, model.graph.edges@, member_paths(model.groups@[i as int]), depth as nat));
            assert(d.title@ == "Relationships in "@ + group@);
            assert(mode@ != "subtree"@);
            return d;
        }
        i += 1;
    }
    let members: Vec<&str> = Vec::new();
    assert(str_set(members@) =~= Set::<Seq<char>>::empty());
    Diagram::for_group(&model.graph, members.as_slice(), group, depth)
}

// ---------------------------------------------------------------------------
// The figure
// ---------------------------------------------------------------------------

/// The page link of each node of `d`.
pub open spec fn node_links(d: Diagram, links: Seq<(Seq<char>, Seq<char>)>) -> Seq<Option<Seq<char>>> {
    d.nodes@.map_values(|n: DiagramNode| link_of(links, n.path@))
}

/// The markup of the graph stage and legend, before the JSON payload.
pub open spec fn figure_head(title: Seq<char>) -> Seq<char> {
    "<figure class=\"m1-graph\"><div class=\"m1-graph-head\"><span class=\"m1-graph-title\">"@ + html_escaped(
        title,
        false,
    ) + "</span><span class=\"m1-graph-hint\">drag · scroll to zoom · click a node to open its page</span><button class=\"m1-graph-reset\" type=\"button\">Fit</button></div><div class=\"m1-graph-stage\"><canvas></canvas><div class=\"m1-graph-tip\" hidden></div></div><div class=\"m1-graph-legend\"></div><script type=\"application/json\" class=\"m1-graph-data\">"@
}

/// The figure of one diagram: the canvas stage, the legend slot, and the
/// inline JSON payload; an edge-less diagram is a short note instead.
pub open spec fn figure_text(d: Diagram, links: Seq<(Seq<char>, Seq<char>)>) -> Seq<char> {
    if d.edges@.len() == 0 {
        "<figure class=\"m1-graph\"><div class=\"m1-graph-empty\">No documented relationships"@ + (if d.title@.len()
            == 0 {
            Seq::empty()
        } else {
            " for "@ + html_escaped(d.title@, false)
        }) + ".</div></figure>"@
    } else {
        figure_head(d.title@) + json_text(d, node_links(d, links)) + "</script></figure>"@
    }
}

/// The `<figure>` markup for one diagram: the canvas stage, the legend slot,
/// and the inline JSON the page script renders. An edge-less diagram degrades
/// to a note rather than an empty canvas.
pub fn graph_figure(diagram: &Diagram, hrefs: &NodeHrefs) -> (r: String)
    ensures
        r@ == figure_text(*diagram, hrefs.view_links()),
{
    let mut out = String::new();
    if diagram.is_empty() {
        out.append("<figure class=\"m1-graph\"><div class=\"m1-graph-empty\">No documented relationships");
        if !is_empty_str(diagram.title.as_str()) {
            out.append(" for ");
            out.append(html_escape(diagram.title.as_str()).as_str());
        }
        out.append(".</div></figure>");
        assert(out@ =~= figure_text(*diagram, hrefs.view_links()));
        return out;
    }
    let f = |p: &str| -> (r: Option<String>)
        ensures
            opt_view(r) == link_of(hrefs.view_links(), p@),
        { hrefs.link(p) };
    let json = diagram.to_json(f);
    proof {
        let n = diagram.nodes@.len();
        let links = choose|links: Seq<Option<String>>|
            links.len() == n && (forall|i: int|
                0 <= i < links.len() ==> #[trigger] produced_by(f, diagram.nodes@[i].path@, links[i]))
                && json@ == json_text(*diagram, opt_views(links));
        assert forall|i: int| 0 <= i < n implies #[trigger] opt_views(links)[i] == node_links(
            *diagram,
            hrefs.view_links(),
        )[i] by {
            assert(produced_by(f, diagram.nodes@[i].path@, links[i]));
            let q = choose|q: &str| q@ == diagram.nodes@[i].path@ && #[trigger] f.ensures((q,), links[i]);
            assert(opt_view(links[i]) == link_of(hrefs.view_links(), q@));
        }
        assert(opt_views(links) =~= node_links(*diagram, hrefs.view_links()));
    }
    out.append("<figure class=\"m1-graph\"><div class=\"m1-graph-head\"><span class=\"m1-graph-title\">");
    out.append(html_escape(diagram.title.as_str()).as_str());
    out.append("</span><span class=\"m1-graph-hint\">drag · scroll to zoom · click a node to open its page</span><button class=\"m1-graph-reset\" type=\"button\">Fit</button></div><div class=\"m1-graph-stage\"><canvas></canvas><div class=\"m1-graph-tip\" hidden></div></div><div class=\"m1-graph-legend\"></div><script type=\"application/json\" class=\"m1-graph-data\">");
    out.append(json.as_str());
    out.append("</script></figure>");
    assert(out@ =~= figure_text(*diagram, hrefs.view_links()));
    out
}

// ---------------------------------------------------------------------------
// Sentinels
// ---------------------------------------------------------------------------

/// Every character is an ASCII digit.
pub open spec fn all_digits(d: Seq<char>) -> bool {
    forall|i: int| 0 <= i < d.len() ==> '0' <= #[trigger] d[i] <= '9'
}

/// The value of a run of decimal digits.
pub open spec fn digits_value(d: Seq<char>) -> nat
    decreases d.len(),
{
    if d.len() == 0 {
        0
    } else {
        digits_value(d.drop_last()) * 10 + (d.last() as nat - '0' as nat) as nat
    }
}

/// A `usize` written in decimal, as `str::parse` reads it: an optional `+`,
/// then one or more ASCII digits, with a value that fits.
pub open spec fn parse_usize(t: Seq<char>) -> Option<nat> {
    let d = if t.len() > 0 && t[0] == '+' {
        t.skip(1)
    } else {
        t
    };
    if d.len() > 0 && all_digits(d) && digits_value(d) <= usize::MAX {
        Some(digits_value(d))
    } else {
        None
    }
}

/// The first `:` of a sentinel's text, and the second.
pub open spec fn colon1(t: Seq<char>) -> int {
    index_from(t, seq![':'], 0)
}

pub open spec fn colon2(t: Seq<char>) -> int {
    index_from(t, seq![':'], colon1(t) + 1)
}

/// The mode of a sentinel `mode:depth:group`: everything before the first `:`.
pub open spec fn sentinel_mode(t: Seq<char>) -> Seq<char> {
    if colon1(t) < 0 {
        t
    } else {
        t.take(colon1(t))
    }
}

/// The depth of a sentinel: the part between the first two `:`, read as a
/// `usize`, or 1 when it is missing or unreadable.
pub open spec fn sentinel_depth(t: Seq<char>) -> nat {
    if colon1(t) < 0 {
        1
    } else {
        let part = if colon2(t) < 0 {
            t.subrange(colon1(t) + 1, t.len() as int)
        } else {
            t.subrange(colon1(t) + 1, colon2(t))
        };
        match parse_usize(part) {
            Some(n) => n,
            None => 1,
        }
    }
}

/// The group of a sentinel: everything after the second `:`, or empty.
pub open spec fn sentinel_group(t: Seq<char>) -> Seq<char> {
    if colon1(t) < 0 || colon2(t) < 0 {
        Seq::empty()
    } else {
        t.skip(colon2(t) + 1)
    }
}

/// Read a `usize` the way `str::parse` does.
pub fn parse_depth(t: &str) -> (r: Option<usize>)
    ensures
        match r {
            Some(n) => parse_usize(t@) == Some(n as nat),
            None => parse_usize(t@) is None,
        },
{
    let v = chars_of(t);
    let start: usize = if v.len() > 0 && v[0] == '+' { 1 } else { 0 };
    let ghost d = if t@.len() > 0 && t@[0] == '+' { t@.skip(1) } else { t@ };
    assert(d =~= v@.skip(start as int));
    if start >= v.len() {
        return None;
    }
    let mut value: usize = 0;
    let mut i: usize = start;
    while i < v.len()
        invariant
            start <= i <= v.len(),
            start < v.len(),
            v@ == t@,
            d == (if t@.len() > 0 && t@[0] == '+' { t@.skip(1) } else { t@ }),
            d == v@.skip(start as int),
            all_digits(v@.subrange(start as int, i as int)),
            value as nat == digits_value(v@.subrange(start as int, i as int)),
        decreases v.len() - i,
    {
        let c = v[i];
        assert(v@.subrange(start as int, i + 1).drop_last() =~= v@.subrange(start as int, i as int));
        if c < '0' || c > '9' {
            proof {
                assert(d[i - start] == c);
                assert(!all_digits(d));
            }
            return None;
        }
        let digit: usize = (c as u32 - '0' as u32) as usize;
        if value > (usize::MAX - digit) / 10 {
            proof {
                assert(d.take(i - start) =~= v@.subrange(start as int, i as int));
                assert(d[i - start] == c);
                lemma_digits_too_big(d, (i - start + 1) as int, value as nat, digit as nat);
            }
            return None;
        }
        assert(value * 10 + digit <= usize::MAX) by (nonlinear_arith)
            requires
                value <= (usize::MAX - digit) / 10,
                digit <= 9,
        ;
        value = value * 10 + digit;
        i += 1;
    }
    assert(v@.subrange(start as int, v@.len() as int) =~= d);
    Some(value)
}

/// Once a prefix of the digits is past `usize::MAX`, so is the whole number.
proof fn lemma_digits_too_big(d: Seq<char>, n: int, prefix: nat, digit: nat)
    requires
        0 < n <= d.len(),
        all_digits(d.take(n - 1)),
        prefix == digits_value(d.take(n - 1)),
        digit == d[n - 1] as nat - '0' as nat,
        '0' <= d[n - 1] <= '9',
        prefix > (usize::MAX - digit) / 10,
    ensures
        !(all_digits(d) && digits_value(d) <= usize::MAX),
{
    assert(d.take(n).drop_last() =~= d.take(n - 1));
    assert(digits_value(d.take(n)) > usize::MAX) by (nonlinear_arith)
        requires
            digits_value(d.take(n)) == prefix * 10 + digit,
            prefix > (usize::MAX - digit) / 10,
            digit <= 9,
    ;
    if all_digits(d) {
        lemma_digits_monotone(d, n);
    }
}

/// A longer run of digits is worth at least as much as its prefix.
proof fn lemma_digits_monotone(d: Seq<char>, n: int)
    requires
        0 <= n <= d.len(),
        all_digits(d),
    ensures
        digits_value(d.take(n)) <= digits_value(d),
    decreases d.len() - n,
{
    if n < d.len() {
        lemma_digits_monotone(d, n + 1);
        assert(d.take(n + 1).drop_last() =~= d.take(n));
        assert(d[n] >= '0');
        assert(digits_value(d.take(n)) <= digits_value(d.take(n)) * 10) by (nonlinear_arith);
    } else {
        assert(d.take(n) =~= d);
    }
}

/// Where the next complete sentinel at or after `i` lies: the comment's start,
/// the start and end of its text, and where the text after it (past the
/// Mermaid block that follows, when there is one) resumes.
pub open spec fn sentinel_at(s: Seq<char>, i: int) -> Option<(int, int, int, int)> {
    let pos = index_from(s, "<!--m1-graph:"@, i);
    if pos < 0 {
        None
    } else {
        let after = pos + "<!--m1-graph:"@.len();
        let close = index_from(s, "-->"@, after);
        if close < 0 {
            None
        } else {
            let tail = close + "-->"@.len();
            let ps = index_from(s, "<pre>"@, tail);
            let pe = if ps >= 0 {
                index_from(s, "</pre>"@, ps)
            } else {
                -1
            };
            let next = if ps >= 0 && pe >= 0 {
                pe + "</pre>"@.len()
            } else {
                tail
            };
            Some((pos, after, close, next))
        }
    }
}

pub proof fn lemma_sentinel_at(s: Seq<char>, i: int)
    requires
        0 <= i <= s.len(),
    ensures
        match sentinel_at(s, i) {
            Some((pos, after, close, next)) => i <= pos < after <= close < next <= s.len()
                && s.subrange(pos, after) == "<!--m1-graph:"@,
            None => true,
        },
{
    reveal_strlit("<!--m1-graph:");
    reveal_strlit("-->");
    reveal_strlit("<pre>");
    reveal_strlit("</pre>");
    let pos = index_from(s, "<!--m1-graph:"@, i);
    lemma_index_from(s, "<!--m1-graph:"@, i);
    if pos >= 0 {
        let after = pos + 13;
        lemma_index_from(s, "-->"@, after);
        let close = index_from(s, "-->"@, after);
        if close >= 0 {
            let tail = close + 3;
            lemma_index_from(s, "<pre>"@, tail);
            let ps = index_from(s, "<pre>"@, tail);
            if ps >= 0 {
                lemma_index_from(s, "</pre>"@, ps);
            }
        }
    }
}

/// The text with every complete sentinel from `i` on (and the Mermaid block
/// after it) replaced by the next of `figs`; everything else is copied.
pub open spec fn swap_from(s: Seq<char>, i: int, figs: Seq<Seq<char>>) -> Seq<char>
    decreases s.len() - i,
{
    if i < 0 || i > s.len() {
        Seq::empty()
    } else {
        match sentinel_at(s, i) {
            None => s.subrange(i, s.len() as int),
            Some((pos, after, close, next)) => {
                proof {
                    lemma_sentinel_at(s, i);
                }
                s.subrange(i, pos) + figs[0] + swap_from(s, next, figs.drop_first())
            },
        }
    }
}

/// The `mode:depth:group` texts of the complete sentinels from `i` on.
pub open spec fn sentinel_texts(s: Seq<char>, i: int) -> Seq<Seq<char>>
    decreases s.len() - i,
{
    if i < 0 || i > s.len() {
        Seq::empty()
    } else {
        match sentinel_at(s, i) {
            None => Seq::empty(),
            Some((pos, after, close, next)) => {
                proof {
                    lemma_sentinel_at(s, i);
                }
                seq![s.subrange(after, close)] + sentinel_texts(s, next)
            },
        }
    }
}

/// `fig` is the figure of the diagram sentinel `t` asks for.
pub open spec fn figure_fits(m: DocModel, links: Seq<(Seq<char>, Seq<char>)>, t: Seq<char>, fig: Seq<char>) -> bool {
    exists|d: Diagram|
        is_diagram_for(d, m, sentinel_mode(t), sentinel_group(t), sentinel_depth(t)) && fig == figure_text(
            d,
            links,
        )
}

/// One figure per sentinel, each the figure its sentinel asks for.
pub open spec fn figures_fit(m: DocModel, links: Seq<(Seq<char>, Seq<char>)>, texts: Seq<Seq<char>>, figs: Seq<Seq<char>>) -> bool {
    &&& figs.len() == texts.len()
    &&& forall|k: int| 0 <= k < figs.len() ==> #[trigger] figure_fits(m, links, texts[k], figs[k])
}

/// The mode, depth and group of a sentinel's text.
fn parse_sentinel(t: &Vec<char>) -> (r: (String, usize, String))
    ensures
        r.0@ == sentinel_mode(t@),
        r.1 as nat == sentinel_depth(t@),
        r.2@ == sentinel_group(t@),
{
    let colon = chars_of(":");
    proof {
        reveal_strlit(":");
    }
    assert(colon@ =~= seq![':']);
    proof {
        lemma_index_from(t@, colon@, 0);
    }
    match find_from(t, &colon, 0) {
        None => {
            assert(t@.subrange(0, t@.len() as int) =~= t@);
            (string_from_chars(t, 0, t.len()), 1, String::new())
        },
        Some(c1) => {
            assert(c1 + colon@.len() <= t@.len());
            let n = t.len();
            assert(c1 < n);
            assert(t@.subrange(0, c1 as int) =~= t@.take(c1 as int));
            let mode = string_from_chars(t, 0, c1);
            proof {
                lemma_index_from(t@, colon@, c1 + 1);
            }
            match find_from(t, &colon, c1 + 1) {
                None => {
                    let part = string_from_chars(t, c1 + 1, t.len());
                    let depth = match parse_depth(part.as_str()) {
                        Some(n) => n,
                        None => 1,
                    };
                    (mode, depth, String::new())
                },
                Some(c2) => {
                    assert(c2 + colon@.len() <= t@.len());
                    let part = string_from_chars(t, c1 + 1, c2);
                    let depth = match parse_depth(part.as_str()) {
                        Some(n) => n,
                        None => 1,
                    };
                    let group = string_from_chars(t, c2 + 1, t.len());
                    assert(t@.subrange(c2 + 1, t@.len() as int) =~= t@.skip(c2 + 1));
                    (mode, depth, group)
                },
            }
        },
    }
}

/// The text from position `i` on with every sentinel swapped for its figure.
fn swap_rest(v: &Vec<char>, i: usize, model: &DocModel, hrefs: &NodeHrefs) -> (r: (String, Ghost<Seq<Seq<char>>>))
    requires
        i <= v.len(),
    ensures
        r.0@ == swap_from(v@, i as int, r.1@),
        figures_fit(*model, hrefs.view_links(), sentinel_texts(v@, i as int), r.1@),
    decreases v.len() - i,
{
    let open = chars_of("<!--m1-graph:");
    let close_mark = chars_of("-->");
    let pre = chars_of("<pre>");
    let pre_end = chars_of("</pre>");
    proof {
        reveal_strlit("<!--m1-graph:");
        reveal_strlit("-->");
        reveal_strlit("<pre>");
        reveal_strlit("</pre>");
        lemma_sentinel_at(v@, i as int);
        lemma_index_from(v@, open@, i as int);
    }
    let none = (string_from_chars(v, i, v.len()), Ghost(Seq::<Seq<char>>::empty()));
    let pos = match find_from(v, &open, i) {
        None => {
            return none;
        },
        Some(pos) => pos,
    };
    let after = pos + open.len();
    proof {
        lemma_index_from(v@, close_mark@, after as int);
    }
    let close = match find_from(v, &close_mark, after) {
        None => {
            return none;
        },
        Some(close) => close,
    };
    let tail = close + close_mark.len();
    proof {
        lemma_index_from(v@, pre@, tail as int);
    }
    let next = match find_from(v, &pre, tail) {
        Some(ps) => {
            proof {
                lemma_index_from(v@, pre_end@, ps as int);
            }
            match find_from(v, &pre_end, ps) {
                Some(pe) => pe + pre_end.len(),
                None => tail,
            }
        },
        None => tail,
    };
    let text = string_from_chars(v, after, close);
    let tv = chars_of(text.as_str());
    let (mode, depth, group) = parse_sentinel(&tv);
    let d = diagram_for(model, mode.as_str(), group.as_str(), depth);
    let fig = graph_figure(&d, hrefs);
    let (rest, rest_figs) = swap_rest(v, next, model, hrefs);
    let mut out = string_from_chars(v, i, pos);
    out.append(fig.as_str());
    out.append(rest.as_str());
    let ghost figs = seq![fig@] + rest_figs@;
    proof {
        assert(figs[0] == fig@);
        assert(figs.drop_first() =~= rest_figs@);
        assert(figure_fits(*model, hrefs.view_links(), text@, fig@));
        let texts = sentinel_texts(v@, i as int);
        assert(texts =~= seq![text@] + sentinel_texts(v@, next as int));
        assert forall|k: int| 0 <= k < figs.len() implies #[trigger] figure_fits(
            *model,
            hrefs.view_links(),
            texts[k],
            figs[k],
        ) by {
            if k > 0 {
                assert(figs[k] == rest_figs@[k - 1]);
                assert(texts[k] == sentinel_texts(v@, next as int)[k - 1]);
            }
        }
    }
    (out, Ghost(figs))
}

/// Replace every `<!--m1-graph:mode:depth:group-->` sentinel (and the Mermaid
/// `<pre>` block rendered right after it) with the interactive graph figure
/// of the diagram it names. Other content is untouched; a sentinel with no
/// closing `-->` ends the scan and is kept verbatim.
pub fn swap_graphs(html: &str, model: &DocModel, hrefs: &NodeHrefs) -> (r: String)
    ensures
        exists|figs: Seq<Seq<char>>|
            figures_fit(*model, hrefs.view_links(), sentinel_texts(html@, 0), figs) && r@ == swap_from(html@, 0, figs),
{
    let v = chars_of(html);
    let (out, figs) = swap_rest(&v, 0, model, hrefs);
    out
}

} // verus!
