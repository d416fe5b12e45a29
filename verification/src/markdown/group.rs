//! The per-group page: breadcrumb, relationship graph, sub-group list, the
//! channel / parameter / constant tables, and the tables / objects / CAN /
//! function sections — plus the cross-reference tables (`## References`,
//! `## Used by`) built once from the whole model.

use crate::diagram::{
    is_diagram_around, lemma_around_edges_on_nodes, str_set, str_views, Diagram,
};
use crate::markdown::entries::{
    can_message_text, function_text, object_text, or_dash, render_can_message, render_function,
    render_object, render_table, row_anchor, row_anchor_text, section_shows_class,
    section_shows_tags, shows_class, shows_tags, table_text, tags_cell, tags_cell_text, type_cell,
    type_cell_text,
};
use crate::markdown::helpers::{
    breadcrumb, emit_graph_block, format_rate, graph_block, group_file, group_filename, rate_text,
    render_breadcrumb, src_suffix, SourceLinker,
};
use crate::markdown::RenderOptions;
use crate::model::{
    spec_plural, DocModel, EnumDoc, GroupDoc, ProjectGraph, ReferenceDoc, SymbolDoc, SymbolDocKind,
};
use crate::path::{last_segment, leaf_of};
use crate::text::{contains_text, lemma_contains_left, lemma_contains_prefix, lemma_contains_right, is_empty_str, join, lemma_map_push, lemma_take_push, seq_lt, str_eq, str_lt, to_owned_string};
use vstd::prelude::*;

verus! {

/// How many hops the relationship graph of a group page reaches past the
/// group's own members.
pub const GROUP_GRAPH_DEPTH: usize = 1;

// ---------------------------------------------------------------------------
// Cross references
// ---------------------------------------------------------------------------

/// Where a documented thing lives: its path, the page it is on, and its anchor.
pub struct Located {
    pub path: String,
    pub file: String,
    pub anchor: String,
}

/// A reference that resolved to a documented symbol: the symbol's path and the
/// reference's own path.
pub struct Targeting {
    pub target: String,
    pub reference: String,
}

/// The cross-reference tables of the whole model: where each symbol and each
/// reference lives, and which references point at which symbol, all in model
/// order.
pub struct CrossRefs {
    pub symbols: Vec<Located>,
    pub references: Vec<Located>,
    pub targets: Vec<Targeting>,
}

pub type Loc = (Seq<char>, Seq<char>, Seq<char>);

pub open spec fn loc_view(l: Located) -> Loc {
    (l.path@, l.file@, l.anchor@)
}

pub open spec fn loc_views(ls: Seq<Located>) -> Seq<Loc> {
    ls.map_values(|l: Located| loc_view(l))
}

pub open spec fn target_views(ts: Seq<Targeting>) -> Seq<(Seq<char>, Seq<char>)> {
    ts.map_values(|t: Targeting| (t.target@, t.reference@))
}

/// Every symbol of one group, located on the group's page.
pub open spec fn group_symbol_locs(g: GroupDoc) -> Seq<Loc> {
    g.symbols@.map_values(|s: SymbolDoc| (s.path@, group_file(g.path@), s.anchor@))
}

/// Every reference of one group, located on the group's page.
pub open spec fn group_reference_locs(g: GroupDoc) -> Seq<Loc> {
    g.references@.map_values(|r: ReferenceDoc| (r.path@, group_file(g.path@), r.anchor@))
}

/// The resolved references of a list, as `(target, reference path)`.
pub open spec fn resolved_pairs(refs: Seq<ReferenceDoc>) -> Seq<(Seq<char>, Seq<char>)>
    decreases refs.len(),
{
    if refs.len() == 0 {
        Seq::empty()
    } else {
        resolved_pairs(refs.drop_last()) + match refs.last().target_resolved {
            Some(t) => seq![(t@, refs.last().path@)],
            None => Seq::empty(),
        }
    }
}

pub open spec fn all_symbol_locs(groups: Seq<GroupDoc>) -> Seq<Loc>
    decreases groups.len(),
{
    if groups.len() == 0 {
        Seq::empty()
    } else {
        all_symbol_locs(groups.drop_last()) + group_symbol_locs(groups.last())
    }
}

pub open spec fn all_reference_locs(groups: Seq<GroupDoc>) -> Seq<Loc>
    decreases groups.len(),
{
    if groups.len() == 0 {
        Seq::empty()
    } else {
        all_reference_locs(groups.drop_last()) + group_reference_locs(groups.last())
    }
}

pub open spec fn all_targets(groups: Seq<GroupDoc>) -> Seq<(Seq<char>, Seq<char>)>
    decreases groups.len(),
{
    if groups.len() == 0 {
        Seq::empty()
    } else {
        all_targets(groups.drop_last()) + resolved_pairs(groups.last().references@)
    }
}

/// The cross-reference tables of `model`.
pub open spec fn is_cross_refs_of(x: CrossRefs, model: DocModel) -> bool {
    &&& loc_views(x.symbols@) == all_symbol_locs(model.groups@)
    &&& loc_views(x.references@) == all_reference_locs(model.groups@)
    &&& target_views(x.targets@) == all_targets(model.groups@)
}

/// Where the last entry for `p` lives, as `(page, anchor)`.
pub open spec fn loc_of(ls: Seq<Loc>, p: Seq<char>) -> Option<(Seq<char>, Seq<char>)>
    decreases ls.len(),
{
    if ls.len() == 0 {
        None
    } else if ls.last().0 == p {
        Some((ls.last().1, ls.last().2))
    } else {
        loc_of(ls.drop_last(), p)
    }
}

/// The paths of the references that target `t`, in model order.
pub open spec fn referrers(ts: Seq<(Seq<char>, Seq<char>)>, t: Seq<char>) -> Seq<Seq<char>>
    decreases ts.len(),
{
    if ts.len() == 0 {
        Seq::empty()
    } else {
        referrers(ts.drop_last(), t) + if ts.last().0 == t {
            seq![ts.last().1]
        } else {
            Seq::empty()
        }
    }
}

/// `x` inserted into `sorted` before the first element greater than it.
pub open spec fn insert_in_order(sorted: Seq<Seq<char>>, x: Seq<char>) -> Seq<Seq<char>>
    decreases sorted.len(),
{
    if sorted.len() == 0 {
        seq![x]
    } else if seq_lt(x, sorted[0]) {
        seq![x] + sorted
    } else {
        seq![sorted[0]] + insert_in_order(sorted.drop_first(), x)
    }
}

/// The texts in ascending order.
pub open spec fn sort_texts(s: Seq<Seq<char>>) -> Seq<Seq<char>>
    decreases s.len(),
{
    if s.len() == 0 {
        Seq::empty()
    } else {
        insert_in_order(sort_texts(s.drop_last()), s.last())
    }
}

fn copy_loc(path: &str, file: &str, anchor: &str) -> (r: Located)
    ensures
        loc_view(r) == (path@, file@, anchor@),
{
    Located { path: to_owned_string(path), file: to_owned_string(file), anchor: to_owned_string(anchor) }
}

/// Build the cross-reference tables from every group's symbols and references.
pub fn build_cross_refs(model: &DocModel) -> (x: CrossRefs)
    ensures
        is_cross_refs_of(x, *model),
{
    let mut symbols: Vec<Located> = Vec::new();
    let mut references: Vec<Located> = Vec::new();
    let mut targets: Vec<Targeting> = Vec::new();
    let groups = &model.groups;
    let mut gi: usize = 0;
    while gi < groups.len()
        invariant
            gi <= groups.len(),
            loc_views(symbols@) == all_symbol_locs(groups@.take(gi as int)),
            loc_views(references@) == all_reference_locs(groups@.take(gi as int)),
            target_views(targets@) == all_targets(groups@.take(gi as int)),
        decreases groups.len() - gi,
    {
        let g = &groups[gi];
        let file = group_filename(g.path.as_str());
        let ghost s0 = loc_views(symbols@);
        let mut i: usize = 0;
        while i < g.symbols.len()
            invariant
                i <= g.symbols.len(),
                file@ == group_file(g.path@),
                loc_views(symbols@) == s0 + group_symbol_locs(*g).take(i as int),
            decreases g.symbols.len() - i,
        {
            let ghost before = symbols@;
            let l = copy_loc(g.symbols[i].path.as_str(), file.as_str(), g.symbols[i].anchor.as_str());
            symbols.push(l);
            proof {
                lemma_map_push(before, l, |l: Located| loc_view(l));
                lemma_take_push(group_symbol_locs(*g), i as int);
                assert(loc_views(symbols@) =~= s0 + group_symbol_locs(*g).take(i + 1));
            }
            i += 1;
        }
        let ghost r0 = loc_views(references@);
        let ghost t0 = target_views(targets@);
        let mut j: usize = 0;
        while j < g.references.len()
            invariant
                j <= g.references.len(),
                file@ == group_file(g.path@),
                loc_views(references@) == r0 + group_reference_locs(*g).take(j as int),
                target_views(targets@) == t0 + resolved_pairs(g.references@.take(j as int)),
            decreases g.references.len() - j,
        {
            let r = &g.references[j];
            let ghost before = references@;
            let l = copy_loc(r.path.as_str(), file.as_str(), r.anchor.as_str());
            references.push(l);
            proof {
                lemma_map_push(before, l, |l: Located| loc_view(l));
                lemma_take_push(group_reference_locs(*g), j as int);
                assert(loc_views(references@) =~= r0 + group_reference_locs(*g).take(j + 1));
            }
            let ghost tb = targets@;
            assert(g.references@.take(j + 1).drop_last() =~= g.references@.take(j as int));
            match &r.target_resolved {
                Some(t) => {
                    let tg = Targeting { target: to_owned_string(t.as_str()), reference: to_owned_string(r.path.as_str()) };
                    targets.push(tg);
                    proof {
                        lemma_map_push(tb, tg, |t: Targeting| (t.target@, t.reference@));
                        assert(target_views(targets@) =~= t0 + resolved_pairs(g.references@.take(j + 1)));
                    }
                },
                None => {
                    assert(target_views(targets@) =~= t0 + resolved_pairs(g.references@.take(j + 1)));
                },
            }
            j += 1;
        }
        proof {
            assert(groups@.take(gi + 1).drop_last() =~= groups@.take(gi as int));
            assert(group_symbol_locs(*g).take(g.symbols@.len() as int) =~= group_symbol_locs(*g));
            assert(group_reference_locs(*g).take(g.references@.len() as int) =~= group_reference_locs(*g));
            assert(g.references@.take(g.references@.len() as int) =~= g.references@);
        }
        gi += 1;
    }
    assert(groups@.take(groups@.len() as int) =~= groups@);
    CrossRefs { symbols, references, targets }
}

/// Where the last entry for `p` lives.
fn find_loc<'a>(ls: &'a Vec<Located>, p: &str) -> (r: Option<&'a Located>)
    ensures
        match r {
            Some(l) => loc_of(loc_views(ls@), p@) == Some((l.file@, l.anchor@)),
            None => loc_of(loc_views(ls@), p@) is None,
        },
{
    let mut i = ls.len();
    assert(loc_views(ls@).take(i as int) =~= loc_views(ls@));
    while i > 0
        invariant
            i <= ls.len(),
            loc_of(loc_views(ls@), p@) == loc_of(loc_views(ls@).take(i as int), p@),
        decreases i,
    {
        assert(loc_views(ls@).take(i as int).drop_last() =~= loc_views(ls@).take(i - 1));
        assert(loc_views(ls@).take(i as int).last() == loc_view(ls@[i - 1]));
        if str_eq(ls[i - 1].path.as_str(), p) {
            return Some(&ls[i - 1]);
        }
        i -= 1;
    }
    None
}

/// `` [`label`](page#anchor) `` when the path is locatable, else `` `label` ``.
pub open spec fn xref_link_text(label: Seq<char>, loc: Option<(Seq<char>, Seq<char>)>) -> Seq<char> {
    match loc {
        Some((file, anchor)) => "[`"@ + label + "`]("@ + file + "#"@ + anchor + ")"@,
        None => "`"@ + label + "`"@,
    }
}

fn push_xref_link(out: &mut String, label: &str, locs: &Vec<Located>)
    ensures
        final(out)@ == old(out)@ + xref_link_text(label@, loc_of(loc_views(locs@), label@)),
{
    match find_loc(locs, label) {
        Some(l) => {
            out.append("[`");
            out.append(label);
            out.append("`](");
            out.append(l.file.as_str());
            out.append("#");
            out.append(l.anchor.as_str());
            out.append(")");
        },
        None => {
            out.append("`");
            out.append(label);
            out.append("`");
        },
    }
    assert(final(out)@ =~= old(out)@ + xref_link_text(label@, loc_of(loc_views(locs@), label@)));
}

/// The references that target `t`, sorted.
fn sorted_referrers(targets: &Vec<Targeting>, t: &str) -> (r: Vec<String>)
    ensures
        r@.map_values(|x: String| x@) == sort_texts(referrers(target_views(targets@), t@)),
{
    let mut out: Vec<String> = Vec::new();
    let mut i: usize = 0;
    while i < targets.len()
        invariant
            i <= targets.len(),
            out@.map_values(|x: String| x@) == sort_texts(referrers(target_views(targets@).take(i as int), t@)),
        decreases targets.len() - i,
    {
        let ghost tv = target_views(targets@).take(i + 1);
        assert(tv.drop_last() =~= target_views(targets@).take(i as int));
        assert(tv.last() == (targets@[i as int].target@, targets@[i as int].reference@));
        if str_eq(targets[i].target.as_str(), t) {
            let ghost old_out = out@.map_values(|x: String| x@);
            insert_text(&mut out, targets[i].reference.as_str());
            assert(referrers(tv, t@) =~= referrers(target_views(targets@).take(i as int), t@).push(targets@[i as int].reference@));
            assert(referrers(tv, t@).drop_last() =~= referrers(target_views(targets@).take(i as int), t@));
        } else {
            assert(referrers(tv, t@) =~= referrers(target_views(targets@).take(i as int), t@));
        }
        i += 1;
    }
    assert(target_views(targets@).take(targets@.len() as int) =~= target_views(targets@));
    out
}

proof fn lemma_insert_at(v: Seq<Seq<char>>, x: Seq<char>, pos: int)
    requires
        0 <= pos <= v.len(),
        forall|j: int| 0 <= j < pos ==> !seq_lt(x, #[trigger] v[j]),
        pos == v.len() || seq_lt(x, v[pos]),
    ensures
        insert_in_order(v, x) == v.take(pos).push(x) + v.skip(pos),
    decreases v.len(),
{
    if v.len() == 0 {
        assert(v.take(pos).push(x) + v.skip(pos) =~= seq![x]);
    } else if pos == 0 {
        assert(v.take(0).push(x) + v.skip(0) =~= seq![x] + v);
    } else {
        let t = v.drop_first();
        assert forall|j: int| 0 <= j < pos - 1 implies !seq_lt(x, #[trigger] t[j]) by {
            assert(t[j] == v[j + 1]);
        }
        if pos - 1 < t.len() {
            assert(t[pos - 1] == v[pos]);
        }
        lemma_insert_at(t, x, pos - 1);
        assert(seq![v[0]] + (t.take(pos - 1).push(x) + t.skip(pos - 1)) =~= v.take(pos).push(x) + v.skip(pos));
    }
}

/// Insert `x` into the ascending list `v` before the first greater element.
pub(crate) fn insert_text(v: &mut Vec<String>, x: &str)
    ensures
        final(v)@.map_values(|s: String| s@) == insert_in_order(old(v)@.map_values(|s: String| s@), x@),
{
    let ghost vs = v@.map_values(|s: String| s@);
    let mut pos: usize = 0;
    let mut searching = true;
    while searching && pos < v.len()
        invariant
            pos <= v.len(),
            vs == v@.map_values(|s: String| s@),
            v@ == old(v)@,
            forall|j: int| 0 <= j < pos ==> !seq_lt(x@, #[trigger] vs[j]),
            !searching ==> pos < v.len() && seq_lt(x@, vs[pos as int]),
        decreases v.len() - pos + (if searching { 1int } else { 0int }),
    {
        if str_lt(x, v[pos].as_str()) {
            searching = false;
        } else {
            pos += 1;
        }
    }
    proof {
        lemma_insert_at(vs, x@, pos as int);
    }
    v.insert(pos, to_owned_string(x));
    assert(v@.map_values(|s: String| s@) =~= vs.take(pos as int).push(x@) + vs.skip(pos as int));
}

// ---------------------------------------------------------------------------
// The group page
// ---------------------------------------------------------------------------

/// The paths of a group's direct members: symbols, then functions, then
/// references.
pub open spec fn member_paths(g: GroupDoc) -> Set<Seq<char>> {
    Set::new(
        |p: Seq<char>|
            (exists|i: int| 0 <= i < g.symbols@.len() && #[trigger] g.symbols@[i].path@ == p) || (exists|i: int|
                0 <= i < g.functions@.len() && #[trigger] g.functions@[i].path@ == p) || (exists|i: int|
                0 <= i < g.references@.len() && #[trigger] g.references@[i].path@ == p),
    )
}

/// The `## Relationships` section for the diagram `d` of the group: omitted
/// when the diagram has no edges.
pub open spec fn relationships_text(g: GroupDoc, d: Diagram) -> Seq<char> {
    if d.edges@.len() == 0 {
        Seq::empty()
    } else {
        "## Relationships\n\n"@ + graph_block("group"@, g.path@, GROUP_GRAPH_DEPTH as nat, d)
    }
}

pub open spec fn child_lines(children: Seq<String>) -> Seq<char>
    decreases children.len(),
{
    if children.len() == 0 {
        Seq::empty()
    } else {
        child_lines(children.drop_last()) + "- ["@ + leaf_of(children.last()@) + "]("@ + group_file(
            children.last()@,
        ) + ")\n"@
    }
}

/// The `## Sub-groups` list, omitted for a leaf group.
pub open spec fn subgroups_text(g: GroupDoc) -> Seq<char> {
    if g.children@.len() == 0 {
        Seq::empty()
    } else {
        "## Sub-groups\n\n"@ + child_lines(g.children@) + "\n"@
    }
}

/// The Base cell: the base unit, shown only when it differs from the display
/// unit.
pub open spec fn base_text(s: SymbolDoc) -> Seq<char> {
    match (s.unit, s.base_unit) {
        (Some(disp), Some(base)) => if disp@ != base@ {
            base@
        } else {
            "—"@
        },
        _ => "—"@,
    }
}

/// One row of a symbol table: the Name, Type, Quantity, Unit, Base, Log rate
/// and Security cells, then the optional Tags and Class cells.
pub open spec fn symbol_row(s: SymbolDoc, tags: bool, class: bool, enums: Seq<EnumDoc>, links: SourceLinker) -> Seq<char> {
    symbol_row_head(s, enums, links) + symbol_row_tail(s, tags, class)
}

/// The rows of the `kind` symbols, in order.
pub open spec fn symbol_rows(
    symbols: Seq<SymbolDoc>,
    kind: SymbolDocKind,
    tags: bool,
    class: bool,
    enums: Seq<EnumDoc>,
    links: SourceLinker,
) -> Seq<char>
    decreases symbols.len(),
{
    if symbols.len() == 0 {
        Seq::empty()
    } else {
        symbol_rows(symbols.drop_last(), kind, tags, class, enums, links) + if symbols.last().kind == kind {
            symbol_row(symbols.last(), tags, class, enums, links)
        } else {
            Seq::empty()
        }
    }
}

pub open spec fn has_kind(symbols: Seq<SymbolDoc>, kind: SymbolDocKind) -> bool {
    exists|i: int| 0 <= i < symbols.len() && (#[trigger] symbols[i]).kind == kind
}

/// The header rows of a symbol table, with the optional Tags and Class
/// columns.
pub open spec fn symbol_table_header(tags: bool, class: bool) -> Seq<char> {
    "| Name | Type | Quantity | Unit | Base | Log rate | Security |"@ + (if tags {
        " Tags |"@
    } else {
        Seq::empty()
    }) + (if class {
        " Class |"@
    } else {
        Seq::empty()
    }) + "\n"@ + "| --- | --- | --- | --- | --- | --- | --- |"@ + (if tags {
        " --- |"@
    } else {
        Seq::empty()
    }) + (if class {
        " --- |"@
    } else {
        Seq::empty()
    }) + "\n"@
}

/// The section of the `kind` symbols, omitted when there are none.
pub open spec fn symbol_section(g: GroupDoc, kind: SymbolDocKind, enums: Seq<EnumDoc>, links: SourceLinker) -> Seq<char> {
    if !has_kind(g.symbols@, kind) {
        Seq::empty()
    } else {
        let tags = shows_tags(g.symbols@, kind);
        let class = shows_class(g.symbols@, kind);
        "## "@ + spec_plural(kind) + "\n\n"@ + symbol_table_header(tags, class) + symbol_rows(
            g.symbols@,
            kind,
            tags,
            class,
            enums,
            links,
        ) + "\n"@
    }
}

pub open spec fn table_entries(ts: Seq<crate::model::TableDoc>, links: SourceLinker) -> Seq<char>
    decreases ts.len(),
{
    if ts.len() == 0 {
        Seq::empty()
    } else {
        table_entries(ts.drop_last(), links) + table_text(ts.last(), links)
    }
}

pub open spec fn object_entries(os: Seq<crate::model::ObjectDoc>, links: SourceLinker) -> Seq<char>
    decreases os.len(),
{
    if os.len() == 0 {
        Seq::empty()
    } else {
        object_entries(os.drop_last(), links) + object_text(os.last(), links)
    }
}

pub open spec fn can_entries(ms: Seq<crate::model::CanMessageDoc>, links: SourceLinker) -> Seq<char>
    decreases ms.len(),
{
    if ms.len() == 0 {
        Seq::empty()
    } else {
        can_entries(ms.drop_last(), links) + can_message_text(ms.last(), links)
    }
}

pub open spec fn function_entries(fs: Seq<crate::model::FunctionDoc>, opts: RenderOptions) -> Seq<char>
    decreases fs.len(),
{
    if fs.len() == 0 {
        Seq::empty()
    } else {
        function_entries(fs.drop_last(), opts) + function_text(fs.last(), opts)
    }
}

/// The tables section of a group page, empty when the group has none.
pub open spec fn tables_section(g: GroupDoc, links: SourceLinker) -> Seq<char> {
    if g.tables@.len() == 0 {
        Seq::empty()
    } else {
        "## Tables\n\n"@ + table_entries(g.tables@, links)
    }
}

/// The objects section of a group page, empty when the group has none.
pub open spec fn objects_section(g: GroupDoc, links: SourceLinker) -> Seq<char> {
    if g.objects@.len() == 0 {
        Seq::empty()
    } else {
        "## Objects\n\n"@ + object_entries(g.objects@, links)
    }
}

/// The CAN messages section of a group page, empty when the group has none.
pub open spec fn can_section(g: GroupDoc, links: SourceLinker) -> Seq<char> {
    if g.can_messages@.len() == 0 {
        Seq::empty()
    } else {
        "## CAN\n\n"@ + can_entries(g.can_messages@, links)
    }
}

/// The functions section of a group page, empty when the group has none.
pub open spec fn functions_section(g: GroupDoc, opts: RenderOptions) -> Seq<char> {
    if g.functions@.len() == 0 {
        Seq::empty()
    } else {
        "## Functions\n\n"@ + function_entries(g.functions@, opts)
    }
}

/// The tables, objects, CAN and functions sections, each omitted when empty.
pub open spec fn entry_sections(g: GroupDoc, opts: RenderOptions, links: SourceLinker) -> Seq<char> {
    tables_section(g, links) + objects_section(g, links) + can_section(g, links) + functions_section(g, opts)
}

/// The Target cell of a reference row: a deep link to the resolved symbol,
/// else the raw target verbatim, else `—`.
pub open spec fn target_text(r: ReferenceDoc, x: CrossRefs) -> Seq<char> {
    match r.target_resolved {
        Some(t) => xref_link_text(t@, loc_of(loc_views(x.symbols@), t@)),
        None => if r.target_raw@.len() == 0 {
            "—"@
        } else {
            "`"@ + r.target_raw@ + "`"@
        },
    }
}

pub open spec fn reference_rows(refs: Seq<ReferenceDoc>, x: CrossRefs, links: SourceLinker) -> Seq<char>
    decreases refs.len(),
{
    if refs.len() == 0 {
        Seq::empty()
    } else {
        reference_rows(refs.drop_last(), x, links) + reference_row(refs.last(), x, links)
    }
}

/// The `## References` table, omitted when the group has none.
pub open spec fn references_text(g: GroupDoc, x: CrossRefs, links: SourceLinker) -> Seq<char> {
    if g.references@.len() == 0 {
        Seq::empty()
    } else {
        "## References\n\n"@ + "| Reference | Target |\n"@ + "| --- | --- |\n"@ + reference_rows(
            g.references@,
            x,
            links,
        ) + "\n"@
    }
}

/// The sorted referrers of `t`, each deep-linked to its reference row.
pub open spec fn referrer_links(x: CrossRefs, t: Seq<char>) -> Seq<Seq<char>> {
    sort_texts(referrers(target_views(x.targets@), t)).map_values(
        |rp: Seq<char>| xref_link_text(rp, loc_of(loc_views(x.references@), rp)),
    )
}

/// Whether some reference targets `t`.
pub open spec fn is_targeted(x: CrossRefs, t: Seq<char>) -> bool {
    referrers(target_views(x.targets@), t).len() > 0
}

pub open spec fn used_by_rows(symbols: Seq<SymbolDoc>, x: CrossRefs) -> Seq<char>
    decreases symbols.len(),
{
    if symbols.len() == 0 {
        Seq::empty()
    } else {
        let s = symbols.last();
        used_by_rows(symbols.drop_last(), x) + if is_targeted(x, s.path@) {
            "| [`"@ + s.path@ + "`](#"@ + s.anchor@ + ") | "@ + join(referrer_links(x, s.path@), ", "@) + " |\n"@
        } else {
            Seq::empty()
        }
    }
}

/// The `## Used by` table: for each symbol of the page that a reference
/// targets, the references that point at it. Omitted when there is none.
pub open spec fn used_by_text(g: GroupDoc, x: CrossRefs) -> Seq<char> {
    if !(exists|i: int| 0 <= i < g.symbols@.len() && is_targeted(x, #[trigger] g.symbols@[i].path@)) {
        Seq::empty()
    } else {
        "## Used by\n\n"@ + "| Symbol | Referenced by |\n"@ + "| --- | --- |\n"@ + used_by_rows(g.symbols@, x) + "\n"@
    }
}

/// A group page, with `d` the relationship diagram of the group.
#[verifier::opaque]
pub open spec fn group_page_text(
    g: GroupDoc,
    enums: Seq<EnumDoc>,
    x: CrossRefs,
    d: Diagram,
    opts: RenderOptions,
    links: SourceLinker,
) -> Seq<char> {
    breadcrumb(g.path@) + "\n\n"@ + "# "@ + g.path@ + "\n\n"@ + relationships_text(g, d) + subgroups_text(g)
        + symbol_section(g, SymbolDocKind::Channel, enums, links) + symbol_section(
        g,
        SymbolDocKind::Parameter,
        enums,
        links,
    ) + symbol_section(g, SymbolDocKind::Constant, enums, links) + entry_sections(g, opts, links)
        + references_text(g, x, links) + used_by_text(g, x)
}

fn push_relationships(out: &mut String, g: &GroupDoc, graph: &ProjectGraph) -> (d: Ghost<Diagram>)
    ensures
        is_diagram_around(d@, graph.edges@, member_paths(*g), GROUP_GRAPH_DEPTH as nat),
        final(out)@ == old(out)@ + relationships_text(*g, d@),
{
    let mut members: Vec<&str> = Vec::new();
    let mut i: usize = 0;
    while i < g.symbols.len()
        invariant
            i <= g.symbols.len(),
            str_views(members@) =~= g.symbols@.take(i as int).map_values(|s: SymbolDoc| s.path@),
        decreases g.symbols.len() - i,
    {
        let ghost before = members@;
        let p = g.symbols[i].path.as_str();
        members.push(p);
        proof {
            lemma_map_push(before, p, |x: &str| x@);
            lemma_take_push(g.symbols@, i as int);
            lemma_map_push(g.symbols@.take(i as int), g.symbols@[i as int], |s: SymbolDoc| s.path@);
        }
        assert(str_views(members@) =~= g.symbols@.take(i + 1).map_values(|s: SymbolDoc| s.path@));
        i += 1;
    }
    assert(g.symbols@.take(g.symbols@.len() as int) =~= g.symbols@);
    let ghost n1 = members@.len();
    let mut j: usize = 0;
    while j < g.functions.len()
        invariant
            j <= g.functions.len(),
            n1 == g.symbols@.len(),
            str_views(members@) =~= g.symbols@.map_values(|s: SymbolDoc| s.path@) + g.functions@.take(
                j as int,
            ).map_values(|f: crate::model::FunctionDoc| f.path@),
        decreases g.functions.len() - j,
    {
        let ghost before = members@;
        let p = g.functions[j].path.as_str();
        members.push(p);
        proof {
            lemma_map_push(before, p, |x: &str| x@);
            lemma_take_push(g.functions@, j as int);
            lemma_map_push(g.functions@.take(j as int), g.functions@[j as int], |f: crate::model::FunctionDoc| f.path@);
        }
        assert(str_views(members@) =~= g.symbols@.map_values(|s: SymbolDoc| s.path@) + g.functions@.take(
            j + 1,
        ).map_values(|f: crate::model::FunctionDoc| f.path@));
        j += 1;
    }
    let mut k: usize = 0;
    while k < g.references.len()
        invariant
            k <= g.references.len(),
            str_views(members@) =~= g.symbols@.map_values(|s: SymbolDoc| s.path@) + g.functions@.map_values(
                |f: crate::model::FunctionDoc| f.path@,
            ) + g.references@.take(k as int).map_values(|r: ReferenceDoc| r.path@),
        decreases g.references.len() - k,
    {
        let ghost before = members@;
        let p = g.references[k].path.as_str();
        members.push(p);
        proof {
            lemma_map_push(before, p, |x: &str| x@);
            lemma_take_push(g.references@, k as int);
            lemma_map_push(g.references@.take(k as int), g.references@[k as int], |r: ReferenceDoc| r.path@);
        }
        assert(str_views(members@) =~= g.symbols@.map_values(|s: SymbolDoc| s.path@) + g.functions@.map_values(
            |f: crate::model::FunctionDoc| f.path@,
        ) + g.references@.take(k + 1).map_values(|r: ReferenceDoc| r.path@));
        k += 1;
    }
    assert(g.functions@.take(g.functions@.len() as int) =~= g.functions@);
    proof {
        let sv = g.symbols@.map_values(|s: SymbolDoc| s.path@);
        let fv = g.functions@.map_values(|f: crate::model::FunctionDoc| f.path@);
        let rv = g.references@.map_values(|r: ReferenceDoc| r.path@);
        assert(g.references@.take(g.references@.len() as int) =~= g.references@);
        let all = str_views(members@);
        assert(all =~= sv + fv + rv);
        assert forall|p: Seq<char>| str_set(members@).contains(p) <==> member_paths(*g).contains(p) by {
            if all.contains(p) {
                let m = choose|m: int| 0 <= m < all.len() && all[m] == p;
                if m < sv.len() {
                    assert(g.symbols@[m].path@ == p);
                } else if m < sv.len() + fv.len() {
                    assert(g.functions@[m - sv.len()].path@ == p);
                } else {
                    assert(g.references@[m - sv.len() - fv.len()].path@ == p);
                }
            }
            if exists|i: int| 0 <= i < g.symbols@.len() && #[trigger] g.symbols@[i].path@ == p {
                let i = choose|i: int| 0 <= i < g.symbols@.len() && #[trigger] g.symbols@[i].path@ == p;
                assert(all[i] == p);
            }
            if exists|i: int| 0 <= i < g.functions@.len() && #[trigger] g.functions@[i].path@ == p {
                let i = choose|i: int| 0 <= i < g.functions@.len() && #[trigger] g.functions@[i].path@ == p;
                assert(all[sv.len() + i] == p);
            }
            if exists|i: int| 0 <= i < g.references@.len() && #[trigger] g.references@[i].path@ == p {
                let i = choose|i: int| 0 <= i < g.references@.len() && #[trigger] g.references@[i].path@ == p;
                assert(all[sv.len() + fv.len() + i] == p);
            }
        }
        assert(str_set(members@) =~= member_paths(*g));
    }
    let d = Diagram::for_group(graph, members.as_slice(), g.path.as_str(), GROUP_GRAPH_DEPTH);
    proof {
        lemma_around_edges_on_nodes(d, graph.edges@, member_paths(*g), GROUP_GRAPH_DEPTH as nat);
    }
    if !d.is_empty() {
        out.append("## Relationships\n\n");
        emit_graph_block(out, "group", g.path.as_str(), GROUP_GRAPH_DEPTH, &d);
    }
    assert(final(out)@ =~= old(out)@ + relationships_text(*g, d));
    Ghost(d)
}

fn push_subgroups(out: &mut String, g: &GroupDoc)
    ensures
        final(out)@ == old(out)@ + subgroups_text(*g),
{
    if g.children.len() > 0 {
        out.append("## Sub-groups\n\n");
        let ghost head = out@;
        let mut i: usize = 0;
        while i < g.children.len()
            invariant
                i <= g.children.len(),
                out@ == head + child_lines(g.children@.take(i as int)),
            decreases g.children.len() - i,
        {
            let c = g.children[i].as_str();
            out.append("- [");
            out.append(last_segment(c).as_str());
            out.append("](");
            out.append(group_filename(c).as_str());
            out.append(")\n");
            assert(g.children@.take(i + 1).drop_last() =~= g.children@.take(i as int));
            assert(out@ =~= head + child_lines(g.children@.take(i + 1)));
            i += 1;
        }
        assert(g.children@.take(g.children@.len() as int) =~= g.children@);
        out.append("\n");
    }
    assert(final(out)@ =~= old(out)@ + subgroups_text(*g));
}

fn push_base(out: &mut String, s: &SymbolDoc)
    ensures
        final(out)@ == old(out)@ + base_text(*s),
{
    match (&s.unit, &s.base_unit) {
        (Some(disp), Some(base)) => {
            if !str_eq(disp.as_str(), base.as_str()) {
                out.append(base.as_str());
            } else {
                out.append("—");
            }
        },
        _ => out.append("—"),
    }
}

fn push_opt(out: &mut String, o: &Option<String>)
    ensures
        final(out)@ == old(out)@ + or_dash(*o),
{
    match o {
        Some(s) => out.append(s.as_str()),
        None => out.append("—"),
    }
}

/// The first cells of a symbol row, up to the Security cell.
pub open spec fn symbol_row_head(s: SymbolDoc, enums: Seq<EnumDoc>, links: SourceLinker) -> Seq<char> {
    symbol_row_id(s, enums, links) + symbol_row_values(s)
}

/// The Name and Type cells of a symbol row.
pub open spec fn symbol_row_id(s: SymbolDoc, enums: Seq<EnumDoc>, links: SourceLinker) -> Seq<char> {
    "| "@ + row_anchor_text(s) + "`"@ + s.path@ + "`"@ + src_suffix(links, s.def_line) + " | "@ + type_cell_text(
        s,
        enums,
    ) + " | "@
}

/// The Quantity, Unit, Base, Log rate and Security cells of a symbol row.
pub open spec fn symbol_row_values(s: SymbolDoc) -> Seq<char> {
    or_dash(s.quantity) + " | "@ + or_dash(s.unit) + " | "@ + base_text(s) + " | "@ + rate_text(s.log_rate_hz)
        + " | "@ + or_dash(s.security) + " |"@
}

/// The optional Tags and Class cells of a symbol row, and the line end.
pub open spec fn symbol_row_tail(s: SymbolDoc, tags: bool, class: bool) -> Seq<char> {
    (if tags {
        " "@ + tags_cell_text(s) + " |"@
    } else {
        Seq::empty()
    }) + (if class {
        " "@ + or_dash(s.classname) + " |"@
    } else {
        Seq::empty()
    }) + "\n"@
}

fn push_symbol_row_id(out: &mut String, s: &SymbolDoc, enums: &Vec<EnumDoc>, links: &SourceLinker)
    ensures
        final(out)@ == old(out)@ + symbol_row_id(*s, enums@, *links),
{
    out.append("| ");
    out.append(row_anchor(s).as_str());
    out.append("`");
    out.append(s.path.as_str());
    out.append("`");
    out.append(links.suffix(s.def_line).as_str());
    out.append(" | ");
    out.append(type_cell(s, enums).as_str());
    out.append(" | ");
    assert(final(out)@ =~= old(out)@ + symbol_row_id(*s, enums@, *links));
}

fn push_symbol_row_values(out: &mut String, s: &SymbolDoc)
    ensures
        final(out)@ == old(out)@ + symbol_row_values(*s),
{
    push_opt(out, &s.quantity);
    out.append(" | ");
    push_opt(out, &s.unit);
    out.append(" | ");
    push_base(out, s);
    out.append(" | ");
    out.append(format_rate(&s.log_rate_hz).as_str());
    out.append(" | ");
    push_opt(out, &s.security);
    out.append(" |");
    assert(final(out)@ =~= old(out)@ + symbol_row_values(*s));
}

fn push_symbol_row_head(out: &mut String, s: &SymbolDoc, enums: &Vec<EnumDoc>, links: &SourceLinker)
    ensures
        final(out)@ == old(out)@ + symbol_row_head(*s, enums@, *links),
{
    push_symbol_row_id(out, s, enums, links);
    push_symbol_row_values(out, s);
    assert(final(out)@ =~= old(out)@ + symbol_row_head(*s, enums@, *links));
}

#[verifier::rlimit(50)]
fn push_symbol_row(out: &mut String, s: &SymbolDoc, tags: bool, class: bool, enums: &Vec<EnumDoc>, links: &SourceLinker)
    ensures
        final(out)@ == old(out)@ + symbol_row(*s, tags, class, enums@, *links),
{
    push_symbol_row_head(out, s, enums, links);
    let ghost mid = out@;
    if tags {
        out.append(" ");
        out.append(tags_cell(s).as_str());
        out.append(" |");
    }
    if class {
        out.append(" ");
        push_opt(out, &s.classname);
        out.append(" |");
    }
    out.append("\n");
    assert(out@ =~= mid + symbol_row_tail(*s, tags, class));
    assert(final(out)@ =~= old(out)@ + symbol_row(*s, tags, class, enums@, *links));
}

fn push_table_header(out: &mut String, tags: bool, class: bool)
    ensures
        final(out)@ == old(out)@ + symbol_table_header(tags, class),
{
    out.append("| Name | Type | Quantity | Unit | Base | Log rate | Security |");
    if tags {
        out.append(" Tags |");
    }
    if class {
        out.append(" Class |");
    }
    out.append("\n");
    out.append("| --- | --- | --- | --- | --- | --- | --- |");
    if tags {
        out.append(" --- |");
    }
    if class {
        out.append(" --- |");
    }
    out.append("\n");
    assert(final(out)@ =~= old(out)@ + symbol_table_header(tags, class));
}

#[verifier::rlimit(50)]
fn push_symbol_section(out: &mut String, g: &GroupDoc, kind: SymbolDocKind, enums: &Vec<EnumDoc>, links: &SourceLinker)
    ensures
        final(out)@ == old(out)@ + symbol_section(*g, kind, enums@, *links),
{
    let symbols = &g.symbols;
    let mut any = false;
    let mut i: usize = 0;
    while i < symbols.len()
        invariant
            i <= symbols.len(),
            any == exists|k: int| 0 <= k < i && (#[trigger] symbols@[k]).kind == kind,
        decreases symbols.len() - i,
    {
        if symbols[i].kind.same(kind) {
            any = true;
        }
        i += 1;
    }
    if !any {
        assert(final(out)@ =~= old(out)@ + symbol_section(*g, kind, enums@, *links));
        return;
    }
    let class = section_shows_class(symbols, kind);
    let tags = section_shows_tags(symbols, kind);
    out.append("## ");
    out.append(kind.plural());
    out.append("\n\n");
    push_table_header(out, tags, class);
    let ghost head = out@;
    let mut j: usize = 0;
    while j < symbols.len()
        invariant
            j <= symbols.len(),
            out@ == head + symbol_rows(symbols@.take(j as int), kind, tags, class, enums@, *links),
        decreases symbols.len() - j,
    {
        assert(symbols@.take(j + 1).drop_last() =~= symbols@.take(j as int));
        if symbols[j].kind.same(kind) {
            push_symbol_row(out, &symbols[j], tags, class, enums, links);
        }
        assert(out@ =~= head + symbol_rows(symbols@.take(j + 1), kind, tags, class, enums@, *links));
        j += 1;
    }
    assert(symbols@.take(symbols@.len() as int) =~= symbols@);
    out.append("\n");
    assert(final(out)@ =~= old(out)@ + symbol_section(*g, kind, enums@, *links));
}

fn push_tables(out: &mut String, g: &GroupDoc, links: &SourceLinker)
    ensures
        final(out)@ == old(out)@ + tables_section(*g, *links),
{
    if g.tables.len() > 0 {
        out.append("## Tables\n\n");
        let ghost head = out@;
        let mut i: usize = 0;
        while i < g.tables.len()
            invariant
                i <= g.tables.len(),
                out@ == head + table_entries(g.tables@.take(i as int), *links),
            decreases g.tables.len() - i,
        {
            out.append(render_table(&g.tables[i], links).as_str());
            assert(g.tables@.take(i + 1).drop_last() =~= g.tables@.take(i as int));
            assert(out@ =~= head + table_entries(g.tables@.take(i + 1), *links));
            i += 1;
        }
        assert(g.tables@.take(g.tables@.len() as int) =~= g.tables@);
    }
    assert(final(out)@ =~= old(out)@ + (if g.tables@.len() == 0 {
        Seq::empty()
    } else {
        "## Tables\n\n"@ + table_entries(g.tables@, *links)
    }));
}

fn push_objects(out: &mut String, g: &GroupDoc, links: &SourceLinker)
    ensures
        final(out)@ == old(out)@ + objects_section(*g, *links),
{
    if g.objects.len() > 0 {
        out.append("## Objects\n\n");
        let ghost head = out@;
        let mut i: usize = 0;
        while i < g.objects.len()
            invariant
                i <= g.objects.len(),
                out@ == head + object_entries(g.objects@.take(i as int), *links),
            decreases g.objects.len() - i,
        {
            out.append(render_object(&g.objects[i], links).as_str());
            assert(g.objects@.take(i + 1).drop_last() =~= g.objects@.take(i as int));
            assert(out@ =~= head + object_entries(g.objects@.take(i + 1), *links));
            i += 1;
        }
        assert(g.objects@.take(g.objects@.len() as int) =~= g.objects@);
    }
    assert(final(out)@ =~= old(out)@ + (if g.objects@.len() == 0 {
        Seq::empty()
    } else {
        "## Objects\n\n"@ + object_entries(g.objects@, *links)
    }));
}

fn push_can(out: &mut String, g: &GroupDoc, links: &SourceLinker)
    ensures
        final(out)@ == old(out)@ + can_section(*g, *links),
{
    if g.can_messages.len() > 0 {
        out.append("## CAN\n\n");
        let ghost head = out@;
        let mut i: usize = 0;
        while i < g.can_messages.len()
            invariant
                i <= g.can_messages.len(),
                out@ == head + can_entries(g.can_messages@.take(i as int), *links),
            decreases g.can_messages.len() - i,
        {
            out.append(render_can_message(&g.can_messages[i], links).as_str());
            assert(g.can_messages@.take(i + 1).drop_last() =~= g.can_messages@.take(i as int));
            assert(out@ =~= head + can_entries(g.can_messages@.take(i + 1), *links));
            i += 1;
        }
        assert(g.can_messages@.take(g.can_messages@.len() as int) =~= g.can_messages@);
    }
    assert(final(out)@ =~= old(out)@ + (if g.can_messages@.len() == 0 {
        Seq::empty()
    } else {
        "## CAN\n\n"@ + can_entries(g.can_messages@, *links)
    }));
}

fn push_functions(out: &mut String, g: &GroupDoc, opts: &RenderOptions)
    ensures
        final(out)@ == old(out)@ + functions_section(*g, *opts),
{
    if g.functions.len() > 0 {
        out.append("## Functions\n\n");
        let ghost head = out@;
        let mut i: usize = 0;
        while i < g.functions.len()
            invariant
                i <= g.functions.len(),
                out@ == head + function_entries(g.functions@.take(i as int), *opts),
            decreases g.functions.len() - i,
        {
            out.append(render_function(&g.functions[i], opts).as_str());
            assert(g.functions@.take(i + 1).drop_last() =~= g.functions@.take(i as int));
            assert(out@ =~= head + function_entries(g.functions@.take(i + 1), *opts));
            i += 1;
        }
        assert(g.functions@.take(g.functions@.len() as int) =~= g.functions@);
    }
    assert(final(out)@ =~= old(out)@ + (if g.functions@.len() == 0 {
        Seq::empty()
    } else {
        "## Functions\n\n"@ + function_entries(g.functions@, *opts)
    }));
}

#[verifier::rlimit(40)]
fn push_entry_sections(out: &mut String, g: &GroupDoc, opts: &RenderOptions, links: &SourceLinker)
    ensures
        final(out)@ == old(out)@ + entry_sections(*g, *opts, *links),
{
    push_tables(out, g, links);
    push_objects(out, g, links);
    push_can(out, g, links);
    push_functions(out, g, opts);
    assert(final(out)@ =~= old(out)@ + entry_sections(*g, *opts, *links));
}

/// One row of the references table.
pub open spec fn reference_row(r: ReferenceDoc, x: CrossRefs, links: SourceLinker) -> Seq<char> {
    "| <a id=\""@ + r.anchor@ + "\"></a>`"@ + r.path@ + "`"@ + src_suffix(links, r.def_line) + " | "@ + target_text(r, x)
        + " |\n"@
}

#[verifier::rlimit(50)]
fn push_reference_row(out: &mut String, r: &ReferenceDoc, x: &CrossRefs, links: &SourceLinker)
    ensures
        final(out)@ == old(out)@ + reference_row(*r, *x, *links),
{
    out.append("| <a id=\"");
    out.append(r.anchor.as_str());
    out.append("\"></a>`");
    out.append(r.path.as_str());
    out.append("`");
    out.append(links.suffix(r.def_line).as_str());
    out.append(" | ");
    let ghost mid = out@;
    match &r.target_resolved {
        Some(t) => push_xref_link(out, t.as_str(), &x.symbols),
        None => {
            if is_empty_str(r.target_raw.as_str()) {
                out.append("—");
            } else {
                out.append("`");
                out.append(r.target_raw.as_str());
                out.append("`");
            }
        },
    }
    assert(out@ =~= mid + target_text(*r, *x));
    out.append(" |\n");
    assert(final(out)@ =~= old(out)@ + reference_row(*r, *x, *links));
}

fn push_references(out: &mut String, g: &GroupDoc, x: &CrossRefs, links: &SourceLinker)
    ensures
        final(out)@ == old(out)@ + references_text(*g, *x, *links),
{
    if g.references.len() == 0 {
        assert(final(out)@ =~= old(out)@ + references_text(*g, *x, *links));
        return;
    }
    out.append("## References\n\n");
    out.append("| Reference | Target |\n");
    out.append("| --- | --- |\n");
    let ghost head = out@;
    let mut i: usize = 0;
    while i < g.references.len()
        invariant
            i <= g.references.len(),
            out@ == head + reference_rows(g.references@.take(i as int), *x, *links),
        decreases g.references.len() - i,
    {
        push_reference_row(out, &g.references[i], x, links);
        assert(g.references@.take(i + 1).drop_last() =~= g.references@.take(i as int));
        assert(out@ =~= head + reference_rows(g.references@.take(i + 1), *x, *links));
        i += 1;
    }
    assert(g.references@.take(g.references@.len() as int) =~= g.references@);
    out.append("\n");
    assert(final(out)@ =~= old(out)@ + references_text(*g, *x, *links));
}

fn push_referrer_links(out: &mut String, x: &CrossRefs, t: &str)
    ensures
        final(out)@ == old(out)@ + join(referrer_links(*x, t@), ", "@),
        is_targeted(*x, t@) == (sort_texts(referrers(target_views(x.targets@), t@)).len() > 0),
{
    let refs = sorted_referrers(&x.targets, t);
    let ghost rv = refs@.map_values(|s: String| s@);
    let ghost links = referrer_links(*x, t@);
    assert(links =~= rv.map_values(|rp: Seq<char>| xref_link_text(rp, loc_of(loc_views(x.references@), rp))));
    let ghost start = out@;
    let mut i: usize = 0;
    while i < refs.len()
        invariant
            i <= refs.len(),
            rv == refs@.map_values(|s: String| s@),
            links.len() == refs@.len(),
            forall|k: int| 0 <= k < links.len() ==> #[trigger] links[k] == xref_link_text(rv[k], loc_of(loc_views(x.references@), rv[k])),
            out@ == start + join(links.take(i as int), ", "@),
        decreases refs.len() - i,
    {
        let ghost before = out@;
        if i > 0 {
            out.append(", ");
        }
        push_xref_link(out, refs[i].as_str(), &x.references);
        proof {
            let tk = links.take(i + 1);
            assert(tk.drop_last() =~= links.take(i as int));
            assert(tk.last() == links[i as int]);
            if i == 0 {
                assert(links.take(0) =~= Seq::<Seq<char>>::empty());
            }
            assert(out@ =~= start + join(tk, ", "@));
        }
        i += 1;
    }
    assert(links.take(links.len() as int) =~= links);
    proof {
        lemma_sort_len(referrers(target_views(x.targets@), t@));
    }
}

proof fn lemma_insert_len(sorted: Seq<Seq<char>>, x: Seq<char>)
    ensures
        insert_in_order(sorted, x).len() == sorted.len() + 1,
    decreases sorted.len(),
{
    if sorted.len() > 0 && !seq_lt(x, sorted[0]) {
        lemma_insert_len(sorted.drop_first(), x);
    }
}

proof fn lemma_sort_len(s: Seq<Seq<char>>)
    ensures
        sort_texts(s).len() == s.len(),
    decreases s.len(),
{
    if s.len() > 0 {
        lemma_sort_len(s.drop_last());
        lemma_insert_len(sort_texts(s.drop_last()), s.last());
    }
}

fn targeted(x: &CrossRefs, t: &str) -> (r: bool)
    ensures
        r == is_targeted(*x, t@),
{
    let mut i: usize = 0;
    while i < x.targets.len()
        invariant
            i <= x.targets.len(),
            referrers(target_views(x.targets@).take(i as int), t@).len() == 0,
        decreases x.targets.len() - i,
    {
        let ghost tv = target_views(x.targets@).take(i + 1);
        assert(tv.drop_last() =~= target_views(x.targets@).take(i as int));
        assert(tv.last() == (x.targets@[i as int].target@, x.targets@[i as int].reference@));
        if str_eq(x.targets[i].target.as_str(), t) {
            proof {
                lemma_referrers_prefix(target_views(x.targets@), t@, i + 1);
            }
            return true;
        }
        i += 1;
    }
    assert(target_views(x.targets@).take(x.targets@.len() as int) =~= target_views(x.targets@));
    false
}

/// Referrers only grow along a prefix.
proof fn lemma_referrers_prefix(ts: Seq<(Seq<char>, Seq<char>)>, t: Seq<char>, n: int)
    requires
        0 <= n <= ts.len(),
    ensures
        referrers(ts.take(n), t).len() <= referrers(ts, t).len(),
    decreases ts.len() - n,
{
    if n < ts.len() {
        lemma_referrers_prefix(ts, t, n + 1);
        let tk = ts.take(n + 1);
        assert(tk.drop_last() =~= ts.take(n));
    } else {
        assert(ts.take(n) =~= ts);
    }
}

fn push_used_by(out: &mut String, g: &GroupDoc, x: &CrossRefs)
    ensures
        final(out)@ == old(out)@ + used_by_text(*g, *x),
{
    let symbols = &g.symbols;
    let mut any = false;
    let mut i: usize = 0;
    while i < symbols.len()
        invariant
            i <= symbols.len(),
            any == exists|k: int| 0 <= k < i && is_targeted(*x, #[trigger] symbols@[k].path@),
        decreases symbols.len() - i,
    {
        if targeted(x, symbols[i].path.as_str()) {
            any = true;
        }
        i += 1;
    }
    if !any {
        assert(final(out)@ =~= old(out)@ + used_by_text(*g, *x));
        return;
    }
    out.append("## Used by\n\n");
    out.append("| Symbol | Referenced by |\n");
    out.append("| --- | --- |\n");
    let ghost head = out@;
    let mut j: usize = 0;
    while j < symbols.len()
        invariant
            j <= symbols.len(),
            out@ == head + used_by_rows(symbols@.take(j as int), *x),
        decreases symbols.len() - j,
    {
        let s = &symbols[j];
        assert(symbols@.take(j + 1).drop_last() =~= symbols@.take(j as int));
        if targeted(x, s.path.as_str()) {
            out.append("| [`");
            out.append(s.path.as_str());
            out.append("`](#");
            out.append(s.anchor.as_str());
            out.append(") | ");
            push_referrer_links(out, x, s.path.as_str());
            out.append(" |\n");
        }
        assert(out@ =~= head + used_by_rows(symbols@.take(j + 1), *x));
        j += 1;
    }
    assert(symbols@.take(symbols@.len() as int) =~= symbols@);
    out.append("\n");
    assert(final(out)@ =~= old(out)@ + used_by_text(*g, *x));
}

/// Render one group page: breadcrumb and heading, the relationship graph, the
/// sub-group list, the channel / parameter / constant tables, the tables,
/// objects, CAN and function sections, then the references and used-by
/// tables. The relationship diagram is the group's direct members expanded
/// one hop.
pub fn render_group(
    group: &GroupDoc,
    enums: &Vec<EnumDoc>,
    xrefs: &CrossRefs,
    graph: &ProjectGraph,
    opts: &RenderOptions,
    links: &SourceLinker,
) -> (r: String)
    ensures
        exists|d: Diagram|
            is_diagram_around(d, graph.edges@, member_paths(*group), GROUP_GRAPH_DEPTH as nat)
                && r@ == group_page_text(*group, enums@, *xrefs, d, *opts, *links),
{
    let mut out = String::new();
    out.append(render_breadcrumb(group.path.as_str()).as_str());
    out.append("\n\n");
    out.append("# ");
    out.append(group.path.as_str());
    out.append("\n\n");
    let ghost head = out@;
    let d = push_relationships(&mut out, group, graph);
    let ghost rel = out@;
    push_subgroups(&mut out, group);
    push_symbol_section(&mut out, group, SymbolDocKind::Channel, enums, links);
    push_symbol_section(&mut out, group, SymbolDocKind::Parameter, enums, links);
    push_symbol_section(&mut out, group, SymbolDocKind::Constant, enums, links);
    push_entry_sections(&mut out, group, opts, links);
    push_references(&mut out, group, xrefs, links);
    push_used_by(&mut out, group, xrefs);
    reveal(group_page_text);
    assert(out@ =~= group_page_text(*group, enums@, *xrefs, d@, *opts, *links));
    out
}

/// A header `## <name>\n\n` opening a section holds `## <name>`.
proof fn lemma_header_in_section(name: Seq<char>, r: Seq<char>)
    ensures
        contains_text("## "@ + name + "\n\n"@ + r, "## "@ + name),
{
    assert("## "@ + name + "\n\n"@ + r =~= ("## "@ + name) + ("\n\n"@ + r));
    lemma_contains_prefix("## "@ + name, "\n\n"@ + r);
}


proof fn lemma_header_sub(
    g: GroupDoc,
    enums: Seq<EnumDoc>,
    x: CrossRefs,
    d: Diagram,
    opts: RenderOptions,
    links: SourceLinker,
)
    ensures
        g.children@.len() > 0 ==> contains_text(group_page_text(g, enums, x, d, opts, links), "## Sub-groups"@),
{
    if g.children@.len() > 0 {
        reveal_strlit("## ");
        reveal_strlit("Sub-groups");
        reveal_strlit("## Sub-groups");
        assert("## "@ + "Sub-groups"@ =~= "## Sub-groups"@);
        let r = child_lines(g.children@) + "\n"@;
        assert(subgroups_text(g) == "## "@ + "Sub-groups"@ + "\n\n"@ + r) by {
            reveal_strlit("## Sub-groups\n\n");
            reveal_strlit("\n\n");
            assert("## Sub-groups\n\n"@ =~= "## "@ + "Sub-groups"@ + "\n\n"@);
        }
        lemma_header_in_section("Sub-groups"@, r);
        lemma_contains_left(breadcrumb(g.path@) + "\n\n"@ + "# "@ + g.path@ + "\n\n"@ + relationships_text(g, d), subgroups_text(g), "## Sub-groups"@);
        lemma_contains_right(breadcrumb(g.path@) + "\n\n"@ + "# "@ + g.path@ + "\n\n"@ + relationships_text(g, d) + subgroups_text(g), symbol_section(g, SymbolDocKind::Channel, enums, links), "## Sub-groups"@);
        lemma_contains_right(breadcrumb(g.path@) + "\n\n"@ + "# "@ + g.path@ + "\n\n"@ + relationships_text(g, d) + subgroups_text(g) + symbol_section(g, SymbolDocKind::Channel, enums, links), symbol_section(g, SymbolDocKind::Parameter, enums, links), "## Sub-groups"@);
        lemma_contains_right(breadcrumb(g.path@) + "\n\n"@ + "# "@ + g.path@ + "\n\n"@ + relationships_text(g, d) + subgroups_text(g) + symbol_section(g, SymbolDocKind::Channel, enums, links) + symbol_section(g, SymbolDocKind::Parameter, enums, links), symbol_section(g, SymbolDocKind::Constant, enums, links), "## Sub-groups"@);
        lemma_contains_right(breadcrumb(g.path@) + "\n\n"@ + "# "@ + g.path@ + "\n\n"@ + relationships_text(g, d) + subgroups_text(g) + symbol_section(g, SymbolDocKind::Channel, enums, links) + symbol_section(g, SymbolDocKind::Parameter, enums, links) + symbol_section(g, SymbolDocKind::Constant, enums, links), entry_sections(g, opts, links), "## Sub-groups"@);
        lemma_contains_right(breadcrumb(g.path@) + "\n\n"@ + "# "@ + g.path@ + "\n\n"@ + relationships_text(g, d) + subgroups_text(g) + symbol_section(g, SymbolDocKind::Channel, enums, links) + symbol_section(g, SymbolDocKind::Parameter, enums, links) + symbol_section(g, SymbolDocKind::Constant, enums, links) + entry_sections(g, opts, links), references_text(g, x, links), "## Sub-groups"@);
        lemma_contains_right(breadcrumb(g.path@) + "\n\n"@ + "# "@ + g.path@ + "\n\n"@ + relationships_text(g, d) + subgroups_text(g) + symbol_section(g, SymbolDocKind::Channel, enums, links) + symbol_section(g, SymbolDocKind::Parameter, enums, links) + symbol_section(g, SymbolDocKind::Constant, enums, links) + entry_sections(g, opts, links) + references_text(g, x, links), used_by_text(g, x), "## Sub-groups"@);
        reveal(group_page_text);
        assert(group_page_text(g, enums, x, d, opts, links) == breadcrumb(g.path@) + "\n\n"@ + "# "@ + g.path@ + "\n\n"@ + relationships_text(g, d) + subgroups_text(g) + symbol_section(g, SymbolDocKind::Channel, enums, links) + symbol_section(g, SymbolDocKind::Parameter, enums, links) + symbol_section(g, SymbolDocKind::Constant, enums, links) + entry_sections(g, opts, links) + references_text(g, x, links) + used_by_text(g, x));
    }
}

proof fn lemma_header_ch(
    g: GroupDoc,
    enums: Seq<EnumDoc>,
    x: CrossRefs,
    d: Diagram,
    opts: RenderOptions,
    links: SourceLinker,
)
    ensures
        has_kind(g.symbols@, SymbolDocKind::Channel) ==> contains_text(group_page_text(g, enums, x, d, opts, links), "## Channels"@),
{
    if has_kind(g.symbols@, SymbolDocKind::Channel) {
        reveal_strlit("## ");
        reveal_strlit("Channels");
        reveal_strlit("## Channels");
        assert("## "@ + "Channels"@ =~= "## Channels"@);
        let r = symbol_table_header(
            shows_tags(g.symbols@, SymbolDocKind::Channel),
            shows_class(g.symbols@, SymbolDocKind::Channel),
        ) + symbol_rows(
            g.symbols@,
            SymbolDocKind::Channel,
            shows_tags(g.symbols@, SymbolDocKind::Channel),
            shows_class(g.symbols@, SymbolDocKind::Channel),
            enums,
            links,
        ) + "\n"@;
        assert(symbol_section(g, SymbolDocKind::Channel, enums, links) == "## "@ + "Channels"@ + "\n\n"@ + r) by {
            reveal_strlit("## Channels\n\n");
            reveal_strlit("\n\n");
            assert("## Channels\n\n"@ =~= "## "@ + "Channels"@ + "\n\n"@);
        }
        lemma_header_in_section("Channels"@, r);
        lemma_contains_left(breadcrumb(g.path@) + "\n\n"@ + "# "@ + g.path@ + "\n\n"@ + relationships_text(g, d) + subgroups_text(g), symbol_section(g, SymbolDocKind::Channel, enums, links), "## Channels"@);
        lemma_contains_right(breadcrumb(g.path@) + "\n\n"@ + "# "@ + g.path@ + "\n\n"@ + relationships_text(g, d) + subgroups_text(g) + symbol_section(g, SymbolDocKind::Channel, enums, links), symbol_section(g, SymbolDocKind::Parameter, enums, links), "## Channels"@);
        lemma_contains_right(breadcrumb(g.path@) + "\n\n"@ + "# "@ + g.path@ + "\n\n"@ + relationships_text(g, d) + subgroups_text(g) + symbol_section(g, SymbolDocKind::Channel, enums, links) + symbol_section(g, SymbolDocKind::Parameter, enums, links), symbol_section(g, SymbolDocKind::Constant, enums, links), "## Channels"@);
        lemma_contains_right(breadcrumb(g.path@) + "\n\n"@ + "# "@ + g.path@ + "\n\n"@ + relationships_text(g, d) + subgroups_text(g) + symbol_section(g, SymbolDocKind::Channel, enums, links) + symbol_section(g, SymbolDocKind::Parameter, enums, links) + symbol_section(g, SymbolDocKind::Constant, enums, links), entry_sections(g, opts, links), "## Channels"@);
        lemma_contains_right(breadcrumb(g.path@) + "\n\n"@ + "# "@ + g.path@ + "\n\n"@ + relationships_text(g, d) + subgroups_text(g) + symbol_section(g, SymbolDocKind::Channel, enums, links) + symbol_section(g, SymbolDocKind::Parameter, enums, links) + symbol_section(g, SymbolDocKind::Constant, enums, links) + entry_sections(g, opts, links), references_text(g, x, links), "## Channels"@);
        lemma_contains_right(breadcrumb(g.path@) + "\n\n"@ + "# "@ + g.path@ + "\n\n"@ + relationships_text(g, d) + subgroups_text(g) + symbol_section(g, SymbolDocKind::Channel, enums, links) + symbol_section(g, SymbolDocKind::Parameter, enums, links) + symbol_section(g, SymbolDocKind::Constant, enums, links) + entry_sections(g, opts, links) + references_text(g, x, links), used_by_text(g, x), "## Channels"@);
        reveal(group_page_text);
        assert(group_page_text(g, enums, x, d, opts, links) == breadcrumb(g.path@) + "\n\n"@ + "# "@ + g.path@ + "\n\n"@ + relationships_text(g, d) + subgroups_text(g) + symbol_section(g, SymbolDocKind::Channel, enums, links) + symbol_section(g, SymbolDocKind::Parameter, enums, links) + symbol_section(g, SymbolDocKind::Constant, enums, links) + entry_sections(g, opts, links) + references_text(g, x, links) + used_by_text(g, x));
    }
}

proof fn lemma_header_pa(
    g: GroupDoc,
    enums: Seq<EnumDoc>,
    x: CrossRefs,
    d: Diagram,
    opts: RenderOptions,
    links: SourceLinker,
)
    ensures
        has_kind(g.symbols@, SymbolDocKind::Parameter) ==> contains_text(group_page_text(g, enums, x, d, opts, links), "## Parameters"@),
{
    if has_kind(g.symbols@, SymbolDocKind::Parameter) {
        reveal_strlit("## ");
        reveal_strlit("Parameters");
        reveal_strlit("## Parameters");
        assert("## "@ + "Parameters"@ =~= "## Parameters"@);
        let r = symbol_table_header(
            shows_tags(g.symbols@, SymbolDocKind::Parameter),
            shows_class(g.symbols@, SymbolDocKind::Parameter),
        ) + symbol_rows(
            g.symbols@,
            SymbolDocKind::Parameter,
            shows_tags(g.symbols@, SymbolDocKind::Parameter),
            shows_class(g.symbols@, SymbolDocKind::Parameter),
            enums,
            links,
        ) + "\n"@;
        assert(symbol_section(g, SymbolDocKind::Parameter, enums, links) == "## "@ + "Parameters"@ + "\n\n"@ + r) by {
            reveal_strlit("## Parameters\n\n");
            reveal_strlit("\n\n");
            assert("## Parameters\n\n"@ =~= "## "@ + "Parameters"@ + "\n\n"@);
        }
        lemma_header_in_section("Parameters"@, r);
        lemma_contains_left(breadcrumb(g.path@) + "\n\n"@ + "# "@ + g.path@ + "\n\n"@ + relationships_text(g, d) + subgroups_text(g) + symbol_section(g, SymbolDocKind::Channel, enums, links), symbol_section(g, SymbolDocKind::Parameter, enums, links), "## Parameters"@);
        lemma_contains_right(breadcrumb(g.path@) + "\n\n"@ + "# "@ + g.path@ + "\n\n"@ + relationships_text(g, d) + subgroups_text(g) + symbol_section(g, SymbolDocKind::Channel, enums, links) + symbol_section(g, SymbolDocKind::Parameter, enums, links), symbol_section(g, SymbolDocKind::Constant, enums, links), "## Parameters"@);
        lemma_contains_right(breadcrumb(g.path@) + "\n\n"@ + "# "@ + g.path@ + "\n\n"@ + relationships_text(g, d) + subgroups_text(g) + symbol_section(g, SymbolDocKind::Channel, enums, links) + symbol_section(g, SymbolDocKind::Parameter, enums, links) + symbol_section(g, SymbolDocKind::Constant, enums, links), entry_sections(g, opts, links), "## Parameters"@);
        lemma_contains_right(breadcrumb(g.path@) + "\n\n"@ + "# "@ + g.path@ + "\n\n"@ + relationships_text(g, d) + subgroups_text(g) + symbol_section(g, SymbolDocKind::Channel, enums, links) + symbol_section(g, SymbolDocKind::Parameter, enums, links) + symbol_section(g, SymbolDocKind::Constant, enums, links) + entry_sections(g, opts, links), references_text(g, x, links), "## Parameters"@);
        lemma_contains_right(breadcrumb(g.path@) + "\n\n"@ + "# "@ + g.path@ + "\n\n"@ + relationships_text(g, d) + subgroups_text(g) + symbol_section(g, SymbolDocKind::Channel, enums, links) + symbol_section(g, SymbolDocKind::Parameter, enums, links) + symbol_section(g, SymbolDocKind::Constant, enums, links) + entry_sections(g, opts, links) + references_text(g, x, links), used_by_text(g, x), "## Parameters"@);
        reveal(group_page_text);
        assert(group_page_text(g, enums, x, d, opts, links) == breadcrumb(g.path@) + "\n\n"@ + "# "@ + g.path@ + "\n\n"@ + relationships_text(g, d) + subgroups_text(g) + symbol_section(g, SymbolDocKind::Channel, enums, links) + symbol_section(g, SymbolDocKind::Parameter, enums, links) + symbol_section(g, SymbolDocKind::Constant, enums, links) + entry_sections(g, opts, links) + references_text(g, x, links) + used_by_text(g, x));
    }
}

proof fn lemma_header_co(
    g: GroupDoc,
    enums: Seq<EnumDoc>,
    x: CrossRefs,
    d: Diagram,
    opts: RenderOptions,
    links: SourceLinker,
)
    ensures
        has_kind(g.symbols@, SymbolDocKind::Constant) ==> contains_text(group_page_text(g, enums, x, d, opts, links), "## Constants"@),
{
    if has_kind(g.symbols@, SymbolDocKind::Constant) {
        reveal_strlit("## ");
        reveal_strlit("Constants");
        reveal_strlit("## Constants");
        assert("## "@ + "Constants"@ =~= "## Constants"@);
        let r = symbol_table_header(
            shows_tags(g.symbols@, SymbolDocKind::Constant),
            shows_class(g.symbols@, SymbolDocKind::Constant),
        ) + symbol_rows(
            g.symbols@,
            SymbolDocKind::Constant,
            shows_tags(g.symbols@, SymbolDocKind::Constant),
            shows_class(g.symbols@, SymbolDocKind::Constant),
            enums,
            links,
        ) + "\n"@;
        assert(symbol_section(g, SymbolDocKind::Constant, enums, links) == "## "@ + "Constants"@ + "\n\n"@ + r) by {
            reveal_strlit("## Constants\n\n");
            reveal_strlit("\n\n");
            assert("## Constants\n\n"@ =~= "## "@ + "Constants"@ + "\n\n"@);
        }
        lemma_header_in_section("Constants"@, r);
        lemma_contains_left(breadcrumb(g.path@) + "\n\n"@ + "# "@ + g.path@ + "\n\n"@ + relationships_text(g, d) + subgroups_text(g) + symbol_section(g, SymbolDocKind::Channel, enums, links) + symbol_section(g, SymbolDocKind::Parameter, enums, links), symbol_section(g, SymbolDocKind::Constant, enums, links), "## Constants"@);
        lemma_contains_right(breadcrumb(g.path@) + "\n\n"@ + "# "@ + g.path@ + "\n\n"@ + relationships_text(g, d) + subgroups_text(g) + symbol_section(g, SymbolDocKind::Channel, enums, links) + symbol_section(g, SymbolDocKind::Parameter, enums, links) + symbol_section(g, SymbolDocKind::Constant, enums, links), entry_sections(g, opts, links), "## Constants"@);
        lemma_contains_right(breadcrumb(g.path@) + "\n\n"@ + "# "@ + g.path@ + "\n\n"@ + relationships_text(g, d) + subgroups_text(g) + symbol_section(g, SymbolDocKind::Channel, enums, links) + symbol_section(g, SymbolDocKind::Parameter, enums, links) + symbol_section(g, SymbolDocKind::Constant, enums, links) + entry_sections(g, opts, links), references_text(g, x, links), "## Constants"@);
        lemma_contains_right(breadcrumb(g.path@) + "\n\n"@ + "# "@ + g.path@ + "\n\n"@ + relationships_text(g, d) + subgroups_text(g) + symbol_section(g, SymbolDocKind::Channel, enums, links) + symbol_section(g, SymbolDocKind::Parameter, enums, links) + symbol_section(g, SymbolDocKind::Constant, enums, links) + entry_sections(g, opts, links) + references_text(g, x, links), used_by_text(g, x), "## Constants"@);
        reveal(group_page_text);
        assert(group_page_text(g, enums, x, d, opts, links) == breadcrumb(g.path@) + "\n\n"@ + "# "@ + g.path@ + "\n\n"@ + relationships_text(g, d) + subgroups_text(g) + symbol_section(g, SymbolDocKind::Channel, enums, links) + symbol_section(g, SymbolDocKind::Parameter, enums, links) + symbol_section(g, SymbolDocKind::Constant, enums, links) + entry_sections(g, opts, links) + references_text(g, x, links) + used_by_text(g, x));
    }
}

proof fn lemma_header_ta(
    g: GroupDoc,
    enums: Seq<EnumDoc>,
    x: CrossRefs,
    d: Diagram,
    opts: RenderOptions,
    links: SourceLinker,
)
    ensures
        g.tables@.len() > 0 ==> contains_text(group_page_text(g, enums, x, d, opts, links), "## Tables"@),
{
    if g.tables@.len() > 0 {
        reveal_strlit("## ");
        reveal_strlit("Tables");
        reveal_strlit("## Tables");
        assert("## "@ + "Tables"@ =~= "## Tables"@);
        let r = table_entries(g.tables@, links);
        assert(tables_section(g, links) == "## "@ + "Tables"@ + "\n\n"@ + r) by {
            reveal_strlit("## Tables\n\n");
            reveal_strlit("\n\n");
            assert("## Tables\n\n"@ =~= "## "@ + "Tables"@ + "\n\n"@);
        }
        lemma_header_in_section("Tables"@, r);
        lemma_contains_right(tables_section(g, links), objects_section(g, links), "## Tables"@);
        lemma_contains_right(tables_section(g, links) + objects_section(g, links), can_section(g, links), "## Tables"@);
        lemma_contains_right(tables_section(g, links) + objects_section(g, links) + can_section(g, links), functions_section(g, opts), "## Tables"@);
        lemma_contains_left(breadcrumb(g.path@) + "\n\n"@ + "# "@ + g.path@ + "\n\n"@ + relationships_text(g, d) + subgroups_text(g) + symbol_section(g, SymbolDocKind::Channel, enums, links) + symbol_section(g, SymbolDocKind::Parameter, enums, links) + symbol_section(g, SymbolDocKind::Constant, enums, links), entry_sections(g, opts, links), "## Tables"@);
        lemma_contains_right(breadcrumb(g.path@) + "\n\n"@ + "# "@ + g.path@ + "\n\n"@ + relationships_text(g, d) + subgroups_text(g) + symbol_section(g, SymbolDocKind::Channel, enums, links) + symbol_section(g, SymbolDocKind::Parameter, enums, links) + symbol_section(g, SymbolDocKind::Constant, enums, links) + entry_sections(g, opts, links), references_text(g, x, links), "## Tables"@);
        lemma_contains_right(breadcrumb(g.path@) + "\n\n"@ + "# "@ + g.path@ + "\n\n"@ + relationships_text(g, d) + subgroups_text(g) + symbol_section(g, SymbolDocKind::Channel, enums, links) + symbol_section(g, SymbolDocKind::Parameter, enums, links) + symbol_section(g, SymbolDocKind::Constant, enums, links) + entry_sections(g, opts, links) + references_text(g, x, links), used_by_text(g, x), "## Tables"@);
        reveal(group_page_text);
        assert(group_page_text(g, enums, x, d, opts, links) == breadcrumb(g.path@) + "\n\n"@ + "# "@ + g.path@ + "\n\n"@ + relationships_text(g, d) + subgroups_text(g) + symbol_section(g, SymbolDocKind::Channel, enums, links) + symbol_section(g, SymbolDocKind::Parameter, enums, links) + symbol_section(g, SymbolDocKind::Constant, enums, links) + entry_sections(g, opts, links) + references_text(g, x, links) + used_by_text(g, x));
    }
}

proof fn lemma_header_ob(
    g: GroupDoc,
    enums: Seq<EnumDoc>,
    x: CrossRefs,
    d: Diagram,
    opts: RenderOptions,
    links: SourceLinker,
)
    ensures
        g.objects@.len() > 0 ==> contains_text(group_page_text(g, enums, x, d, opts, links), "## Objects"@),
{
    if g.objects@.len() > 0 {
        reveal_strlit("## ");
        reveal_strlit("Objects");
        reveal_strlit("## Objects");
        assert("## "@ + "Objects"@ =~= "## Objects"@);
        let r = object_entries(g.objects@, links);
        assert(objects_section(g, links) == "## "@ + "Objects"@ + "\n\n"@ + r) by {
            reveal_strlit("## Objects\n\n");
            reveal_strlit("\n\n");
            assert("## Objects\n\n"@ =~= "## "@ + "Objects"@ + "\n\n"@);
        }
        lemma_header_in_section("Objects"@, r);
        lemma_contains_left(tables_section(g, links), objects_section(g, links), "## Objects"@);
        lemma_contains_right(tables_section(g, links) + objects_section(g, links), can_section(g, links), "## Objects"@);
        lemma_contains_right(tables_section(g, links) + objects_section(g, links) + can_section(g, links), functions_section(g, opts), "## Objects"@);
        lemma_contains_left(breadcrumb(g.path@) + "\n\n"@ + "# "@ + g.path@ + "\n\n"@ + relationships_text(g, d) + subgroups_text(g) + symbol_section(g, SymbolDocKind::Channel, enums, links) + symbol_section(g, SymbolDocKind::Parameter, enums, links) + symbol_section(g, SymbolDocKind::Constant, enums, links), entry_sections(g, opts, links), "## Objects"@);
        lemma_contains_right(breadcrumb(g.path@) + "\n\n"@ + "# "@ + g.path@ + "\n\n"@ + relationships_text(g, d) + subgroups_text(g) + symbol_section(g, SymbolDocKind::Channel, enums, links) + symbol_section(g, SymbolDocKind::Parameter, enums, links) + symbol_section(g, SymbolDocKind::Constant, enums, links) + entry_sections(g, opts, links), references_text(g, x, links), "## Objects"@);
        lemma_contains_right(breadcrumb(g.path@) + "\n\n"@ + "# "@ + g.path@ + "\n\n"@ + relationships_text(g, d) + subgroups_text(g) + symbol_section(g, SymbolDocKind::Channel, enums, links) + symbol_section(g, SymbolDocKind::Parameter, enums, links) + symbol_section(g, SymbolDocKind::Constant, enums, links) + entry_sections(g, opts, links) + references_text(g, x, links), used_by_text(g, x), "## Objects"@);
        reveal(group_page_text);
        assert(group_page_text(g, enums, x, d, opts, links) == breadcrumb(g.path@) + "\n\n"@ + "# "@ + g.path@ + "\n\n"@ + relationships_text(g, d) + subgroups_text(g) + symbol_section(g, SymbolDocKind::Channel, enums, links) + symbol_section(g, SymbolDocKind::Parameter, enums, links) + symbol_section(g, SymbolDocKind::Constant, enums, links) + entry_sections(g, opts, links) + references_text(g, x, links) + used_by_text(g, x));
    }
}

proof fn lemma_header_ca(
    g: GroupDoc,
    enums: Seq<EnumDoc>,
    x: CrossRefs,
    d: Diagram,
    opts: RenderOptions,
    links: SourceLinker,
)
    ensures
        g.can_messages@.len() > 0 ==> contains_text(group_page_text(g, enums, x, d, opts, links), "## CAN"@),
{
    if g.can_messages@.len() > 0 {
        reveal_strlit("## ");
        reveal_strlit("CAN");
        reveal_strlit("## CAN");
        assert("## "@ + "CAN"@ =~= "## CAN"@);
        let r = can_entries(g.can_messages@, links);
        assert(can_section(g, links) == "## "@ + "CAN"@ + "\n\n"@ + r) by {
            reveal_strlit("## CAN\n\n");
            reveal_strlit("\n\n");
            assert("## CAN\n\n"@ =~= "## "@ + "CAN"@ + "\n\n"@);
        }
        lemma_header_in_section("CAN"@, r);
        lemma_contains_left(tables_section(g, links) + objects_section(g, links), can_section(g, links), "## CAN"@);
        lemma_contains_right(tables_section(g, links) + objects_section(g, links) + can_section(g, links), functions_section(g, opts), "## CAN"@);
        lemma_contains_left(breadcrumb(g.path@) + "\n\n"@ + "# "@ + g.path@ + "\n\n"@ + relationships_text(g, d) + subgroups_text(g) + symbol_section(g, SymbolDocKind::Channel, enums, links) + symbol_section(g, SymbolDocKind::Parameter, enums, links) + symbol_section(g, SymbolDocKind::Constant, enums, links), entry_sections(g, opts, links), "## CAN"@);
        lemma_contains_right(breadcrumb(g.path@) + "\n\n"@ + "# "@ + g.path@ + "\n\n"@ + relationships_text(g, d) + subgroups_text(g) + symbol_section(g, SymbolDocKind::Channel, enums, links) + symbol_section(g, SymbolDocKind::Parameter, enums, links) + symbol_section(g, SymbolDocKind::Constant, enums, links) + entry_sections(g, opts, links), references_text(g, x, links), "## CAN"@);
        lemma_contains_right(breadcrumb(g.path@) + "\n\n"@ + "# "@ + g.path@ + "\n\n"@ + relationships_text(g, d) + subgroups_text(g) + symbol_section(g, SymbolDocKind::Channel, enums, links) + symbol_section(g, SymbolDocKind::Parameter, enums, links) + symbol_section(g, SymbolDocKind::Constant, enums, links) + entry_sections(g, opts, links) + references_text(g, x, links), used_by_text(g, x), "## CAN"@);
        reveal(group_page_text);
        assert(group_page_text(g, enums, x, d, opts, links) == breadcrumb(g.path@) + "\n\n"@ + "# "@ + g.path@ + "\n\n"@ + relationships_text(g, d) + subgroups_text(g) + symbol_section(g, SymbolDocKind::Channel, enums, links) + symbol_section(g, SymbolDocKind::Parameter, enums, links) + symbol_section(g, SymbolDocKind::Constant, enums, links) + entry_sections(g, opts, links) + references_text(g, x, links) + used_by_text(g, x));
    }
}

proof fn lemma_header_fu(
    g: GroupDoc,
    enums: Seq<EnumDoc>,
    x: CrossRefs,
    d: Diagram,
    opts: RenderOptions,
    links: SourceLinker,
)
    ensures
        g.functions@.len() > 0 ==> contains_text(group_page_text(g, enums, x, d, opts, links), "## Functions"@),
{
    if g.functions@.len() > 0 {
        reveal_strlit("## ");
        reveal_strlit("Functions");
        reveal_strlit("## Functions");
        assert("## "@ + "Functions"@ =~= "## Functions"@);
        let r = function_entries(g.functions@, opts);
        assert(functions_section(g, opts) == "## "@ + "Functions"@ + "\n\n"@ + r) by {
            reveal_strlit("## Functions\n\n");
            reveal_strlit("\n\n");
            assert("## Functions\n\n"@ =~= "## "@ + "Functions"@ + "\n\n"@);
        }
        lemma_header_in_section("Functions"@, r);
        lemma_contains_left(tables_section(g, links) + objects_section(g, links) + can_section(g, links), functions_section(g, opts), "## Functions"@);
        lemma_contains_left(breadcrumb(g.path@) + "\n\n"@ + "# "@ + g.path@ + "\n\n"@ + relationships_text(g, d) + subgroups_text(g) + symbol_section(g, SymbolDocKind::Channel, enums, links) + symbol_section(g, SymbolDocKind::Parameter, enums, links) + symbol_section(g, SymbolDocKind::Constant, enums, links), entry_sections(g, opts, links), "## Functions"@);
        lemma_contains_right(breadcrumb(g.path@) + "\n\n"@ + "# "@ + g.path@ + "\n\n"@ + relationships_text(g, d) + subgroups_text(g) + symbol_section(g, SymbolDocKind::Channel, enums, links) + symbol_section(g, SymbolDocKind::Parameter, enums, links) + symbol_section(g, SymbolDocKind::Constant, enums, links) + entry_sections(g, opts, links), references_text(g, x, links), "## Functions"@);
        lemma_contains_right(breadcrumb(g.path@) + "\n\n"@ + "# "@ + g.path@ + "\n\n"@ + relationships_text(g, d) + subgroups_text(g) + symbol_section(g, SymbolDocKind::Channel, enums, links) + symbol_section(g, SymbolDocKind::Parameter, enums, links) + symbol_section(g, SymbolDocKind::Constant, enums, links) + entry_sections(g, opts, links) + references_text(g, x, links), used_by_text(g, x), "## Functions"@);
        reveal(group_page_text);
        assert(group_page_text(g, enums, x, d, opts, links) == breadcrumb(g.path@) + "\n\n"@ + "# "@ + g.path@ + "\n\n"@ + relationships_text(g, d) + subgroups_text(g) + symbol_section(g, SymbolDocKind::Channel, enums, links) + symbol_section(g, SymbolDocKind::Parameter, enums, links) + symbol_section(g, SymbolDocKind::Constant, enums, links) + entry_sections(g, opts, links) + references_text(g, x, links) + used_by_text(g, x));
    }
}

proof fn lemma_header_re(
    g: GroupDoc,
    enums: Seq<EnumDoc>,
    x: CrossRefs,
    d: Diagram,
    opts: RenderOptions,
    links: SourceLinker,
)
    ensures
        g.references@.len() > 0 ==> contains_text(group_page_text(g, enums, x, d, opts, links), "## References"@),
{
    if g.references@.len() > 0 {
        reveal_strlit("## ");
        reveal_strlit("References");
        reveal_strlit("## References");
        assert("## "@ + "References"@ =~= "## References"@);
        let r = "| Reference | Target |\n"@ + "| --- | --- |\n"@ + reference_rows(g.references@, x, links) + "\n"@;
        assert(references_text(g, x, links) == "## "@ + "References"@ + "\n\n"@ + r) by {
            reveal_strlit("## References\n\n");
            reveal_strlit("\n\n");
            assert("## References\n\n"@ =~= "## "@ + "References"@ + "\n\n"@);
        }
        lemma_header_in_section("References"@, r);
        lemma_contains_left(breadcrumb(g.path@) + "\n\n"@ + "# "@ + g.path@ + "\n\n"@ + relationships_text(g, d) + subgroups_text(g) + symbol_section(g, SymbolDocKind::Channel, enums, links) + symbol_section(g, SymbolDocKind::Parameter, enums, links) + symbol_section(g, SymbolDocKind::Constant, enums, links) + entry_sections(g, opts, links), references_text(g, x, links), "## References"@);
        lemma_contains_right(breadcrumb(g.path@) + "\n\n"@ + "# "@ + g.path@ + "\n\n"@ + relationships_text(g, d) + subgroups_text(g) + symbol_section(g, SymbolDocKind::Channel, enums, links) + symbol_section(g, SymbolDocKind::Parameter, enums, links) + symbol_section(g, SymbolDocKind::Constant, enums, links) + entry_sections(g, opts, links) + references_text(g, x, links), used_by_text(g, x), "## References"@);
        reveal(group_page_text);
        assert(group_page_text(g, enums, x, d, opts, links) == breadcrumb(g.path@) + "\n\n"@ + "# "@ + g.path@ + "\n\n"@ + relationships_text(g, d) + subgroups_text(g) + symbol_section(g, SymbolDocKind::Channel, enums, links) + symbol_section(g, SymbolDocKind::Parameter, enums, links) + symbol_section(g, SymbolDocKind::Constant, enums, links) + entry_sections(g, opts, links) + references_text(g, x, links) + used_by_text(g, x));
    }
}

/// Every section of a group page that has entries shows its header: the
/// channels, parameters and constants when the group has a symbol of that
/// kind, and the sub-groups, tables, objects, CAN messages, functions and
/// references when the group has any.
pub proof fn lemma_group_page_headers(
    g: GroupDoc,
    enums: Seq<EnumDoc>,
    x: CrossRefs,
    d: Diagram,
    opts: RenderOptions,
    links: SourceLinker,
)
    ensures
        g.children@.len() > 0 ==> contains_text(group_page_text(g, enums, x, d, opts, links), "## Sub-groups"@),
        has_kind(g.symbols@, SymbolDocKind::Channel) ==> contains_text(group_page_text(g, enums, x, d, opts, links), "## Channels"@),
        has_kind(g.symbols@, SymbolDocKind::Parameter) ==> contains_text(group_page_text(g, enums, x, d, opts, links), "## Parameters"@),
        has_kind(g.symbols@, SymbolDocKind::Constant) ==> contains_text(group_page_text(g, enums, x, d, opts, links), "## Constants"@),
        g.tables@.len() > 0 ==> contains_text(group_page_text(g, enums, x, d, opts, links), "## Tables"@),
        g.objects@.len() > 0 ==> contains_text(group_page_text(g, enums, x, d, opts, links), "## Objects"@),
        g.can_messages@.len() > 0 ==> contains_text(group_page_text(g, enums, x, d, opts, links), "## CAN"@),
        g.functions@.len() > 0 ==> contains_text(group_page_text(g, enums, x, d, opts, links), "## Functions"@),
        g.references@.len() > 0 ==> contains_text(group_page_text(g, enums, x, d, opts, links), "## References"@),
{
    lemma_header_sub(g, enums, x, d, opts, links);
    lemma_header_ch(g, enums, x, d, opts, links);
    lemma_header_pa(g, enums, x, d, opts, links);
    lemma_header_co(g, enums, x, d, opts, links);
    lemma_header_ta(g, enums, x, d, opts, links);
    lemma_header_ob(g, enums, x, d, opts, links);
    lemma_header_ca(g, enums, x, d, opts, links);
    lemma_header_fu(g, enums, x, d, opts, links);
    lemma_header_re(g, enums, x, d, opts, links);
}

} // verus!
