//! Whole-page renderers other than the group page: the `index.md` landing page
//! (stats line, structure tree, security legend, tag facet), the per-tag index
//! pages, the project-wide Enums reference, and the focused subsystem page.

use crate::diagram::{is_diagram_around, lemma_around_edges_on_nodes, subsystem_seeds, Diagram};
use crate::facets::{
    all_symbols, count_can_messages, count_can_signals, count_channels, count_constants, count_forest_roots,
    count_functions, count_objects, count_parameters, count_tables, forest_roots, is_forest_root,
    lemma_seq_sum_bounded, spec_stats, stats_fit, subtree_total, tree_fits, uses_security,
    uses_tag,
};
use crate::markdown::entries::{anchor_line, or_dash};
use crate::markdown::helpers::{
    emit_graph_block, graph_block, graph_page_file, graph_page_filename, group_file,
    group_filename, tag_file, tag_filename, ENUMS_FILE,
};
use crate::markdown::{GraphSpec, RenderOptions};
use crate::model::{
    spec_total_components, DocModel, EnumDoc, EnumMemberDoc, GroupDoc, ProjectStats, SymbolDoc,
};
use crate::strset::{lemma_sorted_sets_equal, strictly_sorted, views};
use crate::text::{contains_text, decimal, has_suffix, join, lemma_contains_in_context, lemma_contains_left, lemma_contains_prefix, lemma_contains_right, push_decimal, str_eq};
use vstd::prelude::*;

verus! {

// ---------------------------------------------------------------------------
// The stats line
// ---------------------------------------------------------------------------

/// A count with its noun, pluralised: `1 channel`, `2 channels`, `0 tables`.
pub open spec fn count_phrase_text(n: nat, singular: Seq<char>) -> Seq<char> {
    decimal(n) + " "@ + singular + if n == 1 {
        Seq::empty()
    } else {
        "s"@
    }
}

/// Pluralise a count for the stats line: `1 channel`, `2 channels`, `0 tables`.
pub fn count_phrase(n: usize, singular: &str) -> (r: String)
    ensures
        r@ == count_phrase_text(n as nat, singular@),
{
    let mut out = String::new();
    push_decimal(&mut out, n as u64);
    out.append(" ");
    out.append(singular);
    if n != 1 {
        out.append("s");
    }
    assert(out@ =~= count_phrase_text(n as nat, singular@));
    out
}

/// The phrase of a kind count, only when it is non-zero.
pub open spec fn kind_part(n: nat, word: Seq<char>) -> Seq<Seq<char>> {
    if n > 0 {
        seq![count_phrase_text(n, word)]
    } else {
        Seq::empty()
    }
}

/// The parts of the stats line: the total, each non-zero kind, and the
/// top-level groups.
pub open spec fn stats_parts(s: ProjectStats) -> Seq<Seq<char>> {
    seq![count_phrase_text(spec_total_components(s) as nat, "component"@)] + kind_part(
        s.channels as nat,
        "channel"@,
    ) + kind_part(s.parameters as nat, "parameter"@) + kind_part(s.constants as nat, "constant"@) + kind_part(
        s.functions as nat,
        "function"@,
    ) + kind_part(s.tables as nat, "table"@) + kind_part(s.objects as nat, "object"@) + kind_part(
        s.can_messages as nat,
        "CAN message"@,
    ) + kind_part(s.enums as nat, "enum"@) + seq![count_phrase_text(s.top_level_groups as nat, "top-level group"@)]
}

/// The one-line project summary.
pub open spec fn stats_text(s: ProjectStats) -> Seq<char> {
    join(stats_parts(s), " · "@)
}

/// The model can be summarised: its statistics fit the machine's integers.
pub open spec fn summary_fits(m: DocModel) -> bool {
    &&& stats_fit(m)
    &&& spec_total_components(spec_stats(m)) <= usize::MAX
}

fn push_part(parts: &mut Vec<String>, n: usize, word: &str)
    ensures
        final(parts)@.map_values(|x: String| x@) == old(parts)@.map_values(|x: String| x@) + kind_part(
            n as nat,
            word@,
        ),
{
    let ghost before = parts@;
    if n > 0 {
        parts.push(count_phrase(n, word));
        assert(parts@.map_values(|x: String| x@) =~= before.map_values(|x: String| x@) + kind_part(n as nat, word@));
    } else {
        assert(parts@.map_values(|x: String| x@) =~= before.map_values(|x: String| x@) + kind_part(n as nat, word@));
    }
}

/// The one-line project summary: total components and the per-kind breakdown.
/// Only non-zero kinds appear, but components and top-level groups are always
/// shown.
pub fn stats_line(model: &DocModel) -> (r: String)
    requires
        summary_fits(*model),
    ensures
        r@ == stats_text(spec_stats(*model)),
{
    let s = model.stats();
    let mut parts: Vec<String> = Vec::new();
    parts.push(count_phrase(s.total_components(), "component"));
    assert(parts@.map_values(|x: String| x@) =~= seq![count_phrase_text(spec_total_components(s) as nat, "component"@)]);
    push_part(&mut parts, s.channels, "channel");
    push_part(&mut parts, s.parameters, "parameter");
    push_part(&mut parts, s.constants, "constant");
    push_part(&mut parts, s.functions, "function");
    push_part(&mut parts, s.tables, "table");
    push_part(&mut parts, s.objects, "object");
    push_part(&mut parts, s.can_messages, "CAN message");
    push_part(&mut parts, s.enums, "enum");
    let ghost before = parts@;
    parts.push(count_phrase(s.top_level_groups, "top-level group"));
    assert(parts@.map_values(|x: String| x@) =~= before.map_values(|x: String| x@).push(
        count_phrase_text(s.top_level_groups as nat, "top-level group"@),
    ));
    assert(parts@.map_values(|x: String| x@) =~= stats_parts(s));
    let mut out = String::new();
    crate::text::push_join(&mut out, &parts, " · ");
    out
}

// ---------------------------------------------------------------------------
// The index page
// ---------------------------------------------------------------------------

/// The sorted security levels the model's symbols use.
pub open spec fn level_list(m: DocModel) -> Seq<Seq<char>> {
    choose|l: Seq<Seq<char>>|
        strictly_sorted(l) && forall|x: Seq<char>| #[trigger] l.contains(x) <==> uses_security(all_symbols(m.groups@), x)
}

/// The sorted tags the model's symbols carry.
pub open spec fn tag_list(m: DocModel) -> Seq<Seq<char>> {
    choose|l: Seq<Seq<char>>|
        strictly_sorted(l) && forall|x: Seq<char>| #[trigger] l.contains(x) <==> uses_tag(all_symbols(m.groups@), x)
}

/// A short, fixed gloss for the access levels projects use; unknown levels
/// get a generic note.
pub open spec fn gloss(level: Seq<char>) -> Seq<char> {
    if level == "Tune"@ {
        "tunable at the Tune access level"@
    } else if level == "Calibration"@ {
        "calibration data, editable with a Calibration licence"@
    } else if level == "Master Calibration"@ {
        "master-calibration data (highest calibration tier)"@
    } else if level == "Resource"@ {
        "resource/IO assignment level"@
    } else if level == "Engineering"@ {
        "engineering-only, not exposed to calibrators"@
    } else if level == "Read Only"@ {
        "read-only; not editable in MoTeC M1 Tune"@
    } else {
        "project-defined access level"@
    }
}

/// A short, fixed gloss for the security/access levels MoTeC M1 projects use.
/// Unknown levels degrade to a generic note rather than being dropped.
pub fn security_gloss(level: &str) -> (r: &'static str)
    ensures
        r@ == gloss(level@),
{
    if str_eq(level, "Tune") {
        "tunable at the Tune access level"
    } else if str_eq(level, "Calibration") {
        "calibration data, editable with a Calibration licence"
    } else if str_eq(level, "Master Calibration") {
        "master-calibration data (highest calibration tier)"
    } else if str_eq(level, "Resource") {
        "resource/IO assignment level"
    } else if str_eq(level, "Engineering") {
        "engineering-only, not exposed to calibrators"
    } else if str_eq(level, "Read Only") {
        "read-only; not editable in MoTeC M1 Tune"
    } else {
        "project-defined access level"
    }
}

pub open spec fn tree_lines(gs: Seq<GroupDoc>, roots: Seq<GroupDoc>) -> Seq<char>
    decreases roots.len(),
{
    if roots.len() == 0 {
        Seq::empty()
    } else {
        let g = roots.last();
        tree_lines(gs, roots.drop_last()) + "- ["@ + g.path@ + "]("@ + group_file(g.path@) + ") ("@ + decimal(
            subtree_total(gs, g, gs.len()),
        ) + ")"@ + (if g.children@.len() > 0 {
            " ▸"@
        } else {
            Seq::empty()
        }) + "\n"@
    }
}

pub open spec fn level_lines(levels: Seq<Seq<char>>) -> Seq<char>
    decreases levels.len(),
{
    if levels.len() == 0 {
        Seq::empty()
    } else {
        level_lines(levels.drop_last()) + "- **"@ + levels.last() + "** — "@ + gloss(levels.last()) + "\n"@
    }
}

pub open spec fn tag_lines(tags: Seq<Seq<char>>) -> Seq<char>
    decreases tags.len(),
{
    if tags.len() == 0 {
        Seq::empty()
    } else {
        tag_lines(tags.drop_last()) + "- ["@ + tags.last() + "]("@ + tag_file(tags.last()) + ")\n"@
    }
}

/// The head of the index: title, target hardware and stats line.
pub open spec fn index_head(m: DocModel) -> Seq<char> {
    "# "@ + m.title@ + "\n\n"@ + match m.target_hardware {
        Some(hw) => "**Target hardware:** "@ + hw@ + "\n\n"@,
        None => "**Target hardware:** — *(not exposed by the project API yet)*\n\n"@,
    } + stats_text(spec_stats(m)) + "\n\n"@
}

/// The facets of the index: the security legend, the tag list, the subsystem
/// page link and the Enums link, each omitted when empty.
pub open spec fn index_facets(m: DocModel, opts: RenderOptions) -> Seq<char> {
    (if level_list(m).len() == 0 {
        Seq::empty()
    } else {
        "## Security levels\n\n"@
            + "Access level required to view or calibrate a value. Levels present in this project:\n\n"@
            + level_lines(level_list(m)) + "\n"@
    }) + (if tag_list(m).len() == 0 {
        Seq::empty()
    } else {
        "## Tags\n\n"@ + tag_lines(tag_list(m)) + "\n"@
    }) + match opts.graph {
        Some(spec) => "## Subsystem graph\n\n"@ + "- [Subsystem: "@ + spec.group@ + "]("@ + graph_page_file(spec.group@)
            + ")\n"@ + "\n"@,
        None => Seq::empty(),
    } + if m.enums@.len() == 0 {
        Seq::empty()
    } else {
        "## Reference\n\n"@ + "- [Enums]("@ + ENUMS_FILE@ + ")\n"@
    }
}

/// The landing page.
#[verifier::opaque]
pub open spec fn index_text(m: DocModel, opts: RenderOptions) -> Seq<char> {
    index_head(m) + "## Structure\n\n"@ + tree_lines(m.groups@, forest_roots(m.groups@)) + "\n"@ + index_facets(
        m,
        opts,
    )
}

/// The facet lists of `m` are the sorted levels and tags.
proof fn lemma_facet_lists(m: DocModel, levels: Seq<Seq<char>>, tags: Seq<Seq<char>>)
    requires
        strictly_sorted(levels),
        forall|x: Seq<char>| #[trigger] levels.contains(x) <==> uses_security(all_symbols(m.groups@), x),
        strictly_sorted(tags),
        forall|x: Seq<char>| #[trigger] tags.contains(x) <==> uses_tag(all_symbols(m.groups@), x),
    ensures
        level_list(m) == levels,
        tag_list(m) == tags,
{
    let l = level_list(m);
    assert(strictly_sorted(l) && forall|x: Seq<char>| #[trigger] l.contains(x) <==> uses_security(all_symbols(m.groups@), x));
    assert forall|x: Seq<char>| l.contains(x) <==> levels.contains(x) by {
        assert(l.contains(x) <==> uses_security(all_symbols(m.groups@), x));
    }
    lemma_sorted_sets_equal(l, levels);
    let t = tag_list(m);
    assert(strictly_sorted(t) && forall|x: Seq<char>| #[trigger] t.contains(x) <==> uses_tag(all_symbols(m.groups@), x));
    assert forall|x: Seq<char>| t.contains(x) <==> tags.contains(x) by {
        assert(t.contains(x) <==> uses_tag(all_symbols(m.groups@), x));
    }
    lemma_sorted_sets_equal(t, tags);
}

/// The tag list of `m` is its sorted tag set.
pub proof fn lemma_tag_list(m: DocModel, tags: Seq<Seq<char>>)
    requires
        strictly_sorted(tags),
        forall|x: Seq<char>| #[trigger] tags.contains(x) <==> uses_tag(all_symbols(m.groups@), x),
    ensures
        tag_list(m) == tags,
{
    let t = tag_list(m);
    assert(strictly_sorted(t) && forall|x: Seq<char>| #[trigger] t.contains(x) <==> uses_tag(all_symbols(m.groups@), x));
    assert forall|x: Seq<char>| t.contains(x) <==> tags.contains(x) by {
        assert(t.contains(x) <==> uses_tag(all_symbols(m.groups@), x));
    }
    lemma_sorted_sets_equal(t, tags);
}

fn push_index_head(out: &mut String, model: &DocModel)
    requires
        summary_fits(*model),
    ensures
        final(out)@ == old(out)@ + index_head(*model),
{
    out.append("# ");
    out.append(model.title.as_str());
    out.append("\n\n");
    match &model.target_hardware {
        Some(hw) => {
            out.append("**Target hardware:** ");
            out.append(hw.as_str());
            out.append("\n\n");
        },
        None => out.append("**Target hardware:** — *(not exposed by the project API yet)*\n\n"),
    }
    out.append(stats_line(model).as_str());
    out.append("\n\n");
    assert(final(out)@ =~= old(out)@ + index_head(*model));
}

fn push_tree(out: &mut String, model: &DocModel)
    requires
        tree_fits(model.groups@),
    ensures
        final(out)@ == old(out)@ + tree_lines(model.groups@, forest_roots(model.groups@)),
{
    let nodes = model.top_level_tree();
    let ghost roots = forest_roots(model.groups@);
    let ghost start = out@;
    let mut i: usize = 0;
    while i < nodes.len()
        invariant
            i <= nodes.len(),
            roots == forest_roots(model.groups@),
            nodes@.len() == roots.len(),
            forall|k: int| 0 <= k < nodes@.len() ==> {
                let g = roots[k];
                &&& (#[trigger] nodes@[k]).path@ == g.path@
                &&& nodes@[k].subtree_count == subtree_total(model.groups@, g, model.groups@.len())
                &&& nodes@[k].has_children == (g.children@.len() > 0)
            },
            out@ == start + tree_lines(model.groups@, roots.take(i as int)),
        decreases nodes.len() - i,
    {
        let n = &nodes[i];
        assert(nodes@[i as int] == *n);
        out.append("- [");
        out.append(n.path.as_str());
        out.append("](");
        out.append(group_filename(n.path.as_str()).as_str());
        out.append(") (");
        push_decimal(out, n.subtree_count as u64);
        out.append(")");
        if n.has_children {
            out.append(" ▸");
        }
        out.append("\n");
        assert(roots.take(i + 1).drop_last() =~= roots.take(i as int));
        assert(out@ =~= start + tree_lines(model.groups@, roots.take(i + 1)));
        i += 1;
    }
    assert(roots.take(roots.len() as int) =~= roots);
}

fn push_levels(out: &mut String, levels: &Vec<String>)
    ensures
        final(out)@ == old(out)@ + (if levels@.len() == 0 {
            Seq::empty()
        } else {
            "## Security levels\n\n"@
                + "Access level required to view or calibrate a value. Levels present in this project:\n\n"@
                + level_lines(views(levels@)) + "\n"@
        }),
{
    let ghost start = out@;
    if levels.len() > 0 {
        out.append("## Security levels\n\n");
        out.append("Access level required to view or calibrate a value. Levels present in this project:\n\n");
        let ghost head = out@;
        let mut i: usize = 0;
        while i < levels.len()
            invariant
                i <= levels.len(),
                out@ == head + level_lines(views(levels@).take(i as int)),
            decreases levels.len() - i,
        {
            out.append("- **");
            out.append(levels[i].as_str());
            out.append("** — ");
            out.append(security_gloss(levels[i].as_str()));
            out.append("\n");
            assert(views(levels@).take(i + 1).drop_last() =~= views(levels@).take(i as int));
            assert(out@ =~= head + level_lines(views(levels@).take(i + 1)));
            i += 1;
        }
        assert(views(levels@).take(levels@.len() as int) =~= views(levels@));
        out.append("\n");
    }
    assert(final(out)@ =~= start + (if levels@.len() == 0 {
        Seq::empty()
    } else {
        "## Security levels\n\n"@
            + "Access level required to view or calibrate a value. Levels present in this project:\n\n"@
            + level_lines(views(levels@)) + "\n"@
    }));
}

fn push_tags(out: &mut String, tags: &Vec<String>)
    ensures
        final(out)@ == old(out)@ + (if tags@.len() == 0 {
            Seq::empty()
        } else {
            "## Tags\n\n"@ + tag_lines(views(tags@)) + "\n"@
        }),
{
    let ghost start = out@;
    if tags.len() > 0 {
        out.append("## Tags\n\n");
        let ghost head = out@;
        let mut i: usize = 0;
        while i < tags.len()
            invariant
                i <= tags.len(),
                out@ == head + tag_lines(views(tags@).take(i as int)),
            decreases tags.len() - i,
        {
            out.append("- [");
            out.append(tags[i].as_str());
            out.append("](");
            out.append(tag_filename(tags[i].as_str()).as_str());
            out.append(")\n");
            assert(views(tags@).take(i + 1).drop_last() =~= views(tags@).take(i as int));
            assert(out@ =~= head + tag_lines(views(tags@).take(i + 1)));
            i += 1;
        }
        assert(views(tags@).take(tags@.len() as int) =~= views(tags@));
        out.append("\n");
    }
    assert(final(out)@ =~= start + (if tags@.len() == 0 {
        Seq::empty()
    } else {
        "## Tags\n\n"@ + tag_lines(views(tags@)) + "\n"@
    }));
}

fn push_index_tail(out: &mut String, model: &DocModel, opts: &RenderOptions)
    ensures
        final(out)@ == old(out)@ + match opts.graph {
            Some(spec) => "## Subsystem graph\n\n"@ + "- [Subsystem: "@ + spec.group@ + "]("@ + graph_page_file(
                spec.group@,
            ) + ")\n"@ + "\n"@,
            None => Seq::empty(),
        } + if model.enums@.len() == 0 {
            Seq::empty()
        } else {
            "## Reference\n\n"@ + "- [Enums]("@ + ENUMS_FILE@ + ")\n"@
        },
{
    let ghost start = out@;
    match &opts.graph {
        Some(spec) => {
            out.append("## Subsystem graph\n\n");
            out.append("- [Subsystem: ");
            out.append(spec.group.as_str());
            out.append("](");
            out.append(graph_page_filename(spec.group.as_str()).as_str());
            out.append(")\n");
            out.append("\n");
        },
        None => {},
    }
    let ghost mid = out@;
    if model.enums.len() > 0 {
        out.append("## Reference\n\n");
        out.append("- [Enums](");
        out.append(ENUMS_FILE);
        out.append(")\n");
    }
    assert(final(out)@ =~= start + match opts.graph {
        Some(spec) => "## Subsystem graph\n\n"@ + "- [Subsystem: "@ + spec.group@ + "]("@ + graph_page_file(
            spec.group@,
        ) + ")\n"@ + "\n"@,
        None => Seq::empty(),
    } + if model.enums@.len() == 0 {
        Seq::empty()
    } else {
        "## Reference\n\n"@ + "- [Enums]("@ + ENUMS_FILE@ + ")\n"@
    });
}

/// The landing page: title, target hardware, the stats line, the forest-root
/// tree with subtree counts, the security legend, the tag facet, the subsystem
/// page link and the Enums link.
#[verifier::rlimit(60)]
pub fn render_index(model: &DocModel, opts: &RenderOptions) -> (r: String)
    requires
        summary_fits(*model),
        tree_fits(model.groups@),
    ensures
        r@ == index_text(*model, *opts),
{
    let mut out = String::new();
    push_index_head(&mut out, model);
    out.append("## Structure\n\n");
    push_tree(&mut out, model);
    out.append("\n");
    let ghost before_facets = out@;
    let levels = model.security_levels();
    let tags = model.tags();
    proof {
        lemma_facet_lists(*model, views(levels@), views(tags@));
    }
    push_levels(&mut out, &levels);
    push_tags(&mut out, &tags);
    push_index_tail(&mut out, model, opts);
    assert(out@ =~= before_facets + index_facets(*model, *opts));
    reveal(index_text);
    assert(out@ =~= index_text(*model, *opts));
    out
}

// ---------------------------------------------------------------------------
// Tag pages
// ---------------------------------------------------------------------------

/// Whether `tags` holds `tag`.
pub open spec fn has_tag(tags: Seq<String>, tag: Seq<char>) -> bool {
    exists|i: int| 0 <= i < tags.len() && (#[trigger] tags[i])@ == tag
}

pub open spec fn tagged_symbol_lines(g: GroupDoc, syms: Seq<SymbolDoc>, tag: Seq<char>) -> Seq<char>
    decreases syms.len(),
{
    if syms.len() == 0 {
        Seq::empty()
    } else {
        let s = syms.last();
        tagged_symbol_lines(g, syms.drop_last(), tag) + if has_tag(s.tags@, tag) {
            "- ["@ + s.path@ + "]("@ + group_file(g.path@) + "#"@ + s.anchor@ + ")\n"@
        } else {
            Seq::empty()
        }
    }
}

pub open spec fn tagged_lines(gs: Seq<GroupDoc>, tag: Seq<char>) -> Seq<char>
    decreases gs.len(),
{
    if gs.len() == 0 {
        Seq::empty()
    } else {
        tagged_lines(gs.drop_last(), tag) + tagged_symbol_lines(gs.last(), gs.last().symbols@, tag)
    }
}

/// A per-tag index page: every symbol carrying the tag, deep-linked to its row.
pub open spec fn tag_page_text(m: DocModel, tag: Seq<char>) -> Seq<char> {
    "[Index](index.md)\n\n"@ + "# Tag: "@ + tag + "\n\n"@ + tagged_lines(m.groups@, tag) + if tagged_lines(
        m.groups@,
        tag,
    ).len() == 0 {
        "(no symbols carry this tag)\n"@
    } else {
        Seq::empty()
    }
}

fn carries_tag(tags: &Vec<String>, tag: &str) -> (r: bool)
    ensures
        r == has_tag(tags@, tag@),
{
    let mut i: usize = 0;
    while i < tags.len()
        invariant
            i <= tags.len(),
            forall|k: int| 0 <= k < i ==> (#[trigger] tags@[k])@ != tag@,
        decreases tags.len() - i,
    {
        if str_eq(tags[i].as_str(), tag) {
            return true;
        }
        i += 1;
    }
    false
}

fn push_tagged_symbols(out: &mut String, g: &GroupDoc, tag: &str) -> (any: bool)
    ensures
        final(out)@ == old(out)@ + tagged_symbol_lines(*g, g.symbols@, tag@),
        any == (tagged_symbol_lines(*g, g.symbols@, tag@).len() > 0),
{
    let ghost start = out@;
    let mut any = false;
    let mut i: usize = 0;
    while i < g.symbols.len()
        invariant
            i <= g.symbols.len(),
            out@ == start + tagged_symbol_lines(*g, g.symbols@.take(i as int), tag@),
            any == (tagged_symbol_lines(*g, g.symbols@.take(i as int), tag@).len() > 0),
        decreases g.symbols.len() - i,
    {
        let s = &g.symbols[i];
        assert(g.symbols@.take(i + 1).drop_last() =~= g.symbols@.take(i as int));
        if carries_tag(&s.tags, tag) {
            proof {
                reveal_strlit("- [");
            }
            out.append("- [");
            out.append(s.path.as_str());
            out.append("](");
            out.append(group_filename(g.path.as_str()).as_str());
            out.append("#");
            out.append(s.anchor.as_str());
            out.append(")\n");
            any = true;
        }
        assert(out@ =~= start + tagged_symbol_lines(*g, g.symbols@.take(i + 1), tag@));
        i += 1;
    }
    assert(g.symbols@.take(g.symbols@.len() as int) =~= g.symbols@);
    any
}

/// Render a per-tag index page: every symbol carrying `tag`, deep-linked to its
/// row on the owning group page, in model order.
pub fn render_tag_index(model: &DocModel, tag: &str) -> (r: String)
    ensures
        r@ == tag_page_text(*model, tag@),
{
    let mut out = String::new();
    out.append("[Index](index.md)\n\n");
    out.append("# Tag: ");
    out.append(tag);
    out.append("\n\n");
    let ghost head = out@;
    let mut any = false;
    let mut gi: usize = 0;
    while gi < model.groups.len()
        invariant
            gi <= model.groups.len(),
            out@ == head + tagged_lines(model.groups@.take(gi as int), tag@),
            any == (tagged_lines(model.groups@.take(gi as int), tag@).len() > 0),
        decreases model.groups.len() - gi,
    {
        let found = push_tagged_symbols(&mut out, &model.groups[gi], tag);
        if found {
            any = true;
        }
        assert(model.groups@.take(gi + 1).drop_last() =~= model.groups@.take(gi as int));
        gi += 1;
    }
    assert(model.groups@.take(model.groups@.len() as int) =~= model.groups@);
    if !any {
        out.append("(no symbols carry this tag)\n");
    }
    assert(out@ =~= tag_page_text(*model, tag@));
    out
}

// ---------------------------------------------------------------------------
// The Enums page
// ---------------------------------------------------------------------------

/// The decimal text of a signed integer.
pub open spec fn int_text(v: int) -> Seq<char> {
    if v < 0 {
        "-"@ + decimal((-v) as nat)
    } else {
        decimal(v as nat)
    }
}

fn push_i64(out: &mut String, v: i64)
    ensures
        final(out)@ == old(out)@ + int_text(v as int),
{
    if v < 0 {
        out.append("-");
        let m: u64 = if v == i64::MIN {
            9223372036854775808u64
        } else {
            (-v) as u64
        };
        push_decimal(out, m);
    } else {
        push_decimal(out, v as u64);
    }
    assert(final(out)@ =~= old(out)@ + int_text(v as int));
}

/// The default member's name, if any.
pub open spec fn opt_text(o: Option<String>) -> Option<Seq<char>> {
    match o {
        Some(s) => Some(s@),
        None => None,
    }
}

pub open spec fn enum_member_lines(e: EnumDoc, ms: Seq<EnumMemberDoc>) -> Seq<char>
    decreases ms.len(),
{
    if ms.len() == 0 {
        Seq::empty()
    } else {
        let m = ms.last();
        enum_member_lines(e, ms.drop_last()) + "- "@ + int_text(m.value as int) + " = "@ + m.name@ + (if opt_text(
            e.default,
        ) == Some(m.name@) {
            " (default)"@
        } else {
            Seq::empty()
        }) + "\n"@
    }
}

/// One enum's section: its anchor, heading with the default (and, for an open
/// enum, a note that the members may be partial), and its enumerators.
pub open spec fn enum_section(e: EnumDoc) -> Seq<char> {
    anchor_line(e.anchor@) + (if e.open {
        "## "@ + e.name@ + " (open — firmware-supplied, members may be partial; default: "@ + or_dash(e.default)
            + ")\n\n"@
    } else {
        "## "@ + e.name@ + " (default: "@ + or_dash(e.default) + ")\n\n"@
    }) + if e.members@.len() == 0 {
        "(no enumerators available)\n\n"@
    } else {
        enum_member_lines(e, e.members@) + "\n"@
    }
}

pub open spec fn enum_sections(es: Seq<EnumDoc>) -> Seq<char>
    decreases es.len(),
{
    if es.len() == 0 {
        Seq::empty()
    } else {
        enum_sections(es.drop_last()) + enum_section(es.last())
    }
}

/// The Enums reference page.
pub open spec fn enums_page_text(es: Seq<EnumDoc>) -> Seq<char> {
    "# Enums\n\n"@ + enum_sections(es)
}

fn is_default(e: &EnumDoc, name: &str) -> (r: bool)
    ensures
        r == (opt_text(e.default) == Some(name@)),
{
    match &e.default {
        Some(d) => str_eq(d.as_str(), name),
        None => false,
    }
}

#[verifier::rlimit(50)]
fn push_enum_section(out: &mut String, e: &EnumDoc)
    ensures
        final(out)@ == old(out)@ + enum_section(*e),
{
    let ghost start = out@;
    out.append("<a id=\"");
    out.append(e.anchor.as_str());
    out.append("\"></a>\n\n");
    out.append("## ");
    out.append(e.name.as_str());
    if e.open {
        out.append(" (open — firmware-supplied, members may be partial; default: ");
    } else {
        out.append(" (default: ");
    }
    match &e.default {
        Some(d) => out.append(d.as_str()),
        None => out.append("—"),
    }
    out.append(")\n\n");
    let ghost head = out@;
    assert(head =~= start + anchor_line(e.anchor@) + (if e.open {
        "## "@ + e.name@ + " (open — firmware-supplied, members may be partial; default: "@ + or_dash(e.default)
            + ")\n\n"@
    } else {
        "## "@ + e.name@ + " (default: "@ + or_dash(e.default) + ")\n\n"@
    }));
    if e.members.len() == 0 {
        out.append("(no enumerators available)\n\n");
    } else {
        let mut i: usize = 0;
        while i < e.members.len()
            invariant
                i <= e.members.len(),
                out@ == head + enum_member_lines(*e, e.members@.take(i as int)),
            decreases e.members.len() - i,
        {
            let m = &e.members[i];
            out.append("- ");
            push_i64(out, m.value);
            out.append(" = ");
            out.append(m.name.as_str());
            if is_default(e, m.name.as_str()) {
                out.append(" (default)");
            }
            out.append("\n");
            assert(e.members@.take(i + 1).drop_last() =~= e.members@.take(i as int));
            assert(out@ =~= head + enum_member_lines(*e, e.members@.take(i + 1)));
            i += 1;
        }
        assert(e.members@.take(e.members@.len() as int) =~= e.members@);
        out.append("\n");
    }
    assert(final(out)@ =~= start + enum_section(*e));
}

/// Render the project-wide Enums reference page: each enum is an anchored
/// section listing its enumerators as `value = name`, its default, and, for an
/// open (firmware) enum, a note that the member list may be partial.
pub fn render_enums(enums: &Vec<EnumDoc>) -> (r: String)
    ensures
        r@ == enums_page_text(enums@),
{
    let mut out = String::new();
    out.append("# Enums\n\n");
    let ghost head = out@;
    let mut i: usize = 0;
    while i < enums.len()
        invariant
            i <= enums.len(),
            out@ == head + enum_sections(enums@.take(i as int)),
        decreases enums.len() - i,
    {
        push_enum_section(&mut out, &enums[i]);
        assert(enums@.take(i + 1).drop_last() =~= enums@.take(i as int));
        i += 1;
    }
    assert(enums@.take(enums@.len() as int) =~= enums@);
    out
}

// ---------------------------------------------------------------------------
// The subsystem page
// ---------------------------------------------------------------------------

/// The subsystem page of `spec`, with `d` the subsystem diagram.
pub open spec fn graph_page_text(spec: GraphSpec, d: Diagram) -> Seq<char> {
    "[Index](index.md)\n\n"@ + "# Subsystem: "@ + spec.group@ + "\n\n"@ + if d.edges@.len() == 0 {
        "No documented relationships under `"@ + spec.group@ + "`.\n"@
    } else {
        "Calls and data flow under `"@ + spec.group@ + "` (depth "@ + decimal(spec.depth as nat) + ").\n\n"@
            + graph_block("subtree"@, spec.group@, spec.depth as nat, d)
    }
}

/// Render the focused subsystem page: the whole subtree under the group plus
/// `depth` hops across its boundary, as one graph. An edge-less group yields a
/// note.
pub fn render_graph_page(model: &DocModel, spec: &GraphSpec) -> (r: String)
    ensures
        exists|d: Diagram|
            is_diagram_around(d, model.graph.edges@, subsystem_seeds(spec.group@), spec.depth as nat)
                && r@ == graph_page_text(*spec, d),
{
    let mut out = String::new();
    out.append("[Index](index.md)\n\n");
    out.append("# Subsystem: ");
    out.append(spec.group.as_str());
    out.append("\n\n");
    let ghost head = out@;
    let d = Diagram::subsystem(&model.graph, spec.group.as_str(), spec.depth);
    proof {
        lemma_around_edges_on_nodes(d, model.graph.edges@, subsystem_seeds(spec.group@), spec.depth as nat);
    }
    if d.is_empty() {
        out.append("No documented relationships under `");
        out.append(spec.group.as_str());
        out.append("`.\n");
    } else {
        out.append("Calls and data flow under `");
        out.append(spec.group.as_str());
        out.append("` (depth ");
        push_decimal(&mut out, spec.depth as u64);
        out.append(").\n\n");
        emit_graph_block(&mut out, "subtree", spec.group.as_str(), spec.depth, &d);
    }
    assert(out@ =~= graph_page_text(*spec, d));
    out
}

/// In a list joined with `sep`, every item but the last is followed by `sep`.
proof fn lemma_join_holds(items: Seq<Seq<char>>, sep: Seq<char>, k: int)
    requires
        0 <= k,
        k + 1 < items.len(),
    ensures
        contains_text(join(items, sep), items[k] + sep),
    decreases items.len(),
{
    let d = items.drop_last();
    let last = items.last();
    if k + 2 == items.len() {
        let a = if d.len() == 1 {
            Seq::<char>::empty()
        } else {
            join(d.drop_last(), sep) + sep
        };
        assert(d.last() == items[k]);
        assert(d[0] == items[0]);
        assert(join(d, sep) =~= a + items[k]);
        assert(join(items, sep) =~= a + (items[k] + sep) + last);
        lemma_contains_prefix(items[k] + sep, Seq::empty());
        assert(items[k] + sep + Seq::<char>::empty() =~= items[k] + sep);
        lemma_contains_in_context(a, items[k] + sep, last, items[k] + sep);
    } else {
        assert(d[k] == items[k]);
        lemma_join_holds(d, sep, k);
        assert(join(items, sep) =~= join(d, sep) + (sep + last));
        lemma_contains_right(join(d, sep), sep + last, items[k] + sep);
    }
}

/// A non-zero kind count stands in the stats line as `<n> <word>(s)`,
/// followed by the separator of the next part.
proof fn lemma_kind_in_line(parts: Seq<Seq<char>>, pre: Seq<Seq<char>>, n: nat, word: Seq<char>, post: Seq<Seq<char>>)
    requires
        parts == pre + kind_part(n, word) + post,
        post.len() > 0,
    ensures
        n > 0 ==> contains_text(join(parts, " · "@), count_phrase_text(n, word) + " · "@),
{
    if n > 0 {
        assert(kind_part(n, word) =~= seq![count_phrase_text(n, word)]);
        assert(parts[pre.len() as int] == count_phrase_text(n, word));
        lemma_join_holds(parts, " · "@, pre.len() as int);
    }
}

proof fn lemma_join_suffix(items: Seq<Seq<char>>, sep: Seq<char>)
    requires
        items.len() > 0,
    ensures
        has_suffix(join(items, sep), items.last()),
{
    let t = join(items, sep);
    let w = items.last();
    if items.len() == 1 {
        assert(t == items[0]);
        assert(t.skip(0) =~= t);
    } else {
        assert(t =~= (join(items.drop_last(), sep) + sep) + w);
        assert(t.skip(t.len() - w.len()) =~= w);
    }
}

proof fn lemma_stats_part_channels(st: ProjectStats)
    ensures
        st.channels as nat > 0 ==> contains_text(stats_text(st), count_phrase_text(st.channels as nat, "channel"@) + " · "@),
{
    if st.channels as nat > 0 {
        let parts = stats_parts(st);
        let pre = seq![count_phrase_text(spec_total_components(st) as nat, "component"@)];
        assert(kind_part(st.channels as nat, "channel"@) =~= seq![count_phrase_text(st.channels as nat, "channel"@)]);
        assert(parts[pre.len() as int] == count_phrase_text(st.channels as nat, "channel"@));
        assert(pre.len() + 1 < parts.len());
        lemma_join_holds(parts, " · "@, pre.len() as int);
    }
}

proof fn lemma_stats_part_parameters(st: ProjectStats)
    ensures
        st.parameters as nat > 0 ==> contains_text(stats_text(st), count_phrase_text(st.parameters as nat, "parameter"@) + " · "@),
{
    if st.parameters as nat > 0 {
        let parts = stats_parts(st);
        let pre = seq![count_phrase_text(spec_total_components(st) as nat, "component"@)] + kind_part(st.channels as nat, "channel"@);
        assert(kind_part(st.parameters as nat, "parameter"@) =~= seq![count_phrase_text(st.parameters as nat, "parameter"@)]);
        assert(parts[pre.len() as int] == count_phrase_text(st.parameters as nat, "parameter"@));
        assert(pre.len() + 1 < parts.len());
        lemma_join_holds(parts, " · "@, pre.len() as int);
    }
}

proof fn lemma_stats_part_constants(st: ProjectStats)
    ensures
        st.constants as nat > 0 ==> contains_text(stats_text(st), count_phrase_text(st.constants as nat, "constant"@) + " · "@),
{
    if st.constants as nat > 0 {
        let parts = stats_parts(st);
        let pre = seq![count_phrase_text(spec_total_components(st) as nat, "component"@)] + kind_part(st.channels as nat, "channel"@) + kind_part(st.parameters as nat, "parameter"@);
        assert(kind_part(st.constants as nat, "constant"@) =~= seq![count_phrase_text(st.constants as nat, "constant"@)]);
        assert(parts[pre.len() as int] == count_phrase_text(st.constants as nat, "constant"@));
        assert(pre.len() + 1 < parts.len());
        lemma_join_holds(parts, " · "@, pre.len() as int);
    }
}

proof fn lemma_stats_part_functions(st: ProjectStats)
    ensures
        st.functions as nat > 0 ==> contains_text(stats_text(st), count_phrase_text(st.functions as nat, "function"@) + " · "@),
{
    if st.functions as nat > 0 {
        let parts = stats_parts(st);
        let pre = seq![count_phrase_text(spec_total_components(st) as nat, "component"@)] + kind_part(st.channels as nat, "channel"@) + kind_part(st.parameters as nat, "parameter"@) + kind_part(st.constants as nat, "constant"@);
        assert(kind_part(st.functions as nat, "function"@) =~= seq![count_phrase_text(st.functions as nat, "function"@)]);
        assert(parts[pre.len() as int] == count_phrase_text(st.functions as nat, "function"@));
        assert(pre.len() + 1 < parts.len());
        lemma_join_holds(parts, " · "@, pre.len() as int);
    }
}

proof fn lemma_stats_part_tables(st: ProjectStats)
    ensures
        st.tables as nat > 0 ==> contains_text(stats_text(st), count_phrase_text(st.tables as nat, "table"@) + " · "@),
{
    if st.tables as nat > 0 {
        let parts = stats_parts(st);
        let pre = seq![count_phrase_text(spec_total_components(st) as nat, "component"@)] + kind_part(st.channels as nat, "channel"@) + kind_part(st.parameters as nat, "parameter"@) + kind_part(st.constants as nat, "constant"@) + kind_part(st.functions as nat, "function"@);
        assert(kind_part(st.tables as nat, "table"@) =~= seq![count_phrase_text(st.tables as nat, "table"@)]);
        assert(parts[pre.len() as int] == count_phrase_text(st.tables as nat, "table"@));
        assert(pre.len() + 1 < parts.len());
        lemma_join_holds(parts, " · "@, pre.len() as int);
    }
}

proof fn lemma_stats_part_objects(st: ProjectStats)
    ensures
        st.objects as nat > 0 ==> contains_text(stats_text(st), count_phrase_text(st.objects as nat, "object"@) + " · "@),
{
    if st.objects as nat > 0 {
        let parts = stats_parts(st);
        let pre = seq![count_phrase_text(spec_total_components(st) as nat, "component"@)] + kind_part(st.channels as nat, "channel"@) + kind_part(st.parameters as nat, "parameter"@) + kind_part(st.constants as nat, "constant"@) + kind_part(st.functions as nat, "function"@) + kind_part(st.tables as nat, "table"@);
        assert(kind_part(st.objects as nat, "object"@) =~= seq![count_phrase_text(st.objects as nat, "object"@)]);
        assert(parts[pre.len() as int] == count_phrase_text(st.objects as nat, "object"@));
        assert(pre.len() + 1 < parts.len());
        lemma_join_holds(parts, " · "@, pre.len() as int);
    }
}

proof fn lemma_stats_part_can_messages(st: ProjectStats)
    ensures
        st.can_messages as nat > 0 ==> contains_text(stats_text(st), count_phrase_text(st.can_messages as nat, "CAN message"@) + " · "@),
{
    if st.can_messages as nat > 0 {
        let parts = stats_parts(st);
        let pre = seq![count_phrase_text(spec_total_components(st) as nat, "component"@)] + kind_part(st.channels as nat, "channel"@) + kind_part(st.parameters as nat, "parameter"@) + kind_part(st.constants as nat, "constant"@) + kind_part(st.functions as nat, "function"@) + kind_part(st.tables as nat, "table"@) + kind_part(st.objects as nat, "object"@);
        assert(kind_part(st.can_messages as nat, "CAN message"@) =~= seq![count_phrase_text(st.can_messages as nat, "CAN message"@)]);
        assert(parts[pre.len() as int] == count_phrase_text(st.can_messages as nat, "CAN message"@));
        assert(pre.len() + 1 < parts.len());
        lemma_join_holds(parts, " · "@, pre.len() as int);
    }
}

proof fn lemma_stats_part_enums(st: ProjectStats)
    ensures
        st.enums as nat > 0 ==> contains_text(stats_text(st), count_phrase_text(st.enums as nat, "enum"@) + " · "@),
{
    if st.enums as nat > 0 {
        let parts = stats_parts(st);
        let pre = seq![count_phrase_text(spec_total_components(st) as nat, "component"@)] + kind_part(st.channels as nat, "channel"@) + kind_part(st.parameters as nat, "parameter"@) + kind_part(st.constants as nat, "constant"@) + kind_part(st.functions as nat, "function"@) + kind_part(st.tables as nat, "table"@) + kind_part(st.objects as nat, "object"@) + kind_part(st.can_messages as nat, "CAN message"@);
        assert(kind_part(st.enums as nat, "enum"@) =~= seq![count_phrase_text(st.enums as nat, "enum"@)]);
        assert(parts[pre.len() as int] == count_phrase_text(st.enums as nat, "enum"@));
        assert(pre.len() + 1 < parts.len());
        lemma_join_holds(parts, " · "@, pre.len() as int);
    }
}

/// The stats line states each figure of the model: the total of components,
/// then every non-zero count by kind (channels, parameters, constants,
/// functions, tables, objects, CAN messages and enums, each counted over the
/// whole model; CAN messages are counted, not their signals), and last the
/// number of top-level groups.
pub proof fn lemma_stats_line_counts(m: DocModel)
    requires
        summary_fits(m),
    ensures
        contains_text(
            stats_text(spec_stats(m)),
            count_phrase_text(
                count_channels(m.groups@) + count_parameters(m.groups@) + count_constants(m.groups@) + count_functions(
                    m.groups@,
                ) + count_tables(m.groups@) + count_objects(m.groups@) + count_can_messages(m.groups@)
                    + count_can_signals(m.groups@),
                "component"@,
            ) + " · "@,
        ),
        count_channels(m.groups@) > 0 ==> contains_text(stats_text(spec_stats(m)), count_phrase_text(count_channels(m.groups@), "channel"@) + " · "@),
        count_parameters(m.groups@) > 0 ==> contains_text(stats_text(spec_stats(m)), count_phrase_text(count_parameters(m.groups@), "parameter"@) + " · "@),
        count_constants(m.groups@) > 0 ==> contains_text(stats_text(spec_stats(m)), count_phrase_text(count_constants(m.groups@), "constant"@) + " · "@),
        count_functions(m.groups@) > 0 ==> contains_text(stats_text(spec_stats(m)), count_phrase_text(count_functions(m.groups@), "function"@) + " · "@),
        count_tables(m.groups@) > 0 ==> contains_text(stats_text(spec_stats(m)), count_phrase_text(count_tables(m.groups@), "table"@) + " · "@),
        count_objects(m.groups@) > 0 ==> contains_text(stats_text(spec_stats(m)), count_phrase_text(count_objects(m.groups@), "object"@) + " · "@),
        count_can_messages(m.groups@) > 0 ==> contains_text(stats_text(spec_stats(m)), count_phrase_text(count_can_messages(m.groups@), "CAN message"@) + " · "@),
        m.enums@.len() > 0 ==> contains_text(stats_text(spec_stats(m)), count_phrase_text(m.enums@.len(), "enum"@) + " · "@),
        has_suffix(stats_text(spec_stats(m)), count_phrase_text(count_forest_roots(m.groups@), "top-level group"@)),
{
    let st = spec_stats(m);
    let parts = stats_parts(st);
    assert(parts.len() >= 2);
    assert(parts[0] == count_phrase_text(spec_total_components(st) as nat, "component"@));
    lemma_join_holds(parts, " · "@, 0);
    assert(st.channels as nat == count_channels(m.groups@));
    assert(m.enums@.len() == m.enums.len());
    assert(st.enums as nat == m.enums@.len());
    assert(m.groups@.len() == m.groups.len());
    lemma_seq_sum_bounded(
        m.groups@,
        |g: GroupDoc| if is_forest_root(m.groups@, g.path@) { 1nat } else { 0nat },
    );
    assert(st.top_level_groups as nat == count_forest_roots(m.groups@));
    lemma_stats_part_channels(st);
    lemma_stats_part_parameters(st);
    lemma_stats_part_constants(st);
    lemma_stats_part_functions(st);
    lemma_stats_part_tables(st);
    lemma_stats_part_objects(st);
    lemma_stats_part_can_messages(st);
    lemma_stats_part_enums(st);
    lemma_join_suffix(parts, " · "@);
    assert(parts.last() == count_phrase_text(st.top_level_groups as nat, "top-level group"@));
}

/// The line of a symbol on a tag page: a deep link to its row.
pub open spec fn tag_line(g: GroupDoc, s: SymbolDoc) -> Seq<char> {
    "- ["@ + s.path@ + "]("@ + group_file(g.path@) + "#"@ + s.anchor@ + ")\n"@
}

proof fn lemma_symbol_lines_prefix(g: GroupDoc, syms: Seq<SymbolDoc>, tag: Seq<char>, j: int, w: Seq<char>)
    requires
        0 <= j <= syms.len(),
        contains_text(tagged_symbol_lines(g, syms.take(j), tag), w),
    ensures
        contains_text(tagged_symbol_lines(g, syms, tag), w),
    decreases syms.len() - j,
{
    if j < syms.len() {
        let t = syms.take(j + 1);
        assert(t.drop_last() =~= syms.take(j));
        lemma_contains_right(
            tagged_symbol_lines(g, syms.take(j), tag),
            tagged_symbol_lines(g, t, tag).skip(tagged_symbol_lines(g, syms.take(j), tag).len() as int),
            w,
        );
        assert(tagged_symbol_lines(g, t, tag) =~= tagged_symbol_lines(g, syms.take(j), tag)
            + tagged_symbol_lines(g, t, tag).skip(tagged_symbol_lines(g, syms.take(j), tag).len() as int));
        lemma_symbol_lines_prefix(g, syms, tag, j + 1, w);
    } else {
        assert(syms.take(j) =~= syms);
    }
}

proof fn lemma_group_lines_prefix(gs: Seq<GroupDoc>, tag: Seq<char>, j: int, w: Seq<char>)
    requires
        0 <= j <= gs.len(),
        contains_text(tagged_lines(gs.take(j), tag), w),
    ensures
        contains_text(tagged_lines(gs, tag), w),
    decreases gs.len() - j,
{
    if j < gs.len() {
        let t = gs.take(j + 1);
        assert(t.drop_last() =~= gs.take(j));
        assert(t.last() == gs[j]);
        lemma_contains_right(tagged_lines(gs.take(j), tag), tagged_symbol_lines(gs[j], gs[j].symbols@, tag), w);
        lemma_group_lines_prefix(gs, tag, j + 1, w);
    } else {
        assert(gs.take(j) =~= gs);
    }
}

/// A symbol is listed on the page of a tag whenever that tag is any one of its
/// tags, with a deep link to its row on its group's page.
pub proof fn lemma_tag_page_lists_tagged_symbol(m: DocModel, tag: Seq<char>, gi: int, si: int, ti: int)
    requires
        0 <= gi < m.groups@.len(),
        0 <= si < m.groups@[gi].symbols@.len(),
        0 <= ti < m.groups@[gi].symbols@[si].tags@.len(),
        m.groups@[gi].symbols@[si].tags@[ti]@ == tag,
    ensures
        contains_text(tag_page_text(m, tag), tag_line(m.groups@[gi], m.groups@[gi].symbols@[si])),
{
    let gs = m.groups@;
    let g = gs[gi];
    let syms = g.symbols@;
    let s = syms[si];
    let w = tag_line(g, s);
    assert(has_tag(s.tags@, tag));
    let t = syms.take(si + 1);
    assert(t.drop_last() =~= syms.take(si));
    assert(t.last() == s);
    assert(tagged_symbol_lines(g, t, tag) == tagged_symbol_lines(g, syms.take(si), tag) + w);
    lemma_contains_prefix(w, Seq::empty());
    assert(w + Seq::<char>::empty() =~= w);
    lemma_contains_left(tagged_symbol_lines(g, syms.take(si), tag), w, w);
    lemma_symbol_lines_prefix(g, syms, tag, si + 1, w);
    let u = gs.take(gi + 1);
    assert(u.drop_last() =~= gs.take(gi));
    assert(u.last() == g);
    lemma_contains_left(tagged_lines(gs.take(gi), tag), tagged_symbol_lines(g, syms, tag), w);
    lemma_group_lines_prefix(gs, tag, gi + 1, w);
    let head = "[Index](index.md)\n\n"@ + "# Tag: "@ + tag + "\n\n"@;
    let foot = if tagged_lines(gs, tag).len() == 0 {
        "(no symbols carry this tag)\n"@
    } else {
        Seq::<char>::empty()
    };
    assert(tag_page_text(m, tag) == head + tagged_lines(gs, tag) + foot);
    lemma_contains_in_context(head, tagged_lines(gs, tag), foot, w);
}

/// Whether `tag` is any one of the symbol's tags.
pub open spec fn carries(s: SymbolDoc, tag: Seq<char>) -> bool {
    exists|i: int| 0 <= i < s.tags@.len() && (#[trigger] s.tags@[i])@ == tag
}

/// The tag-page lines of the given symbols, in order.
pub open spec fn symbol_link_lines(g: GroupDoc, ss: Seq<SymbolDoc>) -> Seq<char>
    decreases ss.len(),
{
    if ss.len() == 0 {
        Seq::empty()
    } else {
        symbol_link_lines(g, ss.drop_last()) + tag_line(g, ss.last())
    }
}

/// A group's part of a tag page lists exactly its symbols that carry the tag
/// among their tags, in order, each once.
pub proof fn lemma_tag_lines_select_carriers(g: GroupDoc, syms: Seq<SymbolDoc>, tag: Seq<char>)
    ensures
        tagged_symbol_lines(g, syms, tag) == symbol_link_lines(g, syms.filter(|s: SymbolDoc| carries(s, tag))),
    decreases syms.len(),
{
    reveal(Seq::filter);
    if syms.len() > 0 {
        lemma_tag_lines_select_carriers(g, syms.drop_last(), tag);
        let f = |s: SymbolDoc| carries(s, tag);
        let x = syms.last();
        if carries(x, tag) {
            assert(syms.filter(f) == syms.drop_last().filter(f).push(x));
            assert(syms.filter(f).drop_last() =~= syms.drop_last().filter(f));
        } else {
            assert(syms.filter(f) == syms.drop_last().filter(f));
        }
    } else {
        assert(syms.filter(|s: SymbolDoc| carries(s, tag)) =~= Seq::<SymbolDoc>::empty());
    }
}

} // verus!
