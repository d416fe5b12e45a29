//! Page chrome built as hand-written markup: the sidebar navigation tree, the
//! toolbar (menu / search box / theme toggle / TOC slot), and the security and
//! tag filter panel. Every user-facing string is escaped, so names with
//! markup-significant characters stay safe.

use crate::facets::{
    all_symbols, find_last_group, forest_root, is_forest_root, last_group_index,
    lemma_last_group_index, uses_security,
};
use crate::html::escaping::{attr_escape, html_escape, html_escaped};
use crate::markdown::pages::{lemma_tag_list, level_list, tag_list};
use crate::model::{DocModel, GroupDoc};
use crate::path::{last_segment, leaf_of};
use crate::strset::{lemma_sorted_sets_equal, strictly_sorted, views};
use vstd::prelude::*;

verus! {

// ---------------------------------------------------------------------------
// Navigation
// ---------------------------------------------------------------------------

/// The `<li>` of a group and, nested, its children's — descending at most
/// `fuel` levels; `None` when that is not deep enough to reach every leaf.
/// Each child path names the last group with that path; a child path that
/// names no group is skipped.
pub open spec fn nav_node(gs: Seq<GroupDoc>, g: GroupDoc, fuel: nat) -> Option<Seq<char>>
    decreases fuel, 0int, 0int,
{
    if fuel == 0 {
        None
    } else {
        let head = "<li><a href=\""@ + html_escaped(g.path@, true) + ".html\">"@ + html_escaped(leaf_of(g.path@), false)
            + "</a>"@;
        if g.children@.len() == 0 {
            Some(head + "</li>"@)
        } else {
            match nav_children(gs, g.children@, (fuel - 1) as nat) {
                Some(inner) => Some(head + "<ul>"@ + inner + "</ul>"@ + "</li>"@),
                None => None,
            }
        }
    }
}

/// The `<li>`s of the groups the child paths `cs` name, in order.
pub open spec fn nav_children(gs: Seq<GroupDoc>, cs: Seq<String>, fuel: nat) -> Option<Seq<char>>
    decreases fuel, 1int, cs.len(),
{
    if cs.len() == 0 {
        Some(Seq::empty())
    } else {
        match nav_children(gs, cs.drop_last(), fuel) {
            None => None,
            Some(prev) => {
                let k = last_group_index(gs, cs.last()@);
                if 0 <= k < gs.len() {
                    match nav_node(gs, gs[k], fuel) {
                        Some(node) => Some(prev + node),
                        None => None,
                    }
                } else {
                    Some(prev)
                }
            },
        }
    }
}

/// The tree under every forest root.
pub open spec fn nav_roots(gs: Seq<GroupDoc>, roots: Seq<GroupDoc>) -> Option<Seq<char>>
    decreases roots.len(),
{
    if roots.len() == 0 {
        Some(Seq::empty())
    } else {
        match nav_roots(gs, roots.drop_last()) {
            None => None,
            Some(prev) => if is_forest_root(gs, roots.last().path@) {
                match nav_node(gs, roots.last(), gs.len()) {
                    Some(node) => Some(prev + node),
                    None => None,
                }
            } else {
                Some(prev)
            },
        }
    }
}

/// The group tree is finite: descending from the forest roots through child
/// paths never revisits a group (so it reaches every leaf within as many
/// levels as there are groups).
pub open spec fn nav_fits(gs: Seq<GroupDoc>) -> bool {
    nav_roots(gs, gs) is Some
}

/// The sidebar: the index link, the Enums link when the project has enums,
/// and the group tree from its forest roots.
pub open spec fn nav_text(m: DocModel) -> Seq<char> {
    "<nav><h2>Navigation</h2>"@ + "<a href=\"index.html\">Index</a>"@ + (if m.enums@.len() > 0 {
        "<a href=\"enums.html\">Enums</a>"@
    } else {
        Seq::empty()
    }) + "<ul>"@ + nav_roots(m.groups@, m.groups@)->0 + "</ul></nav>"@
}

/// Append the `<li>` of group `g` and its subtree.
fn push_nav_node(nav: &mut String, groups: &Vec<GroupDoc>, g: &GroupDoc, fuel: usize) -> (ok: bool)
    ensures
        ok == (nav_node(groups@, *g, fuel as nat) is Some),
        ok ==> final(nav)@ == old(nav)@ + nav_node(groups@, *g, fuel as nat)->0,
    decreases fuel, 0int, 0int,
{
    if fuel == 0 {
        return false;
    }
    let ghost start = nav@;
    nav.append("<li><a href=\"");
    nav.append(attr_escape(g.path.as_str()).as_str());
    nav.append(".html\">");
    nav.append(html_escape(last_segment(g.path.as_str()).as_str()).as_str());
    nav.append("</a>");
    let ghost head = nav@;
    assert(head =~= start + ("<li><a href=\""@ + html_escaped(g.path@, true) + ".html\">"@ + html_escaped(
        leaf_of(g.path@),
        false,
    ) + "</a>"@));
    if g.children.len() == 0 {
        nav.append("</li>");
        assert(nav@ =~= start + nav_node(groups@, *g, fuel as nat)->0);
        return true;
    }
    nav.append("<ul>");
    let ok = push_nav_children(nav, groups, &g.children, fuel - 1);
    if !ok {
        return false;
    }
    nav.append("</ul>");
    nav.append("</li>");
    assert(nav@ =~= start + nav_node(groups@, *g, fuel as nat)->0);
    true
}

/// Append the `<li>`s of the groups the child paths name.
fn push_nav_children(nav: &mut String, groups: &Vec<GroupDoc>, children: &Vec<String>, fuel: usize) -> (ok: bool)
    ensures
        ok == (nav_children(groups@, children@, fuel as nat) is Some),
        ok ==> final(nav)@ == old(nav)@ + nav_children(groups@, children@, fuel as nat)->0,
    decreases fuel, 1int, children@.len(),
{
    let ghost start = nav@;
    let mut i: usize = 0;
    while i < children.len()
        invariant
            i <= children.len(),
            nav_children(groups@, children@.take(i as int), fuel as nat) is Some,
            nav@ == start + nav_children(groups@, children@.take(i as int), fuel as nat)->0,
        decreases children.len() - i,
    {
        assert(children@.take(i + 1).drop_last() =~= children@.take(i as int));
        let c = children[i].as_str();
        proof {
            lemma_last_group_index(groups@, c@);
        }
        match find_last_group(groups, c) {
            Some(k) => {
                let ok = push_nav_node(nav, groups, &groups[k], fuel);
                if !ok {
                    proof {
                        lemma_children_none_extends(groups@, children@, fuel as nat, i + 1);
                    }
                    return false;
                }
            },
            None => {},
        }
        i += 1;
    }
    assert(children@.take(children@.len() as int) =~= children@);
    true
}

proof fn lemma_children_none_extends(gs: Seq<GroupDoc>, cs: Seq<String>, fuel: nat, n: int)
    requires
        0 < n <= cs.len(),
        nav_children(gs, cs.take(n), fuel) is None,
    ensures
        nav_children(gs, cs, fuel) is None,
    decreases cs.len() - n,
{
    if n < cs.len() {
        assert(cs.take(n + 1).drop_last() =~= cs.take(n));
        lemma_children_none_extends(gs, cs, fuel, n + 1);
    } else {
        assert(cs.take(n) =~= cs);
    }
}

/// The sidebar navigation: the index link, the Enums link when the project
/// has enums, and the nested group tree from its forest roots (groups whose
/// parent is not itself documented).
pub fn build_nav(model: &DocModel) -> (r: String)
    requires
        nav_fits(model.groups@),
    ensures
        r@ == nav_text(*model),
{
    let groups = &model.groups;
    let mut nav = String::new();
    nav.append("<nav><h2>Navigation</h2>");
    nav.append("<a href=\"index.html\">Index</a>");
    if model.enums.len() > 0 {
        nav.append("<a href=\"enums.html\">Enums</a>");
    }
    nav.append("<ul>");
    let ghost head = nav@;
    let mut i: usize = 0;
    while i < groups.len()
        invariant
            i <= groups.len(),
            nav_fits(groups@),
            nav_roots(groups@, groups@.take(i as int)) is Some,
            nav@ == head + nav_roots(groups@, groups@.take(i as int))->0,
        decreases groups.len() - i,
    {
        assert(groups@.take(i + 1).drop_last() =~= groups@.take(i as int));
        let g = &groups[i];
        if forest_root(groups, g.path.as_str()) {
            proof {
                lemma_roots_prefix_some(groups@, groups@, i + 1);
            }
            let ok = push_nav_node(&mut nav, groups, g, groups.len());
        }
        i += 1;
    }
    assert(groups@.take(groups@.len() as int) =~= groups@);
    nav.append("</ul></nav>");
    assert(nav@ =~= nav_text(*model));
    nav
}

proof fn lemma_roots_prefix_some(gs: Seq<GroupDoc>, roots: Seq<GroupDoc>, n: int)
    requires
        0 <= n <= roots.len(),
        nav_roots(gs, roots) is Some,
    ensures
        nav_roots(gs, roots.take(n)) is Some,
    decreases roots.len() - n,
{
    if n < roots.len() {
        lemma_roots_prefix_some(gs, roots, n + 1);
        assert(roots.take(n + 1).drop_last() =~= roots.take(n));
    } else {
        assert(roots.take(n) =~= roots);
    }
}

// ---------------------------------------------------------------------------
// Toolbar and filters
// ---------------------------------------------------------------------------

/// The toolbar markup.
pub open spec fn toolbar_text() -> Seq<char> {
    "<div class=\"toolbar\">"@ + "<button id=\"menu-toggle\" class=\"btn\" title=\"Toggle navigation\">☰</button>"@
        + "<input id=\"search-box\" type=\"search\" placeholder=\"Search symbols, functions, tables…\" autocomplete=\"off\">"@
        + "<button id=\"theme-toggle\" class=\"btn\" title=\"Toggle dark mode\">◐</button>"@ + "</div>"@
        + "<ul id=\"search-results\"></ul>"@ + "<div id=\"toc-slot\"></div>"@
}

/// The toolbar: a menu button (narrow screens), the live search box and its
/// results list, a theme toggle, and an empty slot the script fills with a
/// per-page table of contents.
pub fn build_toolbar() -> (r: String)
    ensures
        r@ == toolbar_text(),
{
    let mut t = String::new();
    t.append("<div class=\"toolbar\">");
    t.append("<button id=\"menu-toggle\" class=\"btn\" title=\"Toggle navigation\">☰</button>");
    t.append(
        "<input id=\"search-box\" type=\"search\" placeholder=\"Search symbols, functions, tables…\" autocomplete=\"off\">",
    );
    t.append("<button id=\"theme-toggle\" class=\"btn\" title=\"Toggle dark mode\">◐</button>");
    t.append("</div>");
    t.append("<ul id=\"search-results\"></ul>");
    t.append("<div id=\"toc-slot\"></div>");
    t
}

pub open spec fn filter_boxes(items: Seq<Seq<char>>, attr: Seq<char>) -> Seq<char>
    decreases items.len(),
{
    if items.len() == 0 {
        Seq::empty()
    } else {
        let esc = html_escaped(items.last(), true);
        filter_boxes(items.drop_last(), attr) + "<label><input type=\"checkbox\" "@ + attr + "=\""@ + esc + "\"> "@
            + esc + "</label>"@
    }
}

/// The filter panel of a group page: a checkbox per security level and per
/// tag present in the project; empty when the project has neither.
pub open spec fn filters_text(m: DocModel) -> Seq<char> {
    let levels = level_list(m);
    let tags = tag_list(m);
    if levels.len() == 0 && tags.len() == 0 {
        Seq::empty()
    } else {
        "<details id=\"filters\" class=\"filters\"><summary>Filter rows</summary>"@ + (if levels.len() > 0 {
            "<div><strong>Security</strong> "@ + filter_boxes(levels, "data-sec"@) + "</div>"@
        } else {
            Seq::empty()
        }) + (if tags.len() > 0 {
            "<div><strong>Tags</strong> "@ + filter_boxes(tags, "data-tag"@) + "</div>"@
        } else {
            Seq::empty()
        })
            + "<div><small>Tick levels/tags to show only matching rows; all unticked shows everything.</small></div>"@
            + "</details>"@
    }
}

fn push_filter_boxes(out: &mut String, items: &Vec<String>, attr: &str)
    ensures
        final(out)@ == old(out)@ + filter_boxes(views(items@), attr@),
{
    let ghost start = out@;
    let mut i: usize = 0;
    while i < items.len()
        invariant
            i <= items.len(),
            out@ == start + filter_boxes(views(items@).take(i as int), attr@),
        decreases items.len() - i,
    {
        let esc = attr_escape(items[i].as_str());
        out.append("<label><input type=\"checkbox\" ");
        out.append(attr);
        out.append("=\"");
        out.append(esc.as_str());
        out.append("\"> ");
        out.append(esc.as_str());
        out.append("</label>");
        assert(views(items@).take(i + 1).drop_last() =~= views(items@).take(i as int));
        assert(out@ =~= start + filter_boxes(views(items@).take(i + 1), attr@));
        i += 1;
    }
    assert(views(items@).take(items@.len() as int) =~= views(items@));
}

/// The security / tag filter panel for a group page: a checkbox per level and
/// per tag present in the project, each showing the matching rows. Empty when
/// the project declares neither, so there is no empty panel.
pub fn build_filters(model: &DocModel) -> (r: String)
    ensures
        r@ == filters_text(*model),
{
    let levels = model.security_levels();
    let tags = model.tags();
    proof {
        lemma_tag_list(*model, views(tags@));
        let l = level_list(*model);
        assert(strictly_sorted(l) && forall|x: Seq<char>| #[trigger] l.contains(x) <==> uses_security(
            all_symbols(model.groups@),
            x,
        ));
        assert forall|x: Seq<char>| l.contains(x) <==> views(levels@).contains(x) by {
            assert(l.contains(x) <==> uses_security(all_symbols(model.groups@), x));
        }
        lemma_sorted_sets_equal(l, views(levels@));
    }
    let mut f = String::new();
    if levels.len() == 0 && tags.len() == 0 {
        return f;
    }
    f.append("<details id=\"filters\" class=\"filters\"><summary>Filter rows</summary>");
    if levels.len() > 0 {
        f.append("<div><strong>Security</strong> ");
        push_filter_boxes(&mut f, &levels, "data-sec");
        f.append("</div>");
    }
    let ghost mid = f@;
    if tags.len() > 0 {
        f.append("<div><strong>Tags</strong> ");
        push_filter_boxes(&mut f, &tags, "data-tag");
        f.append("</div>");
    }
    f.append("<div><small>Tick levels/tags to show only matching rows; all unticked shows everything.</small></div>");
    f.append("</details>");
    assert(f@ =~= filters_text(*model));
    f
}

/// How many groups have a path longer than `l` characters.
pub open spec fn longer_count(gs: Seq<GroupDoc>, l: nat) -> nat
    decreases gs.len(),
{
    if gs.len() == 0 {
        0
    } else {
        longer_count(gs.drop_last(), l) + if gs.last().path@.len() > l {
            1nat
        } else {
            0nat
        }
    }
}

/// Every group's child paths are longer than its own path.
pub open spec fn children_deeper(gs: Seq<GroupDoc>) -> bool {
    forall|k: int, c: int|
        0 <= k < gs.len() && 0 <= c < gs[k].children@.len() ==> (#[trigger] gs[k].children@[c])@.len()
            > gs[k].path@.len()
}

proof fn lemma_longer_count_bounds(gs: Seq<GroupDoc>, l: nat, m: nat, k: int)
    requires
        l < m,
        0 <= k < gs.len(),
        l < gs[k].path@.len() <= m,
    ensures
        longer_count(gs, m) + 1 <= longer_count(gs, l),
    decreases gs.len(),
{
    let d = gs.drop_last();
    if k == gs.len() - 1 {
        lemma_longer_count_monotone(d, l, m);
    } else {
        assert(d[k] == gs[k]);
        lemma_longer_count_bounds(d, l, m, k);
    }
}

proof fn lemma_longer_count_monotone(gs: Seq<GroupDoc>, l: nat, m: nat)
    requires
        l <= m,
    ensures
        longer_count(gs, m) <= longer_count(gs, l),
    decreases gs.len(),
{
    if gs.len() > 0 {
        lemma_longer_count_monotone(gs.drop_last(), l, m);
    }
}

proof fn lemma_longer_count_below_len(gs: Seq<GroupDoc>, k: int)
    requires
        0 <= k < gs.len(),
    ensures
        longer_count(gs, gs[k].path@.len()) + 1 <= gs.len(),
    decreases gs.len(),
{
    let d = gs.drop_last();
    if k == gs.len() - 1 {
        lemma_longer_count_at_most_len(d, gs[k].path@.len());
    } else {
        assert(d[k] == gs[k]);
        lemma_longer_count_below_len(d, k);
    }
}

proof fn lemma_longer_count_at_most_len(gs: Seq<GroupDoc>, l: nat)
    ensures
        longer_count(gs, l) <= gs.len(),
    decreases gs.len(),
{
    if gs.len() > 0 {
        lemma_longer_count_at_most_len(gs.drop_last(), l);
    }
}

proof fn lemma_nav_node_some(gs: Seq<GroupDoc>, k: int, fuel: nat)
    requires
        children_deeper(gs),
        0 <= k < gs.len(),
        fuel >= longer_count(gs, gs[k].path@.len()) + 1,
    ensures
        nav_node(gs, gs[k], fuel) is Some,
    decreases fuel, 0int, 0int,
{
    let g = gs[k];
    if g.children@.len() > 0 {
        lemma_nav_children_some(gs, k, g.children@.len() as int, (fuel - 1) as nat);
        assert(g.children@.take(g.children@.len() as int) =~= g.children@);
    }
}

proof fn lemma_nav_children_some(gs: Seq<GroupDoc>, k: int, n: int, fuel: nat)
    requires
        children_deeper(gs),
        0 <= k < gs.len(),
        0 <= n <= gs[k].children@.len(),
        fuel >= longer_count(gs, gs[k].path@.len()),
    ensures
        nav_children(gs, gs[k].children@.take(n), fuel) is Some,
    decreases fuel, 1int, n,
{
    let cs = gs[k].children@.take(n);
    if n > 0 {
        assert(cs.drop_last() =~= gs[k].children@.take(n - 1));
        lemma_nav_children_some(gs, k, n - 1, fuel);
        let c = cs.last();
        assert(c == gs[k].children@[n - 1]);
        lemma_last_group_index(gs, c@);
        let h = last_group_index(gs, c@);
        if 0 <= h < gs.len() {
            assert(gs[h].path@ == c@);
            assert(c@.len() > gs[k].path@.len());
            lemma_longer_count_bounds(gs, gs[k].path@.len(), gs[h].path@.len(), h);
            lemma_nav_node_some(gs, h, fuel);
        }
    }
}

/// Where every group's child paths are longer than its own path, the
/// navigation tree is finite, so the sidebar can be built.
pub proof fn lemma_nav_fits_when_children_deeper(gs: Seq<GroupDoc>)
    requires
        children_deeper(gs),
    ensures
        nav_fits(gs),
{
    lemma_nav_roots_some(gs, gs.len() as int);
    assert(gs.take(gs.len() as int) =~= gs);
}

proof fn lemma_nav_roots_some(gs: Seq<GroupDoc>, n: int)
    requires
        children_deeper(gs),
        0 <= n <= gs.len(),
    ensures
        nav_roots(gs, gs.take(n)) is Some,
    decreases n,
{
    if n > 0 {
        let r = gs.take(n);
        assert(r.drop_last() =~= gs.take(n - 1));
        lemma_nav_roots_some(gs, n - 1);
        assert(r.last() == gs[n - 1]);
        lemma_longer_count_below_len(gs, n - 1);
        lemma_nav_node_some(gs, n - 1, gs.len() as nat);
    }
}

} // verus!
