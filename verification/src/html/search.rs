//! The client-side search index: a flat JSON array over every documented
//! entity, emitted once per project as a shared `search-index.js` file that
//! every page loads. Built from the model's single anchored-entity walk, so it
//! covers exactly the entities the graph deep links cover, plus the enums.

use crate::anchored::{model_entities, EntityView};
use crate::escape::{escape_json_into, json_escaped};
use crate::model::{spec_href, spec_kind_label, DocModel};
use crate::text::lemma_take_push;
use vstd::prelude::*;

verus! {

/// Filename of the shared search-index file, loaded by every page.
pub const SEARCH_INDEX_FILE: &'static str = "search-index.js";

/// One search record: full path, kind label, owning group, unit or quantity
/// hint (may be empty), and the `<page>#<anchor>` link.
pub struct SearchEntry {
    pub path: String,
    pub kind: &'static str,
    pub group: String,
    pub hint: String,
    pub href: String,
}

/// The plain values of a search record.
pub open spec fn entry_view(e: SearchEntry) -> (Seq<char>, Seq<char>, Seq<char>, Seq<char>, Seq<char>) {
    (e.path@, e.kind@, e.group@, e.hint@, e.href@)
}

/// The record of an anchored entity.
pub open spec fn entry_of(e: EntityView) -> (Seq<char>, Seq<char>, Seq<char>, Seq<char>, Seq<char>) {
    (e.path, spec_kind_label(e.kind), e.group, e.hint, spec_href(e.page, e.anchor))
}

/// Script-safe JSON escaping of a string's contents (no surrounding quotes):
/// `<`, `>` and `/` are escaped too, so the index can never close a
/// `<script>` element.
pub fn json_escape(s: &str) -> (r: String)
    ensures
        r@ == json_escaped(s@, true),
{
    let mut out = String::new();
    escape_json_into(&mut out, s, true);
    assert(out@ =~= json_escaped(s@, true));
    out
}

/// Every documented entity as a search record, in deterministic order.
pub fn build_search_entries(model: &DocModel) -> (r: Vec<SearchEntry>)
    ensures
        r@.map_values(|e: SearchEntry| entry_view(e)) == model_entities(*model).map_values(|e: EntityView| entry_of(e)),
{
    let ents = model.anchored_entities();
    let ghost views = model_entities(*model);
    let mut out: Vec<SearchEntry> = Vec::new();
    let mut i: usize = 0;
    while i < ents.len()
        invariant
            i <= ents.len(),
            views == model_entities(*model),
            crate::anchored::entity_views(ents@) == views,
            out@.len() == i,
            forall|k: int| 0 <= k < i ==> entry_view(#[trigger] out@[k]) == entry_of(views[k]),
        decreases ents.len() - i,
    {
        let e = &ents[i];
        assert(views[i as int] == ents@[i as int]@);
        let mut path = String::new();
        path.append(e.path);
        let mut group = String::new();
        group.append(e.group);
        let mut hint = String::new();
        hint.append(e.hint);
        out.push(SearchEntry { path, kind: e.kind.label(), group, hint, href: e.href() });
        i += 1;
    }
    assert(out@.map_values(|e: SearchEntry| entry_view(e)) =~= views.map_values(|e: EntityView| entry_of(e)));
    out
}

/// The JSON object of one search record.
pub open spec fn entry_json(r: (Seq<char>, Seq<char>, Seq<char>, Seq<char>, Seq<char>)) -> Seq<char> {
    "{\"p\":\""@ + json_escaped(r.0, true) + "\",\"k\":\""@ + json_escaped(r.1, true) + "\",\"g\":\""@
        + json_escaped(r.2, true) + "\",\"u\":\""@ + json_escaped(r.3, true) + "\",\"h\":\""@ + json_escaped(
        r.4,
        true,
    ) + "\"}"@
}

pub open spec fn entries_json(rs: Seq<(Seq<char>, Seq<char>, Seq<char>, Seq<char>, Seq<char>)>) -> Seq<char>
    decreases rs.len(),
{
    if rs.len() == 0 {
        Seq::empty()
    } else {
        entries_json(rs.drop_last()) + (if rs.len() > 1 {
            ","@
        } else {
            Seq::empty()
        }) + entry_json(rs.last())
    }
}

/// The search index as a compact JSON array, in entity order.
pub open spec fn index_json(m: DocModel) -> Seq<char> {
    "["@ + entries_json(model_entities(m).map_values(|e: EntityView| entry_of(e))) + "]"@
}

fn push_entry(out: &mut String, e: &SearchEntry)
    ensures
        final(out)@ == old(out)@ + entry_json(entry_view(*e)),
{
    out.append("{\"p\":\"");
    escape_json_into(out, e.path.as_str(), true);
    out.append("\",\"k\":\"");
    escape_json_into(out, e.kind, true);
    out.append("\",\"g\":\"");
    escape_json_into(out, e.group.as_str(), true);
    out.append("\",\"u\":\"");
    escape_json_into(out, e.hint.as_str(), true);
    out.append("\",\"h\":\"");
    escape_json_into(out, e.href.as_str(), true);
    out.append("\"}");
    assert(final(out)@ =~= old(out)@ + entry_json(entry_view(*e)));
}

/// Render the search index as a compact JSON array, in deterministic order.
pub fn search_index_json(model: &DocModel) -> (r: String)
    ensures
        r@ == index_json(*model),
{
    let entries = build_search_entries(model);
    let ghost rs = entries@.map_values(|e: SearchEntry| entry_view(e));
    let mut out = String::new();
    out.append("[");
    let ghost head = out@;
    let mut i: usize = 0;
    while i < entries.len()
        invariant
            i <= entries.len(),
            rs == entries@.map_values(|e: SearchEntry| entry_view(e)),
            out@ == head + entries_json(rs.take(i as int)),
        decreases entries.len() - i,
    {
        let ghost before = out@;
        if i > 0 {
            out.append(",");
        }
        push_entry(&mut out, &entries[i]);
        proof {
            lemma_take_push(rs, i as int);
            assert(rs.take(i + 1).drop_last() =~= rs.take(i as int));
            assert(rs[i as int] == entry_view(entries@[i as int]));
        }
        assert(out@ =~= head + entries_json(rs.take(i + 1)));
        i += 1;
    }
    assert(rs.take(rs.len() as int) =~= rs);
    out.append("]");
    out
}

/// The `<script src>` reference every page uses to load the shared index.
pub open spec fn index_ref_text() -> Seq<char> {
    "<script src=\""@ + SEARCH_INDEX_FILE@ + "\"></script>"@
}

/// The `<script src>` reference every page uses to load the shared index; it
/// precedes the behaviour script, which reads the index.
pub fn search_index_ref() -> (r: String)
    ensures
        r@ == index_ref_text(),
{
    let mut out = String::new();
    out.append("<script src=\"");
    out.append(SEARCH_INDEX_FILE);
    out.append("\"></script>");
    out
}

/// The body of the shared search-index file.
pub open spec fn index_file_text(m: DocModel) -> Seq<char> {
    "window.__M1_SEARCH_INDEX__="@ + index_json(m) + ";\n"@
}

/// The body of the shared [`SEARCH_INDEX_FILE`]: assigns the index array to a
/// global the behaviour script reads.
pub fn build_search_index_file(model: &DocModel) -> (r: String)
    ensures
        r@ == index_file_text(*model),
{
    let mut out = String::new();
    out.append("window.__M1_SEARCH_INDEX__=");
    out.append(search_index_json(model).as_str());
    out.append(";\n");
    out
}

} // verus!
