//! Renders the Markdown files to a self-contained HTML site: each `.md` file
//! becomes a `.html` page with the sidebar, toolbar, filter panel and the
//! inline assets; relationship-graph sentinels become interactive figures and
//! intra-doc `*.md` links become `*.html`. One shared search-index file is
//! emitted beside the pages.

pub mod assets;
pub mod chrome;
pub mod escaping;
pub mod graph;
pub mod links;
pub mod search;

use crate::anchored::model_entities;
use crate::html::assets::{SCRIPT, STYLE};
use crate::html::chrome::{
    build_filters, build_nav, build_toolbar, filters_text, nav_fits, nav_text, toolbar_text,
};
use crate::html::escaping::{html_escape, html_escaped};
use crate::html::graph::{
    figures_fit, graph_links, node_hrefs, sentinel_texts, swap_from, swap_graphs, NodeHrefs,
};
use crate::html::links::{rewrite_from, rewrite_md_links};
use crate::html::search::{
    build_search_index_file, index_file_text, index_ref_text, search_index_ref, SEARCH_INDEX_FILE,
};
use crate::markdown::RenderedFile;
use crate::model::DocModel;
use crate::text::{ends_with, has_prefix, has_suffix, starts_with, str_eq, string_from_chars, to_owned_string, chars_of};
use vstd::prelude::*;

verus! {

/// The HTML that pulldown-cmark makes of a Markdown text, with tables enabled.
pub uninterp spec fn cmark_html(markdown: Seq<char>) -> Seq<char>;

/// Calls `pulldown_cmark::html::push_html` on `pulldown_cmark::Parser::new_ext`
/// over `markdown` with `Options::ENABLE_TABLES`, into an empty string. The
/// result is trusted to be `cmark_html` of the text; nothing more is claimed
/// of it.
#[verifier::external_body]
fn markdown_to_html(markdown: &str) -> (r: String)
    ensures
        r@ == cmark_html(markdown@),
{
    let mut out = String::new();
    let parser = pulldown_cmark::Parser::new_ext(markdown, pulldown_cmark::Options::ENABLE_TABLES);
    pulldown_cmark::html::push_html(&mut out, parser);
    out
}

/// The parts shared by every page: the sidebar, the toolbar, the filter
/// panel, the search-index reference and the graph node links.
pub struct PageChrome {
    pub nav: String,
    pub toolbar: String,
    pub filters: String,
    pub search_ref: String,
    pub hrefs: NodeHrefs,
}

/// `c` is the chrome of model `m`.
pub open spec fn chrome_of(c: PageChrome, m: DocModel) -> bool {
    &&& c.nav@ == nav_text(m)
    &&& c.toolbar@ == toolbar_text()
    &&& c.filters@ == filters_text(m)
    &&& c.search_ref@ == index_ref_text()
    &&& c.hrefs.view_links() == graph_links(model_entities(m))
}

/// Build the parts shared by every page of `model`.
pub fn page_chrome(model: &DocModel) -> (c: PageChrome)
    requires
        nav_fits(model.groups@),
    ensures
        chrome_of(c, *model),
{
    PageChrome {
        nav: build_nav(model),
        toolbar: build_toolbar(),
        filters: build_filters(model),
        search_ref: search_index_ref(),
        hrefs: node_hrefs(model),
    }
}

/// A page with filterable rows: any page but the index, the Enums page and
/// the tag pages.
pub open spec fn is_group_page(path: Seq<char>) -> bool {
    path != "index.md"@ && path != "enums.md"@ && !has_prefix(path, "tag."@)
}

/// The HTML path of a Markdown path: `.md` becomes `.html` (any other path
/// just gains `.html`).
pub open spec fn html_path(path: Seq<char>) -> Seq<char> {
    if has_suffix(path, ".md"@) {
        path.take(path.len() - 3) + ".html"@
    } else {
        path + ".html"@
    }
}

/// A full page around `fragment`: the head with the escaped title and the
/// inline stylesheet, the sidebar, then in `<main>` the toolbar, the filter
/// panel (group pages only) and the fragment, then the search-index reference
/// and the inline script.
pub open spec fn page_text(m: DocModel, path: Seq<char>, fragment: Seq<char>) -> Seq<char> {
    "<!doctype html><html lang=\"en\"><head><meta charset=\"utf-8\"><meta name=\"viewport\" content=\"width=device-width,initial-scale=1\"><title>"@
        + html_escaped(m.title@, false) + "</title><style>"@ + STYLE@ + "</style></head><body>"@ + nav_text(m)
        + "<main>"@ + toolbar_text() + (if is_group_page(path) {
        filters_text(m)
    } else {
        Seq::empty()
    }) + fragment + "</main>"@ + index_ref_text() + "<script>"@ + SCRIPT@ + "</script></body></html>"@
}

/// `page` is the HTML page of the Markdown file at `path` whose body
/// pulldown-cmark turned into `fragment`: the graph sentinels swapped for the
/// figures they ask for, the `.md` links rewritten, and the whole wrapped.
pub open spec fn is_page_of(page: RenderedFile, m: DocModel, path: Seq<char>, fragment: Seq<char>) -> bool {
    &&& page.path@ == html_path(path)
    &&& exists|figs: Seq<Seq<char>>|
        figures_fit(m, graph_links(model_entities(m)), sentinel_texts(fragment, 0), figs) && page.body@ == page_text(
            m,
            path,
            rewrite_from(swap_from(fragment, 0, figs), 0),
        )
}

fn html_path_of(path: &str) -> (r: String)
    ensures
        r@ == html_path(path@),
{
    let mut out = String::new();
    if ends_with(path, ".md") {
        let v = chars_of(path);
        proof {
            reveal_strlit(".md");
        }
        out.append(string_from_chars(&v, 0, v.len() - 3).as_str());
        assert(v@.subrange(0, v@.len() - 3) =~= path@.take(path@.len() - 3));
        out.append(".html");
    } else {
        out.append(path);
        out.append(".html");
    }
    out
}

/// The page of one Markdown file, from the HTML fragment pulldown-cmark made
/// of its body.
pub fn html_page(file: &RenderedFile, fragment: &str, model: &DocModel, chrome: &PageChrome) -> (r: RenderedFile)
    requires
        chrome_of(*chrome, *model),
    ensures
        is_page_of(r, *model, file.path@, fragment@),
{
    let swapped = swap_graphs(fragment, model, &chrome.hrefs);
    let linked = rewrite_md_links(swapped.as_str());
    let path = file.path.as_str();
    let group_page = !str_eq(path, "index.md") && !str_eq(path, "enums.md") && !starts_with(path, "tag.");
    let mut page = String::new();
    page.append(
        "<!doctype html><html lang=\"en\"><head><meta charset=\"utf-8\"><meta name=\"viewport\" content=\"width=device-width,initial-scale=1\"><title>",
    );
    page.append(html_escape(model.title.as_str()).as_str());
    page.append("</title><style>");
    page.append(STYLE);
    page.append("</style></head><body>");
    page.append(chrome.nav.as_str());
    page.append("<main>");
    page.append(chrome.toolbar.as_str());
    if group_page {
        page.append(chrome.filters.as_str());
    }
    page.append(linked.as_str());
    page.append("</main>");
    page.append(chrome.search_ref.as_str());
    page.append("<script>");
    page.append(SCRIPT);
    page.append("</script></body></html>");
    let r = RenderedFile { path: html_path_of(path), body: page };
    proof {
        let figs = choose|figs: Seq<Seq<char>>|
            figures_fit(*model, chrome.hrefs.view_links(), sentinel_texts(fragment@, 0), figs) && swapped@ == swap_from(
                fragment@,
                0,
                figs,
            );
        assert(r.body@ =~= page_text(*model, file.path@, rewrite_from(swap_from(fragment@, 0, figs), 0)));
    }
    r
}

/// Convert the Markdown files to HTML pages, then add the shared search
/// index. Each page is the file's body rendered by pulldown-cmark (tables
/// enabled), its graph sentinels swapped for interactive figures, its relative
/// `*.md` links rewritten to `*.html`, wrapped in the page shell; its path
/// swaps `.md` for `.html`.
pub fn render(markdown_files: &[RenderedFile], model: &DocModel) -> (r: Vec<RenderedFile>)
    requires
        nav_fits(model.groups@),
    ensures
        r@.len() == markdown_files@.len() + 1,
        forall|i: int|
            0 <= i < markdown_files@.len() ==> #[trigger] is_page_of(
                r@[i],
                *model,
                markdown_files@[i].path@,
                cmark_html(markdown_files@[i].body@),
            ),
        r@[markdown_files@.len() as int].path@ == SEARCH_INDEX_FILE@,
        r@[markdown_files@.len() as int].body@ == index_file_text(*model),
{
    let chrome = page_chrome(model);
    let mut out: Vec<RenderedFile> = Vec::new();
    let mut i: usize = 0;
    while i < markdown_files.len()
        invariant
            i <= markdown_files@.len(),
            chrome_of(chrome, *model),
            out@.len() == i,
            forall|k: int|
                0 <= k < i ==> #[trigger] is_page_of(
                    out@[k],
                    *model,
                    markdown_files@[k].path@,
                    cmark_html(markdown_files@[k].body@),
                ),
        decreases markdown_files@.len() - i,
    {
        let f = &markdown_files[i];
        let fragment = markdown_to_html(f.body.as_str());
        let page = html_page(f, fragment.as_str(), model, &chrome);
        out.push(page);
        i += 1;
    }
    out.push(RenderedFile { path: to_owned_string(SEARCH_INDEX_FILE), body: build_search_index_file(model) });
    out
}

} // verus!
