//! Renders a documentation model to Markdown: one file per group plus an
//! `index.md`, the per-tag pages, the Enums reference and, on request, a
//! focused subsystem-graph page. This is the canonical output; the HTML
//! renderer consumes these files.

pub mod entries;
pub mod group;
pub mod helpers;
pub mod pages;

use crate::diagram::{is_diagram_around, subsystem_seeds, Diagram};
use crate::facets::tree_fits;
use crate::markdown::group::{
    build_cross_refs, group_page_text, is_cross_refs_of, member_paths, render_group, CrossRefs,
    GROUP_GRAPH_DEPTH,
};
use crate::markdown::helpers::{
    graph_page_file, graph_page_filename, group_file, group_filename, tag_file, tag_filename,
    SourceLinker, ENUMS_FILE,
};
use crate::markdown::pages::{
    enums_page_text, graph_page_text, index_text, render_enums, render_graph_page, render_index,
    render_tag_index, summary_fits, tag_list, tag_page_text,
};
use crate::model::DocModel;
use crate::strset::views;
use crate::text::{to_owned_string, trim_end_char};
use vstd::prelude::*;

verus! {

/// A rendered file: a project-relative path and its Markdown body.
pub struct RenderedFile {
    /// Project-relative path, e.g. `index.md` or `Root.Engine.md`.
    pub path: String,
    /// Full Markdown content ready to write to disk.
    pub body: String,
}

/// Render-time options. `source_base`, when set, turns a function's source path
/// into an external link; `include_source` embeds the script body in a
/// collapsible block.
#[derive(Debug, Clone, Default)]
pub struct RenderOptions {
    /// Base URL prepended to a function's source path to build a source link
    /// (trailing slash optional). `None` → the path is shown as plain text.
    pub source_base: Option<String>,
    /// When `true`, embed each function's script body in a `<details>` block.
    pub include_source: bool,
    /// Emit a focused subsystem-graph page for this group at
    /// [`GraphSpec::depth`]. `None` → no extra page.
    pub graph: Option<GraphSpec>,
}

/// A subsystem-graph request: the group path to focus and how many hops to
/// expand across its boundary.
#[derive(Debug, Clone)]
pub struct GraphSpec {
    pub group: String,
    pub depth: usize,
}

/// `l` links to declarations under the options' source base (trailing
/// slashes trimmed) and the model's project-file path.
pub open spec fn linker_for(l: SourceLinker, opts: RenderOptions, m: DocModel) -> bool {
    &&& match opts.source_base {
        Some(b) => l.base is Some && l.base->0@ == trim_end_char(b@, '/'),
        None => l.base is None,
    }
    &&& match m.m1prj_path {
        Some(p) => l.m1prj_path is Some && l.m1prj_path->0@ == p@,
        None => l.m1prj_path is None,
    }
}

pub open spec fn file_is(f: RenderedFile, path: Seq<char>, body: Seq<char>) -> bool {
    f.path@ == path && f.body@ == body
}

/// The number of files the model renders to.
pub open spec fn file_count(m: DocModel, opts: RenderOptions) -> nat {
    1 + m.groups@.len() + (if opts.graph is Some {
        1nat
    } else {
        0nat
    }) + tag_list(m).len() + (if m.enums@.len() > 0 {
        1nat
    } else {
        0nat
    })
}

/// `files` is the rendering of `m`: `index.md` first, then one page per group
/// in model order, then the subsystem page when one is requested, then one
/// page per tag in sorted order, then the Enums page when the project uses
/// enums. `x` are the model's cross references and `l` its source linker; each
/// page's relationship diagram is the one its group (or the requested
/// subsystem) calls for.
pub open spec fn rendered_as(files: Seq<RenderedFile>, m: DocModel, opts: RenderOptions, x: CrossRefs, l: SourceLinker) -> bool {
    let ng = m.groups@.len();
    let ngraph: nat = if opts.graph is Some {
        1
    } else {
        0
    };
    let tags = tag_list(m);
    &&& files.len() == file_count(m, opts)
    &&& file_is(files[0], "index.md"@, index_text(m, opts))
    &&& forall|i: int| 0 <= i < ng ==> #[trigger] group_file_ok(files[1 + i], m, i, opts, x, l)
    &&& match opts.graph {
        Some(spec) => files[1 + ng as int].path@ == graph_page_file(spec.group@) && exists|d: Diagram|
            is_diagram_around(d, m.graph.edges@, subsystem_seeds(spec.group@), spec.depth as nat)
                && files[1 + ng as int].body@ == graph_page_text(spec, d),
        None => true,
    }
    &&& forall|j: int|
        0 <= j < tags.len() ==> file_is(#[trigger] files[1 + ng + ngraph + j], tag_file(tags[j]), tag_page_text(m, tags[j]))
    &&& m.enums@.len() > 0 ==> file_is(files[files.len() - 1], ENUMS_FILE@, enums_page_text(m.enums@))
}

/// `f` is the page of group `i` of `m`.
pub open spec fn group_file_ok(f: RenderedFile, m: DocModel, i: int, opts: RenderOptions, x: CrossRefs, l: SourceLinker) -> bool {
    f.path@ == group_file(m.groups@[i].path@) && exists|d: Diagram|
        is_diagram_around(d, m.graph.edges@, member_paths(m.groups@[i]), GROUP_GRAPH_DEPTH as nat)
            && f.body@ == group_page_text(m.groups@[i], m.enums@, x, d, opts, l)
}

fn file(path: String, body: String) -> (f: RenderedFile)
    ensures
        f.path@ == path@,
        f.body@ == body@,
{
    RenderedFile { path, body }
}

/// Render the whole model: `index.md` first, then one file per group in model
/// order, then the subsystem page when one is requested, then one page per tag
/// in sorted order, then the Enums reference page when the project uses any
/// enums. `opts` controls function source links and embedding.
pub fn render_with(model: &DocModel, opts: &RenderOptions) -> (files: Vec<RenderedFile>)
    requires
        summary_fits(*model),
        tree_fits(model.groups@),
    ensures
        exists|x: CrossRefs, l: SourceLinker|
            is_cross_refs_of(x, *model) && linker_for(l, *opts, *model) && rendered_as(files@, *model, *opts, x, l),
{
    let xrefs = build_cross_refs(model);
    let links = SourceLinker::new(&opts.source_base, &model.m1prj_path);
    let ng = model.groups.len();
    let mut files: Vec<RenderedFile> = Vec::new();
    files.push(file(to_owned_string("index.md"), render_index(model, opts)));
    let mut i: usize = 0;
    while i < ng
        invariant
            i <= ng,
            ng == model.groups@.len(),
            files@.len() == 1 + i,
            file_is(files@[0], "index.md"@, index_text(*model, *opts)),
            forall|k: int| 0 <= k < i ==> #[trigger] group_file_ok(files@[1 + k], *model, k, *opts, xrefs, links),
        decreases ng - i,
    {
        let g = &model.groups[i];
        let body = render_group(g, &model.enums, &xrefs, &model.graph, opts, &links);
        let ghost d = choose|d: Diagram|
            is_diagram_around(d, model.graph.edges@, member_paths(*g), GROUP_GRAPH_DEPTH as nat)
                && body@ == group_page_text(*g, model.enums@, xrefs, d, *opts, links);
        let ghost before = files@;
        files.push(file(group_filename(g.path.as_str()), body));
        assert(group_file_ok(files@[1 + i as int], *model, i as int, *opts, xrefs, links));
        assert forall|k: int| 0 <= k < i implies #[trigger] group_file_ok(files@[1 + k], *model, k, *opts, xrefs, links) by {
            assert(files@[1 + k] == before[1 + k]);
        }
        i += 1;
    }
    let ghost after_groups = files@;
    match &opts.graph {
        Some(spec) => {
            files.push(file(graph_page_filename(spec.group.as_str()), render_graph_page(model, spec)));
            assert(files@[1 + ng as int].path@ == graph_page_file(spec.group@));
        },
        None => {},
    }
    let ghost snap = files@;
    let ghost base = files@.len();
    assert forall|k: int| 0 <= k < after_groups.len() implies #[trigger] snap[k] == after_groups[k] by {}
    let tags = model.tags();
    proof {
        crate::markdown::pages::lemma_tag_list(*model, views(tags@));
    }
    let mut j: usize = 0;
    while j < tags.len()
        invariant
            j <= tags.len(),
            views(tags@) == tag_list(*model),
            files@.len() == base + j,
            base == snap.len(),
            forall|k: int| 0 <= k < base ==> #[trigger] files@[k] == snap[k],
            forall|k: int|
                0 <= k < j ==> file_is(#[trigger] files@[base + k], tag_file(views(tags@)[k]), tag_page_text(*model, views(tags@)[k])),
        decreases tags.len() - j,
    {
        files.push(file(tag_filename(tags[j].as_str()), render_tag_index(model, tags[j].as_str())));
        j += 1;
    }
    let ghost before_enums = files@;
    if model.enums.len() > 0 {
        files.push(file(to_owned_string(ENUMS_FILE), render_enums(&model.enums)));
    }
    proof {
        assert forall|k: int| 0 <= k < before_enums.len() implies #[trigger] files@[k] == before_enums[k] by {}
        assert(files@[0] == after_groups[0]);
        assert forall|i: int| 0 <= i < ng implies #[trigger] group_file_ok(files@[1 + i], *model, i, *opts, xrefs, links) by {
            assert(files@[1 + i] == after_groups[1 + i]);
            assert(group_file_ok(after_groups[1 + i], *model, i, *opts, xrefs, links));
        }
        if opts.graph is Some {
            assert(files@[1 + ng as int] == snap[1 + ng as int]);
        }
        assert(rendered_as(files@, *model, *opts, xrefs, links));
    }
    files
}

/// The default options: no source links, no embedded source, no subsystem
/// page.
pub open spec fn default_options() -> RenderOptions {
    RenderOptions { source_base: None, include_source: false, graph: None }
}

/// Render the whole model with default options (no source links, no embedded
/// source, no subsystem page).
pub fn render(model: &DocModel) -> (files: Vec<RenderedFile>)
    requires
        summary_fits(*model),
        tree_fits(model.groups@),
    ensures
        exists|x: CrossRefs, l: SourceLinker|
            is_cross_refs_of(x, *model) && linker_for(l, default_options(), *model) && rendered_as(
                files@,
                *model,
                default_options(),
                x,
                l,
            ),
{
    let opts = RenderOptions { source_base: None, include_source: false, graph: None };
    render_with(model, &opts)
}

} // verus!
