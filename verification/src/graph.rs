//! The project relationship graph: call / read / write / reference edges.
//!
//! The project loader walks each script for every outermost dotted path and
//! resolves it against the project; each path that resolves to a symbol becomes
//! a [`ResolvedUse`]. A use of a function or method is a **call**; of a channel,
//! parameter or constant a **read** or **write** (by how it is accessed);
//! anything else is dropped, so the graph records only honest, resolvable
//! edges. Reference edges come from the model's resolved aliases.
use crate::diagram::{diagram_key, diagram_keys, graph_key, graph_keys, insert_edge, keys_sorted, EdgeKey, DiagramEdge};
use crate::loader::SymbolRecordKind;
use crate::model::{DocModel, EdgeKind, GraphEdge, GroupDoc, ProjectGraph, ReferenceDoc};
use crate::text::{str_eq, lemma_map_push};
use vstd::prelude::*;

verus! {

/// How a resolved path is accessed at a use site.
#[derive(Debug, Clone, Copy, PartialEq, Eq)]
pub enum Access {
    /// Read only: a value position, an assignment's right-hand side, a call
    /// argument.
    Read,
    /// Written only: the target of a plain `=` assignment, a `local` name.
    Write,
    /// Both read and written: the target of a compound assignment (`+=`, ...).
    ReadWrite,
}

/// The syntax node directly around a path, as far as its access depends on it.
#[derive(Debug, Clone, PartialEq)]
pub enum SiteParent {
    /// An assignment statement: whether the path is its target, and its
    /// operator's text when it has one.
    Assignment { is_target: bool, operator: Option<String> },
    /// A `local` declaration: whether the path is the declared name.
    LocalDeclaration { is_name: bool },
    /// Anything else, or no parent at all.
    Other,
}

/// How a path is accessed given the node around it.
pub open spec fn access_spec(parent: SiteParent) -> Access {
    match parent {
        SiteParent::Assignment { is_target, operator } => if !is_target {
            Access::Read
        } else if operator.is_some() && operator.unwrap()@ != "="@ {
            Access::ReadWrite
        } else {
            Access::Write
        },
        SiteParent::LocalDeclaration { is_name } => if is_name {
            Access::Write
        } else {
            Access::Read
        },
        SiteParent::Other => Access::Read,
    }
}

/// How a path is accessed given the node around it: the target of an
/// assignment is written (and also read under a compound operator), the name of
/// a `local` declaration is written, and everything else is read.
pub fn access_of(parent: &SiteParent) -> (r: Access)
    ensures
        r == access_spec(*parent),
{
    match parent {
        SiteParent::Assignment { is_target, operator } => {
            if !*is_target {
                return Access::Read;
            }
            let compound = match operator {
                Some(o) => !str_eq(o.as_str(), "="),
                None => false,
            };
            if compound {
                Access::ReadWrite
            } else {
                Access::Write
            }
        },
        SiteParent::LocalDeclaration { is_name } => {
            if *is_name {
                Access::Write
            } else {
                Access::Read
            }
        },
        SiteParent::Other => Access::Read,
    }
}

/// A path in the script of function `from` that resolved to the symbol `to` of
/// kind `target`, accessed as `access`.
#[derive(Debug, Clone, PartialEq)]
pub struct ResolvedUse {
    pub from: String,
    pub to: String,
    pub target: SymbolRecordKind,
    pub access: Access,
}

/// Whether a use contributes the edge `k`: never to itself; a call for a
/// function or method; a read and/or a write for a channel, parameter or
/// constant; nothing for anything else.
pub open spec fn use_gives(u: ResolvedUse, k: EdgeKey) -> bool {
    &&& u.from@ != u.to@
    &&& k.0 == u.from@
    &&& k.1 == u.to@
    &&& match u.target {
        SymbolRecordKind::Function | SymbolRecordKind::Method => k.2 == EdgeKind::Call,
        SymbolRecordKind::Channel | SymbolRecordKind::Parameter | SymbolRecordKind::Constant => match u.access {
            Access::Read => k.2 == EdgeKind::Read,
            Access::Write => k.2 == EdgeKind::Write,
            Access::ReadWrite => k.2 == EdgeKind::Read || k.2 == EdgeKind::Write,
        },
        _ => false,
    }
}

/// Whether a reference alias contributes the edge `k`: one from the alias to
/// its resolved target.
pub open spec fn reference_gives(r: ReferenceDoc, k: EdgeKey) -> bool {
    match r.target_resolved {
        Some(t) => k == (r.path@, t@, EdgeKind::Reference),
        None => false,
    }
}

/// Whether some reference alias of the model contributes the edge `k`.
pub open spec fn model_gives(model: DocModel, k: EdgeKey) -> bool {
    exists|g: int, j: int|
        0 <= g < model.groups@.len() && 0 <= j < model.groups@[g].references@.len() && reference_gives(
            #[trigger] model.groups@[g].references@[j],
            k,
        )
}

/// Whether the graph of these uses and this model holds the edge `k`.
pub open spec fn graph_has(uses: Seq<ResolvedUse>, model: DocModel, k: EdgeKey) -> bool {
    (exists|i: int| 0 <= i < uses.len() && use_gives(#[trigger] uses[i], k)) || model_gives(model, k)
}

fn add_use(edges: &mut Vec<DiagramEdge>, u: &ResolvedUse)
    requires
        keys_sorted(diagram_keys(old(edges)@)),
    ensures
        keys_sorted(diagram_keys(final(edges)@)),
        forall|k: EdgeKey| #[trigger] diagram_keys(final(edges)@).contains(k)
            <==> (diagram_keys(old(edges)@).contains(k) || use_gives(*u, k)),
{
    if str_eq(u.from.as_str(), u.to.as_str()) {
        return;
    }
    let from = u.from.as_str();
    let to = u.to.as_str();
    match u.target {
        SymbolRecordKind::Function | SymbolRecordKind::Method => insert_edge(edges, from, to, EdgeKind::Call),
        SymbolRecordKind::Channel | SymbolRecordKind::Parameter | SymbolRecordKind::Constant => match u.access {
            Access::Read => insert_edge(edges, from, to, EdgeKind::Read),
            Access::Write => insert_edge(edges, from, to, EdgeKind::Write),
            Access::ReadWrite => {
                insert_edge(edges, from, to, EdgeKind::Read);
                insert_edge(edges, from, to, EdgeKind::Write);
            },
        },
        _ => {},
    }
}

fn add_references(edges: &mut Vec<DiagramEdge>, g: &GroupDoc)
    requires
        keys_sorted(diagram_keys(old(edges)@)),
    ensures
        keys_sorted(diagram_keys(final(edges)@)),
        forall|k: EdgeKey| #[trigger] diagram_keys(final(edges)@).contains(k)
            <==> (diagram_keys(old(edges)@).contains(k) || exists|j: int|
                0 <= j < g.references@.len() && reference_gives(#[trigger] g.references@[j], k)),
{
    let mut j: usize = 0;
    while j < g.references.len()
        invariant
            j <= g.references@.len(),
            keys_sorted(diagram_keys(edges@)),
            forall|k: EdgeKey| #[trigger] diagram_keys(edges@).contains(k)
                <==> (diagram_keys(old(edges)@).contains(k) || exists|m: int|
                    0 <= m < j && reference_gives(#[trigger] g.references@[m], k)),
        decreases g.references@.len() - j,
    {
        let r = &g.references[j];
        match &r.target_resolved {
            Some(t) => insert_edge(edges, r.path.as_str(), t.as_str(), EdgeKind::Reference),
            None => {},
        }
        proof {
            assert forall|k: EdgeKey| #[trigger] diagram_keys(edges@).contains(k)
                <==> (diagram_keys(old(edges)@).contains(k) || exists|m: int|
                    0 <= m < j + 1 && reference_gives(#[trigger] g.references@[m], k)) by {
                if reference_gives(g.references@[j as int], k) {
                    assert(diagram_keys(edges@).contains(k));
                }
            }
        }
        j += 1;
    }
}

/// Build the relationship graph from the resolved uses of every script and the
/// model's resolved reference aliases. Edges are sorted by `(from, to, kind)`
/// and deduped, for deterministic output.
pub fn build_graph(uses: &Vec<ResolvedUse>, model: &DocModel) -> (r: ProjectGraph)
    ensures
        keys_sorted(graph_keys(r.edges@)),
        forall|k: EdgeKey| #[trigger] graph_keys(r.edges@).contains(k) <==> graph_has(uses@, *model, k),
{
    let mut edges: Vec<DiagramEdge> = Vec::new();
    let mut i: usize = 0;
    while i < uses.len()
        invariant
            i <= uses@.len(),
            keys_sorted(diagram_keys(edges@)),
            forall|k: EdgeKey| #[trigger] diagram_keys(edges@).contains(k) <==> exists|m: int|
                0 <= m < i && use_gives(#[trigger] uses@[m], k),
        decreases uses@.len() - i,
    {
        add_use(&mut edges, &uses[i]);
        proof {
            assert forall|k: EdgeKey| #[trigger] diagram_keys(edges@).contains(k) <==> exists|m: int|
                0 <= m < i + 1 && use_gives(#[trigger] uses@[m], k) by {
                if use_gives(uses@[i as int], k) {
                    assert(diagram_keys(edges@).contains(k));
                }
            }
        }
        i += 1;
    }
    let mut g: usize = 0;
    while g < model.groups.len()
        invariant
            g <= model.groups@.len(),
            keys_sorted(diagram_keys(edges@)),
            forall|k: EdgeKey| #[trigger] diagram_keys(edges@).contains(k) <==> ((exists|m: int|
                0 <= m < uses@.len() && use_gives(#[trigger] uses@[m], k)) || exists|a: int, j: int|
                0 <= a < g && 0 <= j < model.groups@[a].references@.len() && reference_gives(
                    #[trigger] model.groups@[a].references@[j],
                    k,
                )),
        decreases model.groups@.len() - g,
    {
        add_references(&mut edges, &model.groups[g]);
        proof {
            assert forall|k: EdgeKey| #[trigger] diagram_keys(edges@).contains(k) <==> ((exists|m: int|
                0 <= m < uses@.len() && use_gives(#[trigger] uses@[m], k)) || exists|a: int, j: int|
                0 <= a < g + 1 && 0 <= j < model.groups@[a].references@.len() && reference_gives(
                    #[trigger] model.groups@[a].references@[j],
                    k,
                )) by {
                if exists|a: int, j: int|
                    0 <= a < g + 1 && 0 <= j < model.groups@[a].references@.len() && reference_gives(
                        #[trigger] model.groups@[a].references@[j],
                        k,
                    ) {
                    let (a, j) = choose|a: int, j: int|
                        0 <= a < g + 1 && 0 <= j < model.groups@[a].references@.len() && reference_gives(
                            #[trigger] model.groups@[a].references@[j],
                            k,
                        );
                    if a == g {
                        assert(exists|j: int|
                            0 <= j < model.groups@[g as int].references@.len() && reference_gives(
                                #[trigger] model.groups@[g as int].references@[j],
                                k,
                            ));
                    }
                }
                if exists|j: int|
                    0 <= j < model.groups@[g as int].references@.len() && reference_gives(
                        #[trigger] model.groups@[g as int].references@[j],
                        k,
                    ) {
                    let j = choose|j: int|
                        0 <= j < model.groups@[g as int].references@.len() && reference_gives(
                            #[trigger] model.groups@[g as int].references@[j],
                            k,
                        );
                    assert(0 <= g < g + 1);
                }
            }
        }
        g += 1;
    }
    let mut out: Vec<GraphEdge> = Vec::new();
    let mut k: usize = 0;
    while k < edges.len()
        invariant
            k <= edges@.len(),
            graph_keys(out@) == diagram_keys(edges@).take(k as int),
        decreases edges@.len() - k,
    {
        let e = &edges[k];
        let ge = GraphEdge { from: e.from.clone(), to: e.to.clone(), kind: e.kind };
        let ghost before = out@;
        out.push(ge);
        proof {
            lemma_map_push(before, ge, |x: GraphEdge| graph_key(x));
            assert(diagram_keys(edges@).take(k + 1) =~= diagram_keys(edges@).take(k as int).push(diagram_key(*e)));
        }
        k += 1;
    }
    proof {
        assert(diagram_keys(edges@).take(edges@.len() as int) =~= diagram_keys(edges@));
    }
    ProjectGraph { edges: out }
}

} // verus!
