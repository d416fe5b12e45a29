//! The uses of paths in a script: which dotted paths are outermost, how each is
//! accessed, and which names are `local` declarations.
//!
//! A script's syntax tree arrives flattened in pre-order ([`SyntaxEntry`]):
//! each node with its kind, text, and the index of its parent, which always
//! comes before it.
use crate::graph::{access_of, access_spec, Access, SiteParent};
use crate::loader::docs::copy_opt;
use crate::text::lemma_map_push;
use vstd::prelude::*;

verus! {

/// The kinds of syntax node the path walk tells apart.
#[derive(Debug, Clone, Copy, PartialEq, Eq)]
pub enum SyntaxKind {
    Identifier,
    MemberExpression,
    TypeAnnotation,
    AssignmentStatement,
    LocalDeclaration,
    Other,
}

/// One node of a script's syntax tree, in pre-order.
#[derive(Debug, Clone, PartialEq)]
pub struct SyntaxEntry {
    pub kind: SyntaxKind,
    /// The source text the node spans.
    pub text: String,
    /// Whether the node is a named node rather than an anonymous token.
    pub named: bool,
    /// The index of the parent node; `None` for the root.
    pub parent: Option<usize>,
    /// Whether the node spans exactly its parent's `target` field.
    pub is_target: bool,
    /// Whether the node spans exactly its parent's `name` field.
    pub is_name: bool,
    /// The text of the node's own `operator` field, when it has one.
    pub operator: Option<String>,
}

/// Every parent comes before its children.
pub open spec fn tree_wf(t: Seq<SyntaxEntry>) -> bool {
    forall|i: int| 0 <= i < t.len() ==> match #[trigger] t[i].parent {
        Some(p) => p < i,
        None => true,
    }
}

/// Whether some proper ancestor of node `i` is a type annotation.
pub open spec fn in_type_annotation(t: Seq<SyntaxEntry>, i: int) -> bool
    decreases i,
{
    if 0 <= i < t.len() {
        match t[i].parent {
            Some(p) => if p < i {
                t[p as int].kind == SyntaxKind::TypeAnnotation || in_type_annotation(t, p as int)
            } else {
                false
            },
            None => false,
        }
    } else {
        false
    }
}

/// The node around node `i`, as far as the access of `i` depends on it.
pub open spec fn site_of(t: Seq<SyntaxEntry>, i: int) -> SiteParent {
    match t[i].parent {
        Some(p) => if t[p as int].kind == SyntaxKind::AssignmentStatement {
            SiteParent::Assignment { is_target: t[i].is_target, operator: t[p as int].operator }
        } else if t[p as int].kind == SyntaxKind::LocalDeclaration {
            SiteParent::LocalDeclaration { is_name: t[i].is_name }
        } else {
            SiteParent::Other
        },
        None => SiteParent::Other,
    }
}

/// Whether node `i` is an outermost dotted path: an identifier or member
/// expression that is not the property half of a member expression and not
/// inside a type annotation.
pub open spec fn is_top_path(t: Seq<SyntaxEntry>, i: int) -> bool {
    &&& (t[i].kind == SyntaxKind::Identifier || t[i].kind == SyntaxKind::MemberExpression)
    &&& match t[i].parent {
        Some(p) => t[p as int].kind != SyntaxKind::MemberExpression,
        None => true,
    }
    &&& !in_type_annotation(t, i)
}

/// The outermost paths among the first `n` nodes, in order, with their access.
pub open spec fn top_paths_upto(t: Seq<SyntaxEntry>, n: int) -> Seq<(Seq<char>, Access)>
    decreases n,
{
    if n <= 0 {
        Seq::empty()
    } else if is_top_path(t, n - 1) {
        top_paths_upto(t, n - 1).push((t[n - 1].text@, access_spec(site_of(t, n - 1))))
    } else {
        top_paths_upto(t, n - 1)
    }
}

/// The outermost paths of the tree in pre-order, with how each is accessed.
pub open spec fn top_paths_spec(t: Seq<SyntaxEntry>) -> Seq<(Seq<char>, Access)> {
    top_paths_upto(t, t.len() as int)
}

/// The plain values of a list of found paths.
pub open spec fn path_views(r: Seq<(String, Access)>) -> Seq<(Seq<char>, Access)> {
    r.map_values(|x: (String, Access)| (x.0@, x.1))
}

fn site_at(t: &Vec<SyntaxEntry>, i: usize) -> (r: SiteParent)
    requires
        i < t@.len(),
        tree_wf(t@),
    ensures
        r == site_of(t@, i as int),
{
    match t[i].parent {
        Some(p) => {
            assert(p < i);
            match t[p].kind {
                SyntaxKind::AssignmentStatement => SiteParent::Assignment {
                    is_target: t[i].is_target,
                    operator: copy_opt(&t[p].operator),
                },
                SyntaxKind::LocalDeclaration => SiteParent::LocalDeclaration { is_name: t[i].is_name },
                _ => SiteParent::Other,
            }
        },
        None => SiteParent::Other,
    }
}

/// Every outermost dotted path of the tree, in pre-order, with how it is
/// accessed.
pub fn top_paths(t: &Vec<SyntaxEntry>) -> (r: Vec<(String, Access)>)
    requires
        tree_wf(t@),
    ensures
        path_views(r@) == top_paths_spec(t@),
{
    let mut in_ta: Vec<bool> = Vec::new();
    let mut out: Vec<(String, Access)> = Vec::new();
    let mut i: usize = 0;
    while i < t.len()
        invariant
            tree_wf(t@),
            i <= t@.len(),
            in_ta@.len() == i,
            forall|k: int| 0 <= k < i ==> #[trigger] in_ta@[k] == in_type_annotation(t@, k),
            path_views(out@) == top_paths_upto(t@, i as int),
        decreases t@.len() - i,
    {
        let (here_ta, parent_member) = match t[i].parent {
            Some(p) => {
                assert(p < i);
                let k = t[p].kind;
                (
                    match k {
                        SyntaxKind::TypeAnnotation => true,
                        _ => in_ta[p],
                    },
                    match k {
                        SyntaxKind::MemberExpression => true,
                        _ => false,
                    },
                )
            },
            None => (false, false),
        };
        assert(here_ta == in_type_annotation(t@, i as int));
        let is_path = match t[i].kind {
            SyntaxKind::Identifier | SyntaxKind::MemberExpression => true,
            _ => false,
        };
        if is_path && !parent_member && !here_ta {
            let access = access_of(&site_at(t, i));
            let item = (t[i].text.clone(), access);
            let ghost before = out@;
            out.push(item);
            proof {
                lemma_map_push(before, item, |x: (String, Access)| (x.0@, x.1));
            }
        }
        in_ta.push(here_ta);
        i += 1;
    }
    out
}

/// The first named identifier child of node `i`, when it has one.
pub open spec fn first_name_child(t: Seq<SyntaxEntry>, i: int, from: int) -> Option<int>
    decreases t.len() - from,
{
    if from < 0 || from >= t.len() {
        None
    } else if t[from].parent == Some(i as usize) && t[from].named && t[from].kind == SyntaxKind::Identifier {
        Some(from)
    } else {
        first_name_child(t, i, from + 1)
    }
}

/// The names declared by the `local` declarations among the first `n` nodes,
/// in order.
pub open spec fn local_names_upto(t: Seq<SyntaxEntry>, n: int) -> Seq<Seq<char>>
    decreases n,
{
    if n <= 0 {
        Seq::empty()
    } else {
        let prev = local_names_upto(t, n - 1);
        if t[n - 1].kind == SyntaxKind::LocalDeclaration {
            match first_name_child(t, n - 1, n) {
                Some(j) => prev.push(t[j].text@),
                None => prev,
            }
        } else {
            prev
        }
    }
}

fn first_name_at(t: &Vec<SyntaxEntry>, i: usize) -> (r: Option<usize>)
    requires
        i < t@.len(),
    ensures
        match r {
            Some(j) => first_name_child(t@, i as int, i + 1) == Some(j as int) && j < t@.len(),
            None => first_name_child(t@, i as int, i + 1).is_none(),
        },
{
    let n = t.len();
    assert(i < n);
    let mut j: usize = i + 1;
    while j < t.len()
        invariant
            i < j <= t@.len(),
            first_name_child(t@, i as int, i + 1) == first_name_child(t@, i as int, j as int),
        decreases t@.len() - j,
    {
        let is_name = match (t[j].parent, t[j].kind) {
            (Some(p), SyntaxKind::Identifier) => p == i && t[j].named,
            _ => false,
        };
        if is_name {
            return Some(j);
        }
        j += 1;
    }
    None
}

/// Every name a `local` declaration introduces (its first named identifier
/// child), in tree order, so the resolver treats those names as locals.
pub fn local_names(t: &Vec<SyntaxEntry>) -> (r: Vec<String>)
    ensures
        r@.map_values(|s: String| s@) == local_names_upto(t@, t@.len() as int),
{
    let mut out: Vec<String> = Vec::new();
    let mut i: usize = 0;
    while i < t.len()
        invariant
            i <= t@.len(),
            out@.map_values(|s: String| s@) == local_names_upto(t@, i as int),
        decreases t@.len() - i,
    {
        match t[i].kind {
            SyntaxKind::LocalDeclaration => match first_name_at(t, i) {
                Some(j) => {
                    let name = t[j].text.clone();
                    let ghost before = out@;
                    out.push(name);
                    proof {
                        lemma_map_push(before, name, |s: String| s@);
                    }
                },
                None => {},
            },
            _ => {},
        }
        i += 1;
    }
    out
}

} // verus!
