//! Builds a [`DocModel`] from a project's symbol table. Channels, parameters,
//! constants, functions, tables, objects, CAN messages and references are placed
//! on their *immediate* parent group at whatever depth (`Root.Engine.Fuel.Pump`
//! for `Root.Engine.Fuel.Pump.Demand`), and every ancestor group becomes its own
//! node so the full tree is navigable.
//!
//! The symbol table arrives as plain records ([`ProjectSymbols`]): what the
//! project loader read off disk, one [`SymbolRecord`] per symbol in table order.
pub mod anchors;
pub mod docs;
pub mod enums;
pub mod order;
pub mod page;
pub mod sections;

use anchors::{
    entry_anchors_of, entry_paths_of, lemma_anchored_append, lemma_anchored_from_start,
    lemma_unique_anchors_distinct, message_anchors, slug_or_counter, message_paths, reanchor, reanchor_messages,
    same_list_but_anchors, same_message_but_anchors, same_messages_but_anchors, unique_anchors,
};
use page::{
    build_functions, build_messages, build_objects, build_references, build_symbols, build_tables, functions_ok,
    is_doc_symbol, is_doc_symbol_path, messages_ok, objects_ok, references_ok, symbols_ok, tables_ok,
};
use order::lemma_sort_contains;
use sections::{in_section, lemma_placed_contains, lemma_section_member, placed, section_of, section_order, Section};

use crate::html::chrome::{lemma_nav_fits_when_children_deeper, nav_fits};
use crate::model::{AnnotationDoc, DocModel, FunctionDoc, GroupDoc, ProjectGraph, Real, SymbolDocKind, TableAxisDoc};
use docs::copy_string_list;
use enums::{collect_enums, enums_ok};
use crate::path::{lemma_last_dot_bounds, parent_group, parent_of};
use crate::strset::{insert_sorted, strictly_sorted, views};
use crate::text::{join, push_join, lemma_map_push, lemma_seq_lt_transitive, seq_lt, chars_of, has_prefix, is_empty_str, starts_with, str_eq, string_from_chars, to_owned_string};
use vstd::prelude::*;

verus! {

/// The kind of a project symbol, as the project's type checker classifies it.
#[derive(Debug, Clone, Copy, PartialEq, Eq)]
pub enum SymbolRecordKind {
    Channel,
    Parameter,
    Constant,
    Function,
    Method,
    Table,
    Object,
    Reference,
    Group,
    Other,
}

/// The resolved value type of a symbol or a function parameter.
#[derive(Debug, Clone, Copy, PartialEq, Eq)]
pub enum ValueKind {
    Boolean,
    Integer,
    Unsigned,
    Float,
    Enum,
    Text,
    Unknown,
}

/// The CAN frame and bit layout of a symbol sourced from a `.m1dbc`.
#[derive(Debug, Clone, PartialEq, Default)]
pub struct CanRecord {
    pub can_id: Option<u32>,
    pub dlc: Option<u32>,
    pub start_bit: Option<u32>,
    pub length: Option<u32>,
    pub multiplier: Option<Real>,
    pub offset: Option<Real>,
}

/// A table's axes and output unit, from the project's `.m1cfg`.
#[derive(Debug, Clone, PartialEq, Default)]
pub struct TableMetaRecord {
    pub axes: Vec<TableAxisDoc>,
    pub output_unit: Option<String>,
}

/// An enum type of the project: its name, members `(name, value)` in
/// declaration order, default member and whether it is open.
#[derive(Debug, Clone, PartialEq, Default)]
pub struct EnumTypeRecord {
    pub name: String,
    pub members: Vec<(String, i64)>,
    pub default: Option<String>,
    pub open: bool,
}

/// One symbol of the project's symbol table.
#[derive(Debug, Clone, PartialEq)]
pub struct SymbolRecord {
    /// Canonical dotted path (`Root.Engine.Speed`).
    pub path: String,
    pub kind: SymbolRecordKind,
    /// The component's class name (`BuiltIn.CAN.Signal`, ...).
    pub classname: Option<String>,
    /// A package object's class (`MoTeC Input.Sensor`).
    pub class: Option<String>,
    /// Own and inherited tags.
    pub tags: Vec<String>,
    /// The type as the user declared it, when given.
    pub declared_type: Option<String>,
    pub value_type: ValueKind,
    /// Index into [`ProjectSymbols::enum_types`] of the symbol's enum type.
    pub enum_assoc: Option<usize>,
    pub qty: Option<String>,
    /// The unit shown to the user (`rpm`).
    pub display_unit: Option<String>,
    /// The stored base unit (`rad/s`).
    pub unit: Option<String>,
    pub log_rate_hz: Option<Real>,
    pub call_rate_hz: Option<Real>,
    pub security: Option<String>,
    /// 0-based line of the declaration in its source file.
    pub def_line: Option<u32>,
    /// A function's declared parameters, when it has a signature.
    pub in_params: Option<Vec<(String, ValueKind)>>,
    pub return_type: Option<ValueKind>,
    pub table_meta: Option<TableMetaRecord>,
    pub can: Option<CanRecord>,
    /// A CAN signal's representable range.
    pub dbc_range: Option<(Real, Real)>,
    /// A reference's `<Props Target>` verbatim.
    pub reference_target: Option<String>,
    /// Indices into [`ProjectSymbols::symbols`] of the immediate members, in
    /// table order.
    pub children: Vec<usize>,
    /// The base name of a function's script file (`Engine.Update.m1scr`).
    pub filename: Option<String>,
}

/// The project's symbol table: every symbol in table order and the enum types
/// the symbols refer to.
#[derive(Debug, Clone, PartialEq, Default)]
pub struct ProjectSymbols {
    pub symbols: Vec<SymbolRecord>,
    pub enum_types: Vec<EnumTypeRecord>,
}

/// Every index the table holds points inside it.
pub open spec fn symbols_wf(t: ProjectSymbols) -> bool {
    &&& forall|i: int| 0 <= i < t.symbols@.len() ==> match #[trigger] t.symbols@[i].enum_assoc {
        Some(id) => id < t.enum_types@.len(),
        None => true,
    }
    &&& forall|i: int, k: int|
        0 <= i < t.symbols@.len() && 0 <= k < t.symbols@[i].children@.len() ==> #[trigger] t.symbols@[i].children@[k]
            < t.symbols@.len()
}

/// The documented kind of a symbol kind: channels, parameters and constants.
pub open spec fn doc_kind_of(kind: SymbolRecordKind) -> Option<SymbolDocKind> {
    match kind {
        SymbolRecordKind::Channel => Some(SymbolDocKind::Channel),
        SymbolRecordKind::Parameter => Some(SymbolDocKind::Parameter),
        SymbolRecordKind::Constant => Some(SymbolDocKind::Constant),
        _ => None,
    }
}

/// Map a symbol kind to the documented kinds; `None` for the kinds that are not
/// documented as plain symbols.
pub fn doc_kind(kind: SymbolRecordKind) -> (r: Option<SymbolDocKind>)
    ensures
        r == doc_kind_of(kind),
{
    match kind {
        SymbolRecordKind::Channel => Some(SymbolDocKind::Channel),
        SymbolRecordKind::Parameter => Some(SymbolDocKind::Parameter),
        SymbolRecordKind::Constant => Some(SymbolDocKind::Constant),
        _ => None,
    }
}

/// Whether a symbol kind is collected as a function.
pub open spec fn is_function_kind(kind: SymbolRecordKind) -> bool {
    kind == SymbolRecordKind::Function || kind == SymbolRecordKind::Method
}

/// `true` for functions and methods.
pub fn is_function(kind: SymbolRecordKind) -> (r: bool)
    ensures
        r == is_function_kind(kind),
{
    match kind {
        SymbolRecordKind::Function | SymbolRecordKind::Method => true,
        _ => false,
    }
}

/// Whether an optional class name is exactly `name`.
pub open spec fn class_is(classname: Option<String>, name: Seq<char>) -> bool {
    match classname {
        Some(c) => c@ == name,
        None => false,
    }
}

/// A CAN signal: a channel sourced from a `.m1dbc`, documented inside its
/// message rather than as a plain channel.
pub open spec fn is_can_signal_spec(sym: SymbolRecord) -> bool {
    class_is(sym.classname, "BuiltIn.CAN.Signal"@)
}

/// A CAN message: an object whose signals are grouped beneath it.
pub open spec fn is_can_message_spec(sym: SymbolRecord) -> bool {
    class_is(sym.classname, "BuiltIn.CAN.Message"@)
}

fn class_matches(classname: &Option<String>, name: &str) -> (r: bool)
    ensures
        r == class_is(*classname, name@),
{
    match classname {
        Some(c) => str_eq(c.as_str(), name),
        None => false,
    }
}

/// `true` for a `BuiltIn.CAN.Signal` symbol.
pub fn is_can_signal(sym: &SymbolRecord) -> (r: bool)
    ensures
        r == is_can_signal_spec(*sym),
{
    class_matches(&sym.classname, "BuiltIn.CAN.Signal")
}

/// `true` for a `BuiltIn.CAN.Message` object.
pub fn is_can_message(sym: &SymbolRecord) -> (r: bool)
    ensures
        r == is_can_message_spec(*sym),
{
    class_matches(&sym.classname, "BuiltIn.CAN.Message")
}

/// The label of a value type.
pub open spec fn value_label(vt: ValueKind) -> Seq<char> {
    match vt {
        ValueKind::Boolean => "bool"@,
        ValueKind::Integer => "integer"@,
        ValueKind::Unsigned => "unsigned"@,
        ValueKind::Float => "float"@,
        ValueKind::Enum => "enum"@,
        ValueKind::Text => "string"@,
        ValueKind::Unknown => "unknown"@,
    }
}

/// Render a value type as a human-readable label. An enum collapses to `enum`:
/// the specific enum name comes from the declared type where there is one.
pub fn value_type_label(vt: ValueKind) -> (r: &'static str)
    ensures
        r@ == value_label(vt),
{
    match vt {
        ValueKind::Boolean => "bool",
        ValueKind::Integer => "integer",
        ValueKind::Unsigned => "unsigned",
        ValueKind::Float => "float",
        ValueKind::Enum => "enum",
        ValueKind::Text => "string",
        ValueKind::Unknown => "unknown",
    }
}

/// A reference's target resolved to a canonical path, when it uses a path
/// keyword: `Root` is absolute, `This` is the reference's enclosing group and
/// `Parent` that group's parent. Anything else is left unresolved.
pub open spec fn resolved_target(reference: Seq<char>, target: Seq<char>) -> Option<Seq<char>> {
    let this = parent_of(reference);
    let parent = parent_of(this);
    if target == "Root"@ || has_prefix(target, "Root."@) {
        Some(target)
    } else if has_prefix(target, "This."@) {
        if this.len() > 0 {
            Some(this + "."@ + target.skip(5))
        } else {
            None
        }
    } else if target == "This"@ {
        if this.len() > 0 {
            Some(this)
        } else {
            None
        }
    } else if has_prefix(target, "Parent."@) {
        if parent.len() > 0 {
            Some(parent + "."@ + target.skip(7))
        } else {
            None
        }
    } else if target == "Parent"@ {
        if parent.len() > 0 {
            Some(parent)
        } else {
            None
        }
    } else {
        None
    }
}

/// `base` + `.` + `target[from..]`.
fn join_rest(base: &str, target: &str, from: usize) -> (r: String)
    requires
        from <= target@.len(),
    ensures
        r@ == base@ + "."@ + target@.skip(from as int),
{
    let v = chars_of(target);
    let rest = string_from_chars(&v, from, v.len());
    let mut r = to_owned_string(base);
    r.append(".");
    r.append(rest.as_str());
    proof {
        assert(v@.subrange(from as int, v@.len() as int) =~= target@.skip(from as int));
    }
    r
}

/// Resolve a reference's verbatim target to a canonical symbol path when it uses
/// an M1 path keyword. A bare or unrecognised target gives `None`.
pub fn resolve_reference_target(reference_path: &str, target: &str) -> (r: Option<String>)
    ensures
        match r {
            Some(s) => resolved_target(reference_path@, target@) == Some(s@),
            None => resolved_target(reference_path@, target@).is_none(),
        },
{
    proof {
        reveal_strlit("Root");
        reveal_strlit("Root.");
        reveal_strlit("This.");
        reveal_strlit("This");
        reveal_strlit("Parent.");
        reveal_strlit("Parent");
    }
    let this = parent_group(reference_path);
    if str_eq(target, "Root") || starts_with(target, "Root.") {
        Some(to_owned_string(target))
    } else if starts_with(target, "This.") {
        if !is_empty_str(this.as_str()) {
            Some(join_rest(this.as_str(), target, 5))
        } else {
            None
        }
    } else if str_eq(target, "This") {
        if !is_empty_str(this.as_str()) {
            Some(this)
        } else {
            None
        }
    } else if starts_with(target, "Parent.") {
        let parent = parent_group(this.as_str());
        if !is_empty_str(parent.as_str()) {
            Some(join_rest(parent.as_str(), target, 7))
        } else {
            None
        }
    } else if str_eq(target, "Parent") {
        let parent = parent_group(this.as_str());
        if !is_empty_str(parent.as_str()) {
            Some(parent)
        } else {
            None
        }
    } else {
        None
    }
}

/// Whether `x` is `p` or one of its ancestor groups (`Root.Engine` and `Root`
/// for `Root.Engine.Fuel`); never the empty path.
pub open spec fn in_chain(x: Seq<char>, p: Seq<char>) -> bool
    decreases p.len(),
    via in_chain_decreases
{
    if p.len() == 0 {
        false
    } else {
        x == p || in_chain(x, parent_of(p))
    }
}

#[via_fn]
proof fn in_chain_decreases(x: Seq<char>, p: Seq<char>) {
    lemma_last_dot_bounds(p);
}

/// Every path on the chain of `p` is at most as long as `p`.
pub proof fn lemma_chain_len(x: Seq<char>, p: Seq<char>)
    requires
        in_chain(x, p),
    ensures
        0 < x.len() <= p.len(),
    decreases p.len(),
{
    lemma_last_dot_bounds(p);
    if x != p {
        lemma_chain_len(x, parent_of(p));
    }
}

/// Whether `x` is a group of the project: the parent group of a documented
/// record (any but a CAN signal), or an ancestor of one.
pub open spec fn is_group_path(t: ProjectSymbols, x: Seq<char>) -> bool {
    exists|i: int|
        0 <= i < t.symbols@.len() && !is_can_signal_spec(t.symbols@[i]) && in_chain(x, parent_of(#[trigger] t.symbols@[i].path@))
}

/// Ensure the group `path` and every ancestor of it are in the sorted list
/// `groups`, so the tree is connected even through groups with no members.
pub fn ensure_group(groups: &mut Vec<String>, path: &str)
    requires
        strictly_sorted(views(old(groups)@)),
    ensures
        strictly_sorted(views(final(groups)@)),
        forall|x: Seq<char>| #[trigger] views(final(groups)@).contains(x)
            <==> (views(old(groups)@).contains(x) || in_chain(x, path@)),
{
    let mut q = to_owned_string(path);
    while !is_empty_str(q.as_str())
        invariant
            strictly_sorted(views(groups@)),
            forall|x: Seq<char>| #[trigger] views(groups@).contains(x)
                <==> (views(old(groups)@).contains(x) || (in_chain(x, path@) && !in_chain(x, q@))),
            forall|x: Seq<char>| in_chain(x, q@) ==> in_chain(x, path@),
        decreases q@.len(),
    {
        let ghost before = views(groups@);
        insert_sorted(groups, q.as_str());
        let next = parent_group(q.as_str());
        proof {
            lemma_last_dot_bounds(q@);
            assert forall|x: Seq<char>| #[trigger] views(groups@).contains(x)
                <==> (views(old(groups)@).contains(x) || (in_chain(x, path@) && !in_chain(x, next@))) by {
                if in_chain(x, next@) {
                    lemma_chain_len(x, next@);
                }
                assert(in_chain(x, q@) == (x == q@ || in_chain(x, next@)));
            }
        }
        q = next;
    }
}

/// The paths of every group of the project, sorted.
pub fn group_paths(t: &ProjectSymbols) -> (r: Vec<String>)
    ensures
        strictly_sorted(views(r@)),
        forall|x: Seq<char>| #[trigger] views(r@).contains(x) <==> is_group_path(*t, x),
{
    let mut groups: Vec<String> = Vec::new();
    let mut i: usize = 0;
    while i < t.symbols.len()
        invariant
            i <= t.symbols@.len(),
            strictly_sorted(views(groups@)),
            forall|x: Seq<char>| #[trigger] views(groups@).contains(x) <==> exists|j: int|
                0 <= j < i && !is_can_signal_spec(t.symbols@[j]) && in_chain(x, parent_of(#[trigger] t.symbols@[j].path@)),
        decreases t.symbols@.len() - i,
    {
        if !is_can_signal(&t.symbols[i]) {
            let parent = parent_group(t.symbols[i].path.as_str());
            ensure_group(&mut groups, parent.as_str());
        }
        proof {
            assert forall|x: Seq<char>| #[trigger] views(groups@).contains(x) <==> exists|j: int|
                0 <= j < i + 1 && !is_can_signal_spec(t.symbols@[j]) && in_chain(x, parent_of(#[trigger] t.symbols@[j].path@)) by {
                if !is_can_signal_spec(t.symbols@[i as int]) && in_chain(x, parent_of(t.symbols@[i as int].path@)) {
                    assert(views(groups@).contains(x));
                }
            }
        }
        i += 1;
    }
    groups
}

/// The paths of every documented channel, parameter and constant.
fn doc_symbol_paths(t: &ProjectSymbols) -> (r: Vec<String>)
    ensures
        forall|x: Seq<char>| #[trigger] views(r@).contains(x) <==> is_doc_symbol_path(*t, x),
{
    let mut out: Vec<String> = Vec::new();
    let mut i: usize = 0;
    while i < t.symbols.len()
        invariant
            i <= t.symbols@.len(),
            forall|x: Seq<char>| #[trigger] views(out@).contains(x) <==> exists|j: int|
                0 <= j < i && is_doc_symbol(#[trigger] t.symbols@[j]) && t.symbols@[j].path@ == x,
        decreases t.symbols@.len() - i,
    {
        let sym = &t.symbols[i];
        let ghost before = out@;
        if !is_can_signal(sym) && section_of(sym, Section::Symbols) {
            let parent = parent_group(sym.path.as_str());
            if !is_empty_str(parent.as_str()) {
                out.push(sym.path.clone());
                proof {
                    lemma_map_push(before, sym.path, |s: String| s@);
                }
            }
        }
        proof {
            assert forall|x: Seq<char>| #[trigger] views(out@).contains(x) <==> exists|j: int|
                0 <= j < i + 1 && is_doc_symbol(#[trigger] t.symbols@[j]) && t.symbols@[j].path@ == x by {
                if views(out@).contains(x) && !views(before).contains(x) {
                    assert(views(out@).last() == x);
                }
                if is_doc_symbol(t.symbols@[i as int]) && t.symbols@[i as int].path@ == x {
                    assert(views(out@).last() == x);
                }
                if views(before).contains(x) {
                    let k = choose|k: int| 0 <= k < views(before).len() && views(before)[k] == x;
                    assert(views(out@)[k] == x);
                }
            }
        }
        i += 1;
    }
    proof {
        assert forall|x: Seq<char>| #[trigger] views(out@).contains(x) <==> is_doc_symbol_path(*t, x) by {
            if is_doc_symbol_path(*t, x) {
                let j = choose|j: int| 0 <= j < t.symbols@.len() && is_doc_symbol(#[trigger] t.symbols@[j]) && t.symbols@[j].path@ == x;
                assert(exists|j: int| 0 <= j < t.symbols@.len() && is_doc_symbol(#[trigger] t.symbols@[j]) && t.symbols@[j].path@ == x);
            }
        }
    }
    out
}

/// The groups among `groups` whose parent is `p`, in the same order.
fn children_of(groups: &Vec<String>, p: &str) -> (r: Vec<String>)
    requires
        strictly_sorted(views(groups@)),
    ensures
        strictly_sorted(views(r@)),
        forall|x: Seq<char>| #[trigger] views(r@).contains(x) <==> (views(groups@).contains(x) && parent_of(x) == p@),
{
    let mut out: Vec<String> = Vec::new();
    let mut i: usize = 0;
    while i < groups.len()
        invariant
            i <= groups@.len(),
            strictly_sorted(views(groups@)),
            strictly_sorted(views(out@)),
            out@.len() > 0 ==> exists|m: int| 0 <= m < i && views(out@).last() == views(groups@)[m],
            forall|x: Seq<char>| #[trigger] views(out@).contains(x) <==> exists|m: int|
                0 <= m < i && views(groups@)[m] == x && parent_of(x) == p@,
        decreases groups@.len() - i,
    {
        let parent = parent_group(groups[i].as_str());
        if str_eq(parent.as_str(), p) {
            let ghost before = views(out@);
            let ghost g = views(groups@);
            proof {
                if before.len() > 0 {
                    let m = choose|m: int| 0 <= m < i && before.last() == g[m];
                    assert(seq_lt(g[m], g[i as int]));
                    assert forall|k: int| 0 <= k < before.len() implies seq_lt(#[trigger] before[k], g[i as int]) by {
                        if k < before.len() - 1 {
                            lemma_seq_lt_transitive(before[k], before.last(), g[i as int]);
                        }
                    }
                }
            }
            let ghost old_out = out@;
            out.push(groups[i].clone());
            proof {
                lemma_map_push(old_out, groups@[i as int], |s: String| s@);
                let nv = views(out@);
                assert(nv == before.push(g[i as int]));
                assert forall|a: int, b: int| 0 <= a < b < nv.len() implies seq_lt(#[trigger] nv[a], #[trigger] nv[b]) by {
                    if b < before.len() {
                        assert(nv[a] == before[a] && nv[b] == before[b]);
                    }
                }
                assert forall|x: Seq<char>| #[trigger] nv.contains(x) <==> exists|m: int|
                    0 <= m < i + 1 && g[m] == x && parent_of(x) == p@ by {
                    if nv.contains(x) && !before.contains(x) {
                        assert(nv.last() == x) by {
                            let k = choose|k: int| 0 <= k < nv.len() && nv[k] == x;
                            if k < before.len() {
                                assert(before[k] == x);
                            }
                        }
                    }
                    if before.contains(x) {
                        let k = choose|k: int| 0 <= k < before.len() && before[k] == x;
                        assert(nv[k] == x);
                    }
                    if g[i as int] == x && parent_of(x) == p@ {
                        assert(nv[nv.len() - 1] == x);
                    }
                }
                assert(nv.last() == g[i as int]);
            }
        } else {
            proof {
                assert forall|x: Seq<char>| #[trigger] views(out@).contains(x) <==> exists|m: int|
                    0 <= m < i + 1 && views(groups@)[m] == x && parent_of(x) == p@ by {
                    if exists|m: int| 0 <= m < i + 1 && views(groups@)[m] == x && parent_of(x) == p@ {
                        let m = choose|m: int| 0 <= m < i + 1 && views(groups@)[m] == x && parent_of(x) == p@;
                        if m == i {
                            assert(false);
                        }
                    }
                }
            }
        }
        i += 1;
    }
    proof {
        assert forall|x: Seq<char>| #[trigger] views(out@).contains(x) <==> (views(groups@).contains(x) && parent_of(x) == p@) by {
            if views(groups@).contains(x) && parent_of(x) == p@ {
                let m = choose|m: int| 0 <= m < views(groups@).len() && views(groups@)[m] == x;
                assert(exists|m: int| 0 <= m < groups@.len() && views(groups@)[m] == x && parent_of(x) == p@);
            }
        }
    }
    out
}

/// Every entry of a group page in page order: channels, parameters and
/// constants, functions, tables, objects, CAN messages each followed by its
/// signals, and references.
pub open spec fn entry_paths(g: GroupDoc) -> Seq<Seq<char>> {
    entry_paths_of(g.symbols@) + entry_paths_of(g.functions@) + entry_paths_of(g.tables@) + entry_paths_of(
        g.objects@,
    ) + message_paths(g.can_messages@) + entry_paths_of(g.references@)
}

/// The anchors of a group page's entries, in the same order.
pub open spec fn entry_anchors(g: GroupDoc) -> Seq<Seq<char>> {
    entry_anchors_of(g.symbols@) + entry_anchors_of(g.functions@) + entry_anchors_of(g.tables@)
        + entry_anchors_of(g.objects@) + message_anchors(g.can_messages@) + entry_anchors_of(g.references@)
}

/// `g` is the page of group `p`: each section lists the records placed on it
/// in path order, the children are the sorted child groups, and the anchors are
/// page-unique in page order.
pub open spec fn group_ok(g: GroupDoc, t: ProjectSymbols, p: Seq<char>) -> bool {
    &&& g.path@ == p
    &&& symbols_ok(g.symbols@, t, p)
    &&& functions_ok(g.functions@, t, p)
    &&& tables_ok(g.tables@, t, p)
    &&& objects_ok(g.objects@, t, p)
    &&& messages_ok(g.can_messages@, t, p)
    &&& references_ok(g.references@, t, p)
    &&& strictly_sorted(views(g.children@))
    &&& forall|x: Seq<char>| #[trigger] views(g.children@).contains(x) <==> (is_group_path(t, x) && parent_of(x) == p)
    &&& entry_anchors(g) == unique_anchors(entry_paths(g))
}

/// `a` is the page `b` with only its anchors changed.
pub open spec fn same_page_but_anchors(a: GroupDoc, b: GroupDoc) -> bool {
    &&& a.path == b.path
    &&& same_list_but_anchors(a.symbols@, b.symbols@)
    &&& same_list_but_anchors(a.functions@, b.functions@)
    &&& same_list_but_anchors(a.tables@, b.tables@)
    &&& same_list_but_anchors(a.objects@, b.objects@)
    &&& same_messages_but_anchors(a.can_messages@, b.can_messages@)
    &&& same_list_but_anchors(a.references@, b.references@)
    &&& a.children == b.children
}

/// Assign each entry of a group page a page-unique anchor id. Every kind of
/// entry shares one namespace (they coexist on one HTML page, where an `id` must
/// be unique): in page order, an entry gets its path's slug, or, when that id
/// was already handed out on the page, the slug with the least `-2`, `-3`, ...
/// counter not yet handed out. No two entries of the page share an anchor.
pub fn assign_anchors(group: &mut GroupDoc)
    ensures
        same_page_but_anchors(*final(group), *old(group)),
        entry_paths(*final(group)) == entry_paths(*old(group)),
        entry_anchors(*final(group)) == unique_anchors(entry_paths(*final(group))),
        forall|i: int, j: int|
            0 <= i < j < entry_anchors(*final(group)).len() ==> #[trigger] entry_anchors(*final(group))[i]
                != #[trigger] entry_anchors(*final(group))[j],
        forall|k: int|
            0 <= k < entry_anchors(*final(group)).len() ==> slug_or_counter(
                #[trigger] entry_anchors(*final(group))[k],
                entry_paths(*final(group))[k],
            ),
{
    let mut seen: Vec<String> = Vec::new();
    let ghost e = Seq::<Seq<char>>::empty();
    proof {
        assert(views(seen@) =~= e);
    }
    reanchor(&mut group.symbols, &mut seen);
    let ghost p1 = entry_paths_of(group.symbols@);
    let ghost a1 = entry_anchors_of(group.symbols@);
    reanchor(&mut group.functions, &mut seen);
    proof {
        lemma_anchored_append(e, p1, a1, entry_paths_of(group.functions@), entry_anchors_of(group.functions@));
    }
    let ghost p2 = p1 + entry_paths_of(group.functions@);
    let ghost a2 = a1 + entry_anchors_of(group.functions@);
    reanchor(&mut group.tables, &mut seen);
    proof {
        assert(e + a1 + entry_anchors_of(group.functions@) =~= e + a2);
        lemma_anchored_append(e, p2, a2, entry_paths_of(group.tables@), entry_anchors_of(group.tables@));
    }
    let ghost p3 = p2 + entry_paths_of(group.tables@);
    let ghost a3 = a2 + entry_anchors_of(group.tables@);
    reanchor(&mut group.objects, &mut seen);
    proof {
        assert(e + a2 + entry_anchors_of(group.tables@) =~= e + a3);
        lemma_anchored_append(e, p3, a3, entry_paths_of(group.objects@), entry_anchors_of(group.objects@));
    }
    let ghost p4 = p3 + entry_paths_of(group.objects@);
    let ghost a4 = a3 + entry_anchors_of(group.objects@);
    reanchor_messages(&mut group.can_messages, &mut seen);
    proof {
        assert(e + a3 + entry_anchors_of(group.objects@) =~= e + a4);
        lemma_anchored_append(e, p4, a4, message_paths(group.can_messages@), message_anchors(group.can_messages@));
    }
    let ghost p5 = p4 + message_paths(group.can_messages@);
    let ghost a5 = a4 + message_anchors(group.can_messages@);
    reanchor(&mut group.references, &mut seen);
    proof {
        assert(e + a4 + message_anchors(group.can_messages@) =~= e + a5);
        lemma_anchored_append(e, p5, a5, entry_paths_of(group.references@), entry_anchors_of(group.references@));
        lemma_anchored_from_start(p5 + entry_paths_of(group.references@), a5 + entry_anchors_of(group.references@));
        assert(entry_paths(*group) == p5 + entry_paths_of(group.references@));
        assert(entry_anchors(*group) == a5 + entry_anchors_of(group.references@));
        lemma_unique_anchors_distinct(entry_paths(*group));
    }
}

/// Build the page of group `p`.
fn build_group(t: &ProjectSymbols, p: &str, groups: &Vec<String>, doc_symbols: &Vec<String>) -> (g: GroupDoc)
    requires
        symbols_wf(*t),
        strictly_sorted(views(groups@)),
        forall|x: Seq<char>| #[trigger] views(groups@).contains(x) <==> is_group_path(*t, x),
        forall|x: Seq<char>| #[trigger] views(doc_symbols@).contains(x) <==> is_doc_symbol_path(*t, x),
    ensures
        group_ok(g, *t, p@),
{
    let mut g = GroupDoc {
        path: to_owned_string(p),
        symbols: build_symbols(t, p),
        functions: build_functions(t, p),
        tables: build_tables(t, p),
        objects: build_objects(t, p),
        can_messages: build_messages(t, p),
        references: build_references(t, p, doc_symbols),
        children: children_of(groups, p),
    };
    let ghost g0 = g;
    assign_anchors(&mut g);
    proof {
        assert forall|k: int| 0 <= k < g.can_messages@.len() implies #[trigger] g.can_messages@[k].signals@.len()
            == g0.can_messages@[k].signals@.len() by {
            assert(same_message_but_anchors(g.can_messages@[k], g0.can_messages@[k]));
        }
    }
    g
}

/// The paths of a list of group pages.
pub open spec fn page_paths(gs: Seq<GroupDoc>) -> Seq<Seq<char>> {
    gs.map_values(|g: GroupDoc| g.path@)
}

/// `m` is the documentation model of the symbol table `t` titled `title`: one
/// page per group in path order, the Enums reference, and no relationship
/// graph, scripts or project path yet (the project loader adds those).
pub open spec fn model_of(m: DocModel, t: ProjectSymbols, title: String) -> bool {
    &&& m.title == title
    &&& m.target_hardware.is_none()
    &&& strictly_sorted(page_paths(m.groups@))
    &&& forall|x: Seq<char>| #[trigger] page_paths(m.groups@).contains(x) <==> is_group_path(t, x)
    &&& forall|k: int| 0 <= k < m.groups@.len() ==> group_ok(#[trigger] m.groups@[k], t, m.groups@[k].path@)
    &&& enums_ok(m.enums@, t)
    &&& m.graph.edges@.len() == 0
    &&& m.m1prj_path.is_none()
}

/// Build the documentation model from a project's symbol table, with `title`
/// for the index.
pub fn build_model(symbols: &ProjectSymbols, title: String) -> (m: DocModel)
    requires
        symbols_wf(*symbols),
    ensures
        model_of(m, *symbols, title),
{
    let t = symbols;
    let paths = group_paths(t);
    let doc_symbols = doc_symbol_paths(t);
    let mut groups: Vec<GroupDoc> = Vec::new();
    let mut k: usize = 0;
    while k < paths.len()
        invariant
            symbols_wf(*t),
            strictly_sorted(views(paths@)),
            forall|x: Seq<char>| #[trigger] views(paths@).contains(x) <==> is_group_path(*t, x),
            forall|x: Seq<char>| #[trigger] views(doc_symbols@).contains(x) <==> is_doc_symbol_path(*t, x),
            k <= paths@.len(),
            page_paths(groups@) == views(paths@).take(k as int),
            forall|m: int| 0 <= m < groups@.len() ==> group_ok(#[trigger] groups@[m], *t, groups@[m].path@),
        decreases paths@.len() - k,
    {
        let g = build_group(t, paths[k].as_str(), &paths, &doc_symbols);
        let ghost before = groups@;
        groups.push(g);
        proof {
            lemma_map_push(before, g, |g: GroupDoc| g.path@);
            assert(views(paths@).take(k + 1) =~= views(paths@).take(k as int).push(paths@[k as int]@));
            assert(page_paths(groups@) == page_paths(before).push(g.path@));
            assert forall|m: int| 0 <= m < groups@.len() implies group_ok(#[trigger] groups@[m], *t, groups@[m].path@) by {
                if m < k {
                    assert(groups@[m] == before[m]);
                }
            }
        }
        k += 1;
    }
    proof {
        assert(views(paths@).take(paths@.len() as int) =~= views(paths@));
    }
    let enums = collect_enums(t);
    DocModel {
        title,
        target_hardware: None,
        groups,
        enums,
        graph: ProjectGraph { edges: Vec::new() },
        m1prj_path: None,
    }
}

/// A `.m1scr` script of the project, as read off disk: its base name, its
/// source text, its path relative to the project directory (forward-slashed),
/// and the `@m1:` annotations found in it.
#[derive(Debug, Clone, PartialEq, Default)]
pub struct ScriptRecord {
    pub name: String,
    pub source: String,
    pub source_path: String,
    pub annotations: Vec<AnnotationDoc>,
}

/// The script base name recorded for the function at `path`: the last function
/// symbol of that path that names a script file.
pub open spec fn filename_of(syms: Seq<SymbolRecord>, path: Seq<char>) -> Option<Seq<char>>
    decreases syms.len(),
{
    if syms.len() == 0 {
        None
    } else if is_function_kind(syms.last().kind) && syms.last().filename.is_some() && syms.last().path@ == path {
        Some(syms.last().filename.unwrap()@)
    } else {
        filename_of(syms.drop_last(), path)
    }
}

/// The index of the first script named `name`, when there is one.
pub open spec fn script_index(scripts: Seq<ScriptRecord>, name: Seq<char>) -> Option<int>
    decreases scripts.len(),
{
    if scripts.len() == 0 {
        None
    } else {
        match script_index(scripts.drop_last(), name) {
            Some(i) => Some(i),
            None => if scripts.last().name@ == name {
                Some(scripts.len() - 1)
            } else {
                None
            },
        }
    }
}

proof fn lemma_script_index(scripts: Seq<ScriptRecord>, name: Seq<char>)
    ensures
        match script_index(scripts, name) {
            Some(i) => 0 <= i < scripts.len() && scripts[i].name@ == name && forall|j: int|
                0 <= j < i ==> (#[trigger] scripts[j]).name@ != name,
            None => forall|j: int| 0 <= j < scripts.len() ==> (#[trigger] scripts[j]).name@ != name,
        },
    decreases scripts.len(),
{
    if scripts.len() > 0 {
        let d = scripts.drop_last();
        lemma_script_index(d, name);
        match script_index(d, name) {
            Some(i) => {
                assert(d[i] == scripts[i]);
                assert forall|j: int| 0 <= j < i implies (#[trigger] scripts[j]).name@ != name by {
                    assert(d[j] == scripts[j]);
                }
            },
            None => {
                assert forall|j: int| 0 <= j < scripts.len() - 1 implies (#[trigger] scripts[j]).name@ != name by {
                    assert(d[j] == scripts[j]);
                }
            },
        }
    }
}

/// The first script named `name`: scripts directly under the project directory
/// come first, so they shadow deeper scripts of the same base name.
pub fn script_by_name(scripts: &Vec<ScriptRecord>, name: &str) -> (r: Option<usize>)
    ensures
        match r {
            Some(i) => script_index(scripts@, name@) == Some(i as int),
            None => script_index(scripts@, name@).is_none(),
        },
{
    let mut i: usize = 0;
    proof {
        lemma_script_index(scripts@, name@);
    }
    while i < scripts.len()
        invariant
            i <= scripts@.len(),
            forall|j: int| 0 <= j < i ==> (#[trigger] scripts@[j]).name@ != name@,
            match script_index(scripts@, name@) {
                Some(k) => 0 <= k < scripts@.len() && scripts@[k].name@ == name@ && forall|j: int|
                    0 <= j < k ==> (#[trigger] scripts@[j]).name@ != name@,
                None => forall|j: int| 0 <= j < scripts@.len() ==> (#[trigger] scripts@[j]).name@ != name@,
            },
        decreases scripts@.len() - i,
    {
        if str_eq(scripts[i].name.as_str(), name) {
            return Some(i);
        }
        i += 1;
    }
    None
}

/// The script base name recorded for the function at `path`.
fn filename_for<'a>(t: &'a ProjectSymbols, path: &str) -> (r: Option<&'a String>)
    ensures
        match r {
            Some(n) => filename_of(t.symbols@, path@) == Some(n@),
            None => filename_of(t.symbols@, path@).is_none(),
        },
{
    let mut i: usize = t.symbols.len();
    assert(t.symbols@.take(i as int) =~= t.symbols@);
    while i > 0
        invariant
            i <= t.symbols@.len(),
            filename_of(t.symbols@, path@) == filename_of(t.symbols@.take(i as int), path@),
        decreases i,
    {
        let sym = &t.symbols[i - 1];
        proof {
            assert(t.symbols@.take(i as int).drop_last() =~= t.symbols@.take(i - 1));
            assert(t.symbols@.take(i as int).last() == *sym);
        }
        if is_function(sym.kind) && str_eq(sym.path.as_str(), path) {
            match &sym.filename {
                Some(n) => {
                    return Some(n);
                },
                None => {},
            }
        }
        i -= 1;
    }
    None
}

/// `a` is a copy of the annotations `b`.
pub open spec fn same_annotations(a: Seq<AnnotationDoc>, b: Seq<AnnotationDoc>) -> bool {
    &&& a.len() == b.len()
    &&& forall|k: int| 0 <= k < a.len() ==> (#[trigger] a[k]).kind == b[k].kind && a[k].args@ == b[k].args@
}

fn copy_annotations(v: &Vec<AnnotationDoc>) -> (r: Vec<AnnotationDoc>)
    ensures
        same_annotations(r@, v@),
{
    let mut r: Vec<AnnotationDoc> = Vec::new();
    let mut i: usize = 0;
    while i < v.len()
        invariant
            i <= v@.len(),
            r@.len() == i,
            forall|k: int| 0 <= k < i ==> (#[trigger] r@[k]).kind == v@[k].kind && r@[k].args@ == v@[k].args@,
        decreases v@.len() - i,
    {
        r.push(AnnotationDoc { kind: v[i].kind.clone(), args: copy_string_list(&v[i].args) });
        i += 1;
    }
    r
}

/// `f` is the function entry `old` after its script was looked up: where the
/// project names a script for it and the script was found, its annotations,
/// source path and source text come from that script; otherwise it is unchanged.
pub open spec fn with_script(f: FunctionDoc, old: FunctionDoc, t: ProjectSymbols, scripts: Seq<ScriptRecord>) -> bool {
    match filename_of(t.symbols@, old.path@) {
        Some(n) => match script_index(scripts, n) {
            Some(i) => {
                &&& f.path == old.path
                &&& f.anchor == old.anchor
                &&& f.inputs == old.inputs
                &&& f.return_type == old.return_type
                &&& f.call_rate_hz == old.call_rate_hz
                &&& same_annotations(f.annotations@, scripts[i].annotations@)
                &&& f.source_path == Some(scripts[i].source_path)
                &&& f.source_text == Some(scripts[i].source)
            },
            None => f == old,
        },
        None => f == old,
    }
}

/// `g` is the page `old` with each function entry's script looked up.
pub open spec fn page_with_scripts(g: GroupDoc, old: GroupDoc, t: ProjectSymbols, scripts: Seq<ScriptRecord>) -> bool {
    &&& g.path == old.path
    &&& g.symbols == old.symbols
    &&& g.functions@.len() == old.functions@.len()
    &&& forall|k: int| 0 <= k < g.functions@.len() ==> with_script(#[trigger] g.functions@[k], old.functions@[k], t, scripts)
    &&& g.tables == old.tables
    &&& g.objects == old.objects
    &&& g.can_messages == old.can_messages
    &&& g.references == old.references
    &&& g.children == old.children
}

fn attach_to_function(f: &mut FunctionDoc, t: &ProjectSymbols, scripts: &Vec<ScriptRecord>)
    ensures
        with_script(*final(f), *old(f), *t, scripts@),
{
    match filename_for(t, f.path.as_str()) {
        Some(n) => {
            proof {
                lemma_script_index(scripts@, n@);
            }
            match script_by_name(scripts, n.as_str()) {
                Some(i) => {
                    let s = &scripts[i];
                    f.annotations = copy_annotations(&s.annotations);
                    f.source_path = Some(s.source_path.clone());
                    f.source_text = Some(s.source.clone());
                },
                None => {},
            }
        },
        None => {},
    }
}

fn attach_to_page(g: &mut GroupDoc, t: &ProjectSymbols, scripts: &Vec<ScriptRecord>)
    ensures
        page_with_scripts(*final(g), *old(g), *t, scripts@),
{
    let ghost orig = g.functions@;
    assert(orig.len() == g.functions.len());
    let mut items: Vec<FunctionDoc> = Vec::new();
    std::mem::swap(&mut g.functions, &mut items);
    let mut out: Vec<FunctionDoc> = Vec::new();
    let mut i: usize = 0;
    proof {
        assert(items@.skip(0) =~= orig);
    }
    while items.len() > 0
        invariant
            i <= orig.len(),
            orig.len() <= usize::MAX,
            items@ == orig.skip(i as int),
            out@.len() == i,
            forall|k: int| 0 <= k < i ==> with_script(#[trigger] out@[k], orig[k], *t, scripts@),
        decreases items@.len(),
    {
        assert(i < orig.len());
        let mut f = items.remove(0);
        proof {
            assert(f == orig[i as int]);
            assert(items@ =~= orig.skip(i + 1));
        }
        attach_to_function(&mut f, t, scripts);
        out.push(f);
        i += 1;
    }
    g.functions = out;
}

/// Attach each function's script to the model: the project's `@m1:`
/// annotations, the project-relative source path, and the source text. A
/// function whose script is not named or not found is left as it was.
pub fn attach_scripts(model: &mut DocModel, symbols: &ProjectSymbols, scripts: &Vec<ScriptRecord>)
    ensures
        final(model).title == old(model).title,
        final(model).target_hardware == old(model).target_hardware,
        final(model).enums == old(model).enums,
        final(model).graph == old(model).graph,
        final(model).m1prj_path == old(model).m1prj_path,
        final(model).groups@.len() == old(model).groups@.len(),
        forall|k: int|
            0 <= k < final(model).groups@.len() ==> page_with_scripts(
                #[trigger] final(model).groups@[k],
                old(model).groups@[k],
                *symbols,
                scripts@,
            ),
{
    let ghost orig = model.groups@;
    assert(orig.len() == model.groups.len());
    let mut items: Vec<GroupDoc> = Vec::new();
    std::mem::swap(&mut model.groups, &mut items);
    let mut out: Vec<GroupDoc> = Vec::new();
    let mut i: usize = 0;
    proof {
        assert(items@.skip(0) =~= orig);
    }
    while items.len() > 0
        invariant
            i <= orig.len(),
            orig.len() <= usize::MAX,
            items@ == orig.skip(i as int),
            out@.len() == i,
            forall|k: int| 0 <= k < i ==> page_with_scripts(#[trigger] out@[k], orig[k], *symbols, scripts@),
        decreases items@.len(),
    {
        assert(i < orig.len());
        let mut g = items.remove(0);
        proof {
            assert(g == orig[i as int]);
            assert(items@ =~= orig.skip(i + 1));
        }
        attach_to_page(&mut g, symbols, scripts);
        out.push(g);
        i += 1;
    }
    model.groups = out;
}

/// The parent group of a path on the chain of `p` is on that chain too.
pub proof fn lemma_chain_parent(x: Seq<char>, p: Seq<char>)
    requires
        in_chain(x, p),
        parent_of(x).len() > 0,
    ensures
        in_chain(parent_of(x), p),
    decreases p.len(),
{
    lemma_last_dot_bounds(p);
    if x == p {
        assert(in_chain(parent_of(p), parent_of(p)));
    } else {
        lemma_chain_parent(x, parent_of(p));
    }
}

/// The group tree is connected: the parent group of every group is a group.
pub proof fn lemma_group_parent_is_group(t: ProjectSymbols, x: Seq<char>)
    requires
        is_group_path(t, x),
        parent_of(x).len() > 0,
    ensures
        is_group_path(t, parent_of(x)),
{
    let i = choose|i: int|
        0 <= i < t.symbols@.len() && !is_can_signal_spec(t.symbols@[i]) && in_chain(x, parent_of(#[trigger] t.symbols@[i].path@));
    lemma_chain_parent(x, parent_of(t.symbols@[i].path@));
}

/// In a model built from a symbol table, every group below the top level is
/// listed among the children of its parent group's page, which exists.
pub proof fn lemma_model_tree_connected(m: DocModel, t: ProjectSymbols, title: String)
    requires
        model_of(m, t, title),
    ensures
        forall|k: int|
            0 <= k < m.groups@.len() && parent_of(#[trigger] m.groups@[k].path@).len() > 0 ==> exists|j: int|
                0 <= j < m.groups@.len() && m.groups@[j].path@ == parent_of(m.groups@[k].path@) && views(
                    m.groups@[j].children@,
                ).contains(m.groups@[k].path@),
{
    assert forall|k: int|
        0 <= k < m.groups@.len() && parent_of(#[trigger] m.groups@[k].path@).len() > 0 implies exists|j: int|
            0 <= j < m.groups@.len() && m.groups@[j].path@ == parent_of(m.groups@[k].path@) && views(
                m.groups@[j].children@,
            ).contains(m.groups@[k].path@) by {
        let x = m.groups@[k].path@;
        let ps = page_paths(m.groups@);
        assert(ps[k] == x);
        assert(ps.contains(x));
        lemma_group_parent_is_group(t, x);
        assert(ps.contains(parent_of(x)));
        let j = choose|j: int| 0 <= j < ps.len() && ps[j] == parent_of(x);
        assert(group_ok(m.groups@[j], t, m.groups@[j].path@));
        assert(views(m.groups@[j].children@).contains(x));
    }
}

/// Whether the section `sec` of page `g` lists an entry at `path`.
pub open spec fn listed(g: GroupDoc, sec: Section, path: Seq<char>) -> bool {
    match sec {
        Section::Symbols => exists|j: int| 0 <= j < g.symbols@.len() && #[trigger] g.symbols@[j].path@ == path,
        Section::Functions => exists|j: int| 0 <= j < g.functions@.len() && #[trigger] g.functions@[j].path@ == path,
        Section::Tables => exists|j: int| 0 <= j < g.tables@.len() && #[trigger] g.tables@[j].path@ == path,
        Section::Objects => exists|j: int| 0 <= j < g.objects@.len() && #[trigger] g.objects@[j].path@ == path,
        Section::CanMessages => exists|j: int|
            0 <= j < g.can_messages@.len() && #[trigger] g.can_messages@[j].path@ == path,
        Section::References => exists|j: int|
            0 <= j < g.references@.len() && #[trigger] g.references@[j].path@ == path,
    }
}

/// Every documented record (any but a CAN signal) below the top level is
/// listed, in the section of its kind, on the page of its immediate parent
/// group, which the model holds.
pub proof fn lemma_record_on_parent_page(m: DocModel, t: ProjectSymbols, title: String, i: int, sec: Section)
    requires
        model_of(m, t, title),
        0 <= i < t.symbols@.len(),
        !is_can_signal_spec(t.symbols@[i]),
        in_section(t.symbols@[i], sec),
        parent_of(t.symbols@[i].path@).len() > 0,
    ensures
        exists|k: int|
            0 <= k < m.groups@.len() && m.groups@[k].path@ == parent_of(t.symbols@[i].path@) && listed(
                #[trigger] m.groups@[k],
                sec,
                t.symbols@[i].path@,
            ),
{
    let x = parent_of(t.symbols@[i].path@);
    lemma_last_dot_bounds(x);
    assert(in_chain(x, x));
    assert(is_group_path(t, x));
    let ps = page_paths(m.groups@);
    assert(ps.contains(x));
    let k = choose|k: int| 0 <= k < ps.len() && ps[k] == x;
    let g = m.groups@[k];
    assert(group_ok(g, t, g.path@));
    let n = t.symbols@.len() as int;
    assert(t.symbols@.len() == t.symbols.len());
    assert((i as usize) as int == i);
    lemma_placed_contains(t, x, sec, n, i);
    lemma_sort_contains(t, placed(t, x, sec, n), false, i as usize);
    let o = section_order(t, x, sec);
    assert(o.contains(i as usize));
    let j = choose|j: int| 0 <= j < o.len() && o[j] == i as usize;
    match sec {
        Section::Symbols => assert(g.symbols@[j].path@ == t.symbols@[i].path@),
        Section::Functions => assert(g.functions@[j].path@ == t.symbols@[i].path@),
        Section::Tables => assert(g.tables@[j].path@ == t.symbols@[i].path@),
        Section::Objects => assert(g.objects@[j].path@ == t.symbols@[i].path@),
        Section::CanMessages => assert(g.can_messages@[j].path@ == t.symbols@[i].path@),
        Section::References => assert(g.references@[j].path@ == t.symbols@[i].path@),
    }
    assert(listed(g, sec, t.symbols@[i].path@));
}

/// The model built from a symbol table has a finite group tree, so its HTML
/// sidebar can always be built: every child group's path is longer than its
/// parent's.
pub proof fn lemma_model_nav_fits(m: DocModel, t: ProjectSymbols, title: String)
    requires
        model_of(m, t, title),
    ensures
        nav_fits(m.groups@),
{
    let gs = m.groups@;
    assert forall|k: int, c: int|
        0 <= k < gs.len() && 0 <= c < gs[k].children@.len() implies (#[trigger] gs[k].children@[c])@.len()
        > gs[k].path@.len() by {
        let x = gs[k].children@[c]@;
        assert(group_ok(gs[k], t, gs[k].path@));
        assert(views(gs[k].children@)[c] == x);
        assert(views(gs[k].children@).contains(x));
        let i = choose|i: int|
            0 <= i < t.symbols@.len() && !is_can_signal_spec(t.symbols@[i]) && in_chain(x, parent_of(#[trigger] t.symbols@[i].path@));
        lemma_chain_len(x, parent_of(t.symbols@[i].path@));
        lemma_last_dot_bounds(x);
    }
    lemma_nav_fits_when_children_deeper(gs);
}

/// The shape of a model built from a symbol table: its pages strictly ascend by
/// path; the parent of every page is another page or empty; each page's
/// children are exactly the pages whose parent it is, in ascending order; every
/// entry on a page has that page as its parent; no CAN signal is documented as
/// a plain symbol; and there is no graph and no project path yet.
pub proof fn lemma_build_model_shape(m: DocModel, t: ProjectSymbols, title: String)
    requires
        model_of(m, t, title),
    ensures
        strictly_sorted(page_paths(m.groups@)),
        forall|k: int|
            0 <= k < m.groups@.len() && parent_of(#[trigger] m.groups@[k].path@).len() > 0 ==> page_paths(
                m.groups@,
            ).contains(parent_of(m.groups@[k].path@)),
        forall|k: int|
            0 <= k < m.groups@.len() ==> strictly_sorted(views(#[trigger] m.groups@[k].children@)),
        forall|k: int, x: Seq<char>|
            0 <= k < m.groups@.len() ==> (#[trigger] views(m.groups@[k].children@).contains(x) <==> (page_paths(
                m.groups@,
            ).contains(x) && parent_of(x) == m.groups@[k].path@)),
        forall|k: int, j: int|
            0 <= k < m.groups@.len() && 0 <= j < m.groups@[k].symbols@.len() ==> parent_of(
                #[trigger] m.groups@[k].symbols@[j].path@,
            ) == m.groups@[k].path@ && !class_is(m.groups@[k].symbols@[j].classname, "BuiltIn.CAN.Signal"@),
        forall|k: int, j: int|
            0 <= k < m.groups@.len() && 0 <= j < m.groups@[k].functions@.len() ==> parent_of(
                #[trigger] m.groups@[k].functions@[j].path@,
            ) == m.groups@[k].path@,
        forall|k: int, j: int|
            0 <= k < m.groups@.len() && 0 <= j < m.groups@[k].tables@.len() ==> parent_of(
                #[trigger] m.groups@[k].tables@[j].path@,
            ) == m.groups@[k].path@,
        forall|k: int, j: int|
            0 <= k < m.groups@.len() && 0 <= j < m.groups@[k].objects@.len() ==> parent_of(
                #[trigger] m.groups@[k].objects@[j].path@,
            ) == m.groups@[k].path@,
        forall|k: int, j: int|
            0 <= k < m.groups@.len() && 0 <= j < m.groups@[k].can_messages@.len() ==> parent_of(
                #[trigger] m.groups@[k].can_messages@[j].path@,
            ) == m.groups@[k].path@,
        forall|k: int, j: int|
            0 <= k < m.groups@.len() && 0 <= j < m.groups@[k].references@.len() ==> parent_of(
                #[trigger] m.groups@[k].references@[j].path@,
            ) == m.groups@[k].path@,
        m.graph.edges@.len() == 0,
        m.m1prj_path.is_none(),
{
    let gs = m.groups@;
    let ps = page_paths(gs);
    lemma_model_tree_connected(m, t, title);
    assert forall|k: int|
        0 <= k < gs.len() && parent_of(#[trigger] gs[k].path@).len() > 0 implies ps.contains(parent_of(gs[k].path@)) by {
        let j = choose|j: int|
            0 <= j < gs.len() && gs[j].path@ == parent_of(gs[k].path@) && views(gs[j].children@).contains(gs[k].path@);
        assert(ps[j] == gs[j].path@);
    }
    assert forall|k: int| 0 <= k < gs.len() implies strictly_sorted(views(#[trigger] gs[k].children@)) by {
        assert(group_ok(gs[k], t, gs[k].path@));
    }
    assert forall|k: int, x: Seq<char>| 0 <= k < gs.len() implies (#[trigger] views(gs[k].children@).contains(x) <==> (
    ps.contains(x) && parent_of(x) == gs[k].path@)) by {
        assert(group_ok(gs[k], t, gs[k].path@));
    }
    assert forall|k: int, j: int| 0 <= k < gs.len() && 0 <= j < gs[k].symbols@.len() implies parent_of(
        #[trigger] gs[k].symbols@[j].path@,
    ) == gs[k].path@ && !class_is(gs[k].symbols@[j].classname, "BuiltIn.CAN.Signal"@) by {
        assert(group_ok(gs[k], t, gs[k].path@));
        lemma_section_member(t, gs[k].path@, Section::Symbols, j);
    }
    assert forall|k: int, j: int| 0 <= k < gs.len() && 0 <= j < gs[k].functions@.len() implies parent_of(
        #[trigger] gs[k].functions@[j].path@,
    ) == gs[k].path@ by {
        assert(group_ok(gs[k], t, gs[k].path@));
        lemma_section_member(t, gs[k].path@, Section::Functions, j);
    }
    assert forall|k: int, j: int| 0 <= k < gs.len() && 0 <= j < gs[k].tables@.len() implies parent_of(
        #[trigger] gs[k].tables@[j].path@,
    ) == gs[k].path@ by {
        assert(group_ok(gs[k], t, gs[k].path@));
        lemma_section_member(t, gs[k].path@, Section::Tables, j);
    }
    assert forall|k: int, j: int| 0 <= k < gs.len() && 0 <= j < gs[k].objects@.len() implies parent_of(
        #[trigger] gs[k].objects@[j].path@,
    ) == gs[k].path@ by {
        assert(group_ok(gs[k], t, gs[k].path@));
        lemma_section_member(t, gs[k].path@, Section::Objects, j);
    }
    assert forall|k: int, j: int| 0 <= k < gs.len() && 0 <= j < gs[k].can_messages@.len() implies parent_of(
        #[trigger] gs[k].can_messages@[j].path@,
    ) == gs[k].path@ by {
        assert(group_ok(gs[k], t, gs[k].path@));
        lemma_section_member(t, gs[k].path@, Section::CanMessages, j);
    }
    assert forall|k: int, j: int| 0 <= k < gs.len() && 0 <= j < gs[k].references@.len() implies parent_of(
        #[trigger] gs[k].references@[j].path@,
    ) == gs[k].path@ by {
        assert(group_ok(gs[k], t, gs[k].path@));
        lemma_section_member(t, gs[k].path@, Section::References, j);
    }
}

/// Whether the components `dir` lead every path in `path`: `path` lies in the
/// directory `dir`.
pub open spec fn lies_under(dir: Seq<Seq<char>>, path: Seq<Seq<char>>) -> bool {
    dir.len() <= path.len() && forall|i: int| 0 <= i < dir.len() ==> #[trigger] path[i] == dir[i]
}

/// A script's path for links, from the components of the project directory and
/// of the script's path: relative to the project directory and joined with
/// `/` when the script lies under it, else the script's base name.
pub open spec fn relative_path_text(dir: Seq<Seq<char>>, path: Seq<Seq<char>>) -> Seq<char> {
    if lies_under(dir, path) {
        join(path.skip(dir.len() as int), "/"@)
    } else if path.len() > 0 {
        path.last()
    } else {
        Seq::empty()
    }
}

/// The script's path relative to the project directory, forward-slashed for a
/// stable link (`Engine/Update.m1scr`); the file's base name when it lies
/// outside the project tree. Both paths are given as their components.
pub fn relative_source_path(project_dir: &Vec<String>, script_path: &Vec<String>) -> (r: String)
    ensures
        r@ == relative_path_text(views(project_dir@), views(script_path@)),
{
    let ghost d = views(project_dir@);
    let ghost p = views(script_path@);
    assert(p.len() == script_path@.len());
    assert(d.len() == project_dir@.len());
    let mut under = project_dir.len() <= script_path.len();
    let mut i: usize = 0;
    while under && i < project_dir.len()
        invariant
            d == views(project_dir@),
            p == views(script_path@),
            p.len() == script_path@.len(),
            d.len() == project_dir@.len(),
            i <= project_dir@.len(),
            under ==> project_dir@.len() <= script_path@.len(),
            under ==> forall|k: int| 0 <= k < i ==> #[trigger] p[k] == d[k],
            !under ==> !lies_under(d, p),
        decreases project_dir@.len() - i,
    {
        if !str_eq(script_path[i].as_str(), project_dir[i].as_str()) {
            under = false;
            assert(p[i as int] != d[i as int]);
        }
        i += 1;
    }
    if under {
        let mut rest: Vec<String> = Vec::new();
        let mut k: usize = project_dir.len();
        let ghost start = k as int;
        while k < script_path.len()
            invariant
                p == views(script_path@),
                p.len() == script_path@.len(),
                start <= k <= script_path@.len(),
                rest@.len() == k - start,
                forall|j: int| 0 <= j < rest@.len() ==> #[trigger] rest@[j]@ == p[start + j],
            decreases script_path@.len() - k,
        {
            rest.push(script_path[k].clone());
            k += 1;
        }
        assert(views(rest@) =~= p.skip(start));
        let mut out = String::new();
        push_join(&mut out, &rest, "/");
        proof {
            assert(rest@.map_values(|x: String| x@) == views(rest@));
        }
        out
    } else if script_path.len() > 0 {
        script_path[script_path.len() - 1].clone()
    } else {
        String::new()
    }
}

} // verus!
