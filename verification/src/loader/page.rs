//! The entries of one group page, each section in path order.
use super::docs::{
    copy_opt, copy_opt_real, copy_real, function_doc, function_doc_ok, object_doc, object_doc_ok, reference_doc,
    reference_doc_ok, symbol_doc, symbol_doc_ok, table_doc, table_doc_ok,
};
use super::order::in_table;
use super::sections::{in_section, placed_in, section_indices, section_order, signal_indices, signal_order, Section};
use super::{doc_kind, doc_kind_of, is_can_signal_spec, resolve_reference_target, resolved_target, symbols_wf, ProjectSymbols, SymbolRecord};
use crate::model::{
    anchor_slug, CanMessageDoc, CanSignalDoc, FunctionDoc, ObjectDoc, Real, ReferenceDoc, SymbolDoc,
    SymbolDocKind, TableDoc,
};
use crate::path::parent_of;
use crate::strset::{contains_str, views};

use vstd::prelude::*;

verus! {

/// The CAN part of a symbol record.
pub open spec fn can_field<T>(sym: SymbolRecord, f: spec_fn(super::CanRecord) -> Option<T>) -> Option<T> {
    match sym.can {
        Some(c) => f(c),
        None => None,
    }
}

/// `d` documents CAN signal `sym` (all but its anchor).
pub open spec fn can_signal_doc_ok(d: CanSignalDoc, sym: SymbolRecord) -> bool {
    &&& d.path == sym.path
    &&& d.start_bit == can_field(sym, |c: super::CanRecord| c.start_bit)
    &&& d.length == can_field(sym, |c: super::CanRecord| c.length)
    &&& d.multiplier == can_field(sym, |c: super::CanRecord| c.multiplier)
    &&& d.offset == can_field(sym, |c: super::CanRecord| c.offset)
    &&& d.range == sym.dbc_range
    &&& d.unit == sym.unit
}

/// `d` documents CAN message `t.symbols[j]` (all but the anchors): frame id and
/// length, and its signals in frame order. It links to no declaration line: the
/// message's line indexes its `.m1dbc`, not the project file.
pub open spec fn can_message_doc_ok(d: CanMessageDoc, t: ProjectSymbols, j: int) -> bool {
    let sym = t.symbols@[j];
    let o = signal_order(t, j);
    &&& d.path == sym.path
    &&& d.can_id == can_field(sym, |c: super::CanRecord| c.can_id)
    &&& d.dlc == can_field(sym, |c: super::CanRecord| c.dlc)
    &&& d.def_line.is_none()
    &&& d.signals@.len() == o.len()
    &&& forall|k: int| 0 <= k < o.len() ==> can_signal_doc_ok(#[trigger] d.signals@[k], t.symbols@[o[k] as int])
}

fn copy_range(r: &Option<(Real, Real)>) -> (c: Option<(Real, Real)>)
    ensures
        c == *r,
{
    match r {
        Some((a, b)) => Some((copy_real(a), copy_real(b))),
        None => None,
    }
}

/// Build the entry of a CAN signal.
pub fn can_signal_doc(sym: &SymbolRecord, anchor: String) -> (d: CanSignalDoc)
    ensures
        can_signal_doc_ok(d, *sym),
        d.anchor == anchor,
{
    let (start_bit, length, multiplier, offset) = match &sym.can {
        Some(c) => (c.start_bit, c.length, copy_opt_real(&c.multiplier), copy_opt_real(&c.offset)),
        None => (None, None, None, None),
    };
    CanSignalDoc {
        path: sym.path.clone(),
        anchor,
        start_bit,
        length,
        multiplier,
        offset,
        range: copy_range(&sym.dbc_range),
        unit: copy_opt(&sym.unit),
    }
}

/// Build the entry of CAN message `t.symbols[j]` with its signals.
pub fn can_message_doc(t: &ProjectSymbols, j: usize) -> (d: CanMessageDoc)
    requires
        j < t.symbols@.len(),
        symbols_wf(*t),
    ensures
        can_message_doc_ok(d, *t, j as int),
{
    let sym = &t.symbols[j];
    let order = signal_indices(t, j);
    let mut signals: Vec<CanSignalDoc> = Vec::new();
    let mut i: usize = 0;
    while i < order.len()
        invariant
            order@ == signal_order(*t, j as int),
            in_table(*t, order@),
            i <= order@.len(),
            signals@.len() == i,
            forall|k: int| 0 <= k < i ==> can_signal_doc_ok(#[trigger] signals@[k], t.symbols@[order@[k] as int]),
        decreases order@.len() - i,
    {
        let s = &t.symbols[order[i]];
        signals.push(can_signal_doc(s, anchor_slug(s.path.as_str())));
        i += 1;
    }
    let (can_id, dlc) = match &sym.can {
        Some(c) => (c.can_id, c.dlc),
        None => (None, None),
    };
    CanMessageDoc { path: sym.path.clone(), anchor: anchor_slug(sym.path.as_str()), can_id, dlc, signals, def_line: None }
}

/// A channel, parameter or constant documented on some group page.
pub open spec fn is_doc_symbol(sym: SymbolRecord) -> bool {
    &&& !is_can_signal_spec(sym)
    &&& parent_of(sym.path@).len() > 0
    &&& in_section(sym, Section::Symbols)
}

/// Whether `x` is the path of a documented channel, parameter or constant.
pub open spec fn is_doc_symbol_path(t: ProjectSymbols, x: Seq<char>) -> bool {
    exists|i: int| 0 <= i < t.symbols@.len() && is_doc_symbol(#[trigger] t.symbols@[i]) && t.symbols@[i].path@ == x
}

/// A reference's target verbatim, empty when it declares none.
pub open spec fn raw_target(sym: SymbolRecord) -> Seq<char> {
    match sym.reference_target {
        Some(s) => s@,
        None => Seq::empty(),
    }
}

/// A reference's target resolved through its path keyword, kept only where it
/// names a documented symbol.
pub open spec fn reference_resolution(t: ProjectSymbols, sym: SymbolRecord) -> Option<Seq<char>> {
    match resolved_target(sym.path@, raw_target(sym)) {
        Some(x) => if is_doc_symbol_path(t, x) {
            Some(x)
        } else {
            None
        },
        None => None,
    }
}

/// `d` documents reference `sym`, with its target resolved as far as it names a
/// documented symbol.
pub open spec fn reference_ok(d: ReferenceDoc, t: ProjectSymbols, sym: SymbolRecord) -> bool {
    &&& reference_doc_ok(d, sym, d.target_resolved)
    &&& match d.target_resolved {
        Some(x) => reference_resolution(t, sym) == Some(x@),
        None => reference_resolution(t, sym).is_none(),
    }
}


/// The channels, parameters and constants of the page of `p` match section Symbols, in page order.
pub open spec fn symbols_ok(ds: Seq<SymbolDoc>, t: ProjectSymbols, p: Seq<char>) -> bool {
    let o = section_order(t, p, Section::Symbols);
    &&& ds.len() == o.len()
    &&& forall|k: int| 0 <= k < o.len() ==> symbol_doc_ok(#[trigger] ds[k], t.symbols@[o[k] as int], doc_kind_of(t.symbols@[o[k] as int].kind).unwrap(), t)
}

/// Build the channels, parameters and constants of the page of `p`, each anchored at its path's slug.
pub fn build_symbols(t: &ProjectSymbols, p: &str) -> (out: Vec<SymbolDoc>)
    requires
        symbols_wf(*t),
    ensures
        symbols_ok(out@, *t, p@),
{
    let order = section_indices(t, p, Section::Symbols);
    let ghost o = order@;
    let mut out: Vec<SymbolDoc> = Vec::new();
    let mut i: usize = 0;
    while i < order.len()
        invariant
            o == order@,
            order@ == section_order(*t, p@, Section::Symbols),
            in_table(*t, order@),
            forall|k: int| 0 <= k < order@.len() ==> placed_in(t.symbols@[#[trigger] order@[k] as int], p@, Section::Symbols),
            symbols_wf(*t),
            i <= o.len(),
            out@.len() == i,
            forall|k: int| 0 <= k < i ==> symbol_doc_ok(#[trigger] out@[k], t.symbols@[o[k] as int], doc_kind_of(t.symbols@[o[k] as int].kind).unwrap(), *t),
        decreases o.len() - i,
    {
        let at = order[i];
        let sym = &t.symbols[at];
        assert(placed_in(t.symbols@[o[i as int] as int], p@, Section::Symbols));
        let anchor = anchor_slug(sym.path.as_str());
        let kind = match doc_kind(sym.kind) {
            Some(k) => k,
            None => SymbolDocKind::Channel,
        };
        assert(sym.enum_assoc.is_some() ==> sym.enum_assoc.unwrap() < t.enum_types@.len());
        let d = symbol_doc(sym, kind, t, anchor);
        out.push(d);
        i += 1;
    }
    out
}

/// The functions and methods of the page of `p` match section Functions, in page order.
pub open spec fn functions_ok(ds: Seq<FunctionDoc>, t: ProjectSymbols, p: Seq<char>) -> bool {
    let o = section_order(t, p, Section::Functions);
    &&& ds.len() == o.len()
    &&& forall|k: int| 0 <= k < o.len() ==> function_doc_ok(#[trigger] ds[k], t.symbols@[o[k] as int])
}

/// Build the functions and methods of the page of `p`, each anchored at its path's slug.
pub fn build_functions(t: &ProjectSymbols, p: &str) -> (out: Vec<FunctionDoc>)
    requires
        symbols_wf(*t),
    ensures
        functions_ok(out@, *t, p@),
{
    let order = section_indices(t, p, Section::Functions);
    let ghost o = order@;
    let mut out: Vec<FunctionDoc> = Vec::new();
    let mut i: usize = 0;
    while i < order.len()
        invariant
            o == order@,
            order@ == section_order(*t, p@, Section::Functions),
            in_table(*t, order@),
            forall|k: int| 0 <= k < order@.len() ==> placed_in(t.symbols@[#[trigger] order@[k] as int], p@, Section::Functions),
            symbols_wf(*t),
            i <= o.len(),
            out@.len() == i,
            forall|k: int| 0 <= k < i ==> function_doc_ok(#[trigger] out@[k], t.symbols@[o[k] as int]),
        decreases o.len() - i,
    {
        let at = order[i];
        let sym = &t.symbols[at];
        assert(placed_in(t.symbols@[o[i as int] as int], p@, Section::Functions));
        let anchor = anchor_slug(sym.path.as_str());
        let d = function_doc(sym, anchor);
        out.push(d);
        i += 1;
    }
    out
}

/// The calibration tables of the page of `p` match section Tables, in page order.
pub open spec fn tables_ok(ds: Seq<TableDoc>, t: ProjectSymbols, p: Seq<char>) -> bool {
    let o = section_order(t, p, Section::Tables);
    &&& ds.len() == o.len()
    &&& forall|k: int| 0 <= k < o.len() ==> table_doc_ok(#[trigger] ds[k], t.symbols@[o[k] as int])
}

/// Build the calibration tables of the page of `p`, each anchored at its path's slug.
pub fn build_tables(t: &ProjectSymbols, p: &str) -> (out: Vec<TableDoc>)
    requires
        symbols_wf(*t),
    ensures
        tables_ok(out@, *t, p@),
{
    let order = section_indices(t, p, Section::Tables);
    let ghost o = order@;
    let mut out: Vec<TableDoc> = Vec::new();
    let mut i: usize = 0;
    while i < order.len()
        invariant
            o == order@,
            order@ == section_order(*t, p@, Section::Tables),
            in_table(*t, order@),
            forall|k: int| 0 <= k < order@.len() ==> placed_in(t.symbols@[#[trigger] order@[k] as int], p@, Section::Tables),
            symbols_wf(*t),
            i <= o.len(),
            out@.len() == i,
            forall|k: int| 0 <= k < i ==> table_doc_ok(#[trigger] out@[k], t.symbols@[o[k] as int]),
        decreases o.len() - i,
    {
        let at = order[i];
        let sym = &t.symbols[at];
        assert(placed_in(t.symbols@[o[i as int] as int], p@, Section::Tables));
        let anchor = anchor_slug(sym.path.as_str());
        let d = table_doc(sym, anchor);
        out.push(d);
        i += 1;
    }
    out
}

/// The package objects of the page of `p` match section Objects, in page order.
pub open spec fn objects_ok(ds: Seq<ObjectDoc>, t: ProjectSymbols, p: Seq<char>) -> bool {
    let o = section_order(t, p, Section::Objects);
    &&& ds.len() == o.len()
    &&& forall|k: int| 0 <= k < o.len() ==> object_doc_ok(#[trigger] ds[k], t.symbols@[o[k] as int], t)
}

/// Build the package objects of the page of `p`, each anchored at its path's slug.
pub fn build_objects(t: &ProjectSymbols, p: &str) -> (out: Vec<ObjectDoc>)
    requires
        symbols_wf(*t),
    ensures
        objects_ok(out@, *t, p@),
{
    let order = section_indices(t, p, Section::Objects);
    let ghost o = order@;
    let mut out: Vec<ObjectDoc> = Vec::new();
    let mut i: usize = 0;
    while i < order.len()
        invariant
            o == order@,
            order@ == section_order(*t, p@, Section::Objects),
            in_table(*t, order@),
            forall|k: int| 0 <= k < order@.len() ==> placed_in(t.symbols@[#[trigger] order@[k] as int], p@, Section::Objects),
            symbols_wf(*t),
            i <= o.len(),
            out@.len() == i,
            forall|k: int| 0 <= k < i ==> object_doc_ok(#[trigger] out@[k], t.symbols@[o[k] as int], *t),
        decreases o.len() - i,
    {
        let at = order[i];
        let sym = &t.symbols[at];
        assert(placed_in(t.symbols@[o[i as int] as int], p@, Section::Objects));
        let anchor = anchor_slug(sym.path.as_str());
        assert(forall|k: int| 0 <= k < sym.children@.len() ==> #[trigger] sym.children@[k] < t.symbols@.len());
        let d = object_doc(sym, t, anchor);
        out.push(d);
        i += 1;
    }
    out
}

/// The reference aliases of the page of `p` match section References, in page order.
pub open spec fn references_ok(ds: Seq<ReferenceDoc>, t: ProjectSymbols, p: Seq<char>) -> bool {
    let o = section_order(t, p, Section::References);
    &&& ds.len() == o.len()
    &&& forall|k: int| 0 <= k < o.len() ==> reference_ok(#[trigger] ds[k], t, t.symbols@[o[k] as int])
}

/// Build the reference aliases of the page of `p`, each anchored at its path's slug.
pub fn build_references(t: &ProjectSymbols, p: &str, doc_symbols: &Vec<String>) -> (out: Vec<ReferenceDoc>)
    requires
        symbols_wf(*t),
        forall|x: Seq<char>| #[trigger] views(doc_symbols@).contains(x) <==> is_doc_symbol_path(*t, x),
    ensures
        references_ok(out@, *t, p@),
{
    let order = section_indices(t, p, Section::References);
    let ghost o = order@;
    let mut out: Vec<ReferenceDoc> = Vec::new();
    let mut i: usize = 0;
    while i < order.len()
        invariant
            o == order@,
            order@ == section_order(*t, p@, Section::References),
            in_table(*t, order@),
            forall|k: int| 0 <= k < order@.len() ==> placed_in(t.symbols@[#[trigger] order@[k] as int], p@, Section::References),
            symbols_wf(*t),
        forall|x: Seq<char>| #[trigger] views(doc_symbols@).contains(x) <==> is_doc_symbol_path(*t, x),
            i <= o.len(),
            out@.len() == i,
            forall|k: int| 0 <= k < i ==> reference_ok(#[trigger] out@[k], *t, t.symbols@[o[k] as int]),
        decreases o.len() - i,
    {
        let at = order[i];
        let sym = &t.symbols[at];
        assert(placed_in(t.symbols@[o[i as int] as int], p@, Section::References));
        let anchor = anchor_slug(sym.path.as_str());
        let raw = match &sym.reference_target {
            Some(s) => s.as_str(),
            None => "",
        };
        proof {
            reveal_strlit("");
            assert(raw@ == raw_target(*sym));
        }
        let resolved = match resolve_reference_target(sym.path.as_str(), raw) {
            Some(x) => if contains_str(doc_symbols, x.as_str()) {
                Some(x)
            } else {
                None
            },
            None => None,
        };
        let d = reference_doc(sym, anchor, resolved);
        out.push(d);
        i += 1;
    }
    out
}

/// The CAN messages of the page of `p` match section CanMessages, in page order.
pub open spec fn messages_ok(ds: Seq<CanMessageDoc>, t: ProjectSymbols, p: Seq<char>) -> bool {
    let o = section_order(t, p, Section::CanMessages);
    &&& ds.len() == o.len()
    &&& forall|k: int| 0 <= k < o.len() ==> can_message_doc_ok(#[trigger] ds[k], t, o[k] as int)
}

/// Build the CAN messages of the page of `p`, each anchored at its path's slug.
pub fn build_messages(t: &ProjectSymbols, p: &str) -> (out: Vec<CanMessageDoc>)
    requires
        symbols_wf(*t),
    ensures
        messages_ok(out@, *t, p@),
{
    let order = section_indices(t, p, Section::CanMessages);
    let ghost o = order@;
    let mut out: Vec<CanMessageDoc> = Vec::new();
    let mut i: usize = 0;
    while i < order.len()
        invariant
            o == order@,
            order@ == section_order(*t, p@, Section::CanMessages),
            in_table(*t, order@),
            forall|k: int| 0 <= k < order@.len() ==> placed_in(t.symbols@[#[trigger] order@[k] as int], p@, Section::CanMessages),
            symbols_wf(*t),
            i <= o.len(),
            out@.len() == i,
            forall|k: int| 0 <= k < i ==> can_message_doc_ok(#[trigger] out@[k], *t, o[k] as int),
        decreases o.len() - i,
    {
        let at = order[i];
        let sym = &t.symbols[at];
        assert(placed_in(t.symbols@[o[i as int] as int], p@, Section::CanMessages));
        let anchor = anchor_slug(sym.path.as_str());
        let d = can_message_doc(t, at);
        out.push(d);
        i += 1;
    }
    out
}

} // verus!
