//! One documentation entry per symbol record.
use super::{value_label, value_type_label, ProjectSymbols, SymbolRecord, ValueKind};
use crate::markdown::group::{insert_text, sort_texts};
use crate::model::{FunctionDoc, ObjectDoc, Real, ReferenceDoc, SymbolDoc, SymbolDocKind, TableAxisDoc, TableDoc};
use crate::strset::views;
use crate::text::to_owned_string;
use vstd::prelude::*;

verus! {

/// A copy of an optional string.
pub fn copy_opt(o: &Option<String>) -> (r: Option<String>)
    ensures
        r == *o,
{
    match o {
        Some(s) => Some(s.clone()),
        None => None,
    }
}

/// A copy of a real number.
pub fn copy_real(x: &Real) -> (r: Real)
    ensures
        r == *x,
{
    Real {
        fixed3: x.fixed3.clone(),
        fixed4: x.fixed4.clone(),
        magnitude4: x.magnitude4.clone(),
        negative: x.negative,
        shortest: copy_opt(&x.shortest),
    }
}

/// A copy of an optional real number.
pub fn copy_opt_real(o: &Option<Real>) -> (r: Option<Real>)
    ensures
        r == *o,
{
    match o {
        Some(x) => Some(copy_real(x)),
        None => None,
    }
}

/// A copy of a list of strings.
pub fn copy_string_list(v: &Vec<String>) -> (r: Vec<String>)
    ensures
        r@ == v@,
{
    let mut r: Vec<String> = Vec::new();
    let mut i: usize = 0;
    while i < v.len()
        invariant
            i <= v@.len(),
            r@ == v@.take(i as int),
        decreases v@.len() - i,
    {
        r.push(v[i].clone());
        assert(r@ =~= v@.take(i + 1));
        i += 1;
    }
    assert(v@.take(v@.len() as int) =~= v@);
    r
}

fn copy_axes(v: &Vec<TableAxisDoc>) -> (r: Vec<TableAxisDoc>)
    ensures
        r@ == v@,
{
    let mut r: Vec<TableAxisDoc> = Vec::new();
    let mut i: usize = 0;
    while i < v.len()
        invariant
            i <= v@.len(),
            r@ == v@.take(i as int),
        decreases v@.len() - i,
    {
        r.push(TableAxisDoc { size: v[i].size, unit: copy_opt(&v[i].unit) });
        assert(r@ =~= v@.take(i + 1));
        i += 1;
    }
    assert(v@.take(v@.len() as int) =~= v@);
    r
}

/// `a` when present, else `b`.
pub open spec fn opt_or(a: Option<String>, b: Option<String>) -> Option<String> {
    if a.is_some() {
        a
    } else {
        b
    }
}

/// The name of a symbol's enum type, when it has one.
pub open spec fn enum_name_of(t: ProjectSymbols, sym: SymbolRecord) -> Option<String> {
    match sym.enum_assoc {
        Some(id) => Some(t.enum_types@[id as int].name),
        None => None,
    }
}

/// The type shown for a symbol: the declared type, else its enum's name, else
/// the label of its value type.
pub open spec fn type_label_of(t: ProjectSymbols, sym: SymbolRecord) -> Seq<char> {
    match sym.declared_type {
        Some(d) => d@,
        None => match enum_name_of(t, sym) {
            Some(n) => n@,
            None => value_label(sym.value_type),
        },
    }
}

/// `d` documents symbol `sym` of kind `kind` (all but its anchor).
pub open spec fn symbol_doc_ok(d: SymbolDoc, sym: SymbolRecord, kind: SymbolDocKind, t: ProjectSymbols) -> bool {
    &&& d.path == sym.path
    &&& d.kind == kind
    &&& d.tags@ == sym.tags@
    &&& d.type_label@ == type_label_of(t, sym)
    &&& d.quantity == sym.qty
    &&& d.unit == opt_or(sym.display_unit, sym.unit)
    &&& d.base_unit == sym.unit
    &&& d.log_rate_hz == sym.log_rate_hz
    &&& d.security == sym.security
    &&& d.enum_ref == enum_name_of(t, sym)
    &&& d.classname == sym.classname
    &&& d.def_line == sym.def_line
}

/// Build the entry of a channel, parameter or constant. The unit is the one
/// shown to the user where the project gives it, else the stored base unit; an
/// enum-typed symbol names its enum.
pub fn symbol_doc(sym: &SymbolRecord, kind: SymbolDocKind, t: &ProjectSymbols, anchor: String) -> (d: SymbolDoc)
    requires
        match sym.enum_assoc {
            Some(id) => id < t.enum_types@.len(),
            None => true,
        },
    ensures
        symbol_doc_ok(d, *sym, kind, *t),
        d.anchor == anchor,
{
    let unit = match &sym.display_unit {
        Some(u) => Some(u.clone()),
        None => copy_opt(&sym.unit),
    };
    let enum_name = match sym.enum_assoc {
        Some(id) => Some(t.enum_types[id].name.clone()),
        None => None,
    };
    let type_label = match &sym.declared_type {
        Some(d) => d.clone(),
        None => match &enum_name {
            Some(n) => n.clone(),
            None => to_owned_string(value_type_label(sym.value_type)),
        },
    };
    SymbolDoc {
        path: sym.path.clone(),
        anchor,
        kind,
        tags: copy_string_list(&sym.tags),
        type_label,
        quantity: copy_opt(&sym.qty),
        unit,
        base_unit: copy_opt(&sym.unit),
        log_rate_hz: copy_opt_real(&sym.log_rate_hz),
        security: copy_opt(&sym.security),
        enum_ref: enum_name,
        classname: copy_opt(&sym.classname),
        def_line: sym.def_line,
    }
}

/// The inputs of a function entry match the declared parameters, each with the
/// label of its type.
pub open spec fn inputs_ok(inputs: Seq<(String, String)>, params: Option<Vec<(String, ValueKind)>>) -> bool {
    match params {
        None => inputs.len() == 0,
        Some(ps) => {
            &&& inputs.len() == ps@.len()
            &&& forall|k: int|
                0 <= k < inputs.len() ==> (#[trigger] inputs[k]).0 == ps@[k].0 && inputs[k].1@ == value_label(
                    ps@[k].1,
                )
        },
    }
}

/// `d` documents function `sym` (all but its anchor): no annotations and no
/// source yet, which the project loader fills in once the script is found.
pub open spec fn function_doc_ok(d: FunctionDoc, sym: SymbolRecord) -> bool {
    &&& d.path == sym.path
    &&& inputs_ok(d.inputs@, sym.in_params)
    &&& match sym.return_type {
        Some(vt) => d.return_type.is_some() && d.return_type.unwrap()@ == value_label(vt),
        None => d.return_type.is_none(),
    }
    &&& d.annotations@.len() == 0
    &&& d.call_rate_hz == sym.call_rate_hz
    &&& d.source_path.is_none()
    &&& d.source_text.is_none()
}

/// Build the entry of a function or method.
pub fn function_doc(sym: &SymbolRecord, anchor: String) -> (d: FunctionDoc)
    ensures
        function_doc_ok(d, *sym),
        d.anchor == anchor,
{
    let mut inputs: Vec<(String, String)> = Vec::new();
    match &sym.in_params {
        Some(ps) => {
            let mut i: usize = 0;
            while i < ps.len()
                invariant
                    i <= ps@.len(),
                    inputs@.len() == i,
                    forall|k: int|
                        0 <= k < i ==> (#[trigger] inputs@[k]).0 == ps@[k].0 && inputs@[k].1@ == value_label(
                            ps@[k].1,
                        ),
                decreases ps@.len() - i,
            {
                let label = to_owned_string(value_type_label(ps[i].1));
                inputs.push((ps[i].0.clone(), label));
                i += 1;
            }
        },
        None => {},
    }
    let return_type = match sym.return_type {
        Some(vt) => Some(to_owned_string(value_type_label(vt))),
        None => None,
    };
    FunctionDoc {
        path: sym.path.clone(),
        anchor,
        inputs,
        return_type,
        annotations: Vec::new(),
        call_rate_hz: copy_opt_real(&sym.call_rate_hz),
        source_path: None,
        source_text: None,
    }
}

/// `d` documents table `sym` (all but its anchor): axes and output unit from the
/// table's metadata, empty without it.
pub open spec fn table_doc_ok(d: TableDoc, sym: SymbolRecord) -> bool {
    &&& d.path == sym.path
    &&& match sym.table_meta {
        Some(m) => d.axes@ == m.axes@ && d.output_unit == m.output_unit,
        None => d.axes@.len() == 0 && d.output_unit.is_none(),
    }
    &&& d.def_line == sym.def_line
}

/// Build the entry of a calibration table.
pub fn table_doc(sym: &SymbolRecord, anchor: String) -> (d: TableDoc)
    ensures
        table_doc_ok(d, *sym),
        d.anchor == anchor,
{
    let (axes, output_unit) = match &sym.table_meta {
        Some(m) => (copy_axes(&m.axes), copy_opt(&m.output_unit)),
        None => (Vec::new(), None),
    };
    TableDoc { path: sym.path.clone(), anchor, axes, output_unit, def_line: sym.def_line }
}

/// The paths of the symbols at the given indices.
pub open spec fn paths_at(t: ProjectSymbols, ix: Seq<usize>) -> Seq<Seq<char>> {
    ix.map_values(|i: usize| t.symbols@[i as int].path@)
}

/// `d` documents object `sym` (all but its anchor): its class and the sorted
/// paths of its immediate members.
pub open spec fn object_doc_ok(d: ObjectDoc, sym: SymbolRecord, t: ProjectSymbols) -> bool {
    &&& d.path == sym.path
    &&& d.class == sym.class
    &&& views(d.members@) == sort_texts(paths_at(t, sym.children@))
    &&& d.def_line == sym.def_line
}

/// Build the entry of a package-class object.
pub fn object_doc(sym: &SymbolRecord, t: &ProjectSymbols, anchor: String) -> (d: ObjectDoc)
    requires
        forall|k: int| 0 <= k < sym.children@.len() ==> #[trigger] sym.children@[k] < t.symbols@.len(),
    ensures
        object_doc_ok(d, *sym, *t),
        d.anchor == anchor,
{
    let mut members: Vec<String> = Vec::new();
    let ghost ch = paths_at(*t, sym.children@);
    let mut i: usize = 0;
    while i < sym.children.len()
        invariant
            i <= sym.children@.len(),
            ch == paths_at(*t, sym.children@),
            forall|k: int| 0 <= k < sym.children@.len() ==> #[trigger] sym.children@[k] < t.symbols@.len(),
            views(members@) == sort_texts(ch.take(i as int)),
        decreases sym.children@.len() - i,
    {
        let c = sym.children[i];
        insert_text(&mut members, t.symbols[c].path.as_str());
        assert(ch.take(i + 1).drop_last() =~= ch.take(i as int));
        i += 1;
    }
    assert(ch.take(sym.children@.len() as int) =~= ch);
    ObjectDoc { path: sym.path.clone(), anchor, class: copy_opt(&sym.class), members, def_line: sym.def_line }
}

/// `d` documents reference `sym` with the given resolution (all but its
/// anchor): the target verbatim, empty when it declares none.
pub open spec fn reference_doc_ok(d: ReferenceDoc, sym: SymbolRecord, resolved: Option<String>) -> bool {
    &&& d.path == sym.path
    &&& d.target_raw@ == match sym.reference_target {
        Some(s) => s@,
        None => Seq::empty(),
    }
    &&& d.target_resolved == resolved
    &&& d.def_line == sym.def_line
}

/// Build the entry of a reference alias with its resolved target.
pub fn reference_doc(sym: &SymbolRecord, anchor: String, resolved: Option<String>) -> (d: ReferenceDoc)
    ensures
        reference_doc_ok(d, *sym, resolved),
        d.anchor == anchor,
{
    let target_raw = match &sym.reference_target {
        Some(s) => s.clone(),
        None => String::new(),
    };
    ReferenceDoc { path: sym.path.clone(), anchor, target_raw, target_resolved: resolved, def_line: sym.def_line }
}

} // verus!
