//! The single traversal that defines the project's deep-link set: every
//! documented entity with its own `<page>#<anchor>` link.

use crate::model::{
    spec_for_symbol, AnchoredEntity, AnchoredKind, CanMessageDoc, CanSignalDoc, DocModel, EnumDoc,
    FunctionDoc, GroupDoc, ObjectDoc, ReferenceDoc, SymbolDoc, TableDoc,
};
use vstd::prelude::*;

verus! {

/// The plain values of an [`AnchoredEntity`].
pub struct EntityView {
    pub kind: AnchoredKind,
    pub path: Seq<char>,
    pub page: Seq<char>,
    pub anchor: Seq<char>,
    pub group: Seq<char>,
    pub hint: Seq<char>,
}

impl<'a> View for AnchoredEntity<'a> {
    type V = EntityView;

    open spec fn view(&self) -> EntityView {
        EntityView {
            kind: self.kind,
            path: self.path@,
            page: self.page@,
            anchor: self.anchor@,
            group: self.group@,
            hint: self.hint@,
        }
    }
}

/// The text of an optional string, empty when absent.
pub open spec fn text_or_empty(o: Option<String>) -> Seq<char> {
    match o {
        Some(s) => s@,
        None => Seq::empty(),
    }
}

/// A symbol's hint: its display unit, else its quantity, else empty.
pub open spec fn symbol_hint(s: SymbolDoc) -> Seq<char> {
    match s.unit {
        Some(u) => u@,
        None => text_or_empty(s.quantity),
    }
}

/// The HTML page a group is documented on.
pub open spec fn group_page(g: GroupDoc) -> Seq<char> {
    g.path@ + ".html"@
}

pub open spec fn entity(kind: AnchoredKind, path: Seq<char>, page: Seq<char>, anchor: Seq<char>, group: Seq<char>, hint: Seq<char>) -> EntityView {
    EntityView { kind, path, page, anchor, group, hint }
}

pub open spec fn symbol_entities(g: GroupDoc) -> Seq<EntityView> {
    g.symbols@.map_values(|s: SymbolDoc| entity(spec_for_symbol(s.kind), s.path@, group_page(g), s.anchor@, g.path@, symbol_hint(s)))
}

pub open spec fn function_entities(g: GroupDoc) -> Seq<EntityView> {
    g.functions@.map_values(|f: FunctionDoc| entity(AnchoredKind::Function, f.path@, group_page(g), f.anchor@, g.path@, text_or_empty(f.return_type)))
}

pub open spec fn table_entities(g: GroupDoc) -> Seq<EntityView> {
    g.tables@.map_values(|t: TableDoc| entity(AnchoredKind::Table, t.path@, group_page(g), t.anchor@, g.path@, text_or_empty(t.output_unit)))
}

pub open spec fn object_entities(g: GroupDoc) -> Seq<EntityView> {
    g.objects@.map_values(|o: ObjectDoc| entity(AnchoredKind::Object, o.path@, group_page(g), o.anchor@, g.path@, text_or_empty(o.class)))
}

/// A CAN message's entity followed by one entity per signal.
pub open spec fn message_entities(g: GroupDoc, m: CanMessageDoc) -> Seq<EntityView> {
    seq![entity(AnchoredKind::CanMessage, m.path@, group_page(g), m.anchor@, g.path@, Seq::empty())]
        + m.signals@.map_values(|s: CanSignalDoc| entity(AnchoredKind::CanSignal, s.path@, group_page(g), s.anchor@, g.path@, text_or_empty(s.unit)))
}

pub open spec fn messages_entities(g: GroupDoc, ms: Seq<CanMessageDoc>) -> Seq<EntityView>
    decreases ms.len(),
{
    if ms.len() == 0 {
        Seq::empty()
    } else {
        messages_entities(g, ms.drop_last()) + message_entities(g, ms.last())
    }
}

pub open spec fn reference_entities(g: GroupDoc) -> Seq<EntityView> {
    g.references@.map_values(|r: ReferenceDoc| entity(AnchoredKind::Reference, r.path@, group_page(g), r.anchor@, g.path@, Seq::empty()))
}

/// A group's entities: symbols, functions, tables, objects, CAN messages (each
/// followed by its signals), then references — each in model order.
pub open spec fn group_entities(g: GroupDoc) -> Seq<EntityView> {
    symbol_entities(g) + function_entities(g) + table_entities(g) + object_entities(g)
        + messages_entities(g, g.can_messages@) + reference_entities(g)
}

pub open spec fn groups_entities(gs: Seq<GroupDoc>) -> Seq<EntityView>
    decreases gs.len(),
{
    if gs.len() == 0 {
        Seq::empty()
    } else {
        groups_entities(gs.drop_last()) + group_entities(gs.last())
    }
}

/// The enums, on the shared `enums.html` page under the `Enums` group.
pub open spec fn enum_entities(es: Seq<EnumDoc>) -> Seq<EntityView> {
    es.map_values(|e: EnumDoc| entity(AnchoredKind::Enum, e.name@, "enums.html"@, e.anchor@, "Enums"@, Seq::empty()))
}

/// Every anchored entity of a model, in deterministic order.
pub open spec fn model_entities(m: DocModel) -> Seq<EntityView> {
    groups_entities(m.groups@) + enum_entities(m.enums@)
}

pub open spec fn entity_views<'a>(v: Seq<AnchoredEntity<'a>>) -> Seq<EntityView> {
    v.map_values(|e: AnchoredEntity<'a>| e@)
}

fn opt_str<'a>(o: &'a Option<String>) -> (r: &'a str)
    ensures
        r@ == text_or_empty(*o),
{
    match o {
        Some(s) => s.as_str(),
        None => {
            proof {
                reveal_strlit("");
            }
            ""
        },
    }
}

fn push_entity<'a>(
    out: &mut Vec<AnchoredEntity<'a>>,
    kind: AnchoredKind,
    path: &'a str,
    page: &String,
    anchor: &'a str,
    group: &'a str,
    hint: &'a str,
)
    ensures
        entity_views(final(out)@) == entity_views(old(out)@).push(entity(kind, path@, page@, anchor@, group@, hint@)),
{
    out.push(AnchoredEntity { kind, path, page: page.clone(), anchor, group, hint });
    assert(entity_views(final(out)@) =~= entity_views(old(out)@).push(entity(kind, path@, page@, anchor@, group@, hint@)));
}

/// Append a group's entities.
fn push_group_entities<'a>(out: &mut Vec<AnchoredEntity<'a>>, g: &'a GroupDoc)
    ensures
        entity_views(final(out)@) == entity_views(old(out)@) + group_entities(*g),
{
    let mut page = String::new();
    page.append(g.path.as_str());
    page.append(".html");
    let ghost start = entity_views(out@);
    let gp = g.path.as_str();
    let mut i: usize = 0;
    while i < g.symbols.len()
        invariant
            page@ == group_page(*g),
            gp@ == g.path@,
            i <= g.symbols.len(),
            entity_views(out@) == start + symbol_entities(*g).take(i as int),
        decreases g.symbols.len() - i,
    {
        let s = &g.symbols[i];
        let hint: &str = match &s.unit {
            Some(u) => u.as_str(),
            None => opt_str(&s.quantity),
        };
        push_entity(out, AnchoredKind::for_symbol(s.kind), s.path.as_str(), &page, s.anchor.as_str(), gp, hint);
        assert(symbol_entities(*g).take(i + 1) =~= symbol_entities(*g).take(i as int).push(symbol_entities(*g)[i as int]));
        i += 1;
    }
    assert(symbol_entities(*g).take(g.symbols@.len() as int) =~= symbol_entities(*g));
    let ghost s1 = start + symbol_entities(*g);
    let mut i: usize = 0;
    while i < g.functions.len()
        invariant
            page@ == group_page(*g),
            gp@ == g.path@,
            i <= g.functions.len(),
            entity_views(out@) == s1 + function_entities(*g).take(i as int),
        decreases g.functions.len() - i,
    {
        let f = &g.functions[i];
        push_entity(out, AnchoredKind::Function, f.path.as_str(), &page, f.anchor.as_str(), gp, opt_str(&f.return_type));
        assert(function_entities(*g).take(i + 1) =~= function_entities(*g).take(i as int).push(function_entities(*g)[i as int]));
        i += 1;
    }
    assert(function_entities(*g).take(g.functions@.len() as int) =~= function_entities(*g));
    let ghost s2 = s1 + function_entities(*g);
    let mut i: usize = 0;
    while i < g.tables.len()
        invariant
            page@ == group_page(*g),
            gp@ == g.path@,
            i <= g.tables.len(),
            entity_views(out@) == s2 + table_entities(*g).take(i as int),
        decreases g.tables.len() - i,
    {
        let t = &g.tables[i];
        push_entity(out, AnchoredKind::Table, t.path.as_str(), &page, t.anchor.as_str(), gp, opt_str(&t.output_unit));
        assert(table_entities(*g).take(i + 1) =~= table_entities(*g).take(i as int).push(table_entities(*g)[i as int]));
        i += 1;
    }
    assert(table_entities(*g).take(g.tables@.len() as int) =~= table_entities(*g));
    let ghost s3 = s2 + table_entities(*g);
    let mut i: usize = 0;
    while i < g.objects.len()
        invariant
            page@ == group_page(*g),
            gp@ == g.path@,
            i <= g.objects.len(),
            entity_views(out@) == s3 + object_entities(*g).take(i as int),
        decreases g.objects.len() - i,
    {
        let o = &g.objects[i];
        push_entity(out, AnchoredKind::Object, o.path.as_str(), &page, o.anchor.as_str(), gp, opt_str(&o.class));
        assert(object_entities(*g).take(i + 1) =~= object_entities(*g).take(i as int).push(object_entities(*g)[i as int]));
        i += 1;
    }
    assert(object_entities(*g).take(g.objects@.len() as int) =~= object_entities(*g));
    let ghost s4 = s3 + object_entities(*g);
    let mut i: usize = 0;
    while i < g.can_messages.len()
        invariant
            page@ == group_page(*g),
            gp@ == g.path@,
            i <= g.can_messages.len(),
            entity_views(out@) == s4 + messages_entities(*g, g.can_messages@.take(i as int)),
        decreases g.can_messages.len() - i,
    {
        let m = &g.can_messages[i];
        let ghost before = entity_views(out@);
        push_entity(out, AnchoredKind::CanMessage, m.path.as_str(), &page, m.anchor.as_str(), gp, "");
        let ghost sigs = m.signals@.map_values(|s: CanSignalDoc| entity(AnchoredKind::CanSignal, s.path@, group_page(*g), s.anchor@, g.path@, text_or_empty(s.unit)));
        let mut j: usize = 0;
        while j < m.signals.len()
            invariant
                page@ == group_page(*g),
                gp@ == g.path@,
                j <= m.signals.len(),
                sigs == m.signals@.map_values(|s: CanSignalDoc| entity(AnchoredKind::CanSignal, s.path@, group_page(*g), s.anchor@, g.path@, text_or_empty(s.unit))),
                entity_views(out@) == before.push(entity(AnchoredKind::CanMessage, m.path@, group_page(*g), m.anchor@, g.path@, ""@)) + sigs.take(j as int),
            decreases m.signals.len() - j,
        {
            let sg = &m.signals[j];
            push_entity(out, AnchoredKind::CanSignal, sg.path.as_str(), &page, sg.anchor.as_str(), gp, opt_str(&sg.unit));
            assert(sigs.take(j + 1) =~= sigs.take(j as int).push(sigs[j as int]));
            j += 1;
        }
        proof {
            assert(sigs.take(m.signals@.len() as int) =~= sigs);
            assert(""@ =~= Seq::<char>::empty()) by {
                reveal_strlit("");
            }
            assert(g.can_messages@.take(i + 1).drop_last() =~= g.can_messages@.take(i as int));
            assert(g.can_messages@.take(i + 1).last() == *m);
            assert(entity_views(out@) =~= s4 + messages_entities(*g, g.can_messages@.take(i + 1)));
        }
        i += 1;
    }
    assert(g.can_messages@.take(g.can_messages@.len() as int) =~= g.can_messages@);
    let ghost s5 = s4 + messages_entities(*g, g.can_messages@);
    let mut i: usize = 0;
    while i < g.references.len()
        invariant
            page@ == group_page(*g),
            gp@ == g.path@,
            i <= g.references.len(),
            entity_views(out@) == s5 + reference_entities(*g).take(i as int),
        decreases g.references.len() - i,
    {
        let r = &g.references[i];
        push_entity(out, AnchoredKind::Reference, r.path.as_str(), &page, r.anchor.as_str(), gp, "");
        proof {
            assert(""@ =~= Seq::<char>::empty()) by {
                reveal_strlit("");
            }
        }
        assert(reference_entities(*g).take(i + 1) =~= reference_entities(*g).take(i as int).push(reference_entities(*g)[i as int]));
        i += 1;
    }
    assert(reference_entities(*g).take(g.references@.len() as int) =~= reference_entities(*g));
    assert(entity_views(out@) =~= start + group_entities(*g));
}

impl DocModel {
    /// Every documented entity that carries a `<page>#<anchor>` deep link, in
    /// deterministic order: groups in model order, members in their model order
    /// within each group (CAN signals immediately after their message), then
    /// the project-wide enums on the shared `enums.html` page.
    pub fn anchored_entities(&self) -> (r: Vec<AnchoredEntity<'_>>)
        ensures
            entity_views(r@) == model_entities(*self),
    {
        let mut out: Vec<AnchoredEntity<'_>> = Vec::new();
        let ghost gs = self.groups@;
        let mut gi: usize = 0;
        while gi < self.groups.len()
            invariant
                gs == self.groups@,
                gi <= gs.len(),
                entity_views(out@) == groups_entities(gs.take(gi as int)),
            decreases gs.len() - gi,
        {
            push_group_entities(&mut out, &self.groups[gi]);
            assert(gs.take(gi + 1).drop_last() =~= gs.take(gi as int));
            gi += 1;
        }
        assert(gs.take(gs.len() as int) =~= gs);
        let ghost s = groups_entities(gs);
        let mut page = String::new();
        page.append("enums.html");
        let ghost es = enum_entities(self.enums@);
        let mut ei: usize = 0;
        while ei < self.enums.len()
            invariant
                page@ == "enums.html"@,
                ei <= self.enums.len(),
                es == enum_entities(self.enums@),
                entity_views(out@) == s + es.take(ei as int),
            decreases self.enums.len() - ei,
        {
            let e = &self.enums[ei];
            push_entity(&mut out, AnchoredKind::Enum, e.name.as_str(), &page, e.anchor.as_str(), "Enums", "");
            proof {
                assert(""@ =~= Seq::<char>::empty()) by {
                    reveal_strlit("");
                }
            }
            assert(es.take(ei + 1) =~= es.take(ei as int).push(es[ei as int]));
            ei += 1;
        }
        assert(es.take(self.enums@.len() as int) =~= es);
        out
    }
}

} // verus!
