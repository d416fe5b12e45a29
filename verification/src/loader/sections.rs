//! Which records land on a group page, in which section, and in what order.
use super::order::{in_table, insert_index, lemma_ins_all, lemma_sort_contains, sort_keys};
use super::{doc_kind_of, is_can_message, is_can_message_spec, is_can_signal, is_can_signal_spec, is_function_kind, ProjectSymbols, SymbolRecord, SymbolRecordKind, symbols_wf};
use crate::path::{parent_group, parent_of};
use crate::text::str_eq;
use vstd::prelude::*;

verus! {

/// The sections of a group page that hold documented entries.
#[derive(Debug, Clone, Copy, PartialEq, Eq)]
pub enum Section {
    Symbols,
    Functions,
    Tables,
    Objects,
    CanMessages,
    References,
}

/// Whether a record belongs to a section (CAN signals excepted, which are
/// documented inside their message).
pub open spec fn in_section(sym: SymbolRecord, s: Section) -> bool {
    match s {
        Section::Symbols => doc_kind_of(sym.kind).is_some(),
        Section::Functions => is_function_kind(sym.kind),
        Section::Tables => sym.kind == SymbolRecordKind::Table,
        Section::Objects => sym.kind == SymbolRecordKind::Object && !is_can_message_spec(sym),
        Section::CanMessages => sym.kind == SymbolRecordKind::Object && is_can_message_spec(sym),
        Section::References => sym.kind == SymbolRecordKind::Reference,
    }
}

/// Whether a record sits in section `s` of the page of group `p`: it is not a
/// CAN signal, its parent path is `p`, and its kind is that of the section.
pub open spec fn placed_in(sym: SymbolRecord, p: Seq<char>, s: Section) -> bool {
    &&& !is_can_signal_spec(sym)
    &&& parent_of(sym.path@) == p
    &&& in_section(sym, s)
}

/// The indices among the first `n` records that sit in section `s` of the page
/// of `p`, in table order.
pub open spec fn placed(t: ProjectSymbols, p: Seq<char>, s: Section, n: int) -> Seq<usize>
    decreases n,
{
    if n <= 0 {
        Seq::empty()
    } else if placed_in(t.symbols@[n - 1], p, s) {
        placed(t, p, s, n - 1).push((n - 1) as usize)
    } else {
        placed(t, p, s, n - 1)
    }
}

/// The records of section `s` of the page of `p`, ordered by path (ties in
/// table order).
pub open spec fn section_order(t: ProjectSymbols, p: Seq<char>, s: Section) -> Seq<usize> {
    sort_keys(t, placed(t, p, s, t.symbols@.len() as int), false)
}

/// The CAN signals among `children`, in the order given.
pub open spec fn signal_children(t: ProjectSymbols, children: Seq<usize>) -> Seq<usize>
    decreases children.len(),
{
    if children.len() == 0 {
        Seq::empty()
    } else if is_can_signal_spec(t.symbols@[children.last() as int]) {
        signal_children(t, children.drop_last()).push(children.last())
    } else {
        signal_children(t, children.drop_last())
    }
}

/// The signals of message `j`, in frame order: by start bit, then by path.
pub open spec fn signal_order(t: ProjectSymbols, j: int) -> Seq<usize> {
    sort_keys(t, signal_children(t, t.symbols@[j].children@), true)
}

pub(crate) fn section_of(sym: &SymbolRecord, s: Section) -> (r: bool)
    ensures
        r == in_section(*sym, s),
{
    match s {
        Section::Symbols => match sym.kind {
            SymbolRecordKind::Channel | SymbolRecordKind::Parameter | SymbolRecordKind::Constant => true,
            _ => false,
        },
        Section::Functions => match sym.kind {
            SymbolRecordKind::Function | SymbolRecordKind::Method => true,
            _ => false,
        },
        Section::Tables => match sym.kind {
            SymbolRecordKind::Table => true,
            _ => false,
        },
        Section::Objects => match sym.kind {
            SymbolRecordKind::Object => !is_can_message(sym),
            _ => false,
        },
        Section::CanMessages => match sym.kind {
            SymbolRecordKind::Object => is_can_message(sym),
            _ => false,
        },
        Section::References => match sym.kind {
            SymbolRecordKind::Reference => true,
            _ => false,
        },
    }
}

/// Whether record `sym` sits in section `s` of the page of `p`.
pub fn is_placed(sym: &SymbolRecord, p: &str, s: Section) -> (r: bool)
    ensures
        r == placed_in(*sym, p@, s),
{
    if is_can_signal(sym) {
        return false;
    }
    let parent = parent_group(sym.path.as_str());
    str_eq(parent.as_str(), p) && section_of(sym, s)
}

/// The indices of section `s` of the page of `p`, in page order.
pub fn section_indices(t: &ProjectSymbols, p: &str, s: Section) -> (r: Vec<usize>)
    ensures
        r@ == section_order(*t, p@, s),
        in_table(*t, r@),
        forall|k: int| 0 <= k < r@.len() ==> placed_in(t.symbols@[#[trigger] r@[k] as int], p@, s),
{
    let mut v: Vec<usize> = Vec::new();
    let mut i: usize = 0;
    while i < t.symbols.len()
        invariant
            i <= t.symbols@.len(),
            v@ == sort_keys(*t, placed(*t, p@, s, i as int), false),
            in_table(*t, v@),
            forall|k: int| 0 <= k < v@.len() ==> placed_in(t.symbols@[#[trigger] v@[k] as int], p@, s),
        decreases t.symbols@.len() - i,
    {
        if is_placed(&t.symbols[i], p, s) {
            proof {
                lemma_ins_all(*t, v@, i, false, |x: usize| placed_in(t.symbols@[x as int], p@, s));
            }
            insert_index(t, &mut v, i, false);
            assert(placed(*t, p@, s, i + 1).drop_last() == placed(*t, p@, s, i as int));
        }
        i += 1;
    }
    v
}

/// The indices of the signals of message `j`, in frame order.
pub fn signal_indices(t: &ProjectSymbols, j: usize) -> (r: Vec<usize>)
    requires
        j < t.symbols@.len(),
        symbols_wf(*t),
    ensures
        r@ == signal_order(*t, j as int),
        in_table(*t, r@),
{
    let children = &t.symbols[j].children;
    let ghost ch = children@;
    let mut v: Vec<usize> = Vec::new();
    let mut k: usize = 0;
    while k < children.len()
        invariant
            ch == children@,
            ch == t.symbols@[j as int].children@,
            j < t.symbols@.len(),
            symbols_wf(*t),
            k <= ch.len(),
            v@ == sort_keys(*t, signal_children(*t, ch.take(k as int)), true),
            in_table(*t, v@),
        decreases ch.len() - k,
    {
        let c = children[k];
        assert(c < t.symbols@.len());
        assert(ch.take(k + 1).drop_last() =~= ch.take(k as int));
        assert(ch.take(k + 1).last() == c);
        if is_can_signal(&t.symbols[c]) {
            insert_index(t, &mut v, c, true);
            assert(signal_children(*t, ch.take(k + 1)).drop_last() == signal_children(*t, ch.take(k as int)));
        }
        k += 1;
    }
    assert(ch.take(ch.len() as int) =~= ch);
    v
}

/// A record placed in a section is among that section's indices.
pub proof fn lemma_placed_contains(t: ProjectSymbols, p: Seq<char>, s: Section, n: int, i: int)
    requires
        0 <= i < n,
        placed_in(t.symbols@[i], p, s),
    ensures
        placed(t, p, s, n).contains(i as usize),
    decreases n,
{
    let q = placed(t, p, s, n);
    if i == n - 1 {
        assert(q.last() == i as usize);
        assert(q[q.len() - 1] == i as usize);
    } else {
        lemma_placed_contains(t, p, s, n - 1, i);
        let r = placed(t, p, s, n - 1);
        let k = choose|k: int| 0 <= k < r.len() && r[k] == i as usize;
        if placed_in(t.symbols@[n - 1], p, s) {
            assert(q[k] == i as usize);
        }
    }
}

/// Every index in a section's list sits in that section.
pub proof fn lemma_placed_elements(t: ProjectSymbols, p: Seq<char>, s: Section, n: int, x: usize)
    requires
        placed(t, p, s, n).contains(x),
        n <= t.symbols@.len(),
    ensures
        placed_in(t.symbols@[x as int], p, s),
        x < n,
    decreases n,
{
    let q = placed(t, p, s, n);
    assert(t.symbols@.len() == t.symbols.len());
    if n > 0 {
        assert(((n - 1) as usize) as int == n - 1);
        let r = placed(t, p, s, n - 1);
        let k = choose|k: int| 0 <= k < q.len() && q[k] == x;
        if placed_in(t.symbols@[n - 1], p, s) {
            if k < r.len() {
                assert(r[k] == x);
                lemma_placed_elements(t, p, s, n - 1, x);
            }
        } else {
            lemma_placed_elements(t, p, s, n - 1, x);
        }
    }
}

/// The entry at position `j` of a section's order is a record placed in it.
pub proof fn lemma_section_member(t: ProjectSymbols, p: Seq<char>, s: Section, j: int)
    requires
        0 <= j < section_order(t, p, s).len(),
    ensures
        placed_in(t.symbols@[section_order(t, p, s)[j] as int], p, s),
{
    let o = section_order(t, p, s);
    let n = t.symbols@.len() as int;
    assert(o.contains(o[j]));
    lemma_sort_contains(t, placed(t, p, s, n), false, o[j]);
    lemma_placed_elements(t, p, s, n, o[j]);
}

} // verus!
