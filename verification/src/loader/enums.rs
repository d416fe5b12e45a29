//! The project-wide Enums reference: every enum type a symbol refers to, once
//! per name, sorted by name, with members by value.
use super::anchors::{
    anchored_after, lemma_anchor_step, lemma_anchored_from_start, lemma_unique_anchors_distinct, next_anchor,
    unique_anchors,
};
use super::docs::copy_opt;
use super::{symbols_wf, EnumTypeRecord, ProjectSymbols};
use crate::model::{EnumDoc, EnumMemberDoc};
use crate::strset::{insert_sorted, strictly_sorted, views};
use crate::text::{lemma_map_push, seq_lt, str_eq, str_lt};
use vstd::prelude::*;

verus! {

/// The name of the enum type of symbol `i`, when it has one.
pub open spec fn enum_name_at(t: ProjectSymbols, i: int) -> Option<Seq<char>> {
    match t.symbols@[i].enum_assoc {
        Some(id) => Some(t.enum_types@[id as int].name@),
        None => None,
    }
}

/// Whether `x` names the enum type of some symbol.
pub open spec fn is_enum_name(t: ProjectSymbols, x: Seq<char>) -> bool {
    exists|i: int| 0 <= i < t.symbols@.len() && #[trigger] enum_name_at(t, i) == Some(x)
}

/// Whether symbol `i` is the first in table order whose enum type is named `x`.
pub open spec fn first_named(t: ProjectSymbols, i: int, x: Seq<char>) -> bool {
    &&& 0 <= i < t.symbols@.len()
    &&& enum_name_at(t, i) == Some(x)
    &&& forall|j: int| 0 <= j < i ==> #[trigger] enum_name_at(t, j) != Some(x)
}

/// `a` sorts before `b`: by value, then by name.
pub open spec fn member_lt(a: (String, i64), b: (String, i64)) -> bool {
    a.1 < b.1 || (a.1 == b.1 && seq_lt(a.0@, b.0@))
}

/// `x` inserted into the ordered `s` after every member not sorting after it.
pub open spec fn ins_member(s: Seq<(String, i64)>, x: (String, i64)) -> Seq<(String, i64)>
    decreases s.len(),
{
    if s.len() == 0 {
        Seq::empty().push(x)
    } else if member_lt(x, s.last()) {
        ins_member(s.drop_last(), x).push(s.last())
    } else {
        s.push(x)
    }
}

/// Members in stable order by value, then name.
pub open spec fn sort_members(s: Seq<(String, i64)>) -> Seq<(String, i64)>
    decreases s.len(),
{
    if s.len() == 0 {
        s
    } else {
        ins_member(sort_members(s.drop_last()), s.last())
    }
}

/// The members of an entry as `(name, value)` pairs.
pub open spec fn member_pairs(ms: Seq<EnumMemberDoc>) -> Seq<(String, i64)> {
    ms.map_values(|m: EnumMemberDoc| (m.name, m.value))
}

/// The names of a list of enum entries.
pub open spec fn enum_names(enums: Seq<EnumDoc>) -> Seq<Seq<char>> {
    enums.map_values(|e: EnumDoc| e.name@)
}

/// The anchors of a list of enum entries.
pub open spec fn enum_anchors(enums: Seq<EnumDoc>) -> Seq<Seq<char>> {
    enums.map_values(|e: EnumDoc| e.anchor@)
}

/// `e` documents enum type `et` (all but its anchor).
pub open spec fn enum_doc_ok(e: EnumDoc, et: EnumTypeRecord) -> bool {
    &&& e.name == et.name
    &&& member_pairs(e.members@) == sort_members(et.members@)
    &&& e.default == et.default
    &&& e.open == et.open
}

/// `e` documents the enum type of the first symbol whose enum type has its name.
pub open spec fn documents_first(t: ProjectSymbols, e: EnumDoc) -> bool {
    exists|i: int| first_named(t, i, e.name@) && enum_doc_ok(e, t.enum_types@[t.symbols@[i].enum_assoc.unwrap() as int])
}

/// `enums` is the Enums reference of `t`: one entry per enum name, sorted by
/// name, each documenting the type of the first symbol that names it, with
/// pairwise distinct anchors on the page.
pub open spec fn enums_ok(enums: Seq<EnumDoc>, t: ProjectSymbols) -> bool {
    let names = enum_names(enums);
    &&& strictly_sorted(names)
    &&& forall|x: Seq<char>| #[trigger] names.contains(x) <==> is_enum_name(t, x)
    &&& forall|k: int| 0 <= k < enums.len() ==> documents_first(t, #[trigger] enums[k])
    &&& enum_anchors(enums) == unique_anchors(names)
    &&& forall|i: int, j: int|
        0 <= i < j < enums.len() ==> #[trigger] enum_anchors(enums)[i] != #[trigger] enum_anchors(enums)[j]
}

proof fn lemma_ins_member_at(s: Seq<(String, i64)>, x: (String, i64), pos: int)
    requires
        0 <= pos <= s.len(),
        forall|k: int| pos <= k < s.len() ==> member_lt(x, #[trigger] s[k]),
        pos == 0 || !member_lt(x, s[pos - 1]),
    ensures
        ins_member(s, x) == s.take(pos).push(x) + s.skip(pos),
    decreases s.len(),
{
    if s.len() == 0 {
        assert(s.take(pos).push(x) + s.skip(pos) =~= Seq::empty().push(x));
    } else if pos == s.len() {
        assert(s.take(pos).push(x) + s.skip(pos) =~= s.push(x));
    } else {
        assert(member_lt(x, s[s.len() - 1]));
        let d = s.drop_last();
        assert forall|k: int| pos <= k < d.len() implies member_lt(x, #[trigger] d[k]) by {
            assert(d[k] == s[k]);
        }
        if pos > 0 {
            assert(d[pos - 1] == s[pos - 1]);
        }
        lemma_ins_member_at(d, x, pos);
        assert((d.take(pos).push(x) + d.skip(pos)).push(s.last()) =~= s.take(pos).push(x) + s.skip(pos));
    }
}

fn goes_before(name: &String, value: i64, m: &EnumMemberDoc) -> (r: bool)
    ensures
        r == member_lt((*name, value), (m.name, m.value)),
{
    value < m.value || (value == m.value && str_lt(name.as_str(), m.name.as_str()))
}

/// The members of `et`, by value and then by name.
fn sorted_members(et: &EnumTypeRecord) -> (r: Vec<EnumMemberDoc>)
    ensures
        member_pairs(r@) == sort_members(et.members@),
{
    let ms = &et.members;
    let mut out: Vec<EnumMemberDoc> = Vec::new();
    let mut i: usize = 0;
    while i < ms.len()
        invariant
            i <= ms@.len(),
            member_pairs(out@) == sort_members(ms@.take(i as int)),
        decreases ms@.len() - i,
    {
        let name = &ms[i].0;
        let value = ms[i].1;
        let ghost x = (*name, value);
        let ghost before = member_pairs(out@);
        let mut pos: usize = out.len();
        while pos > 0 && goes_before(name, value, &out[pos - 1])
            invariant
                before == member_pairs(out@),
                x == (*name, value),
                pos <= out@.len(),
                forall|k: int| pos <= k < before.len() ==> member_lt(x, #[trigger] before[k]),
            decreases pos,
        {
            assert(before[pos - 1] == (out@[pos - 1].name, out@[pos - 1].value));
            pos -= 1;
        }
        proof {
            if pos > 0 {
                assert(before[pos - 1] == (out@[pos - 1].name, out@[pos - 1].value));
            }
            lemma_ins_member_at(before, x, pos as int);
            assert(ms@.take(i + 1).drop_last() =~= ms@.take(i as int));
            assert(ms@.take(i + 1).last() == x);
        }
        let ghost old_out = out@;
        out.insert(pos, EnumMemberDoc { name: name.clone(), value });
        proof {
            assert(member_pairs(out@) =~= before.take(pos as int).push(x) + before.skip(pos as int));
        }
        i += 1;
    }
    assert(ms@.take(ms@.len() as int) =~= ms@);
    out
}

/// The index of the first symbol whose enum type is named `name`.
fn first_with_name(t: &ProjectSymbols, name: &str) -> (r: usize)
    requires
        symbols_wf(*t),
        is_enum_name(*t, name@),
    ensures
        first_named(*t, r as int, name@),
        t.symbols@[r as int].enum_assoc.is_some(),
        t.symbols@[r as int].enum_assoc.unwrap() < t.enum_types@.len(),
{
    let mut i: usize = 0;
    while i < t.symbols.len()
        invariant
            i <= t.symbols@.len(),
            symbols_wf(*t),
            is_enum_name(*t, name@),
            forall|j: int| 0 <= j < i ==> #[trigger] enum_name_at(*t, j) != Some(name@),
        decreases t.symbols@.len() - i,
    {
        match t.symbols[i].enum_assoc {
            Some(id) => {
                assert(id < t.enum_types@.len());
                if str_eq(t.enum_types[id].name.as_str(), name) {
                    return i;
                }
            },
            None => {},
        }
        i += 1;
    }
    proof {
        let j = choose|j: int| 0 <= j < t.symbols@.len() && #[trigger] enum_name_at(*t, j) == Some(name@);
        assert(enum_name_at(*t, j) != Some(name@));
    }
    0
}

/// Collect every enum type referred to by a symbol into the sorted, deduped
/// Enums reference; anchors are kept unique within that page.
pub fn collect_enums(t: &ProjectSymbols) -> (r: Vec<EnumDoc>)
    requires
        symbols_wf(*t),
    ensures
        enums_ok(r@, *t),
{
    let mut names: Vec<String> = Vec::new();
    let mut i: usize = 0;
    while i < t.symbols.len()
        invariant
            i <= t.symbols@.len(),
            symbols_wf(*t),
            strictly_sorted(views(names@)),
            forall|x: Seq<char>| #[trigger] views(names@).contains(x) <==> exists|j: int|
                0 <= j < i && #[trigger] enum_name_at(*t, j) == Some(x),
        decreases t.symbols@.len() - i,
    {
        match t.symbols[i].enum_assoc {
            Some(id) => {
                assert(id < t.enum_types@.len());
                insert_sorted(&mut names, t.enum_types[id].name.as_str());
            },
            None => {},
        }
        proof {
            assert forall|x: Seq<char>| #[trigger] views(names@).contains(x) <==> exists|j: int|
                0 <= j < i + 1 && #[trigger] enum_name_at(*t, j) == Some(x) by {
                if enum_name_at(*t, i as int) == Some(x) {
                    assert(views(names@).contains(x));
                }
            }
        }
        i += 1;
    }
    let ghost nv = views(names@);
    let mut seen: Vec<String> = Vec::new();
    let mut out: Vec<EnumDoc> = Vec::new();
    let mut k: usize = 0;
    let ghost mut firsts: Seq<int> = Seq::empty();
    proof {
        assert(views(seen@) =~= Seq::<Seq<char>>::empty() + enum_anchors(out@));
    }
    while k < names.len()
        invariant
            nv == views(names@),
            symbols_wf(*t),
            strictly_sorted(nv),
            forall|x: Seq<char>| #[trigger] nv.contains(x) <==> is_enum_name(*t, x),
            k <= nv.len(),
            out@.len() == k,
            enum_names(out@) == nv.take(k as int),
            firsts.len() == k,
            forall|m: int|
                0 <= m < k ==> first_named(*t, #[trigger] firsts[m], out@[m].name@) && enum_doc_ok(
                    out@[m],
                    t.enum_types@[t.symbols@[firsts[m]].enum_assoc.unwrap() as int],
                ),
            anchored_after(Seq::empty(), nv.take(k as int), enum_anchors(out@)),
            views(seen@) == Seq::<Seq<char>>::empty() + enum_anchors(out@),
        decreases nv.len() - k,
    {
        assert(nv.contains(nv[k as int]));
        let at = first_with_name(t, names[k].as_str());
        let et = &t.enum_types[t.symbols[at].enum_assoc.unwrap()];
        let ghost q = nv.take(k as int);
        let ghost a = enum_anchors(out@);
        let anchor = next_anchor(&mut seen, names[k].as_str());
        proof {
            lemma_anchor_step(Seq::empty(), q, a, nv[k as int], anchor@);
            assert(nv.take(k + 1) =~= q.push(nv[k as int]));
        }
        let e = EnumDoc {
            name: et.name.clone(),
            anchor,
            members: sorted_members(et),
            default: copy_opt(&et.default),
            open: et.open,
        };
        let ghost old_out = out@;
        out.push(e);
        proof {
            lemma_map_push(old_out, e, |e: EnumDoc| e.name@);
            assert(enum_names(out@) == enum_names(old_out).push(e.name@));
            lemma_map_push(old_out, e, |e: EnumDoc| e.anchor@);
            assert(enum_anchors(out@) == enum_anchors(old_out).push(e.anchor@));
            assert(out@[k as int] == e);
            assert(enum_doc_ok(out@[k as int], t.enum_types@[t.symbols@[at as int].enum_assoc.unwrap() as int]));
            firsts = firsts.push(at as int);
            assert forall|m: int|
                0 <= m < k + 1 implies first_named(*t, #[trigger] firsts[m], out@[m].name@) && enum_doc_ok(
                    out@[m],
                    t.enum_types@[t.symbols@[firsts[m]].enum_assoc.unwrap() as int],
                ) by {
                if m < k {
                    assert(out@[m] == old_out[m]);
                }
            }
        }
        k += 1;
    }
    proof {
        assert(nv.take(nv.len() as int) =~= nv);
        assert forall|m: int| 0 <= m < out@.len() implies documents_first(*t, #[trigger] out@[m]) by {
            assert(first_named(*t, firsts[m], out@[m].name@));
        }
        lemma_anchored_from_start(nv, enum_anchors(out@));
        assert(enum_names(out@) == nv);
        lemma_unique_anchors_distinct(nv);
    }
    out
}

} // verus!
