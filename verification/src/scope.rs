//! Scoped generation: narrow a [`DocModel`] to the symbols at some security
//! levels and/or carrying a tag, keeping the group tree navigable.

use crate::model::{DocModel, EnumDoc, GroupDoc, SymbolDoc};
use crate::strset::{contains_str, insert_sorted, strictly_sorted, views};
use crate::text::{chars_of, is_empty_str, is_white_space, is_white_space_exec, lemma_map_push, string_from_chars, trim_end_ws};
use vstd::prelude::*;

verus! {

/// The symbol's security level is one of `levels` (any level when `None`).
pub open spec fn security_ok(s: SymbolDoc, levels: Option<Seq<String>>) -> bool {
    match levels {
        Some(l) => s.security is Some && views(l).contains(s.security->0@),
        None => true,
    }
}

/// The symbol carries `tag` (any symbol when `None`).
pub open spec fn tag_ok(s: SymbolDoc, tag: Option<Seq<char>>) -> bool {
    match tag {
        Some(t) => views(s.tags@).contains(t),
        None => true,
    }
}

/// A symbol kept by a scoped view: it satisfies both filters.
pub open spec fn keeps(s: SymbolDoc, levels: Option<Seq<String>>, tag: Option<Seq<char>>) -> bool {
    security_ok(s, levels) && tag_ok(s, tag)
}

/// Some symbol of the group is kept.
pub open spec fn survives(g: GroupDoc, levels: Option<Seq<String>>, tag: Option<Seq<char>>) -> bool {
    exists|i: int| 0 <= i < g.symbols@.len() && keeps(#[trigger] g.symbols@[i], levels, tag)
}

/// `p` is the part of `q` before one of its dots (an ancestor group path).
pub open spec fn dot_prefix(p: Seq<char>, q: Seq<char>) -> bool {
    exists|i: int| 0 <= i < q.len() && q[i] == '.' && #[trigger] q.take(i) == p
}

/// The group path `p` stays in the scoped view: it is the path of a group with
/// a kept symbol, or an ancestor of one.
pub open spec fn scoped_path(gs: Seq<GroupDoc>, levels: Option<Seq<String>>, tag: Option<Seq<char>>, p: Seq<char>) -> bool {
    exists|k: int| 0 <= k < gs.len() && survives(#[trigger] gs[k], levels, tag)
        && (gs[k].path@ == p || dot_prefix(p, gs[k].path@))
}

/// Some kept symbol is of enum type `name`.
pub open spec fn enum_used(gs: Seq<GroupDoc>, levels: Option<Seq<String>>, tag: Option<Seq<char>>, name: Seq<char>) -> bool {
    exists|k: int, i: int| 0 <= k < gs.len() && 0 <= i < gs[k].symbols@.len()
        && keeps(#[trigger] gs[k].symbols@[i], levels, tag)
        && gs[k].symbols@[i].enum_ref is Some && gs[k].symbols@[i].enum_ref->0@ == name
}

pub open spec fn opt_levels(security: Option<&[String]>) -> Option<Seq<String>> {
    match security {
        Some(l) => Some(l@),
        None => None,
    }
}

pub open spec fn opt_tag(tag: Option<&str>) -> Option<Seq<char>> {
    match tag {
        Some(t) => Some(t@),
        None => None,
    }
}

/// Whether `v` holds a string with the characters of `s`.
fn slice_contains(v: &[String], s: &str) -> (r: bool)
    ensures
        r == views(v@).contains(s@),
{
    let mut i: usize = 0;
    while i < v.len()
        invariant
            i <= v@.len(),
            forall|k: int| 0 <= k < i ==> views(v@)[k] != s@,
        decreases v@.len() - i,
    {
        if crate::text::str_eq(v[i].as_str(), s) {
            assert(views(v@)[i as int] == s@);
            return true;
        }
        i += 1;
    }
    proof {
        if views(v@).contains(s@) {
            let k = choose|k: int| 0 <= k < views(v@).len() && views(v@)[k] == s@;
            assert(views(v@)[k] != s@);
        }
    }
    false
}

/// Whether a scoped view keeps the symbol.
pub fn keep_symbol(s: &SymbolDoc, security: Option<&[String]>, tag: Option<&str>) -> (r: bool)
    ensures
        r == keeps(*s, opt_levels(security), opt_tag(tag)),
{
    let sec_ok = match security {
        Some(levels) => match &s.security {
            Some(sec) => slice_contains(levels, sec.as_str()),
            None => false,
        },
        None => true,
    };
    let tag_ok = match tag {
        Some(t) => contains_str(&s.tags, t),
        None => true,
    };
    sec_ok && tag_ok
}

/// The symbols a scoped view keeps, in order.
fn filter_symbols(syms: Vec<SymbolDoc>, security: Option<&[String]>, tag: Option<&str>) -> (r: Vec<SymbolDoc>)
    ensures
        r@ == syms@.filter(|s: SymbolDoc| keeps(s, opt_levels(security), opt_tag(tag))),
{
    let ghost pred = |s: SymbolDoc| keeps(s, opt_levels(security), opt_tag(tag));
    let ghost all = syms@;
    let mut out: Vec<SymbolDoc> = Vec::new();
    for s in it: syms.into_iter()
        invariant
            pred == (|s: SymbolDoc| keeps(s, opt_levels(security), opt_tag(tag))),
            it.seq() == all,
            out@ == all.take(it.index() as int).filter(pred),
    {
        proof {
            assert(all.take(it.index() + 1) =~= all.take(it.index() as int).push(s));
            all.take(it.index() as int).lemma_filter_push(s, pred);
        }
        if keep_symbol(&s, security, tag) {
            out.push(s);
        }
    }
    assert(all.take(all.len() as int) =~= all);
    out
}

/// Add `path` and every ancestor path (each part before one of its dots).
fn add_with_ancestors(kept: &mut Vec<String>, path: &str)
    requires
        strictly_sorted(views(old(kept)@)),
    ensures
        strictly_sorted(views(final(kept)@)),
        forall|x: Seq<char>| #[trigger] views(final(kept)@).contains(x)
            <==> (views(old(kept)@).contains(x) || x == path@ || dot_prefix(x, path@)),
{
    insert_sorted(kept, path);
    let v = chars_of(path);
    let mut i: usize = 0;
    while i < v.len()
        invariant
            v@ == path@,
            i <= v.len(),
            strictly_sorted(views(kept@)),
            forall|x: Seq<char>| #[trigger] views(kept@).contains(x)
                <==> (views(old(kept)@).contains(x) || x == path@
                    || exists|j: int| 0 <= j < i && path@[j] == '.' && #[trigger] path@.take(j) == x),
        decreases v.len() - i,
    {
        if v[i] == '.' {
            let prefix = string_from_chars(&v, 0, i);
            assert(prefix@ =~= path@.take(i as int));
            insert_sorted(kept, prefix.as_str());
        }
        i += 1;
    }
}

impl DocModel {
    /// Scope the model in place to only the symbols matching `security` (any of
    /// the given access levels) and/or `tag`. When both are given a symbol must
    /// satisfy both; `None` leaves that axis unconstrained. Functions, tables,
    /// objects and CAN messages are dropped; groups with no kept symbol are
    /// pruned, but every ancestor of a kept group stays; child links and the
    /// enum reference list are rebuilt to match. Order is preserved.
    pub fn retain_scoped(&mut self, security: Option<&[String]>, tag: Option<&str>)
        ensures
            ({
                let gs = old(self).groups@;
                let lv = opt_levels(security);
                let tg = opt_tag(tag);
                let kept = gs.filter(|g: GroupDoc| scoped_path(gs, lv, tg, g.path@));
                &&& final(self).groups@.len() == kept.len()
                &&& forall|i: int| 0 <= i < kept.len() ==> {
                    let f = #[trigger] final(self).groups@[i];
                    let o = kept[i];
                    &&& f.path == o.path
                    &&& f.symbols@ == o.symbols@.filter(|s: SymbolDoc| keeps(s, lv, tg))
                    &&& f.functions@.len() == 0
                    &&& f.tables@.len() == 0
                    &&& f.objects@.len() == 0
                    &&& f.can_messages@.len() == 0
                    &&& f.references == o.references
                    &&& f.children@ == o.children@.filter(|c: String| scoped_path(gs, lv, tg, c@))
                }
                &&& final(self).enums@ == old(self).enums@.filter(|e: EnumDoc| enum_used(gs, lv, tg, e.name@))
            }),
            final(self).title == old(self).title,
            final(self).target_hardware == old(self).target_hardware,
            final(self).graph == old(self).graph,
            final(self).m1prj_path == old(self).m1prj_path,
    {
        let ghost gs = self.groups@;
        let ghost lv = opt_levels(security);
        let ghost tg = opt_tag(tag);
        let ghost spred = |s: SymbolDoc| keeps(s, lv, tg);
        // 1. Keep only matching symbols; a scoped view drops non-symbol entities.
        let mut old_groups: Vec<GroupDoc> = Vec::new();
        std::mem::swap(&mut old_groups, &mut self.groups);
        let mut filtered: Vec<GroupDoc> = Vec::new();
        for g in it: old_groups.into_iter()
            invariant
                it.seq() == gs,
                spred == (|s: SymbolDoc| keeps(s, lv, tg)),
                lv == opt_levels(security),
                tg == opt_tag(tag),
                filtered@.len() == it.index(),
                forall|i: int| 0 <= i < it.index() ==> {
                    let f = #[trigger] filtered@[i];
                    &&& f.path == gs[i].path
                    &&& f.symbols@ == gs[i].symbols@.filter(spred)
                    &&& f.functions@.len() == 0
                    &&& f.tables@.len() == 0
                    &&& f.objects@.len() == 0
                    &&& f.can_messages@.len() == 0
                    &&& f.references == gs[i].references
                    &&& f.children == gs[i].children
                },
        {
            let GroupDoc { path, symbols, functions: _, tables: _, objects: _, can_messages: _, references, children } = g;
            let kept_symbols = filter_symbols(symbols, security, tag);
            filtered.push(GroupDoc {
                path,
                symbols: kept_symbols,
                functions: Vec::new(),
                tables: Vec::new(),
                objects: Vec::new(),
                can_messages: Vec::new(),
                references,
                children,
            });
        }
        // 2. A group path is kept if the group has a kept symbol, or is an
        //    ancestor of one.
        let mut kept: Vec<String> = Vec::new();
        let mut i: usize = 0;
        while i < filtered.len()
            invariant
                filtered@.len() == gs.len(),
                spred == (|s: SymbolDoc| keeps(s, lv, tg)),
                forall|k: int| 0 <= k < gs.len() ==> {
                    let f = #[trigger] filtered@[k];
                    &&& f.path == gs[k].path
                    &&& f.symbols@ == gs[k].symbols@.filter(spred)
                },
                i <= gs.len(),
                strictly_sorted(views(kept@)),
                forall|x: Seq<char>| #[trigger] views(kept@).contains(x)
                    <==> scoped_path(gs.take(i as int), lv, tg, x),
            decreases gs.len() - i,
        {
            let ghost g = gs[i as int];
            proof {
                let fs = g.symbols@.filter(spred);
                assert(filtered@[i as int].symbols@ == fs);
                if survives(g, lv, tg) {
                    let j = choose|j: int| 0 <= j < g.symbols@.len() && keeps(#[trigger] g.symbols@[j], lv, tg);
                    g.symbols@.lemma_filter_contains(spred, j);
                }
                if fs.len() > 0 {
                    g.symbols@.lemma_filter_pred(spred, 0);
                    let j = choose|j: int| 0 <= j < g.symbols@.len() && g.symbols@[j] == fs[0];
                    g.symbols@.lemma_filter_contains_rev(spred, fs[0]);
                }
            }
            if filtered[i].symbols.len() > 0 {
                add_with_ancestors(&mut kept, filtered[i].path.as_str());
            }
            proof {
                let pre = gs.take(i as int);
                let nxt = gs.take(i + 1);
                assert(nxt =~= pre.push(g));
                assert forall|x: Seq<char>| #[trigger] views(kept@).contains(x) <==> scoped_path(nxt, lv, tg, x) by {
                    if scoped_path(pre, lv, tg, x) {
                        let k = choose|k: int| 0 <= k < pre.len() && survives(#[trigger] pre[k], lv, tg)
                            && (pre[k].path@ == x || dot_prefix(x, pre[k].path@));
                        assert(nxt[k] == pre[k]);
                    }
                    if scoped_path(nxt, lv, tg, x) {
                        let k = choose|k: int| 0 <= k < nxt.len() && survives(#[trigger] nxt[k], lv, tg)
                            && (nxt[k].path@ == x || dot_prefix(x, nxt[k].path@));
                        if k < pre.len() {
                            assert(pre[k] == nxt[k]);
                        }
                    }
                    if survives(g, lv, tg) && (g.path@ == x || dot_prefix(x, g.path@)) {
                        assert(nxt[i as int] == g);
                    }
                }
            }
            i += 1;
        }
        assert(gs.take(gs.len() as int) =~= gs);
        // 3. Drop pruned groups, rebuild child links, collect the used enums.
        let ghost gpred = |g: GroupDoc| scoped_path(gs, lv, tg, g.path@);
        let ghost cpred = |c: String| scoped_path(gs, lv, tg, c@);
        let mut used: Vec<String> = Vec::new();
        let mut result: Vec<GroupDoc> = Vec::new();
        for g in it: filtered.into_iter()
            invariant
                it.seq().len() == gs.len(),
                spred == (|s: SymbolDoc| keeps(s, lv, tg)),
                gpred == (|g: GroupDoc| scoped_path(gs, lv, tg, g.path@)),
                cpred == (|c: String| scoped_path(gs, lv, tg, c@)),
                forall|k: int| 0 <= k < gs.len() ==> {
                    let f = #[trigger] it.seq()[k];
                    &&& f.path == gs[k].path
                    &&& f.symbols@ == gs[k].symbols@.filter(spred)
                    &&& f.functions@.len() == 0
                    &&& f.tables@.len() == 0
                    &&& f.objects@.len() == 0
                    &&& f.can_messages@.len() == 0
                    &&& f.references == gs[k].references
                    &&& f.children == gs[k].children
                },
                forall|x: Seq<char>| #[trigger] views(kept@).contains(x) <==> scoped_path(gs, lv, tg, x),
                result@.len() == gs.take(it.index() as int).filter(gpred).len(),
                forall|j: int| 0 <= j < result@.len() ==> {
                    let f = #[trigger] result@[j];
                    let o = gs.take(it.index() as int).filter(gpred)[j];
                    &&& f.path == o.path
                    &&& f.symbols@ == o.symbols@.filter(spred)
                    &&& f.functions@.len() == 0
                    &&& f.tables@.len() == 0
                    &&& f.objects@.len() == 0
                    &&& f.can_messages@.len() == 0
                    &&& f.references == o.references
                    &&& f.children@ == o.children@.filter(cpred)
                },
                forall|x: Seq<char>| #[trigger] views(used@).contains(x)
                    <==> enum_used(gs.take(it.index() as int), lv, tg, x),
                strictly_sorted(views(used@)),
        {
            let ghost idx = it.index() as int;
            let ghost o = gs[idx];
            proof {
                assert(gs.take(idx + 1) =~= gs.take(idx).push(o));
                gs.take(idx).lemma_filter_push(o, gpred);
            }
            // Enum types used by this group's kept symbols.
            let mut si: usize = 0;
            while si < g.symbols.len()
                invariant
                    g.symbols@ == o.symbols@.filter(spred),
                    si <= g.symbols.len(),
                    strictly_sorted(views(used@)),
                    forall|x: Seq<char>| #[trigger] views(used@).contains(x)
                        <==> (enum_used(gs.take(idx), lv, tg, x)
                            || exists|j: int| 0 <= j < si && g.symbols@[j].enum_ref is Some
                                && (#[trigger] g.symbols@[j]).enum_ref->0@ == x),
                decreases g.symbols.len() - si,
            {
                if let Some(e) = &g.symbols[si].enum_ref {
                    insert_sorted(&mut used, e.as_str());
                    assert forall|x: Seq<char>| #[trigger] views(used@).contains(x)
                        <==> (enum_used(gs.take(idx), lv, tg, x)
                            || exists|j: int| 0 <= j < si + 1 && g.symbols@[j].enum_ref is Some
                                && (#[trigger] g.symbols@[j]).enum_ref->0@ == x) by {
                        if x == e@ {
                            assert(g.symbols@[si as int].enum_ref->0@ == x);
                        }
                    }
                } else {
                    assert forall|x: Seq<char>| #[trigger] views(used@).contains(x)
                        <==> (enum_used(gs.take(idx), lv, tg, x)
                            || exists|j: int| 0 <= j < si + 1 && g.symbols@[j].enum_ref is Some
                                && (#[trigger] g.symbols@[j]).enum_ref->0@ == x) by {
                        if exists|j: int| 0 <= j < si + 1 && g.symbols@[j].enum_ref is Some
                                && (#[trigger] g.symbols@[j]).enum_ref->0@ == x {
                            let j = choose|j: int| 0 <= j < si + 1 && g.symbols@[j].enum_ref is Some
                                && (#[trigger] g.symbols@[j]).enum_ref->0@ == x;
                            assert(j < si);
                        }
                    }
                }
                si += 1;
            }
            proof {
                let nxt = gs.take(idx + 1);
                assert forall|x: Seq<char>| #[trigger] views(used@).contains(x) <==> enum_used(nxt, lv, tg, x) by {
                    let pre = gs.take(idx);
                    if enum_used(pre, lv, tg, x) {
                        let (k, j) = choose|k: int, j: int| 0 <= k < pre.len() && 0 <= j < pre[k].symbols@.len()
                            && keeps(#[trigger] pre[k].symbols@[j], lv, tg)
                            && pre[k].symbols@[j].enum_ref is Some && pre[k].symbols@[j].enum_ref->0@ == x;
                        assert(nxt[k] == pre[k]);
                    }
                    if exists|j: int| 0 <= j < g.symbols@.len() && g.symbols@[j].enum_ref is Some
                        && (#[trigger] g.symbols@[j]).enum_ref->0@ == x {
                        let j = choose|j: int| 0 <= j < g.symbols@.len() && g.symbols@[j].enum_ref is Some
                            && (#[trigger] g.symbols@[j]).enum_ref->0@ == x;
                        o.symbols@.lemma_filter_pred(spred, j);
                        o.symbols@.lemma_filter_contains_rev(spred, g.symbols@[j]);
                        let m = choose|m: int| 0 <= m < o.symbols@.len() && o.symbols@[m] == g.symbols@[j];
                        assert(nxt[idx] == o);
                        assert(keeps(nxt[idx].symbols@[m], lv, tg));
                    }
                    if enum_used(nxt, lv, tg, x) {
                        let (k, j) = choose|k: int, j: int| 0 <= k < nxt.len() && 0 <= j < nxt[k].symbols@.len()
                            && keeps(#[trigger] nxt[k].symbols@[j], lv, tg)
                            && nxt[k].symbols@[j].enum_ref is Some && nxt[k].symbols@[j].enum_ref->0@ == x;
                        if k < pre.len() {
                            assert(pre[k] == nxt[k]);
                        } else {
                            o.symbols@.lemma_filter_contains(spred, j);
                            let m = choose|m: int| 0 <= m < g.symbols@.len() && g.symbols@[m] == o.symbols@[j];
                            assert(g.symbols@[m].enum_ref->0@ == x);
                        }
                    }
                }
            }
            if contains_str(&kept, g.path.as_str()) {
                let GroupDoc { path, symbols, functions, tables, objects, can_messages, references, children } = g;
                let ghost cs = children@;
                let mut kept_children: Vec<String> = Vec::new();
                for c in cit: children.into_iter()
                    invariant
                        cit.seq() == cs,
                        cpred == (|c: String| scoped_path(gs, lv, tg, c@)),
                        forall|x: Seq<char>| #[trigger] views(kept@).contains(x) <==> scoped_path(gs, lv, tg, x),
                        kept_children@ == cs.take(cit.index() as int).filter(cpred),
                {
                    proof {
                        assert(cs.take(cit.index() + 1) =~= cs.take(cit.index() as int).push(c));
                        cs.take(cit.index() as int).lemma_filter_push(c, cpred);
                    }
                    if contains_str(&kept, c.as_str()) {
                        kept_children.push(c);
                    }
                }
                assert(cs.take(cs.len() as int) =~= cs);
                result.push(GroupDoc {
                    path,
                    symbols,
                    functions,
                    tables,
                    objects,
                    can_messages,
                    references,
                    children: kept_children,
                });
            }
        }
        assert(gs.take(gs.len() as int) =~= gs);
        self.groups = result;
        // 4. Keep only the enums a kept symbol uses.
        let ghost es = self.enums@;
        let ghost epred = |e: EnumDoc| enum_used(gs, lv, tg, e.name@);
        let mut old_enums: Vec<EnumDoc> = Vec::new();
        std::mem::swap(&mut old_enums, &mut self.enums);
        let mut enums: Vec<EnumDoc> = Vec::new();
        for e in it: old_enums.into_iter()
            invariant
                it.seq() == es,
                epred == (|e: EnumDoc| enum_used(gs, lv, tg, e.name@)),
                forall|x: Seq<char>| #[trigger] views(used@).contains(x) <==> enum_used(gs, lv, tg, x),
                enums@ == es.take(it.index() as int).filter(epred),
        {
            proof {
                assert(es.take(it.index() + 1) =~= es.take(it.index() as int).push(e));
                es.take(it.index() as int).lemma_filter_push(e, epred);
            }
            if contains_str(&used, e.name.as_str()) {
                enums.push(e);
            }
        }
        assert(es.take(es.len() as int) =~= es);
        self.enums = enums;
    }
}

/// `s` without leading white space (`str::trim_start`).
pub open spec fn trim_start_ws(s: Seq<char>) -> Seq<char>
    decreases s.len(),
{
    if s.len() > 0 && is_white_space(s[0]) {
        trim_start_ws(s.drop_first())
    } else {
        s
    }
}

/// `s` without white space at either end (`str::trim`).
pub open spec fn trim_ws(s: Seq<char>) -> Seq<char> {
    trim_start_ws(trim_end_ws(s))
}

/// The pieces of `s` between commas (`str::split(',')`): one more piece than
/// there are commas, each possibly empty.
pub open spec fn comma_pieces(s: Seq<char>) -> Seq<Seq<char>>
    decreases s.len(),
{
    if s.len() == 0 {
        Seq::empty().push(Seq::empty())
    } else {
        let prev = comma_pieces(s.drop_last());
        if s.last() == ',' {
            prev.push(Seq::empty())
        } else {
            prev.drop_last().push(prev.last().push(s.last()))
        }
    }
}

pub proof fn lemma_comma_pieces_nonempty(s: Seq<char>)
    ensures
        comma_pieces(s).len() >= 1,
    decreases s.len(),
{
    if s.len() > 0 {
        lemma_comma_pieces_nonempty(s.drop_last());
    }
}

/// The trimmed pieces, with the empty ones left out.
pub open spec fn kept_pieces(pieces: Seq<Seq<char>>) -> Seq<Seq<char>>
    decreases pieces.len(),
{
    if pieces.len() == 0 {
        Seq::empty()
    } else if trim_ws(pieces.last()).len() > 0 {
        kept_pieces(pieces.drop_last()).push(trim_ws(pieces.last()))
    } else {
        kept_pieces(pieces.drop_last())
    }
}

/// The security levels named by a comma-separated list: each trimmed, empty
/// ones dropped (`Tune, Calibration` → `Tune`, `Calibration`).
pub open spec fn levels_of(s: Seq<char>) -> Seq<Seq<char>> {
    kept_pieces(comma_pieces(s))
}

/// `s` without white space at either end.
pub fn trim_white(s: &str) -> (r: String)
    ensures
        r@ == trim_ws(s@),
{
    let v = chars_of(s);
    let mut n = v.len();
    assert(v@.take(n as int) =~= v@);
    while n > 0 && is_white_space_exec(v[n - 1])
        invariant
            n <= v.len(),
            v@ == s@,
            trim_end_ws(s@) == trim_end_ws(v@.take(n as int)),
        decreases n,
    {
        assert(v@.take(n as int).drop_last() =~= v@.take(n - 1));
        n -= 1;
    }
    let ghost e = v@.take(n as int);
    assert(trim_end_ws(e) == e);
    let mut i: usize = 0;
    assert(e.skip(0) =~= e);
    while i < n && is_white_space_exec(v[i])
        invariant
            i <= n <= v.len(),
            e == v@.take(n as int),
            trim_start_ws(e) == trim_start_ws(e.skip(i as int)),
        decreases n - i,
    {
        assert(e.skip(i as int).drop_first() =~= e.skip(i + 1));
        i += 1;
    }
    assert(v@.subrange(i as int, n as int) =~= e.skip(i as int));
    string_from_chars(&v, i, n)
}

/// The security levels named by a comma-separated list, each trimmed, empty
/// ones dropped.
pub fn parse_levels(s: &str) -> (r: Vec<String>)
    ensures
        views(r@) == levels_of(s@),
{
    let v = chars_of(s);
    let mut pieces: Vec<String> = Vec::new();
    let mut cur = String::new();
    let mut i: usize = 0;
    proof {
        assert(v@.take(0) =~= Seq::<char>::empty());
        assert(views(pieces@).push(cur@) =~= comma_pieces(Seq::empty()));
    }
    while i < v.len()
        invariant
            v@ == s@,
            i <= v@.len(),
            views(pieces@).push(cur@) == comma_pieces(v@.take(i as int)),
        decreases v@.len() - i,
    {
        let ghost before = views(pieces@);
        let ghost c0 = cur@;
        proof {
            assert(v@.take(i + 1).drop_last() =~= v@.take(i as int));
            assert(v@.take(i + 1).last() == v@[i as int]);
        }
        if v[i] == ',' {
            let done = cur;
            let ghost old_p = pieces@;
            pieces.push(done);
            cur = String::new();
            proof {
                lemma_map_push(old_p, done, |x: String| x@);
            }
        } else {
            cur.push(v[i]);
        }
        proof {
            assert(views(pieces@).push(cur@) =~= comma_pieces(v@.take(i + 1)));
        }
        i += 1;
    }
    let ghost old_p = pieces@;
    let last = cur;
    pieces.push(last);
    proof {
        lemma_map_push(old_p, last, |x: String| x@);
        assert(v@.take(v@.len() as int) =~= v@);
    }
    let mut out: Vec<String> = Vec::new();
    let ghost ps = views(pieces@);
    let mut k: usize = 0;
    while k < pieces.len()
        invariant
            ps == views(pieces@),
            k <= pieces@.len(),
            views(out@) == kept_pieces(ps.take(k as int)),
        decreases pieces@.len() - k,
    {
        let t = trim_white(pieces[k].as_str());
        proof {
            assert(ps.take(k + 1).drop_last() =~= ps.take(k as int));
            assert(ps.take(k + 1).last() == pieces@[k as int]@);
        }
        if !is_empty_str(t.as_str()) {
            let ghost before = out@;
            out.push(t);
            proof {
                lemma_map_push(before, t, |x: String| x@);
            }
        }
        k += 1;
    }
    proof {
        assert(ps.take(ps.len() as int) =~= ps);
    }
    out
}

} // verus!
