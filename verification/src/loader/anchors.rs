//! Page-unique anchor ids. Every entry on a page gets the slug of its path,
//! unless that id was already handed out on the page; then it gets the slug with
//! the least `-2`, `-3`, ... counter not yet handed out. No id is ever given
//! twice on one page.
use crate::model::{
    anchor_slug, spec_anchor_slug, CanMessageDoc, CanSignalDoc, FunctionDoc, ObjectDoc, ReferenceDoc, SymbolDoc, TableDoc,
};
use crate::strset::{contains_str, views};
use crate::text::{decimal, digit, lemma_map_push, push_decimal_wide, to_owned_string};
use vstd::prelude::*;

verus! {

/// The counter form `base-n` of an id.
pub open spec fn counter_id(base: Seq<char>, n: nat) -> Seq<char> {
    base + "-"@ + decimal(n)
}

/// Whether `t` is a counter form `base-m` of `base` with `m >= n`.
pub open spec fn counter_from(t: Seq<char>, base: Seq<char>, n: nat) -> bool {
    exists|m: nat| m >= n && t == counter_id(base, m)
}

/// How many of the ids `before` are counter forms of `base` from `n` on.
pub open spec fn counters_from(before: Seq<Seq<char>>, base: Seq<char>, n: nat) -> nat
    decreases before.len(),
{
    if before.len() == 0 {
        0
    } else {
        counters_from(before.drop_last(), base, n) + if counter_from(before.last(), base, n) {
            1nat
        } else {
            0nat
        }
    }
}

/// The least `m >= n` whose counter form `base-m` is not among `before`.
pub open spec fn next_free(before: Seq<Seq<char>>, base: Seq<char>, n: nat) -> nat
    decreases counters_from(before, base, n),
    via next_free_decreases
{
    if before.contains(counter_id(base, n)) {
        next_free(before, base, n + 1)
    } else {
        n
    }
}

#[via_fn]
proof fn next_free_decreases(before: Seq<Seq<char>>, base: Seq<char>, n: nat) {
    if before.contains(counter_id(base, n)) {
        lemma_counters_step(before, base, n);
    }
}

/// The anchor of an entry at `path`, after the ids `before` were handed out on
/// the same page: its slug when that is still free, else the slug with the
/// least counter `-2`, `-3`, ... that is still free.
pub open spec fn anchor_after(before: Seq<Seq<char>>, path: Seq<char>) -> Seq<char> {
    let base = spec_anchor_slug(path);
    if before.contains(base) {
        counter_id(base, next_free(before, base, 2))
    } else {
        base
    }
}

/// The anchors of a page's entries, given their paths in page order: each
/// entry's anchor is chosen after the anchors of the entries before it.
pub open spec fn unique_anchors(paths: Seq<Seq<char>>) -> Seq<Seq<char>>
    decreases paths.len(),
{
    if paths.len() == 0 {
        Seq::empty()
    } else {
        let prev = unique_anchors(paths.drop_last());
        prev.push(anchor_after(prev, paths.last()))
    }
}

/// The text `base-n`.
fn counter_text(base: &str, n: u128) -> (r: String)
    ensures
        r@ == counter_id(base@, n as nat),
{
    let mut r = to_owned_string(base);
    r.append("-");
    push_decimal_wide(&mut r, n);
    r
}

/// The anchor for the next entry of a page, given the ids already handed out
/// there (`seen`), which then records this entry's anchor too.
pub fn next_anchor(seen: &mut Vec<String>, path: &str) -> (r: String)
    ensures
        views(final(seen)@) == views(old(seen)@).push(r@),
        r@ == anchor_after(views(old(seen)@), path@),
{
    let base = anchor_slug(path);
    let ghost before = views(seen@);
    let ghost b = base@;
    let r = if !contains_str(seen, base.as_str()) {
        base
    } else {
        assert(seen@.len() == seen.len());
        proof {
            lemma_counters_le_len(before, b, 2);
        }
        let mut n: u128 = 2;
        let mut cand = counter_text(base.as_str(), n);
        while contains_str(seen, cand.as_str())
            invariant
                views(seen@) == before,
                before.len() <= usize::MAX,
                b == base@,
                2 <= n,
                cand@ == counter_id(b, n as nat),
                next_free(before, b, 2) == next_free(before, b, n as nat),
                n - 2 + counters_from(before, b, n as nat) <= counters_from(before, b, 2),
                counters_from(before, b, 2) <= before.len(),
            decreases counters_from(before, b, n as nat),
        {
            proof {
                lemma_counters_step(before, b, n as nat);
            }
            n = n + 1;
            cand = counter_text(base.as_str(), n);
        }
        cand
    };
    let ghost old_seen = seen@;
    seen.push(r.clone());
    proof {
        lemma_map_push(old_seen, r, |s: String| s@);
    }
    r
}

/// Counter forms of one base with different counters differ.
pub proof fn lemma_counter_injective(base: Seq<char>, n: nat, m: nat)
    requires
        counter_id(base, n) == counter_id(base, m),
    ensures
        n == m,
{
    lemma_decimal_digits(n);
    lemma_decimal_digits(m);
    lemma_counter_split(base, decimal(n), base, decimal(m));
    lemma_decimal_injective(n, m);
}

proof fn lemma_counters_mono(before: Seq<Seq<char>>, base: Seq<char>, n: nat)
    ensures
        counters_from(before, base, n + 1) <= counters_from(before, base, n),
    decreases before.len(),
{
    if before.len() > 0 {
        lemma_counters_mono(before.drop_last(), base, n);
        if counter_from(before.last(), base, n + 1) {
            let m = choose|m: nat| m >= n + 1 && before.last() == counter_id(base, m);
            assert(counter_from(before.last(), base, n));
        }
    }
}

proof fn lemma_counters_le_len(before: Seq<Seq<char>>, base: Seq<char>, n: nat)
    ensures
        counters_from(before, base, n) <= before.len(),
    decreases before.len(),
{
    if before.len() > 0 {
        lemma_counters_le_len(before.drop_last(), base, n);
    }
}

/// When `base-n` was handed out, fewer ids are counters of `base` from `n + 1`
/// on than from `n` on.
proof fn lemma_counters_step(before: Seq<Seq<char>>, base: Seq<char>, n: nat)
    requires
        before.contains(counter_id(base, n)),
    ensures
        counters_from(before, base, n + 1) < counters_from(before, base, n),
    decreases before.len(),
{
    let d = before.drop_last();
    let t = before.last();
    if t == counter_id(base, n) {
        lemma_counters_mono(d, base, n);
        assert(counter_from(t, base, n));
        if counter_from(t, base, n + 1) {
            let m = choose|m: nat| m >= n + 1 && t == counter_id(base, m);
            lemma_counter_injective(base, n, m);
        }
    } else {
        let k = choose|k: int| 0 <= k < before.len() && before[k] == counter_id(base, n);
        assert(k < d.len());
        assert(d[k] == counter_id(base, n));
        lemma_counters_step(d, base, n);
        if counter_from(t, base, n + 1) {
            let m = choose|m: nat| m >= n + 1 && t == counter_id(base, m);
            assert(counter_from(t, base, n));
        }
    }
}

/// The counter `next_free` picks is at least `n` and not among `before`.
proof fn lemma_next_free(before: Seq<Seq<char>>, base: Seq<char>, n: nat)
    ensures
        next_free(before, base, n) >= n,
        !before.contains(counter_id(base, next_free(before, base, n))),
    decreases counters_from(before, base, n),
{
    if before.contains(counter_id(base, n)) {
        lemma_counters_step(before, base, n);
        lemma_next_free(before, base, n + 1);
    }
}

/// The anchor an entry gets was not yet handed out on its page, and is its
/// slug or its slug with a counter of at least 2.
pub proof fn lemma_anchor_fresh(before: Seq<Seq<char>>, path: Seq<char>)
    ensures
        !before.contains(anchor_after(before, path)),
        anchor_after(before, path) == spec_anchor_slug(path) || exists|n: nat|
            n >= 2 && anchor_after(before, path) == counter_id(spec_anchor_slug(path), n),
{
    let base = spec_anchor_slug(path);
    if before.contains(base) {
        lemma_next_free(before, base, 2);
    }
}

/// `a` is the slug of `path`, or that slug with a counter of at least 2.
pub open spec fn slug_or_counter(a: Seq<char>, path: Seq<char>) -> bool {
    a == spec_anchor_slug(path) || exists|n: nat| n >= 2 && a == counter_id(spec_anchor_slug(path), n)
}

/// The anchors of a page are pairwise distinct, whatever its paths: each is
/// chosen among the ids not yet handed out.
pub proof fn lemma_unique_anchors_distinct(paths: Seq<Seq<char>>)
    ensures
        unique_anchors(paths).len() == paths.len(),
        forall|i: int, j: int|
            0 <= i < j < paths.len() ==> #[trigger] unique_anchors(paths)[i] != #[trigger] unique_anchors(paths)[j],
        forall|k: int| 0 <= k < paths.len() ==> slug_or_counter(#[trigger] unique_anchors(paths)[k], paths[k]),
    decreases paths.len(),
{
    if paths.len() > 0 {
        let d = paths.drop_last();
        let prev = unique_anchors(d);
        lemma_unique_anchors_distinct(d);
        lemma_anchor_fresh(prev, paths.last());
        let ua = unique_anchors(paths);
        assert(ua == prev.push(anchor_after(prev, paths.last())));
        assert forall|i: int, j: int| 0 <= i < j < paths.len() implies #[trigger] ua[i] != #[trigger] ua[j] by {
            if j == paths.len() - 1 {
                assert(ua[i] == prev[i]);
                assert(prev.contains(prev[i]));
            } else {
                assert(ua[i] == prev[i] && ua[j] == prev[j]);
            }
        }
        assert forall|k: int| 0 <= k < paths.len() implies slug_or_counter(#[trigger] ua[k], paths[k]) by {
            if k < paths.len() - 1 {
                assert(ua[k] == prev[k]);
                assert(paths[k] == d[k]);
            }
        }
    }
}

/// An entry of a page that carries an anchor.
pub trait PageEntry: Sized {
    /// The entry's path.
    spec fn path_view(&self) -> Seq<char>;

    /// The entry's anchor.
    spec fn anchor_view(&self) -> Seq<char>;

    /// `self` and `other` agree on everything but the anchor.
    spec fn same_but_anchor(&self, other: &Self) -> bool;

    /// The entry's path.
    fn entry_path(&self) -> (r: &str)
        ensures
            r@ == self.path_view(),
    ;

    /// Replace the entry's anchor.
    fn set_anchor(&mut self, a: String)
        ensures
            final(self).same_but_anchor(old(self)),
            final(self).path_view() == old(self).path_view(),
            final(self).anchor_view() == a@,
    ;
}

impl PageEntry for SymbolDoc {
    open spec fn path_view(&self) -> Seq<char> {
        self.path@
    }

    open spec fn anchor_view(&self) -> Seq<char> {
        self.anchor@
    }

    open spec fn same_but_anchor(&self, other: &Self) -> bool {
        self.path == other.path && self.kind == other.kind && self.tags == other.tags && self.type_label == other.type_label && self.quantity == other.quantity && self.unit == other.unit && self.base_unit == other.base_unit && self.log_rate_hz == other.log_rate_hz && self.security == other.security && self.enum_ref == other.enum_ref && self.classname == other.classname && self.def_line == other.def_line
    }

    fn entry_path(&self) -> (r: &str) {
        self.path.as_str()
    }

    fn set_anchor(&mut self, a: String) {
        self.anchor = a;
    }
}

impl PageEntry for FunctionDoc {
    open spec fn path_view(&self) -> Seq<char> {
        self.path@
    }

    open spec fn anchor_view(&self) -> Seq<char> {
        self.anchor@
    }

    open spec fn same_but_anchor(&self, other: &Self) -> bool {
        self.path == other.path && self.inputs == other.inputs && self.return_type == other.return_type && self.annotations == other.annotations && self.call_rate_hz == other.call_rate_hz && self.source_path == other.source_path && self.source_text == other.source_text
    }

    fn entry_path(&self) -> (r: &str) {
        self.path.as_str()
    }

    fn set_anchor(&mut self, a: String) {
        self.anchor = a;
    }
}

impl PageEntry for TableDoc {
    open spec fn path_view(&self) -> Seq<char> {
        self.path@
    }

    open spec fn anchor_view(&self) -> Seq<char> {
        self.anchor@
    }

    open spec fn same_but_anchor(&self, other: &Self) -> bool {
        self.path == other.path && self.axes == other.axes && self.output_unit == other.output_unit && self.def_line == other.def_line
    }

    fn entry_path(&self) -> (r: &str) {
        self.path.as_str()
    }

    fn set_anchor(&mut self, a: String) {
        self.anchor = a;
    }
}

impl PageEntry for ObjectDoc {
    open spec fn path_view(&self) -> Seq<char> {
        self.path@
    }

    open spec fn anchor_view(&self) -> Seq<char> {
        self.anchor@
    }

    open spec fn same_but_anchor(&self, other: &Self) -> bool {
        self.path == other.path && self.class == other.class && self.members == other.members && self.def_line == other.def_line
    }

    fn entry_path(&self) -> (r: &str) {
        self.path.as_str()
    }

    fn set_anchor(&mut self, a: String) {
        self.anchor = a;
    }
}

impl PageEntry for CanSignalDoc {
    open spec fn path_view(&self) -> Seq<char> {
        self.path@
    }

    open spec fn anchor_view(&self) -> Seq<char> {
        self.anchor@
    }

    open spec fn same_but_anchor(&self, other: &Self) -> bool {
        self.path == other.path && self.start_bit == other.start_bit && self.length == other.length && self.multiplier == other.multiplier && self.offset == other.offset && self.range == other.range && self.unit == other.unit
    }

    fn entry_path(&self) -> (r: &str) {
        self.path.as_str()
    }

    fn set_anchor(&mut self, a: String) {
        self.anchor = a;
    }
}

impl PageEntry for ReferenceDoc {
    open spec fn path_view(&self) -> Seq<char> {
        self.path@
    }

    open spec fn anchor_view(&self) -> Seq<char> {
        self.anchor@
    }

    open spec fn same_but_anchor(&self, other: &Self) -> bool {
        self.path == other.path && self.target_raw == other.target_raw && self.target_resolved == other.target_resolved && self.def_line == other.def_line
    }

    fn entry_path(&self) -> (r: &str) {
        self.path.as_str()
    }

    fn set_anchor(&mut self, a: String) {
        self.anchor = a;
    }
}

/// The paths of a list of entries.
pub open spec fn entry_paths_of<T: PageEntry>(s: Seq<T>) -> Seq<Seq<char>> {
    s.map_values(|d: T| d.path_view())
}

/// The anchors of a list of entries.
pub open spec fn entry_anchors_of<T: PageEntry>(s: Seq<T>) -> Seq<Seq<char>> {
    s.map_values(|d: T| d.anchor_view())
}

/// `a` is `b` entry by entry, but for the anchors.
pub open spec fn same_list_but_anchors<T: PageEntry>(a: Seq<T>, b: Seq<T>) -> bool {
    &&& a.len() == b.len()
    &&& forall|k: int| 0 <= k < a.len() ==> (#[trigger] a[k]).same_but_anchor(&b[k])
}

/// `anchors` are the anchors of entries at `paths`, each handed out after the
/// ids `before` and the anchors before it on the same page.
pub open spec fn anchored_after(before: Seq<Seq<char>>, paths: Seq<Seq<char>>, anchors: Seq<Seq<char>>) -> bool {
    &&& anchors.len() == paths.len()
    &&& forall|k: int|
        0 <= k < paths.len() ==> #[trigger] anchors[k] == anchor_after(before + anchors.take(k), paths[k])
}

/// One more entry, anchored after everything before it.
pub proof fn lemma_anchor_step(before: Seq<Seq<char>>, paths: Seq<Seq<char>>, anchors: Seq<Seq<char>>, p: Seq<char>, r: Seq<char>)
    requires
        anchored_after(before, paths, anchors),
        r == anchor_after(before + anchors, p),
    ensures
        anchored_after(before, paths.push(p), anchors.push(r)),
        before + anchors.push(r) == (before + anchors).push(r),
{
    let q = paths.push(p);
    let a = anchors.push(r);
    assert forall|k: int| 0 <= k < q.len() implies #[trigger] a[k] == anchor_after(before + a.take(k), q[k]) by {
        if k < paths.len() {
            assert(a.take(k) =~= anchors.take(k));
        } else {
            assert(a.take(k) =~= anchors);
        }
    }
    assert(before + a =~= (before + anchors).push(r));
}

/// Two runs of entries, the second anchored after the first, make one run.
pub proof fn lemma_anchored_append(
    before: Seq<Seq<char>>,
    p1: Seq<Seq<char>>,
    a1: Seq<Seq<char>>,
    p2: Seq<Seq<char>>,
    a2: Seq<Seq<char>>,
)
    requires
        anchored_after(before, p1, a1),
        anchored_after(before + a1, p2, a2),
    ensures
        anchored_after(before, p1 + p2, a1 + a2),
{
    let q = p1 + p2;
    let a = a1 + a2;
    assert forall|k: int| 0 <= k < q.len() implies #[trigger] a[k] == anchor_after(before + a.take(k), q[k]) by {
        if k < p1.len() {
            assert(a.take(k) =~= a1.take(k));
        } else {
            let m = k - p1.len();
            assert(a.take(k) =~= a1 + a2.take(m));
            assert(before + a.take(k) =~= (before + a1) + a2.take(m));
            assert(a2[m] == anchor_after((before + a1) + a2.take(m), p2[m]));
        }
    }
}

/// Anchors handed out from the top of a page are the page's unique anchors.
pub proof fn lemma_anchored_from_start(paths: Seq<Seq<char>>, anchors: Seq<Seq<char>>)
    requires
        anchored_after(Seq::empty(), paths, anchors),
    ensures
        anchors == unique_anchors(paths),
    decreases paths.len(),
{
    if paths.len() == 0 {
        assert(anchors =~= Seq::<Seq<char>>::empty());
    } else {
        let n = paths.len() - 1;
        let d = anchors.drop_last();
        assert forall|k: int| 0 <= k < n implies #[trigger] d[k] == anchor_after(
            Seq::<Seq<char>>::empty() + d.take(k),
            paths.drop_last()[k],
        ) by {
            assert(d.take(k) =~= anchors.take(k));
        }
        lemma_anchored_from_start(paths.drop_last(), d);
        assert(anchors[n] == anchor_after(Seq::<Seq<char>>::empty() + anchors.take(n), paths[n]));
        assert(Seq::<Seq<char>>::empty() + anchors.take(n) =~= d);
        assert(anchors =~= d.push(anchors[n]));
    }
}

/// Give each entry of `v`, in order, the next anchor of the page whose ids
/// handed out so far are `seen`.
pub fn reanchor<T: PageEntry>(v: &mut Vec<T>, seen: &mut Vec<String>)
    ensures
        same_list_but_anchors(final(v)@, old(v)@),
        entry_paths_of(final(v)@) == entry_paths_of(old(v)@),
        anchored_after(views(old(seen)@), entry_paths_of(final(v)@), entry_anchors_of(final(v)@)),
        views(final(seen)@) == views(old(seen)@) + entry_anchors_of(final(v)@),
{
    let ghost orig = v@;
    let ghost before = views(seen@);
    assert(orig.len() == v.len());
    let mut items: Vec<T> = Vec::new();
    std::mem::swap(v, &mut items);
    let mut out: Vec<T> = Vec::new();
    let mut i: usize = 0;
    proof {
        assert(items@.skip(0) =~= orig);
        assert(before + entry_anchors_of(out@) =~= before);
    }
    while items.len() > 0
        invariant
            i <= orig.len(),
            orig.len() <= usize::MAX,
            items@ == orig.skip(i as int),
            out@.len() == i,
            same_list_but_anchors(out@, orig.take(i as int)),
            entry_paths_of(out@) == entry_paths_of(orig.take(i as int)),
            anchored_after(before, entry_paths_of(out@), entry_anchors_of(out@)),
            views(seen@) == before + entry_anchors_of(out@),
        decreases items@.len(),
    {
        assert(i < orig.len());
        let mut x = items.remove(0);
        proof {
            assert(x == orig[i as int]);
            assert(items@ =~= orig.skip(i + 1));
        }
        let ghost q = entry_paths_of(out@);
        let ghost a = entry_anchors_of(out@);
        let ghost x0 = x;
        let anchor = next_anchor(seen, x.entry_path());
        proof {
            lemma_anchor_step(before, q, a, x0.path_view(), anchor@);
        }
        x.set_anchor(anchor);
        let ghost old_out = out@;
        out.push(x);
        proof {
            lemma_map_push(old_out, x, |d: T| d.path_view());
            lemma_map_push(old_out, x, |d: T| d.anchor_view());
            lemma_map_push(orig.take(i as int), x0, |d: T| d.path_view());
            assert(orig.take(i + 1) =~= orig.take(i as int).push(x0));
            assert(views(seen@) =~= before + entry_anchors_of(out@));
            assert forall|k: int| 0 <= k < out@.len() implies (#[trigger] out@[k]).same_but_anchor(&orig.take(i + 1)[k]) by {
                if k < i {
                    assert(out@[k] == old_out[k]);
                }
            }
        }
        i += 1;
    }
    proof {
        assert(orig.take(orig.len() as int) =~= orig);
    }
    *v = out;
}

/// A CAN message's entries on the page: the message, then its signals.
pub open spec fn message_entry_paths(d: CanMessageDoc) -> Seq<Seq<char>> {
    Seq::empty().push(d.path@) + entry_paths_of(d.signals@)
}

/// The anchors of a CAN message's entries, in the same order.
pub open spec fn message_entry_anchors(d: CanMessageDoc) -> Seq<Seq<char>> {
    Seq::empty().push(d.anchor@) + entry_anchors_of(d.signals@)
}

/// The entries of a list of CAN messages, each followed by its signals.
pub open spec fn message_paths(ms: Seq<CanMessageDoc>) -> Seq<Seq<char>>
    decreases ms.len(),
{
    if ms.len() == 0 {
        Seq::empty()
    } else {
        message_paths(ms.drop_last()) + message_entry_paths(ms.last())
    }
}

/// The anchors of a list of CAN messages' entries, in the same order.
pub open spec fn message_anchors(ms: Seq<CanMessageDoc>) -> Seq<Seq<char>>
    decreases ms.len(),
{
    if ms.len() == 0 {
        Seq::empty()
    } else {
        message_anchors(ms.drop_last()) + message_entry_anchors(ms.last())
    }
}

/// `a` is `b` but for the anchors of the message and its signals.
pub open spec fn same_message_but_anchors(a: CanMessageDoc, b: CanMessageDoc) -> bool {
    &&& a.path == b.path
    &&& a.can_id == b.can_id
    &&& a.dlc == b.dlc
    &&& a.def_line == b.def_line
    &&& same_list_but_anchors(a.signals@, b.signals@)
}

/// `a` is `b` message by message, but for the anchors.
pub open spec fn same_messages_but_anchors(a: Seq<CanMessageDoc>, b: Seq<CanMessageDoc>) -> bool {
    &&& a.len() == b.len()
    &&& forall|k: int| 0 <= k < a.len() ==> same_message_but_anchors(#[trigger] a[k], b[k])
}

/// Give each CAN message of `v`, and after it each of its signals, the next
/// anchor of the page whose ids handed out so far are `seen`.
pub fn reanchor_messages(v: &mut Vec<CanMessageDoc>, seen: &mut Vec<String>)
    ensures
        same_messages_but_anchors(final(v)@, old(v)@),
        message_paths(final(v)@) == message_paths(old(v)@),
        anchored_after(views(old(seen)@), message_paths(final(v)@), message_anchors(final(v)@)),
        views(final(seen)@) == views(old(seen)@) + message_anchors(final(v)@),
{
    let ghost orig = v@;
    let ghost before = views(seen@);
    assert(orig.len() == v.len());
    let mut items: Vec<CanMessageDoc> = Vec::new();
    std::mem::swap(v, &mut items);
    let mut out: Vec<CanMessageDoc> = Vec::new();
    let mut i: usize = 0;
    proof {
        assert(items@.skip(0) =~= orig);
        assert(before + message_anchors(out@) =~= before);
        assert(message_paths(orig.take(0)) =~= Seq::<Seq<char>>::empty());
    }
    while items.len() > 0
        invariant
            i <= orig.len(),
            orig.len() <= usize::MAX,
            items@ == orig.skip(i as int),
            out@.len() == i,
            same_messages_but_anchors(out@, orig.take(i as int)),
            message_paths(out@) == message_paths(orig.take(i as int)),
            anchored_after(before, message_paths(out@), message_anchors(out@)),
            views(seen@) == before + message_anchors(out@),
        decreases items@.len(),
    {
        assert(i < orig.len());
        let mut m = items.remove(0);
        proof {
            assert(m == orig[i as int]);
            assert(items@ =~= orig.skip(i + 1));
        }
        let ghost m0 = m;
        let ghost q = message_paths(out@);
        let ghost a = message_anchors(out@);
        let ghost s1 = views(seen@);
        let anchor = next_anchor(seen, m.path.as_str());
        proof {
            lemma_anchor_step(s1, Seq::empty(), Seq::empty(), m0.path@, anchor@);
            assert(s1 + Seq::<Seq<char>>::empty() =~= s1);
        }
        m.anchor = anchor;
        let ghost s2 = views(seen@);
        reanchor(&mut m.signals, seen);
        proof {
            let hp = Seq::<Seq<char>>::empty().push(m.path@);
            let ha = Seq::<Seq<char>>::empty().push(m.anchor@);
            assert(s2 =~= s1 + ha);
            lemma_anchored_append(s1, hp, ha, entry_paths_of(m.signals@), entry_anchors_of(m.signals@));
            assert(message_entry_paths(m) == hp + entry_paths_of(m.signals@));
            assert(message_entry_paths(m) == message_entry_paths(m0));
            assert(views(seen@) =~= s1 + message_entry_anchors(m));
            lemma_anchored_append(before, q, a, message_entry_paths(m), message_entry_anchors(m));
        }
        let ghost old_out = out@;
        out.push(m);
        proof {
            assert(out@.drop_last() =~= old_out);
            assert(orig.take(i + 1) =~= orig.take(i as int).push(m0));
            assert(orig.take(i + 1).drop_last() =~= orig.take(i as int));
            assert(views(seen@) =~= before + message_anchors(out@));
            assert forall|k: int| 0 <= k < out@.len() implies same_message_but_anchors(#[trigger] out@[k], orig.take(i + 1)[k]) by {
                if k < i {
                    assert(out@[k] == old_out[k]);
                }
            }
        }
        i += 1;
    }
    proof {
        assert(orig.take(orig.len() as int) =~= orig);
    }
    *v = out;
}

/// Whether `c` is an ASCII decimal digit.
pub open spec fn is_digit(c: char) -> bool {
    '0' <= c <= '9'
}

proof fn lemma_decimal_digits(n: nat)
    ensures
        decimal(n).len() >= 1,
        n >= 10 ==> decimal(n).len() >= 2,
        forall|j: int| 0 <= j < decimal(n).len() ==> is_digit(#[trigger] decimal(n)[j]),
    decreases n,
{
    if n >= 10 {
        lemma_decimal_digits(n / 10);
        let d = decimal(n / 10);
        assert forall|j: int| 0 <= j < decimal(n).len() implies is_digit(#[trigger] decimal(n)[j]) by {
            if j < d.len() {
                assert(decimal(n)[j] == d[j]);
            }
        }
    }
}

proof fn lemma_digit_injective(a: nat, b: nat)
    requires
        a < 10,
        b < 10,
        digit(a) == digit(b),
    ensures
        a == b,
{
    assert((48 + a) as char == (48 + b) as char);
    assert(((48 + a) as char) as u32 == 48 + a);
    assert(((48 + b) as char) as u32 == 48 + b);
}

/// Different numbers have different decimal texts.
pub proof fn lemma_decimal_injective(n: nat, m: nat)
    requires
        decimal(n) == decimal(m),
    ensures
        n == m,
    decreases n,
{
    lemma_decimal_digits(n);
    lemma_decimal_digits(m);
    if n < 10 && m < 10 {
        assert(decimal(n)[0] == digit(n));
        assert(decimal(m)[0] == digit(m));
        lemma_digit_injective(n, m);
    } else if n >= 10 && m >= 10 {
        assert(decimal(n).last() == digit(n % 10));
        assert(decimal(m).last() == digit(m % 10));
        lemma_digit_injective(n % 10, m % 10);
        assert(decimal(n / 10) == decimal(n).drop_last());
        assert(decimal(m / 10) == decimal(m).drop_last());
        lemma_decimal_injective(n / 10, m / 10);
    }
}

/// A text `x-d` with `d` all digits splits at its last `-` only.
proof fn lemma_counter_split(x: Seq<char>, d1: Seq<char>, y: Seq<char>, d2: Seq<char>)
    requires
        x + "-"@ + d1 == y + "-"@ + d2,
        forall|j: int| 0 <= j < d1.len() ==> is_digit(#[trigger] d1[j]),
        forall|j: int| 0 <= j < d2.len() ==> is_digit(#[trigger] d2[j]),
    ensures
        x == y,
        d1 == d2,
{
    reveal_strlit("-");
    let s = x + "-"@ + d1;
    let t = y + "-"@ + d2;
    assert(s[x.len() as int] == '-');
    assert(t[y.len() as int] == '-');
    assert("-"@.len() == 1);
    assert(s.len() == x.len() + 1 + d1.len());
    assert(t.len() == y.len() + 1 + d2.len());
    if d1.len() < d2.len() {
        let k = x.len() - y.len() - 1;
        assert(0 <= k < d2.len());
        assert(t[x.len() as int] == d2[k]);
        assert(is_digit(d2[k]));
        assert(false);
    } else if d2.len() < d1.len() {
        let k = y.len() - x.len() - 1;
        assert(0 <= k < d1.len());
        assert(s[y.len() as int] == d1[k]);
        assert(is_digit(d1[k]));
        assert(false);
    }
    assert(x =~= s.take(x.len() as int));
    assert(y =~= t.take(y.len() as int));
    assert(d1 =~= s.skip(x.len() as int + 1));
    assert(d2 =~= t.skip(y.len() as int + 1));
}


} // verus!
