//! Serialises a documentation model to a single machine-readable JSON
//! document — the same data the Markdown and HTML renderers show, as
//! structured data. Object keys come in a fixed order, arrays keep the model's
//! order, and missing data is `null`. The layout is a two-space indented pretty
//! print; an empty container is `{}` or `[]`.

use crate::escape::{escape_json_string, json_quoted};
use crate::model::{
    spec_edge_kind_name, AnnotationDoc, CanMessageDoc, CanSignalDoc, DocModel, EnumDoc, EnumMemberDoc,
    FunctionDoc, GraphEdge, GroupDoc, ObjectDoc, Real, ReferenceDoc, SymbolDoc, SymbolDocKind,
    TableAxisDoc, TableDoc,
};
use crate::text::{contains_text, decimal, has_suffix, lemma_contains_in_context, lemma_contains_prefix, lemma_contains_right, push_decimal};
use vstd::prelude::*;

verus! {

/// The JSON schema version. Bumped on any breaking change to the shape.
pub const SCHEMA_VERSION: u32 = 1;

// ---------------------------------------------------------------------------
// Layout
// ---------------------------------------------------------------------------

/// The indentation of depth `n`: two spaces per level.
pub open spec fn pad(n: nat) -> Seq<char>
    decreases n,
{
    if n == 0 {
        Seq::empty()
    } else {
        pad((n - 1) as nat) + "  "@
    }
}

/// The children of a container at depth `level`: each on its own line at the
/// next depth, separated by commas.
pub open spec fn container_items(items: Seq<Seq<char>>, level: nat) -> Seq<char>
    decreases items.len(),
{
    if items.len() == 0 {
        Seq::empty()
    } else {
        container_items(items.drop_last(), level) + (if items.len() == 1 {
            "\n"@
        } else {
            ",\n"@
        }) + pad(level + 1) + items.last()
    }
}

/// A container at depth `level`: the opening bracket, the children, and the
/// closing bracket on its own line (or right after the opening one when empty).
pub open spec fn container(open: char, close: char, items: Seq<Seq<char>>, level: nat) -> Seq<char> {
    seq![open] + container_items(items, level) + (if items.len() > 0 {
        "\n"@ + pad(level)
    } else {
        Seq::empty()
    }) + seq![close]
}

pub open spec fn obj(fields: Seq<Seq<char>>, level: nat) -> Seq<char> {
    container('{', '}', fields, level)
}

pub open spec fn arr(items: Seq<Seq<char>>, level: nat) -> Seq<char> {
    container('[', ']', items, level)
}

/// A named field: the quoted key, `: `, and the value.
pub open spec fn field(key: Seq<char>, value: Seq<char>) -> Seq<char> {
    json_quoted(key, false) + ": "@ + value
}

pub open spec fn str_val(s: Seq<char>) -> Seq<char> {
    json_quoted(s, false)
}

pub open spec fn opt_str_val(o: Option<String>) -> Seq<char> {
    match o {
        Some(s) => str_val(s@),
        None => "null"@,
    }
}

pub open spec fn opt_u32_val(o: Option<u32>) -> Seq<char> {
    match o {
        Some(v) => decimal(v as nat),
        None => "null"@,
    }
}

/// A number's JSON form: its shortest round-trip text, or `null` when it has
/// none (`NaN`, infinities).
pub open spec fn real_val(r: Real) -> Seq<char> {
    match r.shortest {
        Some(t) => t@,
        None => "null"@,
    }
}

pub open spec fn opt_real_val(o: Option<Real>) -> Seq<char> {
    match o {
        Some(r) => real_val(r),
        None => "null"@,
    }
}

pub open spec fn bool_val(b: bool) -> Seq<char> {
    if b {
        "true"@
    } else {
        "false"@
    }
}

pub open spec fn quoted_all(items: Seq<String>) -> Seq<Seq<char>> {
    items.map_values(|s: String| str_val(s@))
}

/// An array of strings at depth `level`.
pub open spec fn str_array(items: Seq<String>, level: nat) -> Seq<char> {
    arr(quoted_all(items), level)
}

/// A container being written: its text so far and the children it holds.
pub struct Container {
    pub text: String,
    pub count: usize,
    pub level: usize,
    pub open: char,
    pub close: char,
    pub items: Ghost<Seq<Seq<char>>>,
}

impl Container {
    pub open spec fn wf(&self) -> bool {
        &&& self.text@ == seq![self.open] + container_items(self.items@, self.level as nat)
        &&& self.count == self.items@.len()
        &&& self.level < 64
    }

    fn start(open: char, close: char, level: usize) -> (c: Container)
        requires
            level < 64,
        ensures
            c.wf(),
            c.items@ == Seq::<Seq<char>>::empty(),
            c.level == level,
            c.open == open,
            c.close == close,
    {
        let mut text = String::new();
        text.push(open);
        assert(text@ =~= seq![open] + container_items(Seq::empty(), level as nat));
        Container { text, count: 0, level, open, close, items: Ghost(Seq::empty()) }
    }

    fn add(&mut self, item: &str)
        requires
            old(self).wf(),
            old(self).count < usize::MAX,
        ensures
            final(self).wf(),
            final(self).items@ == old(self).items@.push(item@),
            final(self).level == old(self).level,
            final(self).open == old(self).open,
            final(self).close == old(self).close,
    {
        if self.count == 0 {
            self.text.append("\n");
        } else {
            self.text.append(",\n");
        }
        push_pad(&mut self.text, self.level + 1);
        self.text.append(item);
        let ghost items = self.items@.push(item@);
        assert(items.drop_last() =~= self.items@);
        self.items = Ghost(items);
        self.count = self.count + 1;
        assert(self.text@ =~= seq![self.open] + container_items(self.items@, self.level as nat));
    }

    fn finish(self) -> (r: String)
        requires
            self.wf(),
        ensures
            r@ == container(self.open, self.close, self.items@, self.level as nat),
    {
        let mut text = self.text;
        if self.count > 0 {
            text.append("\n");
            push_pad(&mut text, self.level);
        }
        text.push(self.close);
        assert(text@ =~= container(self.open, self.close, self.items@, self.level as nat));
        text
    }
}

fn push_pad(out: &mut String, n: usize)
    ensures
        final(out)@ == old(out)@ + pad(n as nat),
{
    let ghost start = out@;
    let mut i: usize = 0;
    while i < n
        invariant
            i <= n,
            out@ == start + pad(i as nat),
        decreases n - i,
    {
        out.append("  ");
        assert(out@ =~= start + pad((i + 1) as nat));
        i += 1;
    }
}

fn field_of(key: &str, value: &str) -> (r: String)
    ensures
        r@ == field(key@, value@),
{
    let mut out = escape_json_string(key, false);
    out.append(": ");
    out.append(value);
    assert(out@ =~= field(key@, value@));
    out
}

fn str_of(s: &str) -> (r: String)
    ensures
        r@ == str_val(s@),
{
    escape_json_string(s, false)
}

fn opt_str_of(o: &Option<String>) -> (r: String)
    ensures
        r@ == opt_str_val(*o),
{
    match o {
        Some(s) => str_of(s.as_str()),
        None => {
            let mut r = String::new();
            r.append("null");
            r
        },
    }
}

fn opt_u32_of(o: Option<u32>) -> (r: String)
    ensures
        r@ == opt_u32_val(o),
{
    let mut r = String::new();
    match o {
        Some(v) => push_decimal(&mut r, v as u64),
        None => r.append("null"),
    }
    r
}

fn real_of(x: &Real) -> (r: String)
    ensures
        r@ == real_val(*x),
{
    let mut r = String::new();
    match &x.shortest {
        Some(t) => r.append(t.as_str()),
        None => r.append("null"),
    }
    r
}

fn opt_real_of(o: &Option<Real>) -> (r: String)
    ensures
        r@ == opt_real_val(*o),
{
    match o {
        Some(x) => real_of(x),
        None => {
            let mut r = String::new();
            r.append("null");
            r
        },
    }
}

fn str_array_of(items: &Vec<String>, level: usize) -> (r: String)
    requires
        level < 64,
    ensures
        r@ == str_array(items@, level as nat),
{
    let mut c = Container::start('[', ']', level);
    let mut i: usize = 0;
    assert(quoted_all(items@.take(0)) =~= Seq::empty());
    while i < items.len()
        invariant
            i <= items.len(),
            c.wf(),
            c.level == level,
            c.open == '[',
            c.close == ']',
            c.items@ == quoted_all(items@.take(i as int)),
        decreases items.len() - i,
    {
        c.add(str_of(items[i].as_str()).as_str());
        assert(quoted_all(items@.take(i + 1)) =~= quoted_all(items@.take(i as int)).push(str_val(items@[i as int]@)));
        i += 1;
    }
    assert(items@.take(items@.len() as int) =~= items@);
    c.finish()
}

// ---------------------------------------------------------------------------
// The document
// ---------------------------------------------------------------------------

pub open spec fn kind_name(kind: SymbolDocKind) -> Seq<char> {
    match kind {
        SymbolDocKind::Channel => "channel"@,
        SymbolDocKind::Parameter => "parameter"@,
        SymbolDocKind::Constant => "constant"@,
    }
}

/// The documented kind of a symbol, as a stable lowercase string.
fn kind_str(kind: SymbolDocKind) -> (r: &'static str)
    ensures
        r@ == kind_name(kind),
{
    match kind {
        SymbolDocKind::Channel => "channel",
        SymbolDocKind::Parameter => "parameter",
        SymbolDocKind::Constant => "constant",
    }
}

#[verifier::opaque]
pub open spec fn edge_json(e: GraphEdge, level: nat) -> Seq<char> {
    obj(
        Seq::empty()
            .push(field("from"@, str_val(e.from@)))
            .push(field("to"@, str_val(e.to@)))
            .push(field("kind"@, str_val(spec_edge_kind_name(e.kind)))),
        level,
    )
}

#[verifier::opaque]
pub open spec fn reference_json(r: ReferenceDoc, level: nat) -> Seq<char> {
    obj(
        Seq::empty()
            .push(field("path"@, str_val(r.path@)))
            .push(field("anchor"@, str_val(r.anchor@)))
            .push(field("target_raw"@, str_val(r.target_raw@)))
            .push(field("target_resolved"@, opt_str_val(r.target_resolved))),
        level,
    )
}

#[verifier::opaque]
pub open spec fn symbol_json(s: SymbolDoc, level: nat) -> Seq<char> {
    obj(
        Seq::empty()
            .push(field("path"@, str_val(s.path@)))
            .push(field("anchor"@, str_val(s.anchor@)))
            .push(field("kind"@, str_val(kind_name(s.kind))))
            .push(field("type_label"@, str_val(s.type_label@)))
            .push(field("quantity"@, opt_str_val(s.quantity)))
            .push(field("unit"@, opt_str_val(s.unit)))
            .push(field("base_unit"@, opt_str_val(s.base_unit)))
            .push(field("log_rate_hz"@, opt_real_val(s.log_rate_hz)))
            .push(field("security"@, opt_str_val(s.security)))
            .push(field("enum_ref"@, opt_str_val(s.enum_ref)))
            .push(field("classname"@, opt_str_val(s.classname)))
            .push(field("tags"@, str_array(s.tags@, level + 1))),
        level,
    )
}

#[verifier::opaque]
pub open spec fn input_json(input: (String, String), level: nat) -> Seq<char> {
    obj(Seq::empty().push(field("name"@, str_val(input.0@))).push(field("type"@, str_val(input.1@))), level)
}

#[verifier::opaque]
pub open spec fn annotation_json(a: AnnotationDoc, level: nat) -> Seq<char> {
    obj(Seq::empty().push(field("kind"@, str_val(a.kind@))).push(field("args"@, str_array(a.args@, level + 1))), level)
}

pub open spec fn inputs_items(inputs: Seq<(String, String)>, level: nat) -> Seq<Seq<char>> {
    inputs.map_values(|i: (String, String)| input_json(i, level))
}

pub open spec fn annotations_items(anns: Seq<AnnotationDoc>, level: nat) -> Seq<Seq<char>> {
    anns.map_values(|a: AnnotationDoc| annotation_json(a, level))
}

#[verifier::opaque]
pub open spec fn function_json(f: FunctionDoc, level: nat) -> Seq<char> {
    obj(
        Seq::empty()
            .push(field("path"@, str_val(f.path@)))
            .push(field("anchor"@, str_val(f.anchor@)))
            .push(field("inputs"@, arr(inputs_items(f.inputs@, level + 2), level + 1)))
            .push(field("return_type"@, opt_str_val(f.return_type)))
            .push(field("annotations"@, arr(annotations_items(f.annotations@, level + 2), level + 1)))
            .push(field("call_rate_hz"@, opt_real_val(f.call_rate_hz)))
            .push(field("source_path"@, opt_str_val(f.source_path))),
        level,
    )
}

#[verifier::opaque]
pub open spec fn axis_json(a: TableAxisDoc, level: nat) -> Seq<char> {
    obj(Seq::empty().push(field("size"@, decimal(a.size as nat))).push(field("unit"@, opt_str_val(a.unit))), level)
}

pub open spec fn axes_items(axes: Seq<TableAxisDoc>, level: nat) -> Seq<Seq<char>> {
    axes.map_values(|a: TableAxisDoc| axis_json(a, level))
}

#[verifier::opaque]
pub open spec fn table_json(t: TableDoc, level: nat) -> Seq<char> {
    obj(
        Seq::empty()
            .push(field("path"@, str_val(t.path@)))
            .push(field("anchor"@, str_val(t.anchor@)))
            .push(field("axes"@, arr(axes_items(t.axes@, level + 2), level + 1)))
            .push(field("output_unit"@, opt_str_val(t.output_unit))),
        level,
    )
}

#[verifier::opaque]
pub open spec fn object_json(o: ObjectDoc, level: nat) -> Seq<char> {
    obj(
        Seq::empty()
            .push(field("path"@, str_val(o.path@)))
            .push(field("anchor"@, str_val(o.anchor@)))
            .push(field("class"@, opt_str_val(o.class)))
            .push(field("members"@, str_array(o.members@, level + 1))),
        level,
    )
}

/// A physical range as a one-line `[min, max]` pair, or `null`.
pub open spec fn range_val(r: Option<(Real, Real)>) -> Seq<char> {
    match r {
        Some((lo, hi)) => "["@ + real_val(lo) + ", "@ + real_val(hi) + "]"@,
        None => "null"@,
    }
}

#[verifier::opaque]
pub open spec fn signal_json(s: CanSignalDoc, level: nat) -> Seq<char> {
    obj(
        Seq::empty()
            .push(field("path"@, str_val(s.path@)))
            .push(field("anchor"@, str_val(s.anchor@)))
            .push(field("start_bit"@, opt_u32_val(s.start_bit)))
            .push(field("length"@, opt_u32_val(s.length)))
            .push(field("multiplier"@, opt_real_val(s.multiplier)))
            .push(field("offset"@, opt_real_val(s.offset)))
            .push(field("range"@, range_val(s.range)))
            .push(field("unit"@, opt_str_val(s.unit))),
        level,
    )
}

pub open spec fn signals_items(signals: Seq<CanSignalDoc>, level: nat) -> Seq<Seq<char>> {
    signals.map_values(|s: CanSignalDoc| signal_json(s, level))
}

#[verifier::opaque]
pub open spec fn can_message_json(m: CanMessageDoc, level: nat) -> Seq<char> {
    obj(
        Seq::empty()
            .push(field("path"@, str_val(m.path@)))
            .push(field("anchor"@, str_val(m.anchor@)))
            .push(field("id"@, opt_u32_val(m.can_id)))
            .push(field("dlc"@, opt_u32_val(m.dlc)))
            .push(field("signals"@, arr(signals_items(m.signals@, level + 2), level + 1))),
        level,
    )
}

pub open spec fn symbols_items(items: Seq<SymbolDoc>, level: nat) -> Seq<Seq<char>> {
    items.map_values(|s: SymbolDoc| symbol_json(s, level))
}

pub open spec fn functions_items(items: Seq<FunctionDoc>, level: nat) -> Seq<Seq<char>> {
    items.map_values(|f: FunctionDoc| function_json(f, level))
}

pub open spec fn tables_items(items: Seq<TableDoc>, level: nat) -> Seq<Seq<char>> {
    items.map_values(|t: TableDoc| table_json(t, level))
}

pub open spec fn objects_items(items: Seq<ObjectDoc>, level: nat) -> Seq<Seq<char>> {
    items.map_values(|o: ObjectDoc| object_json(o, level))
}

pub open spec fn messages_items(items: Seq<CanMessageDoc>, level: nat) -> Seq<Seq<char>> {
    items.map_values(|m: CanMessageDoc| can_message_json(m, level))
}

pub open spec fn references_items(items: Seq<ReferenceDoc>, level: nat) -> Seq<Seq<char>> {
    items.map_values(|r: ReferenceDoc| reference_json(r, level))
}

#[verifier::opaque]
pub open spec fn group_json(g: GroupDoc, level: nat) -> Seq<char> {
    obj(
        Seq::empty()
            .push(field("path"@, str_val(g.path@)))
            .push(field("symbols"@, arr(symbols_items(g.symbols@, level + 2), level + 1)))
            .push(field("functions"@, arr(functions_items(g.functions@, level + 2), level + 1)))
            .push(field("tables"@, arr(tables_items(g.tables@, level + 2), level + 1)))
            .push(field("objects"@, arr(objects_items(g.objects@, level + 2), level + 1)))
            .push(field("can_messages"@, arr(messages_items(g.can_messages@, level + 2), level + 1)))
            .push(field("references"@, arr(references_items(g.references@, level + 2), level + 1)))
            .push(field("children"@, str_array(g.children@, level + 1))),
        level,
    )
}

/// The names of an enum's members.
pub open spec fn member_names(ms: Seq<EnumMemberDoc>) -> Seq<Seq<char>> {
    ms.map_values(|m: EnumMemberDoc| str_val(m.name@))
}

#[verifier::opaque]
pub open spec fn enum_json(e: EnumDoc, level: nat) -> Seq<char> {
    obj(
        Seq::empty()
            .push(field("name"@, str_val(e.name@)))
            .push(field("anchor"@, str_val(e.anchor@)))
            .push(field("members"@, arr(member_names(e.members@), level + 1)))
            .push(field("default"@, opt_str_val(e.default)))
            .push(field("open"@, bool_val(e.open))),
        level,
    )
}

pub open spec fn groups_items(items: Seq<GroupDoc>, level: nat) -> Seq<Seq<char>> {
    items.map_values(|g: GroupDoc| group_json(g, level))
}

pub open spec fn enums_items(items: Seq<EnumDoc>, level: nat) -> Seq<Seq<char>> {
    items.map_values(|e: EnumDoc| enum_json(e, level))
}

pub open spec fn edges_items(items: Seq<GraphEdge>, level: nat) -> Seq<Seq<char>> {
    items.map_values(|e: GraphEdge| edge_json(e, level))
}

/// The whole document: the schema version, the title, the target hardware,
/// the groups, the enums and the graph's edges, then a newline.
pub open spec fn model_json(m: DocModel) -> Seq<char> {
    obj(
        Seq::empty()
            .push(field("schema_version"@, decimal(SCHEMA_VERSION as nat)))
            .push(field("title"@, str_val(m.title@)))
            .push(field("target_hardware"@, opt_str_val(m.target_hardware)))
            .push(field("groups"@, arr(groups_items(m.groups@, 2), 1)))
            .push(field("enums"@, arr(enums_items(m.enums@, 2), 1)))
            .push(field("graph"@, obj(seq![field("edges"@, arr(edges_items(m.graph.edges@, 3), 2))], 1))),
        0,
    ) + "\n"@
}

fn edge_of(e: &GraphEdge, level: usize) -> (r: String)
    requires
        level < 62,
    ensures
        r@ == edge_json(*e, level as nat),
{
    let mut c = Container::start('{', '}', level);
    c.add(field_of("from", str_of(e.from.as_str()).as_str()).as_str());
    c.add(field_of("to", str_of(e.to.as_str()).as_str()).as_str());
    c.add(field_of("kind", str_of(e.kind.as_str()).as_str()).as_str());
    reveal(edge_json);
    c.finish()
}

fn reference_of(r: &ReferenceDoc, level: usize) -> (out: String)
    requires
        level < 62,
    ensures
        out@ == reference_json(*r, level as nat),
{
    let mut c = Container::start('{', '}', level);
    c.add(field_of("path", str_of(r.path.as_str()).as_str()).as_str());
    c.add(field_of("anchor", str_of(r.anchor.as_str()).as_str()).as_str());
    c.add(field_of("target_raw", str_of(r.target_raw.as_str()).as_str()).as_str());
    c.add(field_of("target_resolved", opt_str_of(&r.target_resolved).as_str()).as_str());
    reveal(reference_json);
    c.finish()
}

fn symbol_of(s: &SymbolDoc, level: usize) -> (r: String)
    requires
        level < 60,
    ensures
        r@ == symbol_json(*s, level as nat),
{
    let mut c = Container::start('{', '}', level);
    c.add(field_of("path", str_of(s.path.as_str()).as_str()).as_str());
    c.add(field_of("anchor", str_of(s.anchor.as_str()).as_str()).as_str());
    c.add(field_of("kind", str_of(kind_str(s.kind)).as_str()).as_str());
    c.add(field_of("type_label", str_of(s.type_label.as_str()).as_str()).as_str());
    c.add(field_of("quantity", opt_str_of(&s.quantity).as_str()).as_str());
    c.add(field_of("unit", opt_str_of(&s.unit).as_str()).as_str());
    c.add(field_of("base_unit", opt_str_of(&s.base_unit).as_str()).as_str());
    c.add(field_of("log_rate_hz", opt_real_of(&s.log_rate_hz).as_str()).as_str());
    c.add(field_of("security", opt_str_of(&s.security).as_str()).as_str());
    c.add(field_of("enum_ref", opt_str_of(&s.enum_ref).as_str()).as_str());
    c.add(field_of("classname", opt_str_of(&s.classname).as_str()).as_str());
    c.add(field_of("tags", str_array_of(&s.tags, level + 1).as_str()).as_str());
    reveal(symbol_json);
    c.finish()
}

fn input_of(input: &(String, String), level: usize) -> (r: String)
    requires
        level < 62,
    ensures
        r@ == input_json(*input, level as nat),
{
    let mut c = Container::start('{', '}', level);
    c.add(field_of("name", str_of(input.0.as_str()).as_str()).as_str());
    c.add(field_of("type", str_of(input.1.as_str()).as_str()).as_str());
    reveal(input_json);
    c.finish()
}

fn annotation_of(a: &AnnotationDoc, level: usize) -> (r: String)
    requires
        level < 62,
    ensures
        r@ == annotation_json(*a, level as nat),
{
    let mut c = Container::start('{', '}', level);
    c.add(field_of("kind", str_of(a.kind.as_str()).as_str()).as_str());
    c.add(field_of("args", str_array_of(&a.args, level + 1).as_str()).as_str());
    reveal(annotation_json);
    c.finish()
}

fn inputs_arr(items: &Vec<(String, String)>, level: usize) -> (r: String)
    requires
        level < 60,
    ensures
        r@ == arr(inputs_items(items@, (level + 1) as nat), level as nat),
{
    let mut c = Container::start('[', ']', level);
    let mut i: usize = 0;
    assert(inputs_items(items@.take(0), (level + 1) as nat) =~= Seq::empty());
    while i < items.len()
        invariant
            i <= items.len(),
            level < 60,
            c.wf(),
            c.level == level,
            c.open == '[',
            c.close == ']',
            c.items@ == inputs_items(items@.take(i as int), (level + 1) as nat),
        decreases items.len() - i,
    {
        let item = input_of(&items[i], level + 1);
        c.add(item.as_str());
        assert(inputs_items(items@.take(i + 1), (level + 1) as nat) =~= inputs_items(items@.take(i as int), (level + 1) as nat).push(
            input_json(items@[i as int], (level + 1) as nat),
        ));
        i += 1;
    }
    assert(items@.take(items@.len() as int) =~= items@);
    c.finish()
}

fn annotations_arr(items: &Vec<AnnotationDoc>, level: usize) -> (r: String)
    requires
        level < 60,
    ensures
        r@ == arr(annotations_items(items@, (level + 1) as nat), level as nat),
{
    let mut c = Container::start('[', ']', level);
    let mut i: usize = 0;
    assert(annotations_items(items@.take(0), (level + 1) as nat) =~= Seq::empty());
    while i < items.len()
        invariant
            i <= items.len(),
            level < 60,
            c.wf(),
            c.level == level,
            c.open == '[',
            c.close == ']',
            c.items@ == annotations_items(items@.take(i as int), (level + 1) as nat),
        decreases items.len() - i,
    {
        let item = annotation_of(&items[i], level + 1);
        c.add(item.as_str());
        assert(annotations_items(items@.take(i + 1), (level + 1) as nat) =~= annotations_items(items@.take(i as int), (level + 1) as nat).push(
            annotation_json(items@[i as int], (level + 1) as nat),
        ));
        i += 1;
    }
    assert(items@.take(items@.len() as int) =~= items@);
    c.finish()
}

fn function_of(f: &FunctionDoc, level: usize) -> (r: String)
    requires
        level < 58,
    ensures
        r@ == function_json(*f, level as nat),
{
    let mut c = Container::start('{', '}', level);
    c.add(field_of("path", str_of(f.path.as_str()).as_str()).as_str());
    c.add(field_of("anchor", str_of(f.anchor.as_str()).as_str()).as_str());
    c.add(field_of("inputs", inputs_arr(&f.inputs, level + 1).as_str()).as_str());
    c.add(field_of("return_type", opt_str_of(&f.return_type).as_str()).as_str());
    c.add(field_of("annotations", annotations_arr(&f.annotations, level + 1).as_str()).as_str());
    c.add(field_of("call_rate_hz", opt_real_of(&f.call_rate_hz).as_str()).as_str());
    c.add(field_of("source_path", opt_str_of(&f.source_path).as_str()).as_str());
    reveal(function_json);
    c.finish()
}

fn axis_of(a: &TableAxisDoc, level: usize) -> (r: String)
    requires
        level < 62,
    ensures
        r@ == axis_json(*a, level as nat),
{
    let mut c = Container::start('{', '}', level);
    c.add(field_of("size", opt_u32_of(Some(a.size)).as_str()).as_str());
    c.add(field_of("unit", opt_str_of(&a.unit).as_str()).as_str());
    reveal(axis_json);
    c.finish()
}

fn axes_arr(items: &Vec<TableAxisDoc>, level: usize) -> (r: String)
    requires
        level < 60,
    ensures
        r@ == arr(axes_items(items@, (level + 1) as nat), level as nat),
{
    let mut c = Container::start('[', ']', level);
    let mut i: usize = 0;
    assert(axes_items(items@.take(0), (level + 1) as nat) =~= Seq::empty());
    while i < items.len()
        invariant
            i <= items.len(),
            level < 60,
            c.wf(),
            c.level == level,
            c.open == '[',
            c.close == ']',
            c.items@ == axes_items(items@.take(i as int), (level + 1) as nat),
        decreases items.len() - i,
    {
        let item = axis_of(&items[i], level + 1);
        c.add(item.as_str());
        assert(axes_items(items@.take(i + 1), (level + 1) as nat) =~= axes_items(items@.take(i as int), (level + 1) as nat).push(
            axis_json(items@[i as int], (level + 1) as nat),
        ));
        i += 1;
    }
    assert(items@.take(items@.len() as int) =~= items@);
    c.finish()
}

fn table_of(t: &TableDoc, level: usize) -> (r: String)
    requires
        level < 58,
    ensures
        r@ == table_json(*t, level as nat),
{
    let mut c = Container::start('{', '}', level);
    c.add(field_of("path", str_of(t.path.as_str()).as_str()).as_str());
    c.add(field_of("anchor", str_of(t.anchor.as_str()).as_str()).as_str());
    c.add(field_of("axes", axes_arr(&t.axes, level + 1).as_str()).as_str());
    c.add(field_of("output_unit", opt_str_of(&t.output_unit).as_str()).as_str());
    reveal(table_json);
    c.finish()
}

fn object_of(o: &ObjectDoc, level: usize) -> (r: String)
    requires
        level < 60,
    ensures
        r@ == object_json(*o, level as nat),
{
    let mut c = Container::start('{', '}', level);
    c.add(field_of("path", str_of(o.path.as_str()).as_str()).as_str());
    c.add(field_of("anchor", str_of(o.anchor.as_str()).as_str()).as_str());
    c.add(field_of("class", opt_str_of(&o.class).as_str()).as_str());
    c.add(field_of("members", str_array_of(&o.members, level + 1).as_str()).as_str());
    reveal(object_json);
    c.finish()
}

fn range_of(r: &Option<(Real, Real)>) -> (out: String)
    ensures
        out@ == range_val(*r),
{
    let mut out = String::new();
    match r {
        Some((lo, hi)) => {
            out.append("[");
            out.append(real_of(lo).as_str());
            out.append(", ");
            out.append(real_of(hi).as_str());
            out.append("]");
        },
        None => out.append("null"),
    }
    assert(out@ =~= range_val(*r));
    out
}

fn signal_of(s: &CanSignalDoc, level: usize) -> (r: String)
    requires
        level < 62,
    ensures
        r@ == signal_json(*s, level as nat),
{
    let mut c = Container::start('{', '}', level);
    c.add(field_of("path", str_of(s.path.as_str()).as_str()).as_str());
    c.add(field_of("anchor", str_of(s.anchor.as_str()).as_str()).as_str());
    c.add(field_of("start_bit", opt_u32_of(s.start_bit).as_str()).as_str());
    c.add(field_of("length", opt_u32_of(s.length).as_str()).as_str());
    c.add(field_of("multiplier", opt_real_of(&s.multiplier).as_str()).as_str());
    c.add(field_of("offset", opt_real_of(&s.offset).as_str()).as_str());
    c.add(field_of("range", range_of(&s.range).as_str()).as_str());
    c.add(field_of("unit", opt_str_of(&s.unit).as_str()).as_str());
    reveal(signal_json);
    c.finish()
}

fn signals_arr(items: &Vec<CanSignalDoc>, level: usize) -> (r: String)
    requires
        level < 60,
    ensures
        r@ == arr(signals_items(items@, (level + 1) as nat), level as nat),
{
    let mut c = Container::start('[', ']', level);
    let mut i: usize = 0;
    assert(signals_items(items@.take(0), (level + 1) as nat) =~= Seq::empty());
    while i < items.len()
        invariant
            i <= items.len(),
            level < 60,
            c.wf(),
            c.level == level,
            c.open == '[',
            c.close == ']',
            c.items@ == signals_items(items@.take(i as int), (level + 1) as nat),
        decreases items.len() - i,
    {
        let item = signal_of(&items[i], level + 1);
        c.add(item.as_str());
        assert(signals_items(items@.take(i + 1), (level + 1) as nat) =~= signals_items(items@.take(i as int), (level + 1) as nat).push(
            signal_json(items@[i as int], (level + 1) as nat),
        ));
        i += 1;
    }
    assert(items@.take(items@.len() as int) =~= items@);
    c.finish()
}

fn can_message_of(m: &CanMessageDoc, level: usize) -> (r: String)
    requires
        level < 58,
    ensures
        r@ == can_message_json(*m, level as nat),
{
    let mut c = Container::start('{', '}', level);
    c.add(field_of("path", str_of(m.path.as_str()).as_str()).as_str());
    c.add(field_of("anchor", str_of(m.anchor.as_str()).as_str()).as_str());
    c.add(field_of("id", opt_u32_of(m.can_id).as_str()).as_str());
    c.add(field_of("dlc", opt_u32_of(m.dlc).as_str()).as_str());
    c.add(field_of("signals", signals_arr(&m.signals, level + 1).as_str()).as_str());
    reveal(can_message_json);
    c.finish()
}

fn symbols_arr(items: &Vec<SymbolDoc>, level: usize) -> (r: String)
    requires
        level < 56,
    ensures
        r@ == arr(symbols_items(items@, (level + 1) as nat), level as nat),
{
    let mut c = Container::start('[', ']', level);
    let mut i: usize = 0;
    assert(symbols_items(items@.take(0), (level + 1) as nat) =~= Seq::empty());
    while i < items.len()
        invariant
            i <= items.len(),
            level < 56,
            c.wf(),
            c.level == level,
            c.open == '[',
            c.close == ']',
            c.items@ == symbols_items(items@.take(i as int), (level + 1) as nat),
        decreases items.len() - i,
    {
        let item = symbol_of(&items[i], level + 1);
        c.add(item.as_str());
        assert(symbols_items(items@.take(i + 1), (level + 1) as nat) =~= symbols_items(items@.take(i as int), (level + 1) as nat).push(
            symbol_json(items@[i as int], (level + 1) as nat),
        ));
        i += 1;
    }
    assert(items@.take(items@.len() as int) =~= items@);
    c.finish()
}

fn functions_arr(items: &Vec<FunctionDoc>, level: usize) -> (r: String)
    requires
        level < 56,
    ensures
        r@ == arr(functions_items(items@, (level + 1) as nat), level as nat),
{
    let mut c = Container::start('[', ']', level);
    let mut i: usize = 0;
    assert(functions_items(items@.take(0), (level + 1) as nat) =~= Seq::empty());
    while i < items.len()
        invariant
            i <= items.len(),
            level < 56,
            c.wf(),
            c.level == level,
            c.open == '[',
            c.close == ']',
            c.items@ == functions_items(items@.take(i as int), (level + 1) as nat),
        decreases items.len() - i,
    {
        let item = function_of(&items[i], level + 1);
        c.add(item.as_str());
        assert(functions_items(items@.take(i + 1), (level + 1) as nat) =~= functions_items(items@.take(i as int), (level + 1) as nat).push(
            function_json(items@[i as int], (level + 1) as nat),
        ));
        i += 1;
    }
    assert(items@.take(items@.len() as int) =~= items@);
    c.finish()
}

fn tables_arr(items: &Vec<TableDoc>, level: usize) -> (r: String)
    requires
        level < 56,
    ensures
        r@ == arr(tables_items(items@, (level + 1) as nat), level as nat),
{
    let mut c = Container::start('[', ']', level);
    let mut i: usize = 0;
    assert(tables_items(items@.take(0), (level + 1) as nat) =~= Seq::empty());
    while i < items.len()
        invariant
            i <= items.len(),
            level < 56,
            c.wf(),
            c.level == level,
            c.open == '[',
            c.close == ']',
            c.items@ == tables_items(items@.take(i as int), (level + 1) as nat),
        decreases items.len() - i,
    {
        let item = table_of(&items[i], level + 1);
        c.add(item.as_str());
        assert(tables_items(items@.take(i + 1), (level + 1) as nat) =~= tables_items(items@.take(i as int), (level + 1) as nat).push(
            table_json(items@[i as int], (level + 1) as nat),
        ));
        i += 1;
    }
    assert(items@.take(items@.len() as int) =~= items@);
    c.finish()
}

fn objects_arr(items: &Vec<ObjectDoc>, level: usize) -> (r: String)
    requires
        level < 56,
    ensures
        r@ == arr(objects_items(items@, (level + 1) as nat), level as nat),
{
    let mut c = Container::start('[', ']', level);
    let mut i: usize = 0;
    assert(objects_items(items@.take(0), (level + 1) as nat) =~= Seq::empty());
    while i < items.len()
        invariant
            i <= items.len(),
            level < 56,
            c.wf(),
            c.level == level,
            c.open == '[',
            c.close == ']',
            c.items@ == objects_items(items@.take(i as int), (level + 1) as nat),
        decreases items.len() - i,
    {
        let item = object_of(&items[i], level + 1);
        c.add(item.as_str());
        assert(objects_items(items@.take(i + 1), (level + 1) as nat) =~= objects_items(items@.take(i as int), (level + 1) as nat).push(
            object_json(items@[i as int], (level + 1) as nat),
        ));
        i += 1;
    }
    assert(items@.take(items@.len() as int) =~= items@);
    c.finish()
}

fn messages_arr(items: &Vec<CanMessageDoc>, level: usize) -> (r: String)
    requires
        level < 56,
    ensures
        r@ == arr(messages_items(items@, (level + 1) as nat), level as nat),
{
    let mut c = Container::start('[', ']', level);
    let mut i: usize = 0;
    assert(messages_items(items@.take(0), (level + 1) as nat) =~= Seq::empty());
    while i < items.len()
        invariant
            i <= items.len(),
            level < 56,
            c.wf(),
            c.level == level,
            c.open == '[',
            c.close == ']',
            c.items@ == messages_items(items@.take(i as int), (level + 1) as nat),
        decreases items.len() - i,
    {
        let item = can_message_of(&items[i], level + 1);
        c.add(item.as_str());
        assert(messages_items(items@.take(i + 1), (level + 1) as nat) =~= messages_items(items@.take(i as int), (level + 1) as nat).push(
            can_message_json(items@[i as int], (level + 1) as nat),
        ));
        i += 1;
    }
    assert(items@.take(items@.len() as int) =~= items@);
    c.finish()
}

fn references_arr(items: &Vec<ReferenceDoc>, level: usize) -> (r: String)
    requires
        level < 56,
    ensures
        r@ == arr(references_items(items@, (level + 1) as nat), level as nat),
{
    let mut c = Container::start('[', ']', level);
    let mut i: usize = 0;
    assert(references_items(items@.take(0), (level + 1) as nat) =~= Seq::empty());
    while i < items.len()
        invariant
            i <= items.len(),
            level < 56,
            c.wf(),
            c.level == level,
            c.open == '[',
            c.close == ']',
            c.items@ == references_items(items@.take(i as int), (level + 1) as nat),
        decreases items.len() - i,
    {
        let item = reference_of(&items[i], level + 1);
        c.add(item.as_str());
        assert(references_items(items@.take(i + 1), (level + 1) as nat) =~= references_items(items@.take(i as int), (level + 1) as nat).push(
            reference_json(items@[i as int], (level + 1) as nat),
        ));
        i += 1;
    }
    assert(items@.take(items@.len() as int) =~= items@);
    c.finish()
}

fn group_of(g: &GroupDoc, level: usize) -> (r: String)
    requires
        level < 54,
    ensures
        r@ == group_json(*g, level as nat),
{
    let mut c = Container::start('{', '}', level);
    c.add(field_of("path", str_of(g.path.as_str()).as_str()).as_str());
    c.add(field_of("symbols", symbols_arr(&g.symbols, level + 1).as_str()).as_str());
    c.add(field_of("functions", functions_arr(&g.functions, level + 1).as_str()).as_str());
    c.add(field_of("tables", tables_arr(&g.tables, level + 1).as_str()).as_str());
    c.add(field_of("objects", objects_arr(&g.objects, level + 1).as_str()).as_str());
    c.add(field_of("can_messages", messages_arr(&g.can_messages, level + 1).as_str()).as_str());
    c.add(field_of("references", references_arr(&g.references, level + 1).as_str()).as_str());
    c.add(field_of("children", str_array_of(&g.children, level + 1).as_str()).as_str());
    reveal(group_json);
    c.finish()
}

fn members_arr(ms: &Vec<EnumMemberDoc>, level: usize) -> (r: String)
    requires
        level < 60,
    ensures
        r@ == arr(member_names(ms@), level as nat),
{
    let mut c = Container::start('[', ']', level);
    let mut i: usize = 0;
    assert(member_names(ms@.take(0)) =~= Seq::empty());
    while i < ms.len()
        invariant
            i <= ms.len(),
            c.wf(),
            c.level == level,
            c.open == '[',
            c.close == ']',
            c.items@ == member_names(ms@.take(i as int)),
        decreases ms.len() - i,
    {
        c.add(str_of(ms[i].name.as_str()).as_str());
        assert(member_names(ms@.take(i + 1)) =~= member_names(ms@.take(i as int)).push(str_val(ms@[i as int].name@)));
        i += 1;
    }
    assert(ms@.take(ms@.len() as int) =~= ms@);
    c.finish()
}

fn enum_of(e: &EnumDoc, level: usize) -> (r: String)
    requires
        level < 58,
    ensures
        r@ == enum_json(*e, level as nat),
{
    let mut c = Container::start('{', '}', level);
    c.add(field_of("name", str_of(e.name.as_str()).as_str()).as_str());
    c.add(field_of("anchor", str_of(e.anchor.as_str()).as_str()).as_str());
    c.add(field_of("members", members_arr(&e.members, level + 1).as_str()).as_str());
    c.add(field_of("default", opt_str_of(&e.default).as_str()).as_str());
    let mut b = String::new();
    if e.open {
        b.append("true");
    } else {
        b.append("false");
    }
    c.add(field_of("open", b.as_str()).as_str());
    reveal(enum_json);
    c.finish()
}

fn groups_arr(items: &Vec<GroupDoc>, level: usize) -> (r: String)
    requires
        level < 52,
    ensures
        r@ == arr(groups_items(items@, (level + 1) as nat), level as nat),
{
    let mut c = Container::start('[', ']', level);
    let mut i: usize = 0;
    assert(groups_items(items@.take(0), (level + 1) as nat) =~= Seq::empty());
    while i < items.len()
        invariant
            i <= items.len(),
            level < 52,
            c.wf(),
            c.level == level,
            c.open == '[',
            c.close == ']',
            c.items@ == groups_items(items@.take(i as int), (level + 1) as nat),
        decreases items.len() - i,
    {
        let item = group_of(&items[i], level + 1);
        c.add(item.as_str());
        assert(groups_items(items@.take(i + 1), (level + 1) as nat) =~= groups_items(items@.take(i as int), (level + 1) as nat).push(
            group_json(items@[i as int], (level + 1) as nat),
        ));
        i += 1;
    }
    assert(items@.take(items@.len() as int) =~= items@);
    c.finish()
}

fn enums_arr(items: &Vec<EnumDoc>, level: usize) -> (r: String)
    requires
        level < 56,
    ensures
        r@ == arr(enums_items(items@, (level + 1) as nat), level as nat),
{
    let mut c = Container::start('[', ']', level);
    let mut i: usize = 0;
    assert(enums_items(items@.take(0), (level + 1) as nat) =~= Seq::empty());
    while i < items.len()
        invariant
            i <= items.len(),
            level < 56,
            c.wf(),
            c.level == level,
            c.open == '[',
            c.close == ']',
            c.items@ == enums_items(items@.take(i as int), (level + 1) as nat),
        decreases items.len() - i,
    {
        let item = enum_of(&items[i], level + 1);
        c.add(item.as_str());
        assert(enums_items(items@.take(i + 1), (level + 1) as nat) =~= enums_items(items@.take(i as int), (level + 1) as nat).push(
            enum_json(items@[i as int], (level + 1) as nat),
        ));
        i += 1;
    }
    assert(items@.take(items@.len() as int) =~= items@);
    c.finish()
}

fn edges_arr(items: &Vec<GraphEdge>, level: usize) -> (r: String)
    requires
        level < 56,
    ensures
        r@ == arr(edges_items(items@, (level + 1) as nat), level as nat),
{
    let mut c = Container::start('[', ']', level);
    let mut i: usize = 0;
    assert(edges_items(items@.take(0), (level + 1) as nat) =~= Seq::empty());
    while i < items.len()
        invariant
            i <= items.len(),
            level < 56,
            c.wf(),
            c.level == level,
            c.open == '[',
            c.close == ']',
            c.items@ == edges_items(items@.take(i as int), (level + 1) as nat),
        decreases items.len() - i,
    {
        let item = edge_of(&items[i], level + 1);
        c.add(item.as_str());
        assert(edges_items(items@.take(i + 1), (level + 1) as nat) =~= edges_items(items@.take(i as int), (level + 1) as nat).push(
            edge_json(items@[i as int], (level + 1) as nat),
        ));
        i += 1;
    }
    assert(items@.take(items@.len() as int) =~= items@);
    c.finish()
}

/// Serialise the whole model to a pretty-printed JSON string with a trailing
/// newline. Two calls with an equal model give byte-identical strings.
pub fn render(model: &DocModel) -> (r: String)
    ensures
        r@ == model_json(*model),
{
    let mut c = Container::start('{', '}', 0);
    let mut version = String::new();
    push_decimal(&mut version, SCHEMA_VERSION as u64);
    c.add(field_of("schema_version", version.as_str()).as_str());
    c.add(field_of("title", str_of(model.title.as_str()).as_str()).as_str());
    c.add(field_of("target_hardware", opt_str_of(&model.target_hardware).as_str()).as_str());
    c.add(field_of("groups", groups_arr(&model.groups, 1).as_str()).as_str());
    c.add(field_of("enums", enums_arr(&model.enums, 1).as_str()).as_str());
    let mut graph = Container::start('{', '}', 1);
    graph.add(field_of("edges", edges_arr(&model.graph.edges, 2).as_str()).as_str());
    c.add(field_of("graph", graph.finish().as_str()).as_str());
    let mut out = c.finish();
    out.append("\n");
    out
}

/// An item of a container followed by another is written with the comma
/// that separates them.
proof fn lemma_items_hold(items: Seq<Seq<char>>, level: nat, k: int)
    requires
        0 <= k,
        k + 1 < items.len(),
    ensures
        contains_text(container_items(items, level), items[k] + ",\n"@),
    decreases items.len(),
{
    let d = items.drop_last();
    let last = items.last();
    reveal_strlit(",\n");
    if k + 2 == items.len() {
        let dd = d.drop_last();
        let sep: Seq<char> = if d.len() == 1 {
            "\n"@
        } else {
            ",\n"@
        };
        let a = container_items(dd, level) + sep + pad(level + 1);
        assert(d.last() == items[k]);
        assert(container_items(d, level) == a + items[k]);
        assert(container_items(items, level) == container_items(d, level) + ",\n"@ + pad(level + 1) + last);
        assert(container_items(items, level) =~= a + (items[k] + ",\n"@) + (pad(level + 1) + last));
        lemma_contains_prefix(items[k] + ",\n"@, Seq::empty());
        assert(items[k] + ",\n"@ + Seq::<char>::empty() =~= items[k] + ",\n"@);
        lemma_contains_in_context(a, items[k] + ",\n"@, pad(level + 1) + last, items[k] + ",\n"@);
    } else {
        assert(d[k] == items[k]);
        lemma_items_hold(d, level, k);
        assert(container_items(items, level) =~= container_items(d, level) + (",\n"@ + pad(level + 1) + last));
        lemma_contains_right(container_items(d, level), ",\n"@ + pad(level + 1) + last, items[k] + ",\n"@);
    }
}

/// In the JSON object of a CAN signal each key carries the signal's field of
/// the same name: `path`, `anchor`, `start_bit`, `length`, `multiplier`,
/// `offset` and `range` each followed by the next field, and `unit` last.
pub proof fn lemma_signal_json_fields(s: CanSignalDoc, level: nat)
    ensures
        contains_text(signal_json(s, level), field("path"@, str_val(s.path@)) + ",\n"@),
        contains_text(signal_json(s, level), field("anchor"@, str_val(s.anchor@)) + ",\n"@),
        contains_text(signal_json(s, level), field("start_bit"@, opt_u32_val(s.start_bit)) + ",\n"@),
        contains_text(signal_json(s, level), field("length"@, opt_u32_val(s.length)) + ",\n"@),
        contains_text(signal_json(s, level), field("multiplier"@, opt_real_val(s.multiplier)) + ",\n"@),
        contains_text(signal_json(s, level), field("offset"@, opt_real_val(s.offset)) + ",\n"@),
        contains_text(signal_json(s, level), field("range"@, range_val(s.range)) + ",\n"@),
        has_suffix(signal_json(s, level), field("unit"@, opt_str_val(s.unit)) + "\n"@ + pad(level) + seq!['}']),
{
    reveal(signal_json);
    let items = Seq::empty()
        .push(field("path"@, str_val(s.path@)))
        .push(field("anchor"@, str_val(s.anchor@)))
        .push(field("start_bit"@, opt_u32_val(s.start_bit)))
        .push(field("length"@, opt_u32_val(s.length)))
        .push(field("multiplier"@, opt_real_val(s.multiplier)))
        .push(field("offset"@, opt_real_val(s.offset)))
        .push(field("range"@, range_val(s.range)))
        .push(field("unit"@, opt_str_val(s.unit)));
    let tail = "\n"@ + pad(level) + seq!['}'];
    let t = signal_json(s, level);
    assert(t == seq!['{'] + container_items(items, level) + tail);
    lemma_items_hold(items, level, 0);
    lemma_contains_in_context(seq!['{'], container_items(items, level), tail, items[0] + ",\n"@);
    lemma_items_hold(items, level, 1);
    lemma_contains_in_context(seq!['{'], container_items(items, level), tail, items[1] + ",\n"@);
    lemma_items_hold(items, level, 2);
    lemma_contains_in_context(seq!['{'], container_items(items, level), tail, items[2] + ",\n"@);
    lemma_items_hold(items, level, 3);
    lemma_contains_in_context(seq!['{'], container_items(items, level), tail, items[3] + ",\n"@);
    lemma_items_hold(items, level, 4);
    lemma_contains_in_context(seq!['{'], container_items(items, level), tail, items[4] + ",\n"@);
    lemma_items_hold(items, level, 5);
    lemma_contains_in_context(seq!['{'], container_items(items, level), tail, items[5] + ",\n"@);
    lemma_items_hold(items, level, 6);
    lemma_contains_in_context(seq!['{'], container_items(items, level), tail, items[6] + ",\n"@);
    assert(contains_text(t, items[0] + ",\n"@));
    assert(contains_text(t, items[1] + ",\n"@));
    assert(contains_text(t, items[2] + ",\n"@));
    assert(contains_text(t, items[3] + ",\n"@));
    assert(contains_text(t, items[4] + ",\n"@));
    assert(contains_text(t, items[5] + ",\n"@));
    assert(contains_text(t, items[6] + ",\n"@));
    let last = items[7];
    let before = container_items(items.drop_last(), level) + ",\n"@ + pad(level + 1);
    assert(container_items(items, level) == before + last);
    let w = last + "\n"@ + pad(level) + seq!['}'];
    assert(t =~= (seq!['{'] + before) + w);
    assert(t.skip(t.len() - w.len()) =~= w);
}

} // verus!
