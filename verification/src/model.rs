//! The in-memory documentation model — the single source of truth that the
//! renderers read. Every renderer derives its output from these plain values.

use crate::text::{ascii_lower, ascii_lower_exec, chars_of, is_ascii_alnum, is_ascii_alnum_exec};
use vstd::prelude::*;

verus! {

/// A real number taken from the project (a rate, a CAN scale factor, a range
/// bound), carried as the decimal texts the renderers print. The texts are made
/// where the number is read, so the library itself never does floating-point
/// arithmetic.
#[derive(Debug, Clone, PartialEq, Default)]
pub struct Real {
    /// Fixed-point text with three decimals (`200.000`, `0.500`).
    pub fixed3: String,
    /// Fixed-point text with four decimals (`0.5000`, `-2.0000`).
    pub fixed4: String,
    /// Fixed-point text with four decimals of the absolute value.
    pub magnitude4: String,
    /// Whether the value is below zero.
    pub negative: bool,
    /// The shortest round-trip text (`200.0`, `0.5`), or `None` for a value with
    /// no JSON number form (`NaN`, `±inf`).
    pub shortest: Option<String>,
}

/// One `@m1:` annotation attached to a function's script.
///
/// Each argument is rendered to a `String`: a positional becomes its value; a
/// named becomes `key=value`.
#[derive(Debug, Clone, PartialEq, Default)]
pub struct AnnotationDoc {
    /// The bare kind name without the `@m1:` marker (e.g. `"requires-finite"`).
    pub kind: String,
    /// Each argument rendered as a string.
    pub args: Vec<String>,
}

/// One documented function or method.
#[derive(Debug, Clone, PartialEq, Default)]
pub struct FunctionDoc {
    pub path: String,
    /// Stable, page-unique anchor id (see [`anchor_slug`]).
    pub anchor: String,
    /// Declared inputs in declaration order, as `(name, type_label)`.
    pub inputs: Vec<(String, String)>,
    /// The inferred or declared return type label, when known.
    pub return_type: Option<String>,
    /// Every `@m1:` annotation of the function's script, in source order.
    pub annotations: Vec<AnnotationDoc>,
    /// Execution rate in Hz, when the function has a rate-bearing trigger.
    pub call_rate_hz: Option<Real>,
    /// Project-relative path of the implementing `.m1scr`, forward-slashed.
    pub source_path: Option<String>,
    /// The script body, when it was read.
    pub source_text: Option<String>,
}

/// One documented symbol (channel / parameter / constant).
#[derive(Debug, Clone, PartialEq, Default)]
pub struct SymbolDoc {
    pub path: String,
    /// Stable, page-unique anchor id (see [`anchor_slug`]).
    pub anchor: String,
    pub kind: SymbolDocKind,
    /// Tags of the symbol and every ancestor group (own tags first).
    pub tags: Vec<String>,
    /// The storage type to show.
    pub type_label: String,
    /// The physical quantity / dimension key (e.g. `rad/s`), when declared.
    pub quantity: Option<String>,
    /// The human-visible display unit (e.g. `rpm`).
    pub unit: Option<String>,
    /// The stored base unit derived from the quantity (e.g. `rad/s`).
    pub base_unit: Option<String>,
    /// Default logging rate in Hz, when set.
    pub log_rate_hz: Option<Real>,
    pub security: Option<String>,
    /// The name of the symbol's enum type, for an enum-typed symbol.
    pub enum_ref: Option<String>,
    /// The component's raw package classname (e.g. `BuiltIn.Channel`).
    pub classname: Option<String>,
    /// 0-based line of the symbol's declaration in the project file.
    pub def_line: Option<u32>,
}

/// One package-class object component with its class and immediate members.
#[derive(Debug, Clone, PartialEq, Default)]
pub struct ObjectDoc {
    pub path: String,
    /// Stable, page-unique anchor id (see [`anchor_slug`]).
    pub anchor: String,
    /// The component's package class, when known.
    pub class: Option<String>,
    /// Full paths of the object's immediate members, sorted.
    pub members: Vec<String>,
    /// 0-based line of the object's declaration in the project file.
    pub def_line: Option<u32>,
}

/// One CAN signal within a message frame: bit layout, linear scaling, physical
/// range, and unit. Every field is optional.
#[derive(Debug, Clone, PartialEq, Default)]
pub struct CanSignalDoc {
    pub path: String,
    /// Stable, page-unique anchor id (see [`anchor_slug`]).
    pub anchor: String,
    pub start_bit: Option<u32>,
    pub length: Option<u32>,
    /// Scale factor (`physical = raw * multiplier + offset`).
    pub multiplier: Option<Real>,
    pub offset: Option<Real>,
    /// Physical `(min, max)` range, when the signal is integer-typed.
    pub range: Option<(Real, Real)>,
    pub unit: Option<String>,
}

/// One CAN message frame with its id, dlc and signals (in bit order).
#[derive(Debug, Clone, PartialEq, Default)]
pub struct CanMessageDoc {
    pub path: String,
    /// Stable, page-unique anchor id (see [`anchor_slug`]).
    pub anchor: String,
    pub can_id: Option<u32>,
    pub dlc: Option<u32>,
    /// Signals in this frame, in bit order.
    pub signals: Vec<CanSignalDoc>,
    /// 0-based line of the message's declaration in the project file.
    pub def_line: Option<u32>,
}

/// One documented enum type: its name, enumerators, default, and whether it is
/// `open` (firmware-supplied — the listed members may not be exhaustive).
#[derive(Debug, Clone, PartialEq, Default)]
pub struct EnumDoc {
    pub name: String,
    /// Stable, page-unique anchor id within the Enums reference page.
    pub anchor: String,
    pub members: Vec<EnumMemberDoc>,
    pub default: Option<String>,
    pub open: bool,
}

/// One enumerator of an [`EnumDoc`]: its name and numeric value.
#[derive(Debug, Clone, PartialEq, Default)]
pub struct EnumMemberDoc {
    pub name: String,
    pub value: i64,
}

/// One input axis of a calibration table: breakpoint count and unit.
#[derive(Debug, Clone, PartialEq, Default)]
pub struct TableAxisDoc {
    pub size: u32,
    pub unit: Option<String>,
}

/// One documented calibration table; `axes` is in X, Y, Z order and empty when
/// the table's shape is unknown.
#[derive(Debug, Clone, PartialEq, Default)]
pub struct TableDoc {
    pub path: String,
    /// Stable, page-unique anchor id (see [`anchor_slug`]).
    pub anchor: String,
    pub axes: Vec<TableAxisDoc>,
    /// Unit of the interpolated output value, when known.
    pub output_unit: Option<String>,
    /// 0-based line of the table's declaration in the project file.
    pub def_line: Option<u32>,
}

/// The documented kind of a symbol.
#[derive(Debug, Clone, Copy, PartialEq, Eq, Default)]
pub enum SymbolDocKind {
    #[default]
    Channel,
    Parameter,
    Constant,
}

/// The section heading for a group page.
pub open spec fn spec_plural(kind: SymbolDocKind) -> Seq<char> {
    match kind {
        SymbolDocKind::Channel => "Channels"@,
        SymbolDocKind::Parameter => "Parameters"@,
        SymbolDocKind::Constant => "Constants"@,
    }
}

impl SymbolDocKind {
    /// Section heading for a group page.
    pub fn plural(self) -> (r: &'static str)
        ensures
            r@ == spec_plural(self),
    {
        match self {
            SymbolDocKind::Channel => "Channels",
            SymbolDocKind::Parameter => "Parameters",
            SymbolDocKind::Constant => "Constants",
        }
    }

    /// Whether two kinds are the same kind.
    pub fn same(self, other: SymbolDocKind) -> (r: bool)
        ensures
            r == (self == other),
    {
        match (self, other) {
            (SymbolDocKind::Channel, SymbolDocKind::Channel) => true,
            (SymbolDocKind::Parameter, SymbolDocKind::Parameter) => true,
            (SymbolDocKind::Constant, SymbolDocKind::Constant) => true,
            _ => false,
        }
    }
}

/// One `BuiltIn.Reference` alias: the raw `<Props Target>` and, only when it
/// names a documented symbol, the resolved canonical path.
#[derive(Debug, Clone, PartialEq, Default)]
pub struct ReferenceDoc {
    pub path: String,
    /// Stable, page-unique anchor id (see [`anchor_slug`]).
    pub anchor: String,
    /// The `<Props Target>` string verbatim.
    pub target_raw: String,
    /// The target resolved to a documented symbol path, when it resolves.
    pub target_resolved: Option<String>,
    /// 0-based line of the reference's declaration in the project file.
    pub def_line: Option<u32>,
}

/// One node in the group tree: the members declared directly under it and the
/// full paths of its immediate child groups.
#[derive(Debug, Clone, PartialEq, Default)]
pub struct GroupDoc {
    pub path: String,
    pub symbols: Vec<SymbolDoc>,
    /// Functions and methods declared directly in this group, sorted by path.
    pub functions: Vec<FunctionDoc>,
    /// Calibration tables declared directly in this group, sorted by path.
    pub tables: Vec<TableDoc>,
    /// Package-class objects declared directly in this group, sorted by path.
    pub objects: Vec<ObjectDoc>,
    /// CAN message frames declared directly in this group, sorted by path.
    pub can_messages: Vec<CanMessageDoc>,
    /// `BuiltIn.Reference` aliases declared directly in this group.
    pub references: Vec<ReferenceDoc>,
    /// Full paths of the immediate child groups, sorted.
    pub children: Vec<String>,
}

/// The kind of a [`GraphEdge`]: a call, a read, a write, or a reference alias
/// pointing at its target.
#[derive(Debug, Clone, Copy, PartialEq, Eq, PartialOrd, Ord, Hash)]
pub enum EdgeKind {
    Call,
    Read,
    Write,
    Reference,
}

/// The stable lowercase name of an edge kind.
pub open spec fn spec_edge_kind_name(kind: EdgeKind) -> Seq<char> {
    match kind {
        EdgeKind::Call => "call"@,
        EdgeKind::Read => "read"@,
        EdgeKind::Write => "write"@,
        EdgeKind::Reference => "reference"@,
    }
}

/// The position of an edge kind in declaration order (the order edges sort by).
pub open spec fn edge_kind_rank(kind: EdgeKind) -> nat {
    match kind {
        EdgeKind::Call => 0,
        EdgeKind::Read => 1,
        EdgeKind::Write => 2,
        EdgeKind::Reference => 3,
    }
}

impl EdgeKind {
    /// Stable lowercase name used in JSON and diagram labels.
    pub fn as_str(self) -> (r: &'static str)
        ensures
            r@ == spec_edge_kind_name(self),
    {
        match self {
            EdgeKind::Call => "call",
            EdgeKind::Read => "read",
            EdgeKind::Write => "write",
            EdgeKind::Reference => "reference",
        }
    }

    /// The position of the kind in declaration order.
    pub fn rank(self) -> (r: u8)
        ensures
            r as nat == edge_kind_rank(self),
    {
        match self {
            EdgeKind::Call => 0,
            EdgeKind::Read => 1,
            EdgeKind::Write => 2,
            EdgeKind::Reference => 3,
        }
    }
}

/// One typed edge in the relationship graph between two symbol paths.
#[derive(Debug, Clone, PartialEq, Eq, PartialOrd, Ord)]
pub struct GraphEdge {
    pub from: String,
    pub to: String,
    pub kind: EdgeKind,
}

/// The project relationship graph: every call/read/write/reference edge.
#[derive(Debug, Clone, PartialEq, Default)]
pub struct ProjectGraph {
    pub edges: Vec<GraphEdge>,
}

/// The kind of an [`AnchoredEntity`] — every documented thing with its own
/// `<page>#<anchor>` deep link.
#[derive(Debug, Clone, Copy, PartialEq, Eq)]
pub enum AnchoredKind {
    Channel,
    Parameter,
    Constant,
    Function,
    Table,
    Object,
    CanMessage,
    CanSignal,
    Reference,
    Enum,
}

/// The anchored kind of a symbol kind.
pub open spec fn spec_for_symbol(kind: SymbolDocKind) -> AnchoredKind {
    match kind {
        SymbolDocKind::Channel => AnchoredKind::Channel,
        SymbolDocKind::Parameter => AnchoredKind::Parameter,
        SymbolDocKind::Constant => AnchoredKind::Constant,
    }
}

/// The human-readable label of an anchored kind.
pub open spec fn spec_kind_label(kind: AnchoredKind) -> Seq<char> {
    match kind {
        AnchoredKind::Channel => "channel"@,
        AnchoredKind::Parameter => "parameter"@,
        AnchoredKind::Constant => "constant"@,
        AnchoredKind::Function => "function"@,
        AnchoredKind::Table => "table"@,
        AnchoredKind::Object => "object"@,
        AnchoredKind::CanMessage => "CAN message"@,
        AnchoredKind::CanSignal => "CAN signal"@,
        AnchoredKind::Reference => "reference"@,
        AnchoredKind::Enum => "enum"@,
    }
}

impl AnchoredKind {
    /// The kind for a [`SymbolDocKind`] symbol.
    pub fn for_symbol(kind: SymbolDocKind) -> (r: AnchoredKind)
        ensures
            r == spec_for_symbol(kind),
    {
        match kind {
            SymbolDocKind::Channel => AnchoredKind::Channel,
            SymbolDocKind::Parameter => AnchoredKind::Parameter,
            SymbolDocKind::Constant => AnchoredKind::Constant,
        }
    }

    /// A stable, human-readable label for the kind — the text the search index
    /// shows.
    pub fn label(self) -> (r: &'static str)
        ensures
            r@ == spec_kind_label(self),
    {
        match self {
            AnchoredKind::Channel => "channel",
            AnchoredKind::Parameter => "parameter",
            AnchoredKind::Constant => "constant",
            AnchoredKind::Function => "function",
            AnchoredKind::Table => "table",
            AnchoredKind::Object => "object",
            AnchoredKind::CanMessage => "CAN message",
            AnchoredKind::CanSignal => "CAN signal",
            AnchoredKind::Reference => "reference",
            AnchoredKind::Enum => "enum",
        }
    }

    /// Whether this is the enum kind (the one kind not anchored on a group page).
    pub fn is_enum(self) -> (r: bool)
        ensures
            r == (self == AnchoredKind::Enum),
    {
        match self {
            AnchoredKind::Enum => true,
            _ => false,
        }
    }
}

/// One documented entity that carries a stable `<page>#<anchor>` deep link.
#[derive(Debug, Clone, PartialEq, Eq)]
pub struct AnchoredEntity<'a> {
    pub kind: AnchoredKind,
    pub path: &'a str,
    pub page: String,
    pub anchor: &'a str,
    /// The owning group's path, or `"Enums"` for an enum.
    pub group: &'a str,
    /// A short descriptive hint (unit, return type, output unit, or class);
    /// empty when the kind carries none.
    pub hint: &'a str,
}

/// The deep link `<page>#<anchor>`.
pub open spec fn spec_href(page: Seq<char>, anchor: Seq<char>) -> Seq<char> {
    page + "#"@ + anchor
}

impl AnchoredEntity<'_> {
    /// The canonical `<page>#<anchor>` deep link for this entity.
    pub fn href(&self) -> (r: String)
        ensures
            r@ == spec_href(self.page@, self.anchor@),
    {
        let mut r = String::new();
        r.append(self.page.as_str());
        r.append("#");
        r.append(self.anchor);
        r
    }
}

/// The whole project's documentation: the group tree, the project-wide Enums
/// reference, and the relationship graph.
#[derive(Debug, Clone, PartialEq, Default)]
pub struct DocModel {
    pub title: String,
    /// Target hardware, when known.
    pub target_hardware: Option<String>,
    pub groups: Vec<GroupDoc>,
    /// Every enum type used in the project, by name, sorted and deduped.
    pub enums: Vec<EnumDoc>,
    /// The relationship graph: call/read/write/reference edges.
    pub graph: ProjectGraph,
    /// Project-relative path of the `Project.m1prj`, forward-slashed.
    pub m1prj_path: Option<String>,
}

/// Project-wide counts by kind, plus structural metrics, for the landing page.
#[derive(Debug, Clone, Copy, PartialEq, Eq, Default)]
pub struct ProjectStats {
    pub channels: usize,
    pub parameters: usize,
    pub constants: usize,
    pub functions: usize,
    pub tables: usize,
    pub objects: usize,
    pub can_messages: usize,
    pub can_signals: usize,
    pub enums: usize,
    /// Total documented group nodes.
    pub groups: usize,
    /// Number of forest-root groups.
    pub top_level_groups: usize,
    /// Deepest group path measured in dot-segments; zero with no groups.
    pub max_depth: usize,
}

/// The sum of every per-kind component count.
pub open spec fn spec_total_components(s: ProjectStats) -> int {
    s.channels + s.parameters + s.constants + s.functions + s.tables + s.objects
        + s.can_messages + s.can_signals
}

impl ProjectStats {
    /// Total documented components across every kind — the headline number on
    /// the landing page.
    pub fn total_components(self) -> (r: usize)
        requires
            spec_total_components(self) <= usize::MAX,
        ensures
            r == spec_total_components(self),
    {
        self.channels + self.parameters + self.constants + self.functions + self.tables
            + self.objects + self.can_messages + self.can_signals
    }
}

/// One forest-root group on the landing tree, paired with component counts.
#[derive(Debug, Clone, PartialEq, Eq)]
pub struct TreeNode {
    pub path: String,
    /// Components declared directly on this node.
    pub direct_count: usize,
    /// Components across this node and its whole subtree.
    pub subtree_count: usize,
    /// Whether this node has any child groups.
    pub has_children: bool,
}

// ---------------------------------------------------------------------------
// Anchor slugs
// ---------------------------------------------------------------------------

/// The slug text built from a prefix of a path, and whether a separator is
/// pending: ASCII letters and digits are kept (lower-cased); every run of other
/// characters between two kept characters becomes one `-`.
pub open spec fn slug_scan(s: Seq<char>) -> (Seq<char>, bool)
    decreases s.len(),
{
    if s.len() == 0 {
        (Seq::empty(), false)
    } else {
        let prev = slug_scan(s.drop_last());
        let c = s.last();
        if is_ascii_alnum(c) {
            let body = if prev.1 && prev.0.len() > 0 {
                prev.0.push('-')
            } else {
                prev.0
            };
            (body.push(ascii_lower(c)), false)
        } else {
            (prev.0, true)
        }
    }
}

/// The anchor slug of a path: its ASCII letters and digits lower-cased, each run
/// of other characters between them collapsed to one `-`, or `symbol` when the
/// path has no letter or digit.
pub open spec fn spec_anchor_slug(s: Seq<char>) -> Seq<char> {
    if slug_scan(s).0.len() == 0 {
        "symbol"@
    } else {
        slug_scan(s).0
    }
}

/// A character a slug may hold: a lower-case ASCII letter, a digit, or `-`.
pub open spec fn is_slug_char(c: char) -> bool {
    ('a' <= c && c <= 'z') || ('0' <= c && c <= '9') || c == '-'
}

/// A URL-safe slug: only slug characters, never starting or ending with `-`,
/// never holding two `-` in a row.
pub open spec fn is_clean_slug(s: Seq<char>) -> bool {
    &&& forall|i: int| 0 <= i < s.len() ==> is_slug_char(#[trigger] s[i])
    &&& s.len() > 0 ==> s[0] != '-' && s.last() != '-'
    &&& forall|i: int| 0 <= i < s.len() - 1 ==> !(#[trigger] s[i] == '-' && s[i + 1] == '-')
}

/// Derive a URL-safe anchor slug from a symbol/function path: lowercase, with
/// every run of non-alphanumeric characters collapsed to a single `-`
/// (e.g. `Root.Engine.On 100Hz` → `root-engine-on-100hz`). Returns `"symbol"`
/// for an input with no alphanumeric characters.
pub fn anchor_slug(path: &str) -> (r: String)
    ensures
        r@ == spec_anchor_slug(path@),
        r@.len() > 0,
        is_clean_slug(r@),
        spec_anchor_slug(r@) == r@,
{
    let v = chars_of(path);
    let mut out = String::new();
    let mut pending_dash = false;
    let mut nonempty = false;
    let mut i: usize = 0;
    proof {
        reveal_strlit("symbol");
    }
    while i < v.len()
        invariant
            v@ == path@,
            i <= v.len(),
            (out@, pending_dash) == slug_scan(v@.take(i as int)),
            is_clean_slug(out@),
            nonempty == (out@.len() > 0),
        decreases v.len() - i,
    {
        let ch = v[i];
        assert(v@.take(i + 1).drop_last() =~= v@.take(i as int));
        assert(v@.take(i + 1).last() == ch);
        if is_ascii_alnum_exec(ch) {
            if pending_dash && nonempty {
                out.push('-');
            }
            pending_dash = false;
            out.push(ascii_lower_exec(ch));
            nonempty = true;
        } else {
            pending_dash = true;
        }
        i += 1;
    }
    assert(v@.take(v@.len() as int) =~= v@);
    if !nonempty {
        out.append("symbol");
        assert(out@ =~= "symbol"@);
    }
    proof {
        lemma_anchor_slug_idempotent(out@);
    }
    out
}

proof fn lemma_slug_scan_of_slug(s: Seq<char>, n: int)
    requires
        is_clean_slug(s),
        0 <= n <= s.len(),
    ensures
        slug_scan(s.take(n)) == if n > 0 && s[n - 1] == '-' {
            (s.take(n - 1), true)
        } else {
            (s.take(n), false)
        },
    decreases n,
{
    if n > 0 {
        lemma_slug_scan_of_slug(s, n - 1);
        let p = s.take(n);
        assert(p.drop_last() =~= s.take(n - 1));
        assert(p.last() == s[n - 1]);
        let c = s[n - 1];
        assert(is_slug_char(c));
        if c == '-' {
            assert(n - 1 > 0);
            assert(!(s[n - 2] == '-' && s[n - 1] == '-'));
        } else {
            assert(ascii_lower(c) == c);
            if n >= 2 && s[n - 2] == '-' {
                assert(n - 2 > 0);
                assert(s.take(n - 2).push('-') =~= s.take(n - 1));
            }
            assert(s.take(n - 1).push(c) =~= p);
        }
    }
}

/// Slugging a slug changes nothing: every anchor slug is clean and non-empty
/// (see [`anchor_slug`]), and a clean, non-empty slug is its own slug.
pub proof fn lemma_anchor_slug_idempotent(s: Seq<char>)
    requires
        is_clean_slug(s),
        s.len() > 0,
    ensures
        spec_anchor_slug(s) == s,
{
    lemma_slug_scan_of_slug(s, s.len() as int);
    assert(s.take(s.len() as int) =~= s);
}

} // verus!
