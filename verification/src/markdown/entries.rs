//! Per-entity renderers for the members of a group page: functions,
//! calibration tables, package objects, CAN messages, and the symbol-table cell
//! helpers (type / tags / class / anchor columns).

use crate::markdown::helpers::{
    annotation_text, format_annotation, format_rate, fmt_real, rate_text, real_text, source_line,
    source_line_text, src_suffix, SourceLinker, ENUMS_FILE,
};
use crate::markdown::RenderOptions;
use crate::model::{
    CanMessageDoc, CanSignalDoc, EnumDoc, FunctionDoc, ObjectDoc, SymbolDoc, SymbolDocKind,
    TableAxisDoc, TableDoc,
};
use crate::path::{last_segment, leaf_of};
use crate::text::{
    chars_of, decimal, has_prefix, has_suffix, hex_upper_text, join, push_decimal, push_hex_upper, push_join, str_eq,
    trim_end_white, trim_end_ws,
};
use vstd::prelude::*;

verus! {

// ---------------------------------------------------------------------------
// Shared pieces
// ---------------------------------------------------------------------------

/// An optional text, or `—` when absent.
pub open spec fn or_dash(o: Option<String>) -> Seq<char> {
    match o {
        Some(s) => s@,
        None => "—"@,
    }
}

fn push_or_dash(out: &mut String, o: &Option<String>)
    ensures
        final(out)@ == old(out)@ + or_dash(*o),
{
    match o {
        Some(s) => out.append(s.as_str()),
        None => out.append("—"),
    }
}

/// The explicit anchor that starts an entry: `<a id="…"></a>` and a blank line.
pub open spec fn anchor_line(anchor: Seq<char>) -> Seq<char> {
    "<a id=\""@ + anchor + "\"></a>\n\n"@
}

fn push_anchor_line(out: &mut String, anchor: &str)
    ensures
        final(out)@ == old(out)@ + anchor_line(anchor@),
{
    out.append("<a id=\"");
    out.append(anchor);
    out.append("\"></a>\n\n");
    assert(final(out)@ =~= old(out)@ + anchor_line(anchor@));
}

/// An entry heading: `### <text><suffix>` and a blank line.
pub open spec fn heading_line(text: Seq<char>, suffix: Seq<char>) -> Seq<char> {
    "### "@ + text + suffix + "\n\n"@
}

fn push_heading_line(out: &mut String, text: &str, suffix: &str)
    ensures
        final(out)@ == old(out)@ + heading_line(text@, suffix@),
{
    out.append("### ");
    out.append(text);
    out.append(suffix);
    out.append("\n\n");
    assert(final(out)@ =~= old(out)@ + heading_line(text@, suffix@));
}

// ---------------------------------------------------------------------------
// Functions
// ---------------------------------------------------------------------------

/// The source base of the options as characters.
pub open spec fn base_of(opts: RenderOptions) -> Option<Seq<char>> {
    match opts.source_base {
        Some(b) => Some(b@),
        None => None,
    }
}

/// The input list of a function: one `- name: type` line per input.
pub open spec fn input_lines(inputs: Seq<(String, String)>) -> Seq<char>
    decreases inputs.len(),
{
    if inputs.len() == 0 {
        Seq::empty()
    } else {
        input_lines(inputs.drop_last()) + "- "@ + inputs.last().0@ + ": "@ + inputs.last().1@ + "\n"@
    }
}

/// The annotation list: one `- @m1:…` line per annotation.
pub open spec fn annotation_lines(anns: Seq<crate::model::AnnotationDoc>) -> Seq<char>
    decreases anns.len(),
{
    if anns.len() == 0 {
        Seq::empty()
    } else {
        annotation_lines(anns.drop_last()) + "- "@ + annotation_text(anns.last()) + "\n"@
    }
}

/// The anchor, heading, call rate and source line of a function entry.
pub open spec fn function_head(f: FunctionDoc, opts: RenderOptions) -> Seq<char> {
    anchor_line(f.anchor@) + heading_line(f.path@, Seq::empty()) + "**Call rate:** "@ + rate_text(
        f.call_rate_hz,
    ) + "\n\n"@ + match f.source_path {
        Some(src) => source_line_text(src@, base_of(opts)) + "\n"@,
        None => Seq::empty(),
    }
}

/// The inputs, return type and annotations of a function entry.
pub open spec fn function_signature(f: FunctionDoc) -> Seq<char> {
    (if f.inputs@.len() == 0 {
        "(no inputs)\n\n"@
    } else {
        input_lines(f.inputs@) + "\n"@
    }) + match f.return_type {
        Some(rt) => "**Returns:** "@ + rt@ + "\n\n"@,
        None => Seq::empty(),
    } + if f.annotations@.len() == 0 {
        Seq::empty()
    } else {
        "**Annotations:**\n\n"@ + annotation_lines(f.annotations@) + "\n"@
    }
}

/// The state of a scan for backtick runs: the current run and the longest.
pub open spec fn backtick_runs(s: Seq<char>) -> (nat, nat)
    decreases s.len(),
{
    if s.len() == 0 {
        (0, 0)
    } else {
        let prev = backtick_runs(s.drop_last());
        if s.last() == '`' {
            (prev.0 + 1, if prev.1 > prev.0 + 1 { prev.1 } else { prev.0 + 1 })
        } else {
            (0, prev.1)
        }
    }
}

/// The fence around an embedded body: one backtick more than the longest run
/// inside it, and at least three.
pub open spec fn fence_for(body: Seq<char>) -> Seq<char> {
    let longest = backtick_runs(body).1;
    Seq::new((if longest > 2 { longest } else { 2 }) + 1, |i: int| '`')
}

/// The collapsible source block of a function, when sources are embedded.
pub open spec fn function_body(f: FunctionDoc, opts: RenderOptions) -> Seq<char> {
    match f.source_text {
        Some(text) if opts.include_source => {
            let body = trim_end_ws(text@);
            let fence = fence_for(body);
            "<details><summary>Source</summary>\n\n"@ + fence + "m1\n"@ + body + "\n"@ + fence + "\n\n"@
                + "</details>\n\n"@
        },
        _ => Seq::empty(),
    }
}

/// One function entry.
pub open spec fn function_text(f: FunctionDoc, opts: RenderOptions) -> Seq<char> {
    function_head(f, opts) + function_signature(f) + function_body(f, opts)
}

fn push_function_head(out: &mut String, f: &FunctionDoc, opts: &RenderOptions)
    ensures
        final(out)@ == old(out)@ + function_head(*f, *opts),
{
    push_anchor_line(out, f.anchor.as_str());
    push_heading_line(out, f.path.as_str(), "");
    out.append("**Call rate:** ");
    out.append(format_rate(&f.call_rate_hz).as_str());
    out.append("\n\n");
    let ghost mid = out@;
    match &f.source_path {
        Some(src) => {
            let base = match &opts.source_base {
                Some(b) => Some(b.as_str()),
                None => None,
            };
            out.append(source_line(src.as_str(), base).as_str());
            out.append("\n");
        },
        None => {},
    }
    proof {
        reveal_strlit("");
    }
    assert(final(out)@ =~= old(out)@ + function_head(*f, *opts));
}

fn push_function_signature(out: &mut String, f: &FunctionDoc)
    ensures
        final(out)@ == old(out)@ + function_signature(*f),
{
    let ghost start = out@;
    if f.inputs.len() == 0 {
        out.append("(no inputs)\n\n");
    } else {
        let mut i: usize = 0;
        while i < f.inputs.len()
            invariant
                i <= f.inputs.len(),
                out@ == start + input_lines(f.inputs@.take(i as int)),
            decreases f.inputs.len() - i,
        {
            out.append("- ");
            out.append(f.inputs[i].0.as_str());
            out.append(": ");
            out.append(f.inputs[i].1.as_str());
            out.append("\n");
            assert(f.inputs@.take(i + 1).drop_last() =~= f.inputs@.take(i as int));
            assert(out@ =~= start + input_lines(f.inputs@.take(i + 1)));
            i += 1;
        }
        assert(f.inputs@.take(f.inputs@.len() as int) =~= f.inputs@);
        out.append("\n");
    }
    let ghost after_inputs = out@;
    match &f.return_type {
        Some(rt) => {
            out.append("**Returns:** ");
            out.append(rt.as_str());
            out.append("\n\n");
        },
        None => {},
    }
    let ghost after_returns = out@;
    if f.annotations.len() > 0 {
        out.append("**Annotations:**\n\n");
        let ghost head = out@;
        let mut i: usize = 0;
        while i < f.annotations.len()
            invariant
                i <= f.annotations.len(),
                out@ == head + annotation_lines(f.annotations@.take(i as int)),
            decreases f.annotations.len() - i,
        {
            out.append("- ");
            out.append(format_annotation(&f.annotations[i]).as_str());
            out.append("\n");
            assert(f.annotations@.take(i + 1).drop_last() =~= f.annotations@.take(i as int));
            assert(out@ =~= head + annotation_lines(f.annotations@.take(i + 1)));
            i += 1;
        }
        assert(f.annotations@.take(f.annotations@.len() as int) =~= f.annotations@);
        out.append("\n");
    }
    assert(final(out)@ =~= old(out)@ + function_signature(*f));
}

/// The longest run of backticks in `v`.
fn longest_backtick_run(v: &Vec<char>) -> (n: usize)
    ensures
        n == backtick_runs(v@).1,
{
    let mut cur: usize = 0;
    let mut longest: usize = 0;
    let mut i: usize = 0;
    while i < v.len()
        invariant
            i <= v.len(),
            (cur as nat, longest as nat) == backtick_runs(v@.take(i as int)),
            cur <= i,
            longest <= i,
        decreases v.len() - i,
    {
        assert(v@.take(i + 1).drop_last() =~= v@.take(i as int));
        if v[i] == '`' {
            cur = cur + 1;
            if cur > longest {
                longest = cur;
            }
        } else {
            cur = 0;
        }
        i += 1;
    }
    assert(v@.take(v@.len() as int) =~= v@);
    longest
}

/// Append the fence for `body`.
fn push_fence(out: &mut String, body: &str)
    ensures
        final(out)@ == old(out)@ + fence_for(body@),
{
    let v = chars_of(body);
    let longest = longest_backtick_run(&v);
    let ghost start = out@;
    if longest < 2 {
        out.push('`');
        out.push('`');
        out.push('`');
    } else {
        let mut i: usize = 0;
        while i < longest
            invariant
                i <= longest,
                out@ == start + Seq::new(i as nat, |k: int| '`'),
            decreases longest - i,
        {
            out.push('`');
            assert(out@ =~= start + Seq::new((i + 1) as nat, |k: int| '`'));
            i += 1;
        }
        out.push('`');
    }
    assert(final(out)@ =~= old(out)@ + fence_for(body@));
}

fn push_function_body(out: &mut String, f: &FunctionDoc, opts: &RenderOptions)
    ensures
        final(out)@ == old(out)@ + function_body(*f, *opts),
{
    if opts.include_source {
        match &f.source_text {
            Some(text) => {
                let body = trim_end_white(text.as_str());
                out.append("<details><summary>Source</summary>\n\n");
                push_fence(out, body.as_str());
                out.append("m1\n");
                out.append(body.as_str());
                out.append("\n");
                push_fence(out, body.as_str());
                out.append("\n\n");
                out.append("</details>\n\n");
            },
            None => {},
        }
    }
    assert(final(out)@ =~= old(out)@ + function_body(*f, *opts));
}

/// Render one function entry as a `### <path>` subsection with its call rate,
/// input list, optional return type, source link, and, when present, an
/// `**Annotations:**` block. With `include_source` the script body is embedded
/// in a `<details>` block, fenced past the longest backtick run inside it.
pub fn render_function(f: &FunctionDoc, opts: &RenderOptions) -> (r: String)
    ensures
        r@ == function_text(*f, *opts),
{
    let mut out = String::new();
    push_function_head(&mut out, f, opts);
    push_function_signature(&mut out, f);
    push_function_body(&mut out, f, opts);
    assert(out@ =~= function_text(*f, *opts));
    out
}

// ---------------------------------------------------------------------------
// Tables and objects
// ---------------------------------------------------------------------------

/// One table axis: its breakpoint count and, when known, its unit.
pub open spec fn axis_text(a: TableAxisDoc) -> Seq<char> {
    decimal(a.size as nat) + match a.unit {
        Some(u) => " ("@ + u@ + ")"@,
        None => Seq::empty(),
    }
}

pub open spec fn axis_texts(axes: Seq<TableAxisDoc>) -> Seq<Seq<char>> {
    axes.map_values(|a: TableAxisDoc| axis_text(a))
}

/// One calibration-table entry: its dimensionality line, or a note that the
/// shape is unknown.
pub open spec fn table_text(t: TableDoc, links: SourceLinker) -> Seq<char> {
    anchor_line(t.anchor@) + heading_line(t.path@, src_suffix(links, t.def_line)) + if t.axes@.len() == 0 {
        "Table — shape requires a loaded `.m1cfg`\n\n"@
    } else {
        decimal(t.axes@.len()) + "-D table — "@ + join(axis_texts(t.axes@), " × "@) + " → "@ + or_dash(
            t.output_unit,
        ) + "\n\n"@
    }
}

fn axis_string(a: &TableAxisDoc) -> (r: String)
    ensures
        r@ == axis_text(*a),
{
    let mut out = String::new();
    push_decimal(&mut out, a.size as u64);
    match &a.unit {
        Some(u) => {
            out.append(" (");
            out.append(u.as_str());
            out.append(")");
        },
        None => {},
    }
    assert(out@ =~= axis_text(*a));
    out
}

/// Render one calibration table entry: an anchored `### <path>` heading and a
/// dimensionality line — e.g. `2-D table — 16 (rpm) × 12 (kPa) → deg`. When the
/// shape is unknown, say so rather than dropping the table.
pub fn render_table(t: &TableDoc, links: &SourceLinker) -> (r: String)
    ensures
        r@ == table_text(*t, *links),
{
    let mut out = String::new();
    push_anchor_line(&mut out, t.anchor.as_str());
    push_heading_line(&mut out, t.path.as_str(), links.suffix(t.def_line).as_str());
    if t.axes.len() == 0 {
        out.append("Table — shape requires a loaded `.m1cfg`\n\n");
    } else {
        let mut axes: Vec<String> = Vec::new();
        let mut i: usize = 0;
        while i < t.axes.len()
            invariant
                i <= t.axes.len(),
                axes@.len() == i,
                forall|k: int| 0 <= k < i ==> #[trigger] axes@[k]@ == axis_text(t.axes@[k]),
            decreases t.axes.len() - i,
        {
            axes.push(axis_string(&t.axes[i]));
            i += 1;
        }
        assert(axes@.map_values(|x: String| x@) =~= axis_texts(t.axes@));
        push_decimal(&mut out, t.axes.len() as u64);
        out.append("-D table — ");
        push_join(&mut out, &axes, " × ");
        out.append(" → ");
        push_or_dash(&mut out, &t.output_unit);
        out.append("\n\n");
    }
    assert(out@ =~= table_text(*t, *links));
    out
}

/// The member list of an object.
pub open spec fn member_lines(members: Seq<String>) -> Seq<char>
    decreases members.len(),
{
    if members.len() == 0 {
        Seq::empty()
    } else {
        member_lines(members.drop_last()) + "- `"@ + members.last()@ + "`\n"@
    }
}

/// One package-object entry: its class and immediate members.
pub open spec fn object_text(o: ObjectDoc, links: SourceLinker) -> Seq<char> {
    anchor_line(o.anchor@) + heading_line(o.path@, src_suffix(links, o.def_line)) + "**Class:** "@
        + or_dash(o.class) + "\n\n"@ + if o.members@.len() == 0 {
        "(no members)\n\n"@
    } else {
        "**Members:**\n\n"@ + member_lines(o.members@) + "\n"@
    }
}

/// Render one package-object entry: an anchored `### <path>` heading, its class,
/// and a bullet list of its immediate members.
pub fn render_object(o: &ObjectDoc, links: &SourceLinker) -> (r: String)
    ensures
        r@ == object_text(*o, *links),
{
    let mut out = String::new();
    push_anchor_line(&mut out, o.anchor.as_str());
    push_heading_line(&mut out, o.path.as_str(), links.suffix(o.def_line).as_str());
    out.append("**Class:** ");
    push_or_dash(&mut out, &o.class);
    out.append("\n\n");
    if o.members.len() == 0 {
        out.append("(no members)\n\n");
    } else {
        out.append("**Members:**\n\n");
        let ghost head = out@;
        let mut i: usize = 0;
        while i < o.members.len()
            invariant
                i <= o.members.len(),
                out@ == head + member_lines(o.members@.take(i as int)),
            decreases o.members.len() - i,
        {
            out.append("- `");
            out.append(o.members[i].as_str());
            out.append("`\n");
            assert(o.members@.take(i + 1).drop_last() =~= o.members@.take(i as int));
            assert(out@ =~= head + member_lines(o.members@.take(i + 1)));
            i += 1;
        }
        assert(o.members@.take(o.members@.len() as int) =~= o.members@);
        out.append("\n");
    }
    assert(out@ =~= object_text(*o, *links));
    out
}

// ---------------------------------------------------------------------------
// CAN messages
// ---------------------------------------------------------------------------

/// A signal's bit layout: `@start, length`, `@start`, or `—`.
pub open spec fn bits_text(s: CanSignalDoc) -> Seq<char> {
    match (s.start_bit, s.length) {
        (Some(start), Some(len)) => "@"@ + decimal(start as nat) + ", "@ + decimal(len as nat),
        (Some(start), None) => "@"@ + decimal(start as nat),
        _ => "—"@,
    }
}

/// A signal's scale: `×<multiplier> <sign><offset>` (a missing multiplier is
/// `1`, a missing offset `+0`), or `—` when neither is known.
pub open spec fn scale_text(s: CanSignalDoc) -> Seq<char> {
    match (s.multiplier, s.offset) {
        (None, None) => "—"@,
        (m, o) => "×"@ + match m {
            Some(x) => real_text(x.fixed4@),
            None => "1"@,
        } + " "@ + match o {
            Some(y) => (if y.negative {
                "-"@
            } else {
                "+"@
            }) + real_text(y.magnitude4@),
            None => "+"@ + "0"@,
        },
    }
}

/// A signal's physical range: `lo .. hi`, or `—`.
pub open spec fn range_text(s: CanSignalDoc) -> Seq<char> {
    match s.range {
        Some((lo, hi)) => real_text(lo.fixed4@) + " .. "@ + real_text(hi.fixed4@),
        None => "—"@,
    }
}

/// One signal row of a CAN message table.
pub open spec fn signal_row(s: CanSignalDoc) -> Seq<char> {
    "| <a id=\""@ + s.anchor@ + "\"></a>`"@ + leaf_of(s.path@) + "` | "@ + bits_text(s) + " | "@
        + scale_text(s) + " | "@ + range_text(s) + " | "@ + or_dash(s.unit) + " |\n"@
}

pub open spec fn signal_rows(signals: Seq<CanSignalDoc>) -> Seq<char>
    decreases signals.len(),
{
    if signals.len() == 0 {
        Seq::empty()
    } else {
        signal_rows(signals.drop_last()) + signal_row(signals.last())
    }
}

/// The frame id in hex (`0x1A0`), or `—`.
pub open spec fn can_id_text(id: Option<u32>) -> Seq<char> {
    match id {
        Some(x) => "0x"@ + hex_upper_text(x as nat),
        None => "—"@,
    }
}

/// The data length, or `—`.
pub open spec fn dlc_text(dlc: Option<u32>) -> Seq<char> {
    match dlc {
        Some(d) => decimal(d as nat),
        None => "—"@,
    }
}

/// One CAN message entry: its id and dlc, then a table of its signals.
pub open spec fn can_message_text(m: CanMessageDoc, links: SourceLinker) -> Seq<char> {
    anchor_line(m.anchor@) + heading_line(
        m.path@ + " (id "@ + can_id_text(m.can_id) + ", dlc "@ + dlc_text(m.dlc) + ")"@,
        src_suffix(links, m.def_line),
    ) + if m.signals@.len() == 0 {
        "(no signals)\n\n"@
    } else {
        "| Signal | Bits | Scale | Range | Unit |\n"@ + "| --- | --- | --- | --- | --- |\n"@ + signal_rows(
            m.signals@,
        ) + "\n"@
    }
}

fn bits_string(s: &CanSignalDoc) -> (r: String)
    ensures
        r@ == bits_text(*s),
{
    let mut out = String::new();
    match (s.start_bit, s.length) {
        (Some(start), Some(len)) => {
            out.append("@");
            push_decimal(&mut out, start as u64);
            out.append(", ");
            push_decimal(&mut out, len as u64);
        },
        (Some(start), None) => {
            out.append("@");
            push_decimal(&mut out, start as u64);
        },
        _ => out.append("—"),
    }
    assert(out@ =~= bits_text(*s));
    out
}

/// Render a CAN signal's scale cell — `×0.5 +2`, `×1 +0`, or `—` when neither a
/// multiplier nor an offset is known.
pub fn scale_cell(s: &CanSignalDoc) -> (r: String)
    ensures
        r@ == scale_text(*s),
{
    let mut out = String::new();
    if s.multiplier.is_none() && s.offset.is_none() {
        out.append("—");
    } else {
        out.append("×");
        match &s.multiplier {
            Some(x) => out.append(fmt_real(x.fixed4.as_str()).as_str()),
            None => out.append("1"),
        }
        out.append(" ");
        match &s.offset {
            Some(y) => {
                if y.negative {
                    out.append("-");
                } else {
                    out.append("+");
                }
                out.append(fmt_real(y.magnitude4.as_str()).as_str());
            },
            None => {
                out.append("+");
                out.append("0");
            },
        }
    }
    assert(out@ =~= scale_text(*s));
    out
}

fn range_string(s: &CanSignalDoc) -> (r: String)
    ensures
        r@ == range_text(*s),
{
    let mut out = String::new();
    match &s.range {
        Some((lo, hi)) => {
            out.append(fmt_real(lo.fixed4.as_str()).as_str());
            out.append(" .. ");
            out.append(fmt_real(hi.fixed4.as_str()).as_str());
        },
        None => out.append("—"),
    }
    assert(out@ =~= range_text(*s));
    out
}

fn push_signal_row(out: &mut String, s: &CanSignalDoc)
    ensures
        final(out)@ == old(out)@ + signal_row(*s),
{
    out.append("| <a id=\"");
    out.append(s.anchor.as_str());
    out.append("\"></a>`");
    out.append(last_segment(s.path.as_str()).as_str());
    out.append("` | ");
    out.append(bits_string(s).as_str());
    out.append(" | ");
    out.append(scale_cell(s).as_str());
    out.append(" | ");
    out.append(range_string(s).as_str());
    out.append(" | ");
    push_or_dash(out, &s.unit);
    out.append(" |\n");
    assert(final(out)@ =~= old(out)@ + signal_row(*s));
}

fn can_heading(m: &CanMessageDoc) -> (r: String)
    ensures
        r@ == m.path@ + " (id "@ + can_id_text(m.can_id) + ", dlc "@ + dlc_text(m.dlc) + ")"@,
{
    let mut out = String::new();
    out.append(m.path.as_str());
    out.append(" (id ");
    match m.can_id {
        Some(id) => {
            out.append("0x");
            push_hex_upper(&mut out, id as u64);
        },
        None => out.append("—"),
    }
    out.append(", dlc ");
    match m.dlc {
        Some(d) => push_decimal(&mut out, d as u64),
        None => out.append("—"),
    }
    out.append(")");
    assert(out@ =~= m.path@ + " (id "@ + can_id_text(m.can_id) + ", dlc "@ + dlc_text(m.dlc) + ")"@);
    out
}

/// Render one CAN message: an anchored `### <path>` heading with its frame id
/// (hex) and dlc, then a per-signal table of bit layout, scale, range and unit.
/// A message with no signals is still listed.
pub fn render_can_message(m: &CanMessageDoc, links: &SourceLinker) -> (r: String)
    ensures
        r@ == can_message_text(*m, *links),
{
    let mut out = String::new();
    push_anchor_line(&mut out, m.anchor.as_str());
    push_heading_line(&mut out, can_heading(m).as_str(), links.suffix(m.def_line).as_str());
    if m.signals.len() == 0 {
        out.append("(no signals)\n\n");
    } else {
        out.append("| Signal | Bits | Scale | Range | Unit |\n");
        out.append("| --- | --- | --- | --- | --- |\n");
        let ghost head = out@;
        let mut i: usize = 0;
        while i < m.signals.len()
            invariant
                i <= m.signals.len(),
                out@ == head + signal_rows(m.signals@.take(i as int)),
            decreases m.signals.len() - i,
        {
            push_signal_row(&mut out, &m.signals[i]);
            assert(m.signals@.take(i + 1).drop_last() =~= m.signals@.take(i as int));
            i += 1;
        }
        assert(m.signals@.take(m.signals@.len() as int) =~= m.signals@);
        out.append("\n");
    }
    assert(out@ =~= can_message_text(*m, *links));
    out
}

// ---------------------------------------------------------------------------
// Symbol-table cells
// ---------------------------------------------------------------------------

/// The plain builtin classname of a symbol kind.
pub open spec fn plain_builtin(kind: SymbolDocKind) -> Seq<char> {
    match kind {
        SymbolDocKind::Channel => "BuiltIn.Channel"@,
        SymbolDocKind::Parameter => "BuiltIn.Parameter"@,
        SymbolDocKind::Constant => "BuiltIn.Constant"@,
    }
}

/// The symbol's class is worth showing: it has one, and it is not the plain
/// builtin of its kind.
pub open spec fn unusual_class(s: SymbolDoc, kind: SymbolDocKind) -> bool {
    match s.classname {
        Some(c) => c@ != plain_builtin(kind),
        None => false,
    }
}

/// Whether the `kind` section of `symbols` carries a Class column: some row of
/// that kind has a classname that is not the plain builtin.
pub open spec fn shows_class(symbols: Seq<SymbolDoc>, kind: SymbolDocKind) -> bool {
    exists|i: int| 0 <= i < symbols.len() && (#[trigger] symbols[i]).kind == kind && unusual_class(symbols[i], kind)
}

/// Whether the `kind` section of `symbols` carries a Tags column: some row of
/// that kind is tagged.
pub open spec fn shows_tags(symbols: Seq<SymbolDoc>, kind: SymbolDocKind) -> bool {
    exists|i: int| 0 <= i < symbols.len() && (#[trigger] symbols[i]).kind == kind && symbols[i].tags@.len() > 0
}

fn plain_builtin_str(kind: SymbolDocKind) -> (r: &'static str)
    ensures
        r@ == plain_builtin(kind),
{
    match kind {
        SymbolDocKind::Channel => "BuiltIn.Channel",
        SymbolDocKind::Parameter => "BuiltIn.Parameter",
        SymbolDocKind::Constant => "BuiltIn.Constant",
    }
}

/// Whether the `kind` rows of `symbols` need a Class column: true when any
/// such row has a classname that is not the plain builtin for its kind.
pub fn section_shows_class(symbols: &Vec<SymbolDoc>, kind: SymbolDocKind) -> (r: bool)
    ensures
        r == shows_class(symbols@, kind),
{
    let plain = plain_builtin_str(kind);
    let mut i: usize = 0;
    while i < symbols.len()
        invariant
            i <= symbols.len(),
            plain@ == plain_builtin(kind),
            forall|k: int| 0 <= k < i ==> !((#[trigger] symbols@[k]).kind == kind && unusual_class(symbols@[k], kind)),
        decreases symbols.len() - i,
    {
        if symbols[i].kind.same(kind) {
            match &symbols[i].classname {
                Some(c) => {
                    if !str_eq(c.as_str(), plain) {
                        assert(unusual_class(symbols@[i as int], kind));
                        return true;
                    }
                },
                None => {},
            }
        }
        i += 1;
    }
    false
}

/// Whether the `kind` rows of `symbols` need a Tags column: true when any such
/// row is tagged.
pub fn section_shows_tags(symbols: &Vec<SymbolDoc>, kind: SymbolDocKind) -> (r: bool)
    ensures
        r == shows_tags(symbols@, kind),
{
    let mut i: usize = 0;
    while i < symbols.len()
        invariant
            i <= symbols.len(),
            forall|k: int| 0 <= k < i ==> !((#[trigger] symbols@[k]).kind == kind && symbols@[k].tags@.len() > 0),
        decreases symbols.len() - i,
    {
        if symbols[i].kind.same(kind) && symbols[i].tags.len() > 0 {
            return true;
        }
        i += 1;
    }
    false
}

/// The inline row anchor, carrying the security level and tags as `data-`
/// attributes for the HTML filter.
pub open spec fn row_anchor_text(s: SymbolDoc) -> Seq<char> {
    "<a"@ + " id=\""@ + s.anchor@ + "\" class=\"m1-row-anchor\""@ + match s.security {
        Some(sec) => " data-security=\""@ + sec@ + "\""@,
        None => Seq::empty(),
    } + (if s.tags@.len() > 0 {
        " data-tags=\""@ + join(s.tags@.map_values(|t: String| t@), " "@) + "\""@
    } else {
        Seq::empty()
    }) + "></a>"@
}

/// The inline row anchor that also carries the security level and tags as
/// `data-` attributes so the HTML filter can show or hide the row by level or
/// tag. Tags are space-joined; an empty level or tag set is simply absent.
pub fn row_anchor(s: &SymbolDoc) -> (r: String)
    ensures
        r@ == row_anchor_text(*s),
{
    let mut out = String::new();
    out.append("<a");
    out.append(" id=\"");
    out.append(s.anchor.as_str());
    out.append("\" class=\"m1-row-anchor\"");
    match &s.security {
        Some(sec) => {
            out.append(" data-security=\"");
            out.append(sec.as_str());
            out.append("\"");
        },
        None => {},
    }
    if s.tags.len() > 0 {
        out.append(" data-tags=\"");
        push_join(&mut out, &s.tags, " ");
        out.append("\"");
    }
    out.append("></a>");
    assert(out@ =~= row_anchor_text(*s));
    out
}

/// Each tag as inline code.
pub open spec fn code_tags(tags: Seq<String>) -> Seq<Seq<char>> {
    tags.map_values(|t: String| "`"@ + t@ + "`"@)
}

/// A symbol's Tags cell: each tag as inline code, or `—` when untagged.
pub open spec fn tags_cell_text(s: SymbolDoc) -> Seq<char> {
    if s.tags@.len() == 0 {
        "—"@
    } else {
        join(code_tags(s.tags@), " "@)
    }
}

/// Render a symbol's Tags cell: each tag as inline code, or `—` when untagged.
pub fn tags_cell(s: &SymbolDoc) -> (r: String)
    ensures
        r@ == tags_cell_text(*s),
{
    let mut out = String::new();
    if s.tags.len() == 0 {
        out.append("—");
    } else {
        let mut coded: Vec<String> = Vec::new();
        let mut i: usize = 0;
        while i < s.tags.len()
            invariant
                i <= s.tags.len(),
                coded@.len() == i,
                forall|k: int| 0 <= k < i ==> #[trigger] coded@[k]@ == "`"@ + s.tags@[k]@ + "`"@,
            decreases s.tags.len() - i,
        {
            let mut t = String::new();
            t.append("`");
            t.append(s.tags[i].as_str());
            t.append("`");
            coded.push(t);
            i += 1;
        }
        assert(coded@.map_values(|x: String| x@) =~= code_tags(s.tags@));
        push_join(&mut out, &coded, " ");
    }
    out
}

/// The anchor of the last enum named `name`, if any.
pub open spec fn enum_anchor(enums: Seq<EnumDoc>, name: Seq<char>) -> Option<Seq<char>>
    decreases enums.len(),
{
    if enums.len() == 0 {
        None
    } else if enums.last().name@ == name {
        Some(enums.last().anchor@)
    } else {
        enum_anchor(enums.drop_last(), name)
    }
}

/// A symbol's Type cell: an enum-typed symbol links to its entry in the Enums
/// reference; everything else is the plain type label.
pub open spec fn type_cell_text(s: SymbolDoc, enums: Seq<EnumDoc>) -> Seq<char> {
    match s.enum_ref {
        Some(name) => match enum_anchor(enums, name@) {
            Some(anchor) => "["@ + s.type_label@ + "]("@ + ENUMS_FILE@ + "#"@ + anchor + ")"@,
            None => s.type_label@,
        },
        None => s.type_label@,
    }
}

/// The anchor of the last enum named `name`.
fn find_enum_anchor<'a>(enums: &'a Vec<EnumDoc>, name: &str) -> (r: Option<&'a String>)
    ensures
        match r {
            Some(a) => enum_anchor(enums@, name@) == Some(a@),
            None => enum_anchor(enums@, name@) is None,
        },
{
    let mut i = enums.len();
    assert(enums@.take(i as int) =~= enums@);
    while i > 0
        invariant
            i <= enums.len(),
            enum_anchor(enums@, name@) == enum_anchor(enums@.take(i as int), name@),
        decreases i,
    {
        assert(enums@.take(i as int).drop_last() =~= enums@.take(i - 1));
        if str_eq(enums[i - 1].name.as_str(), name) {
            return Some(&enums[i - 1].anchor);
        }
        i -= 1;
    }
    None
}

/// Render a symbol's Type cell: an enum-typed symbol links to its entry in the
/// Enums reference; everything else is the plain type label.
pub fn type_cell(s: &SymbolDoc, enums: &Vec<EnumDoc>) -> (r: String)
    ensures
        r@ == type_cell_text(*s, enums@),
{
    let mut out = String::new();
    match &s.enum_ref {
        Some(name) => match find_enum_anchor(enums, name.as_str()) {
            Some(anchor) => {
                out.append("[");
                out.append(s.type_label.as_str());
                out.append("](");
                out.append(ENUMS_FILE);
                out.append("#");
                out.append(anchor.as_str());
                out.append(")");
            },
            None => out.append(s.type_label.as_str()),
        },
        None => out.append(s.type_label.as_str()),
    }
    assert(out@ =~= type_cell_text(*s, enums@));
    out
}

/// The offset of a signal's scale is written with its own sign: the character
/// right before the offset's magnitude is `-` exactly when the offset is
/// negative and `+` otherwise, and the magnitude ends the cell. A negative
/// offset never shows as `+`.
pub proof fn lemma_scale_offset_sign(s: CanSignalDoc)
    requires
        s.offset is Some,
    ensures
        ({
            let t = scale_text(s);
            let y = s.offset->0;
            let m = real_text(y.magnitude4@);
            &&& t.len() > m.len()
            &&& t.skip(t.len() - m.len()) == m
            &&& t[t.len() - m.len() - 1] == (if y.negative { '-' } else { '+' })
        }),
{
    reveal_strlit("-");
    reveal_strlit("+");
    let t = scale_text(s);
    let y = s.offset->0;
    let m = real_text(y.magnitude4@);
    let sign: Seq<char> = if y.negative {
        "-"@
    } else {
        "+"@
    };
    let head = "×"@ + match s.multiplier {
        Some(x) => real_text(x.fixed4@),
        None => "1"@,
    } + " "@;
    assert(t =~= head + sign + m);
    assert(t.skip(t.len() - m.len()) =~= m);
    assert(t[t.len() - m.len() - 1] == sign[0]);
}

/// A signal's scale cell starts with `×` and its multiplier (`1` when the
/// multiplier is unknown), once either the multiplier or the offset is known,
/// and then ends in `+0` when the offset is unknown; with neither it is `—`.
pub proof fn lemma_scale_multiplier(s: CanSignalDoc)
    ensures
        s.multiplier is None && s.offset is None ==> scale_text(s) == "—"@,
        s.multiplier is Some || s.offset is Some ==> has_prefix(
            scale_text(s),
            "×"@ + match s.multiplier {
                Some(x) => real_text(x.fixed4@),
                None => "1"@,
            } + " "@,
        ),
        s.multiplier is Some && s.offset is None ==> has_suffix(scale_text(s), " +0"@),
{
    reveal_strlit(" +0");
    reveal_strlit("+");
    reveal_strlit("0");
    reveal_strlit(" ");
    if s.multiplier is Some || s.offset is Some {
        let head = "×"@ + match s.multiplier {
            Some(x) => real_text(x.fixed4@),
            None => "1"@,
        } + " "@;
        let rest = match s.offset {
            Some(y) => (if y.negative {
                "-"@
            } else {
                "+"@
            }) + real_text(y.magnitude4@),
            None => "+"@ + "0"@,
        };
        assert(scale_text(s) == head + rest);
        assert((head + rest).take(head.len() as int) =~= head);
        if s.offset is None {
            let t = head + rest;
            assert(t.skip(t.len() - 3) =~= " +0"@);
        }
    }
}

} // verus!
