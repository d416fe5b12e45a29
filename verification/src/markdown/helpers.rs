//! Leaf formatting and path helpers shared by the Markdown page renderers:
//! filename conventions, rate and number formatting, URL encoding, the
//! jump-to-declaration [`SourceLinker`], and the relationship-graph block.

use crate::escape::hex_value;
use crate::diagram::{edges_on_nodes, mermaid_text, Diagram};
use crate::model::{anchor_slug, spec_anchor_slug, AnnotationDoc, Real};
use crate::path::{find_last_dot, last_dot, lemma_last_dot_bounds, leaf_of, parent_of};
use crate::text::{
    chars_of, decimal, hex_upper, hex_upper_exec, join, push_decimal, push_join, str_eq,
    string_from_chars, trim_end_char, trim_end_matches_char,
};
use vstd::prelude::*;

verus! {

/// The filename of the project-wide Enums reference page.
pub const ENUMS_FILE: &'static str = "enums.md";

/// The page of a group: its full path and `.md`.
pub open spec fn group_file(p: Seq<char>) -> Seq<char> {
    p + ".md"@
}

/// `Root.Engine` → `Root.Engine.md` (a flat, link-safe filename keyed by the
/// full group path, so every node in the tree has a distinct page).
pub fn group_filename(group_path: &str) -> (r: String)
    ensures
        r@ == group_file(group_path@),
{
    let mut r = String::new();
    r.append(group_path);
    r.append(".md");
    r
}

/// One breadcrumb link: the segment, linking to the page of the path so far.
pub open spec fn crumb_link(seg: Seq<char>, upto: Seq<char>) -> Seq<char> {
    "["@ + seg + "]("@ + group_file(upto) + ")"@
}

/// Every segment of `p` as a link to its own page, joined with ` › `.
pub open spec fn crumb_links(p: Seq<char>) -> Seq<char>
    decreases p.len(),
{
    if last_dot(p) < 0 {
        crumb_link(p, p)
    } else {
        proof {
            lemma_last_dot_bounds(p);
        }
        crumb_links(parent_of(p)) + " › "@ + crumb_link(leaf_of(p), p)
    }
}

/// The breadcrumb of a path: every ancestor segment links to its page, the
/// last segment is plain text (`[Root](Root.md) › Engine`).
pub open spec fn breadcrumb(p: Seq<char>) -> Seq<char> {
    if last_dot(p) < 0 {
        p
    } else {
        crumb_links(parent_of(p)) + " › "@ + leaf_of(p)
    }
}

proof fn lemma_parent_shorter(p: Seq<char>)
    requires
        last_dot(p) >= 0,
    ensures
        parent_of(p).len() < p.len(),
        parent_of(p) == p.take(last_dot(p)),
        leaf_of(p) == p.skip(last_dot(p) + 1),
{
    lemma_last_dot_bounds(p);
}

/// Split `v` at its last `.`: the parent and leaf strings, when there is a dot.
fn split_last(v: &Vec<char>) -> (r: Option<(String, String)>)
    ensures
        match r {
            Some((par, leaf)) => last_dot(v@) >= 0 && par@ == parent_of(v@) && leaf@ == leaf_of(v@),
            None => last_dot(v@) < 0,
        },
{
    proof {
        lemma_last_dot_bounds(v@);
    }
    match find_last_dot(v) {
        Some(i) => {
            let par = string_from_chars(v, 0, i);
            let leaf = string_from_chars(v, i + 1, v.len());
            assert(v@.subrange(0, i as int) =~= v@.take(i as int));
            assert(v@.subrange(i + 1, v@.len() as int) =~= v@.skip(i + 1));
            Some((par, leaf))
        },
        None => None,
    }
}

fn push_crumb_link(out: &mut String, seg: &str, upto: &str)
    ensures
        final(out)@ == old(out)@ + crumb_link(seg@, upto@),
{
    out.append("[");
    out.append(seg);
    out.append("](");
    out.append(upto);
    out.append(".md");
    out.append(")");
    assert(final(out)@ =~= old(out)@ + crumb_link(seg@, upto@));
}

fn push_crumb_links(out: &mut String, p: &str)
    ensures
        final(out)@ == old(out)@ + crumb_links(p@),
    decreases p@.len(),
{
    let v = chars_of(p);
    match split_last(&v) {
        None => push_crumb_link(out, p, p),
        Some((par, leaf)) => {
            proof {
                lemma_parent_shorter(p@);
            }
            let ghost start = out@;
            push_crumb_links(out, par.as_str());
            out.append(" › ");
            push_crumb_link(out, leaf.as_str(), p);
            assert(out@ =~= start + crumb_links(p@));
        },
    }
}

/// Render a `Root › Engine › Fuel` breadcrumb: every ancestor segment is a link
/// to its own page; the current (last) segment is plain text.
pub fn render_breadcrumb(path: &str) -> (r: String)
    ensures
        r@ == breadcrumb(path@),
{
    let v = chars_of(path);
    let mut out = String::new();
    match split_last(&v) {
        None => out.append(path),
        Some((par, leaf)) => {
            push_crumb_links(&mut out, par.as_str());
            out.append(" › ");
            out.append(leaf.as_str());
        },
    }
    assert(out@ =~= breadcrumb(path@));
    out
}

/// The character views of a list of strings.
pub open spec fn texts(v: Seq<String>) -> Seq<Seq<char>> {
    v.map_values(|x: String| x@)
}

/// An annotation as `@m1:<kind>(<args>)`, without the parentheses when there
/// are no arguments.
pub open spec fn annotation_text(a: AnnotationDoc) -> Seq<char> {
    if a.args@.len() == 0 {
        "@m1:"@ + a.kind@
    } else {
        "@m1:"@ + a.kind@ + "("@ + join(texts(a.args@), ", "@) + ")"@
    }
}

/// Format one annotation as `@m1:<kind>(<args>)`, omitting the parens when
/// there are no args.
pub fn format_annotation(ann: &AnnotationDoc) -> (r: String)
    ensures
        r@ == annotation_text(*ann),
{
    let mut out = String::new();
    out.append("@m1:");
    out.append(ann.kind.as_str());
    if ann.args.len() > 0 {
        out.append("(");
        push_join(&mut out, &ann.args, ", ");
        out.append(")");
    }
    assert(out@ =~= annotation_text(*ann));
    out
}

/// A decimal text with trailing zeros, then a trailing `.`, removed.
pub open spec fn trim_decimal(t: Seq<char>) -> Seq<char> {
    trim_end_char(trim_end_char(t, '0'), '.')
}

fn trim_decimal_exec(t: &str) -> (r: String)
    ensures
        r@ == trim_decimal(t@),
{
    let a = trim_end_matches_char(t, '0');
    trim_end_matches_char(a.as_str(), '.')
}

/// A rate in Hz for a table cell: `200 Hz`, `0.5 Hz`, or `—` when absent.
pub open spec fn rate_text(hz: Option<Real>) -> Seq<char> {
    match hz {
        None => "—"@,
        Some(r) => trim_decimal(r.fixed3@) + " Hz"@,
    }
}

/// Format a rate in Hz for a table cell or field: `200 Hz`, `0.5 Hz`, or `—`
/// when absent. Trailing zeros are trimmed so integral rates read cleanly.
pub fn format_rate(hz: &Option<Real>) -> (r: String)
    ensures
        r@ == rate_text(*hz),
{
    match hz {
        None => {
            let mut s = String::new();
            s.append("—");
            s
        },
        Some(r) => {
            let mut s = trim_decimal_exec(r.fixed3.as_str());
            s.append(" Hz");
            s
        },
    }
}

/// A byte that stays as it is in a URL path: `A–Z a–z 0–9 - . _ ~`, and the
/// `/` that separates segments.
pub open spec fn url_plain_byte(b: u8) -> bool {
    ||| 65 <= b <= 90
    ||| 97 <= b <= 122
    ||| 48 <= b <= 57
    ||| b == 45 || b == 46 || b == 95 || b == 126 || b == 47
}

/// One byte of a URL path: kept, or `%XX` in upper-case hex.
pub open spec fn url_byte(b: u8) -> Seq<char> {
    if url_plain_byte(b) {
        seq![b as char]
    } else {
        seq!['%', hex_upper((b / 16) as nat), hex_upper((b % 16) as nat)]
    }
}

pub open spec fn url_bytes(bs: Seq<u8>) -> Seq<char>
    decreases bs.len(),
{
    if bs.len() == 0 {
        Seq::empty()
    } else {
        url_bytes(bs.drop_last()) + url_byte(bs.last())
    }
}

/// The URL-encoded form of a project-relative path: each UTF-8 byte of it
/// outside the unreserved set becomes `%XX`; the `/` separators stay.
pub open spec fn url_path(p: Seq<char>) -> Seq<char> {
    url_bytes(vstd::utf8::encode_utf8(p))
}

/// Percent-encode a project-relative path for use as a URL target, preserving
/// the `/` segment separators: every byte outside the unreserved set
/// (`A–Z a–z 0–9 - . _ ~`) becomes `%XX`. Only the URL target is encoded; link
/// text keeps the raw path.
pub fn url_encode_path(path: &str) -> (r: String)
    ensures
        r@ == url_path(path@),
{
    let bytes = path.as_bytes();
    let ghost bs = bytes@;
    let mut out = String::new();
    let mut i: usize = 0;
    while i < bytes.len()
        invariant
            bs == bytes@,
            bs == vstd::utf8::encode_utf8(path@),
            i <= bytes.len(),
            out@ == url_bytes(bs.take(i as int)),
        decreases bytes.len() - i,
    {
        let b = bytes[i];
        if (65 <= b && b <= 90) || (97 <= b && b <= 122) || (48 <= b && b <= 57) || b == 45 || b == 46
            || b == 95 || b == 126 || b == 47 {
            out.push(b as char);
        } else {
            out.push('%');
            out.push(hex_upper_exec((b / 16) as u64));
            out.push(hex_upper_exec((b % 16) as u64));
        }
        proof {
            assert(bs.take(i + 1).drop_last() =~= bs.take(i as int));
            assert(bs.take(i + 1).last() == b);
        }
        assert(out@ =~= url_bytes(bs.take(i + 1)));
        i += 1;
    }
    assert(bs.take(bs.len() as int) =~= bs);
    out
}

/// A function's Source line: with a base, the path links to `{base}/{path}`;
/// without one it is shown verbatim.
pub open spec fn source_line_text(path: Seq<char>, base: Option<Seq<char>>) -> Seq<char> {
    match base {
        Some(b) => "**Source:** ["@ + path + "]("@ + trim_end_char(b, '/') + "/"@ + url_path(path) + ")\n"@,
        None => "**Source:** `"@ + path + "`\n"@,
    }
}

/// Build a function's Source line. With a `source_base` the path becomes an
/// external link (`{base}/{path}`); without one it is shown verbatim so the
/// reader still sees which `.m1scr` implements the function.
pub fn source_line(path: &str, base: Option<&str>) -> (r: String)
    ensures
        r@ == source_line_text(path@, match base { Some(b) => Some(b@), None => None }),
{
    let mut out = String::new();
    match base {
        Some(b) => {
            out.append("**Source:** [");
            out.append(path);
            out.append("](");
            out.append(trim_end_matches_char(b, '/').as_str());
            out.append("/");
            out.append(url_encode_path(path).as_str());
            out.append(")\n");
        },
        None => {
            out.append("**Source:** `");
            out.append(path);
            out.append("`\n");
        },
    }
    assert(out@ =~= source_line_text(path@, match base { Some(b) => Some(b@), None => None }));
    out
}

/// Builds jump-to-declaration links for entities declared in the project
/// file. A link is built only when a source base and the project path are
/// both known.
pub struct SourceLinker {
    /// The source base (a blob-URL prefix), trailing slash trimmed.
    pub base: Option<String>,
    /// The project-relative project-file path the entity lines index into.
    pub m1prj_path: Option<String>,
}

/// The `[src](…)` link to line `line` (0-based) of the project file, when the
/// base and the project path are known and the entity has a line.
pub open spec fn src_link(l: SourceLinker, def_line: Option<u32>) -> Option<Seq<char>> {
    match (l.base, l.m1prj_path, def_line) {
        (Some(b), Some(p), Some(line)) => Some(
            "[src]("@ + b@ + "/"@ + url_path(p@) + "#L"@ + decimal(line as nat + 1) + ")"@,
        ),
        _ => None,
    }
}

/// The link as a leading space and the link, or nothing.
pub open spec fn src_suffix(l: SourceLinker, def_line: Option<u32>) -> Seq<char> {
    match src_link(l, def_line) {
        Some(t) => " "@ + t,
        None => Seq::empty(),
    }
}

impl SourceLinker {
    /// A linker for the given source base (trailing slashes trimmed) and
    /// project-file path.
    pub fn new(source_base: &Option<String>, m1prj_path: &Option<String>) -> (r: SourceLinker)
        ensures
            match *source_base {
                Some(b) => r.base is Some && r.base->0@ == trim_end_char(b@, '/'),
                None => r.base is None,
            },
            match *m1prj_path {
                Some(p) => r.m1prj_path is Some && r.m1prj_path->0@ == p@,
                None => r.m1prj_path is None,
            },
    {
        let base = match source_base {
            Some(b) => Some(trim_end_matches_char(b.as_str(), '/')),
            None => None,
        };
        let m1prj_path = match m1prj_path {
            Some(p) => {
                let mut s = String::new();
                s.append(p.as_str());
                Some(s)
            },
            None => None,
        };
        SourceLinker { base, m1prj_path }
    }

    /// A Markdown `[src](url)` link to an entity's declaration; `def_line` is
    /// 0-based and the line anchor 1-based (`def_line 41` → `#L42`).
    pub fn link(&self, def_line: Option<u32>) -> (r: Option<String>)
        ensures
            match r {
                Some(t) => src_link(*self, def_line) == Some(t@),
                None => src_link(*self, def_line) is None,
            },
    {
        match (&self.base, &self.m1prj_path, def_line) {
            (Some(b), Some(p), Some(line)) => {
                let mut out = String::new();
                out.append("[src](");
                out.append(b.as_str());
                out.append("/");
                out.append(url_encode_path(p.as_str()).as_str());
                out.append("#L");
                push_decimal(&mut out, line as u64 + 1);
                out.append(")");
                assert(out@ =~= "[src]("@ + b@ + "/"@ + url_path(p@) + "#L"@ + decimal(line as nat + 1) + ")"@);
                Some(out)
            },
            _ => None,
        }
    }

    /// The link with a leading space, ready to append to a heading or cell;
    /// empty when no link could be built.
    pub fn suffix(&self, def_line: Option<u32>) -> (r: String)
        ensures
            r@ == src_suffix(*self, def_line),
    {
        match self.link(def_line) {
            Some(l) => {
                let mut out = String::new();
                out.append(" ");
                out.append(l.as_str());
                out
            },
            None => String::new(),
        }
    }
}

/// A number for a CAN cell from its four-decimal text: trailing zeros and a
/// trailing `.` trimmed, and `0` for an empty or negative-zero result.
pub open spec fn real_text(fixed4: Seq<char>) -> Seq<char> {
    let s = trim_decimal(fixed4);
    if s.len() == 0 || s == "-0"@ {
        "0"@
    } else {
        s
    }
}

/// Format a number for a CAN cell from its four-decimal text: `0.5000` → `0.5`,
/// `2.0000` → `2`.
pub fn fmt_real(fixed4: &str) -> (r: String)
    ensures
        r@ == real_text(fixed4@),
{
    let s = trim_decimal_exec(fixed4);
    let empty = chars_of(s.as_str()).len() == 0;
    if empty || str_eq(s.as_str(), "-0") {
        let mut z = String::new();
        z.append("0");
        z
    } else {
        proof {
            if s@ == "-0"@ {
                assert(false);
            }
        }
        s
    }
}

/// The tag-index page of a tag.
pub open spec fn tag_file(tag: Seq<char>) -> Seq<char> {
    "tag."@ + spec_anchor_slug(tag) + ".md"@
}

/// The tag-index page filename for a tag, slugged so it is link-safe
/// (`fuel` → `tag.fuel.md`, `Powertrain Fuel` → `tag.powertrain-fuel.md`).
pub fn tag_filename(tag: &str) -> (r: String)
    ensures
        r@ == tag_file(tag@),
{
    let mut out = String::new();
    out.append("tag.");
    out.append(anchor_slug(tag).as_str());
    out.append(".md");
    out
}

/// The subsystem-graph page of a group.
pub open spec fn graph_page_file(group: Seq<char>) -> Seq<char> {
    "graph."@ + spec_anchor_slug(group) + ".md"@
}

/// The filename of a subsystem page (`graph.root-engine.md`).
pub fn graph_page_filename(group: &str) -> (r: String)
    ensures
        r@ == graph_page_file(group@),
{
    let mut out = String::new();
    out.append("graph.");
    out.append(anchor_slug(group).as_str());
    out.append(".md");
    out
}

/// A relationship-graph block: the sentinel comment the HTML renderer swaps
/// for the interactive widget, a blank line, then the Mermaid fallback fence.
pub open spec fn graph_block(mode: Seq<char>, group: Seq<char>, depth: nat, d: Diagram) -> Seq<char> {
    graph_sentinel(mode, group, depth) + "```mermaid\n"@ + mermaid_text(d) + "```\n\n"@
}

/// The sentinel comment of a graph block and the blank line after it.
pub open spec fn graph_sentinel(mode: Seq<char>, group: Seq<char>, depth: nat) -> Seq<char> {
    "<!--m1-graph:"@ + mode + ":"@ + decimal(depth) + ":"@ + group + "-->\n\n"@
}

fn graph_sentinel_text(mode: &str, group: &str, depth: usize) -> (r: String)
    ensures
        r@ == graph_sentinel(mode@, group@, depth as nat),
{
    let mut out = String::new();
    out.append("<!--m1-graph:");
    out.append(mode);
    out.append(":");
    push_decimal(&mut out, depth as u64);
    out.append(":");
    out.append(group);
    out.append("-->\n\n");
    assert(out@ =~= graph_sentinel(mode@, group@, depth as nat));
    out
}

/// Emit a relationship-graph block: a sentinel comment the HTML renderer swaps
/// for the interactive widget, followed by a Mermaid fallback fence so the
/// Markdown still shows a diagram where Mermaid renders. The blank line keeps
/// the comment a raw-HTML block and the fence a real code block.
pub fn emit_graph_block(out: &mut String, mode: &str, group: &str, depth: usize, diagram: &Diagram)
    requires
        edges_on_nodes(*diagram),
    ensures
        final(out)@ == old(out)@ + graph_block(mode@, group@, depth as nat, *diagram),
{
    let head = graph_sentinel_text(mode, group, depth);
    let body = diagram.to_mermaid();
    out.append(head.as_str());
    out.append("```mermaid\n");
    out.append(body.as_str());
    out.append("```\n\n");
    assert(final(out)@ =~= old(out)@ + graph_block(mode@, group@, depth as nat, *diagram));
}

/// Percent-decode a URL path into bytes, reading from the front: `%XX` with two
/// hexadecimal digits stands for that byte; any other (ASCII) character for its
/// own code.
pub open spec fn percent_decoded(t: Seq<char>) -> Seq<u8>
    decreases t.len(),
{
    if t.len() == 0 {
        Seq::empty()
    } else if t[0] == '%' && t.len() >= 3 && hex_value(t[1]) >= 0 && hex_value(t[2]) >= 0 {
        seq![(hex_value(t[1]) * 16 + hex_value(t[2])) as u8] + percent_decoded(t.skip(3))
    } else {
        seq![(t[0] as u32) as u8] + percent_decoded(t.drop_first())
    }
}

proof fn lemma_url_bytes_front(bs: Seq<u8>)
    requires
        bs.len() > 0,
    ensures
        url_bytes(bs) == url_byte(bs[0]) + url_bytes(bs.drop_first()),
    decreases bs.len(),
{
    if bs.len() == 1 {
        assert(bs.drop_last() =~= Seq::<u8>::empty());
        assert(bs.drop_first() =~= Seq::<u8>::empty());
        assert(url_bytes(bs.drop_last()) == Seq::<char>::empty());
        assert(bs.last() == bs[0]);
        assert(url_bytes(bs) =~= url_byte(bs[0]));
        assert(url_byte(bs[0]) + url_bytes(bs.drop_first()) =~= url_byte(bs[0]));
    } else {
        lemma_url_bytes_front(bs.drop_last());
        assert(bs.drop_last().drop_first() =~= bs.drop_first().drop_last());
        assert(bs.drop_first().last() == bs.last());
        assert(bs.drop_last()[0] == bs[0]);
    }
}

proof fn lemma_hex_upper_value(d: nat)
    requires
        d < 16,
    ensures
        hex_value(hex_upper(d)) == d,
{
    if d < 10 {
        assert(((48 + d) as char) as u32 == 48 + d);
    } else {
        assert(((55 + d) as char) as u32 == 55 + d);
    }
}

proof fn lemma_decode_url_byte(b: u8, rest: Seq<char>)
    ensures
        percent_decoded(url_byte(b) + rest) == seq![b] + percent_decoded(rest),
{
    let e = url_byte(b);
    let t = e + rest;
    if url_plain_byte(b) {
        assert(e =~= seq![b as char]);
        assert(t[0] == b as char);
        assert(((b as char) as u32) == b as u32);
        assert(t.drop_first() =~= rest);
    } else {
        let hi = (b / 16) as nat;
        let lo = (b % 16) as nat;
        lemma_hex_upper_value(hi);
        lemma_hex_upper_value(lo);
        assert(t[0] == '%' && t[1] == hex_upper(hi) && t[2] == hex_upper(lo));
        assert(t.skip(3) =~= rest);
        assert(hi * 16 + lo == b);
    }
}

/// Percent-decoding an encoded byte sequence gives the bytes back.
pub proof fn lemma_url_bytes_round_trip(bs: Seq<u8>)
    ensures
        percent_decoded(url_bytes(bs)) == bs,
    decreases bs.len(),
{
    if bs.len() > 0 {
        lemma_url_bytes_front(bs);
        lemma_decode_url_byte(bs[0], url_bytes(bs.drop_first()));
        lemma_url_bytes_round_trip(bs.drop_first());
        assert(seq![bs[0]] + bs.drop_first() =~= bs);
    }
}

/// Percent-decoding the encoded form of a path gives back the path's UTF-8
/// bytes.
pub proof fn lemma_url_path_round_trip(p: Seq<char>)
    ensures
        percent_decoded(url_path(p)) == vstd::utf8::encode_utf8(p),
{
    lemma_url_bytes_round_trip(vstd::utf8::encode_utf8(p));
}

} // verus!
