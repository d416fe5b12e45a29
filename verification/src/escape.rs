//! The single JSON-string escaper shared by every emitter. `script_safe`
//! additionally escapes `<` `>` `/` so the text can sit inside an inline
//! `<script>` element without ever closing it early.

use crate::text::{chars_of, hex_lower, push_unicode_escape, unicode_escape};
use vstd::prelude::*;

verus! {

/// The escaped form of one character inside a JSON string literal.
pub open spec fn json_char(c: char, script_safe: bool) -> Seq<char> {
    if c == '"' {
        "\\\""@
    } else if c == '\\' {
        "\\\\"@
    } else if c == '\n' {
        "\\n"@
    } else if c == '\r' {
        "\\r"@
    } else if c == '\t' {
        "\\t"@
    } else if c == '\u{08}' {
        "\\b"@
    } else if c == '\u{0C}' {
        "\\f"@
    } else if script_safe && c == '<' {
        "\\u003c"@
    } else if script_safe && c == '>' {
        "\\u003e"@
    } else if script_safe && c == '/' {
        "\\/"@
    } else if (c as u32) < 0x20 {
        unicode_escape(c)
    } else {
        seq![c]
    }
}

/// The JSON-escaped text of `s` (without the surrounding quotes).
pub open spec fn json_escaped(s: Seq<char>, script_safe: bool) -> Seq<char>
    decreases s.len(),
{
    if s.len() == 0 {
        Seq::empty()
    } else {
        json_escaped(s.drop_last(), script_safe) + json_char(s.last(), script_safe)
    }
}

/// The quoted JSON string literal of `s`.
pub open spec fn json_quoted(s: Seq<char>, script_safe: bool) -> Seq<char> {
    seq!['"'] + json_escaped(s, script_safe) + seq!['"']
}

/// Append `s` as a JSON string literal without the surrounding quotes. Always
/// escapes the JSON control set and emits `\uXXXX` for the remaining C0 control
/// characters; with `script_safe`, `<` `>` `/` are escaped as well.
pub fn escape_json_into(out: &mut String, s: &str, script_safe: bool)
    ensures
        final(out)@ == old(out)@ + json_escaped(s@, script_safe),
{
    let v = chars_of(s);
    let ghost start = out@;
    let mut i: usize = 0;
    while i < v.len()
        invariant
            v@ == s@,
            i <= v.len(),
            out@ == start + json_escaped(s@.take(i as int), script_safe),
        decreases v.len() - i,
    {
        let ch = v[i];
        let ghost before = out@;
        if ch == '"' {
            out.append("\\\"");
        } else if ch == '\\' {
            out.append("\\\\");
        } else if ch == '\n' {
            out.append("\\n");
        } else if ch == '\r' {
            out.append("\\r");
        } else if ch == '\t' {
            out.append("\\t");
        } else if ch == '\u{08}' {
            out.append("\\b");
        } else if ch == '\u{0C}' {
            out.append("\\f");
        } else if script_safe && ch == '<' {
            out.append("\\u003c");
        } else if script_safe && ch == '>' {
            out.append("\\u003e");
        } else if script_safe && ch == '/' {
            out.append("\\/");
        } else if (ch as u32) < 0x20 {
            push_unicode_escape(out, ch);
        } else {
            out.push(ch);
        }
        proof {
            assert(s@.take(i + 1).drop_last() =~= s@.take(i as int));
            assert(out@ =~= before + json_char(ch, script_safe));
        }
        i += 1;
    }
    assert(s@.take(s@.len() as int) =~= s@);
}

/// Append `s` as a quoted JSON string literal.
pub fn escape_json_quoted(out: &mut String, s: &str, script_safe: bool)
    ensures
        final(out)@ == old(out)@ + json_quoted(s@, script_safe),
{
    out.push('"');
    escape_json_into(out, s, script_safe);
    out.push('"');
    assert(final(out)@ =~= old(out)@ + json_quoted(s@, script_safe));
}

/// A freshly-allocated quoted JSON string literal of `s`.
pub fn escape_json_string(s: &str, script_safe: bool) -> (r: String)
    ensures
        r@ == json_quoted(s@, script_safe),
{
    let mut out = String::new();
    escape_json_quoted(&mut out, s, script_safe);
    assert(out@ =~= json_quoted(s@, script_safe));
    out
}

pub proof fn lemma_json_char_has_no_open_angle(c: char)
    ensures
        !json_char(c, true).contains('<'),
{
    reveal_strlit("\\\"");
    reveal_strlit("\\\\");
    reveal_strlit("\\n");
    reveal_strlit("\\r");
    reveal_strlit("\\t");
    reveal_strlit("\\b");
    reveal_strlit("\\f");
    reveal_strlit("\\u003c");
    reveal_strlit("\\u003e");
    reveal_strlit("\\/");
    let r = json_char(c, true);
    if r.contains('<') {
        let k = choose|k: int| 0 <= k < r.len() && r[k] == '<';
        if (c as u32) < 0x20 && c != '"' && c != '\\' && c != '\n' && c != '\r' && c != '\t'
            && c != '\u{08}' && c != '\u{0C}' {
            assert(r == unicode_escape(c));
            assert(k >= 4);
            assert((c as nat) / 16 < 2);
        }
    }
}

/// Script-safe JSON text never holds a `<`, so it can never close an embedding
/// `<script>` element (no `</script>` can appear in it).
pub proof fn lemma_script_safe_has_no_open_angle(s: Seq<char>)
    ensures
        !json_escaped(s, true).contains('<'),
    decreases s.len(),
{
    if s.len() > 0 {
        lemma_script_safe_has_no_open_angle(s.drop_last());
        lemma_json_char_has_no_open_angle(s.last());
        let a = json_escaped(s.drop_last(), true);
        let b = json_char(s.last(), true);
        if (a + b).contains('<') {
            let k = choose|k: int| 0 <= k < (a + b).len() && (a + b)[k] == '<';
            if k < a.len() {
                assert(a[k] == '<');
            } else {
                assert(b[k - a.len()] == '<');
            }
        }
    }
}

/// The value of a hexadecimal digit, or `-1` for any other character.
pub open spec fn hex_value(c: char) -> int {
    if '0' <= c && c <= '9' {
        c as u32 - 48
    } else if 'a' <= c && c <= 'f' {
        c as u32 - 87
    } else if 'A' <= c && c <= 'F' {
        c as u32 - 55
    } else {
        -1
    }
}

/// Whether `t[1..5]` after a `u` are four hexadecimal digits.
pub open spec fn four_hex(t: Seq<char>) -> bool {
    t.len() >= 6 && hex_value(t[2]) >= 0 && hex_value(t[3]) >= 0 && hex_value(t[4]) >= 0 && hex_value(t[5]) >= 0
}

/// The code point of the four hexadecimal digits `t[2..6]`.
pub open spec fn four_hex_value(t: Seq<char>) -> int {
    hex_value(t[2]) * 4096 + hex_value(t[3]) * 256 + hex_value(t[4]) * 16 + hex_value(t[5])
}

/// Decode the contents of a JSON string literal, reading from the front: each
/// escape `\"` `\\` `\/` `\b` `\f` `\n` `\r` `\t` `\uXXXX` stands for its
/// character; every other character stands for itself.
pub open spec fn json_unescaped(t: Seq<char>) -> Seq<char>
    decreases t.len(),
{
    if t.len() == 0 {
        Seq::empty()
    } else if t[0] == '\\' && t.len() >= 2 {
        let e = t[1];
        if e == '"' || e == '\\' || e == '/' {
            seq![e] + json_unescaped(t.skip(2))
        } else if e == 'b' {
            seq!['\u{08}'] + json_unescaped(t.skip(2))
        } else if e == 'f' {
            seq!['\u{0C}'] + json_unescaped(t.skip(2))
        } else if e == 'n' {
            seq!['\n'] + json_unescaped(t.skip(2))
        } else if e == 'r' {
            seq!['\r'] + json_unescaped(t.skip(2))
        } else if e == 't' {
            seq!['\t'] + json_unescaped(t.skip(2))
        } else if e == 'u' && four_hex(t) {
            seq![(four_hex_value(t) as u32) as char] + json_unescaped(t.skip(6))
        } else {
            seq![t[0]] + json_unescaped(t.drop_first())
        }
    } else {
        seq![t[0]] + json_unescaped(t.drop_first())
    }
}

proof fn lemma_json_escaped_front(s: Seq<char>, script_safe: bool)
    requires
        s.len() > 0,
    ensures
        json_escaped(s, script_safe) == json_char(s[0], script_safe) + json_escaped(s.drop_first(), script_safe),
    decreases s.len(),
{
    if s.len() == 1 {
        assert(s.drop_last() =~= Seq::<char>::empty());
        assert(s.drop_first() =~= Seq::<char>::empty());
        assert(json_escaped(s.drop_last(), script_safe) == Seq::<char>::empty());
        assert(s.last() == s[0]);
        assert(json_escaped(s, script_safe) =~= json_char(s[0], script_safe));
        assert(json_char(s[0], script_safe) + json_escaped(s.drop_first(), script_safe) =~= json_char(
            s[0],
            script_safe,
        ));
    } else {
        lemma_json_escaped_front(s.drop_last(), script_safe);
        assert(s.drop_last().drop_first() =~= s.drop_first().drop_last());
        assert(s.drop_first().last() == s.last());
        assert(s.drop_last()[0] == s[0]);
    }
}

proof fn lemma_hex_lower_value(d: nat)
    requires
        d < 16,
    ensures
        hex_value(hex_lower(d)) == d,
{
    if d < 10 {
        assert(((48 + d) as char) as u32 == 48 + d);
    } else {
        assert(((87 + d) as char) as u32 == 87 + d);
    }
}

proof fn lemma_unescape_json_char(c: char, script_safe: bool, rest: Seq<char>)
    ensures
        json_unescaped(json_char(c, script_safe) + rest) == seq![c] + json_unescaped(rest),
{
    reveal_strlit("\\\"");
    reveal_strlit("\\\\");
    reveal_strlit("\\n");
    reveal_strlit("\\r");
    reveal_strlit("\\t");
    reveal_strlit("\\b");
    reveal_strlit("\\f");
    reveal_strlit("\\u003c");
    reveal_strlit("\\u003e");
    reveal_strlit("\\/");
    let e = json_char(c, script_safe);
    let t = e + rest;
    if c == '"' || c == '\\' || c == '\n' || c == '\r' || c == '\t' || c == '\u{08}' || c == '\u{0C}' || (
    script_safe && c == '/') {
        assert(e.len() == 2);
        assert(t[0] == e[0] && t[1] == e[1]);
        assert(t.skip(2) =~= rest);
    } else if script_safe && (c == '<' || c == '>') {
        assert(e.len() == 6);
        assert(t[0] == e[0] && t[1] == e[1] && t[2] == e[2] && t[3] == e[3] && t[4] == e[4] && t[5] == e[5]);
        assert(t.skip(6) =~= rest);
        assert(hex_value('0') == 0);
        assert(hex_value('3') == 3);
        if c == '<' {
            assert(hex_value('c') == 12);
            assert(four_hex_value(t) == 60);
            assert((60u32 as char) == '<');
        } else {
            assert(hex_value('e') == 14);
            assert(four_hex_value(t) == 62);
            assert((62u32 as char) == '>');
        }
    } else if (c as u32) < 0x20 {
        let hi = (c as nat) / 16;
        let lo = (c as nat) % 16;
        assert(e == unicode_escape(c));
        lemma_hex_lower_value(hi);
        lemma_hex_lower_value(lo);
        assert(t[0] == '\\' && t[1] == 'u' && t[2] == '0' && t[3] == '0' && t[4] == hex_lower(hi) && t[5]
            == hex_lower(lo));
        assert(hex_value('0') == 0);
        assert(four_hex_value(t) == c as u32);
        assert(((c as u32) as char) == c);
        assert(t.skip(6) =~= rest);
    } else {
        assert(e =~= seq![c]);
        assert(t[0] == c);
        assert(t.drop_first() =~= rest);
    }
}

/// The escaped text decodes back to the input, in either mode, so `"` + the
/// escaped text + `"` is a JSON string literal of exactly `s`.
pub proof fn lemma_json_unescape_round_trip(s: Seq<char>, script_safe: bool)
    ensures
        json_unescaped(json_escaped(s, script_safe)) == s,
    decreases s.len(),
{
    if s.len() > 0 {
        lemma_json_escaped_front(s, script_safe);
        lemma_unescape_json_char(s[0], script_safe, json_escaped(s.drop_first(), script_safe));
        lemma_json_unescape_round_trip(s.drop_first(), script_safe);
        assert(seq![s[0]] + s.drop_first() =~= s);
    }
}

/// No control character and, in script-safe mode, no `<` or `>`.
pub open spec fn printable_json(t: Seq<char>, script_safe: bool) -> bool {
    forall|i: int|
        0 <= i < t.len() ==> (#[trigger] t[i]) as u32 >= 0x20 && (script_safe ==> t[i] != '<' && t[i] != '>')
}

proof fn lemma_json_char_printable(c: char, script_safe: bool)
    ensures
        printable_json(json_char(c, script_safe), script_safe),
{
    reveal_strlit("\\\"");
    reveal_strlit("\\\\");
    reveal_strlit("\\n");
    reveal_strlit("\\r");
    reveal_strlit("\\t");
    reveal_strlit("\\b");
    reveal_strlit("\\f");
    reveal_strlit("\\u003c");
    reveal_strlit("\\u003e");
    reveal_strlit("\\/");
    let e = json_char(c, script_safe);
    if (c as u32) < 0x20 && c != '"' && c != '\\' && c != '\n' && c != '\r' && c != '\t' && c != '\u{08}'
        && c != '\u{0C}' {
        let hi = (c as nat) / 16;
        let lo = (c as nat) % 16;
        assert(e == unicode_escape(c));
        assert(hi < 2);
        assert(((48 + hi) as char) as u32 == 48 + hi);
        if lo < 10 {
            assert(((48 + lo) as char) as u32 == 48 + lo);
        } else {
            assert(((87 + lo) as char) as u32 == 87 + lo);
        }
    }
}

/// The escaped text holds no control character, and in script-safe mode no
/// `<` or `>`.
pub proof fn lemma_json_escaped_printable(s: Seq<char>, script_safe: bool)
    ensures
        printable_json(json_escaped(s, script_safe), script_safe),
    decreases s.len(),
{
    if s.len() > 0 {
        lemma_json_escaped_printable(s.drop_last(), script_safe);
        lemma_json_char_printable(s.last(), script_safe);
        let a = json_escaped(s.drop_last(), script_safe);
        let b = json_char(s.last(), script_safe);
        assert forall|i: int| 0 <= i < (a + b).len() implies (#[trigger] (a + b)[i]) as u32 >= 0x20 && (script_safe
            ==> (a + b)[i] != '<' && (a + b)[i] != '>') by {
            if i < a.len() {
                assert((a + b)[i] == a[i]);
            } else {
                assert((a + b)[i] == b[i - a.len()]);
            }
        }
    }
}

} // verus!
