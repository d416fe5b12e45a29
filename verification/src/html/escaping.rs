//! HTML escaping for the hand-built markup. Text and attribute contexts differ
//! only by whether `"` is escaped, so both go through [`html_escape_into`].

use crate::text::chars_of;
use vstd::prelude::*;

verus! {

/// The escaped form of one character: `& < >` always, `"` in attributes.
pub open spec fn html_char(c: char, attr: bool) -> Seq<char> {
    if c == '&' {
        "&amp;"@
    } else if c == '<' {
        "&lt;"@
    } else if c == '>' {
        "&gt;"@
    } else if attr && c == '"' {
        "&quot;"@
    } else {
        seq![c]
    }
}

/// The HTML-escaped text of `s`.
pub open spec fn html_escaped(s: Seq<char>, attr: bool) -> Seq<char>
    decreases s.len(),
{
    if s.len() == 0 {
        Seq::empty()
    } else {
        html_escaped(s.drop_last(), attr) + html_char(s.last(), attr)
    }
}

/// Append `s` to `out` with HTML escaping. `& < >` are always escaped; when
/// `attr` is set the attribute-delimiting `"` is additionally escaped. Spaces
/// are left verbatim.
pub fn html_escape_into(out: &mut String, s: &str, attr: bool)
    ensures
        final(out)@ == old(out)@ + html_escaped(s@, attr),
{
    let v = chars_of(s);
    let ghost start = out@;
    let mut i: usize = 0;
    while i < v.len()
        invariant
            v@ == s@,
            i <= v.len(),
            out@ == start + html_escaped(s@.take(i as int), attr),
        decreases v.len() - i,
    {
        let ch = v[i];
        let ghost before = out@;
        if ch == '&' {
            out.append("&amp;");
        } else if ch == '<' {
            out.append("&lt;");
        } else if ch == '>' {
            out.append("&gt;");
        } else if attr && ch == '"' {
            out.append("&quot;");
        } else {
            out.push(ch);
        }
        proof {
            assert(s@.take(i + 1).drop_last() =~= s@.take(i as int));
            assert(out@ =~= before + html_char(ch, attr));
        }
        i += 1;
    }
    assert(s@.take(s@.len() as int) =~= s@);
}

/// HTML-text escaping: `& < >` escaped, `"` and spaces verbatim.
pub fn html_escape(s: &str) -> (r: String)
    ensures
        r@ == html_escaped(s@, false),
{
    let mut out = String::new();
    html_escape_into(&mut out, s, false);
    assert(out@ =~= html_escaped(s@, false));
    out
}

/// Escaping for a double-quoted attribute value: `& < > "` escaped, spaces
/// verbatim (so an href matches the on-disk page filename).
pub fn attr_escape(s: &str) -> (r: String)
    ensures
        r@ == html_escaped(s@, true),
{
    let mut out = String::new();
    html_escape_into(&mut out, s, true);
    assert(out@ =~= html_escaped(s@, true));
    out
}

pub proof fn lemma_html_char_safe(c: char, attr: bool)
    ensures
        !html_char(c, attr).contains('<'),
        !html_char(c, attr).contains('>'),
        attr ==> !html_char(c, attr).contains('"'),
        !attr ==> (c == '"' ==> html_char(c, attr) == seq!['"']),
{
    reveal_strlit("&amp;");
    reveal_strlit("&lt;");
    reveal_strlit("&gt;");
    reveal_strlit("&quot;");
    let r = html_char(c, attr);
    assert(!r.contains('<')) by {
        if r.contains('<') {
            let k = choose|k: int| 0 <= k < r.len() && r[k] == '<';
        }
    }
    assert(!r.contains('>')) by {
        if r.contains('>') {
            let k = choose|k: int| 0 <= k < r.len() && r[k] == '>';
        }
    }
    if attr {
        assert(!r.contains('"')) by {
            if r.contains('"') {
                let k = choose|k: int| 0 <= k < r.len() && r[k] == '"';
            }
        }
    }
}

/// Escaped text never holds a raw `<` or `>` (so it cannot open or close
/// markup), and attribute-escaped text never holds a raw `"` (so it cannot end
/// the attribute value).
pub proof fn lemma_html_escaped_is_inert(s: Seq<char>, attr: bool)
    ensures
        !html_escaped(s, attr).contains('<'),
        !html_escaped(s, attr).contains('>'),
        attr ==> !html_escaped(s, attr).contains('"'),
    decreases s.len(),
{
    if s.len() > 0 {
        lemma_html_escaped_is_inert(s.drop_last(), attr);
        lemma_html_char_safe(s.last(), attr);
        let a = html_escaped(s.drop_last(), attr);
        let b = html_char(s.last(), attr);
        assert forall|c: char| (a + b).contains(c) implies (a.contains(c) || b.contains(c)) by {
            let k = choose|k: int| 0 <= k < (a + b).len() && (a + b)[k] == c;
            if k < a.len() {
                assert(a[k] == c);
            } else {
                assert(b[k - a.len()] == c);
            }
        }
    }
}

/// `t` with every `"` written as `&quot;`.
pub open spec fn quotes_escaped(t: Seq<char>) -> Seq<char>
    decreases t.len(),
{
    if t.len() == 0 {
        Seq::empty()
    } else {
        quotes_escaped(t.drop_last()) + if t.last() == '"' {
            "&quot;"@
        } else {
            seq![t.last()]
        }
    }
}

proof fn lemma_quotes_escaped_append(a: Seq<char>, b: Seq<char>)
    ensures
        quotes_escaped(a + b) == quotes_escaped(a) + quotes_escaped(b),
    decreases b.len(),
{
    if b.len() > 0 {
        lemma_quotes_escaped_append(a, b.drop_last());
        assert((a + b).drop_last() =~= a + b.drop_last());
        assert((a + b).last() == b.last());
    } else {
        assert(a + b =~= a);
    }
}

proof fn lemma_quotes_escaped_plain(t: Seq<char>)
    requires
        !t.contains('"'),
    ensures
        quotes_escaped(t) == t,
    decreases t.len(),
{
    if t.len() > 0 {
        assert(!t.drop_last().contains('"')) by {
            if t.drop_last().contains('"') {
                let k = choose|k: int| 0 <= k < t.drop_last().len() && t.drop_last()[k] == '"';
                assert(t[k] == '"');
            }
        }
        lemma_quotes_escaped_plain(t.drop_last());
        assert(t.last() != '"') by {
            assert(t[t.len() - 1] == t.last());
        }
        assert(t.drop_last() + seq![t.last()] =~= t);
    }
}

/// The attribute escaping of a text is its text escaping with every `"`
/// further written as `&quot;`: the two escapers differ only on `"`.
pub proof fn lemma_attr_is_text_with_quotes(s: Seq<char>)
    ensures
        html_escaped(s, true) == quotes_escaped(html_escaped(s, false)),
    decreases s.len(),
{
    if s.len() > 0 {
        lemma_attr_is_text_with_quotes(s.drop_last());
        let c = s.last();
        lemma_quotes_escaped_append(html_escaped(s.drop_last(), false), html_char(c, false));
        reveal_strlit("&amp;");
        reveal_strlit("&lt;");
        reveal_strlit("&gt;");
        reveal_strlit("&quot;");
        if c == '"' {
            assert(html_char(c, false) =~= seq!['"']);
            let q = seq!['"'];
            assert(q.drop_last() =~= Seq::<char>::empty());
            assert(q.last() == '"');
            assert(quotes_escaped(q.drop_last()) == Seq::<char>::empty());
            assert(quotes_escaped(q) == quotes_escaped(q.drop_last()) + "&quot;"@);
            assert(Seq::<char>::empty() + "&quot;"@ =~= "&quot;"@);
            assert(html_char(c, true) == "&quot;"@);
        } else {
            lemma_html_char_safe(c, true);
            assert(!html_char(c, false).contains('"')) by {
                assert(html_char(c, false) == html_char(c, true));
            }
            lemma_quotes_escaped_plain(html_char(c, false));
        }
    }
}

/// Decode the entities `&amp;`, `&lt;`, `&gt;` and `&quot;`, reading from the
/// front; every other character stands for itself.
pub open spec fn html_unescaped(t: Seq<char>) -> Seq<char>
    decreases t.len(),
{
    if t.len() == 0 {
        Seq::empty()
    } else if t.len() >= 5 && t.take(5) == "&amp;"@ {
        seq!['&'] + html_unescaped(t.skip(5))
    } else if t.len() >= 4 && t.take(4) == "&lt;"@ {
        seq!['<'] + html_unescaped(t.skip(4))
    } else if t.len() >= 4 && t.take(4) == "&gt;"@ {
        seq!['>'] + html_unescaped(t.skip(4))
    } else if t.len() >= 6 && t.take(6) == "&quot;"@ {
        seq!['"'] + html_unescaped(t.skip(6))
    } else {
        seq![t[0]] + html_unescaped(t.drop_first())
    }
}

proof fn lemma_html_escaped_front(s: Seq<char>, attr: bool)
    requires
        s.len() > 0,
    ensures
        html_escaped(s, attr) == html_char(s[0], attr) + html_escaped(s.drop_first(), attr),
    decreases s.len(),
{
    if s.len() == 1 {
        assert(s.drop_last() =~= Seq::<char>::empty());
        assert(s.drop_first() =~= Seq::<char>::empty());
        assert(html_escaped(s, attr) =~= html_char(s[0], attr));
        assert(html_char(s[0], attr) + html_escaped(s.drop_first(), attr) =~= html_char(s[0], attr));
    } else {
        lemma_html_escaped_front(s.drop_last(), attr);
        assert(s.drop_last().drop_first() =~= s.drop_first().drop_last());
        assert(s.drop_first().last() == s.last());
        assert(s.drop_last()[0] == s[0]);
    }
}

proof fn lemma_unescape_char(c: char, attr: bool, rest: Seq<char>)
    ensures
        html_unescaped(html_char(c, attr) + rest) == seq![c] + html_unescaped(rest),
{
    reveal_strlit("&amp;");
    reveal_strlit("&lt;");
    reveal_strlit("&gt;");
    reveal_strlit("&quot;");
    let e = html_char(c, attr);
    let t = e + rest;
    if c == '&' {
        assert(t.take(5) =~= "&amp;"@);
        assert(t.skip(5) =~= rest);
    } else if c == '<' {
        assert(t[1] == 'l');
        assert(t.take(4) =~= "&lt;"@);
        assert(t.skip(4) =~= rest);
    } else if c == '>' {
        assert(t[1] == 'g');
        assert(t.take(4) =~= "&gt;"@);
        assert(t.skip(4) =~= rest);
    } else if attr && c == '"' {
        assert(t[1] == 'q');
        assert(t.take(6) =~= "&quot;"@);
        assert(t.skip(6) =~= rest);
    } else {
        assert(e =~= seq![c]);
        assert(t[0] == c);
        assert(t.drop_first() =~= rest);
        if t.len() >= 4 {
            assert(t.take(4)[0] == c);
        }
        if t.len() >= 5 {
            assert(t.take(5)[0] == c);
        }
        if t.len() >= 6 {
            assert(t.take(6)[0] == c);
        }
    }
}

/// Decoding the escaped text gives back the original, in either context.
pub proof fn lemma_html_unescape_round_trip(s: Seq<char>, attr: bool)
    ensures
        html_unescaped(html_escaped(s, attr)) == s,
    decreases s.len(),
{
    if s.len() > 0 {
        lemma_html_escaped_front(s, attr);
        lemma_unescape_char(s[0], attr, html_escaped(s.drop_first(), attr));
        lemma_html_unescape_round_trip(s.drop_first(), attr);
        assert(seq![s[0]] + s.drop_first() =~= s);
    }
}

} // verus!
