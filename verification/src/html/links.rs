//! Intra-doc link rewriting: relative `*.md` hrefs in rendered HTML become
//! `*.html` so links between pages resolve in the HTML site. External
//! `http(s)://` links are left untouched.

use crate::text::{chars_of, find_from, has_prefix, has_suffix, index_from, lemma_index_from, string_from_chars};
use vstd::prelude::*;

verus! {

/// The first position of `a` or `b` in `s` at or after `i`, or `-1`.
pub open spec fn first_of(s: Seq<char>, a: char, b: char, i: int) -> int
    decreases s.len() - i,
{
    if i < 0 || i >= s.len() {
        -1
    } else if s[i] == a || s[i] == b {
        i
    } else {
        first_of(s, a, b, i + 1)
    }
}

/// One href value rewritten: a relative link whose path (before any `#…` or
/// `?…`) ends in `.md` gets `.html` instead; everything else is unchanged.
pub open spec fn rewrite_href(h: Seq<char>) -> Seq<char> {
    if has_prefix(h, "http://"@) || has_prefix(h, "https://"@) {
        h
    } else {
        let k = first_of(h, '#', '?', 0);
        let path = if k < 0 { h } else { h.take(k) };
        let suffix = if k < 0 { Seq::empty() } else { h.skip(k) };
        if has_suffix(path, ".md"@) {
            path.take(path.len() - 3) + ".html"@ + suffix
        } else {
            h
        }
    }
}

/// The rewritten text of `s` from position `i` on: each `href="…"` value is
/// passed through [`rewrite_href`]; all other text is copied.
pub open spec fn rewrite_from(s: Seq<char>, i: int) -> Seq<char>
    decreases s.len() - i,
{
    if i < 0 || i > s.len() {
        Seq::empty()
    } else {
        let pos = index_from(s, "href=\""@, i);
        if pos < 0 {
            s.subrange(i, s.len() as int)
        } else {
            let hs = pos + "href=\""@.len();
            let end = index_from(s, seq!['"'], hs);
            if end < 0 || hs > s.len() {
                s.subrange(i, s.len() as int)
            } else {
                proof {
                    lemma_index_from(s, "href=\""@, i);
                    lemma_index_from(s, seq!['"'], hs);
                }
                s.subrange(i, hs) + rewrite_href(s.subrange(hs, end)) + seq!['"'] + rewrite_from(s, end + 1)
            }
        }
    }
}

fn first_of_exec(v: &Vec<char>, a: char, b: char) -> (r: Option<usize>)
    ensures
        match r {
            Some(k) => first_of(v@, a, b, 0) == k as int,
            None => first_of(v@, a, b, 0) == -1,
        },
{
    let mut j: usize = 0;
    while j < v.len()
        invariant
            j <= v.len(),
            first_of(v@, a, b, 0) == first_of(v@, a, b, j as int),
        decreases v.len() - j,
    {
        if v[j] == a || v[j] == b {
            return Some(j);
        }
        j += 1;
    }
    None
}

/// Rewrite one href value (see [`rewrite_href`]).
fn rewrite_one(out: &mut String, h: &Vec<char>)
    ensures
        final(out)@ == old(out)@ + rewrite_href(h@),
{
    let hs = string_from_chars(h, 0, h.len());
    assert(h@.subrange(0, h@.len() as int) =~= h@);
    if crate::text::starts_with(hs.as_str(), "http://") || crate::text::starts_with(hs.as_str(), "https://") {
        out.append(hs.as_str());
        return;
    }
    let k = first_of_exec(h, '#', '?');
    let cut = match k {
        Some(k) => k,
        None => h.len(),
    };
    proof {
        if let Some(k) = k {
            lemma_first_of_bounds(h@, '#', '?', 0);
        }
    }
    let path = string_from_chars(h, 0, cut);
    let suffix = string_from_chars(h, cut, h.len());
    proof {
        assert(path@ =~= (if k.is_none() { h@ } else { h@.take(cut as int) }));
        assert(suffix@ =~= (if k.is_none() { Seq::empty() } else { h@.skip(cut as int) }));
    }
    if crate::text::ends_with(path.as_str(), ".md") {
        proof {
            reveal_strlit(".md");
        }
        let stem = string_from_chars(h, 0, cut - 3);
        assert(stem@ =~= path@.take(path@.len() - 3));
        out.append(stem.as_str());
        out.append(".html");
        out.append(suffix.as_str());
        assert(final(out)@ =~= old(out)@ + rewrite_href(h@));
    } else {
        out.append(hs.as_str());
    }
}

pub proof fn lemma_first_of_bounds(s: Seq<char>, a: char, b: char, i: int)
    requires
        0 <= i,
    ensures
        first_of(s, a, b, i) == -1 || (i <= first_of(s, a, b, i) < s.len()),
    decreases s.len() - i,
{
    if i < s.len() && s[i] != a && s[i] != b {
        lemma_first_of_bounds(s, a, b, i + 1);
    }
}

/// Rewrite relative `*.md` hrefs to `*.html`. Only touches `href="…"`
/// attribute values whose path part ends with `.md` and that do not start with
/// `http://` or `https://`; a fragment or query after the path is preserved.
pub fn rewrite_md_links(html: &str) -> (r: String)
    ensures
        r@ == rewrite_from(html@, 0),
{
    let v = chars_of(html);
    let needle = chars_of("href=\"");
    let quote = chars_of("\"");
    proof {
        reveal_strlit("\"");
    }
    assert(quote@ =~= seq!['"']);
    let mut out = String::new();
    let mut i: usize = 0;
    loop
        invariant
            v@ == html@,
            needle@ == "href=\""@,
            quote@ == seq!['"'],
            i <= v.len(),
            out@ + rewrite_from(v@, i as int) == rewrite_from(v@, 0),
        decreases v.len() - i,
    {
        let ghost before = out@;
        match find_from(&v, &needle, i) {
            None => {
                let rest = string_from_chars(&v, i, v.len());
                out.append(rest.as_str());
                return out;
            },
            Some(pos) => {
                proof {
                    lemma_index_from(v@, needle@, i as int);
                }
                let hs = pos + needle.len();
                match find_from(&v, &quote, hs) {
                    None => {
                        let rest = string_from_chars(&v, i, v.len());
                        out.append(rest.as_str());
                        return out;
                    },
                    Some(end) => {
                        proof {
                            lemma_index_from(v@, quote@, hs as int);
                        }
                        let head = string_from_chars(&v, i, hs);
                        out.append(head.as_str());
                        let href = string_from_chars(&v, hs, end);
                        let hv = chars_of(href.as_str());
                        rewrite_one(&mut out, &hv);
                        out.push('"');
                        proof {
                            assert(out@ =~= before + v@.subrange(i as int, hs as int)
                                + rewrite_href(v@.subrange(hs as int, end as int)) + seq!['"']);
                        }
                        i = end + 1;
                    },
                }
            },
        }
    }
}

} // verus!
