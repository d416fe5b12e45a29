//! Character-level building blocks shared by every renderer: a char view of a
//! string, single-char appends, character classes, the lexicographic order on
//! strings, and the decimal / hexadecimal number texts.

use vstd::prelude::*;

verus! {

/// `String::push` appends exactly one character to the string.
pub assume_specification[ String::push ](s: &mut String, ch: char)
    ensures
        final(s)@ == old(s)@.push(ch),
;

/// The characters of `s`, in order.
pub fn chars_of(s: &str) -> (v: Vec<char>)
    ensures
        v@ == s@,
{
    let mut v: Vec<char> = Vec::new();
    for c in iter: s.chars()
        invariant
            v@ == iter.seq().take(iter.index() as int),
    {
        v.push(c);
    }
    v
}

/// Whether two strings hold the same characters.
pub fn str_eq(a: &str, b: &str) -> (r: bool)
    ensures
        r == (a@ == b@),
{
    let x = chars_of(a);
    let y = chars_of(b);
    if x.len() != y.len() {
        return false;
    }
    let mut i: usize = 0;
    while i < x.len()
        invariant
            x@ == a@,
            y@ == b@,
            x.len() == y.len(),
            i <= x.len(),
            forall|j: int| 0 <= j < i ==> x@[j] == y@[j],
        decreases x.len() - i,
    {
        if x[i] != y[i] {
            return false;
        }
        i += 1;
    }
    assert(x@ =~= y@);
    true
}

/// Whether `s` has no characters.
pub fn is_empty_str(s: &str) -> (r: bool)
    ensures
        r == (s@.len() == 0),
{
    chars_of(s).len() == 0
}

/// A copy of `s` as an owned string.
pub fn to_owned_string(s: &str) -> (r: String)
    ensures
        r@ == s@,
{
    let mut r = String::new();
    r.append(s);
    r
}

/// ASCII letters and digits (`A–Z a–z 0–9`).
pub open spec fn is_ascii_alnum(c: char) -> bool {
    ('a' <= c && c <= 'z') || ('A' <= c && c <= 'Z') || ('0' <= c && c <= '9')
}

/// ASCII upper-case letters map to lower case; every other char is unchanged.
pub open spec fn ascii_lower(c: char) -> char {
    if 'A' <= c && c <= 'Z' {
        ((c as u32) + 32) as char
    } else {
        c
    }
}

pub fn is_ascii_alnum_exec(c: char) -> (r: bool)
    ensures
        r == is_ascii_alnum(c),
{
    ('a' <= c && c <= 'z') || ('A' <= c && c <= 'Z') || ('0' <= c && c <= '9')
}

pub fn ascii_lower_exec(c: char) -> (r: char)
    ensures
        r == ascii_lower(c),
{
    if 'A' <= c && c <= 'Z' {
        let u: u32 = (c as u32) + 32;
        assert(65 <= u <= 122);
        char_from_ascii(u)
    } else {
        c
    }
}

/// The char with code point `u`, for an ASCII code point.
fn char_from_ascii(u: u32) -> (c: char)
    requires
        u < 128,
    ensures
        c == u as char,
{
    u as u8 as char
}

/// The decimal digit for `d < 10`.
pub open spec fn digit(d: nat) -> char {
    if d < 10 {
        (48 + d) as char
    } else {
        '?'
    }
}

/// The lower-case hexadecimal digit for `d < 16`.
pub open spec fn hex_lower(d: nat) -> char {
    if d < 10 {
        digit(d)
    } else if d < 16 {
        (87 + d) as char
    } else {
        '?'
    }
}

/// The upper-case hexadecimal digit for `d < 16`.
pub open spec fn hex_upper(d: nat) -> char {
    if d < 10 {
        digit(d)
    } else if d < 16 {
        (55 + d) as char
    } else {
        '?'
    }
}

/// The decimal text of `n` with no leading zeros (`0` for zero).
pub open spec fn decimal(n: nat) -> Seq<char>
    decreases n,
{
    if n < 10 {
        seq![digit(n)]
    } else {
        decimal(n / 10).push(digit(n % 10))
    }
}

/// The upper-case hexadecimal text of `n` with no leading zeros (`0` for zero).
pub open spec fn hex_upper_text(n: nat) -> Seq<char>
    decreases n,
{
    if n < 16 {
        seq![hex_upper(n)]
    } else {
        hex_upper_text(n / 16).push(hex_upper(n % 16))
    }
}

fn digit_exec(d: u64) -> (c: char)
    requires
        d < 10,
    ensures
        c == digit(d as nat),
{
    char_from_ascii((48 + d) as u32)
}

fn hex_lower_exec(d: u64) -> (c: char)
    requires
        d < 16,
    ensures
        c == hex_lower(d as nat),
{
    if d < 10 {
        digit_exec(d)
    } else {
        char_from_ascii((87 + d) as u32)
    }
}

pub fn hex_upper_exec(d: u64) -> (c: char)
    requires
        d < 16,
    ensures
        c == hex_upper(d as nat),
{
    if d < 10 {
        digit_exec(d)
    } else {
        char_from_ascii((55 + d) as u32)
    }
}

/// Append the decimal text of `n`.
pub fn push_decimal(out: &mut String, n: u64)
    ensures
        final(out)@ == old(out)@ + decimal(n as nat),
    decreases n,
{
    if n >= 10 {
        push_decimal(out, n / 10);
    }
    out.push(digit_exec(n % 10));
}

/// Append the upper-case hexadecimal text of `n`.
pub fn push_hex_upper(out: &mut String, n: u64)
    ensures
        final(out)@ == old(out)@ + hex_upper_text(n as nat),
    decreases n,
{
    if n >= 16 {
        push_hex_upper(out, n / 16);
    }
    out.push(hex_upper_exec(n % 16));
}

/// Append the decimal text of a wide count `n`.
pub fn push_decimal_wide(out: &mut String, n: u128)
    ensures
        final(out)@ == old(out)@ + decimal(n as nat),
    decreases n,
{
    if n >= 10 {
        push_decimal_wide(out, n / 10);
    }
    out.push(digit_exec((n % 10) as u64));
}

/// The decimal text of `n` as a fresh string.
pub fn decimal_string(n: u64) -> (s: String)
    ensures
        s@ == decimal(n as nat),
{
    let mut s = String::new();
    push_decimal(&mut s, n);
    s
}

/// The `\uXXXX` JSON escape of a C0 control character (code point below 0x20):
/// four lower-case hex digits.
pub open spec fn unicode_escape(c: char) -> Seq<char> {
    seq!['\\', 'u', '0', '0', hex_lower((c as nat) / 16), hex_lower((c as nat) % 16)]
}

pub fn push_unicode_escape(out: &mut String, c: char)
    requires
        (c as u32) < 0x20,
    ensures
        final(out)@ == old(out)@ + unicode_escape(c),
{
    let u: u32 = c as u32;
    out.push('\\');
    out.push('u');
    out.push('0');
    out.push('0');
    out.push(hex_lower_exec((u / 16) as u64));
    out.push(hex_lower_exec((u % 16) as u64));
    assert(final(out)@ =~= old(out)@ + unicode_escape(c));
}

// ---------------------------------------------------------------------------
// The lexicographic order on character sequences
// ---------------------------------------------------------------------------

/// Lexicographic "strictly before" on character sequences, comparing code
/// points; a proper prefix sorts first. This is the order of Rust's `str`
/// comparison (UTF-8 preserves code-point order).
pub open spec fn seq_lt(a: Seq<char>, b: Seq<char>) -> bool
    decreases a.len(),
{
    if a.len() == 0 {
        b.len() > 0
    } else if b.len() == 0 {
        false
    } else if a[0] != b[0] {
        a[0] < b[0]
    } else {
        seq_lt(a.drop_first(), b.drop_first())
    }
}

pub proof fn lemma_seq_lt_irreflexive(a: Seq<char>)
    ensures
        !seq_lt(a, a),
    decreases a.len(),
{
    if a.len() > 0 {
        lemma_seq_lt_irreflexive(a.drop_first());
    }
}

pub proof fn lemma_seq_lt_transitive(a: Seq<char>, b: Seq<char>, c: Seq<char>)
    requires
        seq_lt(a, b),
        seq_lt(b, c),
    ensures
        seq_lt(a, c),
    decreases a.len(),
{
    if a.len() > 0 && b.len() > 0 && c.len() > 0 {
        if a[0] == b[0] && b[0] == c[0] {
            lemma_seq_lt_transitive(a.drop_first(), b.drop_first(), c.drop_first());
        }
    }
}

pub proof fn lemma_seq_lt_total(a: Seq<char>, b: Seq<char>)
    ensures
        seq_lt(a, b) || a == b || seq_lt(b, a),
    decreases a.len(),
{
    if a.len() > 0 && b.len() > 0 {
        if a[0] == b[0] {
            lemma_seq_lt_total(a.drop_first(), b.drop_first());
            if a.drop_first() == b.drop_first() {
                assert(a =~= seq![a[0]] + a.drop_first());
                assert(b =~= seq![b[0]] + b.drop_first());
            }
        }
    } else if a.len() == 0 && b.len() == 0 {
        assert(a =~= b);
    }
}

pub proof fn lemma_seq_lt_asymmetric(a: Seq<char>, b: Seq<char>)
    requires
        seq_lt(a, b),
    ensures
        !seq_lt(b, a),
{
    if seq_lt(b, a) {
        lemma_seq_lt_transitive(a, b, a);
        lemma_seq_lt_irreflexive(a);
    }
}

/// Whether `a` sorts strictly before `b`.
pub fn str_lt(a: &str, b: &str) -> (r: bool)
    ensures
        r == seq_lt(a@, b@),
{
    let x = chars_of(a);
    let y = chars_of(b);
    let mut i: usize = 0;
    assert(a@.skip(0) =~= a@);
    assert(b@.skip(0) =~= b@);
    while i < x.len() && i < y.len()
        invariant
            x@ == a@,
            y@ == b@,
            i <= x.len(),
            i <= y.len(),
            seq_lt(a@, b@) == seq_lt(a@.skip(i as int), b@.skip(i as int)),
        decreases x.len() - i,
    {
        if x[i] != y[i] {
            assert(a@.skip(i as int)[0] == x@[i as int]);
            assert(b@.skip(i as int)[0] == y@[i as int]);
            return x[i] < y[i];
        }
        assert(a@.skip(i as int).drop_first() =~= a@.skip(i + 1));
        assert(b@.skip(i as int).drop_first() =~= b@.skip(i + 1));
        i += 1;
    }
    y.len() > i
}

/// The string holding the characters `v[from..to]`.
pub fn string_from_chars(v: &Vec<char>, from: usize, to: usize) -> (s: String)
    requires
        from <= to <= v.len(),
    ensures
        s@ == v@.subrange(from as int, to as int),
{
    let mut s = String::new();
    let mut i = from;
    while i < to
        invariant
            from <= i <= to <= v.len(),
            s@ == v@.subrange(from as int, i as int),
        decreases to - i,
    {
        s.push(v[i]);
        assert(v@.subrange(from as int, i + 1) =~= v@.subrange(from as int, i as int).push(v@[i as int]));
        i += 1;
    }
    s
}

/// Whether `s` begins with `prefix`.
pub open spec fn has_prefix(s: Seq<char>, prefix: Seq<char>) -> bool {
    prefix.len() <= s.len() && s.take(prefix.len() as int) == prefix
}

/// Whether `s` ends with `suffix`.
pub open spec fn has_suffix(s: Seq<char>, suffix: Seq<char>) -> bool {
    suffix.len() <= s.len() && s.skip(s.len() - suffix.len()) == suffix
}

/// Whether the chars `v` begin, at position `at`, with the chars of `pat`.
pub fn matches_at(v: &Vec<char>, at: usize, pat: &Vec<char>) -> (r: bool)
    ensures
        r == (at + pat.len() <= v.len() && v@.subrange(at as int, at + pat.len()) == pat@),
{
    if at > v.len() || pat.len() > v.len() - at {
        return false;
    }
    let mut j: usize = 0;
    while j < pat.len()
        invariant
            at + pat.len() <= v.len(),
            j <= pat.len(),
            forall|k: int| 0 <= k < j ==> v@[at + k] == pat@[k],
        decreases pat.len() - j,
    {
        if v[at + j] != pat[j] {
            assert(v@.subrange(at as int, at + pat.len())[j as int] != pat@[j as int]);
            return false;
        }
        j += 1;
    }
    assert(v@.subrange(at as int, at + pat.len()) =~= pat@);
    true
}

/// Whether `s` begins with `prefix`.
pub fn starts_with(s: &str, prefix: &str) -> (r: bool)
    ensures
        r == has_prefix(s@, prefix@),
{
    let v = chars_of(s);
    let p = chars_of(prefix);
    let r = matches_at(&v, 0, &p);
    proof {
        if r {
            assert(v@.take(p@.len() as int) =~= v@.subrange(0, p@.len() as int));
        } else if has_prefix(s@, prefix@) {
            assert(v@.take(p@.len() as int) =~= v@.subrange(0, p@.len() as int));
        }
    }
    r
}

/// Whether `s` ends with `suffix`.
pub fn ends_with(s: &str, suffix: &str) -> (r: bool)
    ensures
        r == has_suffix(s@, suffix@),
{
    let v = chars_of(s);
    let p = chars_of(suffix);
    if p.len() > v.len() {
        return false;
    }
    let r = matches_at(&v, v.len() - p.len(), &p);
    assert(v@.skip(v@.len() - p@.len()) =~= v@.subrange(v@.len() - p@.len(), v@.len() as int));
    r
}

/// The first position at or after `i` where `pat` occurs in `s`, or `-1`.
pub open spec fn index_from(s: Seq<char>, pat: Seq<char>, i: int) -> int
    decreases s.len() + 1 - i,
{
    if i < 0 || i + pat.len() > s.len() {
        -1
    } else if s.subrange(i, i + pat.len()) == pat {
        i
    } else {
        index_from(s, pat, i + 1)
    }
}

pub proof fn lemma_index_from(s: Seq<char>, pat: Seq<char>, i: int)
    requires
        0 <= i,
    ensures
        index_from(s, pat, i) == -1 || (i <= index_from(s, pat, i) && index_from(s, pat, i) + pat.len() <= s.len()
            && s.subrange(index_from(s, pat, i), index_from(s, pat, i) + pat.len()) == pat),
        forall|j: int| i <= j && (index_from(s, pat, i) == -1 || j < index_from(s, pat, i)) && j + pat.len() <= s.len()
            ==> #[trigger] s.subrange(j, j + pat.len()) != pat,
    decreases s.len() + 1 - i,
{
    if i + pat.len() <= s.len() && s.subrange(i, i + pat.len()) != pat {
        lemma_index_from(s, pat, i + 1);
    }
}

/// The first position at or after `i` where the chars `pat` occur in `v`.
pub fn find_from(v: &Vec<char>, pat: &Vec<char>, i: usize) -> (r: Option<usize>)
    ensures
        match r {
            Some(k) => index_from(v@, pat@, i as int) == k as int,
            None => index_from(v@, pat@, i as int) == -1,
        },
{
    if pat.len() == 0 {
        if i <= v.len() {
            assert(v@.subrange(i as int, i as int) =~= pat@);
            return Some(i);
        }
        return None;
    }
    let mut j = i;
    while j < v.len() && pat.len() <= v.len() - j
        invariant
            i <= j,
            index_from(v@, pat@, i as int) == index_from(v@, pat@, j as int),
        decreases v.len() - j,
    {
        if matches_at(v, j, pat) {
            return Some(j);
        }
        j += 1;
    }
    None
}

// ---------------------------------------------------------------------------
// Trimming and joining
// ---------------------------------------------------------------------------

/// `s` without any trailing `c` characters.
pub open spec fn trim_end_char(s: Seq<char>, c: char) -> Seq<char>
    decreases s.len(),
{
    if s.len() > 0 && s.last() == c {
        trim_end_char(s.drop_last(), c)
    } else {
        s
    }
}

/// The characters Unicode classes as white space (`char::is_whitespace`).
pub open spec fn is_white_space(c: char) -> bool {
    ||| '\u{09}' <= c <= '\u{0D}'
    ||| c == ' '
    ||| c == '\u{85}'
    ||| c == '\u{A0}'
    ||| c == '\u{1680}'
    ||| '\u{2000}' <= c <= '\u{200A}'
    ||| c == '\u{2028}'
    ||| c == '\u{2029}'
    ||| c == '\u{202F}'
    ||| c == '\u{205F}'
    ||| c == '\u{3000}'
}

/// `s` without trailing white space (`str::trim_end`).
pub open spec fn trim_end_ws(s: Seq<char>) -> Seq<char>
    decreases s.len(),
{
    if s.len() > 0 && is_white_space(s.last()) {
        trim_end_ws(s.drop_last())
    } else {
        s
    }
}

/// The items joined with `sep` between each two neighbours.
pub open spec fn join(items: Seq<Seq<char>>, sep: Seq<char>) -> Seq<char>
    decreases items.len(),
{
    if items.len() == 0 {
        Seq::empty()
    } else if items.len() == 1 {
        items[0]
    } else {
        join(items.drop_last(), sep) + sep + items.last()
    }
}

/// The characters of `s` up to the last one that is not `c`.
pub fn trim_end_matches_char(s: &str, c: char) -> (r: String)
    ensures
        r@ == trim_end_char(s@, c),
{
    let v = chars_of(s);
    let mut n = v.len();
    assert(v@.take(n as int) =~= v@);
    while n > 0 && v[n - 1] == c
        invariant
            n <= v.len(),
            v@ == s@,
            trim_end_char(s@, c) == trim_end_char(v@.take(n as int), c),
        decreases n,
    {
        assert(v@.take(n as int).drop_last() =~= v@.take(n - 1));
        n -= 1;
    }
    assert(v@.subrange(0, n as int) =~= v@.take(n as int));
    string_from_chars(&v, 0, n)
}

pub fn is_white_space_exec(c: char) -> (r: bool)
    ensures
        r == is_white_space(c),
{
    ('\u{09}' <= c && c <= '\u{0D}') || c == ' ' || c == '\u{85}' || c == '\u{A0}' || c == '\u{1680}'
        || ('\u{2000}' <= c && c <= '\u{200A}') || c == '\u{2028}' || c == '\u{2029}' || c == '\u{202F}'
        || c == '\u{205F}' || c == '\u{3000}'
}

/// `s` without trailing white space.
pub fn trim_end_white(s: &str) -> (r: String)
    ensures
        r@ == trim_end_ws(s@),
{
    let v = chars_of(s);
    let mut n = v.len();
    assert(v@.take(n as int) =~= v@);
    while n > 0 && is_white_space_exec(v[n - 1])
        invariant
            n <= v.len(),
            v@ == s@,
            trim_end_ws(s@) == trim_end_ws(v@.take(n as int)),
        decreases n,
    {
        assert(v@.take(n as int).drop_last() =~= v@.take(n - 1));
        n -= 1;
    }
    assert(v@.subrange(0, n as int) =~= v@.take(n as int));
    string_from_chars(&v, 0, n)
}

/// Append the strings of `items` joined with `sep`.
pub fn push_join(out: &mut String, items: &Vec<String>, sep: &str)
    ensures
        final(out)@ == old(out)@ + join(items@.map_values(|x: String| x@), sep@),
{
    let ghost vs = items@.map_values(|x: String| x@);
    let ghost start = out@;
    let mut i: usize = 0;
    while i < items.len()
        invariant
            i <= items.len(),
            vs == items@.map_values(|x: String| x@),
            out@ == start + join(vs.take(i as int), sep@),
        decreases items.len() - i,
    {
        let ghost before = out@;
        if i > 0 {
            out.append(sep);
        }
        out.append(items[i].as_str());
        proof {
            let t = vs.take(i + 1);
            assert(t.drop_last() =~= vs.take(i as int));
            assert(t.last() == items@[i as int]@);
            if i == 0 {
                assert(vs.take(0) =~= Seq::<Seq<char>>::empty());
                assert(out@ =~= start + join(t, sep@));
            } else {
                assert(out@ =~= start + join(t, sep@));
            }
        }
        i += 1;
    }
    assert(vs.take(items@.len() as int) =~= vs);
}

/// Mapping commutes with pushing.
pub proof fn lemma_map_push<A, B>(s: Seq<A>, x: A, f: spec_fn(A) -> B)
    ensures
        s.push(x).map_values(f) == s.map_values(f).push(f(x)),
{
    assert(s.push(x).map_values(f) =~= s.map_values(f).push(f(x)));
}

/// The first `i + 1` elements are the first `i` and the `i`-th.
pub proof fn lemma_take_push<A>(s: Seq<A>, i: int)
    requires
        0 <= i < s.len(),
    ensures
        s.take(i + 1) == s.take(i).push(s[i]),
{
    assert(s.take(i + 1) =~= s.take(i).push(s[i]));
}

/// Whether `w` occurs in `t`.
pub open spec fn contains_text(t: Seq<char>, w: Seq<char>) -> bool {
    exists|i: int| 0 <= i && i + w.len() <= t.len() && #[trigger] t.subrange(i, i + w.len()) == w
}

pub proof fn lemma_contains_in_context(a: Seq<char>, t: Seq<char>, b: Seq<char>, w: Seq<char>)
    requires
        contains_text(t, w),
    ensures
        contains_text(a + t + b, w),
{
    let i = choose|i: int| 0 <= i && i + w.len() <= t.len() && #[trigger] t.subrange(i, i + w.len()) == w;
    let u = a + t + b;
    let j = a.len() + i;
    assert(u.subrange(j, j + w.len()) =~= t.subrange(i, i + w.len()));
}

pub proof fn lemma_contains_prefix(w: Seq<char>, r: Seq<char>)
    ensures
        contains_text(w + r, w),
{
    let i: int = 0;
    assert((w + r).subrange(i, i + w.len()) =~= w);
}

pub proof fn lemma_contains_left(a: Seq<char>, t: Seq<char>, w: Seq<char>)
    requires
        contains_text(t, w),
    ensures
        contains_text(a + t, w),
{
    lemma_contains_in_context(a, t, Seq::empty(), w);
    assert(a + t + Seq::<char>::empty() =~= a + t);
}

pub proof fn lemma_contains_right(t: Seq<char>, b: Seq<char>, w: Seq<char>)
    requires
        contains_text(t, w),
    ensures
        contains_text(t + b, w),
{
    lemma_contains_in_context(Seq::empty(), t, b, w);
    assert(Seq::<char>::empty() + t + b =~= t + b);
}

} // verus!
