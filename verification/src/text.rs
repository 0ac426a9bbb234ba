//! Character and string primitives with their mathematical models.
//!
//! Every text operation of the library works on `Seq<char>` views: the
//! specifications here say what std's `char::is_whitespace`, `str::trim`,
//! `str::lines`, `str::split_whitespace`, `str::contains` and the decimal
//! conversions of `u64` compute, and the executable functions are proved to
//! compute exactly that.
use vstd::prelude::*;
use vstd::utf8::{decode_utf8, encode_utf8, encode_utf8_decode_utf8, is_char_boundary};

verus! {

broadcast use vstd::string::group_string_axioms;

// ---------------------------------------------------------------------------
// Characters
// ---------------------------------------------------------------------------

/// Unicode `White_Space`, the property that `char::is_whitespace` tests.
pub open spec fn is_ws(c: char) -> bool {
    ||| ('\u{9}' <= c && c <= '\u{d}')
    ||| c == ' '
    ||| c == '\u{85}'
    ||| c == '\u{a0}'
    ||| c == '\u{1680}'
    ||| ('\u{2000}' <= c && c <= '\u{200a}')
    ||| c == '\u{2028}'
    ||| c == '\u{2029}'
    ||| c == '\u{202f}'
    ||| c == '\u{205f}'
    ||| c == '\u{3000}'
}

pub fn is_whitespace(c: char) -> (r: bool)
    ensures
        r == is_ws(c),
{
    ('\u{9}' <= c && c <= '\u{d}') || c == ' ' || c == '\u{85}' || c == '\u{a0}' || c
        == '\u{1680}' || ('\u{2000}' <= c && c <= '\u{200a}') || c == '\u{2028}' || c
        == '\u{2029}' || c == '\u{202f}' || c == '\u{205f}' || c == '\u{3000}'
}

pub open spec fn is_digit(c: char) -> bool {
    '0' <= c && c <= '9'
}

pub open spec fn all_digits(s: Seq<char>) -> bool {
    forall|i: int| 0 <= i < s.len() ==> is_digit(#[trigger] s[i])
}

/// The lower-case form that `char::to_ascii_lowercase` gives.
pub open spec fn ascii_lower(c: char) -> char {
    if 'A' <= c && c <= 'Z' {
        ((c as u32) + 32) as char
    } else {
        c
    }
}

pub open spec fn lower_seq(s: Seq<char>) -> Seq<char> {
    s.map_values(|c: char| ascii_lower(c))
}

pub fn to_ascii_lower_char(c: char) -> (r: char)
    ensures
        r == ascii_lower(c),
{
    if 'A' <= c && c <= 'Z' {
        let b: u8 = (c as u8) + 32;
        b as char
    } else {
        c
    }
}

// ---------------------------------------------------------------------------
// Building strings
// ---------------------------------------------------------------------------

/// Appends one character to a string with std's `String::push`, whose
/// specification vstd does not give. Claims that the string's characters
/// afterwards are the old ones followed by `c`.
#[verifier::external_body]
pub(crate) fn push_char(s: &mut String, c: char)
    ensures
        final(s)@ == old(s)@.push(c),
{
    s.push(c);
}

/// The characters of `s`, in order, as a vector.
pub fn chars_of(s: &str) -> (r: Vec<char>)
    ensures
        r@ == s@,
{
    let mut r: Vec<char> = Vec::new();
    for c in iter: s.chars()
        invariant
            r@ == iter.history(),
    {
        r.push(c);
    }
    r
}

/// Appends the characters `v[lo..hi]` to `out`.
pub fn push_range(out: &mut String, v: &Vec<char>, lo: usize, hi: usize)
    requires
        lo <= hi <= v@.len(),
    ensures
        final(out)@ == old(out)@ + v@.subrange(lo as int, hi as int),
{
    let mut i = lo;
    while i < hi
        invariant
            lo <= i <= hi <= v@.len(),
            out@ == old(out)@ + v@.subrange(lo as int, i as int),
        decreases hi - i,
    {
        push_char(out, v[i]);
        assert(v@.subrange(lo as int, i + 1) == v@.subrange(lo as int, i as int).push(v@[i as int]));
        i += 1;
    }
}

/// A string holding the characters `v[lo..hi]`.
pub fn string_of_range(v: &Vec<char>, lo: usize, hi: usize) -> (r: String)
    requires
        lo <= hi <= v@.len(),
    ensures
        r@ == v@.subrange(lo as int, hi as int),
{
    let mut r = String::new();
    push_range(&mut r, v, lo, hi);
    r
}

/// Appends `s` to `out`.
pub fn push_str(out: &mut String, s: &str)
    ensures
        final(out)@ == old(out)@ + s@,
{
    let v = chars_of(s);
    push_range(out, &v, 0, v.len());
    assert(v@.subrange(0, v@.len() as int) == s@);
}

/// An owned copy of `s`.
pub fn string_from(s: &str) -> (r: String)
    ensures
        r@ == s@,
{
    let mut r = String::new();
    push_str(&mut r, s);
    r
}

/// `str::to_ascii_lowercase`.
pub fn to_ascii_lowercase(s: &str) -> (r: String)
    ensures
        r@ == lower_seq(s@),
{
    let v = chars_of(s);
    let mut r = String::new();
    let mut i: usize = 0;
    while i < v.len()
        invariant
            i <= v@.len(),
            v@ == s@,
            r@ == lower_seq(v@.take(i as int)),
        decreases v@.len() - i,
    {
        let c = to_ascii_lower_char(v[i]);
        push_char(&mut r, c);
        assert(v@.take(i + 1) == v@.take(i as int).push(v@[i as int]));
        assert(lower_seq(v@.take(i + 1)) == lower_seq(v@.take(i as int)).push(c));
        i += 1;
    }
    assert(v@.take(v@.len() as int) == v@);
    r
}


// ---------------------------------------------------------------------------
// Trimming
// ---------------------------------------------------------------------------

/// `str::trim_start`: leading white space removed.
pub open spec fn trim_start(s: Seq<char>) -> Seq<char>
    decreases s.len(),
{
    if s.len() > 0 && is_ws(s[0]) {
        trim_start(s.drop_first())
    } else {
        s
    }
}

/// `str::trim_end`: trailing white space removed.
pub open spec fn trim_end(s: Seq<char>) -> Seq<char>
    decreases s.len(),
{
    if s.len() > 0 && is_ws(s.last()) {
        trim_end(s.drop_last())
    } else {
        s
    }
}

/// `str::trim`: leading and trailing white space removed.
pub open spec fn trim(s: Seq<char>) -> Seq<char> {
    trim_end(trim_start(s))
}

proof fn lemma_trim_start_at(s: Seq<char>, a: int)
    requires
        0 <= a <= s.len(),
        forall|i: int| 0 <= i < a ==> is_ws(#[trigger] s[i]),
        a < s.len() ==> !is_ws(s[a]),
    ensures
        trim_start(s) == s.subrange(a, s.len() as int),
    decreases a,
{
    if a == 0 {
        assert(s.subrange(0, s.len() as int) == s);
    } else {
        let t = s.drop_first();
        assert forall|i: int| 0 <= i < a - 1 implies is_ws(#[trigger] t[i]) by {
            assert(t[i] == s[i + 1]);
        }
        lemma_trim_start_at(t, a - 1);
        assert(t.subrange(a - 1, t.len() as int) == s.subrange(a, s.len() as int));
    }
}

proof fn lemma_trim_end_at(s: Seq<char>, b: int)
    requires
        0 <= b <= s.len(),
        forall|i: int| b <= i < s.len() ==> is_ws(#[trigger] s[i]),
        b > 0 ==> !is_ws(s[b - 1]),
    ensures
        trim_end(s) == s.subrange(0, b),
    decreases s.len() - b,
{
    if b == s.len() {
        assert(s.subrange(0, b) == s);
    } else {
        let t = s.drop_last();
        assert forall|i: int| b <= i < t.len() implies is_ws(#[trigger] t[i]) by {
            assert(t[i] == s[i]);
        }
        lemma_trim_end_at(t, b);
        assert(t.subrange(0, b) == s.subrange(0, b));
    }
}

/// Bounds `(a, b)` with `trim(v[lo..hi]) == v[a..b]`.
pub fn trim_bounds(v: &Vec<char>, lo: usize, hi: usize) -> (r: (usize, usize))
    requires
        lo <= hi <= v@.len(),
    ensures
        lo <= r.0 <= r.1 <= hi,
        trim(v@.subrange(lo as int, hi as int)) == v@.subrange(r.0 as int, r.1 as int),
{
    let ghost s = v@.subrange(lo as int, hi as int);
    let mut a = lo;
    while a < hi && is_whitespace(v[a])
        invariant
            lo <= a <= hi <= v@.len(),
            s == v@.subrange(lo as int, hi as int),
            forall|i: int| lo <= i < a ==> is_ws(#[trigger] v@[i]),
        decreases hi - a,
    {
        a += 1;
    }
    proof {
        assert forall|i: int| 0 <= i < a - lo implies is_ws(#[trigger] s[i]) by {
            assert(s[i] == v@[lo + i]);
        }
        lemma_trim_start_at(s, a - lo);
        assert(s.subrange(a - lo, s.len() as int) == v@.subrange(a as int, hi as int));
    }
    let ghost t = v@.subrange(a as int, hi as int);
    let mut b = hi;
    while b > a && is_whitespace(v[b - 1])
        invariant
            lo <= a <= b <= hi <= v@.len(),
            t == v@.subrange(a as int, hi as int),
            forall|i: int| b <= i < hi ==> is_ws(#[trigger] v@[i]),
        decreases b - a,
    {
        b -= 1;
    }
    proof {
        assert forall|i: int| b - a <= i < t.len() implies is_ws(#[trigger] t[i]) by {
            assert(t[i] == v@[a + i]);
        }
        lemma_trim_end_at(t, b - a);
        assert(t.subrange(0, b - a) == v@.subrange(a as int, b as int));
    }
    (a, b)
}

// ---------------------------------------------------------------------------
// Lines and words
// ---------------------------------------------------------------------------

/// A line without its terminator: one trailing `'\r'` is dropped.
pub open spec fn strip_cr(l: Seq<char>) -> Seq<char> {
    if l.len() > 0 && l.last() == '\r' {
        l.drop_last()
    } else {
        l
    }
}

/// The lines of `s` that follow a partly read line `cur`: reading left to
/// right, a `'\n'` ends the current line (without a final `'\r'`); a last line
/// without terminator counts when it is not empty.
pub open spec fn lines_from(cur: Seq<char>, s: Seq<char>) -> Seq<Seq<char>>
    decreases s.len(),
{
    if s.len() == 0 {
        if cur.len() == 0 {
            seq![]
        } else {
            seq![cur]
        }
    } else if s[0] == '\n' {
        seq![strip_cr(cur)] + lines_from(seq![], s.drop_first())
    } else {
        lines_from(cur.push(s[0]), s.drop_first())
    }
}

/// `str::lines`.
pub open spec fn lines(s: Seq<char>) -> Seq<Seq<char>> {
    lines_from(seq![], s)
}

/// A line of a character vector, given by its bounds.
pub struct Span {
    pub lo: usize,
    pub hi: usize,
}

pub open spec fn span_seq(v: Seq<char>, sp: Span) -> Seq<char> {
    v.subrange(sp.lo as int, sp.hi as int)
}

pub open spec fn spans_view(v: Seq<char>, spans: Seq<Span>) -> Seq<Seq<char>> {
    spans.map_values(|sp: Span| span_seq(v, sp))
}

pub open spec fn spans_in(v: Seq<char>, spans: Seq<Span>) -> bool {
    forall|i: int| 0 <= i < spans.len() ==> #[trigger] spans[i].lo <= spans[i].hi <= v.len()
}

/// The bounds of the lines of `v`, in order (`str::lines`).
pub fn line_spans(v: &Vec<char>) -> (r: Vec<Span>)
    ensures
        spans_in(v@, r@),
        spans_view(v@, r@) == lines(v@),
{
    let mut r: Vec<Span> = Vec::new();
    let mut start: usize = 0;
    let mut i: usize = 0;
    assert(v@.subrange(0, 0) == Seq::<char>::empty());
    assert(v@.skip(0) == v@);
    assert(spans_view(v@, r@) == Seq::<Seq<char>>::empty());
    assert(lines(v@) == spans_view(v@, r@) + lines(v@));
    while i < v.len()
        invariant
            start <= i <= v@.len(),
            spans_in(v@, r@),
            lines(v@) == spans_view(v@, r@) + lines_from(
                v@.subrange(start as int, i as int),
                v@.skip(i as int),
            ),
        decreases v@.len() - i,
    {
        let ghost cur = v@.subrange(start as int, i as int);
        let ghost rest = v@.skip(i as int);
        assert(rest[0] == v@[i as int]);
        assert(rest.drop_first() == v@.skip(i + 1));
        if v[i] == '\n' {
            let end = if i > start && v[i - 1] == '\r' {
                i - 1
            } else {
                i
            };
            assert(v@.subrange(start as int, end as int) == strip_cr(cur));
            let ghost old_r = r@;
            r.push(Span { lo: start, hi: end });
            assert(spans_view(v@, r@) == spans_view(v@, old_r).push(strip_cr(cur)));
            assert(v@.subrange(i + 1, i + 1) == Seq::<char>::empty());
            start = i + 1;
        } else {
            assert(v@.subrange(start as int, i + 1) == cur.push(v@[i as int]));
        }
        i += 1;
    }
    let ghost cur = v@.subrange(start as int, i as int);
    assert(v@.skip(i as int).len() == 0);
    if start < i {
        let ghost old_r = r@;
        r.push(Span { lo: start, hi: i });
        assert(spans_view(v@, r@) == spans_view(v@, old_r).push(cur));
    }
    r
}

/// The words of `s` that follow a partly read word `cur`
/// (`str::split_whitespace`).
pub open spec fn words_from(cur: Seq<char>, s: Seq<char>) -> Seq<Seq<char>>
    decreases s.len(),
{
    if s.len() == 0 {
        if cur.len() == 0 {
            seq![]
        } else {
            seq![cur]
        }
    } else if is_ws(s[0]) {
        (if cur.len() == 0 {
            seq![]
        } else {
            seq![cur]
        }) + words_from(seq![], s.drop_first())
    } else {
        words_from(cur.push(s[0]), s.drop_first())
    }
}

/// `str::split_whitespace`: the maximal runs of non-white-space characters.
pub open spec fn words(s: Seq<char>) -> Seq<Seq<char>> {
    words_from(seq![], s)
}

pub open spec fn strings_view(v: Seq<String>) -> Seq<Seq<char>> {
    v.map_values(|s: String| s@)
}

/// Appends the words of `v[lo..hi]` to `out`, in order.
pub fn push_words(out: &mut Vec<String>, v: &Vec<char>, lo: usize, hi: usize)
    requires
        lo <= hi <= v@.len(),
    ensures
        strings_view(final(out)@) == strings_view(old(out)@) + words(
            v@.subrange(lo as int, hi as int),
        ),
{
    let ghost s = v@.subrange(lo as int, hi as int);
    let mut start = lo;
    let mut i = lo;
    assert(v@.subrange(lo as int, lo as int) == Seq::<char>::empty());
    while i < hi
        invariant
            lo <= start <= i <= hi <= v@.len(),
            s == v@.subrange(lo as int, hi as int),
            strings_view(old(out)@) + words(s) == strings_view(out@) + words_from(
                v@.subrange(start as int, i as int),
                v@.subrange(i as int, hi as int),
            ),
        decreases hi - i,
    {
        let ghost cur = v@.subrange(start as int, i as int);
        let ghost rest = v@.subrange(i as int, hi as int);
        assert(rest[0] == v@[i as int]);
        assert(rest.drop_first() == v@.subrange(i + 1, hi as int));
        if is_whitespace(v[i]) {
            if start < i {
                let w = string_of_range(v, start, i);
                let ghost old_out = out@;
                out.push(w);
                assert(strings_view(out@) == strings_view(old_out).push(cur));
                assert(strings_view(old_out) + seq![cur] == strings_view(old_out).push(cur));
            } else {
                assert(seq![] + words_from(seq![], rest.drop_first()) == words_from(
                    seq![],
                    rest.drop_first(),
                ));
            }
            assert(v@.subrange(i + 1, i + 1) == Seq::<char>::empty());
            start = i + 1;
        } else {
            assert(v@.subrange(start as int, i + 1) == cur.push(v@[i as int]));
        }
        i += 1;
    }
    let ghost cur = v@.subrange(start as int, i as int);
    assert(v@.subrange(i as int, hi as int).len() == 0);
    if start < i {
        let w = string_of_range(v, start, i);
        let ghost old_out = out@;
        out.push(w);
        assert(strings_view(out@) == strings_view(old_out).push(cur));
    }
    assert(v@.subrange(lo as int, hi as int) == s);
    assert(words(s) == words_from(seq![], s));
}


// ---------------------------------------------------------------------------
// Searching
// ---------------------------------------------------------------------------

/// `pat` occurs in `s` at position `i`.
pub open spec fn occurs_at(s: Seq<char>, pat: Seq<char>, i: int) -> bool {
    0 <= i && i + pat.len() <= s.len() && s.subrange(i, i + pat.len()) == pat
}

/// `str::contains` with a string pattern.
pub open spec fn contains(s: Seq<char>, pat: Seq<char>) -> bool {
    exists|i: int| occurs_at(s, pat, i)
}

/// `str::starts_with` with a string pattern.
pub open spec fn starts_with(s: Seq<char>, pat: Seq<char>) -> bool {
    occurs_at(s, pat, 0)
}

/// Whether `pat` occurs in `v[lo..hi]` at `lo + i`.
fn occurs_in_range_at(v: &Vec<char>, lo: usize, hi: usize, pat: &Vec<char>, i: usize) -> (r: bool)
    requires
        lo <= hi <= v@.len(),
        i <= hi - lo,
    ensures
        r == occurs_at(v@.subrange(lo as int, hi as int), pat@, i as int),
{
    let ghost s = v@.subrange(lo as int, hi as int);
    if pat.len() > hi - lo - i {
        return false;
    }
    let mut k: usize = 0;
    while k < pat.len()
        invariant
            lo <= hi <= v@.len(),
            i + pat@.len() <= hi - lo,
            k <= pat@.len(),
            s == v@.subrange(lo as int, hi as int),
            forall|j: int| 0 <= j < k ==> v@[lo + i + j] == pat@[j],
        decreases pat@.len() - k,
    {
        if v[lo + i + k] != pat[k] {
            assert(s.subrange(i as int, i + pat@.len())[k as int] != pat@[k as int]);
            return false;
        }
        k += 1;
    }
    assert(s.subrange(i as int, i + pat@.len()) == pat@);
    true
}

/// Whether `pat` occurs in `v[lo..hi]`.
pub fn contains_in_range(v: &Vec<char>, lo: usize, hi: usize, pat: &Vec<char>) -> (r: bool)
    requires
        lo <= hi <= v@.len(),
    ensures
        r == contains(v@.subrange(lo as int, hi as int), pat@),
{
    let ghost s = v@.subrange(lo as int, hi as int);
    if pat.len() > hi - lo {
        assert forall|j: int| !occurs_at(s, pat@, j) by {}
        return false;
    }
    let last = hi - lo - pat.len();
    let mut i: usize = 0;
    while i < last
        invariant
            lo <= hi <= v@.len(),
            last == hi - lo - pat@.len(),
            i <= last,
            s == v@.subrange(lo as int, hi as int),
            forall|j: int| 0 <= j < i ==> !occurs_at(s, pat@, j),
        decreases last - i,
    {
        if occurs_in_range_at(v, lo, hi, pat, i) {
            return true;
        }
        i += 1;
    }
    if occurs_in_range_at(v, lo, hi, pat, last) {
        return true;
    }
    assert forall|j: int| !occurs_at(s, pat@, j) by {
        if j > last {
            assert(j + pat@.len() > s.len());
        }
    }
    false
}

/// Whether `v[lo..hi]` starts with `pat`.
pub fn starts_with_in_range(v: &Vec<char>, lo: usize, hi: usize, pat: &Vec<char>) -> (r: bool)
    requires
        lo <= hi <= v@.len(),
    ensures
        r == starts_with(v@.subrange(lo as int, hi as int), pat@),
{
    occurs_in_range_at(v, lo, hi, pat, 0)
}

/// Whether every character of `v[lo..hi]` is an ASCII digit.
pub fn all_digits_in_range(v: &Vec<char>, lo: usize, hi: usize) -> (r: bool)
    requires
        lo <= hi <= v@.len(),
    ensures
        r == all_digits(v@.subrange(lo as int, hi as int)),
{
    let mut i = lo;
    while i < hi
        invariant
            lo <= i <= hi <= v@.len(),
            forall|j: int| lo <= j < i ==> is_digit(#[trigger] v@[j]),
        decreases hi - i,
    {
        if !('0' <= v[i] && v[i] <= '9') {
            assert(v@.subrange(lo as int, hi as int)[i - lo] == v@[i as int]);
            return false;
        }
        i += 1;
    }
    assert forall|j: int| 0 <= j < hi - lo implies is_digit(
        #[trigger] v@.subrange(lo as int, hi as int)[j],
    ) by {
        assert(v@.subrange(lo as int, hi as int)[j] == v@[lo + j]);
    }
    true
}

// ---------------------------------------------------------------------------
// Decimal numbers
// ---------------------------------------------------------------------------

pub open spec fn digit_value(c: char) -> nat {
    ((c as int) - ('0' as int)) as nat
}

/// The number that a string of decimal digits denotes.
pub open spec fn digits_value(d: Seq<char>) -> nat
    decreases d.len(),
{
    if d.len() == 0 {
        0
    } else {
        digits_value(d.drop_last()) * 10 + digit_value(d.last())
    }
}

/// `u64::from_str`: an optional `'+'`, then one or more ASCII digits whose
/// value fits in a `u64`.
pub open spec fn parse_u64(s: Seq<char>) -> Option<u64> {
    let d = if s.len() > 0 && s[0] == '+' {
        s.drop_first()
    } else {
        s
    };
    if d.len() > 0 && all_digits(d) && digits_value(d) <= u64::MAX {
        Some(digits_value(d) as u64)
    } else {
        None
    }
}

pub open spec fn digit_char(n: nat) -> char {
    (('0' as int) + (n % 10)) as char
}

/// The decimal representation that `u64`'s `Display` writes.
pub open spec fn decimal(n: nat) -> Seq<char>
    decreases n,
{
    if n < 10 {
        seq![digit_char(n)]
    } else {
        decimal(n / 10).push(digit_char(n % 10))
    }
}

proof fn lemma_digits_value_prefix_grows(d: Seq<char>, k: int)
    requires
        0 <= k <= d.len(),
        all_digits(d),
    ensures
        digits_value(d.take(k)) <= digits_value(d),
    decreases d.len() - k,
{
    if k < d.len() {
        lemma_digits_value_prefix_grows(d, k + 1);
        assert(d.take(k + 1).drop_last() == d.take(k));
    } else {
        assert(d.take(k) == d);
    }
}

/// Parses `v[lo..hi]` as `u64::from_str` does.
pub fn parse_u64_range(v: &Vec<char>, lo: usize, hi: usize) -> (r: Option<u64>)
    requires
        lo <= hi <= v@.len(),
    ensures
        r == parse_u64(v@.subrange(lo as int, hi as int)),
{
    let ghost s = v@.subrange(lo as int, hi as int);
    let start = if lo < hi && v[lo] == '+' {
        lo + 1
    } else {
        lo
    };
    let ghost d = v@.subrange(start as int, hi as int);
    assert(d == (if s.len() > 0 && s[0] == '+' {
        s.drop_first()
    } else {
        s
    }));
    if start == hi {
        return None;
    }
    let mut acc: u64 = 0;
    let mut i = start;
    while i < hi
        invariant
            lo <= start <= i <= hi <= v@.len(),
            s == v@.subrange(lo as int, hi as int),
            d == v@.subrange(start as int, hi as int),
            d == (if s.len() > 0 && s[0] == '+' {
                s.drop_first()
            } else {
                s
            }),
            acc == digits_value(d.take(i - start)),
            all_digits(d.take(i - start)),
        decreases hi - i,
    {
        let c = v[i];
        assert(d[i - start] == c);
        assert(d.take(i - start + 1).drop_last() == d.take(i - start));
        if !('0' <= c && c <= '9') {
            assert(!all_digits(d));
            return None;
        }
        let dv: u64 = (c as u64) - ('0' as u64);
        assert(dv == digit_value(c));
        let next = match acc.checked_mul(10) {
            Some(m) => m.checked_add(dv),
            None => None,
        };
        match next {
            Some(n) => {
                acc = n;
            },
            None => {
                proof {
                    assert(digits_value(d.take(i - start + 1)) > u64::MAX);
                    if all_digits(d) {
                        lemma_digits_value_prefix_grows(d, i - start + 1);
                    }
                }
                return None;
            },
        }
        assert forall|j: int| 0 <= j < i - start + 1 implies is_digit(
            #[trigger] d.take(i - start + 1)[j],
        ) by {
            if j < i - start {
                assert(d.take(i - start + 1)[j] == d.take(i - start)[j]);
            }
        }
        i += 1;
    }
    assert(d.take(i - start) == d);
    Some(acc)
}

/// `u64::from_str` on a string.
pub fn parse_u64_str(s: &str) -> (r: Option<u64>)
    ensures
        r == parse_u64(s@),
{
    let v = chars_of(s);
    assert(v@.subrange(0, v@.len() as int) == s@);
    parse_u64_range(&v, 0, v.len())
}

/// Appends the decimal representation of `n` to `out`.
pub fn push_decimal(out: &mut String, n: u64)
    ensures
        final(out)@ == old(out)@ + decimal(n as nat),
    decreases n,
{
    if n >= 10 {
        push_decimal(out, n / 10);
    }
    let c = ((n % 10) as u8 + 48) as char;
    assert(c == digit_char(n as nat));
    push_char(out, c);
}

pub proof fn lemma_decimal_digits(n: nat)
    ensures
        decimal(n).len() > 0,
        all_digits(decimal(n)),
        digits_value(decimal(n)) == n,
        decimal(n)[0] != '+',
    decreases n,
{
    assert(digit_value(digit_char(n)) == n % 10);
    assert(digit_value(digit_char(n % 10)) == n % 10);
    assert((n / 10) * 10 + n % 10 == n);
    if n < 10 {
        assert(decimal(n).drop_last() == Seq::<char>::empty());
        assert(digits_value(Seq::<char>::empty()) == 0);
        assert(n % 10 == n);
        assert(digits_value(decimal(n)) == n);
    }
    if n >= 10 {
        lemma_decimal_digits(n / 10);
        let d = decimal(n);
        assert(d.drop_last() == decimal(n / 10));
        assert(d.last() == digit_char(n % 10));
        assert(digits_value(d) == digits_value(decimal(n / 10)) * 10 + digit_value(
            digit_char(n % 10),
        ));
        assert forall|i: int| 0 <= i < d.len() implies is_digit(#[trigger] d[i]) by {
            if i < d.len() - 1 {
                assert(d[i] == decimal(n / 10)[i]);
            }
        }
    }
}

/// Decimal text read back gives the number.
pub proof fn lemma_parse_decimal(n: u64)
    ensures
        parse_u64(decimal(n as nat)) == Some(n),
{
    lemma_decimal_digits(n as nat);
}


// ---------------------------------------------------------------------------
// Ordering
// ---------------------------------------------------------------------------

/// The order of `String`'s `Ord`: lexicographic by character (UTF-8 byte
/// order and code point order agree), a proper prefix first.
pub open spec fn seq_lt(a: Seq<char>, b: Seq<char>) -> bool
    decreases a.len(),
{
    if a.len() == 0 {
        b.len() > 0
    } else if b.len() == 0 {
        false
    } else if a[0] != b[0] {
        a[0] < b[0]
    } else {
        seq_lt(a.drop_first(), b.drop_first())
    }
}

pub open spec fn seq_le(a: Seq<char>, b: Seq<char>) -> bool {
    a == b || seq_lt(a, b)
}

pub proof fn lemma_seq_lt_total(a: Seq<char>, b: Seq<char>)
    ensures
        seq_lt(a, b) || a == b || seq_lt(b, a),
        !(seq_lt(a, b) && seq_lt(b, a)),
        !seq_lt(a, a),
    decreases a.len(),
{
    if a.len() > 0 && b.len() > 0 && a[0] == b[0] {
        lemma_seq_lt_total(a.drop_first(), b.drop_first());
        if a.drop_first() == b.drop_first() {
            assert(a == seq![a[0]] + a.drop_first());
            assert(b == seq![b[0]] + b.drop_first());
        }
    }
    if a.len() > 0 {
        lemma_seq_lt_total(a.drop_first(), a.drop_first());
    }
}

pub proof fn lemma_seq_lt_trans(a: Seq<char>, b: Seq<char>, c: Seq<char>)
    requires
        seq_lt(a, b),
        seq_lt(b, c),
    ensures
        seq_lt(a, c),
    decreases a.len(),
{
    if a.len() > 0 && a[0] == b[0] && b[0] == c[0] {
        lemma_seq_lt_trans(a.drop_first(), b.drop_first(), c.drop_first());
    }
}

/// `a < b` for strings, as `String`'s `Ord` orders them.
pub fn string_lt(a: &String, b: &String) -> (r: bool)
    ensures
        r == seq_lt(a@, b@),
{
    let x = chars_of(a.as_str());
    let y = chars_of(b.as_str());
    let mut k: usize = 0;
    assert(x@.skip(0) == x@);
    assert(y@.skip(0) == y@);
    while k < x.len() && k < y.len() && x[k] == y[k]
        invariant
            k <= x@.len(),
            k <= y@.len(),
            x@ == a@,
            y@ == b@,
            seq_lt(x@, y@) == seq_lt(x@.skip(k as int), y@.skip(k as int)),
        decreases x@.len() - k,
    {
        assert(x@.skip(k as int).drop_first() == x@.skip(k + 1));
        assert(y@.skip(k as int).drop_first() == y@.skip(k + 1));
        k += 1;
    }
    if k == x.len() {
        k < y.len()
    } else if k == y.len() {
        false
    } else {
        x[k] < y[k]
    }
}


/// `a == b` for string slices.
pub fn str_eq(a: &str, b: &str) -> (r: bool)
    ensures
        r == (a@ == b@),
{
    string_from(a) == string_from(b)
}


// ---------------------------------------------------------------------------
// UTF-8 bytes
// ---------------------------------------------------------------------------

pub proof fn lemma_encode_utf8_concat(a: Seq<char>, b: Seq<char>)
    ensures
        encode_utf8(a + b) == encode_utf8(a) + encode_utf8(b),
    decreases a.len(),
{
    if a.len() == 0 {
        assert(a + b == b);
    } else {
        lemma_encode_utf8_concat(a.drop_first(), b);
        assert((a + b).drop_first() == a.drop_first() + b);
        assert((a + b)[0] == a[0]);
    }
}

/// `n - 1`, or 0 when `n` is 0 (`usize::saturating_sub(1)`).
pub open spec fn pred_sat(n: int) -> int {
    if n >= 1 {
        n - 1
    } else {
        0
    }
}

/// `truncate` may cut `s` (bytes of UTF-8) to `max`: short enough, or the cut
/// point is a character boundary.
pub open spec fn truncatable(s: Seq<char>, max: int) -> bool {
    encode_utf8(s).len() > max ==> is_char_boundary(encode_utf8(s), pred_sat(max))
}

/// A text shortened for a column of `max` bytes: as it is when it fits, else
/// its first `max - 1` bytes and an ellipsis.
pub open spec fn truncated(s: Seq<char>, max: int) -> Seq<char> {
    if encode_utf8(s).len() <= max {
        s
    } else {
        decode_utf8(encode_utf8(s).subrange(0, pred_sat(max))).push('\u{2026}')
    }
}

/// Shortens `s` to fit a column of `max` bytes.
pub fn truncate(s: &str, max: usize) -> (r: String)
    requires
        truncatable(s@, max as int),
    ensures
        r@ == truncated(s@, max as int),
        encode_utf8(s@).len() > max ==> encode_utf8(r@) == encode_utf8(s@).subrange(
            0,
            pred_sat(max as int),
        ) + encode_utf8(seq!['\u{2026}']),
{
    let n = s.as_bytes().len();
    assert(n == encode_utf8(s@).len());
    if n <= max {
        string_from(s)
    } else {
        let k = if max >= 1 {
            max - 1
        } else {
            0
        };
        let (head, _) = s.split_at(k);
        assert(encode_utf8(head@) == encode_utf8(s@).subrange(0, k as int));
        let mut r = string_from(head);
        push_char(&mut r, '\u{2026}');
        proof {
            encode_utf8_decode_utf8(head@);
            lemma_encode_utf8_concat(head@, seq!['\u{2026}']);
            assert(head@.push('\u{2026}') == head@ + seq!['\u{2026}']);
        }
        r
    }
}

/// A date column: the first ten bytes of an RFC 3339 time stamp, or a dash
/// when it is shorter.
pub open spec fn date_text(s: Seq<char>) -> Seq<char> {
    if encode_utf8(s).len() >= 10 {
        decode_utf8(encode_utf8(s).subrange(0, 10))
    } else {
        "\u{2014}"@
    }
}

/// The first ten bytes of `s` can be cut off: `s` is shorter, or byte 10 is a
/// character boundary.
pub open spec fn date_cuttable(s: Seq<char>) -> bool {
    encode_utf8(s).len() >= 10 ==> is_char_boundary(encode_utf8(s), 10)
}

/// The date part of a time stamp, for display.
pub fn date_prefix(s: &str) -> (r: String)
    requires
        date_cuttable(s@),
    ensures
        r@ == date_text(s@),
{
    let n = s.as_bytes().len();
    assert(n == encode_utf8(s@).len());
    if n >= 10 {
        let (head, _) = s.split_at(10);
        assert(encode_utf8(head@) == encode_utf8(s@).subrange(0, 10));
        proof {
            encode_utf8_decode_utf8(head@);
        }
        string_from(head)
    } else {
        string_from("\u{2014}")
    }
}

} // verus!
