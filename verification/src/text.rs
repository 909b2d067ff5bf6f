//! Text helpers: the few standard-library string operations the library
//! relies on, each behind a contract, and decimal rendering of numbers.

use vstd::prelude::*;
use vstd::string::*;
use vstd::utf8::*;

verus! {

/// The Unicode uppercase mapping of a string, as `str::to_uppercase`
/// computes it (one character may map to several).
pub uninterp spec fn unicode_uppercase(s: Seq<char>) -> Seq<char>;

/// The ASCII uppercase mapping: `a` to `z` become `A` to `Z`, every other
/// character stays.
pub open spec fn ascii_uppercase(s: Seq<char>) -> Seq<char> {
    Seq::new(s.len(), |i: int| if 'a' <= s[i] <= 'z' { ((s[i] as int) - 32) as char } else { s[i] })
}

/// Whether a character has the Unicode White_Space property (PropList.txt):
/// U+0009 to U+000D, U+0020, U+0085, U+00A0, U+1680, U+2000 to U+200A,
/// U+2028, U+2029, U+202F, U+205F and U+3000.
pub open spec fn unicode_whitespace(c: char) -> bool {
    let v = c as u32;
    ||| 0x09 <= v <= 0x0d
    ||| v == 0x20
    ||| v == 0x85
    ||| v == 0xa0
    ||| v == 0x1680
    ||| 0x2000 <= v <= 0x200a
    ||| v == 0x2028
    ||| v == 0x2029
    ||| v == 0x202f
    ||| v == 0x205f
    ||| v == 0x3000
}

/// `String::push`: appends one character.
#[verifier::external_body]
pub(crate) fn push_char(s: &mut String, c: char)
    ensures
        final(s)@ == old(s)@.push(c),
{
    s.push(c);
}

/// `str::to_uppercase`. The result is the Unicode uppercase mapping of the
/// string; on an all-ASCII string that mapping is the ASCII one.
#[verifier::external_body]
pub(crate) fn to_uppercase(s: &str) -> (r: String)
    ensures
        r@ == unicode_uppercase(s@),
        is_ascii_chars(s@) ==> r@ == ascii_uppercase(s@),
{
    s.to_uppercase()
}

/// `char::is_whitespace`: true exactly for the characters with the Unicode
/// White_Space property.
#[verifier::external_body]
pub(crate) fn is_whitespace(c: char) -> (r: bool)
    ensures
        r == unicode_whitespace(c),
{
    c.is_whitespace()
}

/// `std::str::from_utf8`: the bytes as a string slice when they are valid
/// UTF-8, and nothing otherwise.
#[verifier::external_body]
pub(crate) fn from_utf8(bytes: &[u8]) -> (r: Option<&str>)
    ensures
        r is Some <==> valid_utf8(bytes@),
        r matches Some(s) ==> s@ == decode_utf8(bytes@),
{
    std::str::from_utf8(bytes).ok()
}

/// The decimal digits of `n`, most significant first, with no leading zeros
/// (`"0"` for zero).
pub open spec fn decimal(n: nat) -> Seq<char>
    decreases n,
{
    if n < 10 {
        seq![digit_char(n)]
    } else {
        decimal(n / 10).push(digit_char(n % 10))
    }
}

/// The character of a decimal digit.
pub open spec fn digit_char(d: nat) -> char {
    (('0' as nat) + d) as char
}

/// Render `n` in decimal.
pub fn usize_to_decimal(n: usize) -> (r: String)
    ensures
        r@ == decimal(n as nat),
{
    let mut digits: Vec<char> = Vec::new();
    let mut rest = n;
    // digits holds the low-order digits of n, least significant first.
    while rest >= 10
        invariant
            decimal(n as nat) == decimal(rest as nat) + digits@.reverse(),
        decreases rest,
    {
        let d = rest % 10;
        let c = (('0' as u8) + (d as u8)) as char;
        proof {
            assert(c == digit_char(d as nat));
            assert(decimal(rest as nat) == decimal((rest / 10) as nat).push(c));
            assert(digits@.push(c).reverse() =~= seq![c] + digits@.reverse());
            assert(decimal((rest / 10) as nat).push(c) + digits@.reverse()
                =~= decimal((rest / 10) as nat) + (seq![c] + digits@.reverse()));
        }
        digits.push(c);
        rest = rest / 10;
    }
    let first = (('0' as u8) + (rest as u8)) as char;
    assert(decimal(rest as nat) == seq![first]);
    let mut r = String::new();
    push_char(&mut r, first);
    let mut i = digits.len();
    while i > 0
        invariant
            i <= digits@.len(),
            decimal(n as nat) == seq![first] + digits@.reverse(),
            r@ == seq![first] + digits@.subrange(i as int, digits@.len() as int).reverse(),
        decreases i,
    {
        i -= 1;
        let c = digits[i];
        proof {
            assert(digits@.subrange(i as int, digits@.len() as int).reverse() =~= digits@.subrange(
                i + 1,
                digits@.len() as int,
            ).reverse().push(c));
        }
        push_char(&mut r, c);
    }
    assert(digits@.subrange(0, digits@.len() as int) =~= digits@);
    r
}

/// The characters of a string slice.
pub fn chars_of(s: &str) -> (v: Vec<char>)
    ensures
        v@ == s@,
{
    let mut v: Vec<char> = Vec::new();
    for c in it: s.chars()
        invariant
            v@ == it.seq().take(it.index() as int),
    {
        v.push(c);
    }
    v
}

/// `pat` occurs in `s` at index `i`.
pub open spec fn occurs_at(s: Seq<char>, pat: Seq<char>, i: int) -> bool {
    0 <= i && i + pat.len() <= s.len() && s.subrange(i, i + pat.len()) == pat
}

/// The first index at or after `i` where `pat` occurs in `s`, if any.
pub open spec fn first_occurrence_from(s: Seq<char>, pat: Seq<char>, i: int) -> Option<int>
    decreases s.len() + 1 - i,
{
    if i < 0 || i + pat.len() > s.len() {
        None
    } else if s.subrange(i, i + pat.len()) == pat {
        Some(i)
    } else {
        first_occurrence_from(s, pat, i + 1)
    }
}

/// The index of the first occurrence of `pat` in `s`, if it occurs.
pub open spec fn first_occurrence(s: Seq<char>, pat: Seq<char>) -> Option<int> {
    first_occurrence_from(s, pat, 0)
}

/// An occurrence found from `i` on lies at or after `i`, and the pattern
/// occurs there.
pub proof fn lemma_first_occurrence_within(s: Seq<char>, pat: Seq<char>, i: int)
    ensures
        first_occurrence_from(s, pat, i) matches Some(k) ==> i <= k && occurs_at(s, pat, k) && (
        forall|m: int| i <= m < k ==> !occurs_at(s, pat, m)),
    decreases s.len() + 1 - i,
{
    if 0 <= i && i + pat.len() <= s.len() && s.subrange(i, i + pat.len()) != pat {
        lemma_first_occurrence_within(s, pat, i + 1);
    }
}

/// Whether `pat` occurs in `s` at index `i`.
pub fn matches_at(s: &Vec<char>, i: usize, pat: &Vec<char>) -> (r: bool)
    requires
        i + pat@.len() <= s@.len(),
    ensures
        r == (s@.subrange(i as int, i + pat@.len()) == pat@),
{
    let mut k: usize = 0;
    while k < pat.len()
        invariant
            s.len() == s@.len(),
            i + pat@.len() <= s@.len(),
            k <= pat@.len(),
            forall|j: int| 0 <= j < k ==> s@[i + j] == pat@[j],
        decreases pat@.len() - k,
    {
        if s[i + k] != pat[k] {
            assert(s@.subrange(i as int, i + pat@.len())[k as int] != pat@[k as int]);
            return false;
        }
        k += 1;
    }
    assert(s@.subrange(i as int, i + pat@.len()) =~= pat@);
    true
}

/// The first occurrence of `pat` in `s` at or after `start`, as an index
/// into `s`.
pub fn find_from(s: &Vec<char>, start: usize, pat: &Vec<char>) -> (r: Option<usize>)
    requires
        start <= s@.len(),
    ensures
        match r {
            Some(p) => start <= p && first_occurrence(s@.subrange(start as int, s@.len() as int), pat@)
                == Some(p - start),
            None => first_occurrence(s@.subrange(start as int, s@.len() as int), pat@) is None,
        },
{
    let ghost tail = s@.subrange(start as int, s@.len() as int);
    if pat.len() == 0 {
        assert(tail.subrange(0, 0) =~= pat@);
        return Some(start);
    }
    let mut i = start;
    while pat.len() <= s.len() - i
        invariant
            start <= i <= s@.len(),
            pat@.len() > 0,
            tail == s@.subrange(start as int, s@.len() as int),
            first_occurrence(tail, pat@) == first_occurrence_from(tail, pat@, i - start),
        decreases s@.len() - i,
    {
        proof {
            assert(tail.subrange(i - start, i - start + pat@.len()) =~= s@.subrange(
                i as int,
                i + pat@.len(),
            ));
        }
        if matches_at(s, i, pat) {
            return Some(i);
        }
        i += 1;
    }
    None
}

/// The first occurrence of a single character is its first index.
pub proof fn lemma_first_char_occurrence(s: Seq<char>, c: char, m: int)
    requires
        0 <= m < s.len(),
        s[m] == c,
        forall|k: int| 0 <= k < m ==> s[k] != c,
    ensures
        first_occurrence(s, seq![c]) == Some(m),
{
    lemma_first_char_occurrence_from(s, c, m, 0);
}

proof fn lemma_first_char_occurrence_from(s: Seq<char>, c: char, m: int, i: int)
    requires
        0 <= i <= m < s.len(),
        s[m] == c,
        forall|k: int| 0 <= k < m ==> s[k] != c,
    ensures
        first_occurrence_from(s, seq![c], i) == Some(m),
    decreases m - i,
{
    if i == m {
        assert(s.subrange(m, m + 1) =~= seq![c]);
    } else {
        lemma_first_char_occurrence_from(s, c, m, i + 1);
        assert(s.subrange(i, i + 1)[0] == s[i]);
    }
}

/// `pat` occurs somewhere in `s`.
pub open spec fn contains_text(s: Seq<char>, pat: Seq<char>) -> bool {
    exists|i: int| occurs_at(s, pat, i)
}

pub proof fn lemma_occurrence_found_from(s: Seq<char>, pat: Seq<char>, i: int, k: int)
    requires
        0 <= i <= k,
        occurs_at(s, pat, k),
    ensures
        first_occurrence_from(s, pat, i) is Some,
    decreases k - i,
{
    if i < k && s.subrange(i, i + pat.len()) != pat {
        lemma_occurrence_found_from(s, pat, i + 1, k);
    }
}

/// Whether `pat` occurs in `s` (as `str::contains` with a string pattern).
pub fn contains(s: &str, pat: &str) -> (r: bool)
    ensures
        r == contains_text(s@, pat@),
{
    let chars = chars_of(s);
    let pat_chars = chars_of(pat);
    let found = find_from(&chars, 0, &pat_chars);
    proof {
        assert(chars@.subrange(0, chars@.len() as int) =~= s@);
        lemma_first_occurrence_within(s@, pat@, 0);
        if contains_text(s@, pat@) {
            let k = choose|k: int| occurs_at(s@, pat@, k);
            lemma_occurrence_found_from(s@, pat@, 0, k);
        }
    }
    found.is_some()
}

/// The number of leading characters of `s` that are Unicode whitespace.
pub open spec fn leading_whitespace(s: Seq<char>) -> nat
    decreases s.len(),
{
    if s.len() > 0 && unicode_whitespace(s[0]) {
        1 + leading_whitespace(s.drop_first())
    } else {
        0
    }
}

/// `s` without its leading whitespace.
pub open spec fn trim_leading_whitespace(s: Seq<char>) -> Seq<char> {
    s.subrange(leading_whitespace(s) as int, s.len() as int)
}

/// The number of leading characters of `s` that are not whitespace: the
/// length of the token `s` starts with.
pub open spec fn leading_token_len(s: Seq<char>) -> nat
    decreases s.len(),
{
    if s.len() > 0 && !unicode_whitespace(s[0]) {
        1 + leading_token_len(s.drop_first())
    } else {
        0
    }
}

/// Leading whitespace runs on across a string made only of whitespace.
pub proof fn lemma_leading_whitespace_concat(a: Seq<char>, b: Seq<char>)
    requires
        forall|i: int| 0 <= i < a.len() ==> unicode_whitespace(#[trigger] a[i]),
    ensures
        leading_whitespace(a + b) == a.len() + leading_whitespace(b),
    decreases a.len(),
{
    if a.len() > 0 {
        assert((a + b).drop_first() =~= a.drop_first() + b);
        assert((a + b)[0] == a[0]);
        lemma_leading_whitespace_concat(a.drop_first(), b);
    } else {
        assert(a + b =~= b);
    }
}

/// A leading token runs on across a string with no whitespace in it.
pub proof fn lemma_leading_token_concat(a: Seq<char>, b: Seq<char>)
    requires
        forall|i: int| 0 <= i < a.len() ==> !unicode_whitespace(#[trigger] a[i]),
    ensures
        leading_token_len(a + b) == a.len() + leading_token_len(b),
    decreases a.len(),
{
    if a.len() > 0 {
        assert((a + b).drop_first() =~= a.drop_first() + b);
        assert((a + b)[0] == a[0]);
        lemma_leading_token_concat(a.drop_first(), b);
    } else {
        assert(a + b =~= b);
    }
}

/// The first position in `from..to` that is not whitespace (or `to`).
pub fn skip_whitespace(chars: &Vec<char>, from: usize, to: usize) -> (p: usize)
    requires
        from <= to <= chars@.len(),
    ensures
        from <= p <= to,
        trim_leading_whitespace(chars@.subrange(from as int, to as int)) == chars@.subrange(
            p as int,
            to as int,
        ),
        leading_whitespace(chars@.subrange(from as int, to as int)) == p - from,
{
    let ghost w = chars@.subrange(from as int, to as int);
    let mut p = from;
    while p < to && is_whitespace(chars[p])
        invariant
            from <= p <= to <= chars@.len(),
            w == chars@.subrange(from as int, to as int),
            leading_whitespace(w) == (p - from) + leading_whitespace(
                chars@.subrange(p as int, to as int),
            ),
        decreases to - p,
    {
        assert(chars@.subrange(p as int, to as int).drop_first() =~= chars@.subrange(
            p + 1,
            to as int,
        ));
        p += 1;
    }
    assert(leading_whitespace(chars@.subrange(p as int, to as int)) == 0);
    assert(trim_leading_whitespace(w) =~= chars@.subrange(p as int, to as int));
    p
}

/// The first position in `from..to` that is whitespace (or `to`): the end of
/// the token that starts at `from`.
pub fn skip_token(chars: &Vec<char>, from: usize, to: usize) -> (p: usize)
    requires
        from <= to <= chars@.len(),
    ensures
        from <= p <= to,
        leading_token_len(chars@.subrange(from as int, to as int)) == p - from,
{
    let ghost w = chars@.subrange(from as int, to as int);
    let mut p = from;
    while p < to && !is_whitespace(chars[p])
        invariant
            from <= p <= to <= chars@.len(),
            w == chars@.subrange(from as int, to as int),
            leading_token_len(w) == (p - from) + leading_token_len(
                chars@.subrange(p as int, to as int),
            ),
        decreases to - p,
    {
        assert(chars@.subrange(p as int, to as int).drop_first() =~= chars@.subrange(
            p + 1,
            to as int,
        ));
        p += 1;
    }
    assert(leading_token_len(chars@.subrange(p as int, to as int)) == 0);
    p
}

/// An ASCII decimal digit.
pub open spec fn is_digit(c: char) -> bool {
    '0' <= c <= '9'
}

/// Every character is an ASCII decimal digit.
pub open spec fn all_digits(s: Seq<char>) -> bool {
    forall|i: int| 0 <= i < s.len() ==> is_digit(#[trigger] s[i])
}

/// The decimal number that a string of digits spells.
pub open spec fn digits_value(s: Seq<char>) -> int
    decreases s.len(),
{
    if s.len() == 0 {
        0
    } else {
        digits_value(s.drop_last()) * 10 + ((s.last() as int) - ('0' as int))
    }
}

/// The integer a string spells as `str::parse::<i32>` reads it: an optional
/// `+` or `-`, then one or more ASCII digits, the value within `i32`.
pub open spec fn parse_i32(s: Seq<char>) -> Option<i32> {
    let negative = s.len() > 0 && s[0] == '-';
    let body = if s.len() > 0 && (s[0] == '-' || s[0] == '+') {
        s.drop_first()
    } else {
        s
    };
    if body.len() == 0 || !all_digits(body) {
        None
    } else {
        let v = if negative {
            -digits_value(body)
        } else {
            digits_value(body)
        };
        if i32::MIN <= v <= i32::MAX {
            Some(v as i32)
        } else {
            None
        }
    }
}

proof fn lemma_digits_value_nonneg(s: Seq<char>)
    requires
        forall|i: int| 0 <= i < s.len() ==> is_digit(#[trigger] s[i]),
    ensures
        digits_value(s) >= 0,
    decreases s.len(),
{
    if s.len() > 0 {
        lemma_digits_value_nonneg(s.drop_last());
    }
}

/// Read `chars[from..to]` as `str::parse::<i32>` does.
pub fn parse_i32_in(chars: &Vec<char>, from: usize, to: usize) -> (r: Option<i32>)
    requires
        from <= to <= chars@.len(),
    ensures
        r == parse_i32(chars@.subrange(from as int, to as int)),
{
    let ghost s = chars@.subrange(from as int, to as int);
    let mut start = from;
    let mut negative = false;
    if from < to && (chars[from] == '-' || chars[from] == '+') {
        negative = chars[from] == '-';
        start = from + 1;
    }
    let ghost body = chars@.subrange(start as int, to as int);
    assert(body =~= if s.len() > 0 && (s[0] == '-' || s[0] == '+') {
        s.drop_first()
    } else {
        s
    });
    if start == to {
        return None;
    }
    // `big`: the digits read so far spell more than 2^31, which no i32
    // magnitude exceeds.
    let mut acc: u64 = 0;
    let mut big = false;
    let mut i = start;
    while i < to
        invariant
            start <= i <= to <= chars@.len(),
            s == chars@.subrange(from as int, to as int),
            body == chars@.subrange(start as int, to as int),
            body == if s.len() > 0 && (s[0] == '-' || s[0] == '+') {
                s.drop_first()
            } else {
                s
            },
            negative == (s.len() > 0 && s[0] == '-'),
            forall|k: int| start <= k < i ==> is_digit(#[trigger] chars@[k]),
            big ==> digits_value(chars@.subrange(start as int, i as int)) > 2147483648,
            !big ==> acc == digits_value(chars@.subrange(start as int, i as int)) && acc <= 2147483648,
        decreases to - i,
    {
        let c = chars[i];
        if !('0' <= c && c <= '9') {
            assert(!is_digit(body[i - start]));
            return None;
        }
        let d = (c as u32 - '0' as u32) as u64;
        let ghost prefix = chars@.subrange(start as int, i + 1);
        assert(prefix.drop_last() =~= chars@.subrange(start as int, i as int));
        proof {
            assert forall|k: int| 0 <= k < prefix.drop_last().len() implies is_digit(
                #[trigger] prefix.drop_last()[k],
            ) by {
                assert(prefix.drop_last()[k] == chars@[start + k]);
            }
            lemma_digits_value_nonneg(prefix.drop_last());
        }
        if !big {
            acc = acc * 10 + d;
            if acc > 2147483648 {
                big = true;
            }
        }
        i += 1;
    }
    assert(chars@.subrange(start as int, to as int) =~= body);
    assert forall|k: int| 0 <= k < body.len() implies is_digit(#[trigger] body[k]) by {
        assert(body[k] == chars@[start + k]);
    }
    assert(all_digits(body));
    if big {
        return None;
    }
    let v: i64 = if negative {
        -(acc as i64)
    } else {
        acc as i64
    };
    if v < -2147483648 || v > 2147483647 {
        return None;
    }
    Some(v as i32)
}

/// Decimal rendering and reading agree: the digits of `n` are all decimal
/// digits, there is at least one, and they spell `n`.
pub proof fn lemma_decimal_spells(n: nat)
    ensures
        decimal(n).len() > 0,
        all_digits(decimal(n)),
        digits_value(decimal(n)) == n,
    decreases n,
{
    if n >= 10 {
        lemma_decimal_spells(n / 10);
        let s = decimal(n);
        assert(s.drop_last() =~= decimal(n / 10));
        assert forall|i: int| 0 <= i < s.len() implies is_digit(#[trigger] s[i]) by {
            if i < s.len() - 1 {
                assert(s[i] == decimal(n / 10)[i]);
            }
        }
        assert((n / 10) * 10 + n % 10 == n) by (nonlinear_arith);
        assert(s.last() == digit_char(n % 10));
        assert((digit_char(n % 10) as int) == ('0' as int) + n % 10);
        assert(digits_value(s) == digits_value(s.drop_last()) * 10 + ((s.last() as int) - ('0' as int)));
        assert(digits_value(s) == (n / 10) * 10 + n % 10);
    } else {
        assert(decimal(n).drop_last() =~= Seq::<char>::empty());
        assert((digit_char(n) as int) == ('0' as int) + n);
        let s = decimal(n);
        assert(digits_value(s) == digits_value(s.drop_last()) * 10 + ((s.last() as int) - ('0' as int)));
        assert(digits_value(s.drop_last()) == 0);
    }
}

/// Reading back an i32 rendered in decimal gives the same i32: rendering
/// and `str::parse::<i32>` agree on every value, negative ones and the
/// extremes included.
pub proof fn lemma_i32_decimal_parses_back(v: i32)
    ensures
        parse_i32(i32_decimal(v)) == Some(v),
{
    if v < 0 {
        lemma_decimal_spells((-v) as nat);
        let s = i32_decimal(v);
        assert(s.drop_first() =~= decimal((-v) as nat));
    } else {
        lemma_decimal_spells(v as nat);
        assert(is_digit(decimal(v as nat)[0]));
    }
}

/// An i32 in decimal, with a leading `-` when negative.
pub open spec fn i32_decimal(v: i32) -> Seq<char> {
    if v < 0 {
        seq!['-'] + decimal((-v) as nat)
    } else {
        decimal(v as nat)
    }
}

/// Render an i32 in decimal.
pub fn i32_to_decimal(v: i32) -> (r: String)
    ensures
        r@ == i32_decimal(v),
{
    if v < 0 {
        let magnitude = (-(v as i64)) as usize;
        let digits = usize_to_decimal(magnitude);
        let mut r = String::new();
        push_char(&mut r, '-');
        r.append(digits.as_str());
        r
    } else {
        usize_to_decimal(v as usize)
    }
}

/// A string made of `chars[from..to]`.
pub fn string_from_chars(chars: &Vec<char>, from: usize, to: usize) -> (s: String)
    requires
        from <= to <= chars@.len(),
    ensures
        s@ == chars@.subrange(from as int, to as int),
{
    let mut s = String::new();
    let mut i = from;
    while i < to
        invariant
            from <= i <= to <= chars@.len(),
            s@ == chars@.subrange(from as int, i as int),
        decreases to - i,
    {
        push_char(&mut s, chars[i]);
        assert(chars@.subrange(from as int, i + 1) =~= chars@.subrange(from as int, i as int).push(
            chars@[i as int],
        ));
        i += 1;
    }
    s
}

} // verus!
