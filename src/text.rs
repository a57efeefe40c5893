//! Character classes and small string builders used across the crate.

use vstd::prelude::*;

verus! {

/// What `char::is_alphabetic` answers for a character.
pub uninterp spec fn alphabetic(c: char) -> bool;

/// What `char::is_alphanumeric` answers for a character.
pub uninterp spec fn alphanumeric(c: char) -> bool;

pub open spec fn is_ascii_letter(c: char) -> bool {
    ('a' <= c && c <= 'z') || ('A' <= c && c <= 'Z')
}

pub open spec fn is_digit(c: char) -> bool {
    '0' <= c && c <= '9'
}

/// Relies on `char::is_alphabetic`: the Unicode Alphabetic property, which
/// every ASCII letter has.
#[verifier::external_body]
pub(crate) fn is_alphabetic(c: char) -> (r: bool)
    ensures
        r == alphabetic(c),
        is_ascii_letter(c) ==> r,
{
    c.is_alphabetic()
}

/// Relies on `char::is_alphanumeric`: Alphabetic or Numeric, which every
/// ASCII letter and digit is.
#[verifier::external_body]
pub(crate) fn is_alphanumeric(c: char) -> (r: bool)
    ensures
        r == alphanumeric(c),
        is_ascii_letter(c) || is_digit(c) ==> r,
{
    c.is_alphanumeric()
}

/// Relies on `String::push`: appends one character.
#[verifier::external_body]
pub(crate) fn push_char(s: &mut String, c: char)
    ensures
        final(s)@ == old(s)@.push(c),
{
    s.push(c)
}

/// Relies on `str::chars` collected into a `Vec`: the characters in order.
#[verifier::external_body]
pub(crate) fn chars_of(s: &str) -> (r: Vec<char>)
    ensures
        r@ == s@,
{
    s.chars().collect()
}

/// The string holding the characters of `s`.
pub fn string_of(s: &Vec<char>) -> (r: String)
    ensures
        r@ == s@,
{
    let mut out = String::new();
    let mut i: usize = 0;
    while i < s.len()
        invariant
            i <= s@.len(),
            out@ == s@.take(i as int),
        decreases s@.len() - i,
    {
        push_char(&mut out, s[i]);
        i = i + 1;
        assert(out@ =~= s@.take(i as int));
    }
    assert(s@.take(i as int) =~= s@);
    out
}

/// Appends the characters of `t` to `s`.
pub fn append(s: &mut String, t: &str)
    ensures
        final(s)@ == old(s)@ + t@,
{
    let n = t.unicode_len();
    let mut i: usize = 0;
    while i < n
        invariant
            n == t@.len(),
            i <= n,
            s@ == old(s)@ + t@.take(i as int),
        decreases n - i,
    {
        push_char(s, t.get_char(i));
        i = i + 1;
        assert(s@ =~= old(s)@ + t@.take(i as int));
    }
    assert(t@.take(i as int) =~= t@);
}

/// Whether `w` holds exactly the characters of `k`.
pub fn same_chars(w: &Vec<char>, k: &str) -> (r: bool)
    ensures
        r == (w@ == k@),
{
    let n = k.unicode_len();
    if w.len() != n {
        return false;
    }
    let mut i: usize = 0;
    while i < n
        invariant
            n == k@.len(),
            n == w@.len(),
            i <= n,
            forall|j: int| 0 <= j < i ==> w@[j] == k@[j],
        decreases n - i,
    {
        if w[i] != k.get_char(i) {
            return false;
        }
        i = i + 1;
    }
    assert(w@ =~= k@);
    true
}

/// The decimal digits of `n`, most significant first, with no leading zero.
pub open spec fn decimal(n: nat) -> Seq<char>
    decreases n,
{
    if n < 10 {
        seq![digit_char(n)]
    } else {
        decimal(n / 10).push(digit_char(n % 10))
    }
}

pub open spec fn digit_char(d: nat) -> char {
    (d + 48) as char
}

/// The decimal text of an integer, with a leading `-` when it is negative.
pub open spec fn int_text(i: int) -> Seq<char> {
    if i < 0 {
        seq!['-'] + decimal((-i) as nat)
    } else {
        decimal(i as nat)
    }
}

fn digit_of(d: u64) -> (c: char)
    requires
        d < 10,
    ensures
        c == digit_char(d as nat),
{
    let code: u8 = (d as u8) + 48u8;
    code as char
}

/// Appends the decimal digits of `n` to `s`.
pub fn push_decimal(s: &mut String, n: u64)
    ensures
        final(s)@ == old(s)@ + decimal(n as nat),
    decreases n,
{
    if n < 10 {
        push_char(s, digit_of(n));
        assert(old(s)@ + decimal(n as nat) =~= old(s)@.push(digit_char(n as nat)));
    } else {
        push_decimal(s, n / 10);
        push_char(s, digit_of(n % 10));
        assert(old(s)@ + decimal(n as nat) =~= old(s)@ + decimal((n / 10) as nat) + seq![digit_char((n % 10) as nat)]);
    }
}

/// Appends the decimal text of `i` to `s`.
pub fn push_int(s: &mut String, i: i64)
    ensures
        final(s)@ == old(s)@ + int_text(i as int),
{
    if i < 0 {
        push_char(s, '-');
        let magnitude: u64 = if i == i64::MIN {
            9223372036854775808u64
        } else {
            (-i) as u64
        };
        push_decimal(s, magnitude);
        assert(old(s)@ + int_text(i as int) =~= old(s)@.push('-') + decimal(magnitude as nat));
    } else {
        push_decimal(s, i as u64);
    }
}

} // verus!

verus! {

/// What `char::is_whitespace` answers for a character.
pub uninterp spec fn whitespace(c: char) -> bool;

/// Relies on `char::is_whitespace`: the Unicode White_Space property, which
/// space, tab, carriage return and line feed have.
#[verifier::external_body]
pub(crate) fn is_whitespace(c: char) -> (r: bool)
    ensures
        r == whitespace(c),
        c == ' ' || c == '\t' || c == '\r' || c == '\n' ==> r,
{
    c.is_whitespace()
}

/// The index of the first character of `s` at or after `i` that is not
/// whitespace, or the length of `s`.
pub open spec fn first_solid(s: Seq<char>, i: int) -> int
    decreases s.len() - i,
{
    if 0 <= i < s.len() && whitespace(s[i]) {
        first_solid(s, i + 1)
    } else {
        i
    }
}

/// One past the index of the last character of `s` before `j` that is not
/// whitespace, or `i` if there is none from `i` on.
pub open spec fn last_solid(s: Seq<char>, i: int, j: int) -> int
    decreases j - i,
{
    if i < j && whitespace(s[j - 1]) {
        last_solid(s, i, j - 1)
    } else {
        j
    }
}

/// `s` without leading and trailing whitespace.
pub open spec fn trimmed(s: Seq<char>) -> Seq<char> {
    let i = first_solid(s, 0);
    s.subrange(i, last_solid(s, i, s.len() as int))
}

proof fn lemma_solid_bounds(s: Seq<char>, i: int, j: int)
    requires
        0 <= i <= j <= s.len(),
    ensures
        i <= first_solid(s, i) <= s.len(),
        i <= last_solid(s, i, j) <= j,
    decreases j - i + s.len() - i,
{
    if i < s.len() && whitespace(s[i]) {
        lemma_solid_bounds(s, i + 1, if j < i + 1 { i + 1 } else { j });
    }
    if i < j && whitespace(s[j - 1]) {
        lemma_solid_bounds(s, i, j - 1);
    }
}

/// `s` without leading and trailing whitespace.
pub fn trim(s: &str) -> (r: String)
    ensures
        r@ == trimmed(s@),
{
    let chars = chars_of(s);
    let n = chars.len();
    let mut i: usize = 0;
    proof {
        lemma_solid_bounds(s@, 0, s@.len() as int);
    }
    while i < n && is_whitespace(chars[i])
        invariant
            chars@ == s@,
            n == s@.len(),
            i <= n,
            first_solid(s@, 0) == first_solid(s@, i as int),
        decreases n - i,
    {
        i = i + 1;
    }
    let mut j: usize = n;
    while j > i && is_whitespace(chars[j - 1])
        invariant
            chars@ == s@,
            n == s@.len(),
            i <= j <= n,
            i == first_solid(s@, 0),
            last_solid(s@, i as int, n as int) == last_solid(s@, i as int, j as int),
        decreases j,
    {
        j = j - 1;
    }
    let mut out = String::new();
    let mut k: usize = i;
    while k < j
        invariant
            chars@ == s@,
            i <= k <= j <= n,
            n == s@.len(),
            out@ == s@.subrange(i as int, k as int),
        decreases j - k,
    {
        push_char(&mut out, chars[k]);
        k = k + 1;
        assert(out@ =~= s@.subrange(i as int, k as int));
    }
    out
}

/// The number that a run of ASCII digits writes in decimal.
pub open spec fn decimal_value(d: Seq<char>) -> int
    decreases d.len(),
{
    if d.len() == 0 {
        0
    } else {
        decimal_value(d.drop_last()) * 10 + (d.last() as int - '0' as int)
    }
}

pub open spec fn all_digits(d: Seq<char>) -> bool {
    d.len() > 0 && forall|i: int| 0 <= i < d.len() ==> is_digit(#[trigger] d[i])
}

/// The 64-bit integer that `s` writes: an optional `+` or `-`, then one or
/// more ASCII digits, with a value in range.
pub open spec fn int_literal(s: Seq<char>) -> Option<int> {
    let negative = s.len() > 0 && s[0] == '-';
    let digits = if s.len() > 0 && (s[0] == '-' || s[0] == '+') {
        s.drop_first()
    } else {
        s
    };
    let v = if negative {
        -decimal_value(digits)
    } else {
        decimal_value(digits)
    };
    if all_digits(digits) && i64::MIN <= v <= i64::MAX {
        Some(v)
    } else {
        None
    }
}

proof fn lemma_decimal_value_grows(d: Seq<char>)
    requires
        d.len() > 0,
        forall|i: int| 0 <= i < d.len() ==> is_digit(#[trigger] d[i]),
    ensures
        decimal_value(d) >= decimal_value(d.drop_last()) * 10,
        decimal_value(d.drop_last()) >= 0,
    decreases d.len(),
{
    if d.len() > 1 {
        lemma_decimal_value_grows(d.drop_last());
    }
}

/// The 64-bit integer that `s` writes, if it writes one.
pub fn parse_int(s: &String) -> (r: Option<i64>)
    ensures
        match int_literal(s@) {
            Some(v) => r == Some(v as i64),
            None => r is None,
        },
{
    let chars = chars_of(s.as_str());
    let n = chars.len();
    let negative = n > 0 && chars[0] == '-';
    let start: usize = if n > 0 && (chars[0] == '-' || chars[0] == '+') {
        1
    } else {
        0
    };
    let ghost digits = if s@.len() > 0 && (s@[0] == '-' || s@[0] == '+') {
        s@.drop_first()
    } else {
        s@
    };
    assert(digits =~= s@.subrange(start as int, n as int));
    if start >= n {
        return None;
    }
    let limit: u64 = if negative {
        9223372036854775808u64
    } else {
        9223372036854775807u64
    };
    let mut value: u64 = 0;
    let mut i: usize = start;
    while i < n
        invariant
            chars@ == s@,
            n == s@.len(),
            start <= i <= n,
            digits == s@.subrange(start as int, n as int),
            digits == if s@.len() > 0 && (s@[0] == '-' || s@[0] == '+') {
                s@.drop_first()
            } else {
                s@
            },
            forall|k: int| start <= k < i ==> is_digit(#[trigger] s@[k]),
            value == decimal_value(s@.subrange(start as int, i as int)),
            value <= limit,
            negative == (s@.len() > 0 && s@[0] == '-'),
            limit == if negative {
                9223372036854775808u64
            } else {
                9223372036854775807u64
            },
        decreases n - i,
    {
        let c = chars[i];
        if c < '0' || c > '9' {
            assert(digits[i - start] == c);
            assert(!is_digit(digits[i - start]));
            return None;
        }
        let d: u64 = (c as u32 - '0' as u32) as u64;
        assert(d <= 9);
        assert(s@.subrange(start as int, i + 1).drop_last() =~= s@.subrange(start as int, i as int));
        if value > (limit - d) / 10 {
            proof {
                let ghost prefix = s@.subrange(start as int, i + 1);
                assert(decimal_value(prefix) > limit);
                assert(digits.subrange(0, (i + 1 - start) as int) =~= prefix);
                lemma_decimal_prefix_bound(digits, (i + 1 - start) as int, limit as int);
            }
            return None;
        }
        value = value * 10 + d;
        i = i + 1;
    }
    assert(s@.subrange(start as int, n as int) =~= digits);
    if negative {
        if value == 9223372036854775808u64 {
            Some(i64::MIN)
        } else {
            Some(-(value as i64))
        }
    } else {
        Some(value as i64)
    }
}

/// A run of digits is worth at least any of its prefixes.
proof fn lemma_decimal_prefix_bound(d: Seq<char>, k: int, limit: int)
    requires
        0 < k <= d.len(),
        decimal_value(d.subrange(0, k)) > limit,
        limit >= 0,
    ensures
        !all_digits(d) || decimal_value(d) > limit,
    decreases d.len() - k,
{
    if all_digits(d) && k < d.len() {
        let p = d.subrange(0, k + 1);
        assert(p.drop_last() =~= d.subrange(0, k));
        assert forall|i: int| 0 <= i < p.len() implies is_digit(#[trigger] p[i]) by {
            assert(p[i] == d[i]);
        }
        lemma_decimal_value_grows(p);
        lemma_decimal_prefix_bound(d, k + 1, limit);
    } else if all_digits(d) {
        assert(d.subrange(0, k) =~= d);
    }
}

} // verus!
