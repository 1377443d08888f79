//! Character-level text helpers: Unicode whitespace, trimming, and the
//! decimal syntax of `u32`, each stated over `Seq<char>` and computed over
//! a `Vec<char>` by index ranges.

use vstd::prelude::*;

verus! {

/// The characters with the Unicode `White_Space` property, which is what
/// `char::is_whitespace` tests.
pub open spec fn is_whitespace(c: char) -> bool {
    let u = c as u32;
    ||| 0x09 <= u <= 0x0d
    ||| u == 0x20
    ||| u == 0x85
    ||| u == 0xa0
    ||| u == 0x1680
    ||| 0x2000 <= u <= 0x200a
    ||| u == 0x2028
    ||| u == 0x2029
    ||| u == 0x202f
    ||| u == 0x205f
    ||| u == 0x3000
}

/// Among ASCII characters, exactly space, tab, line feed, vertical tab,
/// form feed and carriage return are whitespace; in particular no ASCII
/// digit, letter or punctuation mark is.
pub proof fn lemma_ascii_whitespace(c: char)
    requires
        (c as u32) < 0x80,
    ensures
        is_whitespace(c) <==> (c == ' ' || c == '\t' || c == '\n' || c == '\x0B' || c == '\x0C'
            || c == '\r'),
        ('0' <= c <= '9' || 'a' <= c <= 'z' || 'A' <= c <= 'Z') ==> !is_whitespace(c),
{
}

/// Whitespace characters lie in `U+0009..=U+3000`, and the only ones
/// beyond ASCII are the Unicode spaces and separators: never a letter or
/// digit of ASCII.
pub proof fn lemma_whitespace_range(c: char)
    requires
        is_whitespace(c),
    ensures
        0x09 <= (c as u32) <= 0x3000,
        !(0x21 <= (c as u32) <= 0x7e),
{
}

/// Tests whether `c` is Unicode whitespace.
pub fn char_is_whitespace(c: char) -> (b: bool)
    ensures
        b == is_whitespace(c),
{
    let u = c as u32;
    (0x09 <= u && u <= 0x0d) || u == 0x20 || u == 0x85 || u == 0xa0 || u == 0x1680 || (0x2000
        <= u && u <= 0x200a) || u == 0x2028 || u == 0x2029 || u == 0x202f || u == 0x205f || u
        == 0x3000
}

/// `s` without its leading whitespace.
pub open spec fn trim_start(s: Seq<char>) -> Seq<char>
    decreases s.len(),
{
    if s.len() > 0 && is_whitespace(s[0]) {
        trim_start(s.drop_first())
    } else {
        s
    }
}

/// `s` without its trailing whitespace.
pub open spec fn trim_end(s: Seq<char>) -> Seq<char>
    decreases s.len(),
{
    if s.len() > 0 && is_whitespace(s.last()) {
        trim_end(s.drop_last())
    } else {
        s
    }
}

/// `s` without leading and trailing whitespace, as `str::trim` gives it.
pub open spec fn trim(s: Seq<char>) -> Seq<char> {
    trim_end(trim_start(s))
}

/// `s` neither starts nor ends with whitespace.
pub open spec fn is_trimmed(s: Seq<char>) -> bool {
    s.len() == 0 || (!is_whitespace(s[0]) && !is_whitespace(s.last()))
}

proof fn lemma_trim_start_shape(s: Seq<char>)
    ensures
        trim_start(s).len() == 0 || !is_whitespace(trim_start(s)[0]),
        trim_start(s).len() <= s.len(),
        trim_start(s) == s.skip(s.len() - trim_start(s).len()),
        forall|i: int| 0 <= i < s.len() - trim_start(s).len() ==> is_whitespace(#[trigger] s[i]),
    decreases s.len(),
{
    if s.len() > 0 && is_whitespace(s[0]) {
        lemma_trim_start_shape(s.drop_first());
        let r = trim_start(s.drop_first());
        assert(s.drop_first().skip(s.drop_first().len() - r.len()) =~= s.skip(s.len() - r.len()));
        assert forall|i: int| 0 <= i < s.len() - r.len() implies is_whitespace(#[trigger] s[i]) by {
            if i > 0 {
                assert(s[i] == s.drop_first()[i - 1]);
            }
        }
    } else {
        assert(s.skip(0) =~= s);
    }
}

proof fn lemma_trim_end_shape(s: Seq<char>)
    ensures
        trim_end(s).len() == 0 || !is_whitespace(trim_end(s).last()),
        trim_end(s).len() <= s.len(),
        trim_end(s) == s.take(trim_end(s).len() as int),
        forall|i: int| trim_end(s).len() <= i < s.len() ==> is_whitespace(#[trigger] s[i]),
    decreases s.len(),
{
    if s.len() > 0 && is_whitespace(s.last()) {
        lemma_trim_end_shape(s.drop_last());
        let r = trim_end(s.drop_last());
        assert(s.drop_last().take(r.len() as int) =~= s.take(r.len() as int));
        assert forall|i: int| r.len() <= i < s.len() implies is_whitespace(#[trigger] s[i]) by {
            if i < s.len() - 1 {
                assert(s[i] == s.drop_last()[i]);
            }
        }
    } else {
        assert(s.take(s.len() as int) =~= s);
    }
}

/// What `trim` returns neither starts nor ends with whitespace.
pub proof fn lemma_trim_is_trimmed(s: Seq<char>)
    ensures
        is_trimmed(trim(s)),
{
    let a = trim_start(s);
    lemma_trim_start_shape(s);
    lemma_trim_end_shape(a);
    let r = trim_end(a);
    if r.len() > 0 {
        assert(r[0] == a[0]);
    }
}

/// `trim` removes whitespace from both ends and nothing else: its result
/// is a stretch of `s` with only whitespace before and after it in `s`,
/// and it neither starts nor ends with whitespace.
pub proof fn lemma_trim_removes_only_whitespace(s: Seq<char>)
    ensures
        exists|a: int, b: int|
            0 <= a <= b <= s.len() && trim(s) == s.subrange(a, b) && (forall|i: int|
                0 <= i < a ==> is_whitespace(#[trigger] s[i])) && (forall|i: int|
                b <= i < s.len() ==> is_whitespace(#[trigger] s[i])),
        is_trimmed(trim(s)),
{
    let t = trim_start(s);
    lemma_trim_start_shape(s);
    lemma_trim_end_shape(t);
    lemma_trim_is_trimmed(s);
    let a = s.len() - t.len();
    let r = trim_end(t);
    let b = a + r.len();
    assert(r =~= s.subrange(a, b));
    assert forall|i: int| b <= i < s.len() implies is_whitespace(#[trigger] s[i]) by {
        assert(s[i] == t[i - a]);
    }
}

/// A text that neither starts nor ends with whitespace is its own trim.
pub proof fn lemma_trim_of_trimmed(s: Seq<char>)
    requires
        is_trimmed(s),
    ensures
        trim(s) == s,
{
}

/// Trimming twice is trimming once.
pub proof fn lemma_trim_idempotent(s: Seq<char>)
    ensures
        trim(trim(s)) == trim(s),
{
    lemma_trim_is_trimmed(s);
    lemma_trim_of_trimmed(trim(s));
}

/// The bounds of `chars[start..end]` once trimmed: the result `(a, b)`
/// has `chars[a..b] == trim(chars[start..end])`.
pub fn trim_range(chars: &Vec<char>, start: usize, end: usize) -> (r: (usize, usize))
    requires
        start <= end <= chars.len(),
    ensures
        start <= r.0 <= r.1 <= end,
        chars@.subrange(r.0 as int, r.1 as int) == trim(chars@.subrange(start as int, end as int)),
{
    let mut a = start;
    while a < end && char_is_whitespace(chars[a])
        invariant
            start <= a <= end <= chars.len(),
            trim_start(chars@.subrange(start as int, end as int)) == trim_start(
                chars@.subrange(a as int, end as int),
            ),
        decreases end - a,
    {
        assert(chars@.subrange(a as int, end as int).drop_first() =~= chars@.subrange(
            a + 1,
            end as int,
        ));
        a = a + 1;
    }
    assert(trim_start(chars@.subrange(a as int, end as int)) == chars@.subrange(a as int, end as int));
    let mut b = end;
    while b > a && char_is_whitespace(chars[b - 1])
        invariant
            start <= a <= b <= end <= chars.len(),
            trim_end(chars@.subrange(a as int, end as int)) == trim_end(
                chars@.subrange(a as int, b as int),
            ),
        decreases b - a,
    {
        assert(chars@.subrange(a as int, b as int).drop_last() =~= chars@.subrange(
            a as int,
            b - 1,
        ));
        b = b - 1;
    }
    assert(trim_end(chars@.subrange(a as int, b as int)) == chars@.subrange(a as int, b as int));
    (a, b)
}

/// `c` is one of `'0'` to `'9'`.
pub open spec fn is_ascii_digit(c: char) -> bool {
    '0' <= c <= '9'
}

/// The number that the decimal digits `s` spell.
pub open spec fn digits_value(s: Seq<char>) -> nat
    decreases s.len(),
{
    if s.len() == 0 {
        0
    } else {
        digits_value(s.drop_last()) * 10 + (s.last() as nat - '0' as nat) as nat
    }
}

/// The digits of a `u32` literal: `s` without one leading `'+'`.
pub open spec fn unsigned_digits(s: Seq<char>) -> Seq<char> {
    if s.len() > 0 && s[0] == '+' {
        s.drop_first()
    } else {
        s
    }
}

/// What `str::parse::<u32>` gives for `s`: an optional `'+'`, then one
/// or more decimal digits whose value fits in a `u32`; anything else is
/// refused.
pub open spec fn spec_parse_u32(s: Seq<char>) -> Option<u32> {
    let d = unsigned_digits(s);
    if d.len() > 0 && (forall|i: int| 0 <= i < d.len() ==> is_ascii_digit(#[trigger] d[i]))
        && digits_value(d) <= u32::MAX {
        Some(digits_value(d) as u32)
    } else {
        None
    }
}

/// A string of decimal digits whose value fits in a `u32`, with no sign,
/// parses to that value, and it is its own trim.
pub proof fn lemma_parse_decimal(d: Seq<char>)
    requires
        d.len() > 0,
        forall|i: int| 0 <= i < d.len() ==> is_ascii_digit(#[trigger] d[i]),
        digits_value(d) <= u32::MAX,
    ensures
        spec_parse_u32(d) == Some(digits_value(d) as u32),
        trim(d) == d,
{
    assert(is_ascii_digit(d[0]));
    assert(unsigned_digits(d) == d);
    assert(is_ascii_digit(d.last()));
    lemma_ascii_whitespace(d[0]);
    lemma_ascii_whitespace(d.last());
    lemma_trim_of_trimmed(d);
}

/// Leading zeros do not change the value of a digit string, and a single
/// digit is worth what it shows.
pub proof fn lemma_digits_value_leading_zero(d: Seq<char>, c: char)
    requires
        is_ascii_digit(c),
    ensures
        digits_value(seq!['0'] + d) == digits_value(d),
        digits_value(seq![c]) == (c as u32) - 48,
        digits_value(seq![c]) < 10,
    decreases d.len(),
{
    assert(seq![c].drop_last() =~= Seq::<char>::empty());
    assert(digits_value(Seq::<char>::empty()) == 0);
    assert(digits_value(seq![c]) == digits_value(seq![c].drop_last()) * 10 + (seq![c].last() as nat - '0' as nat) as nat);
    if d.len() == 0 {
        let z = seq!['0'];
        assert(seq!['0'] + d =~= z);
        assert(z.drop_last() =~= Seq::<char>::empty());
        assert(digits_value(z) == digits_value(z.drop_last()) * 10 + (z.last() as nat - '0' as nat) as nat);
    } else {
        lemma_digits_value_leading_zero(d.drop_last(), c);
        let z = seq!['0'] + d;
        assert(z.drop_last() =~= seq!['0'] + d.drop_last());
        assert(z.last() == d.last());
    }
}

/// Among digit strings, a longer one is worth at least as much as its
/// prefix.
pub proof fn lemma_digits_value_prefix(s: Seq<char>, k: int)
    requires
        0 <= k <= s.len(),
        forall|i: int| 0 <= i < s.len() ==> is_ascii_digit(#[trigger] s[i]),
    ensures
        digits_value(s.take(k)) <= digits_value(s),
    decreases s.len(),
{
    if k < s.len() {
        assert(s.drop_last().take(k) =~= s.take(k));
        lemma_digits_value_prefix(s.drop_last(), k);
    } else {
        assert(s.take(k) =~= s);
    }
}

/// Parses `chars[start..end]` as `str::parse::<u32>` does.
pub fn parse_u32_range(chars: &Vec<char>, start: usize, end: usize) -> (r: Option<u32>)
    requires
        start <= end <= chars.len(),
    ensures
        r == spec_parse_u32(chars@.subrange(start as int, end as int)),
{
    let ghost s = chars@.subrange(start as int, end as int);
    let mut a = start;
    if start < end && chars[start] == '+' {
        a = start + 1;
    }
    let ghost d = chars@.subrange(a as int, end as int);
    assert(d =~= unsigned_digits(s));
    if a == end {
        return None;
    }
    let mut value: u64 = 0;
    let mut i = a;
    while i < end
        invariant
            a <= i <= end <= chars.len(),
            d == chars@.subrange(a as int, end as int),
            s == chars@.subrange(start as int, end as int),
            d == unsigned_digits(s),
            d.len() > 0,
            forall|j: int| 0 <= j < i - a ==> is_ascii_digit(#[trigger] d[j]),
            value == digits_value(d.take(i - a)),
            value <= u32::MAX,
        decreases end - i,
    {
        let c = chars[i];
        if !('0' <= c && c <= '9') {
            assert(!is_ascii_digit(d[i - a]));
            return None;
        }
        let digit = (c as u32 - '0' as u32) as u64;
        let ghost k = i - a;
        assert(d.take(k + 1).drop_last() =~= d.take(k));
        value = value * 10 + digit;
        i = i + 1;
        assert(value == digits_value(d.take(k + 1)));
        if value > u32::MAX as u64 {
            proof {
                if forall|j: int| 0 <= j < d.len() ==> is_ascii_digit(#[trigger] d[j]) {
                    lemma_digits_value_prefix(d, k + 1);
                }
            }
            return None;
        }
    }
    assert(d.take(end - a) =~= d);
    Some(value as u32)
}

} // verus!
