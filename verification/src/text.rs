//! Decimal text for the short numeric identifiers that ride inside
//! envelopes: correlation names and sample selections travel as decimal
//! strings on the wire, and the session logic turns them back into numbers.
//!
//! Identifiers are short: parsing accepts at most nine digits, which always
//! fits a `u32`, and formatting is exact for every value it is asked for.

use vstd::prelude::*;
use vstd::string::StringExecFns;

verus! {

/// Longest digit string the parser accepts.
pub const MAX_DECIMAL_DIGITS: usize = 9;

/// The decimal digit character for a value below ten.
pub open spec fn spec_digit_char(d: int) -> char {
    if d == 0 {
        '0'
    } else if d == 1 {
        '1'
    } else if d == 2 {
        '2'
    } else if d == 3 {
        '3'
    } else if d == 4 {
        '4'
    } else if d == 5 {
        '5'
    } else if d == 6 {
        '6'
    } else if d == 7 {
        '7'
    } else if d == 8 {
        '8'
    } else {
        '9'
    }
}

/// The numeric value of a decimal digit character, if it is one.
pub open spec fn spec_char_digit(c: char) -> Option<int> {
    if 48 <= c as int <= 57 {
        Some(c as int - 48)
    } else {
        None
    }
}

/// The decimal spelling of a number, most significant digit first, with no
/// leading zeroes except for zero itself.
pub open spec fn spec_decimal(n: int) -> Seq<char>
    recommends
        n >= 0,
    decreases n,
{
    if n < 10 {
        seq![spec_digit_char(n)]
    } else {
        spec_decimal(n / 10).push(spec_digit_char(n % 10))
    }
}

/// Whether every character of `s` is a decimal digit.
pub open spec fn spec_all_digits(s: Seq<char>) -> bool {
    forall|i: int| 0 <= i < s.len() ==> #[trigger] spec_char_digit(s[i]) is Some
}

/// The number a digit string denotes, most significant digit first.
pub open spec fn spec_decimal_value(s: Seq<char>) -> int
    decreases s.len(),
{
    if s.len() == 0 {
        0
    } else {
        spec_decimal_value(s.drop_last()) * 10 + spec_char_digit(s.last()).unwrap_or(0)
    }
}

/// Ten to the `k`-th power.
pub open spec fn spec_pow10(k: int) -> int
    recommends
        k >= 0,
    decreases k,
{
    if k <= 0 {
        1
    } else {
        10 * spec_pow10(k - 1)
    }
}

/// A digit string of length `k` denotes a value below ten to the `k`-th.
pub proof fn lemma_decimal_value_bound(s: Seq<char>)
    ensures
        0 <= spec_decimal_value(s) < spec_pow10(s.len() as int),
    decreases s.len(),
{
    if s.len() > 0 {
        lemma_decimal_value_bound(s.drop_last());
        let prefix = spec_decimal_value(s.drop_last());
        let d = spec_char_digit(s.last()).unwrap_or(0);
        assert(0 <= d <= 9);
        assert(prefix * 10 + d < spec_pow10(s.len() as int - 1) * 10);
        assert(spec_pow10(s.len() as int) == 10 * spec_pow10(s.len() as int - 1));
    }
}

fn digit_str(d: u32) -> (s: &'static str)
    requires
        d < 10,
    ensures
        s@ =~= seq![spec_digit_char(d as int)],
{
    let s: &'static str = if d == 0 {
        "0"
    } else if d == 1 {
        "1"
    } else if d == 2 {
        "2"
    } else if d == 3 {
        "3"
    } else if d == 4 {
        "4"
    } else if d == 5 {
        "5"
    } else if d == 6 {
        "6"
    } else if d == 7 {
        "7"
    } else if d == 8 {
        "8"
    } else {
        "9"
    };
    proof {
        reveal_strlit("0");
        reveal_strlit("1");
        reveal_strlit("2");
        reveal_strlit("3");
        reveal_strlit("4");
        reveal_strlit("5");
        reveal_strlit("6");
        reveal_strlit("7");
        reveal_strlit("8");
        reveal_strlit("9");
    }
    s
}

/// Writes `n` in decimal, most significant digit first.
pub fn format_u32(n: u32) -> (s: String)
    ensures
        s@ == spec_decimal(n as int),
    decreases n,
{
    if n < 10 {
        String::from_str(digit_str(n))
    } else {
        let prefix = format_u32(n / 10);
        let s = prefix.concat(digit_str(n % 10));
        proof {
            assert(s@ =~= spec_decimal(n as int / 10).push(spec_digit_char(n as int % 10)));
        }
        s
    }
}

/// Reads a short decimal string. Returns the denoted number exactly when
/// the string is one through nine decimal digits; anything else — empty, a
/// non-digit, or a longer string — is refused.
pub fn parse_u32(s: &String) -> (r: Option<u32>)
    ensures
        r is Some <==> 1 <= s@.len() <= MAX_DECIMAL_DIGITS && spec_all_digits(s@),
        r matches Some(v) ==> v as int == spec_decimal_value(s@),
{
    let len = s.as_str().unicode_len();
    if len == 0 || len > MAX_DECIMAL_DIGITS {
        return None;
    }
    let mut value: u32 = 0;
    let mut i: usize = 0;
    while i < len
        invariant
            1 <= len <= MAX_DECIMAL_DIGITS,
            len == s@.len(),
            0 <= i <= len,
            forall|j: int| 0 <= j < i ==> #[trigger] spec_char_digit(s@[j]) is Some,
            value as int == spec_decimal_value(s@.take(i as int)),
            0 <= (value as int) < spec_pow10(i as int),
        decreases len - i,
    {
        let c = s.as_str().get_char(i);
        let code = c as u32;
        if code < 48 || code > 57 {
            proof {
                assert(spec_char_digit(s@[i as int]) is None);
            }
            return None;
        }
        let d = code - 48;
        proof {
            lemma_decimal_value_bound(s@.take(i as int));
            assert(spec_pow10(i as int) <= spec_pow10(8)) by {
                lemma_pow10_increases(i as int, 8);
            }
            lemma_pow10_values();
            assert(s@.take(i as int + 1).drop_last() =~= s@.take(i as int));
            assert(s@.take(i as int + 1).last() == s@[i as int]);
        }
        value = value * 10 + d;
        i += 1;
    }
    proof {
        assert(s@.take(len as int) =~= s@);
    }
    Some(value)
}

proof fn lemma_pow10_values()
    ensures
        spec_pow10(8) == 100000000,
        spec_pow10(9) == 1000000000,
{
    assert(spec_pow10(0) == 1);
    assert(spec_pow10(1) == 10);
    assert(spec_pow10(2) == 100);
    assert(spec_pow10(3) == 1000);
    assert(spec_pow10(4) == 10000);
    assert(spec_pow10(5) == 100000);
    assert(spec_pow10(6) == 1000000);
    assert(spec_pow10(7) == 10000000);
    assert(spec_pow10(8) == 100000000);
    assert(spec_pow10(9) == 1000000000);
}

proof fn lemma_pow10_increases(a: int, b: int)
    requires
        0 <= a <= b,
    ensures
        spec_pow10(a) <= spec_pow10(b),
    decreases b - a,
{
    if a < b {
        lemma_pow10_increases(a, b - 1);
        assert(spec_pow10(b) == 10 * spec_pow10(b - 1));
        assert(spec_pow10(b - 1) >= 1) by {
            lemma_pow10_positive(b - 1);
        }
    }
}

proof fn lemma_pow10_positive(k: int)
    ensures
        spec_pow10(k) >= 1,
    decreases (if k > 0 { k } else { 0 }),
{
    if k > 0 {
        lemma_pow10_positive(k - 1);
    }
}

/// Formatting then parsing is the identity on every number the parser's
/// nine-digit limit admits.
pub proof fn lemma_decimal_round_trip(n: int)
    requires
        0 <= n < 1000000000,
    ensures
        spec_decimal(n).len() >= 1,
        spec_all_digits(spec_decimal(n)),
        spec_decimal_value(spec_decimal(n)) == n,
        spec_decimal(n).len() <= MAX_DECIMAL_DIGITS,
    decreases n,
{
    lemma_decimal_digits(n);
    lemma_pow10_values();
    lemma_decimal_len(n, 9);
}

proof fn lemma_decimal_digits(n: int)
    requires
        n >= 0,
    ensures
        spec_decimal(n).len() >= 1,
        spec_all_digits(spec_decimal(n)),
        spec_decimal_value(spec_decimal(n)) == n,
    decreases n,
{
    if n < 10 {
        let s = spec_decimal(n);
        assert(s.len() == 1);
        assert(s.last() == spec_digit_char(n));
        assert(s.drop_last() =~= Seq::<char>::empty());
        assert(s.drop_last() == Seq::<char>::empty());
        assert(spec_decimal_value(s.drop_last()) == 0);
        assert(spec_char_digit(spec_digit_char(n)) == Some(n));
        assert(spec_decimal_value(s) == 0 * 10 + n);
    } else {
        lemma_decimal_digits(n / 10);
        let s = spec_decimal(n);
        let prefix = spec_decimal(n / 10);
        assert(s == prefix.push(spec_digit_char(n % 10)));
        assert(s.drop_last() =~= prefix);
        assert(s.last() == spec_digit_char(n % 10));
        assert(spec_char_digit(spec_digit_char(n % 10)) == Some(n % 10));
        assert(forall|i: int|
            0 <= i < prefix.len() ==> #[trigger] spec_char_digit(s[i]) is Some && s[i] == prefix[i]);
        assert(spec_decimal_value(s) == (n / 10) * 10 + n % 10);
    }
}

proof fn lemma_decimal_len(n: int, k: int)
    requires
        0 <= n < spec_pow10(k),
        k >= 1,
    ensures
        spec_decimal(n).len() <= k,
    decreases n,
{
    if n >= 10 {
        assert(spec_pow10(k) == 10 * spec_pow10(k - 1));
        lemma_decimal_len(n / 10, k - 1);
    }
}

} // verus!
