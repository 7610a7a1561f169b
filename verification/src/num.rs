//! Parsing of decimal and `0x`-prefixed hexadecimal numerals, as they appear
//! as `ID` values in a case annotation.
use vstd::prelude::*;
use vstd::string::StrSliceExecFns;

verus! {

/// Why a numeral failed to parse.
#[derive(Clone, Copy, Debug, PartialEq, Eq, Structural)]
pub enum IntParseError {
    /// No digits at all (after the `0x` prefix, if any).
    Empty,
    /// A character that is no digit of the base.
    InvalidDigit,
    /// The value does not fit in `usize`.
    Overflow,
}

/// The numeric value of one digit character, or 16 for anything that is
/// no digit at all.
pub open spec fn spec_digit_value(c: char) -> nat {
    let v = c as u32;
    if 48 <= v && v <= 57 {
        (v - 48) as nat
    } else if 97 <= v && v <= 102 {
        (v - 87) as nat
    } else if 65 <= v && v <= 70 {
        (v - 55) as nat
    } else {
        16
    }
}

/// Whether `c` is a digit of the given base.
pub open spec fn spec_is_digit(c: char, base: nat) -> bool {
    spec_digit_value(c) < base
}

/// Whether every character of `s` is a digit of the given base.
pub open spec fn all_digits(s: Seq<char>, base: nat) -> bool {
    forall|i: int| 0 <= i < s.len() ==> spec_is_digit(#[trigger] s[i], base)
}

/// The value of a digit string read most-significant first.
pub open spec fn digits_value(s: Seq<char>, base: nat) -> nat
    decreases s.len(),
{
    if s.len() == 0 {
        0
    } else {
        digits_value(s.drop_last(), base) * base + spec_digit_value(s.last())
    }
}

/// What parsing a digit string yields: the leftmost failure wins, so a string
/// with an invalid digit is `InvalidDigit` even where a prefix already
/// overflows.
pub open spec fn spec_parse_digits(s: Seq<char>, base: nat) -> Result<usize, IntParseError> {
    if s.len() == 0 {
        Err(IntParseError::Empty)
    } else if !all_digits(s, base) {
        Err(IntParseError::InvalidDigit)
    } else if digits_value(s, base) > usize::MAX {
        Err(IntParseError::Overflow)
    } else {
        Ok(digits_value(s, base) as usize)
    }
}

/// Whether the string carries the `0x` hexadecimal prefix.
pub open spec fn spec_has_hex_prefix(s: Seq<char>) -> bool {
    s.len() >= 2 && s[0] == '0' && s[1] == 'x'
}

/// What parsing a numeral yields: hexadecimal after a `0x` prefix,
/// decimal otherwise.
pub open spec fn spec_parse_int(s: Seq<char>) -> Result<usize, IntParseError> {
    if spec_has_hex_prefix(s) {
        spec_parse_digits(s.skip(2), 16)
    } else {
        spec_parse_digits(s, 10)
    }
}

/// A longer digit string is worth at least as much as its prefix.
proof fn lemma_digits_value_prefix_le(s: Seq<char>, base: nat, i: int)
    requires
        0 <= i <= s.len(),
        base >= 1,
    ensures
        digits_value(s.take(i), base) <= digits_value(s, base),
    decreases s.len() - i,
{
    if i == s.len() {
        assert(s.take(i) =~= s);
    } else {
        lemma_digits_value_prefix_le(s, base, i + 1);
        assert(s.take(i + 1).drop_last() =~= s.take(i));
        assert(s.take(i + 1).last() == s[i]);
        assert(digits_value(s.take(i + 1), base) == digits_value(s.take(i), base) * base
            + spec_digit_value(s[i]));
        assert(digits_value(s.take(i), base) * base >= digits_value(s.take(i), base) * 1)
            by (nonlinear_arith)
            requires base >= 1;
    }
}

/// The numeric value of one digit character; 16 marks a non-digit.
fn digit_value(c: char) -> (d: u32)
    ensures
        d == spec_digit_value(c),
{
    let v = c as u32;
    if 48 <= v && v <= 57 {
        v - 48
    } else if 97 <= v && v <= 102 {
        v - 87
    } else if 65 <= v && v <= 70 {
        v - 55
    } else {
        16
    }
}

/// Parses the digits of `s` from position `from` on in the given base.
fn parse_digits(s: &str, from: usize, base: usize) -> (r: Result<usize, IntParseError>)
    requires
        from <= s@.len(),
        base == 10 || base == 16,
    ensures
        r == spec_parse_digits(s@.skip(from as int), base as nat),
{
    let ghost d = s@.skip(from as int);
    let n = s.unicode_len();
    if from == n {
        assert(d.len() == 0);
        return Err(IntParseError::Empty);
    }
    // First pass: every character must be a digit of the base.
    for i in from..n
        invariant
            from < n == s@.len(),
            base == 10 || base == 16,
            d == s@.skip(from as int),
            forall|j: int| from <= j < i ==> spec_is_digit(#[trigger] s@[j], base as nat),
    {
        let c = s.get_char(i);
        if digit_value(c) >= base as u32 {
            assert(!spec_is_digit(s@[i as int], base as nat));
            assert(d[i - from] == s@[i as int]);
            return Err(IntParseError::InvalidDigit);
        }
    }
    assert forall|j: int| 0 <= j < d.len() implies spec_is_digit(#[trigger] d[j], base as nat) by {
        assert(d[j] == s@[j + from]);
    }
    // Second pass: accumulate, watching for overflow.
    let mut acc: usize = 0;
    for i in from..n
        invariant
            from < n == s@.len(),
            base == 10 || base == 16,
            d == s@.skip(from as int),
            all_digits(d, base as nat),
            acc == digits_value(d.take(i - from), base as nat),
    {
        let c = s.get_char(i);
        let dv = digit_value(c);
        assert(d[i - from] == s@[i as int]);
        assert(dv < base as u32);
        let shifted = match acc.checked_mul(base) {
            Some(m) => m,
            None => {
                proof {
                    let k = i - from + 1;
                    assert(d.take(k).drop_last() =~= d.take(k - 1));
                    assert(digits_value(d.take(k), base as nat) > usize::MAX);
                    lemma_digits_value_prefix_le(d, base as nat, k);
                }
                return Err(IntParseError::Overflow);
            },
        };
        let next = match shifted.checked_add(dv as usize) {
            Some(v) => v,
            None => {
                proof {
                    let k = i - from + 1;
                    assert(d.take(k).drop_last() =~= d.take(k - 1));
                    assert(digits_value(d.take(k), base as nat) > usize::MAX);
                    lemma_digits_value_prefix_le(d, base as nat, k);
                }
                return Err(IntParseError::Overflow);
            },
        };
        proof {
            let k = i - from + 1;
            assert(d.take(k).drop_last() =~= d.take(k - 1));
            assert(d.take(k).last() == d[k - 1]);
        }
        acc = next;
    }
    proof {
        assert(d.take(n - from) =~= d);
    }
    Ok(acc)
}

/// Parses a decimal or `0x`-prefixed hexadecimal numeral.
pub fn parse_int(s: &str) -> (r: Result<usize, IntParseError>)
    ensures
        r == spec_parse_int(s@),
{
    let n = s.unicode_len();
    if n >= 2 && s.get_char(0) == '0' && s.get_char(1) == 'x' {
        parse_digits(s, 2, 16)
    } else {
        assert(!spec_has_hex_prefix(s@));
        assert(s@.skip(0) =~= s@);
        parse_digits(s, 0, 10)
    }
}

} // verus!
