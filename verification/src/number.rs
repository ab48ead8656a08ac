//! The texts that stand for a sample value: the decimal floating-point literals.

use vstd::prelude::*;
use crate::text::{
    eq_ignore_ascii_case, leading, range_is_ignore_ascii_case, skip_class, CharClass,
};

verus! {

/// Whether `c` is a sign, `+` or `-`.
pub open spec fn is_sign(c: char) -> bool {
    c == '+' || c == '-'
}

/// `s` without the digits it begins with.
pub open spec fn after_digits(s: Seq<char>) -> Seq<char> {
    s.skip(leading(s, CharClass::Digit) as int)
}

/// An exponent: `e` or `E`, an optional sign, and one digit or more.
pub open spec fn is_exponent(s: Seq<char>) -> bool {
    &&& s.len() >= 1
    &&& (s[0] == 'e' || s[0] == 'E')
    &&& {
        let digits = if s.len() >= 2 && is_sign(s[1]) {
            s.skip(2)
        } else {
            s.skip(1)
        };
        digits.len() > 0 && leading(digits, CharClass::Digit) == digits.len()
    }
}

/// An unsigned decimal number: digits with an optional `.` among, before or after
/// them, at least one digit in all, and an optional exponent.
pub open spec fn is_decimal_number(s: Seq<char>) -> bool {
    let whole = leading(s, CharClass::Digit);
    let rest = after_digits(s);
    if rest.len() > 0 && rest[0] == '.' {
        let fraction = leading(rest.skip(1), CharClass::Digit);
        let tail = after_digits(rest.skip(1));
        whole + fraction > 0 && (tail.len() == 0 || is_exponent(tail))
    } else {
        whole > 0 && (rest.len() == 0 || is_exponent(rest))
    }
}

/// Whether `s` is a floating-point literal: an optional sign, then `inf`,
/// `infinity` or `nan` in any letter case, or a decimal number. Nothing may stand
/// before or after it, whitespace included.
pub open spec fn is_float_text(s: Seq<char>) -> bool {
    let body = if s.len() > 0 && is_sign(s[0]) {
        s.skip(1)
    } else {
        s
    };
    ||| eq_ignore_ascii_case(body, "inf"@)
    ||| eq_ignore_ascii_case(body, "infinity"@)
    ||| eq_ignore_ascii_case(body, "nan"@)
    ||| is_decimal_number(body)
}

/// Whether `v[start..end]` is an exponent.
fn range_is_exponent(v: &[char], start: usize, end: usize) -> (b: bool)
    requires
        start <= end <= v.len(),
    ensures
        b == is_exponent(v@.subrange(start as int, end as int)),
{
    let ghost s = v@.subrange(start as int, end as int);
    if start == end || !(v[start] == 'e' || v[start] == 'E') {
        return false;
    }
    let from: usize = if end - start >= 2 && (v[start + 1] == '+' || v[start + 1] == '-') {
        start + 2
    } else {
        start + 1
    };
    let to = skip_class(v, from, end, CharClass::Digit);
    proof {
        assert(s.skip(from - start) == v@.subrange(from as int, end as int));
    }
    from < end && to == end
}

/// Whether `v[start..end]` is an unsigned decimal number.
fn range_is_decimal_number(v: &[char], start: usize, end: usize) -> (b: bool)
    requires
        start <= end <= v.len(),
    ensures
        b == is_decimal_number(v@.subrange(start as int, end as int)),
{
    let ghost s = v@.subrange(start as int, end as int);
    let dot = skip_class(v, start, end, CharClass::Digit);
    proof {
        assert(after_digits(s) == v@.subrange(dot as int, end as int));
    }
    if dot < end && v[dot] == '.' {
        let tail = skip_class(v, dot + 1, end, CharClass::Digit);
        proof {
            let rest = v@.subrange(dot as int, end as int);
            assert(rest.skip(1) == v@.subrange(dot + 1, end as int));
            assert(after_digits(rest.skip(1)) == v@.subrange(tail as int, end as int));
        }
        (dot - start) + (tail - (dot + 1)) > 0 && (tail == end || range_is_exponent(v, tail, end))
    } else {
        dot > start && (dot == end || range_is_exponent(v, dot, end))
    }
}

/// Whether `v[start..end]` is a floating-point literal.
pub fn range_is_float(v: &[char], start: usize, end: usize) -> (b: bool)
    requires
        start <= end <= v.len(),
    ensures
        b == is_float_text(v@.subrange(start as int, end as int)),
{
    let ghost s = v@.subrange(start as int, end as int);
    let from: usize = if start < end && (v[start] == '+' || v[start] == '-') {
        start + 1
    } else {
        start
    };
    proof {
        assert(s.skip(from - start) == v@.subrange(from as int, end as int));
        assert(s.skip(0) == s);
    }
    range_is_ignore_ascii_case(v, from, end, "inf") || range_is_ignore_ascii_case(
        v,
        from,
        end,
        "infinity",
    ) || range_is_ignore_ascii_case(v, from, end, "nan") || range_is_decimal_number(v, from, end)
}

} // verus!
