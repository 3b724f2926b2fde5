//! Numerals: which texts are whole numbers, which are decimal fractions, and what a whole
//! number is worth.

use vstd::prelude::*;
use crate::chars::{char_is_digit, digit_value, is_digit, run, run_length, CharClass};
use crate::text::chars_of;

verus! {

/// Why a text is no 32-bit whole number.
#[derive(Clone, Copy, Debug, PartialEq, Eq, Structural)]
pub enum IntFault {
    /// The text is empty.
    Empty,
    /// A character is no digit, or a sign stands alone.
    InvalidDigit,
    /// The number lies above the largest 32-bit value.
    PosOverflow,
    /// The number lies below the smallest 32-bit value.
    NegOverflow,
}

/// Why a text is no decimal fraction.
#[derive(Clone, Copy, Debug, PartialEq, Eq, Structural)]
pub enum FloatFault {
    /// The text is empty.
    Empty,
    /// The text is not written as a number.
    Invalid,
}

/// Reads digits from left to right onto `acc`, towards minus infinity if `negative`. The first
/// character that is no digit, or the first digit that takes the number out of the 32-bit range,
/// ends the reading.
pub open spec fn read_digits(s: Seq<char>, acc: int, negative: bool) -> Result<int, IntFault>
    decreases s.len(),
{
    if s.len() == 0 {
        Ok(acc)
    } else if !is_digit(s[0]) {
        Err(IntFault::InvalidDigit)
    } else {
        let next = if negative {
            acc * 10 - digit_value(s[0])
        } else {
            acc * 10 + digit_value(s[0])
        };
        if next > i32::MAX {
            Err(IntFault::PosOverflow)
        } else if next < i32::MIN {
            Err(IntFault::NegOverflow)
        } else {
            read_digits(s.drop_first(), next, negative)
        }
    }
}

/// The 32-bit whole number that `s` writes: an optional sign, then decimal digits, at least one.
pub open spec fn int_of(s: Seq<char>) -> Result<int, IntFault> {
    if s.len() == 0 {
        Err(IntFault::Empty)
    } else if s[0] == '+' || s[0] == '-' {
        if s.len() == 1 {
            Err(IntFault::InvalidDigit)
        } else {
            read_digits(s.drop_first(), 0, s[0] == '-')
        }
    } else {
        read_digits(s, 0, false)
    }
}

/// A letter of the ASCII alphabet in lower case; any other character as it is.
pub open spec fn ascii_lower(c: char) -> char {
    if 'A' <= c <= 'Z' {
        ((c as u32) + 32) as char
    } else {
        c
    }
}

/// Whether `s` spells `word`, which is in lower case, in letters of either case.
pub open spec fn spells(s: Seq<char>, word: Seq<char>) -> bool {
    s.len() == word.len() && forall|i: int| 0 <= i < s.len() ==> ascii_lower(#[trigger] s[i]) == word[i]
}

/// Whether `s` names infinity or not-a-number.
pub open spec fn is_special(s: Seq<char>) -> bool {
    ||| spells(s, seq!['i', 'n', 'f'])
    ||| spells(s, seq!['i', 'n', 'f', 'i', 'n', 'i', 't', 'y'])
    ||| spells(s, seq!['n', 'a', 'n'])
}

/// Whether `s` is an exponent: `e` or `E`, an optional sign, then digits, at least one.
pub open spec fn is_exponent(s: Seq<char>) -> bool {
    s.len() > 0 && ascii_lower(s[0]) == 'e' && {
        let t = s.drop_first();
        let d = if t.len() > 0 && (t[0] == '+' || t[0] == '-') {
            t.drop_first()
        } else {
            t
        };
        d.len() > 0 && run(d, CharClass::Digit) == d.len()
    }
}

/// Whether `s` is an unsigned decimal number: digits with at most one point among them, at
/// least one digit before or behind the point, and an optional exponent.
pub open spec fn is_number(s: Seq<char>) -> bool {
    let whole = run(s, CharClass::Digit) as int;
    if whole < s.len() && s[whole] == '.' {
        let frac = run(s.skip(whole + 1), CharClass::Digit) as int;
        let rest = s.skip(whole + 1 + frac);
        (whole > 0 || frac > 0) && (rest.len() == 0 || is_exponent(rest))
    } else {
        let rest = s.skip(whole);
        whole > 0 && (rest.len() == 0 || is_exponent(rest))
    }
}

/// `s` without the sign that may stand at its front.
pub open spec fn unsigned(s: Seq<char>) -> Seq<char> {
    if s.len() > 0 && (s[0] == '+' || s[0] == '-') {
        s.drop_first()
    } else {
        s
    }
}

/// Whether `s` writes a floating-point number: an optional sign, then `inf`, `infinity` or `nan`
/// in either case, or a decimal number.
pub open spec fn is_float_literal(s: Seq<char>) -> bool {
    is_special(unsigned(s)) || is_number(unsigned(s))
}

/// Why `s` is no floating-point literal, if it is none.
pub open spec fn float_fault(s: Seq<char>) -> Option<FloatFault> {
    if s.len() == 0 {
        Some(FloatFault::Empty)
    } else if is_float_literal(s) {
        None
    } else {
        Some(FloatFault::Invalid)
    }
}

/// Reads a 32-bit whole number.
pub fn parse_integer(s: &str) -> (r: Result<i32, IntFault>)
    ensures
        match r {
            Ok(n) => int_of(s@) == Ok::<int, IntFault>(n as int),
            Err(e) => int_of(s@) == Err::<int, IntFault>(e),
        },
{
    let v = chars_of(s);
    if v.len() == 0 {
        return Err(IntFault::Empty);
    }
    let signed: bool = v[0] == '+' || v[0] == '-';
    let negative: bool = v[0] == '-';
    if signed && v.len() == 1 {
        return Err(IntFault::InvalidDigit);
    }
    let mut i: usize = if signed {
        1
    } else {
        0
    };
    let mut acc: i64 = 0;
    proof {
        assert(v@.skip(0) =~= v@);
        assert(v@.skip(1) =~= v@.drop_first());
    }
    while i < v.len()
        invariant
            i <= v.len(),
            v@ == s@,
            i32::MIN <= acc <= i32::MAX,
            int_of(s@) == read_digits(v@.skip(i as int), acc as int, negative),
        decreases v.len() - i,
    {
        let c = v[i];
        proof {
            assert(v@.skip(i as int)[0] == c);
            assert(v@.skip(i as int).drop_first() =~= v@.skip(i + 1));
        }
        if !char_is_digit(c) {
            return Err(IntFault::InvalidDigit);
        }
        let d: i64 = (c as u32 - '0' as u32) as i64;
        let next: i64 = if negative {
            acc * 10 - d
        } else {
            acc * 10 + d
        };
        if next > 2147483647 {
            return Err(IntFault::PosOverflow);
        }
        if next < -2147483648 {
            return Err(IntFault::NegOverflow);
        }
        acc = next;
        i += 1;
    }
    Ok(acc as i32)
}

/// Whether the characters of `v` from `from` on spell `word` in letters of either case.
fn spells_at(v: &Vec<char>, from: usize, word: &str) -> (r: bool)
    requires
        from <= v.len(),
    ensures
        r == spells(v@.skip(from as int), word@),
{
    let w = chars_of(word);
    if v.len() - from != w.len() {
        return false;
    }
    let ghost s = v@.skip(from as int);
    let mut i: usize = 0;
    while i < w.len()
        invariant
            i <= w.len(),
            from + w.len() == v.len(),
            w@ == word@,
            s == v@.skip(from as int),
            forall|j: int| 0 <= j < i ==> ascii_lower(#[trigger] s[j]) == w@[j],
        decreases w.len() - i,
    {
        let c = v[from + i];
        let low: char = if 'A' <= c && c <= 'Z' {
            ((c as u8) + 32u8) as char
        } else {
            c
        };
        proof {
            assert(s[i as int] == c);
            assert(low == ascii_lower(c));
        }
        if low != w[i] {
            return false;
        }
        i += 1;
    }
    true
}

/// Whether the characters of `v` from `from` on are an exponent.
fn exponent_at(v: &Vec<char>, from: usize) -> (r: bool)
    requires
        from < v.len(),
    ensures
        r == is_exponent(v@.skip(from as int)),
{
    let ghost s = v@.skip(from as int);
    proof {
        assert(s[0] == v@[from as int]);
        assert(s.drop_first() =~= v@.skip(from + 1));
    }
    if v[from] != 'e' && v[from] != 'E' {
        return false;
    }
    let mut i: usize = from + 1;
    if i < v.len() && (v[i] == '+' || v[i] == '-') {
        proof {
            assert(v@.skip(from + 1)[0] == v@[i as int]);
            assert(v@.skip(from + 1).drop_first() =~= v@.skip(from + 2));
        }
        i += 1;
    }
    let n = run_length(v, i, CharClass::Digit);
    n > 0 && i + n == v.len()
}

/// Tells whether `s` writes a floating-point number, and if not, why not.
pub fn check_float(s: &str) -> (r: Option<FloatFault>)
    ensures
        r == float_fault(s@),
{
    let v = chars_of(s);
    if v.len() == 0 {
        return Some(FloatFault::Empty);
    }
    let from: usize = if v[0] == '+' || v[0] == '-' {
        1
    } else {
        0
    };
    let ghost body = v@.skip(from as int);
    proof {
        assert(v@.skip(0) =~= v@);
        assert(v@.skip(1) =~= v@.drop_first());
        assert(body == unsigned(s@));
        reveal_strlit("inf");
        reveal_strlit("infinity");
        reveal_strlit("nan");
        assert("inf"@ =~= seq!['i', 'n', 'f']);
        assert("infinity"@ =~= seq!['i', 'n', 'f', 'i', 'n', 'i', 't', 'y']);
        assert("nan"@ =~= seq!['n', 'a', 'n']);
    }
    if spells_at(&v, from, "inf") || spells_at(&v, from, "infinity") || spells_at(&v, from, "nan") {
        return None;
    }
    let whole = run_length(&v, from, CharClass::Digit);
    let mut i: usize = from + whole;
    if i < v.len() && v[i] == '.' {
        let frac = run_length(&v, i + 1, CharClass::Digit);
        proof {
            assert(body[whole as int] == v@[i as int]);
            assert(body.skip(whole + 1) =~= v@.skip(i + 1));
            assert(body.skip(whole + 1 + frac) =~= v@.skip(i + 1 + frac));
        }
        if whole == 0 && frac == 0 {
            return Some(FloatFault::Invalid);
        }
        i = i + 1 + frac;
    } else {
        proof {
            if i < v.len() {
                assert(body[whole as int] == v@[i as int]);
            }
            assert(body.skip(whole as int) =~= v@.skip(i as int));
        }
        if whole == 0 {
            return Some(FloatFault::Invalid);
        }
    }
    if i == v.len() || exponent_at(&v, i) {
        None
    } else {
        Some(FloatFault::Invalid)
    }
}

} // verus!
