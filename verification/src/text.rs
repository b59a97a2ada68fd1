//! Characters and numbers in text: the classes of characters that the lexer
//! tells apart, and integers in decimal.

use vstd::prelude::*;
use vstd::string::StrSliceExecFns;

verus! {

/// Whether `c` is white space, as `char::is_whitespace` of std tells.
pub uninterp spec fn white_space(c: char) -> bool;

/// Whether `c` is a letter, as `char::is_alphabetic` of std tells.
pub uninterp spec fn letter(c: char) -> bool;

/// `char::is_whitespace` of std: whether the character has the Unicode
/// property `White_Space`. Trusted: that the answer depends on the character
/// alone. Nothing is claimed of which characters those are.
pub assume_specification[ char::is_whitespace ](c: char) -> (b: bool)
    ensures
        b == white_space(c),
;

/// `char::is_alphabetic` of std: whether the character has the Unicode
/// property `Alphabetic`. Trusted: that the answer depends on the character
/// alone. Nothing is claimed of which characters those are.
pub assume_specification[ char::is_alphabetic ](c: char) -> (b: bool)
    ensures
        b == letter(c),
;

/// Whether `c` is one of the ten decimal digits.
pub open spec fn is_digit(c: char) -> bool {
    '0' <= c <= '9'
}

/// The value of the decimal digit `c`.
pub open spec fn digit_value(c: char) -> int {
    c as int - '0' as int
}

/// Whether all of `s` are decimal digits.
pub open spec fn all_digits(s: Seq<char>) -> bool {
    forall|i: int| 0 <= i < s.len() ==> is_digit(#[trigger] s[i])
}

/// The number that the decimal digits `s` stand for.
pub open spec fn digits_value(s: Seq<char>) -> int
    decreases s.len(),
{
    if s.len() == 0 {
        0
    } else {
        digits_value(s.drop_last()) * 10 + digit_value(s.last())
    }
}

/// The integer that `s` stands for in decimal, before any bound: an optional
/// sign, then at least one digit, and nothing else.
pub open spec fn signed_value(s: Seq<char>) -> Option<int> {
    if s.len() > 0 && s[0] == '-' {
        if s.len() > 1 && all_digits(s.skip(1)) {
            Some(-digits_value(s.skip(1)))
        } else {
            None
        }
    } else if s.len() > 0 && s[0] == '+' {
        if s.len() > 1 && all_digits(s.skip(1)) {
            Some(digits_value(s.skip(1)))
        } else {
            None
        }
    } else if s.len() > 0 && all_digits(s) {
        Some(digits_value(s))
    } else {
        None
    }
}

/// The 32-bit integer that `s` stands for in decimal: an optional sign, then
/// at least one digit, and nothing else; nothing where the number does not
/// fit 32 bits.
pub open spec fn parse_int(s: Seq<char>) -> Option<i32> {
    match signed_value(s) {
        Some(v) => if i32::MIN <= v <= i32::MAX {
            Some(v as i32)
        } else {
            None
        },
        None => None,
    }
}

/// The 32-bit integer that `s` stands for in decimal, as `str::parse` of std
/// reads one: an optional sign, at least one digit, nothing else, and no
/// number that does not fit.
pub fn parse_i32(s: &str) -> (r: Option<i32>)
    ensures
        r == parse_int(s@),
{
    let n = s.unicode_len();
    if n == 0 {
        return None;
    }
    let first = s.get_char(0);
    let negative = first == '-';
    let start: usize = if first == '-' || first == '+' {
        1
    } else {
        0
    };
    if start == n {
        assert(s@.skip(1).len() == 0);
        return None;
    }
    let ghost body = s@.skip(start as int);
    let mut value: i64 = 0;
    let mut i: usize = start;
    let mut overflow = false;
    assert(body.take(0) =~= Seq::<char>::empty());
    while i < n
        invariant
            start <= i <= n,
            n == s@.len(),
            start == 0 || start == 1,
            start < n,
            start == 1 <==> s@[0] == '-' || s@[0] == '+',
            negative == (s@[0] == '-'),
            body == s@.skip(start as int),
            all_digits(body.take(i - start)),
            !overflow ==> value == digits_value(body.take(i - start)) && 0 <= value <= 0x8000_0000,
            overflow ==> digits_value(body.take(i - start)) > 0x8000_0000,
        decreases n - i,
    {
        let c = s.get_char(i);
        let ghost before = body.take(i - start);
        let ghost after = body.take(i - start + 1);
        proof {
            assert(body[i - start] == c);
            assert(after.drop_last() =~= before);
            assert(after.last() == c);
        }
        if !(c >= '0' && c <= '9') {
            proof {
                if all_digits(body) {
                    assert(is_digit(body[i - start]));
                }
                if start == 0 {
                    assert(body =~= s@);
                }
            }
            return None;
        }
        assert(all_digits(after)) by {
            assert forall|k: int| 0 <= k < after.len() implies is_digit(#[trigger] after[k]) by {
                if k < before.len() {
                    assert(after[k] == before[k]);
                }
            }
        }
        let d: i64 = (c as u32 - '0' as u32) as i64;
        assert(d == digit_value(c));
        if !overflow {
            value = value * 10 + d;
            if value > 0x8000_0000 {
                overflow = true;
            }
        } else {
            assert(digits_value(after) > 0x8000_0000);
        }
        i += 1;
    }
    proof {
        assert(body.take(n - start) =~= body);
        if start == 0 {
            assert(body =~= s@);
        }
    }
    if overflow {
        return None;
    }
    if negative {
        Some((-value) as i32)
    } else if value > 0x7fff_ffff {
        None
    } else {
        Some(value as i32)
    }
}

} // verus!
