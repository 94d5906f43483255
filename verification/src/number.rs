//! Unsigned 16-bit integers in decimal notation.

use vstd::prelude::*;
use crate::text::push_char;

verus! {

/// Why a text is not the decimal notation of an unsigned 16-bit integer.
#[derive(Clone, Copy, Debug, PartialEq, Eq, Structural)]
pub enum IntegerFault {
    /// The text is empty.
    Empty,
    /// The text holds something else than an optional `+` and one or more
    /// decimal digits.
    InvalidDigit,
    /// The digits stand for a number above 65535.
    Overflow,
}

/// Whether `c` is one of `0` to `9`.
pub open spec fn is_digit(c: char) -> bool {
    0x30 <= c as u32 <= 0x39
}

/// The number that the digit `c` stands for.
pub open spec fn digit_value(c: char) -> int {
    c as u32 - 0x30
}

/// Whether `s` consists of decimal digits only.
pub open spec fn all_digits(s: Seq<char>) -> bool {
    forall|i: int| 0 <= i < s.len() ==> is_digit(#[trigger] s[i])
}

/// The number that the digits of `s` stand for, the last digit counting
/// least.
pub open spec fn digits_value(s: Seq<char>) -> int
    decreases s.len(),
{
    if s.len() == 0 {
        0
    } else {
        digits_value(s.drop_last()) * 10 + digit_value(s.last())
    }
}

/// The text without a leading `+`.
pub open spec fn unsigned_part(s: Seq<char>) -> Seq<char> {
    if s.len() > 0 && s[0] == '+' {
        s.drop_first()
    } else {
        s
    }
}

/// The unsigned 16-bit integer that `s` denotes: an optional `+`, then one
/// or more decimal digits whose number is at most 65535.
pub open spec fn parse_u16(s: Seq<char>) -> Result<u16, IntegerFault> {
    let digits = unsigned_part(s);
    if s.len() == 0 {
        Err(IntegerFault::Empty)
    } else if digits.len() == 0 || !all_digits(digits) {
        Err(IntegerFault::InvalidDigit)
    } else if digits_value(digits) > u16::MAX {
        Err(IntegerFault::Overflow)
    } else {
        Ok(digits_value(digits) as u16)
    }
}

/// The digit for a number below ten.
pub open spec fn digit_char(d: nat) -> char {
    if d == 0 {
        '0'
    } else if d == 1 {
        '1'
    } else if d == 2 {
        '2'
    } else if d == 3 {
        '3'
    } else if d == 4 {
        '4'
    } else if d == 5 {
        '5'
    } else if d == 6 {
        '6'
    } else if d == 7 {
        '7'
    } else if d == 8 {
        '8'
    } else {
        '9'
    }
}

/// The decimal notation of `n`, without sign and without leading zeros.
pub open spec fn decimal(n: nat) -> Seq<char>
    decreases n,
{
    if n < 10 {
        seq![digit_char(n)]
    } else {
        decimal(n / 10).push(digit_char(n % 10))
    }
}

/// A number of digits is at least ten times the number of all but its last.
proof fn lemma_digits_value_grows(s: Seq<char>)
    requires
        all_digits(s),
    ensures
        0 <= digits_value(s),
        s.len() > 0 ==> digits_value(s) >= 10 * digits_value(s.drop_last()),
    decreases s.len(),
{
    if s.len() > 0 {
        assert(is_digit(s[s.len() - 1]));
        assert forall|i: int| 0 <= i < s.drop_last().len() implies is_digit(
            #[trigger] s.drop_last()[i],
        ) by {
            assert(s.drop_last()[i] == s[i]);
        }
        lemma_digits_value_grows(s.drop_last());
    }
}

/// Reads an unsigned 16-bit integer in decimal notation.
pub fn parse_u16_text(s: &str) -> (r: Result<u16, IntegerFault>)
    ensures
        r == parse_u16(s@),
{
    let n = s.unicode_len();
    if n == 0 {
        return Err(IntegerFault::Empty);
    }
    let digits: &str = if s.get_char(0) == '+' {
        s.substring_char(1, n)
    } else {
        s
    };
    assert(digits@ == unsigned_part(s@));
    let mut value: u32 = 0;
    let mut valid = true;
    let mut large = false;
    let mut any = false;
    for c in it: digits.chars()
        invariant
            it.seq() == digits@,
            any == (it.index() > 0),
            valid == all_digits(digits@.take(it.index() as int)),
            valid && !large ==> value == digits_value(digits@.take(it.index() as int)) && value
                <= u16::MAX,
            valid && large ==> digits_value(digits@.take(it.index() as int)) > u16::MAX,
    {
        let ghost before = digits@.take(it.index() as int);
        let ghost now = digits@.take(it.index() + 1);
        assert(now.drop_last() == before);
        assert(now.last() == c);
        let code: u32 = c as u32;
        if code < 0x30 || code > 0x39 {
            valid = false;
        } else if valid {
            assert(all_digits(now)) by {
                assert forall|i: int| 0 <= i < now.len() implies is_digit(#[trigger] now[i]) by {
                    if i < before.len() {
                        assert(before[i] == now[i]);
                    }
                }
            }
            proof {
                lemma_digits_value_grows(now);
            }
            if !large {
                value = value * 10 + (code - 0x30);
                if value > 0xFFFF {
                    large = true;
                }
            }
        }
        if !valid {
            assert(!all_digits(now)) by {
                if all_digits(now) {
                    assert(is_digit(now[now.len() - 1]));
                    assert forall|i: int| 0 <= i < before.len() implies is_digit(
                        #[trigger] before[i],
                    ) by {
                        assert(before[i] == now[i]);
                    }
                }
            }
        }
        any = true;
    }
    assert(digits@.take(digits@.len() as int) == digits@);
    if !any || !valid {
        Err(IntegerFault::InvalidDigit)
    } else if large {
        Err(IntegerFault::Overflow)
    } else {
        Ok(value as u16)
    }
}

/// The digit for `d`.
fn digit_of(d: u16) -> (c: char)
    requires
        d < 10,
    ensures
        c == digit_char(d as nat),
{
    match d {
        0 => '0',
        1 => '1',
        2 => '2',
        3 => '3',
        4 => '4',
        5 => '5',
        6 => '6',
        7 => '7',
        8 => '8',
        _ => '9',
    }
}

/// Writes `n` in decimal notation.
pub fn decimal_text(n: u16) -> (r: String)
    ensures
        r@ == decimal(n as nat),
    decreases n,
{
    let mut out = if n >= 10 {
        decimal_text(n / 10)
    } else {
        String::new()
    };
    push_char(&mut out, digit_of(n % 10));
    assert(Seq::<char>::empty().push(digit_char(n as nat)) == seq![digit_char(n as nat)]);
    out
}

/// The decimal notation of a number consists of digits that stand for it.
pub proof fn lemma_decimal_digits(n: nat)
    ensures
        decimal(n).len() >= 1,
        all_digits(decimal(n)),
        digits_value(decimal(n)) == n,
    decreases n,
{
    if n < 10 {
        let s = seq![digit_char(n)];
        assert(s.drop_last() == Seq::<char>::empty());
        assert(digits_value(s.drop_last()) == 0);
    } else {
        lemma_decimal_digits(n / 10);
        let s = decimal(n);
        assert(s.drop_last() == decimal(n / 10));
        assert(s.last() == digit_char(n % 10));
        assert forall|i: int| 0 <= i < s.len() implies is_digit(#[trigger] s[i]) by {
            if i < s.len() - 1 {
                assert(s[i] == decimal(n / 10)[i]);
            }
        }
    }
}

/// Reading the decimal notation of a number gives the number back.
pub proof fn lemma_parse_decimal(n: u16)
    ensures
        parse_u16(decimal(n as nat)) == Ok::<u16, IntegerFault>(n),
{
    lemma_decimal_digits(n as nat);
    assert(is_digit(decimal(n as nat)[0]));
}

} // verus!
