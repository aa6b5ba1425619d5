//! Integers written in a radix: an optional sign and digits.

use vstd::prelude::*;
use vstd::slice::slice_subrange;

verus! {

/// Why a text is no 32-bit integer.
#[derive(Clone, Copy, Debug, PartialEq, Eq, Structural)]
pub enum IntFault {
    /// The text is empty.
    Empty,
    /// A character is no digit of the radix, or a sign stands alone.
    InvalidDigit,
    /// The number is larger than any 32-bit integer.
    PosOverflow,
    /// The number is smaller than any 32-bit integer.
    NegOverflow,
}

impl IntFault {
    /// The message of this fault.
    pub open spec fn text(self) -> Seq<char> {
        match self {
            IntFault::Empty => "cannot parse integer from empty string"@,
            IntFault::InvalidDigit => "invalid digit found in string"@,
            IntFault::PosOverflow => "number too large to fit in target type"@,
            IntFault::NegOverflow => "number too small to fit in target type"@,
        }
    }

    /// The message of this fault.
    pub fn as_str(&self) -> (s: &'static str)
        ensures
            s@ == self.text(),
    {
        match self {
            IntFault::Empty => "cannot parse integer from empty string",
            IntFault::InvalidDigit => "invalid digit found in string",
            IntFault::PosOverflow => "number too large to fit in target type",
            IntFault::NegOverflow => "number too small to fit in target type",
        }
    }
}

/// The value of `c` as a digit of `radix`: the decimal digits count from
/// zero and the letters, in either case, from ten. A character whose value
/// is not below the radix is no digit.
pub open spec fn digit_value(c: char, radix: u32) -> Option<int> {
    let value: int = if '0' <= c <= '9' {
        c as u32 - 48
    } else if 'a' <= c <= 'z' {
        c as u32 - 87
    } else if 'A' <= c <= 'Z' {
        c as u32 - 55
    } else {
        36
    };
    if value < radix {
        Some(value)
    } else {
        None
    }
}

/// The number that `digits` spell in `radix`, negated where `negative`
/// holds, read from the left: the first character that is no digit, or with
/// which the number leaves the range of 32-bit integers, decides the fault.
pub open spec fn accumulate(digits: Seq<char>, radix: u32, negative: bool) -> Result<int, IntFault>
    decreases digits.len(),
{
    if digits.len() == 0 {
        Ok(0)
    } else {
        match accumulate(digits.drop_last(), radix, negative) {
            Err(fault) => Err(fault),
            Ok(so_far) => match digit_value(digits.last(), radix) {
                None => Err(IntFault::InvalidDigit),
                Some(digit) => {
                    let value = if negative {
                        so_far * radix - digit
                    } else {
                        so_far * radix + digit
                    };
                    if value > i32::MAX {
                        Err(IntFault::PosOverflow)
                    } else if value < i32::MIN {
                        Err(IntFault::NegOverflow)
                    } else {
                        Ok(value)
                    }
                },
            },
        }
    }
}

/// The 32-bit integer that `s` spells in `radix`: an optional `+` or `-`,
/// then at least one digit.
pub open spec fn parse_int(s: Seq<char>, radix: u32) -> Result<int, IntFault> {
    if s.len() == 0 {
        Err(IntFault::Empty)
    } else if s.len() == 1 && (s[0] == '+' || s[0] == '-') {
        Err(IntFault::InvalidDigit)
    } else if s[0] == '+' {
        accumulate(s.drop_first(), radix, false)
    } else if s[0] == '-' {
        accumulate(s.drop_first(), radix, true)
    } else {
        accumulate(s, radix, false)
    }
}

/// The number that `digits` spell in `radix`, where a character that is no
/// digit counts as zero.
pub open spec fn positional(digits: Seq<char>, radix: u32) -> int
    decreases digits.len(),
{
    if digits.len() == 0 {
        0
    } else {
        positional(digits.drop_last(), radix) * radix + match digit_value(digits.last(), radix) {
            Some(digit) => digit,
            None => 0,
        }
    }
}

/// Whether every character of `digits` is a digit of `radix`.
pub open spec fn all_digits(digits: Seq<char>, radix: u32) -> bool {
    forall|i: int| 0 <= i < digits.len() ==> digit_value(#[trigger] digits[i], radix) is Some
}

/// Reading digits succeeds exactly where every character is a digit and the
/// number they spell, with its sign, is a 32-bit integer; the result is that
/// number.
pub proof fn lemma_accumulate(digits: Seq<char>, radix: u32, negative: bool)
    requires
        2 <= radix <= 36,
    ensures
        positional(digits, radix) >= 0,
        accumulate(digits, radix, negative) is Ok <==> all_digits(digits, radix) && (if negative {
            -positional(digits, radix) >= i32::MIN
        } else {
            positional(digits, radix) <= i32::MAX
        }),
        accumulate(digits, radix, negative) is Ok ==> accumulate(digits, radix, negative)->Ok_0
            == (if negative {
            -positional(digits, radix)
        } else {
            positional(digits, radix)
        }),
    decreases digits.len(),
{
    if digits.len() > 0 {
        let front = digits.drop_last();
        lemma_accumulate(front, radix, negative);
        let p = positional(front, radix);
        let d: int = match digit_value(digits.last(), radix) {
            Some(digit) => digit,
            None => 0,
        };
        assert(0 <= d < radix);
        assert(positional(digits, radix) == p * radix + d);
        assert(p * radix >= p && p * radix >= 0 && (-p) * radix == -(p * radix))
            by (nonlinear_arith)
            requires
                p >= 0,
                radix >= 2,
        ;
        assert(all_digits(digits, radix) <==> all_digits(front, radix) && digit_value(
            digits.last(),
            radix,
        ) is Some) by {
            if all_digits(digits, radix) {
                assert forall|i: int| 0 <= i < front.len() implies digit_value(
                    #[trigger] front[i],
                    radix,
                ) is Some by {
                    assert(front[i] == digits[i]);
                }
                assert(digits.last() == digits[digits.len() - 1]);
            }
            if all_digits(front, radix) && digit_value(digits.last(), radix) is Some {
                assert forall|i: int| 0 <= i < digits.len() implies digit_value(
                    #[trigger] digits[i],
                    radix,
                ) is Some by {
                    if i < front.len() {
                        assert(front[i] == digits[i]);
                    }
                }
            }
        }
    }
}

/// The value of `c` as a digit of `radix`.
pub fn to_digit(c: char, radix: u32) -> (r: Option<u32>)
    requires
        2 <= radix <= 36,
    ensures
        match r {
            Some(value) => digit_value(c, radix) == Some(value as int),
            None => digit_value(c, radix) is None,
        },
{
    let value: u32 = if '0' <= c && c <= '9' {
        c as u32 - 48
    } else if 'a' <= c && c <= 'z' {
        c as u32 - 87
    } else if 'A' <= c && c <= 'Z' {
        c as u32 - 55
    } else {
        36
    };
    if value < radix {
        Some(value)
    } else {
        None
    }
}

/// The number that `digits` spell in `radix`, negated where `negative`
/// holds.
fn read_digits(digits: &[char], radix: u32, negative: bool) -> (r: Result<i32, IntFault>)
    requires
        2 <= radix <= 36,
    ensures
        match r {
            Ok(value) => accumulate(digits@, radix, negative) == Ok::<int, IntFault>(value as int),
            Err(fault) => accumulate(digits@, radix, negative) == Err::<int, IntFault>(fault),
        },
{
    let mut so_far: i64 = 0;
    let mut i: usize = 0;
    while i < digits.len()
        invariant
            i <= digits.len(),
            2 <= radix <= 36,
            i32::MIN <= so_far <= i32::MAX,
            accumulate(digits@.take(i as int), radix, negative) == Ok::<int, IntFault>(
                so_far as int,
            ),
        decreases digits.len() - i,
    {
        let ghost front = digits@.take(i + 1);
        assert(front.drop_last() =~= digits@.take(i as int));
        assert(front.last() == digits@[i as int]);
        assert(-0x8000_0000 * 36 <= so_far * radix <= 0x8000_0000 * 36) by (nonlinear_arith)
            requires
                -0x8000_0000 <= so_far <= 0x8000_0000,
                0 <= radix <= 36,
        ;
        let digit = match to_digit(digits[i], radix) {
            Some(digit) => digit,
            None => {
                proof {
                    lemma_fault_stays(digits@, i + 1, radix, negative);
                }
                return Err(IntFault::InvalidDigit);
            },
        };
        let value = if negative {
            so_far * (radix as i64) - (digit as i64)
        } else {
            so_far * (radix as i64) + (digit as i64)
        };
        if value > 0x7fff_ffff {
            proof {
                lemma_fault_stays(digits@, i + 1, radix, negative);
            }
            return Err(IntFault::PosOverflow);
        }
        if value < -0x8000_0000 {
            proof {
                lemma_fault_stays(digits@, i + 1, radix, negative);
            }
            return Err(IntFault::NegOverflow);
        }
        so_far = value;
        i += 1;
    }
    assert(digits@.take(i as int) =~= digits@);
    Ok(so_far as i32)
}

/// A fault in the first `n` characters is the fault of the whole.
proof fn lemma_fault_stays(digits: Seq<char>, n: int, radix: u32, negative: bool)
    requires
        0 <= n <= digits.len(),
        accumulate(digits.take(n), radix, negative) is Err,
    ensures
        accumulate(digits, radix, negative) == accumulate(digits.take(n), radix, negative),
    decreases digits.len() - n,
{
    if n < digits.len() {
        assert(digits.take(n + 1).drop_last() =~= digits.take(n));
        lemma_fault_stays(digits, n + 1, radix, negative);
    } else {
        assert(digits.take(n) =~= digits);
    }
}

/// The 32-bit integer that `s` spells in `radix`.
pub fn parse_radix(s: &[char], radix: u32) -> (r: Result<i32, IntFault>)
    requires
        2 <= radix <= 36,
    ensures
        match r {
            Ok(value) => parse_int(s@, radix) == Ok::<int, IntFault>(value as int),
            Err(fault) => parse_int(s@, radix) == Err::<int, IntFault>(fault),
        },
{
    if s.len() == 0 {
        return Err(IntFault::Empty);
    }
    let first = s[0];
    if s.len() == 1 && (first == '+' || first == '-') {
        return Err(IntFault::InvalidDigit);
    }
    if first == '+' || first == '-' {
        let digits = slice_subrange(s, 1, s.len());
        assert(digits@ =~= s@.drop_first());
        read_digits(digits, radix, first == '-')
    } else {
        read_digits(s, radix, false)
    }
}

} // verus!
