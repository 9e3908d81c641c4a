//! The fizz-buzz classification: multiples of three say Fizz, multiples
//! of five say Buzz, multiples of both say FizzBuzz, and every other
//! number names itself. The classifier comes with its inverse, a parser
//! that reads one of the three words or a decimal number back.

use vstd::prelude::*;
use vstd::string::StrSliceExecFns;

verus! {

/// What fizz-buzz makes of one number.
#[derive(Debug, PartialEq, Eq, Structural)]
pub enum FBResult {
    Fizz,
    Buzz,
    FizzBuzz,
    Num(u32),
}

/// The classification of `i`: the word for its divisibility by three and
/// five, or the number itself.
pub open spec fn fizz_buzz_spec(i: u32) -> FBResult {
    if i % 3 == 0 && i % 5 == 0 {
        FBResult::FizzBuzz
    } else if i % 3 == 0 {
        FBResult::Fizz
    } else if i % 5 == 0 {
        FBResult::Buzz
    } else {
        FBResult::Num(i)
    }
}

/// A solution without allocation.
pub fn fizz_buzz(i: u32) -> (r: FBResult)
    ensures
        r == fizz_buzz_spec(i),
{
    if i % 3 == 0 {
        if i % 5 == 0 {
            FBResult::FizzBuzz
        } else {
            FBResult::Fizz
        }
    } else if i % 5 == 0 {
        FBResult::Buzz
    } else {
        FBResult::Num(i)
    }
}

/// Why a string names no fizz-buzz value: it is neither one of the three
/// words nor a decimal number that fits in 32 bits.
#[derive(Debug, PartialEq, Eq, Structural)]
pub enum ParseFBError {
    /// The string is empty.
    Empty,
    /// The character at this position is no decimal digit.
    InvalidDigit { position: usize },
    /// The digits name a number too large for 32 bits.
    TooLarge,
}

/// Whether `c` is a decimal digit.
pub open spec fn is_digit(c: char) -> bool {
    '0' <= c && c <= '9'
}

/// The numeric value of the digit `c`.
pub open spec fn digit_val(c: char) -> int {
    c as int - 48
}

/// The number the digit string `s` names, most significant digit first.
pub open spec fn decimal_val(s: Seq<char>) -> int
    decreases s.len(),
{
    if s.len() == 0 {
        0
    } else {
        decimal_val(s.drop_last()) * 10 + digit_val(s.last())
    }
}

/// The position of the first character that is no decimal digit.
pub open spec fn first_nondigit(s: Seq<char>) -> int {
    choose|i: int|
        0 <= i < s.len() && !is_digit(#[trigger] s[i]) && (forall|j: int|
            0 <= j < i ==> is_digit(#[trigger] s[j]))
}

/// What reading a printed classification back yields: one of the three
/// words, a decimal number that fits in 32 bits, or the first reason the
/// string is neither.
pub open spec fn parse_spec(s: Seq<char>) -> Result<FBResult, ParseFBError> {
    if s == "Fizz"@ {
        Ok(FBResult::Fizz)
    } else if s == "Buzz"@ {
        Ok(FBResult::Buzz)
    } else if s == "FizzBuzz"@ {
        Ok(FBResult::FizzBuzz)
    } else if s.len() == 0 {
        Err(ParseFBError::Empty)
    } else if exists|i: int| 0 <= i < s.len() && !is_digit(#[trigger] s[i]) {
        Err(ParseFBError::InvalidDigit { position: first_nondigit(s) as usize })
    } else if decimal_val(s) > u32::MAX {
        Err(ParseFBError::TooLarge)
    } else {
        Ok(FBResult::Num(decimal_val(s) as u32))
    }
}

impl FBResult {
    /// Read a classification back from its printed form: one of the three
    /// words, or a decimal number small enough for 32 bits.
    pub fn try_from_str(value: &str) -> (r: Result<FBResult, ParseFBError>)
        ensures
            r == parse_spec(value@),
    {
        let owned = value.to_owned();
        if owned == "Fizz".to_owned() {
            return Ok(FBResult::Fizz);
        }
        if owned == "Buzz".to_owned() {
            return Ok(FBResult::Buzz);
        }
        if owned == "FizzBuzz".to_owned() {
            return Ok(FBResult::FizzBuzz);
        }
        let n = value.unicode_len();
        if n == 0 {
            return Err(ParseFBError::Empty);
        }
        let mut val: u32 = 0;
        let mut over: bool = false;
        let mut i: usize = 0;
        while i < n
            invariant
                0 <= i <= n,
                n == value@.len(),
                value@ != "Fizz"@ && value@ != "Buzz"@ && value@ != "FizzBuzz"@,
                forall|j: int| 0 <= j < i ==> is_digit(#[trigger] value@[j]),
                !over ==> val == decimal_val(value@.take(i as int)) && decimal_val(
                    value@.take(i as int),
                ) <= u32::MAX,
                over ==> decimal_val(value@.take(i as int)) > u32::MAX,
            decreases n - i,
        {
            let c = value.get_char(i);
            if c < '0' || c > '9' {
                proof {
                    assert(0 <= i < value@.len() && !is_digit(value@[i as int]) && (forall|j: int|
                        0 <= j < i ==> is_digit(#[trigger] value@[j])));
                    let w = first_nondigit(value@);
                    assert(0 <= w < value@.len() && !is_digit(value@[w]) && (forall|j: int|
                        0 <= j < w ==> is_digit(#[trigger] value@[j])));
                    assert(!(w < i) && !(i < w));
                }
                return Err(ParseFBError::InvalidDigit { position: i });
            }
            let d = (c as u32) - 48;
            proof {
                assert(value@.take(i as int + 1).drop_last() =~= value@.take(i as int));
                assert(value@.take(i as int + 1).last() == value@[i as int]);
            }
            let big = (val as u64) * 10 + (d as u64);
            if big > u32::MAX as u64 {
                over = true;
                val = 0;
            } else if !over {
                val = big as u32;
            }
            i += 1;
        }
        proof {
            assert(value@.take(n as int) =~= value@);
        }
        if over {
            Err(ParseFBError::TooLarge)
        } else {
            Ok(FBResult::Num(val))
        }
    }
}

} // verus!
