//! A Dutch personal identification number (burgerservicenummer): eight or
//! nine decimal digits that pass the 11-test.
//!
//! The 11-test weighs each digit by `9 - position`; a ninth digit counts
//! negatively, which the weight 10 expresses here, since 10 and -1 agree
//! modulo 11. A number is valid when the weighted sum is divisible by 11.

use vstd::prelude::*;
use vstd::string::StringSliceAdditionalSpecFns;
use vstd::utf8::encode_utf8;

verus! {

/// Why a candidate string is no valid identification number.
#[derive(Debug, PartialEq, Eq, Structural)]
pub enum Error {
    /// Invalid length: the number consists of 8 or 9 digits.
    InvalidBsnLength(usize),
    /// Invalid character: every digit is 0 - 9. Carries the first offending
    /// byte and its position.
    InvalidBsnDigit { position: usize, digit: u8 },
    /// The 11-test failed.
    Failed11Check,
}

/// Whether the byte `b` is an ASCII decimal digit.
pub open spec fn is_digit_byte(b: u8) -> bool {
    48 <= b && b <= 57
}

/// The weight of the digit at `pos`: `9 - pos`, with the ninth digit
/// weighted 10, which stands for the usual subtraction since 10 and -1
/// agree modulo 11.
pub open spec fn digit_weight(pos: int) -> int {
    if pos == 8 {
        10
    } else {
        9 - pos
    }
}

/// The weighted digit sum of the first `n` bytes.
pub open spec fn checksum_upto(bytes: Seq<u8>, n: int) -> int
    decreases n,
{
    if n <= 0 {
        0
    } else {
        checksum_upto(bytes, n - 1) + (bytes[n - 1] - 48) * digit_weight(n - 1)
    }
}

/// Whether `bytes` spells a valid identification number: eight or nine
/// decimal digits whose weighted sum is divisible by 11.
pub open spec fn valid_bsn(bytes: Seq<u8>) -> bool {
    &&& (bytes.len() == 8 || bytes.len() == 9)
    &&& forall|i: int| 0 <= i < bytes.len() ==> is_digit_byte(#[trigger] bytes[i])
    &&& checksum_upto(bytes, bytes.len() as int) % 11 == 0
}

/// A valid BSN (burgerservicenummer), a Dutch personal identification
/// number similar to the US Social Security Number.
#[derive(Debug, PartialEq, Eq, Clone)]
pub struct Bsn {
    inner: String,
}

impl View for Bsn {
    type V = Seq<char>;

    /// The digits as they were written.
    closed spec fn view(&self) -> Seq<char> {
        self.inner@
    }
}

impl Bsn {
    /// The stored text spells a valid number.
    pub closed spec fn wf(&self) -> bool {
        valid_bsn(encode_utf8(self.inner@))
    }

    /// Try to create a new BSN. Returns `Err` if the passed string does
    /// not represent a valid BSN; the error says what was wrong.
    pub fn try_from_string(bsn: String) -> (r: Result<Self, Error>)
        ensures
            valid_bsn(encode_utf8(bsn@)) <==> (r matches Ok(b) && b@ == bsn@ && b.wf()),
            !valid_bsn(encode_utf8(bsn@)) ==> r == Err::<Bsn, Error>(Self::validate_error(
                encode_utf8(bsn@),
            )),
    {
        match Self::validate(bsn.as_str()) {
            Ok(()) => Ok(Bsn { inner: bsn }),
            Err(e) => Err(e),
        }
    }

    /// The error `validate` reports for an invalid candidate: a wrong
    /// length first, then the first byte that is no digit, then the failed
    /// 11-test.
    pub open spec fn validate_error(bytes: Seq<u8>) -> Error {
        if bytes.len() != 8 && bytes.len() != 9 {
            Error::InvalidBsnLength(bytes.len() as usize)
        } else if exists|i: int| 0 <= i < bytes.len() && !is_digit_byte(#[trigger] bytes[i]) {
            let p = Self::first_bad_digit(bytes);
            Error::InvalidBsnDigit { position: p as usize, digit: bytes[p] }
        } else {
            Error::Failed11Check
        }
    }

    /// The position of the first byte that is no decimal digit.
    pub open spec fn first_bad_digit(bytes: Seq<u8>) -> int {
        choose|i: int|
            0 <= i < bytes.len() && !is_digit_byte(#[trigger] bytes[i]) && (forall|j: int|
                0 <= j < i ==> is_digit_byte(#[trigger] bytes[j]))
    }

    /// Check whether the passed string represents a valid BSN: `Ok` if and
    /// only if it does, and otherwise the error naming the first failure.
    pub fn validate(bsn: &str) -> (r: Result<(), Error>)
        ensures
            r is Ok <==> valid_bsn(bsn.spec_bytes()),
            r is Err ==> r == Err::<(), Error>(Self::validate_error(bsn.spec_bytes())),
    {
        let bytes = bsn.as_bytes();
        let ghost bs = bsn.spec_bytes();

        let n = bytes.len();
        if n != 8 && n != 9 {
            return Err(Error::InvalidBsnLength(n));
        }

        let mut checksum: u32 = 0;
        let mut pos: usize = 0;
        while pos < n
            invariant
                0 <= pos <= n,
                bs == bsn.spec_bytes(),
                n == bs.len(),
                n == 8 || n == 9,
                bytes@ == bs,
                forall|j: int| 0 <= j < pos ==> is_digit_byte(#[trigger] bs[j]),
                checksum == checksum_upto(bs, pos as int),
                checksum <= 90 * pos,
            decreases n - pos,
        {
            let d = bytes[pos];
            if d < 48 || d > 57 {
                proof {
                    assert(0 <= pos < bs.len() && !is_digit_byte(bs[pos as int]) && (forall|j: int|
                        0 <= j < pos ==> is_digit_byte(#[trigger] bs[j])));
                    let w = Self::first_bad_digit(bs);
                    assert(0 <= w < bs.len() && !is_digit_byte(bs[w]) && (forall|j: int|
                        0 <= j < w ==> is_digit_byte(#[trigger] bs[j])));
                    assert(!(w < pos) && !(pos < w));
                }
                return Err(Error::InvalidBsnDigit { position: pos, digit: d });
            }
            let weight: u32 = if pos == 8 {
                10
            } else {
                9 - (pos as u32)
            };
            proof {
                assert((d - 48) * weight <= 90) by (nonlinear_arith)
                    requires
                        48 <= d <= 57,
                        weight <= 10,
                ;
            }
            let term = ((d - 48) as u32) * weight;
            checksum = checksum + term;
            pos += 1;
        }
        if checksum % 11 != 0 {
            return Err(Error::Failed11Check);
        }

        Ok(())
    }
}

} // verus!
