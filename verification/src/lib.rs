//! Classical cryptographic primitives: a 128-bit block cipher with seven
//! modes of operation, a textbook integer-factoring public-key cipher, and a
//! discrete-log public-key scheme over a safe prime with signatures.

use vstd::prelude::*;
use vstd::string::StringSliceAdditionalSpecFns;

pub mod aes;
pub mod bignum;
pub mod numeric;
pub mod elgamal;
pub mod rsa;

verus! {

/// Error kinds the core distinguishes.
#[derive(Clone, Copy, Debug, PartialEq, Eq, Structural)]
pub enum CryptoError {
    /// Malformed input: bad decimal string, wrong buffer length, or an
    /// operation invoked on a keypair lacking the requisite half.
    InvalidArgument,
    /// No modular inverse exists for the given operands.
    NoInverse,
    /// The random search gave up after exhausting its draw budget.
    Internal,
}

/// An ASCII hex digit, either case.
pub open spec fn is_hex_digit(b: u8) -> bool {
    (48 <= b <= 57) || (97 <= b <= 102) || (65 <= b <= 70)
}

/// The value of an ASCII hex digit.
pub open spec fn hex_val(b: u8) -> nat {
    if 48 <= b <= 57 {
        (b - 48) as nat
    } else if 97 <= b <= 102 {
        (b - 87) as nat
    } else if 65 <= b <= 70 {
        (b - 55) as nat
    } else {
        0
    }
}

/// Parse a 32-character hex string into 16 key bytes.  Anything shorter,
/// longer, or holding a non-hex character is a hard error.
pub fn hex_to_bytes(s: &str) -> (r: Result<Vec<u8>, CryptoError>)
    ensures
        r is Ok <==> s.spec_bytes().len() == 32 && (forall|i: int|
            0 <= i < 32 ==> is_hex_digit(#[trigger] s.spec_bytes()[i])),
        r is Ok ==> r.unwrap()@.len() == 16,
        r is Ok ==> forall|i: int|
            0 <= i < 16 ==> #[trigger] r.unwrap()@[i] == hex_val(s.spec_bytes()[2 * i]) * 16
                + hex_val(s.spec_bytes()[2 * i + 1]),
{
    let bytes = s.as_bytes();
    if bytes.len() != 32 {
        return Err(CryptoError::InvalidArgument);
    }
    let mut i: usize = 0;
    while i < 32
        invariant
            0 <= i <= 32,
            bytes@ == s.spec_bytes(),
            bytes@.len() == 32,
            forall|j: int| 0 <= j < i ==> is_hex_digit(#[trigger] bytes@[j]),
        decreases 32 - i,
    {
        let b = bytes[i];
        let digit = (48 <= b && b <= 57) || (97 <= b && b <= 102) || (65 <= b && b <= 70);
        if !digit {
            return Err(CryptoError::InvalidArgument);
        }
        i = i + 1;
    }
    let mut out: Vec<u8> = Vec::new();
    let mut k: usize = 0;
    while k < 16
        invariant
            0 <= k <= 16,
            bytes@ == s.spec_bytes(),
            bytes@.len() == 32,
            forall|j: int| 0 <= j < 32 ==> is_hex_digit(#[trigger] bytes@[j]),
            out@.len() == k,
            forall|j: int|
                0 <= j < k ==> #[trigger] out@[j] == hex_val(bytes@[2 * j]) * 16 + hex_val(
                    bytes@[2 * j + 1],
                ),
        decreases 16 - k,
    {
        let hi = hex_digit_value(bytes[2 * k]);
        let lo = hex_digit_value(bytes[2 * k + 1]);
        out.push(hi * 16 + lo);
        k = k + 1;
    }
    Ok(out)
}

/// The numeric value of one hex digit byte.
fn hex_digit_value(b: u8) -> (r: u8)
    requires
        is_hex_digit(b),
    ensures
        r == hex_val(b),
        r < 16,
{
    if 48 <= b && b <= 57 {
        b - 48
    } else if 97 <= b && b <= 102 {
        b - 87
    } else {
        b - 55
    }
}

} // verus!
