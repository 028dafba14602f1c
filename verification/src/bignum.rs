//! Arbitrary-precision natural numbers for the public-key engines.
//!
//! A [`BigNat`] holds its value as big-endian bytes, so every contract can
//! speak of the mathematical value directly.  The arithmetic itself is done
//! by `num_bigint` behind small trusted wrappers; conversions between the
//! byte form and decimal strings carry exact contracts.

use vstd::arithmetic::power::pow;
use vstd::arithmetic::power2::pow2;
use vstd::prelude::*;
use vstd::string::StringSliceAdditionalSpecFns;

verus! {

/// Value of a big-endian byte string.
pub open spec fn be_val(s: Seq<u8>) -> nat
    decreases s.len(),
{
    if s.len() == 0 {
        0
    } else {
        (be_val(s.drop_last()) * 256 + s.last()) as nat
    }
}

/// `b` raised to the power `e`, over the naturals.
pub open spec fn npow(b: nat, e: nat) -> nat {
    pow(b as int, e) as nat
}

/// `pow` never goes negative on a non-negative base, so `npow` is `pow`.
pub broadcast proof fn lemma_npow_is_pow(b: nat, e: nat)
    ensures
        #[trigger] npow(b, e) == pow(b as int, e),
    decreases e,
{
    if b > 0 {
        vstd::arithmetic::power::lemma_pow_positive(b as int, e);
    } else if e == 0 {
        vstd::arithmetic::power::lemma_pow0(b as int);
    } else {
        vstd::arithmetic::power::lemma0_pow(e);
    }
}

/// A byte string that spells a base-10 number: nonempty, all ASCII digits.
pub open spec fn is_dec_bytes(s: Seq<u8>) -> bool {
    s.len() > 0 && forall|i: int| 0 <= i < s.len() ==> 48 <= #[trigger] s[i] <= 57
}

/// Value of a base-10 ASCII byte string.
pub open spec fn dec_val(s: Seq<u8>) -> nat
    decreases s.len(),
{
    if s.len() == 0 {
        0
    } else {
        dec_val(s.drop_last()) * 10 + (if s.last() >= 48 {
            (s.last() - 48) as nat
        } else {
            0
        })
    }
}

/// A decimal digit character (judged by its low byte; together with the
/// ASCII promise on printed strings this pins the character exactly).
pub open spec fn is_dec_char(c: char) -> bool {
    48 <= c as u8 <= 57
}

/// Value of a base-10 character string.
pub open spec fn dec_val_chars(s: Seq<char>) -> nat
    decreases s.len(),
{
    if s.len() == 0 {
        0
    } else {
        dec_val_chars(s.drop_last()) * 10 + (if s.last() as u8 >= 48 {
            (s.last() as u8 - 48) as nat
        } else {
            0
        })
    }
}

/// The shape of an exported base-10 string: nonempty, every character an
/// ASCII decimal digit, spelling the value `v`.
pub open spec fn spells_decimal(s: Seq<char>, v: nat) -> bool {
    &&& s.len() >= 1
    &&& forall|i: int| 0 <= i < s.len() ==> is_dec_char(#[trigger] s[i])
    &&& vstd::utf8::is_ascii_chars(s)
    &&& dec_val_chars(s) == v
}

/// A digit-for-digit reading: a byte string that carries the low bytes of
/// a decimal character string reads the same number.
proof fn lemma_dec_val_bytes_chars(b: Seq<u8>, c: Seq<char>)
    requires
        b.len() == c.len(),
        forall|i: int| 0 <= i < c.len() ==> (#[trigger] b[i] == c[i] as u8 && is_dec_char(c[i])),
    ensures
        dec_val(b) == dec_val_chars(c),
    decreases c.len(),
{
    if c.len() > 0 {
        assert forall|i: int| 0 <= i < c.drop_last().len() implies (#[trigger] b.drop_last()[i]
            == c.drop_last()[i] as u8 && is_dec_char(c.drop_last()[i])) by {
            assert(c.drop_last()[i] == c[i]);
            assert(b.drop_last()[i] == b[i]);
        }
        lemma_dec_val_bytes_chars(b.drop_last(), c.drop_last());
        assert(b[c.len() - 1] == c[c.len() - 1] as u8 && is_dec_char(c[c.len() - 1]));
        assert(b.last() == c.last() as u8);
    }
}

/// An exported base-10 string re-parses to the number it was printed
/// from: at the byte level it is a decimal byte string with the same
/// value, so `from_decimal` and the `from_*` key constructors accept it.
pub proof fn lemma_dec_chars_reparse(s: &str, v: nat)
    requires
        spells_decimal(s@, v),
    ensures
        is_dec_bytes(s.spec_bytes()),
        dec_val(s.spec_bytes()) == v,
{
    vstd::string::is_ascii_spec_bytes(s);
    let b = s.spec_bytes();
    assert(b =~= Seq::new(s@.len(), |i: int| s@[i] as u8));
    assert forall|i: int| 0 <= i < b.len() implies 48 <= #[trigger] b[i] <= 57 by {
        assert(is_dec_char(s@[i]));
        assert(b[i] == s@[i] as u8);
    }
    assert forall|i: int| 0 <= i < s@.len() implies (#[trigger] b[i] == s@[i] as u8
        && is_dec_char(s@[i])) by {
        assert(b[i] == s@[i] as u8);
    }
    lemma_dec_val_bytes_chars(b, s@);
}

/// An arbitrary-precision natural number held as big-endian bytes.
pub struct BigNat {
    bytes: Vec<u8>,
}

impl View for BigNat {
    type V = nat;

    closed spec fn view(&self) -> nat {
        be_val(self.bytes@)
    }
}

/// A leading zero byte does not change the value.
pub proof fn lemma_be_val_drop_leading_zero(s: Seq<u8>)
    requires
        s.len() > 0,
        s[0] == 0,
    ensures
        be_val(s) == be_val(s.skip(1)),
    decreases s.len(),
{
    if s.len() == 1 {
        assert(s.skip(1) =~= Seq::<u8>::empty());
        assert(be_val(s) == be_val(s.drop_last()) * 256 + s.last());
        assert(s.drop_last() =~= Seq::<u8>::empty());
    } else {
        assert(s.drop_last()[0] == 0);
        lemma_be_val_drop_leading_zero(s.drop_last());
        assert(s.drop_last().skip(1) =~= s.skip(1).drop_last());
        assert(s.skip(1).last() == s.last());
    }
}

/// Appending a byte multiplies the value by 256 and adds the byte.
pub proof fn lemma_be_val_push(s: Seq<u8>, b: u8)
    ensures
        be_val(s.push(b)) == be_val(s) * 256 + b,
{
    assert(s.push(b).drop_last() =~= s);
    assert(s.push(b).last() == b);
}

/// A big-endian byte string with a nonzero leading byte writes a positive
/// value.
pub proof fn lemma_be_val_positive(s: Seq<u8>)
    requires
        s.len() >= 1,
        s[0] != 0,
    ensures
        be_val(s) > 0,
    decreases s.len(),
{
    if s.len() > 1 {
        assert(s.drop_last()[0] == s[0]);
        lemma_be_val_positive(s.drop_last());
    }
}

/// A big-endian byte string of length `n` writes a value below `2^(8n)`.
pub proof fn lemma_be_val_bound(s: Seq<u8>)
    ensures
        be_val(s) < pow2(8 * s.len()),
    decreases s.len(),
{
    vstd::arithmetic::power2::lemma2_to64();
    if s.len() > 0 {
        lemma_be_val_bound(s.drop_last());
        vstd::arithmetic::power2::lemma_pow2_adds(8 * (s.len() - 1) as nat, 8);
        assert(be_val(s.drop_last()) * 256 <= (pow2(8 * (s.len() - 1) as nat) - 1) * 256)
            by (nonlinear_arith)
            requires
                be_val(s.drop_last()) <= pow2(8 * (s.len() - 1) as nat) - 1,
        ;
    }
}

/// Every held value is below `2^(8 * usize::MAX)`: the bytes fit a vector.
pub proof fn lemma_bignat_bound(n: &BigNat)
    ensures
        n@ < pow2(8 * usize::MAX as nat),
{
    lemma_be_val_bound(n.bytes@);
    vstd::std_specs::vec::axiom_spec_len(&n.bytes);
    if n.bytes@.len() < usize::MAX {
        vstd::arithmetic::power2::lemma_pow2_strictly_increases(
            8 * n.bytes@.len(),
            8 * usize::MAX as nat,
        );
    }
}

impl BigNat {
    /// The number written by the given big-endian bytes.
    pub fn from_bytes_be(bytes: &[u8]) -> (r: BigNat)
        ensures
            r@ == be_val(bytes@),
    {
        let v = slice_to_vec(bytes);
        BigNat { bytes: v }
    }

    /// The value as big-endian bytes with no leading zero; `0` is one zero byte.
    pub fn to_bytes_be(&self) -> (r: Vec<u8>)
        ensures
            be_val(r@) == self@,
            r@.len() >= 1,
            r@.len() > 1 ==> r@[0] != 0,
            self@ > 0 ==> r@[0] != 0,
            self@ == 0 ==> r@.len() == 1,
    {
        let mut i: usize = 0;
        let n = self.bytes.len();
        proof {
            assert(self.bytes@.skip(0) =~= self.bytes@);
        }
        while i < n && self.bytes[i] == 0
            invariant
                0 <= i <= n,
                n == self.bytes@.len(),
                be_val(self.bytes@.skip(i as int)) == self@,
                forall|j: int| 0 <= j < i ==> self.bytes@[j] == 0,
            decreases n - i,
        {
            proof {
                lemma_be_val_drop_leading_zero(self.bytes@.skip(i as int));
                assert(self.bytes@.skip(i as int).skip(1) =~= self.bytes@.skip(i + 1));
            }
            i = i + 1;
        }
        let mut out: Vec<u8> = Vec::new();
        if i == n {
            proof {
                assert(self.bytes@.skip(i as int) =~= Seq::<u8>::empty());
            }
            out.push(0);
            proof {
                lemma_be_val_push(Seq::<u8>::empty(), 0);
                assert(out@ =~= Seq::<u8>::empty().push(0));
            }
            return out;
        }
        let mut j: usize = i;
        while j < n
            invariant
                i <= j <= n,
                n == self.bytes@.len(),
                out@ =~= self.bytes@.subrange(i as int, j as int),
            decreases n - j,
        {
            out.push(self.bytes[j]);
            proof {
                assert(out@ =~= self.bytes@.subrange(i as int, j + 1));
            }
            j = j + 1;
        }
        proof {
            assert(self.bytes@.subrange(i as int, n as int) =~= self.bytes@.skip(i as int));
            lemma_be_val_positive(out@);
        }
        out
    }

    /// The number `v`.
    pub fn from_u64(v: u64) -> (r: BigNat)
        ensures
            r@ == v,
    {
        let mut out: Vec<u8> = Vec::new();
        let mut k: usize = 0;
        proof {
            vstd::arithmetic::power2::lemma2_to64();
            vstd::arithmetic::div_mod::lemma_basic_div(v as int, pow2(64) as int);
        }
        while k < 8
            invariant
                0 <= k <= 8,
                out@.len() == k,
                be_val(out@) == v as nat / pow2(((8 - k) * 8) as nat),
            decreases 8 - k,
        {
            let sh: u64 = ((7 - k) * 8) as u64;
            let t: u64 = (v >> sh) & 0xff;
            proof {
                let shn = sh as nat;
                let w = v as nat / pow2(shn);
                vstd::arithmetic::power2::lemma2_to64();
                vstd::bits::lemma_u64_shr_is_div(v, sh);
                vstd::bits::lemma_low_bits_mask_values();
                vstd::bits::lemma_u64_low_bits_mask_is_mod(v >> sh, 8);
                assert(t == w % 256);
                vstd::arithmetic::power2::lemma_pow2_adds(shn, 8);
                vstd::arithmetic::power2::lemma_pow2_pos(shn);
                vstd::arithmetic::div_mod::lemma_div_denominator(
                    v as int,
                    pow2(shn) as int,
                    256,
                );
                vstd::arithmetic::div_mod::lemma_fundamental_div_mod(w as int, 256);
            }
            let b: u8 = t as u8;
            proof {
                lemma_be_val_push(out@, b);
                assert(be_val(out@.push(b)) == v as nat / pow2(((8 - (k + 1)) * 8) as nat));
            }
            out.push(b);
            k = k + 1;
        }
        proof {
            vstd::arithmetic::power2::lemma2_to64();
            assert(v as nat / pow2(0) == v as nat / 1);
        }
        BigNat { bytes: out }
    }

    /// A duplicate holding the same value.
    pub fn dup(&self) -> (r: BigNat)
        ensures
            r@ == self@,
    {
        BigNat { bytes: slice_to_vec(self.bytes.as_slice()) }
    }

    /// Whether two numbers are equal in value.
    pub fn equals(&self, other: &BigNat) -> (r: bool)
        ensures
            r == (self@ == other@),
    {
        eq_big(self, other)
    }

    /// Parse a base-10 ASCII string; rejects anything but plain digits.
    pub fn from_decimal(s: &str) -> (r: Option<BigNat>)
        ensures
            r is Some <==> is_dec_bytes(s.spec_bytes()),
            r is Some ==> r.unwrap()@ == dec_val(s.spec_bytes()),
    {
        let bytes = s.as_bytes();
        if bytes.len() == 0 {
            return None;
        }
        let mut i: usize = 0;
        while i < bytes.len()
            invariant
                0 <= i <= bytes@.len(),
                bytes@ == s.spec_bytes(),
                forall|j: int| 0 <= j < i ==> 48 <= #[trigger] bytes@[j] <= 57,
            decreases bytes@.len() - i,
        {
            let b = bytes[i];
            if b < 48 || b > 57 {
                return None;
            }
            i = i + 1;
        }
        Some(parse_dec_digits(s))
    }

    /// The value written in base 10, most significant digit first.  The
    /// string is ASCII, so by [`lemma_dec_chars_reparse`] feeding it back
    /// through [`BigNat::from_decimal`] recovers the value.
    pub fn to_decimal(&self) -> (r: String)
        ensures
            spells_decimal(r@, self@),
            r@.len() > 1 ==> r@[0] != '0',
    {
        to_dec_str(self)
    }
}

/// Copy a byte slice into a vector.
fn slice_to_vec(s: &[u8]) -> (r: Vec<u8>)
    ensures
        r@ == s@,
{
    let mut v: Vec<u8> = Vec::new();
    let mut i: usize = 0;
    while i < s.len()
        invariant
            0 <= i <= s@.len(),
            v@ =~= s@.subrange(0, i as int),
        decreases s@.len() - i,
    {
        v.push(s[i]);
        proof {
            assert(v@ =~= s@.subrange(0, i + 1));
        }
        i = i + 1;
    }
    proof {
        assert(s@.subrange(0, s@.len() as int) =~= s@);
    }
    v
}

/// Relies on `num_bigint::BigUint`: `+` adds, `from_bytes_be`/`to_bytes_be`
/// read and write the big-endian value.
#[verifier::external_body]
pub(crate) fn add_big(a: &BigNat, b: &BigNat) -> (r: BigNat)
    ensures
        r@ == a@ + b@,
{
    let x = num_bigint::BigUint::from_bytes_be(&a.bytes);
    let y = num_bigint::BigUint::from_bytes_be(&b.bytes);
    BigNat { bytes: (x + y).to_bytes_be() }
}

/// Relies on `num_bigint::BigUint`: `-` subtracts (panics on underflow,
/// ruled out by the precondition).
#[verifier::external_body]
pub(crate) fn sub_big(a: &BigNat, b: &BigNat) -> (r: BigNat)
    requires
        b@ <= a@,
    ensures
        r@ == a@ - b@,
{
    let x = num_bigint::BigUint::from_bytes_be(&a.bytes);
    let y = num_bigint::BigUint::from_bytes_be(&b.bytes);
    BigNat { bytes: (x - y).to_bytes_be() }
}

/// Relies on `num_bigint::BigUint`: `*` multiplies.
#[verifier::external_body]
pub(crate) fn mul_big(a: &BigNat, b: &BigNat) -> (r: BigNat)
    ensures
        r@ == a@ * b@,
{
    let x = num_bigint::BigUint::from_bytes_be(&a.bytes);
    let y = num_bigint::BigUint::from_bytes_be(&b.bytes);
    BigNat { bytes: (x * y).to_bytes_be() }
}

/// Relies on `num_bigint::BigUint`: `/` is floor division (panics on a zero
/// divisor, ruled out by the precondition).
#[verifier::external_body]
pub(crate) fn div_big(a: &BigNat, b: &BigNat) -> (r: BigNat)
    requires
        b@ > 0,
    ensures
        r@ == a@ / b@,
{
    let x = num_bigint::BigUint::from_bytes_be(&a.bytes);
    let y = num_bigint::BigUint::from_bytes_be(&b.bytes);
    BigNat { bytes: (x / y).to_bytes_be() }
}

/// Relies on `num_bigint::BigUint`: `%` is the Euclidean remainder (panics
/// on a zero divisor, ruled out by the precondition).
#[verifier::external_body]
pub(crate) fn rem_big(a: &BigNat, b: &BigNat) -> (r: BigNat)
    requires
        b@ > 0,
    ensures
        r@ == a@ % b@,
{
    let x = num_bigint::BigUint::from_bytes_be(&a.bytes);
    let y = num_bigint::BigUint::from_bytes_be(&b.bytes);
    BigNat { bytes: (x % y).to_bytes_be() }
}

/// Relies on `num_bigint::BigUint::modpow`: returns `(self ^ exponent) %
/// modulus`, panicking on a zero modulus (ruled out by the precondition).
#[verifier::external_body]
pub(crate) fn modpow_big(b: &BigNat, e: &BigNat, m: &BigNat) -> (r: BigNat)
    requires
        m@ > 0,
    ensures
        r@ == npow(b@, e@) % m@,
{
    let base = num_bigint::BigUint::from_bytes_be(&b.bytes);
    let exp = num_bigint::BigUint::from_bytes_be(&e.bytes);
    let md = num_bigint::BigUint::from_bytes_be(&m.bytes);
    BigNat { bytes: base.modpow(&exp, &md).to_bytes_be() }
}

/// Relies on `num_bigint::BigUint`'s `PartialEq`: equality of values.
#[verifier::external_body]
pub(crate) fn eq_big(a: &BigNat, b: &BigNat) -> (r: bool)
    ensures
        r == (a@ == b@),
{
    let x = num_bigint::BigUint::from_bytes_be(&a.bytes);
    let y = num_bigint::BigUint::from_bytes_be(&b.bytes);
    x == y
}

/// Relies on `num_bigint::BigUint`'s `Ord`: numeric order.
#[verifier::external_body]
pub(crate) fn lt_big(a: &BigNat, b: &BigNat) -> (r: bool)
    ensures
        r == (a@ < b@),
{
    let x = num_bigint::BigUint::from_bytes_be(&a.bytes);
    let y = num_bigint::BigUint::from_bytes_be(&b.bytes);
    x < y
}

/// The parity of a big-endian byte string is the parity of its last byte.
pub proof fn lemma_be_val_parity(s: Seq<u8>)
    requires
        s.len() >= 1,
    ensures
        be_val(s) % 2 == s.last() % 2,
{
    let v = be_val(s.drop_last());
    assert(be_val(s) == (v * 256 + s.last()) as nat);
    assert((v * 256 + s.last()) % 2 == s.last() % 2) by {
        assert((v * 256 + s.last()) as int == 2 * ((v * 128) as int) + (s.last() as int))
            by (nonlinear_arith);
        vstd::arithmetic::div_mod::lemma_mod_multiples_vanish(
            (v * 128) as int,
            s.last() as int,
            2,
        );
    }
}

/// Whether the value is even, read off the last byte.
pub(crate) fn is_even_big(a: &BigNat) -> (r: bool)
    ensures
        r == (a@ % 2 == 0),
{
    let n = a.bytes.len();
    if n == 0 {
        true
    } else {
        let b = a.bytes[n - 1];
        proof {
            lemma_be_val_parity(a.bytes@);
            assert(a.bytes@.last() == b);
        }
        b % 2 == 0
    }
}

/// Relies on `num_bigint::BigUint::from_str` (via `FromStr`): a nonempty
/// all-digit ASCII string parses to its base-10 value.
#[verifier::external_body]
fn parse_dec_digits(s: &str) -> (r: BigNat)
    requires
        is_dec_bytes(s.spec_bytes()),
    ensures
        r@ == dec_val(s.spec_bytes()),
{
    let v = <num_bigint::BigUint as core::str::FromStr>::from_str(s).expect("digits");
    BigNat { bytes: v.to_bytes_be() }
}

/// Relies on `num_bigint::BigUint::to_str_radix` with radix 10: a string
/// of ASCII digits `'0'` to `'9'`, most significant first, no leading
/// zero, `"0"` for zero.
#[verifier::external_body]
fn to_dec_str(a: &BigNat) -> (r: String)
    ensures
        spells_decimal(r@, a@),
        r@.len() > 1 ==> r@[0] != '0',
{
    let x = num_bigint::BigUint::from_bytes_be(&a.bytes);
    x.to_str_radix(10)
}

/// Relies on `num_bigint::RandBigInt::gen_biguint` over `rand::rngs::OsRng`:
/// a uniform draw of the given bit size, so below `2^bits`.
#[verifier::external_body]
pub(crate) fn rand_bits_big(bits: u64) -> (r: BigNat)
    ensures
        r@ < pow2(bits as nat),
{
    let mut rng = rand::rngs::OsRng;
    BigNat { bytes: num_bigint::RandBigInt::gen_biguint(&mut rng, bits).to_bytes_be() }
}

/// Relies on `num_bigint::RandBigInt::gen_biguint_range` over
/// `rand::rngs::OsRng`: a uniform draw in `[lo, hi)` (panics unless
/// `lo < hi`, ruled out by the precondition).
#[verifier::external_body]
pub(crate) fn rand_range_big(lo: &BigNat, hi: &BigNat) -> (r: BigNat)
    requires
        lo@ < hi@,
    ensures
        lo@ <= r@ < hi@,
{
    let mut rng = rand::rngs::OsRng;
    let l = num_bigint::BigUint::from_bytes_be(&lo.bytes);
    let h = num_bigint::BigUint::from_bytes_be(&hi.bytes);
    BigNat { bytes: num_bigint::RandBigInt::gen_biguint_range(&mut rng, &l, &h).to_bytes_be() }
}

/// `2^e` as a big number, by repeated doubling.
pub(crate) fn pow2_big(e: usize) -> (r: BigNat)
    ensures
        r@ == pow2(e as nat),
{
    let mut t = BigNat::from_u64(1);
    let mut k: usize = 0;
    proof {
        vstd::arithmetic::power2::lemma2_to64();
    }
    while k < e
        invariant
            0 <= k <= e,
            t@ == pow2(k as nat),
        decreases e - k,
    {
        t = add_big(&t, &t);
        proof {
            vstd::arithmetic::power2::lemma_pow2_unfold((k + 1) as nat);
        }
        k = k + 1;
    }
    t
}

} // verus!
