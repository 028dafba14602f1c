//! Textbook integer-factoring public-key cipher: modulus `n = p * q`,
//! fixed public exponent 65537, private exponent `d = e^-1 mod (p-1)(q-1)`.

use crate::bignum::{
    be_val, dec_val, eq_big, is_dec_bytes, modpow_big, mul_big, npow, sub_big, BigNat,
};
use crate::numeric::generate_large_prime;
use crate::numeric::mod_inverse;
use crate::CryptoError;
use vstd::arithmetic::power2::pow2;
use vstd::prelude::*;
use vstd::string::StringSliceAdditionalSpecFns;

verus! {

/// The round-trip law over two distinct primes: for every message value
/// below the modulus, raising to `e` and then to `d` modulo `n = p * q`
/// gives the value back, exactly as `encrypt` and `decrypt` compute it.
/// (At the byte level, leading zero bytes carry no value and are stripped
/// by the big-endian conversion.)
pub proof fn lemma_rsa_round_trip(p: nat, q: nat, e: nat, d: nat, m: nat)
    requires
        crate::numeric::is_prime_math(p),
        crate::numeric::is_prime_math(q),
        p != q,
        (e * d) % (((p - 1) * (q - 1)) as nat) == 1,
        m < p * q,
    ensures
        npow(npow(m, e) % (p * q), d) % (p * q) == m,
{
    crate::numeric::lemma_power_round_trip(p, q, e, d, m);
}

/// An integer-factoring keypair: full, public-only (`d` absent) or
/// private-only (`e` absent).  Immutable once created.
pub struct RSA {
    n: BigNat,
    e: Option<BigNat>,
    d: Option<BigNat>,
}

/// The arithmetic relation a freshly generated keypair satisfies for some
/// pair of odd probable primes `p` and `q`.
pub open spec fn rsa_consistent(p: nat, q: nat, n: nat, e: nat, d: nat) -> bool {
    &&& n == p * q
    &&& p >= 3
    &&& q >= 3
    &&& p % 2 == 1
    &&& q % 2 == 1
    &&& (e * d) % (((p - 1) * (q - 1)) as nat) == 1
    &&& d < ((p - 1) * (q - 1)) as nat
}

impl RSA {
    /// The modulus.
    pub closed spec fn spec_n(&self) -> nat {
        self.n@
    }

    /// The public exponent, when this half is present.
    pub closed spec fn spec_e(&self) -> Option<nat> {
        match self.e {
            Some(ref v) => Some(v@),
            None => None,
        }
    }

    /// The private exponent, when this half is present.
    pub closed spec fn spec_d(&self) -> Option<nat> {
        match self.d {
            Some(ref v) => Some(v@),
            None => None,
        }
    }

    /// Generate a keypair from two probable primes of `bit_length` bits
    /// each, with `e` fixed to 65537.
    pub fn new(bit_length: usize) -> (r: Result<RSA, CryptoError>)
        requires
            2 <= bit_length < u64::MAX,
        ensures
            r is Ok ==> r.unwrap().spec_e() == Some(65537nat),
            r is Ok ==> r.unwrap().spec_d() is Some,
            r is Ok ==> exists|p: nat, q: nat|
                #[trigger] rsa_consistent(
                    p,
                    q,
                    r.unwrap().spec_n(),
                    65537,
                    r.unwrap().spec_d().unwrap(),
                ) && pow2((bit_length - 1) as nat) <= p < pow2(bit_length as nat) && pow2(
                    (bit_length - 1) as nat,
                ) <= q < pow2(bit_length as nat),
    {
        let one = BigNat::from_u64(1);
        let p = match generate_large_prime(bit_length) {
            Ok(v) => v,
            Err(e) => { return Err(e) },
        };
        let q = match generate_large_prime(bit_length) {
            Ok(v) => v,
            Err(e) => { return Err(e) },
        };
        let n = mul_big(&p, &q);
        let phi = mul_big(&sub_big(&p, &one), &sub_big(&q, &one));
        let e = BigNat::from_u64(65537);
        proof {
            vstd::arithmetic::power2::lemma2_to64();
            if bit_length > 2 {
                vstd::arithmetic::power2::lemma_pow2_strictly_increases(
                    1,
                    (bit_length - 1) as nat,
                );
            }
            assert(p@ >= 3 && q@ >= 3);
            assert((p@ - 1) * (q@ - 1) >= 2 * 2) by (nonlinear_arith)
                requires
                    p@ >= 3 && q@ >= 3,
            ;
        }
        let d = match mod_inverse(&e, &phi) {
            Some(v) => v,
            None => { return Err(CryptoError::NoInverse) },
        };
        let result = RSA { n, e: Some(e), d: Some(d) };
        proof {
            let pp = p@;
            let qq = q@;
            assert(phi@ == ((pp - 1) * (qq - 1)) as nat);
            vstd::arithmetic::div_mod::lemma_small_mod(1, phi@);
            assert(rsa_consistent(pp, qq, result.spec_n(), 65537, result.spec_d().unwrap()));
        }
        Ok(result)
    }

    /// Build a public-only keypair from decimal strings.
    pub fn from_public_key(n: &str, e: &str) -> (r: Result<RSA, CryptoError>)
        ensures
            r is Ok <==> is_dec_bytes(n.spec_bytes()) && is_dec_bytes(e.spec_bytes()),
            r is Ok ==> r.unwrap().spec_n() == dec_val(n.spec_bytes()),
            r is Ok ==> r.unwrap().spec_e() == Some(dec_val(e.spec_bytes())),
            r is Ok ==> r.unwrap().spec_d() is None,
    {
        let nv = match BigNat::from_decimal(n) {
            Some(v) => v,
            None => { return Err(CryptoError::InvalidArgument) },
        };
        let ev = match BigNat::from_decimal(e) {
            Some(v) => v,
            None => { return Err(CryptoError::InvalidArgument) },
        };
        Ok(RSA { n: nv, e: Some(ev), d: None })
    }

    /// Build a private-only keypair from decimal strings.
    pub fn from_private_key(n: &str, d: &str) -> (r: Result<RSA, CryptoError>)
        ensures
            r is Ok <==> is_dec_bytes(n.spec_bytes()) && is_dec_bytes(d.spec_bytes()),
            r is Ok ==> r.unwrap().spec_n() == dec_val(n.spec_bytes()),
            r is Ok ==> r.unwrap().spec_d() == Some(dec_val(d.spec_bytes())),
            r is Ok ==> r.unwrap().spec_e() is None,
    {
        let nv = match BigNat::from_decimal(n) {
            Some(v) => v,
            None => { return Err(CryptoError::InvalidArgument) },
        };
        let dv = match BigNat::from_decimal(d) {
            Some(v) => v,
            None => { return Err(CryptoError::InvalidArgument) },
        };
        Ok(RSA { n: nv, e: None, d: Some(dv) })
    }

    /// Encrypt: read the bytes big-endian, raise to `e` mod `n`, write the
    /// result big-endian.  Succeeds exactly when the public half is present
    /// and the modulus is nonzero.
    pub fn encrypt(&self, data: &[u8]) -> (r: Result<Vec<u8>, CryptoError>)
        ensures
            r is Ok <==> self.spec_e() is Some && self.spec_n() > 0,
            r is Ok ==> be_val(r.unwrap()@) == npow(be_val(data@), self.spec_e().unwrap())
                % self.spec_n(),
            r is Ok ==> r.unwrap()@.len() >= 1,
            r is Ok && be_val(r.unwrap()@) > 0 ==> r.unwrap()@[0] != 0,
            r is Ok && be_val(r.unwrap()@) == 0 ==> r.unwrap()@.len() == 1,
    {
        let zero = BigNat::from_u64(0);
        let e = match &self.e {
            Some(v) => v,
            None => { return Err(CryptoError::InvalidArgument) },
        };
        if eq_big(&self.n, &zero) {
            return Err(CryptoError::InvalidArgument);
        }
        let m = BigNat::from_bytes_be(data);
        let c = modpow_big(&m, e, &self.n);
        Ok(c.to_bytes_be())
    }

    /// Decrypt: the inverse power map under `d`.  Succeeds exactly when the
    /// private half is present and the modulus is nonzero.
    pub fn decrypt(&self, data: &[u8]) -> (r: Result<Vec<u8>, CryptoError>)
        ensures
            r is Ok <==> self.spec_d() is Some && self.spec_n() > 0,
            r is Ok ==> be_val(r.unwrap()@) == npow(be_val(data@), self.spec_d().unwrap())
                % self.spec_n(),
            r is Ok ==> r.unwrap()@.len() >= 1,
            r is Ok && be_val(r.unwrap()@) > 0 ==> r.unwrap()@[0] != 0,
            r is Ok && be_val(r.unwrap()@) == 0 ==> r.unwrap()@.len() == 1,
    {
        let zero = BigNat::from_u64(0);
        let d = match &self.d {
            Some(v) => v,
            None => { return Err(CryptoError::InvalidArgument) },
        };
        if eq_big(&self.n, &zero) {
            return Err(CryptoError::InvalidArgument);
        }
        let c = BigNat::from_bytes_be(data);
        let m = modpow_big(&c, d, &self.n);
        Ok(m.to_bytes_be())
    }

    /// Whether the public half is present.
    pub fn has_public(&self) -> (r: bool)
        ensures
            r == (self.spec_e() is Some),
    {
        self.e.is_some()
    }

    /// Whether the private half is present.
    pub fn has_private(&self) -> (r: bool)
        ensures
            r == (self.spec_d() is Some),
    {
        self.d.is_some()
    }

    /// The public half `(n, e)` as decimal strings, in the exact shape
    /// [`crate::bignum::lemma_dec_chars_reparse`] needs to re-import them.
    pub fn public_key(&self) -> (r: (String, String))
        requires
            self.spec_e() is Some,
        ensures
            crate::bignum::spells_decimal(r.0@, self.spec_n()),
            crate::bignum::spells_decimal(r.1@, self.spec_e().unwrap()),
    {
        let e = match &self.e {
            Some(v) => v,
            None => { unreached() },
        };
        (self.n.to_decimal(), e.to_decimal())
    }

    /// The private half `(n, d)` as decimal strings, in the exact shape
    /// [`crate::bignum::lemma_dec_chars_reparse`] needs to re-import them.
    pub fn private_key(&self) -> (r: (String, String))
        requires
            self.spec_d() is Some,
        ensures
            crate::bignum::spells_decimal(r.0@, self.spec_n()),
            crate::bignum::spells_decimal(r.1@, self.spec_d().unwrap()),
    {
        let d = match &self.d {
            Some(v) => v,
            None => { unreached() },
        };
        (self.n.to_decimal(), d.to_decimal())
    }
}

} // verus!
