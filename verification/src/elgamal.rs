//! Discrete-log public-key scheme over a safe prime: key generation,
//! encryption and decryption, and the signature scheme that works modulo the
//! subgroup order `q = (p - 1) / 2`.

use crate::bignum::{
    add_big, dec_val, div_big, eq_big, is_dec_bytes, lt_big, modpow_big, mul_big, npow,
    rand_range_big, rem_big, sub_big, BigNat,
};
use crate::numeric::{
    find_generator, generate_safe_prime, half_of, is_prime_math, lemma_prime_gcd_is_one,
    mod_inverse, spec_gcd, MAX_DRAWS,
};
use crate::CryptoError;
use vstd::arithmetic::div_mod::{
    lemma_mul_mod_noop_left, lemma_mul_mod_noop_right, lemma_small_mod,
};
use vstd::arithmetic::power::{lemma_pow_mod_noop, lemma_pow_multiplies, pow};
use vstd::arithmetic::power2::pow2;
use vstd::prelude::*;
use vstd::string::StringSliceAdditionalSpecFns;
use sha2::Digest;

verus! {

/// A discrete-log keypair: safe prime `p`, generator `g`, public value
/// `y = g^x mod p`, and (when present) the private exponent `x`.
pub struct ElGamalKeys {
    p: BigNat,
    g: BigNat,
    y: BigNat,
    x: Option<BigNat>,
}

/// An encryption result: the pair `(c1, c2)`.
pub struct ElGamalCiphertext {
    pub c1: BigNat,
    pub c2: BigNat,
}

/// A signature: the pair `(r, s)` with `0 < r < p` and `0 < s < q`.
pub struct ElGamalSignature {
    pub r: BigNat,
    pub s: BigNat,
}

/// What the group parameters of a well-formed keypair satisfy.
pub open spec fn group_well_formed(p: nat, g: nat) -> bool {
    &&& p > 4
    &&& p % 2 == 1
    &&& half_of(p) % 2 == 1
    &&& 2 <= g <= p - 3
    &&& npow(g, half_of(p)) % p != 1
}

/// The exact acceptance condition of signature verification.
pub open spec fn verify_accepts(p: nat, g: nat, y: nat, h: nat, r: nat, s: nat) -> bool {
    &&& 0 < r < p
    &&& 0 < s < half_of(p)
    &&& npow(g, h) % p == ((npow(y, r) % p) * (npow(r, s) % p)) % p
}

impl ElGamalKeys {
    /// The prime modulus.
    pub closed spec fn spec_p(&self) -> nat {
        self.p@
    }

    /// The generator.
    pub closed spec fn spec_g(&self) -> nat {
        self.g@
    }

    /// The public value.
    pub closed spec fn spec_y(&self) -> nat {
        self.y@
    }

    /// The private exponent, when this half is present.
    pub closed spec fn spec_x(&self) -> Option<nat> {
        match self.x {
            Some(ref v) => Some(v@),
            None => None,
        }
    }

    /// Generate a keypair: a safe prime `p` of `bit_length + 1` bits, a
    /// generator outside the trivial subgroup, and a random private
    /// exponent `x` in `[1, q)` with `y = g^x mod p`.
    pub fn new(bit_length: usize) -> (r: Result<ElGamalKeys, CryptoError>)
        requires
            2 <= bit_length < u64::MAX,
        ensures
            r is Ok ==> group_well_formed(r.unwrap().spec_p(), r.unwrap().spec_g()),
            r is Ok ==> pow2(bit_length as nat) < r.unwrap().spec_p() < pow2(
                (bit_length + 1) as nat,
            ),
            r is Ok ==> r.unwrap().spec_x() is Some,
            r is Ok ==> 1 <= r.unwrap().spec_x().unwrap() < half_of(r.unwrap().spec_p()),
            r is Ok ==> r.unwrap().spec_y() == npow(
                r.unwrap().spec_g(),
                r.unwrap().spec_x().unwrap(),
            ) % r.unwrap().spec_p(),
    {
        let one = BigNat::from_u64(1);
        let two = BigNat::from_u64(2);
        let p = match generate_safe_prime(bit_length) {
            Ok(v) => v,
            Err(e) => { return Err(e) },
        };
        let q = div_big(&sub_big(&p, &one), &two);
        proof {
            vstd::arithmetic::power2::lemma2_to64();
            if bit_length > 2 {
                vstd::arithmetic::power2::lemma_pow2_strictly_increases(
                    1,
                    (bit_length - 1) as nat,
                );
            }
            assert(q@ == half_of(p@));
            assert(q@ >= 2);
        }
        let g = match find_generator(&p, &q) {
            Ok(v) => v,
            Err(e) => { return Err(e) },
        };
        let x = rand_range_big(&one, &q);
        let y = modpow_big(&g, &x, &p);
        let result = ElGamalKeys { p, g, y, x: Some(x) };
        proof {
            assert(group_well_formed(result.spec_p(), result.spec_g()));
        }
        Ok(result)
    }

    /// Build a full keypair from decimal strings.
    pub fn from_params(p: &str, g: &str, y: &str, x: &str) -> (r: Result<
        ElGamalKeys,
        CryptoError,
    >)
        ensures
            r is Ok <==> is_dec_bytes(p.spec_bytes()) && is_dec_bytes(g.spec_bytes())
                && is_dec_bytes(y.spec_bytes()) && is_dec_bytes(x.spec_bytes()),
            r is Ok ==> r.unwrap().spec_p() == dec_val(p.spec_bytes()),
            r is Ok ==> r.unwrap().spec_g() == dec_val(g.spec_bytes()),
            r is Ok ==> r.unwrap().spec_y() == dec_val(y.spec_bytes()),
            r is Ok ==> r.unwrap().spec_x() == Some(dec_val(x.spec_bytes())),
    {
        let pv = match BigNat::from_decimal(p) {
            Some(v) => v,
            None => { return Err(CryptoError::InvalidArgument) },
        };
        let gv = match BigNat::from_decimal(g) {
            Some(v) => v,
            None => { return Err(CryptoError::InvalidArgument) },
        };
        let yv = match BigNat::from_decimal(y) {
            Some(v) => v,
            None => { return Err(CryptoError::InvalidArgument) },
        };
        let xv = match BigNat::from_decimal(x) {
            Some(v) => v,
            None => { return Err(CryptoError::InvalidArgument) },
        };
        Ok(ElGamalKeys { p: pv, g: gv, y: yv, x: Some(xv) })
    }

    /// Build a public-only keypair from decimal strings.
    pub fn from_public_params(p: &str, g: &str, y: &str) -> (r: Result<ElGamalKeys, CryptoError>)
        ensures
            r is Ok <==> is_dec_bytes(p.spec_bytes()) && is_dec_bytes(g.spec_bytes())
                && is_dec_bytes(y.spec_bytes()),
            r is Ok ==> r.unwrap().spec_p() == dec_val(p.spec_bytes()),
            r is Ok ==> r.unwrap().spec_g() == dec_val(g.spec_bytes()),
            r is Ok ==> r.unwrap().spec_y() == dec_val(y.spec_bytes()),
            r is Ok ==> r.unwrap().spec_x() is None,
    {
        let pv = match BigNat::from_decimal(p) {
            Some(v) => v,
            None => { return Err(CryptoError::InvalidArgument) },
        };
        let gv = match BigNat::from_decimal(g) {
            Some(v) => v,
            None => { return Err(CryptoError::InvalidArgument) },
        };
        let yv = match BigNat::from_decimal(y) {
            Some(v) => v,
            None => { return Err(CryptoError::InvalidArgument) },
        };
        Ok(ElGamalKeys { p: pv, g: gv, y: yv, x: None })
    }

    /// Build a full keypair from the private parameters, recomputing
    /// `y = g^x mod p`; the modulus must be nonzero.
    pub fn from_private_params(p: &str, g: &str, x: &str) -> (r: Result<ElGamalKeys, CryptoError>)
        ensures
            r is Ok <==> is_dec_bytes(p.spec_bytes()) && is_dec_bytes(g.spec_bytes())
                && is_dec_bytes(x.spec_bytes()) && dec_val(p.spec_bytes()) > 0,
            r is Ok ==> r.unwrap().spec_p() == dec_val(p.spec_bytes()),
            r is Ok ==> r.unwrap().spec_g() == dec_val(g.spec_bytes()),
            r is Ok ==> r.unwrap().spec_x() == Some(dec_val(x.spec_bytes())),
            r is Ok ==> r.unwrap().spec_y() == npow(
                dec_val(g.spec_bytes()),
                dec_val(x.spec_bytes()),
            ) % dec_val(p.spec_bytes()),
    {
        let zero = BigNat::from_u64(0);
        let pv = match BigNat::from_decimal(p) {
            Some(v) => v,
            None => { return Err(CryptoError::InvalidArgument) },
        };
        let gv = match BigNat::from_decimal(g) {
            Some(v) => v,
            None => { return Err(CryptoError::InvalidArgument) },
        };
        let xv = match BigNat::from_decimal(x) {
            Some(v) => v,
            None => { return Err(CryptoError::InvalidArgument) },
        };
        if eq_big(&pv, &zero) {
            return Err(CryptoError::InvalidArgument);
        }
        let yv = modpow_big(&gv, &xv, &pv);
        Ok(ElGamalKeys { p: pv, g: gv, y: yv, x: Some(xv) })
    }

    /// Whether the private exponent is present.
    pub fn has_private(&self) -> (r: bool)
        ensures
            r == (self.spec_x() is Some),
    {
        self.x.is_some()
    }

    /// The public parameters `(p, g, y)` as decimal strings, in the exact
    /// shape [`crate::bignum::lemma_dec_chars_reparse`] needs to re-import
    /// them.
    pub fn public_key(&self) -> (r: (String, String, String))
        ensures
            crate::bignum::spells_decimal(r.0@, self.spec_p()),
            crate::bignum::spells_decimal(r.1@, self.spec_g()),
            crate::bignum::spells_decimal(r.2@, self.spec_y()),
    {
        (self.p.to_decimal(), self.g.to_decimal(), self.y.to_decimal())
    }

    /// The private parameters `(p, g, x)` as decimal strings, in the
    /// exact shape [`crate::bignum::lemma_dec_chars_reparse`] needs to
    /// re-import them.
    pub fn private_key(&self) -> (r: (String, String, String))
        requires
            self.spec_x() is Some,
        ensures
            crate::bignum::spells_decimal(r.0@, self.spec_p()),
            crate::bignum::spells_decimal(r.1@, self.spec_g()),
            crate::bignum::spells_decimal(r.2@, self.spec_x().unwrap()),
    {
        let x = match &self.x {
            Some(v) => v,
            None => { unreached() },
        };
        (self.p.to_decimal(), self.g.to_decimal(), x.to_decimal())
    }

    /// Encrypt an integer message: draw a fresh ephemeral `k` in
    /// `[1, p-2]` and emit `(g^k mod p, m * y^k mod p)`.  Succeeds exactly
    /// when `p > 2`.
    pub fn encrypt(&self, message: &BigNat) -> (r: Result<ElGamalCiphertext, CryptoError>)
        ensures
            r is Ok <==> self.spec_p() > 2,
            r is Ok ==> exists|k: nat|
                {
                    &&& 1 <= k < self.spec_p() - 1
                    &&& r.unwrap().c1@ == #[trigger] npow(self.spec_g(), k) % self.spec_p()
                    &&& r.unwrap().c2@ == (message@ * (npow(self.spec_y(), k) % self.spec_p()))
                        % self.spec_p()
                },
    {
        let one = BigNat::from_u64(1);
        let two = BigNat::from_u64(2);
        if !lt_big(&two, &self.p) {
            return Err(CryptoError::InvalidArgument);
        }
        let upper = sub_big(&self.p, &one);
        let k = rand_range_big(&one, &upper);
        let c1 = modpow_big(&self.g, &k, &self.p);
        let c2 = rem_big(&mul_big(message, &modpow_big(&self.y, &k, &self.p)), &self.p);
        let result = ElGamalCiphertext { c1, c2 };
        proof {
            assert(result.c1@ == npow(self.spec_g(), k@) % self.spec_p());
        }
        Ok(result)
    }

    /// Decrypt: `m = c2 * (c1^x)^-1 mod p`.  Succeeds exactly when the
    /// private half is present, `p` is nonzero, and the shared secret has an
    /// inverse mod `p` (always, for a prime `p`).
    pub fn decrypt(&self, ciphertext: &ElGamalCiphertext) -> (r: Result<BigNat, CryptoError>)
        ensures
            r is Ok <==> self.spec_x() is Some && self.spec_p() > 0 && spec_gcd(
                npow(ciphertext.c1@, self.spec_x().unwrap()) % self.spec_p(),
                self.spec_p(),
            ) == 1,
            r is Ok ==> exists|v: nat|
                {
                    &&& v < self.spec_p()
                    &&& #[trigger] ((npow(ciphertext.c1@, self.spec_x().unwrap())
                        % self.spec_p()) * v) % self.spec_p() == 1nat % self.spec_p()
                    &&& r.unwrap()@ == (ciphertext.c2@ * v) % self.spec_p()
                },
    {
        let zero = BigNat::from_u64(0);
        let x = match &self.x {
            Some(v) => v,
            None => { return Err(CryptoError::InvalidArgument) },
        };
        if eq_big(&self.p, &zero) {
            return Err(CryptoError::InvalidArgument);
        }
        let s = modpow_big(&ciphertext.c1, x, &self.p);
        let s_inv = match mod_inverse(&s, &self.p) {
            Some(v) => v,
            None => { return Err(CryptoError::NoInverse) },
        };
        let m = rem_big(&mul_big(&ciphertext.c2, &s_inv), &self.p);
        proof {
            assert(((npow(ciphertext.c1@, x@) % self.spec_p()) * s_inv@) % self.spec_p() == 1nat
                % self.spec_p());
        }
        Ok(m)
    }

    /// Sign a (hashed) message: draw `k` until it is invertible mod
    /// `q = (p-1)/2`, then emit `r = g^k mod p` and
    /// `s = (h mod q + q - x*r mod q) * k^-1 mod q`.  On a well-formed
    /// keypair, where `q` is prime, the very first draw is invertible and
    /// signing always succeeds.
    #[verifier::loop_isolation(false)]
    pub fn sign(&self, message: &BigNat) -> (r: Result<ElGamalSignature, CryptoError>)
        ensures
            r is Ok ==> self.spec_x() is Some && self.spec_p() > 4,
            self.spec_x() is Some && self.spec_p() > 4 && is_prime_math(
                half_of(self.spec_p()),
            ) ==> r is Ok,
            self.spec_x() is None ==> r == Err::<ElGamalSignature, CryptoError>(
                CryptoError::InvalidArgument,
            ),
            self.spec_x() is Some && self.spec_p() <= 4 ==> r == Err::<
                ElGamalSignature,
                CryptoError,
            >(CryptoError::InvalidArgument),
            r is Ok ==> exists|k: nat, kinv: nat|
                {
                    let p = self.spec_p();
                    let q = half_of(p);
                    let x = self.spec_x().unwrap();
                    &&& 1 <= k < q
                    &&& kinv < q
                    &&& #[trigger] (k * kinv) % q == 1nat % q
                    &&& r.unwrap().r@ == npow(self.spec_g(), k) % p
                    &&& r.unwrap().s@ == (((message@ % q) + q - ((x * r.unwrap().r@) % q))
                        * kinv) % (q as int)
                    &&& r.unwrap().s@ < q
                },
    {
        let one = BigNat::from_u64(1);
        let two = BigNat::from_u64(2);
        let four = BigNat::from_u64(4);
        let x = match &self.x {
            Some(v) => v,
            None => { return Err(CryptoError::InvalidArgument) },
        };
        if !lt_big(&four, &self.p) {
            return Err(CryptoError::InvalidArgument);
        }
        let q = div_big(&sub_big(&self.p, &one), &two);
        proof {
            assert(q@ == half_of(self.spec_p()));
            assert(q@ >= 2);
        }
        let mut attempts: u64 = 0;
        while attempts < MAX_DRAWS
            invariant
                q@ == half_of(self.spec_p()),
                q@ >= 2,
                self.spec_p() > 4,
                self.spec_x() == Some(x@),
                attempts > 0 ==> !is_prime_math(half_of(self.spec_p())),
            decreases MAX_DRAWS - attempts,
        {
            let k = rand_range_big(&one, &q);
            let r = modpow_big(&self.g, &k, &self.p);
            match mod_inverse(&k, &q) {
                Some(k_inv) => {
                    let m_mod_q = rem_big(message, &q);
                    let xr = rem_big(&mul_big(x, &r), &q);
                    let tmp = sub_big(&add_big(&m_mod_q, &q), &xr);
                    let s = rem_big(&mul_big(&tmp, &k_inv), &q);
                    let result = ElGamalSignature { r, s };
                    proof {
                        let qn = half_of(self.spec_p());
                        assert(qn == q@);
                        assert(1 <= k@ < qn);
                        assert(k_inv@ < qn);
                        assert((k@ * k_inv@) % qn == 1nat % qn);
                        assert(result.r@ == npow(self.spec_g(), k@) % self.spec_p());
                        assert(tmp@ == (message@ % qn) + qn - ((x@ * result.r@) % qn));
                        assert(result.s@ == ((tmp@ * k_inv@) as int) % (qn as int));
                        assert(((message@ % qn) + qn - ((x@ * result.r@) % qn)) * (
                        k_inv@ as int) == (tmp@ * k_inv@) as int);
                    }
                    return Ok(result);
                },
                None => {
                    proof {
                        // A prime subgroup order makes every drawn k
                        // invertible, so the inverse can only be missing
                        // for a composite order.
                        if is_prime_math(q@) {
                            lemma_prime_gcd_is_one(k@, q@);
                        }
                    }
                },
            }
            attempts = attempts + 1;
        }
        Err(CryptoError::Internal)
    }

    /// Verify a signature against a (hashed) message: the result is exactly
    /// the range checks on `(r, s)` plus `g^h == y^r * r^s (mod p)`.
    pub fn verify(&self, message: &BigNat, signature: &ElGamalSignature) -> (r: bool)
        ensures
            r == verify_accepts(
                self.spec_p(),
                self.spec_g(),
                self.spec_y(),
                message@,
                signature.r@,
                signature.s@,
            ),
    {
        let zero = BigNat::from_u64(0);
        let one = BigNat::from_u64(1);
        let two = BigNat::from_u64(2);
        if eq_big(&signature.r, &zero) || !lt_big(&signature.r, &self.p) {
            return false;
        }
        let q = div_big(&sub_big(&self.p, &one), &two);
        if eq_big(&signature.s, &zero) || !lt_big(&signature.s, &q) {
            return false;
        }
        let v1 = modpow_big(&self.g, message, &self.p);
        let v2 = rem_big(
            &mul_big(
                &modpow_big(&self.y, &signature.r, &self.p),
                &modpow_big(&signature.r, &signature.s, &self.p),
            ),
            &self.p,
        );
        eq_big(&v1, &v2)
    }
}

/// Out-of-range signatures are always rejected: an `r` of 0, or at or above
/// `p`, or an `s` of 0, or at or above `q`, fails verification.
pub proof fn lemma_verify_rejects_out_of_range(p: nat, g: nat, y: nat, h: nat, r: nat, s: nat)
    requires
        r == 0 || r >= p || s == 0 || s >= half_of(p),
    ensures
        !verify_accepts(p, g, y, h, r, s),
{
}

/// An accepted signature rejects an altered payload hash: whenever the new
/// hash drives the generator to a different power residue, verification of
/// the same signature flips to false.
pub proof fn lemma_verify_rejects_altered_hash(
    p: nat,
    g: nat,
    y: nat,
    h: nat,
    h2: nat,
    r: nat,
    s: nat,
)
    requires
        verify_accepts(p, g, y, h, r, s),
        npow(g, h2) % p != npow(g, h) % p,
    ensures
        !verify_accepts(p, g, y, h2, r, s),
{
}

/// Decryption undoes encryption: with `y = g^x mod p`, a ciphertext
/// `(g^k mod p, m * (y^k mod p) mod p)` and any inverse `v` of
/// `(c1^x mod p)` modulo `p`, the decryption computation returns `m` for
/// every message `1 <= m < p`.  (Such a `v` exists whenever `p` is prime,
/// which is what `decrypt` looks for at run time.)
pub proof fn lemma_elgamal_round_trip(p: nat, g: nat, x: nat, k: nat, m: nat, v: nat)
    requires
        p > 2,
        m < p,
        v < p,
        ((npow(npow(g, k) % p, x) % p) * v) % p == 1nat % p,
    ensures
        (((m * (npow(npow(g, x) % p, k) % p)) % p) * v) % p == m,
{
    let pi = p as int;
    let gi = g as int;
    broadcast use crate::bignum::lemma_npow_is_pow;

    let s = npow(npow(g, k) % p, x) % p;
    let t = npow(npow(g, x) % p, k) % p;
    assert(s == t) by {
        lemma_pow_mod_noop(pow(gi, k), x, pi);
        lemma_pow_multiplies(gi, k, x);
        lemma_pow_mod_noop(pow(gi, x), k, pi);
        lemma_pow_multiplies(gi, x, k);
        assert(k * x == x * k) by (nonlinear_arith);
    }
    let mt = m * t;
    let ti = t as int;
    let vi = v as int;
    let mi = m as int;
    assert((((mt % p) as int) * vi) % pi == (mt as int * vi) % pi) by {
        lemma_mul_mod_noop_left(mt as int, vi, pi);
    }
    assert(((m * t) as int) * (v as int) == (m as int) * ((t as int) * (v as int)))
        by (nonlinear_arith);
    assert((mi * (ti * vi)) % pi == (mi * ((ti * vi) % pi)) % pi) by {
        lemma_mul_mod_noop_right(mi, ti * vi, pi);
    }
    assert((ti * vi) % pi == 1) by {
        lemma_small_mod(1, p);
    }
    assert((mi * 1) % pi == mi) by {
        lemma_small_mod(m, p);
    }
}

/// The full round-trip law over a prime modulus: with `0 < g < p`,
/// `y = g^x mod p` and any message `1 <= m < p`, the shared secret
/// `c1^x mod p` of an encryption `(g^k mod p, m * (y^k mod p) mod p)` is
/// invertible — so decryption succeeds — and every inverse of it takes the
/// second component back to `m`.
pub proof fn lemma_elgamal_round_trip_prime(p: nat, g: nat, x: nat, k: nat, m: nat)
    requires
        crate::numeric::is_prime_math(p),
        p > 2,
        0 < g < p,
        1 <= m < p,
    ensures
        spec_gcd(npow(npow(g, k) % p, x) % p, p) == 1,
        forall|v: nat|
            v < p && #[trigger] (((npow(npow(g, k) % p, x) % p) * v) % p) == 1nat % p ==> (((m
                * (npow(npow(g, x) % p, k) % p)) % p) * v) % p == m,
{
    let c1 = npow(g, k) % p;
    assert(g % p == g) by {
        lemma_small_mod(g, p);
    }
    crate::numeric::lemma_power_nonzero_mod_prime(p, g, k);
    assert(c1 % p == c1) by {
        lemma_small_mod(c1, p);
    }
    let s = npow(c1, x) % p;
    crate::numeric::lemma_power_nonzero_mod_prime(p, c1, x);
    assert(s % p == s) by {
        lemma_small_mod(s, p);
    }
    crate::numeric::lemma_prime_gcd_is_one(s, p);
    assert forall|v: nat|
        v < p && #[trigger] (((npow(npow(g, k) % p, x) % p) * v) % p) == 1nat % p implies (((m
        * (npow(npow(g, x) % p, k) % p)) % p) * v) % p == m by {
        lemma_elgamal_round_trip(p, g, x, k, m, v);
    }
}

/// The 256-bit digest of a string, as a natural number: a pure function of
/// the characters alone.
pub uninterp spec fn sha256_nat(s: Seq<char>) -> nat;

/// Relies on `sha2::Sha256`: the digest of the UTF-8 bytes of the input,
/// read as a big-endian 32-byte integer, a pure function of the input.
#[verifier::external_body]
pub fn sha256_to_biguint(input: &str) -> (r: BigNat)
    ensures
        r@ == sha256_nat(input@),
        r@ < pow2(256),
{
    let mut hasher = sha2::Sha256::new();
    hasher.update(input.as_bytes());
    let hash = hasher.finalize();
    BigNat::from_bytes_be(&hash)
}

} // verus!
