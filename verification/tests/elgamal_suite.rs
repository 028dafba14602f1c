use classic_crypto::bignum::BigNat;
use classic_crypto::elgamal::{sha256_to_biguint, ElGamalCiphertext, ElGamalKeys, ElGamalSignature};
use classic_crypto::CryptoError;

// A fixed 512-bit safe prime p = 2q + 1 with both p and q prime, and a
// private exponent for the signature scenarios.  The signature equation
// works modulo q, so these scenarios use the order-q generator 4: under a
// generator of order 2q (which the generator search hands out) the check
// g^h == y^r * r^s only holds when an even number of q-multiples fell out
// of the exponent reduction.
const P512: &str = "13210636509044396358726582483404610955086439589448507489273420624923256684060714257132233393345866636836082190023033924479508699988300220490507497850207683";
const X512: &str = "1439316004218063318396085327705917781006116031028676375178582029301697605574766271379363956501522465483918889155172732186595041559456030960286275824170041";

// A fixed 256-bit safe-prime keypair (p prime, (p-1)/2 prime, g with
// g^q mod p != 1) for the encryption scenario; generating a fresh 256-bit
// safe prime can outlast the per-test budget.
const P256: &str = "102388574694618173651661754019536441903817807565549711350454753401535053252399";
const G256: &str = "7";
const X256: &str = "26159304283635607989697023389973520843269716019928603336183552965278100825454";
const Y256: &str = "13167825146137179338026074630660824793499583826198760518672371080717290776729";

fn big(s: &str) -> BigNat {
    BigNat::from_decimal(s).unwrap()
}

#[test]
fn small_keypair_exact_decrypt() {
    // p = 23, g = 5, x = 6, y = 8; ciphertext (10, 3) decrypts to 12.
    let keys = ElGamalKeys::from_params("23", "5", "8", "6").unwrap();
    let ct = ElGamalCiphertext { c1: BigNat::from_u64(10), c2: BigNat::from_u64(3) };
    let m = keys.decrypt(&ct).unwrap();
    assert_eq!(m.to_decimal(), "12");
}

#[test]
fn small_keypair_round_trip() {
    let keys = ElGamalKeys::from_params("23", "5", "8", "6").unwrap();
    for m in 1u64..23 {
        let ct = keys.encrypt(&BigNat::from_u64(m)).unwrap();
        let back = keys.decrypt(&ct).unwrap();
        assert_eq!(back.to_decimal(), m.to_string());
    }
}

#[test]
fn elgamal_256_bit_round_trip() {
    // 256-bit keys; encrypt-decrypt recovers 12345, and a second
    // encryption of the same message differs.
    let keys = ElGamalKeys::from_params(P256, G256, Y256, X256).unwrap();
    let m = BigNat::from_u64(12345);
    let ct1 = keys.encrypt(&m).unwrap();
    let ct2 = keys.encrypt(&m).unwrap();
    assert_eq!(keys.decrypt(&ct1).unwrap().to_decimal(), "12345");
    assert_eq!(keys.decrypt(&ct2).unwrap().to_decimal(), "12345");
    assert!(
        ct1.c1.to_decimal() != ct2.c1.to_decimal() || ct1.c2.to_decimal() != ct2.c2.to_decimal()
    );
}

#[test]
fn elgamal_exported_keys_round_trip() {
    let keys = ElGamalKeys::new(128).unwrap();
    let (p, g, y) = keys.public_key();
    let (_, _, x) = keys.private_key();
    let public = ElGamalKeys::from_public_params(&p, &g, &y).unwrap();
    let private = ElGamalKeys::from_private_params(&p, &g, &x).unwrap();
    let m = BigNat::from_u64(424242);
    let ct = public.encrypt(&m).unwrap();
    assert_eq!(private.decrypt(&ct).unwrap().to_decimal(), "424242");
}

#[test]
fn public_only_cannot_decrypt_or_sign() {
    let keys = ElGamalKeys::from_public_params("23", "5", "8").unwrap();
    let ct = ElGamalCiphertext { c1: BigNat::from_u64(10), c2: BigNat::from_u64(3) };
    assert_eq!(keys.decrypt(&ct).err(), Some(CryptoError::InvalidArgument));
    assert!(keys.sign(&BigNat::from_u64(5)).is_err());
}

#[test]
fn sign_and_verify_512() {
    let keys = ElGamalKeys::from_private_params(P512, "4", X512).unwrap();
    let h = sha256_to_biguint("attack at dawn");
    let sig = keys.sign(&h).unwrap();
    assert!(keys.verify(&h, &sig));

    // The same signature fails against a different payload hash.
    let other = sha256_to_biguint("attack at dusk");
    assert!(!keys.verify(&other, &sig));

    // An s nudged by one (mod q) fails.
    let q = (num_bigint::BigUint::parse_bytes(P512.as_bytes(), 10).unwrap()
        - num_bigint::BigUint::from(1u8)) / num_bigint::BigUint::from(2u8);
    let s = num_bigint::BigUint::parse_bytes(sig.s.to_decimal().as_bytes(), 10).unwrap();
    let bumped = (s + num_bigint::BigUint::from(1u8)) % &q;
    let forged = ElGamalSignature {
        r: sig.r,
        s: big(&bumped.to_str_radix(10)),
    };
    assert!(!keys.verify(&h, &forged));
}

#[test]
fn verify_rejects_out_of_range() {
    let keys = ElGamalKeys::from_private_params(P512, "4", X512).unwrap();
    let h = sha256_to_biguint("attack at dawn");
    let sig = keys.sign(&h).unwrap();
    let p = big(P512);
    let q_dec = {
        let q = (num_bigint::BigUint::parse_bytes(P512.as_bytes(), 10).unwrap()
            - num_bigint::BigUint::from(1u8)) / num_bigint::BigUint::from(2u8);
        q.to_str_radix(10)
    };

    // r of zero, r equal to p, r above p.
    let z = ElGamalSignature { r: BigNat::from_u64(0), s: sig.s.dup() };
    assert!(!keys.verify(&h, &z));
    let at_p = ElGamalSignature { r: p.dup(), s: sig.s.dup() };
    assert!(!keys.verify(&h, &at_p));
    let above = ElGamalSignature {
        r: classic_crypto::bignum::BigNat::from_decimal(&format!("{}9", P512)).unwrap(),
        s: sig.s.dup(),
    };
    assert!(!keys.verify(&h, &above));

    // s of zero and s at q.
    let s0 = ElGamalSignature { r: sig.r.dup(), s: BigNat::from_u64(0) };
    assert!(!keys.verify(&h, &s0));
    let at_q = ElGamalSignature { r: sig.r.dup(), s: big(&q_dec) };
    assert!(!keys.verify(&h, &at_q));
}

#[test]
fn one_bit_hash_change_is_rejected() {
    let keys = ElGamalKeys::from_private_params(P512, "4", X512).unwrap();
    let h = sha256_to_biguint("attack at dawn");
    let sig = keys.sign(&h).unwrap();
    assert!(keys.verify(&h, &sig));
    // Flip the lowest bit of the payload hash.
    let hv = num_bigint::BigUint::parse_bytes(h.to_decimal().as_bytes(), 10).unwrap();
    let flipped = hv ^ num_bigint::BigUint::from(1u8);
    let h_bad = big(&flipped.to_str_radix(10));
    assert!(!keys.verify(&h_bad, &sig));
}

#[test]
fn decrypt_reports_missing_inverse() {
    // p = 12 is no prime: the shared secret 2^2 mod 12 = 4 shares a factor
    // with the modulus, so no inverse exists.
    let keys = ElGamalKeys::from_params("12", "2", "4", "2").unwrap();
    let ct = ElGamalCiphertext { c1: BigNat::from_u64(2), c2: BigNat::from_u64(5) };
    assert_eq!(keys.decrypt(&ct).err(), Some(CryptoError::NoInverse));
}

#[test]
fn hash_collaborator_values() {
    let abc = sha256_to_biguint("abc");
    assert_eq!(
        abc.to_decimal(),
        "84342368487090800366523834928142263660104883695016514377462985829716817089965"
    );
    let empty = sha256_to_biguint("");
    assert_eq!(
        empty.to_decimal(),
        "102987336249554097029535212322581322789799900648198034993379397001115665086549"
    );
}

#[test]
fn malformed_params_are_rejected() {
    assert!(ElGamalKeys::from_params("23", "5", "8", "x").is_err());
    assert!(ElGamalKeys::from_public_params("", "5", "8").is_err());
    // A zero modulus cannot be used to rebuild y.
    assert_eq!(
        ElGamalKeys::from_private_params("0", "5", "6").err(),
        Some(CryptoError::InvalidArgument)
    );
}
