use classic_crypto::bignum::BigNat;
use classic_crypto::numeric::{
    find_generator, generate_large_prime, generate_safe_prime, is_prime, mod_inverse,
};

fn big(s: &str) -> BigNat {
    BigNat::from_decimal(s).unwrap()
}

#[test]
fn from_u64_and_decimal() {
    assert_eq!(BigNat::from_u64(0).to_decimal(), "0");
    assert_eq!(BigNat::from_u64(0x1234).to_decimal(), "4660");
    assert_eq!(BigNat::from_u64(u64::MAX).to_decimal(), "18446744073709551615");
    let n = big("123456789012345678901234567890");
    assert_eq!(n.to_decimal(), "123456789012345678901234567890");
}

#[test]
fn decimal_export_reparses() {
    let n = big("340282366920938463463374607431768211455000123");
    let exported = n.to_decimal();
    let back = BigNat::from_decimal(&exported).unwrap();
    assert!(back.equals(&n));
    let zero = BigNat::from_u64(0);
    assert!(BigNat::from_decimal(&zero.to_decimal()).unwrap().equals(&zero));
}

#[test]
fn decimal_rejects_non_digits() {
    assert!(BigNat::from_decimal("").is_none());
    assert!(BigNat::from_decimal("+5").is_none());
    assert!(BigNat::from_decimal("1_2").is_none());
    assert!(BigNat::from_decimal("12a").is_none());
    assert!(BigNat::from_decimal("007").is_some());
}

#[test]
fn byte_round_trips() {
    let n = BigNat::from_bytes_be(&[0, 0, 5]);
    assert_eq!(n.to_bytes_be(), vec![5u8]);
    let z = BigNat::from_bytes_be(&[]);
    assert_eq!(z.to_bytes_be(), vec![0u8]);
    let big_bytes = vec![1u8, 2, 3, 4, 5, 6, 7, 8, 9];
    let m = BigNat::from_bytes_be(&big_bytes);
    assert_eq!(m.to_bytes_be(), big_bytes);
    assert!(m.equals(&m.dup()));
    assert!(!m.equals(&z));
}

#[test]
fn mersenne_primes_accepted() {
    for dec in [
        "2147483647",                        // 2^31 - 1
        "2305843009213693951",               // 2^61 - 1
        "618970019642690137449562111",       // 2^89 - 1
        "162259276829213363391578010288127", // 2^107 - 1
    ] {
        assert!(is_prime(&big(dec), 20), "{} should be prime", dec);
    }
}

#[test]
fn semiprimes_rejected() {
    // Products of two 64-bit primes.
    assert!(!is_prime(&big("121156077705042488608540181084933495617"), 20));
    assert!(!is_prime(&big("173961467207948046869276186610764870483"), 20));
}

#[test]
fn primality_small_cases() {
    assert!(!is_prime(&BigNat::from_u64(0), 20));
    assert!(!is_prime(&BigNat::from_u64(1), 20));
    assert!(is_prime(&BigNat::from_u64(2), 20));
    assert!(is_prime(&BigNat::from_u64(3), 20));
    assert!(!is_prime(&BigNat::from_u64(4), 20));
    assert!(is_prime(&BigNat::from_u64(5), 20));
    assert!(!is_prime(&BigNat::from_u64(9), 20));
    assert!(is_prime(&BigNat::from_u64(65537), 20));
}

#[test]
fn modular_inverse() {
    let inv = mod_inverse(&BigNat::from_u64(3), &BigNat::from_u64(11)).unwrap();
    assert_eq!(inv.to_decimal(), "4");
    // gcd(4, 8) != 1: no inverse exists.
    assert!(mod_inverse(&BigNat::from_u64(4), &BigNat::from_u64(8)).is_none());
    // The inverse of 1 modulo anything positive is 1.
    let one = mod_inverse(&BigNat::from_u64(1), &BigNat::from_u64(97)).unwrap();
    assert_eq!(one.to_decimal(), "1");
}

#[test]
fn large_prime_generation() {
    let p = generate_large_prime(10).unwrap();
    let v: u64 = p.to_decimal().parse().unwrap();
    assert!(512 <= v && v < 1024);
    assert_eq!(v % 2, 1);
}

#[test]
fn safe_prime_generation() {
    let p = generate_safe_prime(8).unwrap();
    let v: u64 = p.to_decimal().parse().unwrap();
    assert!(256 < v && v < 512);
    assert_eq!(v % 2, 1);
    let q = (v - 1) / 2;
    assert_eq!(q % 2, 1);
    assert!(is_prime(&BigNat::from_u64(v), 20));
    assert!(is_prime(&BigNat::from_u64(q), 20));
}

#[test]
fn generator_search() {
    let p = BigNat::from_u64(23);
    let q = BigNat::from_u64(11);
    let g = find_generator(&p, &q).unwrap();
    let gv: u64 = g.to_decimal().parse().unwrap();
    assert!(2 <= gv && gv <= 20);
    let pow = num_bigint::BigUint::from(gv).modpow(
        &num_bigint::BigUint::from(11u64),
        &num_bigint::BigUint::from(23u64),
    );
    assert_ne!(pow, num_bigint::BigUint::from(1u64));
}
