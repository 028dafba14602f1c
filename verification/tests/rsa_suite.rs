use classic_crypto::rsa::RSA;
use classic_crypto::CryptoError;

#[test]
fn small_keypair_exact_values() {
    // n = 61 * 53 = 3233, e = 17, d = 2753.
    let rsa = RSA::from_public_key("3233", "17").unwrap();
    let ct = rsa.encrypt(&[65u8]).unwrap();
    // 65^17 mod 3233 == 2790 == 0x0ae6.
    assert_eq!(ct, vec![0x0a, 0xe6]);
    let private = RSA::from_private_key("3233", "2753").unwrap();
    let back = private.decrypt(&ct).unwrap();
    assert_eq!(back, vec![65u8]);
}

#[test]
fn public_only_encrypts_but_cannot_decrypt() {
    let rsa = RSA::from_public_key("3233", "17").unwrap();
    assert!(rsa.encrypt(&[7u8]).is_ok());
    assert_eq!(rsa.decrypt(&[1u8]), Err(CryptoError::InvalidArgument));
}

#[test]
fn private_only_decrypts_but_cannot_encrypt() {
    let rsa = RSA::from_private_key("3233", "2753").unwrap();
    assert!(rsa.decrypt(&[1u8]).is_ok());
    assert_eq!(rsa.encrypt(&[7u8]), Err(CryptoError::InvalidArgument));
}

#[test]
fn malformed_decimal_is_rejected() {
    assert!(RSA::from_public_key("32x3", "17").is_err());
    assert!(RSA::from_public_key("", "17").is_err());
    assert!(RSA::from_private_key("3233", "2 753").is_err());
}

#[test]
fn rsa_generated_keypair_round_trip() {
    // 512 bits per prime; a fixed 32-byte message below n.
    let rsa = generate_keys(512);
    let message: Vec<u8> = (1u8..33u8).collect();
    let ct = rsa.encrypt(&message).unwrap();
    let back = rsa.decrypt(&ct).unwrap();
    assert_eq!(back, message);
}

#[test]
fn rsa_exported_keys_round_trip() {
    let rsa = generate_keys(512);
    let (n, e) = rsa.public_key();
    let (_, d) = rsa.private_key();
    let public = RSA::from_public_key(&n, &e).unwrap();
    let private = RSA::from_private_key(&n, &d).unwrap();
    let message = b"the magic words are squeamish".to_vec();
    let ct = public.encrypt(&message).unwrap();
    let back = private.decrypt(&ct).unwrap();
    assert_eq!(back, message);
}

fn generate_keys(bits: usize) -> RSA {
    for _ in 0..4 {
        if let Ok(k) = RSA::new(bits) {
            return k;
        }
    }
    panic!("key generation kept failing");
}
