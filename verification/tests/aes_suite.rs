use classic_crypto::aes::block::{aes_decrypt_block, aes_encrypt_block, key_expansion, mul, xtime};
use classic_crypto::aes::modes::{
    generate_random_iv, generate_random_key, inc_block, pkcs7_pad, pkcs7_unpad, xor_block, Aes128,
};
use classic_crypto::aes::tables::{inv_sbox_at, rcon_at, sbox_at};
use classic_crypto::aes::{bytes_to_hex, Aes, AesMode};
use classic_crypto::hex_to_bytes;
use classic_crypto::CryptoError;

fn h(s: &str) -> Vec<u8> {
    hex::decode(s).unwrap()
}

#[test]
fn block_cipher_fips_vector() {
    let key = h("000102030405060708090a0b0c0d0e0f");
    let pt = h("00112233445566778899aabbccddeeff");
    let ct = aes_encrypt_block(&pt, &key);
    assert_eq!(bytes_to_hex(&ct), "69c4e0d86a7b0430d8cdb78070b4c55a");
    let back = aes_decrypt_block(&ct, &key);
    assert_eq!(back, pt);
}

#[test]
fn key_expansion_fips_tail() {
    // The last round key of the FIPS-197 example schedule.
    let key = h("2b7e151628aed2a6abf7158809cf4f3c");
    let w = key_expansion(&key);
    assert_eq!(w.len(), 176);
    assert_eq!(bytes_to_hex(&w[160..176].to_vec()), "d014f9a8c9ee2589e13f0cc8b6630ca6");
}

#[test]
fn gf_arithmetic() {
    assert_eq!(xtime(0x57), 0xae);
    assert_eq!(xtime(0xae), 0x47);
    assert_eq!(mul(0x57, 0x13), 0xfe);
    assert_eq!(mul(0x57, 0x01), 0x57);
    assert_eq!(sbox_at(0x00), 0x63);
    assert_eq!(inv_sbox_at(0x63), 0x00);
    assert_eq!(rcon_at(1), 0x01);
    assert_eq!(rcon_at(10), 0x36);
}

#[test]
fn ecb_hello_world_padded() {
    // 16 bytes of data still gain a full pad block under padded ECB.
    let key = h("000102030405060708090a0b0c0d0e0f");
    let data = b"Hello, World!!!!".to_vec();
    assert_eq!(data.len(), 16);
    let aes = Aes128::new(key);
    let ct = aes.encrypt_ecb(&data);
    assert_eq!(ct.len(), 32);
    let back = aes.decrypt_ecb(&ct);
    assert_eq!(back, data);
}

#[test]
fn cbc_alphabet() {
    let key = h("000102030405060708090a0b0c0d0e0f");
    let iv = h("00000000000000000000000000000000");
    let data = b"abcdefghijklmnopqrstuvwxyz".to_vec();
    assert_eq!(data.len(), 26);
    let aes = Aes128::new(key);
    let ct = aes.encrypt_cbc(&data, &iv);
    assert_eq!(ct.len(), 32);
    let back = aes.decrypt_cbc(&ct, &iv);
    assert_eq!(back, data);
}

#[test]
fn ctr_nist_vector() {
    let key = h("2b7e151628aed2a6abf7158809cf4f3c");
    let nonce = h("f0f1f2f3f4f5f6f7f8f9fafbfcfdfeff");
    let pt = h("6bc1bee22e409f96e93d7e117393172a");
    let aes = Aes128::new(key);
    let ct = aes.encrypt_ctr(&pt, &nonce);
    assert_eq!(bytes_to_hex(&ct), "874d6191b620e3261bef6864990db6ce");
    let back = aes.decrypt_ctr(&ct, &nonce);
    assert_eq!(back, pt);
}

#[test]
fn all_modes_round_trip() {
    let key = h("8090a0b0c0d0e0f00011223344556677");
    let iv = h("0102030405060708090a0b0c0d0e0f10");
    let aes = Aes128::new(key);
    // A length that is not a multiple of 16 exercises the partial block.
    let data: Vec<u8> = (0u8..37u8).collect();
    let aligned: Vec<u8> = (0u8..48u8).collect();

    assert_eq!(aes.decrypt_ecb(&aes.encrypt_ecb(&data)), data);
    assert_eq!(aes.decrypt_ecb_no_padding(&aes.encrypt_ecb_no_padding(&aligned)), aligned);
    assert_eq!(aes.decrypt_cbc(&aes.encrypt_cbc(&data, &iv), &iv), data);
    assert_eq!(
        aes.decrypt_cbc_no_padding(&aes.encrypt_cbc_no_padding(&aligned, &iv), &iv),
        aligned
    );
    assert_eq!(aes.decrypt_ctr(&aes.encrypt_ctr(&data, &iv), &iv), data);
    assert_eq!(aes.decrypt_ofb(&aes.encrypt_ofb(&data, &iv), &iv), data);
    assert_eq!(aes.decrypt_cfb(&aes.encrypt_cfb(&data, &iv), &iv), data);
}

#[test]
fn empty_input_round_trip() {
    let key = h("8090a0b0c0d0e0f00011223344556677");
    let iv = h("0102030405060708090a0b0c0d0e0f10");
    let aes = Aes128::new(key);
    let empty: Vec<u8> = Vec::new();
    // Padded ECB of empty data is one full pad block.
    let ct = aes.encrypt_ecb(&empty);
    assert_eq!(ct.len(), 16);
    assert_eq!(aes.decrypt_ecb(&ct), empty);
    assert_eq!(aes.encrypt_ctr(&empty, &iv), empty);
}

#[test]
fn dispatch_matches_direct_modes() {
    let key = h("000102030405060708090a0b0c0d0e0f");
    let iv = h("0102030405060708090a0b0c0d0e0f10");
    let data = b"dispatch check data".to_vec();
    let a = Aes::new(key.clone());
    let m = Aes128::new(key);
    assert_eq!(a.encrypt(&data, AesMode::Ecb, None), m.encrypt_ecb(&data));
    assert_eq!(a.encrypt(&data, AesMode::Cbc, Some(&iv)), m.encrypt_cbc(&data, &iv));
    assert_eq!(a.encrypt(&data, AesMode::Cfb, Some(&iv)), m.encrypt_cfb(&data, &iv));
    let ct = a.encrypt(&data, AesMode::Ofb, Some(&iv));
    assert_eq!(a.decrypt(&ct, AesMode::Ofb, Some(&iv)), data);
    // A missing IV means all zeroes.
    let zero_iv = vec![0u8; 16];
    assert_eq!(
        a.encrypt(&data, AesMode::Ctr, None),
        m.encrypt_ctr(&data, &zero_iv)
    );
}

#[test]
fn mode_labels() {
    assert_eq!(AesMode::Ctr.label(), "CTR");
    assert_eq!(AesMode::Ecb.label(), "ECB (padded)");
    assert_eq!(AesMode::CbcNoPadding.label(), "CBC (no padding)");
}

#[test]
fn pkcs7_edges() {
    let empty: Vec<u8> = Vec::new();
    let pad = pkcs7_pad(&empty);
    assert_eq!(pad, vec![16u8; 16]);
    assert_eq!(pkcs7_unpad(&pad), empty);

    let full: Vec<u8> = (0u8..16u8).collect();
    let padded = pkcs7_pad(&full);
    assert_eq!(padded.len(), 32);
    assert_eq!(&padded[16..], &[16u8; 16]);

    // Defensive stripping: implausible trailing bytes leave data unchanged.
    let bad = vec![1u8, 2, 3, 0];
    assert_eq!(pkcs7_unpad(&bad), bad);
    let bad2 = vec![1u8, 2, 17];
    assert_eq!(pkcs7_unpad(&bad2), bad2);
    let bad3 = vec![1u8, 5];
    assert_eq!(pkcs7_unpad(&bad3), bad3);
}

#[test]
fn counter_increment() {
    let mut c = h("000000000000000000000000000000ff");
    inc_block(&mut c);
    assert_eq!(bytes_to_hex(&c), "00000000000000000000000000000100");
    let mut w = h("ffffffffffffffffffffffffffffffff");
    inc_block(&mut w);
    assert_eq!(w, vec![0u8; 16]);
}

#[test]
fn xor_block_works() {
    let a = h("ffffffffffffffffffffffffffffffff");
    let b = h("0f0f0f0f0f0f0f0f0f0f0f0f0f0f0f0f");
    assert_eq!(bytes_to_hex(&xor_block(&a, &b)), "f0f0f0f0f0f0f0f0f0f0f0f0f0f0f0f0");
}

#[test]
fn hex_conversions() {
    assert_eq!(bytes_to_hex(&vec![0x00, 0xff, 0x1a]), "00ff1a");
    let key = hex_to_bytes("000102030405060708090a0b0c0d0e0f").unwrap();
    assert_eq!(key, (0u8..16u8).collect::<Vec<u8>>());
    // Uppercase digits are accepted.
    let upper = hex_to_bytes("000102030405060708090A0B0C0D0E0F").unwrap();
    assert_eq!(upper, key);
    // Short, long and malformed inputs are hard errors.
    assert_eq!(hex_to_bytes("abc"), Err(CryptoError::InvalidArgument));
    assert_eq!(
        hex_to_bytes("000102030405060708090a0b0c0d0e0f00"),
        Err(CryptoError::InvalidArgument)
    );
    assert_eq!(
        hex_to_bytes("000102030405060708090a0b0c0d0eXY"),
        Err(CryptoError::InvalidArgument)
    );
}

#[test]
fn fixed_demo_key_and_iv() {
    let key = generate_random_key();
    assert_eq!(key.len(), 16);
    assert_eq!(key[0], 23);
    assert_eq!(key[1], 40);
    assert_eq!(key[15], (15u8.wrapping_mul(17)).wrapping_add(23));
    let iv = generate_random_iv();
    assert_eq!(iv[0], 77);
    assert_eq!(iv[1], 108);
}

#[test]
fn random_key_and_iv_sizes() {
    let key = classic_crypto::aes::generate_random_key();
    let iv = classic_crypto::aes::generate_random_iv();
    assert_eq!(key.len(), 16);
    assert_eq!(iv.len(), 16);
}
