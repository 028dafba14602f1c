//! The 128-bit block cipher and its seven modes of operation.

use crate::aes::modes::{
    cbc_dec_s, cbc_enc_s, cfb_dec_s, cfb_enc_s, ctr_s, ecb_dec_s, ecb_enc_s, ofb_s, pad16,
    unpad16, Aes128,
};
use vstd::prelude::*;
use vstd::string::StringExecFns;

pub mod block;
pub mod modes;
pub mod tables;

verus! {

/// The seven modes of operation.
#[derive(Clone, Copy, Debug, PartialEq, Eq, Structural)]
pub enum AesMode {
    /// ECB with PKCS#7 padding.
    Ecb,
    /// ECB, caller-aligned data.
    EcbNoPadding,
    /// CBC with PKCS#7 padding.
    Cbc,
    /// CBC, caller-aligned data.
    CbcNoPadding,
    /// Counter mode.
    Ctr,
    /// Output feedback.
    Ofb,
    /// Ciphertext feedback.
    Cfb,
}

/// The display label of a mode.
pub open spec fn mode_label(m: AesMode) -> Seq<char> {
    match m {
        AesMode::Ecb => "ECB (padded)"@,
        AesMode::EcbNoPadding => "ECB (no padding)"@,
        AesMode::Cbc => "CBC (padded)"@,
        AesMode::CbcNoPadding => "CBC (no padding)"@,
        AesMode::Ctr => "CTR"@,
        AesMode::Ofb => "OFB"@,
        AesMode::Cfb => "CFB"@,
    }
}

impl AesMode {
    /// A human-readable label for the mode.
    pub fn label(&self) -> (r: String)
        ensures
            r@ == mode_label(*self),
    {
        match self {
            AesMode::Ecb => String::from_str("ECB (padded)"),
            AesMode::EcbNoPadding => String::from_str("ECB (no padding)"),
            AesMode::Cbc => String::from_str("CBC (padded)"),
            AesMode::CbcNoPadding => String::from_str("CBC (no padding)"),
            AesMode::Ctr => String::from_str("CTR"),
            AesMode::Ofb => String::from_str("OFB"),
            AesMode::Cfb => String::from_str("CFB"),
        }
    }
}

/// The IV a dispatch call uses: the given one, or all zeroes.
pub open spec fn iv_or_zero(iv: Option<&[u8]>) -> Seq<u8> {
    match iv {
        Some(v) => v@,
        None => Seq::new(16, |i: int| 0u8),
    }
}

/// What encryption returns for each mode.
pub open spec fn encrypt_dispatch_s(
    d: Seq<u8>,
    key: Seq<u8>,
    mode: AesMode,
    ivs: Seq<u8>,
) -> Seq<u8> {
    match mode {
        AesMode::Ecb => ecb_enc_s(pad16(d), key),
        AesMode::EcbNoPadding => ecb_enc_s(d, key),
        AesMode::Cbc => cbc_enc_s(pad16(d), key, ivs),
        AesMode::CbcNoPadding => cbc_enc_s(d, key, ivs),
        AesMode::Ctr => ctr_s(d, key, ivs),
        AesMode::Ofb => ofb_s(d, key, ivs),
        AesMode::Cfb => cfb_enc_s(d, key, ivs),
    }
}

/// What decryption returns for each mode.
pub open spec fn decrypt_dispatch_s(
    d: Seq<u8>,
    key: Seq<u8>,
    mode: AesMode,
    ivs: Seq<u8>,
) -> Seq<u8> {
    match mode {
        AesMode::Ecb => unpad16(ecb_dec_s(d, key)),
        AesMode::EcbNoPadding => ecb_dec_s(d, key),
        AesMode::Cbc => unpad16(cbc_dec_s(d, key, ivs)),
        AesMode::CbcNoPadding => cbc_dec_s(d, key, ivs),
        AesMode::Ctr => ctr_s(d, key, ivs),
        AesMode::Ofb => ofb_s(d, key, ivs),
        AesMode::Cfb => cfb_dec_s(d, key, ivs),
    }
}

/// A mode that requires whole-block input on this side of the operation.
pub open spec fn needs_whole_blocks_enc(mode: AesMode) -> bool {
    mode == AesMode::EcbNoPadding || mode == AesMode::CbcNoPadding
}

/// Decryption of any block mode requires whole-block ciphertext.
pub open spec fn needs_whole_blocks_dec(mode: AesMode) -> bool {
    mode == AesMode::Ecb || mode == AesMode::EcbNoPadding || mode == AesMode::Cbc || mode
        == AesMode::CbcNoPadding
}

/// An encryptor holding a 16-byte key, dispatching over the modes.
pub struct Aes {
    inner: Aes128,
}

impl Aes {
    /// The 16-byte key.
    pub closed spec fn spec_key(&self) -> Seq<u8> {
        self.inner.spec_key()
    }

    /// Well-formed: the key has 16 bytes.
    pub open spec fn wf(&self) -> bool {
        self.spec_key().len() == 16
    }

    /// Wrap a 16-byte key.
    pub fn new(key: Vec<u8>) -> (r: Aes)
        requires
            key@.len() == 16,
        ensures
            r.wf(),
            r.spec_key() == key@,
    {
        Aes { inner: Aes128::new(key) }
    }

    /// Encrypt under the chosen mode; a missing IV means all zeroes.
    pub fn encrypt(&self, data: &[u8], mode: AesMode, iv: Option<&[u8]>) -> (r: Vec<u8>)
        requires
            self.wf(),
            iv is Some ==> iv.unwrap()@.len() == 16,
            needs_whole_blocks_enc(mode) ==> data@.len() % 16 == 0,
        ensures
            r@ == encrypt_dispatch_s(data@, self.spec_key(), mode, iv_or_zero(iv)),
    {
        let ivv = iv_bytes(iv);
        match mode {
            AesMode::Ecb => self.inner.encrypt_ecb(data),
            AesMode::EcbNoPadding => self.inner.encrypt_ecb_no_padding(data),
            AesMode::Cbc => self.inner.encrypt_cbc(data, ivv.as_slice()),
            AesMode::CbcNoPadding => self.inner.encrypt_cbc_no_padding(data, ivv.as_slice()),
            AesMode::Ctr => self.inner.encrypt_ctr(data, ivv.as_slice()),
            AesMode::Ofb => self.inner.encrypt_ofb(data, ivv.as_slice()),
            AesMode::Cfb => self.inner.encrypt_cfb(data, ivv.as_slice()),
        }
    }

    /// Decrypt under the chosen mode; a missing IV means all zeroes.
    pub fn decrypt(&self, data: &[u8], mode: AesMode, iv: Option<&[u8]>) -> (r: Vec<u8>)
        requires
            self.wf(),
            iv is Some ==> iv.unwrap()@.len() == 16,
            needs_whole_blocks_dec(mode) ==> data@.len() % 16 == 0,
        ensures
            r@ == decrypt_dispatch_s(data@, self.spec_key(), mode, iv_or_zero(iv)),
    {
        let ivv = iv_bytes(iv);
        match mode {
            AesMode::Ecb => self.inner.decrypt_ecb(data),
            AesMode::EcbNoPadding => self.inner.decrypt_ecb_no_padding(data),
            AesMode::Cbc => self.inner.decrypt_cbc(data, ivv.as_slice()),
            AesMode::CbcNoPadding => self.inner.decrypt_cbc_no_padding(data, ivv.as_slice()),
            AesMode::Ctr => self.inner.decrypt_ctr(data, ivv.as_slice()),
            AesMode::Ofb => self.inner.decrypt_ofb(data, ivv.as_slice()),
            AesMode::Cfb => self.inner.decrypt_cfb(data, ivv.as_slice()),
        }
    }
}

/// Materialise the IV: the given 16 bytes, or 16 zeroes.
fn iv_bytes(iv: Option<&[u8]>) -> (r: Vec<u8>)
    requires
        iv is Some ==> iv.unwrap()@.len() == 16,
    ensures
        r@ == iv_or_zero(iv),
        r@.len() == 16,
{
    match iv {
        Some(v) => {
            let mut out: Vec<u8> = Vec::new();
            let mut i: usize = 0;
            while i < 16
                invariant
                    0 <= i <= 16,
                    v@.len() == 16,
                    out@ =~= v@.subrange(0, i as int),
                decreases 16 - i,
            {
                out.push(v[i]);
                proof {
                    assert(out@ =~= v@.subrange(0, i + 1));
                }
                i = i + 1;
            }
            proof {
                assert(v@.subrange(0, 16) =~= v@);
            }
            out
        },
        None => {
            let mut out: Vec<u8> = Vec::new();
            let mut i: usize = 0;
            while i < 16
                invariant
                    0 <= i <= 16,
                    out@.len() == i,
                    forall|j: int| 0 <= j < i ==> out@[j] == 0u8,
                decreases 16 - i,
            {
                out.push(0);
                i = i + 1;
            }
            proof {
                assert(out@ =~= Seq::new(16, |j: int| 0u8));
            }
            out
        },
    }
}

/// The lowercase hex character of a nibble value.
pub open spec fn hex_digit_char(n: int) -> char {
    if n == 0 {
        '0'
    } else if n == 1 {
        '1'
    } else if n == 2 {
        '2'
    } else if n == 3 {
        '3'
    } else if n == 4 {
        '4'
    } else if n == 5 {
        '5'
    } else if n == 6 {
        '6'
    } else if n == 7 {
        '7'
    } else if n == 8 {
        '8'
    } else if n == 9 {
        '9'
    } else if n == 10 {
        'a'
    } else if n == 11 {
        'b'
    } else if n == 12 {
        'c'
    } else if n == 13 {
        'd'
    } else if n == 14 {
        'e'
    } else {
        'f'
    }
}

/// The lowercase hex spelling of a byte string: two characters per byte.
pub open spec fn hex_str(bytes: Seq<u8>) -> Seq<char>
    decreases bytes.len(),
{
    if bytes.len() == 0 {
        Seq::empty()
    } else {
        hex_str(bytes.drop_last()) + seq![
            hex_digit_char(bytes.last() as int / 16),
            hex_digit_char(bytes.last() as int % 16),
        ]
    }
}

/// Append the hex character of one nibble.
fn push_nibble(s: &mut String, n: u8)
    requires
        n < 16,
    ensures
        final(s)@ == old(s)@ + seq![hex_digit_char(n as int)],
{
    let digit: &str = if n == 0 {
        "0"
    } else if n == 1 {
        "1"
    } else if n == 2 {
        "2"
    } else if n == 3 {
        "3"
    } else if n == 4 {
        "4"
    } else if n == 5 {
        "5"
    } else if n == 6 {
        "6"
    } else if n == 7 {
        "7"
    } else if n == 8 {
        "8"
    } else if n == 9 {
        "9"
    } else if n == 10 {
        "a"
    } else if n == 11 {
        "b"
    } else if n == 12 {
        "c"
    } else if n == 13 {
        "d"
    } else if n == 14 {
        "e"
    } else {
        "f"
    };
    proof {
        reveal_strlit("0");
        reveal_strlit("1");
        reveal_strlit("2");
        reveal_strlit("3");
        reveal_strlit("4");
        reveal_strlit("5");
        reveal_strlit("6");
        reveal_strlit("7");
        reveal_strlit("8");
        reveal_strlit("9");
        reveal_strlit("a");
        reveal_strlit("b");
        reveal_strlit("c");
        reveal_strlit("d");
        reveal_strlit("e");
        reveal_strlit("f");
        assert(digit@ =~= seq![hex_digit_char(n as int)]);
    }
    s.append(digit);
}

/// The lowercase hex spelling of a byte string.
pub fn bytes_to_hex(bytes: &[u8]) -> (r: String)
    ensures
        r@ == hex_str(bytes@),
{
    let mut out = String::new();
    let mut i: usize = 0;
    while i < bytes.len()
        invariant
            0 <= i <= bytes@.len(),
            out@ == hex_str(bytes@.subrange(0, i as int)),
        decreases bytes@.len() - i,
    {
        let b = bytes[i];
        push_nibble(&mut out, b / 16);
        push_nibble(&mut out, b % 16);
        proof {
            let pre = bytes@.subrange(0, i as int);
            let cur = bytes@.subrange(0, i + 1);
            assert(cur.drop_last() =~= pre);
            assert(cur.last() == bytes@[i as int]);
            assert(out@ =~= hex_str(cur));
        }
        i = i + 1;
    }
    proof {
        assert(bytes@.subrange(0, bytes@.len() as int) =~= bytes@);
    }
    out
}

/// Relies on `rand::thread_rng` and `rand::Rng::fill`: 16 random bytes.
#[verifier::external_body]
pub fn generate_random_key() -> (r: Vec<u8>)
    ensures
        r@.len() == 16,
{
    let mut rng = rand::thread_rng();
    let mut key = [0u8; 16];
    rand::Rng::fill(&mut rng, &mut key[..]);
    key.to_vec()
}

/// Relies on `rand::thread_rng` and `rand::Rng::fill`: 16 random bytes.
#[verifier::external_body]
pub fn generate_random_iv() -> (r: Vec<u8>)
    ensures
        r@.len() == 16,
{
    let mut rng = rand::thread_rng();
    let mut iv = [0u8; 16];
    rand::Rng::fill(&mut rng, &mut iv[..]);
    iv.to_vec()
}

} // verus!
