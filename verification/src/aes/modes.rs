//! The mode layer: ECB and CBC with and without PKCS#7 padding, and the
//! CTR, OFB and CFB streaming modes, over the single-block cipher.

use crate::aes::block::{aes_dec_spec, aes_decrypt_block, aes_enc_spec, aes_encrypt_block};
use vstd::prelude::*;

verus! {

/// XOR of two 16-byte blocks.
pub open spec fn xor16(a: Seq<u8>, b: Seq<u8>) -> Seq<u8> {
    Seq::new(16, |i: int| a[i] ^ b[i])
}

/// XOR of a (possibly short) final chunk with the front of a keystream
/// block.
pub open spec fn xor_trunc(d: Seq<u8>, ks: Seq<u8>) -> Seq<u8> {
    Seq::new(d.len(), |i: int| d[i] ^ ks[i])
}

/// PKCS#7 padding: append `p` bytes of value `p`, `p` in `[1, 16]`.
pub open spec fn pad16(d: Seq<u8>) -> Seq<u8> {
    let p = 16 - (d.len() % 16);
    d + Seq::new(p as nat, |i: int| p as u8)
}

/// Defensive PKCS#7 stripping: remove the pad when the trailing byte is a
/// plausible pad length, otherwise return the input unchanged.
pub open spec fn unpad16(d: Seq<u8>) -> Seq<u8> {
    if d.len() == 0 {
        d
    } else {
        let p = d.last();
        if p == 0 || p > 16 || p > d.len() {
            d
        } else {
            d.take(d.len() - p)
        }
    }
}

/// Big-endian increment with carry from position `i` toward the front,
/// wrapping silently.
pub open spec fn inc_from(s: Seq<u8>, i: int) -> Seq<u8>
    decreases i + 1,
{
    if i < 0 {
        s
    } else if s[i] == 0xff {
        inc_from(s.update(i, 0), i - 1)
    } else {
        s.update(i, (s[i] + 1) as u8)
    }
}

/// Big-endian increment of a 16-byte counter.
pub open spec fn inc16(s: Seq<u8>) -> Seq<u8> {
    inc_from(s, 15)
}

/// The carry walk keeps the length.
pub proof fn lemma_inc_from_len(s: Seq<u8>, i: int)
    requires
        i < s.len(),
    ensures
        inc_from(s, i).len() == s.len(),
    decreases i + 1,
{
    if i >= 0 && s[i] == 0xff {
        lemma_inc_from_len(s.update(i, 0), i - 1);
    }
}

/// ECB over whole blocks: each 16-byte chunk through the block cipher.
pub open spec fn ecb_enc_s(d: Seq<u8>, key: Seq<u8>) -> Seq<u8>
    decreases d.len(),
{
    if d.len() == 0 {
        Seq::empty()
    } else if d.len() <= 16 {
        aes_enc_spec(d.take(16), key)
    } else {
        aes_enc_spec(d.take(16), key) + ecb_enc_s(d.skip(16), key)
    }
}

/// ECB decryption over whole blocks.
pub open spec fn ecb_dec_s(d: Seq<u8>, key: Seq<u8>) -> Seq<u8>
    decreases d.len(),
{
    if d.len() == 0 {
        Seq::empty()
    } else if d.len() <= 16 {
        aes_dec_spec(d.take(16), key)
    } else {
        aes_dec_spec(d.take(16), key) + ecb_dec_s(d.skip(16), key)
    }
}

/// CBC encryption over whole blocks with chained feedback `prev`.
pub open spec fn cbc_enc_s(d: Seq<u8>, key: Seq<u8>, prev: Seq<u8>) -> Seq<u8>
    decreases d.len(),
{
    if d.len() == 0 {
        Seq::empty()
    } else if d.len() <= 16 {
        aes_enc_spec(xor16(d.take(16), prev), key)
    } else {
        let c = aes_enc_spec(xor16(d.take(16), prev), key);
        c + cbc_enc_s(d.skip(16), key, c)
    }
}

/// CBC decryption over whole blocks with chained feedback `prev`.
pub open spec fn cbc_dec_s(d: Seq<u8>, key: Seq<u8>, prev: Seq<u8>) -> Seq<u8>
    decreases d.len(),
{
    if d.len() == 0 {
        Seq::empty()
    } else if d.len() <= 16 {
        xor16(aes_dec_spec(d.take(16), key), prev)
    } else {
        xor16(aes_dec_spec(d.take(16), key), prev) + cbc_dec_s(d.skip(16), key, d.take(16))
    }
}

/// CTR keystream combination: encrypt the counter, XOR, step the counter.
pub open spec fn ctr_s(d: Seq<u8>, key: Seq<u8>, ctr: Seq<u8>) -> Seq<u8>
    decreases d.len(),
{
    if d.len() == 0 {
        Seq::empty()
    } else if d.len() <= 16 {
        xor_trunc(d, aes_enc_spec(ctr, key))
    } else {
        xor_trunc(d.take(16), aes_enc_spec(ctr, key)) + ctr_s(d.skip(16), key, inc16(ctr))
    }
}

/// OFB: the feedback register is the previous keystream block.
pub open spec fn ofb_s(d: Seq<u8>, key: Seq<u8>, fb: Seq<u8>) -> Seq<u8>
    decreases d.len(),
{
    if d.len() == 0 {
        Seq::empty()
    } else if d.len() <= 16 {
        xor_trunc(d, aes_enc_spec(fb, key))
    } else {
        xor_trunc(d.take(16), aes_enc_spec(fb, key)) + ofb_s(
            d.skip(16),
            key,
            aes_enc_spec(fb, key),
        )
    }
}

/// CFB encryption: the feedback register is the previous ciphertext block.
pub open spec fn cfb_enc_s(d: Seq<u8>, key: Seq<u8>, fb: Seq<u8>) -> Seq<u8>
    decreases d.len(),
{
    if d.len() == 0 {
        Seq::empty()
    } else if d.len() <= 16 {
        xor_trunc(d, aes_enc_spec(fb, key))
    } else {
        let c = xor_trunc(d.take(16), aes_enc_spec(fb, key));
        c + cfb_enc_s(d.skip(16), key, c)
    }
}

/// CFB decryption: the same keystream schedule, fed by the ciphertext.
pub open spec fn cfb_dec_s(d: Seq<u8>, key: Seq<u8>, fb: Seq<u8>) -> Seq<u8>
    decreases d.len(),
{
    if d.len() == 0 {
        Seq::empty()
    } else if d.len() <= 16 {
        xor_trunc(d, aes_enc_spec(fb, key))
    } else {
        xor_trunc(d.take(16), aes_enc_spec(fb, key)) + cfb_dec_s(d.skip(16), key, d.take(16))
    }
}

/// XOR of two 16-byte blocks.
pub fn xor_block(a: &[u8], b: &[u8]) -> (r: Vec<u8>)
    requires
        a@.len() == 16,
        b@.len() == 16,
    ensures
        r@ == xor16(a@, b@),
        r@.len() == 16,
{
    let mut out: Vec<u8> = Vec::new();
    let mut i: usize = 0;
    while i < 16
        invariant
            0 <= i <= 16,
            a@.len() == 16,
            b@.len() == 16,
            out@.len() == i,
            forall|j: int| 0 <= j < i ==> out@[j] == (a@[j] ^ b@[j]),
        decreases 16 - i,
    {
        out.push(a[i] ^ b[i]);
        i = i + 1;
    }
    proof {
        assert(out@ =~= xor16(a@, b@));
    }
    out
}

/// Increment a 16-byte big-endian counter in place, wrapping silently.
#[verifier::loop_isolation(false)]
pub fn inc_block(block: &mut Vec<u8>)
    requires
        old(block)@.len() == 16,
    ensures
        final(block)@ == inc16(old(block)@),
        final(block)@.len() == 16,
{
    let ghost orig = block@;
    let mut i: usize = 16;
    while i > 0
        invariant
            0 <= i <= 16,
            block@.len() == 16,
            inc_from(orig, 15) == inc_from(block@, i - 1),
        decreases i,
    {
        i = i - 1;
        let ghost pre = block@;
        if block[i] == 0xff {
            block[i] = 0;
            proof {
                assert(block@ =~= pre.update(i as int, 0));
            }
        } else {
            let b = block[i];
            block[i] = b + 1;
            proof {
                assert(block@ =~= pre.update(i as int, (pre[i as int] + 1) as u8));
                lemma_inc_from_len(orig, 15);
            }
            return ;
        }
    }
    proof {
        lemma_inc_from_len(orig, 15);
    }
}

/// PKCS#7-pad to the next multiple of 16.
pub fn pkcs7_pad(data: &[u8]) -> (r: Vec<u8>)
    ensures
        r@ == pad16(data@),
        r@.len() == data@.len() + 16 - (data@.len() % 16),
        r@.len() % 16 == 0,
{
    let pad_len = 16 - (data.len() % 16);
    let mut out = copy_bytes(data);
    let mut i: usize = 0;
    while i < pad_len
        invariant
            0 <= i <= pad_len,
            pad_len == 16 - (data@.len() % 16),
            out@ =~= data@ + Seq::new(i as nat, |j: int| pad_len as u8),
        decreases pad_len - i,
    {
        out.push(pad_len as u8);
        proof {
            assert(out@ =~= data@ + Seq::new((i + 1) as nat, |j: int| pad_len as u8));
        }
        i = i + 1;
    }
    proof {
        assert(out@ =~= pad16(data@));
        vstd::arithmetic::div_mod::lemma_sub_mod_noop(
            (data@.len() + 16) as int,
            data@.len() as int % 16,
            16,
        );
        assert((data@.len() + 16 - (data@.len() % 16)) % 16 == 0) by (nonlinear_arith)
            requires
                data@.len() >= 0,
        ;
    }
    out
}

/// Strip a PKCS#7 pad defensively: an implausible trailing byte leaves the
/// input unchanged.
pub fn pkcs7_unpad(data: &[u8]) -> (r: Vec<u8>)
    ensures
        r@ == unpad16(data@),
{
    if data.len() == 0 {
        return Vec::new();
    }
    let pad_len = data[data.len() - 1];
    if pad_len == 0 || pad_len > 16 || (pad_len as usize) > data.len() {
        return copy_bytes(data);
    }
    let keep = data.len() - (pad_len as usize);
    let mut out: Vec<u8> = Vec::new();
    let mut i: usize = 0;
    while i < keep
        invariant
            0 <= i <= keep,
            keep <= data@.len(),
            out@ =~= data@.subrange(0, i as int),
        decreases keep - i,
    {
        out.push(data[i]);
        proof {
            assert(out@ =~= data@.subrange(0, i + 1));
        }
        i = i + 1;
    }
    proof {
        assert(out@ =~= unpad16(data@));
    }
    out
}

/// Copy a byte slice into a fresh vector.
fn copy_bytes(data: &[u8]) -> (r: Vec<u8>)
    ensures
        r@ == data@,
{
    let mut out: Vec<u8> = Vec::new();
    let mut i: usize = 0;
    while i < data.len()
        invariant
            0 <= i <= data@.len(),
            out@ =~= data@.subrange(0, i as int),
        decreases data@.len() - i,
    {
        out.push(data[i]);
        proof {
            assert(out@ =~= data@.subrange(0, i + 1));
        }
        i = i + 1;
    }
    proof {
        assert(data@.subrange(0, data@.len() as int) =~= data@);
    }
    out
}

/// Copy the 16-byte chunk of `data` that starts at `i`.
fn take_block(data: &[u8], i: usize) -> (r: Vec<u8>)
    requires
        i + 16 <= data@.len(),
    ensures
        r@ == data@.subrange(i as int, i + 16),
        r@.len() == 16,
{
    let n = data.len();
    let mut out: Vec<u8> = Vec::new();
    let mut j: usize = 0;
    while j < 16
        invariant
            0 <= j <= 16,
            i + 16 <= n,
            n == data@.len(),
            out@ =~= data@.subrange(i as int, i + j),
        decreases 16 - j,
    {
        out.push(data[i + j]);
        proof {
            assert(out@ =~= data@.subrange(i as int, i + j + 1));
        }
        j = j + 1;
    }
    out
}

/// A key holder for the seven modes of operation.
pub struct Aes128 {
    key: Vec<u8>,
}

impl Aes128 {
    /// The 16-byte key.
    pub closed spec fn spec_key(&self) -> Seq<u8> {
        self.key@
    }

    /// A well-formed holder has a key of exactly 16 bytes.
    pub open spec fn wf(&self) -> bool {
        self.spec_key().len() == 16
    }

    /// Wrap a 16-byte key.
    pub fn new(key: Vec<u8>) -> (r: Aes128)
        requires
            key@.len() == 16,
        ensures
            r.wf(),
            r.spec_key() == key@,
    {
        Aes128 { key }
    }

    /// ECB with PKCS#7 padding.
    pub fn encrypt_ecb(&self, data: &[u8]) -> (r: Vec<u8>)
        requires
            self.wf(),
        ensures
            r@ == ecb_enc_s(pad16(data@), self.spec_key()),
    {
        let padded = pkcs7_pad(data);
        ecb_encrypt_blocks(&self.key, padded.as_slice())
    }

    /// ECB decryption with defensive PKCS#7 stripping.
    pub fn decrypt_ecb(&self, data: &[u8]) -> (r: Vec<u8>)
        requires
            self.wf(),
            data@.len() % 16 == 0,
        ensures
            r@ == unpad16(ecb_dec_s(data@, self.spec_key())),
    {
        let out = ecb_decrypt_blocks(&self.key, data);
        pkcs7_unpad(out.as_slice())
    }

    /// ECB without padding; the data must be a whole number of blocks.
    pub fn encrypt_ecb_no_padding(&self, data: &[u8]) -> (r: Vec<u8>)
        requires
            self.wf(),
            data@.len() % 16 == 0,
        ensures
            r@ == ecb_enc_s(data@, self.spec_key()),
    {
        ecb_encrypt_blocks(&self.key, data)
    }

    /// ECB decryption without padding.
    pub fn decrypt_ecb_no_padding(&self, data: &[u8]) -> (r: Vec<u8>)
        requires
            self.wf(),
            data@.len() % 16 == 0,
        ensures
            r@ == ecb_dec_s(data@, self.spec_key()),
    {
        ecb_decrypt_blocks(&self.key, data)
    }

    /// CBC with PKCS#7 padding.
    pub fn encrypt_cbc(&self, data: &[u8], iv: &[u8]) -> (r: Vec<u8>)
        requires
            self.wf(),
            iv@.len() == 16,
        ensures
            r@ == cbc_enc_s(pad16(data@), self.spec_key(), iv@),
    {
        let padded = pkcs7_pad(data);
        cbc_encrypt_blocks(&self.key, padded.as_slice(), iv)
    }

    /// CBC decryption with defensive PKCS#7 stripping.
    pub fn decrypt_cbc(&self, data: &[u8], iv: &[u8]) -> (r: Vec<u8>)
        requires
            self.wf(),
            iv@.len() == 16,
            data@.len() % 16 == 0,
        ensures
            r@ == unpad16(cbc_dec_s(data@, self.spec_key(), iv@)),
    {
        let out = cbc_decrypt_blocks(&self.key, data, iv);
        pkcs7_unpad(out.as_slice())
    }

    /// CBC without padding; the data must be a whole number of blocks.
    pub fn encrypt_cbc_no_padding(&self, data: &[u8], iv: &[u8]) -> (r: Vec<u8>)
        requires
            self.wf(),
            iv@.len() == 16,
            data@.len() % 16 == 0,
        ensures
            r@ == cbc_enc_s(data@, self.spec_key(), iv@),
    {
        cbc_encrypt_blocks(&self.key, data, iv)
    }

    /// CBC decryption without padding.
    pub fn decrypt_cbc_no_padding(&self, data: &[u8], iv: &[u8]) -> (r: Vec<u8>)
        requires
            self.wf(),
            iv@.len() == 16,
            data@.len() % 16 == 0,
        ensures
            r@ == cbc_dec_s(data@, self.spec_key(), iv@),
    {
        cbc_decrypt_blocks(&self.key, data, iv)
    }

    /// CTR: XOR with the keystream of the incrementing counter.
    #[verifier::loop_isolation(false)]
    pub fn encrypt_ctr(&self, data: &[u8], nonce: &[u8]) -> (r: Vec<u8>)
        requires
            self.wf(),
            nonce@.len() == 16,
        ensures
            r@ == ctr_s(data@, self.spec_key(), nonce@),
    {
        let n = data.len();
        let mut ctr = copy_bytes(nonce);
        let mut out: Vec<u8> = Vec::new();
        let mut i: usize = 0;
        proof {
            assert(data@.skip(0) =~= data@);
        }
        while n - i >= 16
            invariant
                0 <= i <= n,
                ctr@.len() == 16,
                out@ + ctr_s(data@.skip(i as int), self.spec_key(), ctr@) == ctr_s(
                    data@,
                    self.spec_key(),
                    nonce@,
                ),
            decreases n - i,
        {
            let keystream = aes_encrypt_block(ctr.as_slice(), self.key.as_slice());
            let block = take_block(data, i);
            let mut xored = xor_block(block.as_slice(), keystream.as_slice());
            proof {
                let rest = data@.skip(i as int);
                assert(rest.take(16) =~= data@.subrange(i as int, i + 16));
                assert(rest.skip(16) =~= data@.skip(i + 16));
                assert(xored@ =~= xor_trunc(rest.take(16), aes_enc_spec(ctr@, self.spec_key())));
                if rest.len() <= 16 {
                    assert(rest.take(16) =~= rest);
                    assert(data@.skip(i + 16) =~= Seq::<u8>::empty());
                    assert((out@ + xored@) + ctr_s(
                        data@.skip(i + 16),
                        self.spec_key(),
                        inc16(ctr@),
                    ) =~= out@ + xored@);
                    assert(out@ + xored@ =~= out@ + ctr_s(rest, self.spec_key(), ctr@));
                } else {
                    assert((out@ + xored@) + ctr_s(
                        data@.skip(i + 16),
                        self.spec_key(),
                        inc16(ctr@),
                    ) =~= out@ + (xored@ + ctr_s(data@.skip(i + 16), self.spec_key(), inc16(ctr@))));
                }
            }
            out.append(&mut xored);
            inc_block(&mut ctr);
            i = i + 16;
        }
        if i < n {
            let keystream = aes_encrypt_block(ctr.as_slice(), self.key.as_slice());
            let ghost rest = data@.skip(i as int);
            let mut j: usize = i;
            let ghost out_pre = out@;
            while j < n
                invariant
                    i <= j <= n,
                    n == data@.len(),
                    n < i + 16,
                    keystream@ == aes_enc_spec(ctr@, self.spec_key()),
                    keystream@.len() == 16,
                    out@ == out_pre + xor_trunc(
                        data@.subrange(i as int, j as int),
                        keystream@,
                    ),
                decreases n - j,
            {
                out.push(data[j] ^ keystream[j - i]);
                proof {
                    assert(out@ =~= out_pre + xor_trunc(
                        data@.subrange(i as int, j + 1),
                        keystream@,
                    ));
                }
                j = j + 1;
            }
            proof {
                assert(data@.subrange(i as int, n as int) =~= rest);
                assert(out@ =~= ctr_s(data@, self.spec_key(), nonce@));
            }
        } else {
            proof {
                assert(data@.skip(i as int) =~= Seq::<u8>::empty());
                assert(out@ + Seq::<u8>::empty() =~= out@);
            }
        }
        out
    }

    /// CTR decryption is the same keystream XOR.
    pub fn decrypt_ctr(&self, data: &[u8], nonce: &[u8]) -> (r: Vec<u8>)
        requires
            self.wf(),
            nonce@.len() == 16,
        ensures
            r@ == ctr_s(data@, self.spec_key(), nonce@),
    {
        self.encrypt_ctr(data, nonce)
    }

    /// OFB: XOR with the iterated-encryption keystream.
    #[verifier::loop_isolation(false)]
    pub fn encrypt_ofb(&self, data: &[u8], iv: &[u8]) -> (r: Vec<u8>)
        requires
            self.wf(),
            iv@.len() == 16,
        ensures
            r@ == ofb_s(data@, self.spec_key(), iv@),
    {
        let n = data.len();
        let mut fb = copy_bytes(iv);
        let mut out: Vec<u8> = Vec::new();
        let mut i: usize = 0;
        proof {
            assert(data@.skip(0) =~= data@);
        }
        while n - i >= 16
            invariant
                0 <= i <= n,
                fb@.len() == 16,
                out@ + ofb_s(data@.skip(i as int), self.spec_key(), fb@) == ofb_s(
                    data@,
                    self.spec_key(),
                    iv@,
                ),
            decreases n - i,
        {
            let keystream = aes_encrypt_block(fb.as_slice(), self.key.as_slice());
            let block = take_block(data, i);
            let mut xored = xor_block(block.as_slice(), keystream.as_slice());
            proof {
                let rest = data@.skip(i as int);
                assert(rest.take(16) =~= data@.subrange(i as int, i + 16));
                assert(rest.skip(16) =~= data@.skip(i + 16));
                assert(xored@ =~= xor_trunc(rest.take(16), aes_enc_spec(fb@, self.spec_key())));
                if rest.len() <= 16 {
                    assert(rest.take(16) =~= rest);
                    assert(data@.skip(i + 16) =~= Seq::<u8>::empty());
                    assert((out@ + xored@) + ofb_s(
                        data@.skip(i + 16),
                        self.spec_key(),
                        keystream@,
                    ) =~= out@ + xored@);
                    assert(out@ + xored@ =~= out@ + ofb_s(rest, self.spec_key(), fb@));
                } else {
                    assert((out@ + xored@) + ofb_s(
                        data@.skip(i + 16),
                        self.spec_key(),
                        keystream@,
                    ) =~= out@ + (xored@ + ofb_s(data@.skip(i + 16), self.spec_key(), keystream@)));
                }
            }
            out.append(&mut xored);
            fb = keystream;
            i = i + 16;
        }
        if i < n {
            let keystream = aes_encrypt_block(fb.as_slice(), self.key.as_slice());
            let ghost rest = data@.skip(i as int);
            let mut j: usize = i;
            let ghost out_pre = out@;
            while j < n
                invariant
                    i <= j <= n,
                    n == data@.len(),
                    n < i + 16,
                    keystream@ == aes_enc_spec(fb@, self.spec_key()),
                    keystream@.len() == 16,
                    out@ == out_pre + xor_trunc(
                        data@.subrange(i as int, j as int),
                        keystream@,
                    ),
                decreases n - j,
            {
                out.push(data[j] ^ keystream[j - i]);
                proof {
                    assert(out@ =~= out_pre + xor_trunc(
                        data@.subrange(i as int, j + 1),
                        keystream@,
                    ));
                }
                j = j + 1;
            }
            proof {
                assert(data@.subrange(i as int, n as int) =~= rest);
                assert(out@ =~= ofb_s(data@, self.spec_key(), iv@));
            }
        } else {
            proof {
                assert(data@.skip(i as int) =~= Seq::<u8>::empty());
                assert(out@ + Seq::<u8>::empty() =~= out@);
            }
        }
        out
    }

    /// OFB decryption is the same keystream XOR.
    pub fn decrypt_ofb(&self, data: &[u8], iv: &[u8]) -> (r: Vec<u8>)
        requires
            self.wf(),
            iv@.len() == 16,
        ensures
            r@ == ofb_s(data@, self.spec_key(), iv@),
    {
        self.encrypt_ofb(data, iv)
    }

    /// CFB encryption: the ciphertext block becomes the next feedback.
    #[verifier::loop_isolation(false)]
    pub fn encrypt_cfb(&self, data: &[u8], iv: &[u8]) -> (r: Vec<u8>)
        requires
            self.wf(),
            iv@.len() == 16,
        ensures
            r@ == cfb_enc_s(data@, self.spec_key(), iv@),
    {
        let n = data.len();
        let mut fb = copy_bytes(iv);
        let mut out: Vec<u8> = Vec::new();
        let mut i: usize = 0;
        proof {
            assert(data@.skip(0) =~= data@);
        }
        while n - i >= 16
            invariant
                0 <= i <= n,
                fb@.len() == 16,
                out@ + cfb_enc_s(data@.skip(i as int), self.spec_key(), fb@) == cfb_enc_s(
                    data@,
                    self.spec_key(),
                    iv@,
                ),
            decreases n - i,
        {
            let keystream = aes_encrypt_block(fb.as_slice(), self.key.as_slice());
            let block = take_block(data, i);
            let xored = xor_block(block.as_slice(), keystream.as_slice());
            proof {
                let rest = data@.skip(i as int);
                assert(rest.take(16) =~= data@.subrange(i as int, i + 16));
                assert(rest.skip(16) =~= data@.skip(i + 16));
                assert(xored@ =~= xor_trunc(rest.take(16), aes_enc_spec(fb@, self.spec_key())));
                if rest.len() <= 16 {
                    assert(rest.take(16) =~= rest);
                    assert(data@.skip(i + 16) =~= Seq::<u8>::empty());
                    assert((out@ + xored@) + cfb_enc_s(
                        data@.skip(i + 16),
                        self.spec_key(),
                        xored@,
                    ) =~= out@ + xored@);
                    assert(out@ + xored@ =~= out@ + cfb_enc_s(rest, self.spec_key(), fb@));
                } else {
                    assert((out@ + xored@) + cfb_enc_s(
                        data@.skip(i + 16),
                        self.spec_key(),
                        xored@,
                    ) =~= out@ + (xored@ + cfb_enc_s(data@.skip(i + 16), self.spec_key(), xored@)));
                }
            }
            let mut piece = copy_bytes(xored.as_slice());
            out.append(&mut piece);
            fb = xored;
            i = i + 16;
        }
        if i < n {
            let keystream = aes_encrypt_block(fb.as_slice(), self.key.as_slice());
            let ghost rest = data@.skip(i as int);
            let mut j: usize = i;
            let ghost out_pre = out@;
            while j < n
                invariant
                    i <= j <= n,
                    n == data@.len(),
                    n < i + 16,
                    keystream@ == aes_enc_spec(fb@, self.spec_key()),
                    keystream@.len() == 16,
                    out@ == out_pre + xor_trunc(
                        data@.subrange(i as int, j as int),
                        keystream@,
                    ),
                decreases n - j,
            {
                out.push(data[j] ^ keystream[j - i]);
                proof {
                    assert(out@ =~= out_pre + xor_trunc(
                        data@.subrange(i as int, j + 1),
                        keystream@,
                    ));
                }
                j = j + 1;
            }
            proof {
                assert(data@.subrange(i as int, n as int) =~= rest);
                assert(out@ =~= cfb_enc_s(data@, self.spec_key(), iv@));
            }
        } else {
            proof {
                assert(data@.skip(i as int) =~= Seq::<u8>::empty());
                assert(out@ + Seq::<u8>::empty() =~= out@);
            }
        }
        out
    }

    /// CFB decryption: the ciphertext block feeds the next keystream.
    #[verifier::loop_isolation(false)]
    pub fn decrypt_cfb(&self, data: &[u8], iv: &[u8]) -> (r: Vec<u8>)
        requires
            self.wf(),
            iv@.len() == 16,
        ensures
            r@ == cfb_dec_s(data@, self.spec_key(), iv@),
    {
        let n = data.len();
        let mut fb = copy_bytes(iv);
        let mut out: Vec<u8> = Vec::new();
        let mut i: usize = 0;
        proof {
            assert(data@.skip(0) =~= data@);
        }
        while n - i >= 16
            invariant
                0 <= i <= n,
                fb@.len() == 16,
                out@ + cfb_dec_s(data@.skip(i as int), self.spec_key(), fb@) == cfb_dec_s(
                    data@,
                    self.spec_key(),
                    iv@,
                ),
            decreases n - i,
        {
            let keystream = aes_encrypt_block(fb.as_slice(), self.key.as_slice());
            let block = take_block(data, i);
            let mut xored = xor_block(block.as_slice(), keystream.as_slice());
            proof {
                let rest = data@.skip(i as int);
                assert(rest.take(16) =~= data@.subrange(i as int, i + 16));
                assert(rest.skip(16) =~= data@.skip(i + 16));
                assert(xored@ =~= xor_trunc(rest.take(16), aes_enc_spec(fb@, self.spec_key())));
                if rest.len() <= 16 {
                    assert(rest.take(16) =~= rest);
                    assert(data@.skip(i + 16) =~= Seq::<u8>::empty());
                    assert((out@ + xored@) + cfb_dec_s(
                        data@.skip(i + 16),
                        self.spec_key(),
                        block@,
                    ) =~= out@ + xored@);
                    assert(out@ + xored@ =~= out@ + cfb_dec_s(rest, self.spec_key(), fb@));
                } else {
                    assert((out@ + xored@) + cfb_dec_s(
                        data@.skip(i + 16),
                        self.spec_key(),
                        block@,
                    ) =~= out@ + (xored@ + cfb_dec_s(data@.skip(i + 16), self.spec_key(), block@)));
                }
            }
            out.append(&mut xored);
            fb = block;
            i = i + 16;
        }
        if i < n {
            let keystream = aes_encrypt_block(fb.as_slice(), self.key.as_slice());
            let ghost rest = data@.skip(i as int);
            let mut j: usize = i;
            let ghost out_pre = out@;
            while j < n
                invariant
                    i <= j <= n,
                    n == data@.len(),
                    n < i + 16,
                    keystream@ == aes_enc_spec(fb@, self.spec_key()),
                    keystream@.len() == 16,
                    out@ == out_pre + xor_trunc(
                        data@.subrange(i as int, j as int),
                        keystream@,
                    ),
                decreases n - j,
            {
                out.push(data[j] ^ keystream[j - i]);
                proof {
                    assert(out@ =~= out_pre + xor_trunc(
                        data@.subrange(i as int, j + 1),
                        keystream@,
                    ));
                }
                j = j + 1;
            }
            proof {
                assert(data@.subrange(i as int, n as int) =~= rest);
                assert(out@ =~= cfb_dec_s(data@, self.spec_key(), iv@));
            }
        } else {
            proof {
                assert(data@.skip(i as int) =~= Seq::<u8>::empty());
                assert(out@ + Seq::<u8>::empty() =~= out@);
            }
        }
        out
    }
}

/// Encrypt whole blocks in ECB order.
#[verifier::loop_isolation(false)]
fn ecb_encrypt_blocks(key: &Vec<u8>, data: &[u8]) -> (r: Vec<u8>)
    requires
        key@.len() == 16,
        data@.len() % 16 == 0,
    ensures
        r@ == ecb_enc_s(data@, key@),
{
    let n = data.len();
    let mut out: Vec<u8> = Vec::new();
    let mut i: usize = 0;
    proof {
        assert(data@.skip(0) =~= data@);
    }
    while i < n
        invariant
            0 <= i <= n,
            i % 16 == 0,
            out@ + ecb_enc_s(data@.skip(i as int), key@) == ecb_enc_s(data@, key@),
        decreases n - i,
    {
        let block = take_block(data, i);
        let mut enc = aes_encrypt_block(block.as_slice(), key.as_slice());
        proof {
            let rest = data@.skip(i as int);
            assert(rest.take(16) =~= data@.subrange(i as int, i + 16));
            assert(rest.skip(16) =~= data@.skip(i + 16));
            if rest.len() <= 16 {
                assert(data@.skip(i + 16) =~= Seq::<u8>::empty());
                assert((out@ + enc@) + ecb_enc_s(data@.skip(i + 16), key@) =~= out@ + enc@);
                assert(out@ + enc@ =~= out@ + ecb_enc_s(rest, key@));
            } else {
                assert((out@ + enc@) + ecb_enc_s(data@.skip(i + 16), key@) =~= out@ + (enc@
                    + ecb_enc_s(data@.skip(i + 16), key@)));
            }
        }
        out.append(&mut enc);
        i = i + 16;
    }
    proof {
        assert(data@.skip(n as int) =~= Seq::<u8>::empty());
        assert(out@ + Seq::<u8>::empty() =~= out@);
    }
    out
}

/// Decrypt whole blocks in ECB order.
#[verifier::loop_isolation(false)]
fn ecb_decrypt_blocks(key: &Vec<u8>, data: &[u8]) -> (r: Vec<u8>)
    requires
        key@.len() == 16,
        data@.len() % 16 == 0,
    ensures
        r@ == ecb_dec_s(data@, key@),
{
    let n = data.len();
    let mut out: Vec<u8> = Vec::new();
    let mut i: usize = 0;
    proof {
        assert(data@.skip(0) =~= data@);
    }
    while i < n
        invariant
            0 <= i <= n,
            i % 16 == 0,
            out@ + ecb_dec_s(data@.skip(i as int), key@) == ecb_dec_s(data@, key@),
        decreases n - i,
    {
        let block = take_block(data, i);
        let mut dec = aes_decrypt_block(block.as_slice(), key.as_slice());
        proof {
            let rest = data@.skip(i as int);
            assert(rest.take(16) =~= data@.subrange(i as int, i + 16));
            assert(rest.skip(16) =~= data@.skip(i + 16));
            if rest.len() <= 16 {
                assert(data@.skip(i + 16) =~= Seq::<u8>::empty());
                assert((out@ + dec@) + ecb_dec_s(data@.skip(i + 16), key@) =~= out@ + dec@);
                assert(out@ + dec@ =~= out@ + ecb_dec_s(rest, key@));
            } else {
                assert((out@ + dec@) + ecb_dec_s(data@.skip(i + 16), key@) =~= out@ + (dec@
                    + ecb_dec_s(data@.skip(i + 16), key@)));
            }
        }
        out.append(&mut dec);
        i = i + 16;
    }
    proof {
        assert(data@.skip(n as int) =~= Seq::<u8>::empty());
        assert(out@ + Seq::<u8>::empty() =~= out@);
    }
    out
}

/// Encrypt whole blocks in CBC order with initial feedback `iv`.
#[verifier::loop_isolation(false)]
fn cbc_encrypt_blocks(key: &Vec<u8>, data: &[u8], iv: &[u8]) -> (r: Vec<u8>)
    requires
        key@.len() == 16,
        iv@.len() == 16,
        data@.len() % 16 == 0,
    ensures
        r@ == cbc_enc_s(data@, key@, iv@),
{
    let n = data.len();
    let mut prev = copy_bytes(iv);
    let mut out: Vec<u8> = Vec::new();
    let mut i: usize = 0;
    proof {
        assert(data@.skip(0) =~= data@);
    }
    while i < n
        invariant
            0 <= i <= n,
            i % 16 == 0,
            prev@.len() == 16,
            out@ + cbc_enc_s(data@.skip(i as int), key@, prev@) == cbc_enc_s(data@, key@, iv@),
        decreases n - i,
    {
        let block = take_block(data, i);
        let xored = xor_block(block.as_slice(), prev.as_slice());
        let enc = aes_encrypt_block(xored.as_slice(), key.as_slice());
        proof {
            let rest = data@.skip(i as int);
            assert(rest.take(16) =~= data@.subrange(i as int, i + 16));
            assert(rest.skip(16) =~= data@.skip(i + 16));
            if rest.len() <= 16 {
                assert(rest.take(16) =~= rest);
                assert(data@.skip(i + 16) =~= Seq::<u8>::empty());
                assert((out@ + enc@) + cbc_enc_s(data@.skip(i + 16), key@, enc@) =~= out@
                    + enc@);
                assert(out@ + enc@ =~= out@ + cbc_enc_s(rest, key@, prev@));
            } else {
                assert((out@ + enc@) + cbc_enc_s(data@.skip(i + 16), key@, enc@) =~= out@ + (
                enc@ + cbc_enc_s(data@.skip(i + 16), key@, enc@)));
            }
        }
        let mut piece = copy_bytes(enc.as_slice());
        out.append(&mut piece);
        prev = enc;
        i = i + 16;
    }
    proof {
        assert(data@.skip(n as int) =~= Seq::<u8>::empty());
        assert(out@ + Seq::<u8>::empty() =~= out@);
    }
    out
}

/// Decrypt whole blocks in CBC order with initial feedback `iv`.
#[verifier::loop_isolation(false)]
fn cbc_decrypt_blocks(key: &Vec<u8>, data: &[u8], iv: &[u8]) -> (r: Vec<u8>)
    requires
        key@.len() == 16,
        iv@.len() == 16,
        data@.len() % 16 == 0,
    ensures
        r@ == cbc_dec_s(data@, key@, iv@),
{
    let n = data.len();
    let mut prev = copy_bytes(iv);
    let mut out: Vec<u8> = Vec::new();
    let mut i: usize = 0;
    proof {
        assert(data@.skip(0) =~= data@);
    }
    while i < n
        invariant
            0 <= i <= n,
            i % 16 == 0,
            prev@.len() == 16,
            out@ + cbc_dec_s(data@.skip(i as int), key@, prev@) == cbc_dec_s(data@, key@, iv@),
        decreases n - i,
    {
        let block = take_block(data, i);
        let dec = aes_decrypt_block(block.as_slice(), key.as_slice());
        let mut xored = xor_block(dec.as_slice(), prev.as_slice());
        proof {
            let rest = data@.skip(i as int);
            assert(rest.take(16) =~= data@.subrange(i as int, i + 16));
            assert(rest.skip(16) =~= data@.skip(i + 16));
            if rest.len() <= 16 {
                assert(rest.take(16) =~= rest);
                assert(data@.skip(i + 16) =~= Seq::<u8>::empty());
                assert((out@ + xored@) + cbc_dec_s(data@.skip(i + 16), key@, block@) =~= out@
                    + xored@);
                assert(out@ + xored@ =~= out@ + cbc_dec_s(rest, key@, prev@));
            } else {
                assert((out@ + xored@) + cbc_dec_s(data@.skip(i + 16), key@, block@) =~= out@
                    + (xored@ + cbc_dec_s(data@.skip(i + 16), key@, block@)));
            }
        }
        out.append(&mut xored);
        prev = block;
        i = i + 16;
    }
    proof {
        assert(data@.skip(n as int) =~= Seq::<u8>::empty());
        assert(out@ + Seq::<u8>::empty() =~= out@);
    }
    out
}

/// A fixed demonstration key: byte `i` is `i * 17 + 23` modulo 256.
pub fn generate_random_key() -> (r: Vec<u8>)
    ensures
        r@.len() == 16,
        forall|i: int| 0 <= i < 16 ==> r@[i] == ((i * 17 + 23) % 256) as u8,
{
    let mut out: Vec<u8> = Vec::new();
    let mut i: usize = 0;
    while i < 16
        invariant
            0 <= i <= 16,
            out@.len() == i,
            forall|j: int| 0 <= j < i ==> out@[j] == ((j * 17 + 23) % 256) as u8,
        decreases 16 - i,
    {
        out.push(((i * 17 + 23) % 256) as u8);
        i = i + 1;
    }
    out
}

/// A fixed demonstration IV: byte `i` is `i * 31 + 77` modulo 256.
pub fn generate_random_iv() -> (r: Vec<u8>)
    ensures
        r@.len() == 16,
        forall|i: int| 0 <= i < 16 ==> r@[i] == ((i * 31 + 77) % 256) as u8,
{
    let mut out: Vec<u8> = Vec::new();
    let mut i: usize = 0;
    while i < 16
        invariant
            0 <= i <= 16,
            out@.len() == i,
            forall|j: int| 0 <= j < i ==> out@[j] == ((j * 31 + 77) % 256) as u8,
        decreases 16 - i,
    {
        out.push(((i * 31 + 77) % 256) as u8);
        i = i + 1;
    }
    out
}

/// XOR with the same block twice gives the block back.
pub proof fn lemma_xor16_cancel(d: Seq<u8>, ks: Seq<u8>)
    requires
        d.len() == 16,
    ensures
        xor16(xor16(d, ks), ks) == d,
{
    assert(forall|a: u8, b: u8| #[trigger] ((a ^ b) ^ b) == a) by (bit_vector);
    assert(xor16(xor16(d, ks), ks) =~= d);
}

/// XOR with the same keystream prefix twice gives the chunk back.
pub proof fn lemma_xor_trunc_cancel(d: Seq<u8>, ks: Seq<u8>)
    ensures
        xor_trunc(xor_trunc(d, ks), ks) == d,
{
    assert(forall|a: u8, b: u8| #[trigger] ((a ^ b) ^ b) == a) by (bit_vector);
    assert(xor_trunc(xor_trunc(d, ks), ks) =~= d);
}

/// ECB keeps the length of whole-block input.
pub proof fn lemma_ecb_enc_len(d: Seq<u8>, key: Seq<u8>)
    requires
        d.len() % 16 == 0,
    ensures
        ecb_enc_s(d, key).len() == d.len(),
    decreases d.len(),
{
    if d.len() > 16 {
        lemma_ecb_enc_len(d.skip(16), key);
    }
}

/// CBC keeps the length of whole-block input.
pub proof fn lemma_cbc_enc_len(d: Seq<u8>, key: Seq<u8>, prev: Seq<u8>)
    requires
        d.len() % 16 == 0,
    ensures
        cbc_enc_s(d, key, prev).len() == d.len(),
    decreases d.len(),
{
    if d.len() > 16 {
        lemma_cbc_enc_len(d.skip(16), key, aes_enc_spec(xor16(d.take(16), prev), key));
    }
}

/// CTR keeps the length.
pub proof fn lemma_ctr_len(d: Seq<u8>, key: Seq<u8>, ctr: Seq<u8>)
    ensures
        ctr_s(d, key, ctr).len() == d.len(),
    decreases d.len(),
{
    if d.len() > 16 {
        lemma_ctr_len(d.skip(16), key, inc16(ctr));
    }
}

/// OFB keeps the length.
pub proof fn lemma_ofb_len(d: Seq<u8>, key: Seq<u8>, fb: Seq<u8>)
    ensures
        ofb_s(d, key, fb).len() == d.len(),
    decreases d.len(),
{
    if d.len() > 16 {
        lemma_ofb_len(d.skip(16), key, aes_enc_spec(fb, key));
    }
}

/// CFB keeps the length.
pub proof fn lemma_cfb_enc_len(d: Seq<u8>, key: Seq<u8>, fb: Seq<u8>)
    ensures
        cfb_enc_s(d, key, fb).len() == d.len(),
    decreases d.len(),
{
    if d.len() > 16 {
        lemma_cfb_enc_len(d.skip(16), key, xor_trunc(d.take(16), aes_enc_spec(fb, key)));
    }
}

/// Stripping a fresh PKCS#7 pad recovers the input.
pub proof fn lemma_pad_unpad(d: Seq<u8>)
    ensures
        unpad16(pad16(d)) == d,
{
    let p = 16 - (d.len() % 16);
    let padded = pad16(d);
    assert(padded.len() == d.len() + p);
    assert(padded.last() == p as u8);
    assert(1 <= p <= 16);
    assert(unpad16(padded) =~= d);
}

/// A padded length is a whole number of blocks.
pub proof fn lemma_pad16_blocks(d: Seq<u8>)
    ensures
        pad16(d).len() % 16 == 0,
        pad16(d).len() > 0,
{
    assert((d.len() + (16 - (d.len() % 16))) % 16 == 0) by (nonlinear_arith)
        requires
            d.len() >= 0,
    ;
}

/// ECB decryption undoes ECB encryption on whole blocks.
pub proof fn lemma_ecb_roundtrip_blocks(d: Seq<u8>, key: Seq<u8>)
    requires
        d.len() % 16 == 0,
        key.len() == 16,
    ensures
        ecb_dec_s(ecb_enc_s(d, key), key) == d,
    decreases d.len(),
{
    if d.len() == 0 {
        assert(ecb_dec_s(ecb_enc_s(d, key), key) =~= d);
    } else if d.len() == 16 {
        let c = ecb_enc_s(d, key);
        assert(c == aes_enc_spec(d.take(16), key));
        assert(c.take(16) =~= c);
        crate::aes::block::lemma_block_roundtrip(d.take(16), key);
        assert(d.take(16) =~= d);
    } else {
        let head = d.take(16);
        let tail = d.skip(16);
        let c = ecb_enc_s(d, key);
        lemma_ecb_enc_len(tail, key);
        assert(c.take(16) =~= aes_enc_spec(head, key));
        assert(c.skip(16) =~= ecb_enc_s(tail, key));
        crate::aes::block::lemma_block_roundtrip(head, key);
        lemma_ecb_roundtrip_blocks(tail, key);
        assert(ecb_dec_s(c, key) =~= d);
    }
}

/// The padded-ECB round trip: decrypt-then-strip undoes pad-then-encrypt.
pub proof fn lemma_ecb_roundtrip(d: Seq<u8>, key: Seq<u8>)
    requires
        key.len() == 16,
    ensures
        unpad16(ecb_dec_s(ecb_enc_s(pad16(d), key), key)) == d,
{
    lemma_pad16_blocks(d);
    lemma_ecb_roundtrip_blocks(pad16(d), key);
    lemma_pad_unpad(d);
}

/// CBC decryption undoes CBC encryption on whole blocks, for any initial
/// feedback.
pub proof fn lemma_cbc_roundtrip_blocks(d: Seq<u8>, key: Seq<u8>, iv: Seq<u8>)
    requires
        d.len() % 16 == 0,
        key.len() == 16,
    ensures
        cbc_dec_s(cbc_enc_s(d, key, iv), key, iv) == d,
    decreases d.len(),
{
    if d.len() == 0 {
        assert(cbc_dec_s(cbc_enc_s(d, key, iv), key, iv) =~= d);
    } else {
        let head = d.take(16);
        let c0 = aes_enc_spec(xor16(head, iv), key);
        crate::aes::block::lemma_block_roundtrip(xor16(head, iv), key);
        lemma_xor16_cancel(head, iv);
        assert(xor16(aes_dec_spec(c0, key), iv) == head) by {
            assert(xor16(head, iv).len() == 16);
        }
        if d.len() == 16 {
            let c = cbc_enc_s(d, key, iv);
            assert(c == c0);
            assert(c.take(16) =~= c0);
            assert(head =~= d);
        } else {
            let tail = d.skip(16);
            let c = cbc_enc_s(d, key, iv);
            lemma_cbc_enc_len(tail, key, c0);
            assert(c.take(16) =~= c0);
            assert(c.skip(16) =~= cbc_enc_s(tail, key, c0));
            lemma_cbc_roundtrip_blocks(tail, key, c0);
            assert(cbc_dec_s(c, key, iv) =~= d);
        }
    }
}

/// The padded-CBC round trip.
pub proof fn lemma_cbc_roundtrip(d: Seq<u8>, key: Seq<u8>, iv: Seq<u8>)
    requires
        key.len() == 16,
    ensures
        unpad16(cbc_dec_s(cbc_enc_s(pad16(d), key, iv), key, iv)) == d,
{
    lemma_pad16_blocks(d);
    lemma_cbc_roundtrip_blocks(pad16(d), key, iv);
    lemma_pad_unpad(d);
}

/// Applying the CTR keystream twice gives the plaintext back.
pub proof fn lemma_ctr_roundtrip(d: Seq<u8>, key: Seq<u8>, ctr: Seq<u8>)
    requires
        key.len() == 16,
    ensures
        ctr_s(ctr_s(d, key, ctr), key, ctr) == d,
    decreases d.len(),
{
    let ks = aes_enc_spec(ctr, key);
    if d.len() == 0 {
        assert(ctr_s(ctr_s(d, key, ctr), key, ctr) =~= d);
    } else if d.len() <= 16 {
        lemma_xor_trunc_cancel(d, ks);
    } else {
        let c = ctr_s(d, key, ctr);
        lemma_ctr_len(d.skip(16), key, inc16(ctr));
        assert(c.take(16) =~= xor_trunc(d.take(16), ks));
        assert(c.skip(16) =~= ctr_s(d.skip(16), key, inc16(ctr)));
        lemma_xor_trunc_cancel(d.take(16), ks);
        lemma_ctr_roundtrip(d.skip(16), key, inc16(ctr));
        assert(xor_trunc(c.take(16), ks) =~= xor_trunc(xor_trunc(d.take(16), ks), ks));
        assert(ctr_s(c, key, ctr) =~= d);
    }
}

/// Applying the OFB keystream twice gives the plaintext back.
pub proof fn lemma_ofb_roundtrip(d: Seq<u8>, key: Seq<u8>, fb: Seq<u8>)
    requires
        key.len() == 16,
    ensures
        ofb_s(ofb_s(d, key, fb), key, fb) == d,
    decreases d.len(),
{
    let ks = aes_enc_spec(fb, key);
    if d.len() == 0 {
        assert(ofb_s(ofb_s(d, key, fb), key, fb) =~= d);
    } else if d.len() <= 16 {
        lemma_xor_trunc_cancel(d, ks);
    } else {
        let c = ofb_s(d, key, fb);
        lemma_ofb_len(d.skip(16), key, ks);
        assert(c.take(16) =~= xor_trunc(d.take(16), ks));
        assert(c.skip(16) =~= ofb_s(d.skip(16), key, ks));
        lemma_xor_trunc_cancel(d.take(16), ks);
        lemma_ofb_roundtrip(d.skip(16), key, ks);
        assert(xor_trunc(c.take(16), ks) =~= xor_trunc(xor_trunc(d.take(16), ks), ks));
        assert(ofb_s(c, key, fb) =~= d);
    }
}

/// CFB decryption undoes CFB encryption for any initial feedback.
pub proof fn lemma_cfb_roundtrip(d: Seq<u8>, key: Seq<u8>, fb: Seq<u8>)
    requires
        key.len() == 16,
    ensures
        cfb_dec_s(cfb_enc_s(d, key, fb), key, fb) == d,
    decreases d.len(),
{
    let ks = aes_enc_spec(fb, key);
    if d.len() == 0 {
        assert(cfb_dec_s(cfb_enc_s(d, key, fb), key, fb) =~= d);
    } else if d.len() <= 16 {
        lemma_xor_trunc_cancel(d, ks);
    } else {
        let c0 = xor_trunc(d.take(16), ks);
        let c = cfb_enc_s(d, key, fb);
        lemma_cfb_enc_len(d.skip(16), key, c0);
        assert(c.take(16) =~= c0);
        assert(c.skip(16) =~= cfb_enc_s(d.skip(16), key, c0));
        lemma_xor_trunc_cancel(d.take(16), ks);
        lemma_cfb_roundtrip(d.skip(16), key, c0);
        assert(xor_trunc(c.take(16), ks) =~= xor_trunc(xor_trunc(d.take(16), ks), ks));
        assert(cfb_dec_s(c, key, fb) =~= d);
    }
}

} // verus!
