//! The block-cipher round function: key schedule, the four state
//! transforms and their inverses, and single-block encryption/decryption.
//!
//! The 4x4 state is held flat: the byte at row `r`, column `c` sits at
//! index `4*c + r`, which is exactly the order in which a 16-byte block is
//! loaded, so loading and unloading are identities of the flat form.

use crate::aes::tables::{inv_sbox, inv_sbox_at, lemma_sbox_inverse, rcon, rcon_at, sbox, sbox_at};
use vstd::prelude::*;

verus! {

/// Multiplication by `x` in GF(2^8) with reduction polynomial 0x1B.
pub open spec fn xtime_s(x: u8) -> u8 {
    if x & 0x80 != 0 {
        (x << 1) ^ 0x1b
    } else {
        x << 1
    }
}

/// Multiplication by `x` in GF(2^8).
pub fn xtime(x: u8) -> (r: u8)
    ensures
        r == xtime_s(x),
{
    if x & 0x80 != 0 {
        (x << 1u8) ^ 0x1b
    } else {
        x << 1u8
    }
}

/// The peasant-multiply recurrence over GF(2^8): `i` steps remaining,
/// accumulator `r`.
pub open spec fn gmul(a: u8, b: u8, r: u8, i: nat) -> u8
    decreases i,
{
    if i == 0 {
        r
    } else {
        gmul(
            xtime_s(a),
            b >> 1,
            if b & 1 == 1 {
                r ^ a
            } else {
                r
            },
            (i - 1) as nat,
        )
    }
}

/// Full product of two bytes in GF(2^8).
pub open spec fn mul_s(x: u8, y: u8) -> u8 {
    gmul(x, y, 0, 8)
}

/// Product of two bytes in GF(2^8), by the peasant multiply.
pub fn mul(x: u8, y: u8) -> (res: u8)
    ensures
        res == mul_s(x, y),
{
    let mut r: u8 = 0;
    let mut a = x;
    let mut b = y;
    let mut i: usize = 0;
    while i < 8
        invariant
            0 <= i <= 8,
            gmul(a, b, r, (8 - i) as nat) == mul_s(x, y),
        decreases 8 - i,
    {
        proof {
            assert(b & 1 == 0 || b & 1 == 1) by (bit_vector);
        }
        if b & 1 != 0 {
            r = r ^ a;
        }
        let hi_bit_set = a & 0x80;
        a = a << 1u8;
        if hi_bit_set != 0 {
            a = a ^ 0x1b;
        }
        b = b >> 1u8;
        i = i + 1;
    }
    r
}

/// Byte-wise substitution of a 4-byte word.
pub open spec fn sub_word_s(w: Seq<u8>) -> Seq<u8> {
    Seq::new(4, |j: int| sbox(w[j]))
}

/// Left-cyclic rotation of a 4-byte word.
pub open spec fn rot_word_s(w: Seq<u8>) -> Seq<u8> {
    seq![w[1], w[2], w[3], w[0]]
}

/// XOR of two 4-byte words.
pub open spec fn xor4(a: Seq<u8>, b: Seq<u8>) -> Seq<u8> {
    Seq::new(4, |j: int| a[j] ^ b[j])
}

/// Byte-wise substitution of a 4-byte word.
pub fn sub_word(w: &[u8]) -> (r: Vec<u8>)
    requires
        w@.len() == 4,
    ensures
        r@ == sub_word_s(w@),
{
    let out: Vec<u8> = vec![sbox_at(w[0]), sbox_at(w[1]), sbox_at(w[2]), sbox_at(w[3])];
    proof {
        assert(out@ =~= sub_word_s(w@));
    }
    out
}

/// Left-cyclic rotation of a 4-byte word.
pub fn rot_word(w: &[u8]) -> (r: Vec<u8>)
    requires
        w@.len() == 4,
    ensures
        r@ == rot_word_s(w@),
{
    let out: Vec<u8> = vec![w[1], w[2], w[3], w[0]];
    proof {
        assert(out@ =~= rot_word_s(w@));
    }
    out
}

/// Word `i` of the key schedule: the first four words copy the key, later
/// ones mix the previous word (rotated, substituted and round-constant
/// adjusted every fourth word) into the word four places back.
pub open spec fn ks_word(key: Seq<u8>, i: int) -> Seq<u8>
    decreases i,
{
    if i < 4 {
        key.subrange(4 * i, 4 * i + 4)
    } else {
        let prev = ks_word(key, i - 1);
        let tmp = if i % 4 == 0 {
            let sw = sub_word_s(rot_word_s(prev));
            sw.update(0, sw[0] ^ rcon(i / 4))
        } else {
            prev
        };
        xor4(ks_word(key, i - 4), tmp)
    }
}

/// Every schedule word has four bytes.
pub proof fn lemma_ks_word_len(key: Seq<u8>, i: int)
    requires
        key.len() == 16,
        0 <= i,
    ensures
        ks_word(key, i).len() == 4,
    decreases i,
{
    if i >= 4 {
        lemma_ks_word_len(key, i - 1);
        lemma_ks_word_len(key, i - 4);
    }
}

/// Round key `r` of the schedule: words `4r` through `4r + 3`.
pub open spec fn round_key(key: Seq<u8>, r: int) -> Seq<u8> {
    ks_word(key, 4 * r) + ks_word(key, 4 * r + 1) + ks_word(key, 4 * r + 2) + ks_word(
        key,
        4 * r + 3,
    )
}

/// Expand a 16-byte key into the flat 176-byte schedule of 44 words.
#[verifier::loop_isolation(false)]
pub fn key_expansion(key: &[u8]) -> (r: Vec<u8>)
    requires
        key@.len() == 16,
    ensures
        r@.len() == 176,
        forall|i: int| 0 <= i < 44 ==> #[trigger] r@.subrange(4 * i, 4 * i + 4) == ks_word(
            key@,
            i,
        ),
{
    let mut w: Vec<u8> = Vec::new();
    let mut i: usize = 0;
    while i < 16
        invariant
            0 <= i <= 16,
            w@ =~= key@.subrange(0, i as int),
        decreases 16 - i,
    {
        w.push(key[i]);
        proof {
            assert(w@ =~= key@.subrange(0, i + 1));
        }
        i = i + 1;
    }
    proof {
        assert(w@ =~= key@);
        assert forall|j: int| 0 <= j < 4 implies #[trigger] w@.subrange(4 * j, 4 * j + 4)
            == ks_word(key@, j) by {
            assert(w@.subrange(4 * j, 4 * j + 4) =~= key@.subrange(4 * j, 4 * j + 4));
        }
    }
    let mut wi: usize = 4;
    while wi < 44
        invariant
            4 <= wi <= 44,
            w@.len() == 4 * wi,
            forall|j: int| 0 <= j < wi ==> #[trigger] w@.subrange(4 * j, 4 * j + 4) == ks_word(
                key@,
                j,
            ),
        decreases 44 - wi,
    {
        let ghost w_old = w@;
        let base = 4 * (wi - 1);
        let mut t0 = w[base];
        let mut t1 = w[base + 1];
        let mut t2 = w[base + 2];
        let mut t3 = w[base + 3];
        proof {
            assert(w_old.subrange(4 * (wi - 1), 4 * (wi - 1) + 4) == ks_word(key@, wi - 1));
            assert(ks_word(key@, wi - 1) =~= seq![t0, t1, t2, t3]);
        }
        if wi % 4 == 0 {
            let n0 = sbox_at(t1);
            let n1 = sbox_at(t2);
            let n2 = sbox_at(t3);
            let n3 = sbox_at(t0);
            proof {
                let prev = ks_word(key@, wi - 1);
                assert(rot_word_s(prev) =~= seq![t1, t2, t3, t0]);
                assert(sub_word_s(rot_word_s(prev)) =~= seq![n0, n1, n2, n3]);
            }
            t0 = n0 ^ rcon_at(wi / 4);
            t1 = n1;
            t2 = n2;
            t3 = n3;
            proof {
                let prev = ks_word(key@, wi - 1);
                let sw = sub_word_s(rot_word_s(prev));
                assert(sw.update(0, sw[0] ^ rcon(wi as int / 4)) =~= seq![t0, t1, t2, t3]);
            }
        }
        let fb = 4 * (wi - 4);
        let b0 = w[fb] ^ t0;
        let b1 = w[fb + 1] ^ t1;
        let b2 = w[fb + 2] ^ t2;
        let b3 = w[fb + 3] ^ t3;
        w.push(b0);
        w.push(b1);
        w.push(b2);
        w.push(b3);
        proof {
            let iw = wi as int;
            assert(w_old.subrange(4 * (iw - 4), 4 * (iw - 4) + 4) == ks_word(key@, iw - 4));
            assert(ks_word(key@, iw - 4) =~= seq![w_old[4 * (iw - 4)], w_old[4 * (iw - 4) + 1],
                w_old[4 * (iw - 4) + 2], w_old[4 * (iw - 4) + 3]]);
            assert(w@.subrange(4 * iw, 4 * iw + 4) =~= seq![b0, b1, b2, b3]);
            assert(ks_word(key@, iw) =~= seq![b0, b1, b2, b3]);
            assert forall|j: int| 0 <= j < iw + 1 implies #[trigger] w@.subrange(4 * j, 4 * j + 4)
                == ks_word(key@, j) by {
                if j < iw {
                    assert(w@.subrange(4 * j, 4 * j + 4) =~= w_old.subrange(4 * j, 4 * j + 4));
                }
            }
        }
        wi = wi + 1;
    }
    w
}

/// A 16-byte round-key slice of the flat schedule is the round key.
pub proof fn lemma_round_key_slice(w: Seq<u8>, key: Seq<u8>, r: int)
    requires
        key.len() == 16,
        w.len() == 176,
        0 <= r < 11,
        forall|i: int| 0 <= i < 44 ==> #[trigger] w.subrange(4 * i, 4 * i + 4) == ks_word(key, i),
    ensures
        w.subrange(16 * r, 16 * r + 16) == round_key(key, r),
{
    lemma_ks_word_len(key, 4 * r);
    lemma_ks_word_len(key, 4 * r + 1);
    lemma_ks_word_len(key, 4 * r + 2);
    lemma_ks_word_len(key, 4 * r + 3);
    assert(w.subrange(4 * (4 * r), 4 * (4 * r) + 4) == ks_word(key, 4 * r));
    assert(w.subrange(4 * (4 * r + 1), 4 * (4 * r + 1) + 4) == ks_word(key, 4 * r + 1));
    assert(w.subrange(4 * (4 * r + 2), 4 * (4 * r + 2) + 4) == ks_word(key, 4 * r + 2));
    assert(w.subrange(4 * (4 * r + 3), 4 * (4 * r + 3) + 4) == ks_word(key, 4 * r + 3));
    assert(w.subrange(16 * r, 16 * r + 16) =~= round_key(key, r));
}

/// Byte-wise substitution of the whole state.
pub open spec fn sub_bytes_s(s: Seq<u8>) -> Seq<u8> {
    Seq::new(16, |i: int| sbox(s[i]))
}

/// Inverse byte-wise substitution.
pub open spec fn inv_sub_bytes_s(s: Seq<u8>) -> Seq<u8> {
    Seq::new(16, |i: int| inv_sbox(s[i]))
}

/// Where the byte at flat index `i` comes from under shift-rows: row `r`
/// is rotated left by `r`.
pub open spec fn shift_src(i: int) -> int {
    4 * (((i / 4) + (i % 4)) % 4) + (i % 4)
}

/// Where the byte at flat index `i` comes from under inverse shift-rows:
/// row `r` is rotated right by `r`.
pub open spec fn inv_shift_src(i: int) -> int {
    4 * (((i / 4) + 4 - (i % 4)) % 4) + (i % 4)
}

/// Shift-rows on the flat state.
pub open spec fn shift_rows_s(s: Seq<u8>) -> Seq<u8> {
    Seq::new(16, |i: int| s[shift_src(i)])
}

/// Inverse shift-rows on the flat state.
pub open spec fn inv_shift_rows_s(s: Seq<u8>) -> Seq<u8> {
    Seq::new(16, |i: int| s[inv_shift_src(i)])
}

/// XOR of a 16-byte state with a 16-byte round key.
pub open spec fn add_round_key_s(s: Seq<u8>, rk: Seq<u8>) -> Seq<u8> {
    Seq::new(16, |i: int| s[i] ^ rk[i])
}

/// Row 0 of the mix-columns linear map applied to one column.
pub open spec fn mix_col0(a: u8, b: u8, c: u8, d: u8) -> u8 {
    xtime_s(a) ^ xtime_s(b) ^ b ^ c ^ d
}

/// Row 1 of the mix-columns linear map applied to one column.
pub open spec fn mix_col1(a: u8, b: u8, c: u8, d: u8) -> u8 {
    a ^ xtime_s(b) ^ xtime_s(c) ^ c ^ d
}

/// Row 2 of the mix-columns linear map applied to one column.
pub open spec fn mix_col2(a: u8, b: u8, c: u8, d: u8) -> u8 {
    a ^ b ^ xtime_s(c) ^ xtime_s(d) ^ d
}

/// Row 3 of the mix-columns linear map applied to one column.
pub open spec fn mix_col3(a: u8, b: u8, c: u8, d: u8) -> u8 {
    xtime_s(a) ^ a ^ b ^ c ^ xtime_s(d)
}

/// Row 0 of the inverse mix-columns map applied to one column.
pub open spec fn inv_mix_col0(a: u8, b: u8, c: u8, d: u8) -> u8 {
    mul_s(a, 0x0e) ^ mul_s(b, 0x0b) ^ mul_s(c, 0x0d) ^ mul_s(d, 0x09)
}

/// Row 1 of the inverse mix-columns map applied to one column.
pub open spec fn inv_mix_col1(a: u8, b: u8, c: u8, d: u8) -> u8 {
    mul_s(a, 0x09) ^ mul_s(b, 0x0e) ^ mul_s(c, 0x0b) ^ mul_s(d, 0x0d)
}

/// Row 2 of the inverse mix-columns map applied to one column.
pub open spec fn inv_mix_col2(a: u8, b: u8, c: u8, d: u8) -> u8 {
    mul_s(a, 0x0d) ^ mul_s(b, 0x09) ^ mul_s(c, 0x0e) ^ mul_s(d, 0x0b)
}

/// Row 3 of the inverse mix-columns map applied to one column.
pub open spec fn inv_mix_col3(a: u8, b: u8, c: u8, d: u8) -> u8 {
    mul_s(a, 0x0b) ^ mul_s(b, 0x0d) ^ mul_s(c, 0x09) ^ mul_s(d, 0x0e)
}

/// Mix-columns on the flat state.
pub open spec fn mix_columns_s(s: Seq<u8>) -> Seq<u8> {
    Seq::new(
        16,
        |i: int|
            {
                let a = s[4 * (i / 4)];
                let b = s[4 * (i / 4) + 1];
                let c = s[4 * (i / 4) + 2];
                let d = s[4 * (i / 4) + 3];
                if i % 4 == 0 {
                    mix_col0(a, b, c, d)
                } else if i % 4 == 1 {
                    mix_col1(a, b, c, d)
                } else if i % 4 == 2 {
                    mix_col2(a, b, c, d)
                } else {
                    mix_col3(a, b, c, d)
                }
            },
    )
}

/// Inverse mix-columns on the flat state.
pub open spec fn inv_mix_columns_s(s: Seq<u8>) -> Seq<u8> {
    Seq::new(
        16,
        |i: int|
            {
                let a = s[4 * (i / 4)];
                let b = s[4 * (i / 4) + 1];
                let c = s[4 * (i / 4) + 2];
                let d = s[4 * (i / 4) + 3];
                if i % 4 == 0 {
                    inv_mix_col0(a, b, c, d)
                } else if i % 4 == 1 {
                    inv_mix_col1(a, b, c, d)
                } else if i % 4 == 2 {
                    inv_mix_col2(a, b, c, d)
                } else {
                    inv_mix_col3(a, b, c, d)
                }
            },
    )
}

/// Byte-wise substitution, in place.
pub fn sub_bytes(state: &mut Vec<u8>)
    requires
        old(state)@.len() == 16,
    ensures
        final(state)@ == sub_bytes_s(old(state)@),
{
    let mut out: Vec<u8> = Vec::new();
    let mut i: usize = 0;
    while i < 16
        invariant
            0 <= i <= 16,
            state@ == old(state)@,
            state@.len() == 16,
            out@.len() == i,
            forall|j: int| 0 <= j < i ==> out@[j] == sbox(state@[j]),
        decreases 16 - i,
    {
        out.push(sbox_at(state[i]));
        i = i + 1;
    }
    proof {
        assert(out@ =~= sub_bytes_s(state@));
    }
    *state = out;
}

/// Inverse byte-wise substitution, in place.
pub fn inv_sub_bytes(state: &mut Vec<u8>)
    requires
        old(state)@.len() == 16,
    ensures
        final(state)@ == inv_sub_bytes_s(old(state)@),
{
    let mut out: Vec<u8> = Vec::new();
    let mut i: usize = 0;
    while i < 16
        invariant
            0 <= i <= 16,
            state@ == old(state)@,
            state@.len() == 16,
            out@.len() == i,
            forall|j: int| 0 <= j < i ==> out@[j] == inv_sbox(state@[j]),
        decreases 16 - i,
    {
        out.push(inv_sbox_at(state[i]));
        i = i + 1;
    }
    proof {
        assert(out@ =~= inv_sub_bytes_s(state@));
    }
    *state = out;
}

/// Shift-rows, in place.
pub fn shift_rows(state: &mut Vec<u8>)
    requires
        old(state)@.len() == 16,
    ensures
        final(state)@ == shift_rows_s(old(state)@),
{
    let mut out: Vec<u8> = Vec::new();
    let mut i: usize = 0;
    while i < 16
        invariant
            0 <= i <= 16,
            state@ == old(state)@,
            state@.len() == 16,
            out@.len() == i,
            forall|j: int| 0 <= j < i ==> out@[j] == state@[shift_src(j)],
        decreases 16 - i,
    {
        let r = i % 4;
        let c = i / 4;
        let src = 4 * ((c + r) % 4) + r;
        out.push(state[src]);
        i = i + 1;
    }
    proof {
        assert(out@ =~= shift_rows_s(state@));
    }
    *state = out;
}

/// Inverse shift-rows, in place.
pub fn inv_shift_rows(state: &mut Vec<u8>)
    requires
        old(state)@.len() == 16,
    ensures
        final(state)@ == inv_shift_rows_s(old(state)@),
{
    let mut out: Vec<u8> = Vec::new();
    let mut i: usize = 0;
    while i < 16
        invariant
            0 <= i <= 16,
            state@ == old(state)@,
            state@.len() == 16,
            out@.len() == i,
            forall|j: int| 0 <= j < i ==> out@[j] == state@[inv_shift_src(j)],
        decreases 16 - i,
    {
        let r = i % 4;
        let c = i / 4;
        let src = 4 * ((c + 4 - r) % 4) + r;
        out.push(state[src]);
        i = i + 1;
    }
    proof {
        assert(out@ =~= inv_shift_rows_s(state@));
    }
    *state = out;
}

/// XOR round key `round` of the schedule into the state, in place.
pub fn add_round_key(state: &mut Vec<u8>, w: &Vec<u8>, round: usize)
    requires
        old(state)@.len() == 16,
        w@.len() == 176,
        round <= 10,
    ensures
        final(state)@ == add_round_key_s(
            old(state)@,
            w@.subrange(16 * round as int, 16 * round as int + 16),
        ),
{
    let mut out: Vec<u8> = Vec::new();
    let mut i: usize = 0;
    while i < 16
        invariant
            0 <= i <= 16,
            state@ == old(state)@,
            state@.len() == 16,
            out@.len() == i,
            round <= 10,
            w@.len() == 176,
            forall|j: int| 0 <= j < i ==> out@[j] == (state@[j] ^ w@[16 * round as int + j]),
        decreases 16 - i,
    {
        out.push(state[i] ^ w[16 * round + i]);
        i = i + 1;
    }
    proof {
        assert(out@ =~= add_round_key_s(
            state@,
            w@.subrange(16 * round as int, 16 * round as int + 16),
        ));
    }
    *state = out;
}

/// Mix-columns, in place.
pub fn mix_columns(state: &mut Vec<u8>)
    requires
        old(state)@.len() == 16,
    ensures
        final(state)@ == mix_columns_s(old(state)@),
{
    let mut out: Vec<u8> = Vec::new();
    let mut c: usize = 0;
    while c < 4
        invariant
            0 <= c <= 4,
            state@ == old(state)@,
            state@.len() == 16,
            out@.len() == 4 * c,
            forall|j: int| 0 <= j < 4 * c ==> out@[j] == mix_columns_s(state@)[j],
        decreases 4 - c,
    {
        let a = state[4 * c];
        let b = state[4 * c + 1];
        let c_ = state[4 * c + 2];
        let d = state[4 * c + 3];
        out.push(xtime(a) ^ xtime(b) ^ b ^ c_ ^ d);
        out.push(a ^ xtime(b) ^ xtime(c_) ^ c_ ^ d);
        out.push(a ^ b ^ xtime(c_) ^ xtime(d) ^ d);
        out.push(xtime(a) ^ a ^ b ^ c_ ^ xtime(d));
        proof {
            assert forall|j: int| 0 <= j < 4 * (c + 1) implies out@[j] == mix_columns_s(state@)[j]
                by {
                if j >= 4 * c {
                    assert(j / 4 == c as int) by (nonlinear_arith)
                        requires
                            4 * c <= j < 4 * (c + 1),
                    ;
                }
            }
        }
        c = c + 1;
    }
    proof {
        assert(out@ =~= mix_columns_s(state@));
    }
    *state = out;
}

/// Inverse mix-columns, in place.
pub fn inv_mix_columns(state: &mut Vec<u8>)
    requires
        old(state)@.len() == 16,
    ensures
        final(state)@ == inv_mix_columns_s(old(state)@),
{
    let mut out: Vec<u8> = Vec::new();
    let mut c: usize = 0;
    while c < 4
        invariant
            0 <= c <= 4,
            state@ == old(state)@,
            state@.len() == 16,
            out@.len() == 4 * c,
            forall|j: int| 0 <= j < 4 * c ==> out@[j] == inv_mix_columns_s(state@)[j],
        decreases 4 - c,
    {
        let a = state[4 * c];
        let b = state[4 * c + 1];
        let c_ = state[4 * c + 2];
        let d = state[4 * c + 3];
        out.push(
            crate::aes::block::mul(a, 0x0e) ^ crate::aes::block::mul(b, 0x0b)
                ^ crate::aes::block::mul(c_, 0x0d) ^ crate::aes::block::mul(d, 0x09),
        );
        out.push(
            crate::aes::block::mul(a, 0x09) ^ crate::aes::block::mul(b, 0x0e)
                ^ crate::aes::block::mul(c_, 0x0b) ^ crate::aes::block::mul(d, 0x0d),
        );
        out.push(
            crate::aes::block::mul(a, 0x0d) ^ crate::aes::block::mul(b, 0x09)
                ^ crate::aes::block::mul(c_, 0x0e) ^ crate::aes::block::mul(d, 0x0b),
        );
        out.push(
            crate::aes::block::mul(a, 0x0b) ^ crate::aes::block::mul(b, 0x0d)
                ^ crate::aes::block::mul(c_, 0x09) ^ crate::aes::block::mul(d, 0x0e),
        );
        proof {
            assert forall|j: int| 0 <= j < 4 * (c + 1) implies out@[j] == inv_mix_columns_s(
                state@,
            )[j] by {
                if j >= 4 * c {
                    assert(j / 4 == c as int) by (nonlinear_arith)
                        requires
                            4 * c <= j < 4 * (c + 1),
                    ;
                }
            }
        }
        c = c + 1;
    }
    proof {
        assert(out@ =~= inv_mix_columns_s(state@));
    }
    *state = out;
}

/// One middle encryption round.
pub open spec fn enc_round(s: Seq<u8>, rk: Seq<u8>) -> Seq<u8> {
    add_round_key_s(mix_columns_s(shift_rows_s(sub_bytes_s(s))), rk)
}

/// The state after middle rounds `1..=r` of encryption.
pub open spec fn enc_rounds(s: Seq<u8>, key: Seq<u8>, r: int) -> Seq<u8>
    decreases r,
{
    if r <= 0 {
        s
    } else {
        enc_round(enc_rounds(s, key, r - 1), round_key(key, r))
    }
}

/// One middle decryption round.
pub open spec fn dec_round(s: Seq<u8>, rk: Seq<u8>) -> Seq<u8> {
    inv_mix_columns_s(add_round_key_s(inv_sub_bytes_s(inv_shift_rows_s(s)), rk))
}

/// The state after middle rounds `r` down to `1` of decryption.
pub open spec fn dec_rounds(s: Seq<u8>, key: Seq<u8>, r: int) -> Seq<u8>
    decreases r,
{
    if r <= 0 {
        s
    } else {
        dec_rounds(dec_round(s, round_key(key, r)), key, r - 1)
    }
}

/// Single-block encryption as a function of block and key.
pub open spec fn aes_enc_spec(input: Seq<u8>, key: Seq<u8>) -> Seq<u8> {
    let s0 = add_round_key_s(input, round_key(key, 0));
    let s9 = enc_rounds(s0, key, 9);
    add_round_key_s(shift_rows_s(sub_bytes_s(s9)), round_key(key, 10))
}

/// Single-block decryption as a function of block and key.
pub open spec fn aes_dec_spec(input: Seq<u8>, key: Seq<u8>) -> Seq<u8> {
    let t0 = add_round_key_s(input, round_key(key, 10));
    let t9 = dec_rounds(t0, key, 9);
    add_round_key_s(inv_sub_bytes_s(inv_shift_rows_s(t9)), round_key(key, 0))
}

/// Copy a 16-byte block into a fresh state vector.
fn load_state(input: &[u8]) -> (r: Vec<u8>)
    requires
        input@.len() == 16,
    ensures
        r@ == input@,
{
    let mut out: Vec<u8> = Vec::new();
    let mut i: usize = 0;
    while i < 16
        invariant
            0 <= i <= 16,
            input@.len() == 16,
            out@ =~= input@.subrange(0, i as int),
        decreases 16 - i,
    {
        out.push(input[i]);
        proof {
            assert(out@ =~= input@.subrange(0, i + 1));
        }
        i = i + 1;
    }
    proof {
        assert(input@.subrange(0, 16) =~= input@);
    }
    out
}

/// Encrypt one 16-byte block under a 16-byte key.
#[verifier::loop_isolation(false)]
pub fn aes_encrypt_block(input: &[u8], key: &[u8]) -> (r: Vec<u8>)
    requires
        input@.len() == 16,
        key@.len() == 16,
    ensures
        r@ == aes_enc_spec(input@, key@),
        r@.len() == 16,
{
    let w = key_expansion(key);
    let mut state = load_state(input);
    add_round_key(&mut state, &w, 0);
    proof {
        lemma_round_key_slice(w@, key@, 0);
        assert(state@ == enc_rounds(add_round_key_s(input@, round_key(key@, 0)), key@, 0));
    }
    let ghost s0 = add_round_key_s(input@, round_key(key@, 0));
    let mut round: usize = 1;
    while round < 10
        invariant
            1 <= round <= 10,
            state@ == enc_rounds(s0, key@, round - 1),
            state@.len() == 16,
        decreases 10 - round,
    {
        sub_bytes(&mut state);
        shift_rows(&mut state);
        mix_columns(&mut state);
        add_round_key(&mut state, &w, round);
        proof {
            lemma_round_key_slice(w@, key@, round as int);
            assert(state@ == enc_rounds(s0, key@, round as int));
        }
        round = round + 1;
    }
    sub_bytes(&mut state);
    shift_rows(&mut state);
    add_round_key(&mut state, &w, 10);
    proof {
        lemma_round_key_slice(w@, key@, 10);
    }
    state
}

/// Decrypt one 16-byte block under a 16-byte key.
#[verifier::loop_isolation(false)]
pub fn aes_decrypt_block(input: &[u8], key: &[u8]) -> (r: Vec<u8>)
    requires
        input@.len() == 16,
        key@.len() == 16,
    ensures
        r@ == aes_dec_spec(input@, key@),
        r@.len() == 16,
{
    let w = key_expansion(key);
    let mut state = load_state(input);
    add_round_key(&mut state, &w, 10);
    proof {
        lemma_round_key_slice(w@, key@, 10);
        assert(state@ == dec_rounds(add_round_key_s(input@, round_key(key@, 10)), key@, 9 - 9));
    }
    let ghost t0 = add_round_key_s(input@, round_key(key@, 10));
    let mut round: usize = 9;
    while round > 0
        invariant
            0 <= round <= 9,
            state@ == dec_rounds_from(t0, key@, round as int),
            state@.len() == 16,
        decreases round,
    {
        inv_shift_rows(&mut state);
        inv_sub_bytes(&mut state);
        add_round_key(&mut state, &w, round);
        inv_mix_columns(&mut state);
        proof {
            lemma_round_key_slice(w@, key@, round as int);
            assert(state@ == dec_rounds_from(t0, key@, round - 1));
        }
        round = round - 1;
    }
    inv_shift_rows(&mut state);
    inv_sub_bytes(&mut state);
    add_round_key(&mut state, &w, 0);
    proof {
        lemma_round_key_slice(w@, key@, 0);
        lemma_dec_rounds_from(t0, key@, 9);
    }
    state
}

/// The state after middle decryption rounds `9` down to `r + 1`.
pub open spec fn dec_rounds_from(s: Seq<u8>, key: Seq<u8>, r: int) -> Seq<u8>
    decreases 9 - r,
{
    if r >= 9 {
        s
    } else {
        dec_round(dec_rounds_from(s, key, r + 1), round_key(key, r + 1))
    }
}

/// Counting the decryption rounds down from 9 agrees with `dec_rounds`.
pub proof fn lemma_dec_rounds_from(s: Seq<u8>, key: Seq<u8>, r: int)
    requires
        0 <= r <= 9,
    ensures
        dec_rounds_from(s, key, 0) == dec_rounds(dec_rounds_from(s, key, r), key, r),
    decreases r,
{
    if r > 0 {
        lemma_dec_rounds_from(s, key, r - 1);
        assert(dec_rounds_from(s, key, r - 1) == dec_round(
            dec_rounds_from(s, key, r),
            round_key(key, r),
        ));
    }
}

/// XORing the same round key twice gives the state back.
pub proof fn lemma_add_round_key_cancel(s: Seq<u8>, rk: Seq<u8>)
    requires
        s.len() == 16,
    ensures
        add_round_key_s(add_round_key_s(s, rk), rk) == s,
{
    assert(forall|a: u8, b: u8| #[trigger] ((a ^ b) ^ b) == a) by (bit_vector);
    assert(add_round_key_s(add_round_key_s(s, rk), rk) =~= s);
}

/// Inverse shift-rows undoes shift-rows.
pub proof fn lemma_shift_rows_inverse(s: Seq<u8>)
    requires
        s.len() == 16,
    ensures
        inv_shift_rows_s(shift_rows_s(s)) == s,
{
    assert forall|i: int| 0 <= i < 16 implies inv_shift_rows_s(shift_rows_s(s))[i] == s[i] by {
        let j = inv_shift_src(i);
        assert(0 <= j < 16);
        assert(shift_src(j) == i) by (nonlinear_arith)
            requires
                0 <= i < 16,
                j == 4 * (((i / 4) + 4 - (i % 4)) % 4) + (i % 4),
        ;
    }
    assert(inv_shift_rows_s(shift_rows_s(s)) =~= s);
}

/// Inverse substitution undoes substitution.
pub proof fn lemma_sub_bytes_inverse(s: Seq<u8>)
    requires
        s.len() == 16,
    ensures
        inv_sub_bytes_s(sub_bytes_s(s)) == s,
{
    lemma_sbox_inverse();
    assert(inv_sub_bytes_s(sub_bytes_s(s)) =~= s);
}

/// `xtime` written without a branch: the reduction term is selected by a
/// mask built from the top bit.
pub open spec fn xtm(x: u8) -> u8 {
    (x << 1) ^ (0x1b & ((0xff * (x >> 7)) as u8))
}

/// The branch form and the mask form of `xtime` agree.
pub broadcast proof fn lemma_xtime_mask(x: u8)
    ensures
        #[trigger] xtime_s(x) == xtm(x),
{
    assert(xtime_s(x) == xtm(x)) by (bit_vector);
}

/// The products by the fixed inverse-mix coefficients, written as chains
/// of `xtime`.
pub proof fn lemma_mul_xtime_forms(x: u8)
    ensures
        mul_s(x, 0x0e) == xtime_s(x) ^ xtime_s(xtime_s(x)) ^ xtime_s(xtime_s(xtime_s(x))),
        mul_s(x, 0x0b) == x ^ xtime_s(x) ^ xtime_s(xtime_s(xtime_s(x))),
        mul_s(x, 0x0d) == x ^ xtime_s(xtime_s(x)) ^ xtime_s(xtime_s(xtime_s(x))),
        mul_s(x, 0x09) == x ^ xtime_s(xtime_s(xtime_s(x))),
{
    assert(gmul(x, 0x0e, 0, 8) == xtime_s(x) ^ xtime_s(xtime_s(x)) ^ xtime_s(
        xtime_s(xtime_s(x)),
    )) by (bit_vector);
    assert(gmul(x, 0x0b, 0, 8) == x ^ xtime_s(x) ^ xtime_s(xtime_s(xtime_s(x))))
        by (bit_vector);
    assert(gmul(x, 0x0d, 0, 8) == x ^ xtime_s(xtime_s(x)) ^ xtime_s(xtime_s(xtime_s(x))))
        by (bit_vector);
    assert(gmul(x, 0x09, 0, 8) == x ^ xtime_s(xtime_s(xtime_s(x)))) by (bit_vector);
}

/// The inverse mix-columns map undoes the forward map on one column.
#[verifier::rlimit(100)]
pub proof fn lemma_mix_cell_inverse(a: u8, b: u8, c: u8, d: u8)
    ensures
        inv_mix_col0(
            mix_col0(a, b, c, d),
            mix_col1(a, b, c, d),
            mix_col2(a, b, c, d),
            mix_col3(a, b, c, d),
        ) == a,
        inv_mix_col1(
            mix_col0(a, b, c, d),
            mix_col1(a, b, c, d),
            mix_col2(a, b, c, d),
            mix_col3(a, b, c, d),
        ) == b,
        inv_mix_col2(
            mix_col0(a, b, c, d),
            mix_col1(a, b, c, d),
            mix_col2(a, b, c, d),
            mix_col3(a, b, c, d),
        ) == c,
        inv_mix_col3(
            mix_col0(a, b, c, d),
            mix_col1(a, b, c, d),
            mix_col2(a, b, c, d),
            mix_col3(a, b, c, d),
        ) == d,
{
    broadcast use lemma_xtime_mask;

    let m0 = mix_col0(a, b, c, d);
    let m1 = mix_col1(a, b, c, d);
    let m2 = mix_col2(a, b, c, d);
    let m3 = mix_col3(a, b, c, d);
    lemma_mul_xtime_forms(m0);
    lemma_mul_xtime_forms(m1);
    lemma_mul_xtime_forms(m2);
    lemma_mul_xtime_forms(m3);
    assert((xtm(m0) ^ xtm(xtm(m0)) ^ xtm(xtm(xtm(m0)))) ^ (m1 ^ xtm(m1) ^ xtm(xtm(xtm(m1)))) ^ (
    m2 ^ xtm(xtm(m2)) ^ xtm(xtm(xtm(m2)))) ^ (m3 ^ xtm(xtm(xtm(m3)))) == a) by (bit_vector)
        requires
            m0 == xtm(a) ^ xtm(b) ^ b ^ c ^ d,
            m1 == a ^ xtm(b) ^ xtm(c) ^ c ^ d,
            m2 == a ^ b ^ xtm(c) ^ xtm(d) ^ d,
            m3 == xtm(a) ^ a ^ b ^ c ^ xtm(d),
    ;
    assert((m0 ^ xtm(xtm(xtm(m0)))) ^ (xtm(m1) ^ xtm(xtm(m1)) ^ xtm(xtm(xtm(m1)))) ^ (m2 ^ xtm(
        m2,
    ) ^ xtm(xtm(xtm(m2)))) ^ (m3 ^ xtm(xtm(m3)) ^ xtm(xtm(xtm(m3)))) == b) by (bit_vector)
        requires
            m0 == xtm(a) ^ xtm(b) ^ b ^ c ^ d,
            m1 == a ^ xtm(b) ^ xtm(c) ^ c ^ d,
            m2 == a ^ b ^ xtm(c) ^ xtm(d) ^ d,
            m3 == xtm(a) ^ a ^ b ^ c ^ xtm(d),
    ;
    assert((m0 ^ xtm(xtm(m0)) ^ xtm(xtm(xtm(m0)))) ^ (m1 ^ xtm(xtm(xtm(m1)))) ^ (xtm(m2) ^ xtm(
        xtm(m2),
    ) ^ xtm(xtm(xtm(m2)))) ^ (m3 ^ xtm(m3) ^ xtm(xtm(xtm(m3)))) == c) by (bit_vector)
        requires
            m0 == xtm(a) ^ xtm(b) ^ b ^ c ^ d,
            m1 == a ^ xtm(b) ^ xtm(c) ^ c ^ d,
            m2 == a ^ b ^ xtm(c) ^ xtm(d) ^ d,
            m3 == xtm(a) ^ a ^ b ^ c ^ xtm(d),
    ;
    assert((m0 ^ xtm(m0) ^ xtm(xtm(xtm(m0)))) ^ (m1 ^ xtm(xtm(m1)) ^ xtm(xtm(xtm(m1)))) ^ (m2
        ^ xtm(xtm(xtm(m2)))) ^ (xtm(m3) ^ xtm(xtm(m3)) ^ xtm(xtm(xtm(m3)))) == d)
        by (bit_vector)
        requires
            m0 == xtm(a) ^ xtm(b) ^ b ^ c ^ d,
            m1 == a ^ xtm(b) ^ xtm(c) ^ c ^ d,
            m2 == a ^ b ^ xtm(c) ^ xtm(d) ^ d,
            m3 == xtm(a) ^ a ^ b ^ c ^ xtm(d),
    ;
}

/// Inverse mix-columns undoes mix-columns.
pub proof fn lemma_mix_columns_inverse(s: Seq<u8>)
    requires
        s.len() == 16,
    ensures
        inv_mix_columns_s(mix_columns_s(s)) == s,
{
    let t = mix_columns_s(s);
    assert forall|i: int| 0 <= i < 16 implies inv_mix_columns_s(t)[i] == s[i] by {
        let cbase = 4 * (i / 4);
        assert(cbase == 4 * (cbase / 4)) by (nonlinear_arith)
            requires
                0 <= i < 16,
                cbase == 4 * (i / 4),
        ;
        assert((cbase + 1) / 4 == i / 4 && (cbase + 2) / 4 == i / 4 && (cbase + 3) / 4 == i / 4
            && cbase / 4 == i / 4 && cbase % 4 == 0 && (cbase + 1) % 4 == 1 && (cbase + 2) % 4
            == 2 && (cbase + 3) % 4 == 3) by (nonlinear_arith)
            requires
                0 <= i < 16,
                cbase == 4 * (i / 4),
        ;
        let a = s[cbase];
        let b = s[cbase + 1];
        let c = s[cbase + 2];
        let d = s[cbase + 3];
        assert(t[cbase] == mix_col0(a, b, c, d));
        assert(t[cbase + 1] == mix_col1(a, b, c, d));
        assert(t[cbase + 2] == mix_col2(a, b, c, d));
        assert(t[cbase + 3] == mix_col3(a, b, c, d));
        lemma_mix_cell_inverse(a, b, c, d);
        assert(cbase <= i < cbase + 4) by (nonlinear_arith)
            requires
                0 <= i < 16,
                cbase == 4 * (i / 4),
        ;
    }
    assert(inv_mix_columns_s(mix_columns_s(s)) =~= s);
}

/// All the state maps keep the state 16 bytes long.
pub proof fn lemma_enc_rounds_len(s: Seq<u8>, key: Seq<u8>, r: int)
    requires
        s.len() == 16,
        r >= 0,
    ensures
        enc_rounds(s, key, r).len() == 16,
    decreases r,
{
    if r > 0 {
        lemma_enc_rounds_len(s, key, r - 1);
    }
}

/// The middle decryption rounds undo the middle encryption rounds, up to
/// the trailing shift-and-substitute pair.
pub proof fn lemma_rounds_invert(s0: Seq<u8>, key: Seq<u8>, r: int)
    requires
        s0.len() == 16,
        key.len() == 16,
        0 <= r <= 9,
    ensures
        dec_rounds(shift_rows_s(sub_bytes_s(enc_rounds(s0, key, r))), key, r) == shift_rows_s(
            sub_bytes_s(s0),
        ),
    decreases r,
{
    if r > 0 {
        let prev = enc_rounds(s0, key, r - 1);
        lemma_enc_rounds_len(s0, key, r - 1);
        let m = mix_columns_s(shift_rows_s(sub_bytes_s(prev)));
        let rk = round_key(key, r);
        let cur = enc_rounds(s0, key, r);
        assert(cur == add_round_key_s(m, rk));
        let x = shift_rows_s(sub_bytes_s(cur));
        assert(inv_shift_rows_s(x) == sub_bytes_s(cur)) by {
            lemma_shift_rows_inverse(sub_bytes_s(cur));
        }
        assert(inv_sub_bytes_s(inv_shift_rows_s(x)) == cur) by {
            lemma_sub_bytes_inverse(cur);
        }
        assert(add_round_key_s(cur, rk) == m) by {
            lemma_add_round_key_cancel(m, rk);
        }
        assert(dec_round(x, rk) == shift_rows_s(sub_bytes_s(prev))) by {
            lemma_mix_columns_inverse(shift_rows_s(sub_bytes_s(prev)));
        }
        lemma_rounds_invert(s0, key, r - 1);
    }
}

/// Block decryption undoes block encryption: for every 16-byte block and
/// 16-byte key, decrypting the encryption gives the block back.
pub proof fn lemma_block_roundtrip(input: Seq<u8>, key: Seq<u8>)
    requires
        input.len() == 16,
        key.len() == 16,
    ensures
        aes_dec_spec(aes_enc_spec(input, key), key) == input,
{
    let s0 = add_round_key_s(input, round_key(key, 0));
    let s9 = enc_rounds(s0, key, 9);
    lemma_enc_rounds_len(s0, key, 9);
    let ct = add_round_key_s(shift_rows_s(sub_bytes_s(s9)), round_key(key, 10));
    assert(ct == aes_enc_spec(input, key));
    let t0 = add_round_key_s(ct, round_key(key, 10));
    assert(t0 == shift_rows_s(sub_bytes_s(s9))) by {
        lemma_add_round_key_cancel(shift_rows_s(sub_bytes_s(s9)), round_key(key, 10));
    }
    lemma_rounds_invert(s0, key, 9);
    let t9 = dec_rounds(t0, key, 9);
    assert(t9 == shift_rows_s(sub_bytes_s(s0)));
    assert(inv_shift_rows_s(t9) == sub_bytes_s(s0)) by {
        lemma_shift_rows_inverse(sub_bytes_s(s0));
    }
    assert(inv_sub_bytes_s(inv_shift_rows_s(t9)) == s0) by {
        lemma_sub_bytes_inverse(s0);
    }
    assert(add_round_key_s(s0, round_key(key, 0)) == input) by {
        lemma_add_round_key_cancel(input, round_key(key, 0));
    }
}

} // verus!
