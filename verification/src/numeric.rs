//! Shared numeric utilities: Miller-Rabin primality testing, modular
//! inverse by the extended Euclidean algorithm, probable-prime search,
//! safe-prime construction and generator search.

use crate::bignum::{
    add_big, div_big, eq_big, is_even_big, lt_big, modpow_big, mul_big, npow, rand_bits_big,
    rand_range_big, rem_big, sub_big, BigNat,
};
use crate::CryptoError;
use vstd::arithmetic::power2::pow2;
use vstd::prelude::*;

verus! {

/// How many random draws a search loop may spend before giving up.
pub const MAX_DRAWS: u64 = 0xffff_ffff;

/// Greatest common divisor, by the Euclidean recurrence.
pub open spec fn spec_gcd(a: nat, b: nat) -> nat
    decreases b,
{
    if b == 0 {
        a
    } else {
        spec_gcd(b, a % b)
    }
}

/// The subgroup order that goes with a safe prime: `(p - 1) / 2`.
pub open spec fn half_of(p: nat) -> nat {
    (((p as int) - 1) / 2) as nat
}

/// A mathematical prime: at least 2, with no divisor strictly between 1
/// and itself.
pub open spec fn is_prime_math(p: nat) -> bool {
    p >= 2 && forall|d: nat| 1 < d < p ==> #[trigger] (p % d) != 0
}

/// The greatest common divisor divides both arguments (and is positive
/// when either argument is).
pub proof fn lemma_gcd_divides(a: nat, b: nat)
    requires
        a > 0 || b > 0,
    ensures
        spec_gcd(a, b) > 0,
        a % spec_gcd(a, b) == 0,
        b % spec_gcd(a, b) == 0,
    decreases b,
{
    let g = spec_gcd(a, b);
    if b == 0 {
        vstd::arithmetic::div_mod::lemma_mod_self_0(a as int);
        assert(0int % (a as int) == 0) by {
            vstd::arithmetic::div_mod::lemma_small_mod(0, a);
        }
    } else {
        lemma_gcd_divides(b, a % b);
        let q = a as int / b as int;
        let r = a as int % b as int;
        vstd::arithmetic::div_mod::lemma_fundamental_div_mod(a as int, b as int);
        assert((q * b) % g as int == 0) by {
            vstd::arithmetic::div_mod::lemma_mul_mod_noop_right(q, b as int, g as int);
            assert(q * 0int == 0) by (nonlinear_arith);
            vstd::arithmetic::div_mod::lemma_small_mod(0, g);
        }
        assert(a as int % g as int == 0) by {
            vstd::arithmetic::div_mod::lemma_add_mod_noop(q * b as int, r, g as int);
            assert(q * (b as int) + r == a);
            vstd::arithmetic::div_mod::lemma_small_mod(0, g);
        }
    }
}

/// Modulo a prime, every residue strictly between 0 and the prime is
/// coprime to it, so it has a modular inverse.
pub proof fn lemma_prime_gcd_is_one(s: nat, p: nat)
    requires
        is_prime_math(p),
        0 < s < p,
    ensures
        spec_gcd(s, p) == 1,
{
    let g = spec_gcd(s, p);
    lemma_gcd_divides(s, p);
    if g != 1 {
        if g < p {
            assert(1 < g < p);
            assert(p % g != 0);
        } else {
            assert(s % g == s) by {
                vstd::arithmetic::div_mod::lemma_small_mod(s, g);
            }
        }
    }
}

/// Bezout coefficients: integers `u`, `v` with `u*a + v*b == gcd(a, b)`.
pub proof fn lemma_bezout(a: nat, b: nat) -> (uv: (int, int))
    ensures
        uv.0 * a + uv.1 * b == spec_gcd(a, b),
    decreases b,
{
    if b == 0 {
        assert(1int * a + 0int * b == a) by (nonlinear_arith);
        (1int, 0int)
    } else {
        let (u, v) = lemma_bezout(b, a % b);
        let q = a as int / b as int;
        vstd::arithmetic::div_mod::lemma_fundamental_div_mod(a as int, b as int);
        assert(u * b + v * ((a as int) - q * (b as int)) == v * a + (u - v * q) * (b as int))
            by (nonlinear_arith);
        (v, u - v * q)
    }
}

/// Euclid's lemma: a prime dividing a product divides one of the factors.
pub proof fn lemma_prime_divides_product(p: nat, a: nat, b: nat)
    requires
        is_prime_math(p),
        (a * b) % p == 0,
    ensures
        a % p == 0 || b % p == 0,
{
    if a % p != 0 {
        let g = spec_gcd(a, p);
        lemma_gcd_divides(a, p);
        if g == p {
            assert(a % p == 0);
        } else if g != 1 {
            assert(g <= p) by {
                if g > p {
                    vstd::arithmetic::div_mod::lemma_small_mod(p, g);
                }
            }
            assert(1 < g < p);
            assert(p % g != 0);
        }
        assert(g == 1);
        let (u, v) = lemma_bezout(a, p);
        assert(b as int == u * ((a * b) as int) + (v * (b as int)) * (p as int))
            by (nonlinear_arith)
            requires
                u * (a as int) + v * (p as int) == 1,
        ;
        let pi = p as int;
        assert((u * ((a * b) as int)) % pi == 0) by {
            vstd::arithmetic::div_mod::lemma_mul_mod_noop_right(u, (a * b) as int, pi);
            assert(u * 0int == 0) by (nonlinear_arith);
            vstd::arithmetic::div_mod::lemma_small_mod(0, p);
        }
        assert(((v * (b as int)) * pi) % pi == 0) by {
            vstd::arithmetic::div_mod::lemma_mod_multiples_basic(v * (b as int), pi);
        }
        assert(b as int % pi == 0) by {
            vstd::arithmetic::div_mod::lemma_add_mod_noop(
                u * ((a * b) as int),
                (v * (b as int)) * pi,
                pi,
            );
            vstd::arithmetic::div_mod::lemma_small_mod(0, p);
        }
    }
}

/// A prime dividing a power divides the base.
pub proof fn lemma_prime_divides_power(p: nat, c: nat, x: nat)
    requires
        is_prime_math(p),
        npow(c, x) % p == 0,
    ensures
        c % p == 0,
    decreases x,
{
    broadcast use crate::bignum::lemma_npow_is_pow;

    if x == 0 {
        assert(npow(c, 0) == 1) by {
            vstd::arithmetic::power::lemma_pow0(c as int);
        }
        vstd::arithmetic::div_mod::lemma_small_mod(1, p);
    } else {
        assert(npow(c, x) == c * npow(c, (x - 1) as nat)) by {
            vstd::arithmetic::power::lemma_pow1(c as int);
            vstd::arithmetic::power::lemma_pow_adds(c as int, 1, (x - 1) as nat);
        }
        lemma_prime_divides_product(p, c, npow(c, (x - 1) as nat));
        if c % p != 0 {
            lemma_prime_divides_power(p, c, (x - 1) as nat);
        }
    }
}

/// Modulo a prime, every power of a nonzero residue stays nonzero.
pub proof fn lemma_power_nonzero_mod_prime(p: nat, c: nat, x: nat)
    requires
        is_prime_math(p),
        c % p != 0,
    ensures
        npow(c, x) % p != 0,
{
    if npow(c, x) % p == 0 {
        lemma_prime_divides_power(p, c, x);
    }
}

/// Product of a sequence of naturals.
pub open spec fn seq_prod(s: Seq<nat>) -> nat
    decreases s.len(),
{
    if s.len() == 0 {
        1
    } else {
        seq_prod(s.drop_last()) * s.last()
    }
}

/// Removing one element divides the product by it.
proof fn lemma_seq_prod_remove(t: Seq<nat>, j: int)
    requires
        0 <= j < t.len(),
    ensures
        seq_prod(t) == seq_prod(t.remove(j)) * t[j],
    decreases t.len(),
{
    t.remove_ensures(j);
    if j == t.len() - 1 {
        assert(t.remove(j) =~= t.drop_last());
    } else {
        let td = t.drop_last();
        lemma_seq_prod_remove(td, j);
        assert(t.remove(j).drop_last() =~= td.remove(j));
        assert(t.remove(j).last() == t.last());
        assert((seq_prod(td.remove(j)) * td[j]) * t.last() == (seq_prod(td.remove(j))
            * t.last()) * td[j]) by (nonlinear_arith);
    }
}

/// A product is unchanged under re-indexing by an injection onto equal
/// values.
proof fn lemma_seq_prod_bijection(s: Seq<nat>, t: Seq<nat>, f: spec_fn(int) -> int)
    requires
        s.len() == t.len(),
        forall|i: int| 0 <= i < s.len() ==> 0 <= #[trigger] f(i) < s.len(),
        forall|i: int, j: int|
            0 <= i < s.len() && 0 <= j < s.len() && i != j ==> #[trigger] f(i) != #[trigger] f(
                j,
            ),
        forall|i: int| 0 <= i < s.len() ==> t[#[trigger] f(i)] == s[i],
    ensures
        seq_prod(s) == seq_prod(t),
    decreases s.len(),
{
    if s.len() > 0 {
        let n = s.len() - 1;
        let j = f(n);
        let sd = s.drop_last();
        let td = t.remove(j);
        t.remove_ensures(j);
        lemma_seq_prod_remove(t, j);
        let f2: spec_fn(int) -> int = |i: int|
            if f(i) < j {
                f(i)
            } else {
                f(i) - 1
            };
        assert forall|i: int| 0 <= i < sd.len() implies 0 <= #[trigger] f2(i) < sd.len() by {
            assert(f(i) != j);
        }
        assert forall|i: int, k: int|
            0 <= i < sd.len() && 0 <= k < sd.len() && i != k implies #[trigger] f2(i)
            != #[trigger] f2(k) by {
            assert(f(i) != f(k));
        }
        assert forall|i: int| 0 <= i < sd.len() implies td[#[trigger] f2(i)] == sd[i] by {
            assert(f(i) != j);
            if f(i) < j {
                assert(td[f2(i)] == t[f(i)]);
            } else {
                assert(td[f2(i)] == t[f(i)]);
            }
        }
        lemma_seq_prod_bijection(sd, td, f2);
        assert(t[j] == s[n]);
    }
}

/// Multiplication by a unit is cancellable modulo `p`.
proof fn lemma_mod_mul_cancel(p: nat, a: nat, x: nat, y: nat)
    requires
        p >= 1,
        spec_gcd(a, p) == 1,
        (a * x) % p == (a * y) % p,
        x < p,
        y < p,
    ensures
        x == y,
{
    let (u, v) = lemma_bezout(a, p);
    let pi = p as int;
    assert(x as int % pi == (u * ((a * x) as int)) % pi) by {
        assert(x as int == (p as int) * ((v * x) as int) + u * ((a * x) as int))
            by (nonlinear_arith)
            requires
                u * (a as int) + v * (p as int) == 1,
        ;
        vstd::arithmetic::div_mod::lemma_mod_multiples_vanish(
            (v * x) as int,
            u * ((a * x) as int),
            pi,
        );
    }
    assert(y as int % pi == (u * ((a * y) as int)) % pi) by {
        assert(y as int == (p as int) * ((v * y) as int) + u * ((a * y) as int))
            by (nonlinear_arith)
            requires
                u * (a as int) + v * (p as int) == 1,
        ;
        vstd::arithmetic::div_mod::lemma_mod_multiples_vanish(
            (v * y) as int,
            u * ((a * y) as int),
            pi,
        );
    }
    assert((u * ((a * x) as int)) % pi == (u * (((a * x) % p) as int)) % pi) by {
        vstd::arithmetic::div_mod::lemma_mul_mod_noop_right(u, (a * x) as int, pi);
    }
    assert((u * ((a * y) as int)) % pi == (u * (((a * y) % p) as int)) % pi) by {
        vstd::arithmetic::div_mod::lemma_mul_mod_noop_right(u, (a * y) as int, pi);
    }
    vstd::arithmetic::div_mod::lemma_small_mod(x, p);
    vstd::arithmetic::div_mod::lemma_small_mod(y, p);
}

/// The sequence `1, 2, ..., k`.
pub open spec fn range_seq(k: nat) -> Seq<nat> {
    Seq::new(k, |i: int| (i + 1) as nat)
}

/// The sequence `a*1 mod p, a*2 mod p, ..., a*k mod p`.
pub open spec fn scaled_mod_seq(a: nat, p: nat, k: nat) -> Seq<nat> {
    Seq::new(k, |i: int| (((a * (i + 1)) as int % (p as int)) as nat))
}

/// The product of the scaled residues is `a^k` times the plain product,
/// modulo `p`.
proof fn lemma_scaled_prod(a: nat, p: nat, k: nat)
    requires
        p >= 1,
    ensures
        seq_prod(scaled_mod_seq(a, p, k)) % p == (npow(a, k) * seq_prod(range_seq(k))) % p,
    decreases k,
{
    broadcast use crate::bignum::lemma_npow_is_pow;

    let pi = p as int;
    if k == 0 {
        assert(npow(a, 0) == 1) by {
            vstd::arithmetic::power::lemma_pow0(a as int);
        }
        assert(scaled_mod_seq(a, p, 0) =~= Seq::<nat>::empty());
        assert(range_seq(0) =~= Seq::<nat>::empty());
    } else {
        let km = (k - 1) as nat;
        lemma_scaled_prod(a, p, km);
        let pa = seq_prod(scaled_mod_seq(a, p, km));
        let f1 = seq_prod(range_seq(km));
        assert(scaled_mod_seq(a, p, k).drop_last() =~= scaled_mod_seq(a, p, km));
        assert(range_seq(k).drop_last() =~= range_seq(km));
        let last = (((a * k) as int % pi) as nat);
        assert(scaled_mod_seq(a, p, k).last() == last);
        assert(range_seq(k).last() == k);
        assert(seq_prod(scaled_mod_seq(a, p, k)) == pa * last);
        assert(seq_prod(range_seq(k)) == f1 * k);
        // Pull both factors out of the modulus and regroup.
        assert((pa * last) % p == ((pa * ((a * k) as nat)) as int) % pi) by {
            vstd::arithmetic::div_mod::lemma_mul_mod_noop_right(pa as int, (a * k) as int, pi);
        }
        assert(((pa * ((a * k) as nat)) as int) % pi == (((pa % p) * ((a * k) as nat)) as int)
            % pi) by {
            vstd::arithmetic::div_mod::lemma_mul_mod_noop_left(pa as int, (a * k) as int, pi);
        }
        let ih = (npow(a, km) * f1) % p;
        assert((((ih) * ((a * k) as nat)) as int) % pi == ((npow(a, km) * f1 * (a * k)) as int)
            % pi) by {
            vstd::arithmetic::div_mod::lemma_mul_mod_noop_left(
                (npow(a, km) * f1) as int,
                (a * k) as int,
                pi,
            );
        }
        assert(npow(a, km) * a == npow(a, k)) by {
            vstd::arithmetic::power::lemma_pow1(a as int);
            vstd::arithmetic::power::lemma_pow_adds(a as int, km, 1);
        }
        assert(npow(a, km) * f1 * (a * k) == npow(a, k) * (f1 * k)) by (nonlinear_arith)
            requires
                npow(a, km) * a == npow(a, k),
        ;
    }
}

/// The product `1 * 2 * ... * k` is not divisible by a prime above `k`.
proof fn lemma_range_prod_coprime(p: nat, k: nat)
    requires
        is_prime_math(p),
        k < p,
    ensures
        seq_prod(range_seq(k)) % p != 0,
    decreases k,
{
    if k == 0 {
        assert(range_seq(0) =~= Seq::<nat>::empty());
        vstd::arithmetic::div_mod::lemma_small_mod(1, p);
    } else {
        let km = (k - 1) as nat;
        lemma_range_prod_coprime(p, km);
        assert(range_seq(k).drop_last() =~= range_seq(km));
        assert(seq_prod(range_seq(k)) == seq_prod(range_seq(km)) * k);
        if seq_prod(range_seq(k)) % p == 0 {
            lemma_prime_divides_product(p, seq_prod(range_seq(km)), k);
            vstd::arithmetic::div_mod::lemma_small_mod(k, p);
        }
    }
}

/// Fermat's little theorem: modulo a prime `p`, any `a` in `(0, p)` raised
/// to `p - 1` is 1.
pub proof fn lemma_fermat_little(p: nat, a: nat)
    requires
        is_prime_math(p),
        0 < a < p,
    ensures
        npow(a, (p - 1) as nat) % p == 1,
{
    let k = (p - 1) as nat;
    let pi = p as int;
    let s = scaled_mod_seq(a, p, k);
    let t = range_seq(k);
    lemma_prime_gcd_is_one(a, p);
    vstd::arithmetic::div_mod::lemma_small_mod(a, p);
    // Every scaled residue is nonzero, so it names a position in 1..p-1.
    assert forall|i: int| 0 <= i < k implies 1 <= #[trigger] s[i] < p by {
        vstd::arithmetic::div_mod::lemma_small_mod((i + 1) as nat, p);
        if (a * (i + 1)) as int % pi == 0 {
            lemma_prime_divides_product(p, a, (i + 1) as nat);
        }
    }
    let f: spec_fn(int) -> int = |i: int| ((a * (i + 1)) as int % pi) - 1;
    assert forall|i: int| 0 <= i < k implies 0 <= #[trigger] f(i) < k by {
        assert(1 <= s[i] < p);
    }
    assert forall|i: int, j: int| 0 <= i < k && 0 <= j < k && i != j implies #[trigger] f(i)
        != #[trigger] f(j) by {
        if f(i) == f(j) {
            assert((a * ((i + 1) as nat)) % p == (a * ((j + 1) as nat)) % p);
            lemma_mod_mul_cancel(p, a, (i + 1) as nat, (j + 1) as nat);
        }
    }
    assert forall|i: int| 0 <= i < k implies t[#[trigger] f(i)] == s[i] by {
        assert(1 <= s[i] < p);
    }
    lemma_seq_prod_bijection(s, t, f);
    lemma_scaled_prod(a, p, k);
    let fp = seq_prod(t);
    assert(fp % p == (npow(a, k) * fp) % p);
    lemma_range_prod_coprime(p, k);
    // Cancel the factorial: it is coprime to p.
    assert(spec_gcd(fp, p) == 1) by {
        lemma_prime_gcd_is_one(fp % p, p);
        vstd::arithmetic::div_mod::lemma_mod_twice(fp as int, pi);
        assert(spec_gcd(fp, p) == spec_gcd(p, fp % p));
        assert(spec_gcd(fp % p, p) == spec_gcd(p, (fp % p) % p));
    }
    let x = npow(a, k) % p;
    assert((fp * x) % p == (fp * 1) % p) by {
        vstd::arithmetic::div_mod::lemma_mul_mod_noop_right(fp as int, npow(a, k) as int, pi);
        assert((fp * npow(a, k)) as int == (npow(a, k) * fp) as int) by (nonlinear_arith);
        assert(fp * 1 == fp) by (nonlinear_arith);
    }
    lemma_mod_mul_cancel(p, fp, x, 1);
}

/// Modulo a prime, the only square roots of 1 are 1 and `p - 1`.
pub proof fn lemma_sqrt_of_one(p: nat, x: nat)
    requires
        is_prime_math(p),
        x < p,
        (x * x) % p == 1,
    ensures
        x == 1 || x == p - 1,
{
    let pi = p as int;
    if x == 0 {
        vstd::arithmetic::div_mod::lemma_small_mod(0, p);
        assert(x * x == 0);
    }
    assert(x >= 1);
    let q = ((x * x) as int) / pi;
    vstd::arithmetic::div_mod::lemma_fundamental_div_mod((x * x) as int, pi);
    assert(((x - 1) * (x + 1)) as int == (x * x) as int - 1) by (nonlinear_arith)
        requires
            x >= 1,
    ;
    assert((((x - 1) as nat) * ((x + 1) as nat)) % p == 0) by {
        assert((((x - 1) as nat) * ((x + 1) as nat)) as int == pi * q) by (nonlinear_arith)
            requires
                ((x - 1) * (x + 1)) as int == (x * x) as int - 1,
                (x * x) as int == pi * q + 1,
                x >= 1,
        ;
        assert((pi * q) % pi == 0) by {
            vstd::arithmetic::div_mod::lemma_mod_multiples_basic(q, pi);
            assert(pi * q == q * pi) by (nonlinear_arith);
        }
    }
    lemma_prime_divides_product(p, (x - 1) as nat, (x + 1) as nat);
    if ((x - 1) as nat) % p == 0 {
        vstd::arithmetic::div_mod::lemma_small_mod((x - 1) as nat, p);
    } else {
        assert(((x + 1) as nat) % p == 0);
        if x + 1 < p {
            vstd::arithmetic::div_mod::lemma_small_mod((x + 1) as nat, p);
        } else {
            assert(x + 1 == p);
        }
    }
}

/// Squaring a reduced power squares the exponent.
proof fn lemma_square_of_reduced(a: nat, m: nat, n: nat)
    requires
        n >= 1,
    ensures
        (((npow(a, m) % n) * (npow(a, m) % n)) % n) == npow(a, (2 * m) as nat) % n,
{
    broadcast use crate::bignum::lemma_npow_is_pow;

    let ni = n as int;
    let b = vstd::arithmetic::power::pow(a as int, m);
    vstd::arithmetic::power::lemma_pow_adds(a as int, m, m);
    assert(2 * m == m + m);
    assert((b % ni) * (b % ni) % ni == (b * b) % ni) by {
        vstd::arithmetic::div_mod::lemma_mul_mod_noop(b, b, ni);
    }
}

/// Walking the squaring chain down from an exponent that reaches 1: if
/// `a^d` is not 1, some earlier square root along the chain is `p - 1`.
proof fn lemma_mr_chain(p: nat, a: nat, d: nat, j: nat)
    requires
        is_prime_math(p),
        d >= 1,
        j >= 1,
        npow(a, (d * pow2(j)) as nat) % p == 1,
        npow(a, d) % p != 1,
    ensures
        exists|t: nat| t < j && #[trigger] (npow(a, (d * pow2(t)) as nat) % p) == (p - 1) as nat,
    decreases j,
{
    let jm = (j - 1) as nat;
    let m = (d * pow2(jm)) as nat;
    vstd::arithmetic::power2::lemma_pow2_unfold(j);
    assert(d * pow2(j) == 2 * m) by (nonlinear_arith)
        requires
            pow2(j) == 2 * pow2(jm),
            m == d * pow2(jm),
    ;
    let x = npow(a, m) % p;
    lemma_square_of_reduced(a, m, p);
    assert((x * x) % p == 1);
    lemma_sqrt_of_one(p, x);
    if x == p - 1 {
        assert(npow(a, (d * pow2(jm)) as nat) % p == (p - 1) as nat);
        assert(jm < j);
    } else {
        assert(x == 1);
        if j == 1 {
            vstd::arithmetic::power2::lemma2_to64();
            assert(d * pow2(0) == d) by (nonlinear_arith)
                requires
                    pow2(0) == 1,
            ;
            assert(false);
        } else {
            lemma_mr_chain(p, a, d, jm);
            let t0 = choose|t: nat|
                t < jm && #[trigger] (npow(a, (d * pow2(t)) as nat) % p) == (p - 1) as nat;
            assert(t0 < j && npow(a, (d * pow2(t0)) as nat) % p == (p - 1) as nat);
        }
    }
}

/// Two residues that agree modulo two distinct primes agree modulo the
/// product.
proof fn lemma_crt_equal(p: nat, q: nat, x: nat, y: nat)
    requires
        is_prime_math(p),
        is_prime_math(q),
        p != q,
        x % p == y % p,
        x % q == y % q,
    ensures
        x % (p * q) == y % (p * q),
{
    let dif = if x >= y {
        (x - y) as nat
    } else {
        (y - x) as nat
    };
    assert(dif % p == 0 && dif % q == 0) by {
        vstd::arithmetic::div_mod::lemma_sub_mod_noop(x as int, y as int, p as int);
        vstd::arithmetic::div_mod::lemma_sub_mod_noop(y as int, x as int, p as int);
        vstd::arithmetic::div_mod::lemma_sub_mod_noop(x as int, y as int, q as int);
        vstd::arithmetic::div_mod::lemma_sub_mod_noop(y as int, x as int, q as int);
        vstd::arithmetic::div_mod::lemma_small_mod(0, p);
        vstd::arithmetic::div_mod::lemma_small_mod(0, q);
    }
    assert(p % q != 0) by {
        if p % q == 0 {
            if q < p {
                assert(1 < q < p);
            } else {
                vstd::arithmetic::div_mod::lemma_small_mod(p, q);
            }
        }
    }
    assert(p * q > 0) by (nonlinear_arith)
        requires
            p >= 2,
            q >= 2,
    ;
    let a = dif / p;
    vstd::arithmetic::div_mod::lemma_fundamental_div_mod(dif as int, p as int);
    assert((p as int) * (a as int) == (a as int) * (p as int)) by (nonlinear_arith);
    assert(dif == a * p);
    assert((a * p) % q == 0);
    lemma_prime_divides_product(q, a, p);
    assert(a % q == 0);
    let b = a / q;
    vstd::arithmetic::div_mod::lemma_fundamental_div_mod(a as int, q as int);
    assert((q as int) * (b as int) == (b as int) * (q as int)) by (nonlinear_arith);
    assert(a == b * q);
    assert(dif % (p * q) == 0) by {
        assert(dif as int == ((p * q) as int) * (b as int)) by (nonlinear_arith)
            requires
                dif == a * p,
                a == b * q,
        ;
        vstd::arithmetic::div_mod::lemma_mod_multiples_basic(b as int, (p * q) as int);
        assert(((p * q) as int) * (b as int) == (b as int) * ((p * q) as int))
            by (nonlinear_arith);
    }
    if x >= y {
        let c = dif / (p * q);
        vstd::arithmetic::div_mod::lemma_fundamental_div_mod(dif as int, (p * q) as int);
        assert(x as int == ((p * q) as int) * (c as int) + y as int) by (nonlinear_arith)
            requires
                dif == x - y,
                dif as int == ((p * q) as int) * (c as int),
        ;
        vstd::arithmetic::div_mod::lemma_mod_multiples_vanish(
            c as int,
            y as int,
            (p * q) as int,
        );
    } else {
        let c = dif / (p * q);
        vstd::arithmetic::div_mod::lemma_fundamental_div_mod(dif as int, (p * q) as int);
        assert(y as int == ((p * q) as int) * (c as int) + x as int) by (nonlinear_arith)
            requires
                dif == y - x,
                dif as int == ((p * q) as int) * (c as int),
        ;
        vstd::arithmetic::div_mod::lemma_mod_multiples_vanish(
            c as int,
            x as int,
            (p * q) as int,
        );
    }
}

/// An exponent that is 1 modulo `p - 1` acts as the identity modulo the
/// prime `p`.
proof fn lemma_exp_identity_mod_prime(p: nat, m: nat, ed: nat)
    requires
        is_prime_math(p),
        ed >= 1,
        ((ed - 1) as nat) % ((p - 1) as nat) == 0,
    ensures
        npow(m, ed) % p == m % p,
{
    broadcast use crate::bignum::lemma_npow_is_pow;

    let pi = p as int;
    let r = m % p;
    assert(npow(m, ed) % p == npow(r, ed) % p) by {
        vstd::arithmetic::power::lemma_pow_mod_noop(m as int, ed, pi);
    }
    if r == 0 {
        assert(npow(0, ed) == 0) by {
            vstd::arithmetic::power::lemma0_pow(ed);
        }
        vstd::arithmetic::div_mod::lemma_small_mod(0, p);
    } else {
        let pm = (p - 1) as nat;
        let c = ((ed - 1) as nat) / pm;
        vstd::arithmetic::div_mod::lemma_fundamental_div_mod((ed - 1) as int, pm as int);
        assert((pm as int) * (c as int) == (c as int) * (pm as int)) by (nonlinear_arith);
        assert((ed - 1) as nat == c * pm);
        lemma_fermat_little(p, r);
        assert(npow(r, ed) == r * npow(npow(r, pm), c)) by {
            vstd::arithmetic::power::lemma_pow_multiplies(r as int, pm, c);
            vstd::arithmetic::power::lemma_pow1(r as int);
            vstd::arithmetic::power::lemma_pow_adds(r as int, 1, (pm * c) as nat);
            assert(1 + pm * c == ed) by (nonlinear_arith)
                requires
                    ed >= 1,
                    (ed - 1) as nat == c * pm,
            ;
        }
        assert(npow(npow(r, pm), c) % p == 1) by {
            vstd::arithmetic::power::lemma_pow_mod_noop(npow(r, pm) as int, c, pi);
            assert(npow(1, c) == 1) by {
                vstd::arithmetic::power::lemma1_pow(c);
            }
            vstd::arithmetic::div_mod::lemma_small_mod(1, p);
        }
        assert((r * npow(npow(r, pm), c)) % p == (r * 1) % p) by {
            vstd::arithmetic::div_mod::lemma_mul_mod_noop_right(
                r as int,
                npow(npow(r, pm), c) as int,
                pi,
            );
        }
        assert(r * 1 == r) by (nonlinear_arith);
        vstd::arithmetic::div_mod::lemma_small_mod(r, p);
        vstd::arithmetic::div_mod::lemma_mod_twice(m as int, pi);
    }
}

/// The textbook power round trip modulo a product of two distinct primes:
/// raising to `e` then `d` with `e*d = 1 (mod (p-1)(q-1))` is the identity
/// on `[0, p*q)`.
pub proof fn lemma_power_round_trip(p: nat, q: nat, e: nat, d: nat, m: nat)
    requires
        is_prime_math(p),
        is_prime_math(q),
        p != q,
        (e * d) % (((p - 1) * (q - 1)) as nat) == 1,
        m < p * q,
    ensures
        npow(npow(m, e) % (p * q), d) % (p * q) == m,
{
    broadcast use crate::bignum::lemma_npow_is_pow;

    let n = (p * q) as nat;
    assert(n >= 4) by (nonlinear_arith)
        requires
            p >= 2,
            q >= 2,
            n == p * q,
    ;
    let phi = (((p - 1) * (q - 1)) as nat);
    assert(phi >= 1) by (nonlinear_arith)
        requires
            p >= 2,
            q >= 2,
            phi == (((p - 1) * (q - 1)) as nat),
    ;
    let ed = (e * d) as nat;
    assert(ed >= 1) by {
        if ed == 0 {
            vstd::arithmetic::div_mod::lemma_small_mod(0, phi);
        }
    }
    let x = npow(npow(m, e) % n, d) % n;
    assert(x == npow(m, ed) % n) by {
        vstd::arithmetic::power::lemma_pow_mod_noop(npow(m, e) as int, d, n as int);
        vstd::arithmetic::power::lemma_pow_multiplies(m as int, e, d);
    }
    // The exponent is 1 modulo both p - 1 and q - 1.
    let c = ed / phi;
    vstd::arithmetic::div_mod::lemma_fundamental_div_mod(ed as int, phi as int);
    assert((phi as int) * (c as int) == (c as int) * (phi as int)) by (nonlinear_arith);
    assert((ed - 1) as nat == c * phi);
    assert(((ed - 1) as nat) % ((p - 1) as nat) == 0) by {
        assert((ed - 1) as int == ((p - 1) as int) * ((c * ((q - 1) as nat)) as int))
            by (nonlinear_arith)
            requires
                ed >= 1,
                (ed - 1) as nat == c * phi,
                phi == (((p - 1) * (q - 1)) as nat),
                p >= 2,
                q >= 2,
        ;
        vstd::arithmetic::div_mod::lemma_mod_multiples_basic(
            (c * ((q - 1) as nat)) as int,
            (p - 1) as int,
        );
        assert(((p - 1) as int) * ((c * ((q - 1) as nat)) as int) == ((c * ((q
            - 1) as nat)) as int) * ((p - 1) as int)) by (nonlinear_arith);
    }
    assert(((ed - 1) as nat) % ((q - 1) as nat) == 0) by {
        assert((ed - 1) as int == ((q - 1) as int) * ((c * ((p - 1) as nat)) as int))
            by (nonlinear_arith)
            requires
                ed >= 1,
                (ed - 1) as nat == c * phi,
                phi == (((p - 1) * (q - 1)) as nat),
                p >= 2,
                q >= 2,
        ;
        vstd::arithmetic::div_mod::lemma_mod_multiples_basic(
            (c * ((p - 1) as nat)) as int,
            (q - 1) as int,
        );
        assert(((q - 1) as int) * ((c * ((p - 1) as nat)) as int) == ((c * ((p
            - 1) as nat)) as int) * ((q - 1) as int)) by (nonlinear_arith);
    }
    lemma_exp_identity_mod_prime(p, m, ed);
    lemma_exp_identity_mod_prime(q, m, ed);
    // Reduce the mod-n result modulo each prime.
    assert(x % p == m % p) by {
        vstd::arithmetic::div_mod::lemma_mod_mod(npow(m, ed) as int, p as int, q as int);
        vstd::arithmetic::div_mod::lemma_mod_twice(npow(m, ed) as int, p as int);
    }
    assert(x % q == m % q) by {
        assert(p * q == q * p) by (nonlinear_arith);
        vstd::arithmetic::div_mod::lemma_mod_mod(npow(m, ed) as int, q as int, p as int);
        vstd::arithmetic::div_mod::lemma_mod_twice(npow(m, ed) as int, q as int);
    }
    lemma_crt_equal(p, q, x, m);
    assert(x < n) by {
        vstd::arithmetic::div_mod::lemma_mod_division_less_than_divisor(
            npow(npow(m, e) % n, d) as int,
            n as int,
        );
    }
    vstd::arithmetic::div_mod::lemma_small_mod(x, n);
    vstd::arithmetic::div_mod::lemma_small_mod(m, n);
}

/// A signed big integer for the extended Euclid recurrence.
struct SBig {
    neg: bool,
    mag: BigNat,
}

/// The integer a signed big number stands for.
spec fn sval(s: &SBig) -> int {
    if s.neg {
        -(s.mag@ as int)
    } else {
        s.mag@ as int
    }
}

/// `x - q * y` over signed big integers.
fn s_sub_mul(x: &SBig, q: &BigNat, y: &SBig) -> (r: SBig)
    ensures
        sval(&r) == sval(x) - q@ * sval(y),
{
    let t = mul_big(q, &y.mag);
    proof {
        let qv = q@ as int;
        let mv = y.mag@ as int;
        assert(qv * (-mv) == -(qv * mv)) by (nonlinear_arith);
        assert(t@ as int == qv * mv);
    }
    if y.neg {
        if x.neg {
            if lt_big(&t, &x.mag) {
                SBig { neg: true, mag: sub_big(&x.mag, &t) }
            } else {
                SBig { neg: false, mag: sub_big(&t, &x.mag) }
            }
        } else {
            SBig { neg: false, mag: add_big(&x.mag, &t) }
        }
    } else {
        if x.neg {
            SBig { neg: true, mag: add_big(&x.mag, &t) }
        } else {
            if lt_big(&x.mag, &t) {
                SBig { neg: true, mag: sub_big(&t, &x.mag) }
            } else {
                SBig { neg: false, mag: sub_big(&x.mag, &t) }
            }
        }
    }
}

/// Modular inverse by the extended Euclidean algorithm.
///
/// Returns the unique `v < m` with `a * v ≡ 1 (mod m)` exactly when
/// `gcd(a, m) == 1`, and nothing otherwise.
#[verifier::loop_isolation(false)]
pub fn mod_inverse(a: &BigNat, m: &BigNat) -> (r: Option<BigNat>)
    requires
        m@ > 0,
    ensures
        r is Some <==> spec_gcd(a@, m@) == 1,
        r is Some ==> r.unwrap()@ < m@,
        r is Some ==> (a@ * r.unwrap()@) % m@ == 1nat % m@,
{
    let zero = BigNat::from_u64(0);
    let one = BigNat::from_u64(1);
    let mut old_r = a.dup();
    let mut r = m.dup();
    let mut old_s = SBig { neg: false, mag: BigNat::from_u64(1) };
    let mut s = SBig { neg: false, mag: BigNat::from_u64(0) };
    let ghost mut old_t: int = 0;
    let ghost mut t: int = 1;
    let mut r_zero = eq_big(&r, &zero);
    while !r_zero
        invariant
            r_zero == (r@ == 0),
            old_r@ as int == a@ * sval(&old_s) + m@ * old_t,
            r@ as int == a@ * sval(&s) + m@ * t,
            spec_gcd(old_r@, r@) == spec_gcd(a@, m@),
        decreases r@,
    {
        let q = div_big(&old_r, &r);
        let new_r = rem_big(&old_r, &r);
        let new_s = s_sub_mul(&old_s, &q, &s);
        proof {
            vstd::arithmetic::div_mod::lemma_fundamental_div_mod(old_r@ as int, r@ as int);
            let aa = a@ as int;
            let mm = m@ as int;
            let so = sval(&old_s);
            let sc = sval(&s);
            let qv = q@ as int;
            broadcast use vstd::arithmetic::mul::lemma_mul_is_commutative;

            assert(qv * (aa * sc + mm * t) == aa * (qv * sc) + mm * (qv * t))
                by (nonlinear_arith);
            assert(aa * (so - qv * sc) == aa * so - aa * (qv * sc)) by (nonlinear_arith);
            assert(mm * (old_t - qv * t) == mm * old_t - mm * (qv * t)) by (nonlinear_arith);
            assert(spec_gcd(old_r@, r@) == spec_gcd(r@, old_r@ % r@));
        }
        old_r = r;
        r = new_r;
        old_s = s;
        s = new_s;
        proof {
            let nt = old_t - q@ * t;
            old_t = t;
            t = nt;
        }
        r_zero = eq_big(&r, &zero);
    }
    if !eq_big(&old_r, &one) {
        return None;
    }
    let w = rem_big(&old_s.mag, m);
    let v = if old_s.neg {
        if eq_big(&w, &zero) {
            BigNat::from_u64(0)
        } else {
            sub_big(m, &w)
        }
    } else {
        w
    };
    proof {
        let aa = a@ as int;
        let mm = m@ as int;
        let so = sval(&old_s);
        assert(v@ as int % mm == so % mm) by {
            if old_s.neg {
                let mg = old_s.mag@ as int;
                vstd::arithmetic::div_mod::lemma_fundamental_div_mod(mg, mm);
                let qd = mg / mm;
                let w0 = mg % mm;
                if old_s.mag@ % m@ == 0 {
                    assert((-qd) * mm == -(qd * mm)) by (nonlinear_arith);
                    assert(-mg == (-qd) * mm + 0);
                    vstd::arithmetic::div_mod::lemma_fundamental_div_mod_converse_mod(
                        -mg,
                        mm,
                        -qd,
                        0,
                    );
                    assert(v@ as int % mm == 0) by {
                        vstd::arithmetic::div_mod::lemma_small_mod(0, m@);
                    }
                } else {
                    assert((-qd - 1) * mm == -(qd * mm) - mm) by (nonlinear_arith);
                    assert(-mg == (-qd - 1) * mm + (mm - w0));
                    vstd::arithmetic::div_mod::lemma_fundamental_div_mod_converse_mod(
                        -mg,
                        mm,
                        -qd - 1,
                        mm - w0,
                    );
                    assert(v@ as int == mm - w0);
                    vstd::arithmetic::div_mod::lemma_small_mod(v@, m@);
                }
            } else {
                vstd::arithmetic::div_mod::lemma_mod_twice(old_s.mag@ as int, mm);
            }
        }
        assert((aa * v@) % mm == (aa * so) % mm) by {
            vstd::arithmetic::div_mod::lemma_mul_mod_noop_right(aa, v@ as int, mm);
            vstd::arithmetic::div_mod::lemma_mul_mod_noop_right(aa, so, mm);
        }
        assert((aa * so) % mm == 1int % mm) by {
            assert(aa * so == 1 - mm * old_t);
            vstd::arithmetic::div_mod::lemma_mod_multiples_vanish(-old_t, 1, mm);
            assert(mm * -old_t + 1 == 1 - mm * old_t) by (nonlinear_arith);
        }
        assert(a@ * v@ == aa * v@);
    }
    Some(v)
}

/// Miller-Rabin probabilistic primality test with `k` random bases.
///
/// The small cases are decided exactly, and a mathematical prime is never
/// rejected, whatever bases are drawn: the test errs only by accepting a
/// composite.  For odd `n > 3` a `false` means a witness of compositeness
/// was found, and `true` means `n` passed `k` independent rounds.
#[verifier::loop_isolation(false)]
pub fn is_prime(n: &BigNat, k: usize) -> (r: bool)
    ensures
        n@ <= 1 ==> r == false,
        n@ == 2 || n@ == 3 ==> r == true,
        n@ > 3 && n@ % 2 == 0 ==> r == false,
        is_prime_math(n@) ==> r == true,
{
    let one = BigNat::from_u64(1);
    let two = BigNat::from_u64(2);
    let three = BigNat::from_u64(3);
    if lt_big(n, &two) {
        return false;
    }
    if eq_big(n, &two) || eq_big(n, &three) {
        return true;
    }
    if is_even_big(n) {
        proof {
            if is_prime_math(n@) {
                assert(n@ % 2 != 0);
            }
        }
        return false;
    }
    let n_minus_1 = sub_big(n, &one);
    let mut d = sub_big(n, &one);
    let mut s: u128 = 0;
    proof {
        vstd::arithmetic::power2::lemma2_to64();
        crate::bignum::lemma_bignat_bound(n);
    }
    let mut d_even = is_even_big(&d);
    while d_even
        invariant
            d_even == (d@ % 2 == 0),
            d@ >= 1,
            pow2(s as nat) * d@ == n@ - 1,
            pow2(s as nat) <= n@ - 1,
            s <= 8 * usize::MAX as nat,
        decreases d@,
    {
        let half = div_big(&d, &two);
        proof {
            vstd::arithmetic::power2::lemma_pow2_unfold((s + 1) as nat);
            assert(pow2((s + 1) as nat) * (d@ / 2) == pow2(s as nat) * (2 * (d@ / 2)))
                by (nonlinear_arith)
                requires
                    pow2((s + 1) as nat) == 2 * pow2(s as nat),
            ;
            assert(2 * (d@ / 2) == d@) by {
                vstd::arithmetic::div_mod::lemma_fundamental_div_mod(d@ as int, 2);
            }
            vstd::arithmetic::power2::lemma_pow2_pos((s + 1) as nat);
            assert(pow2((s + 1) as nat) <= n@ - 1) by (nonlinear_arith)
                requires
                    pow2((s + 1) as nat) * (d@ / 2) == n@ - 1,
                    d@ / 2 >= 1,
                    pow2((s + 1) as nat) > 0,
            ;
            assert(s + 1 <= 8 * usize::MAX as nat) by {
                if s + 1 > 8 * usize::MAX as nat {
                    vstd::arithmetic::power2::lemma_pow2_strictly_increases(
                        8 * usize::MAX as nat,
                        (s + 1) as nat,
                    );
                }
            }
            assert(d@ / 2 >= 1 && d@ / 2 < d@);
        }
        d = half;
        s = s + 1;
        d_even = is_even_big(&d);
    }
    proof {
        assert(s >= 1) by {
            if s == 0 {
                assert(pow2(0) == 1);
                assert(d@ == n@ - 1) by (nonlinear_arith)
                    requires
                        pow2(0) * d@ == n@ - 1,
                        pow2(0) == 1,
                ;
            }
        }
    }
    let mut i: usize = 0;
    while i < k
        invariant
            0 <= i <= k,
        decreases k - i,
    {
        let a = rand_range_big(&two, &n_minus_1);
        let mut x = modpow_big(&a, &d, n);
        if eq_big(&x, &one) || eq_big(&x, &n_minus_1) {
            i = i + 1;
            continue ;
        }
        proof {
            vstd::arithmetic::power2::lemma2_to64();
            assert((d@ * pow2(0)) as nat == d@) by (nonlinear_arith)
                requires
                    pow2(0) == 1,
            ;
        }
        let mut found = false;
        let mut j: u128 = 0;
        while j < s - 1 && !found
            invariant
                0 <= j <= s - 1,
                x@ == npow(a@, (d@ * pow2(j as nat)) as nat) % n@,
                !found ==> forall|t: nat|
                    1 <= t <= j ==> #[trigger] npow(a@, (d@ * pow2(t)) as nat) % n@ != (n@
                        - 1) as nat,
            decreases s - 1 - j,
        {
            let ghost m = (d@ * pow2(j as nat)) as nat;
            let ghost x_old = x@;
            x = modpow_big(&x, &two, n);
            proof {
                lemma_square_of_reduced(a@, m, n@);
                broadcast use crate::bignum::lemma_npow_is_pow;

                assert(npow(x_old, 2) == x_old * x_old) by {
                    vstd::arithmetic::power::lemma_pow1(x_old as int);
                    vstd::arithmetic::power::lemma_pow_adds(x_old as int, 1, 1);
                }
                vstd::arithmetic::power2::lemma_pow2_unfold((j + 1) as nat);
                assert((d@ * pow2((j + 1) as nat)) as nat == (2 * m) as nat)
                    by (nonlinear_arith)
                    requires
                        pow2((j + 1) as nat) == 2 * pow2(j as nat),
                        m == (d@ * pow2(j as nat)) as nat,
                ;
                assert(x@ == npow(a@, (d@ * pow2((j + 1) as nat)) as nat) % n@);
            }
            if eq_big(&x, &n_minus_1) {
                found = true;
            }
            proof {
                if !found {
                    assert forall|t: nat| 1 <= t <= j + 1 implies #[trigger] npow(
                        a@,
                        (d@ * pow2(t)) as nat,
                    ) % n@ != (n@ - 1) as nat by {
                        if t == j + 1 {
                            assert(npow(a@, (d@ * pow2((j + 1) as nat)) as nat) % n@ == x@);
                        }
                    }
                }
            }
            j = j + 1;
        }
        if !found {
            proof {
                if is_prime_math(n@) {
                    lemma_fermat_little(n@, a@);
                    assert(npow(a@, (d@ * pow2(s as nat)) as nat) % n@ == 1) by {
                        assert(d@ * pow2(s as nat) == pow2(s as nat) * d@)
                            by (nonlinear_arith);
                        assert((n@ - 1) as nat == (d@ * pow2(s as nat)) as nat);
                    }
                    lemma_mr_chain(n@, a@, d@, s as nat);
                    let t0 = choose|t: nat|
                        t < s as nat && #[trigger] (npow(a@, (d@ * pow2(t)) as nat) % n@) == (
                        n@ - 1) as nat;
                    if t0 == 0 {
                        assert((d@ * pow2(0)) as nat == d@) by (nonlinear_arith)
                            requires
                                pow2(0) == 1,
                        ;
                        assert(false);
                    } else {
                        assert(npow(a@, (d@ * pow2(t0)) as nat) % n@ != (n@ - 1) as nat);
                        assert(false);
                    }
                }
            }
            return false;
        }
        i = i + 1;
    }
    true
}

/// Draw random odd candidates of exactly `bit_length` bits until one passes
/// Miller-Rabin with 20 rounds; gives up after `MAX_DRAWS` draws.
#[verifier::loop_isolation(false)]
pub fn generate_large_prime(bit_length: usize) -> (r: Result<BigNat, CryptoError>)
    requires
        2 <= bit_length < u64::MAX,
    ensures
        r is Ok ==> pow2((bit_length - 1) as nat) <= r.unwrap()@ < pow2(bit_length as nat),
        r is Ok ==> r.unwrap()@ % 2 == 1,
{
    let mut attempts: u64 = 0;
    while attempts < MAX_DRAWS
        invariant
            true,
        decreases MAX_DRAWS - attempts,
    {
        let c = random_odd_candidate(bit_length);
        if is_prime(&c, 20) {
            return Ok(c);
        }
        attempts = attempts + 1;
    }
    Err(CryptoError::Internal)
}

/// One candidate draw: `bit_length` random bits, forced odd and forced to
/// have the top bit set, so an odd number in `[2^(L-1), 2^L)`.
#[verifier::loop_isolation(false)]
fn random_odd_candidate(bit_length: usize) -> (r: BigNat)
    requires
        2 <= bit_length < u64::MAX,
    ensures
        pow2((bit_length - 1) as nat) <= r@ < pow2(bit_length as nat),
        r@ % 2 == 1,
{
    let one = BigNat::from_u64(1);
    let mut c = rand_bits_big(bit_length as u64);
    proof {
        vstd::arithmetic::power2::lemma_pow2_unfold(bit_length as nat);
        vstd::arithmetic::power2::lemma_pow2_unfold((bit_length - 1) as nat);
        vstd::arithmetic::power2::lemma_pow2_pos((bit_length - 2) as nat);
    }
    if is_even_big(&c) {
        c = add_big(&c, &one);
    }
    let top = crate::bignum::pow2_big(bit_length - 1);
    if lt_big(&c, &top) {
        c = add_big(&c, &top);
    }
    c
}

/// Search for a safe prime `p = 2c + 1` with both `c` and `p` probable
/// primes, `c` of exactly `bit_length` bits; gives up after `MAX_DRAWS`
/// draws.
#[verifier::loop_isolation(false)]
pub fn generate_safe_prime(bit_length: usize) -> (r: Result<BigNat, CryptoError>)
    requires
        2 <= bit_length < u64::MAX,
    ensures
        r is Ok ==> pow2(bit_length as nat) < r.unwrap()@ < pow2((bit_length + 1) as nat),
        r is Ok ==> r.unwrap()@ % 2 == 1,
        r is Ok ==> half_of(r.unwrap()@) % 2 == 1,
        r is Ok ==> pow2((bit_length - 1) as nat) <= half_of(r.unwrap()@) < pow2(
            bit_length as nat,
        ),
        r is Ok ==> r.unwrap()@ > 4,
{
    let one = BigNat::from_u64(1);
    let mut attempts: u64 = 0;
    while attempts < MAX_DRAWS
        invariant
            one@ == 1,
        decreases MAX_DRAWS - attempts,
    {
        let c = random_odd_candidate(bit_length);
        let p = add_big(&add_big(&c, &c), &one);
        if is_prime(&c, 20) && is_prime(&p, 20) {
            proof {
                vstd::arithmetic::power2::lemma_pow2_unfold(bit_length as nat);
                vstd::arithmetic::power2::lemma_pow2_unfold((bit_length + 1) as nat);
                vstd::arithmetic::power2::lemma_pow2_pos((bit_length - 1) as nat);
                assert(half_of(p@) == c@);
            }
            return Ok(p);
        }
        attempts = attempts + 1;
    }
    Err(CryptoError::Internal)
}

/// Draw candidates in `[2, p-3]` until one has `g^q mod p != 1`; gives up
/// after `MAX_DRAWS` draws.
#[verifier::loop_isolation(false)]
pub fn find_generator(p: &BigNat, q: &BigNat) -> (r: Result<BigNat, CryptoError>)
    requires
        p@ > 4,
        q@ >= 1,
    ensures
        r is Ok ==> 2 <= r.unwrap()@ <= p@ - 3,
        r is Ok ==> npow(r.unwrap()@, q@) % p@ != 1,
{
    let two = BigNat::from_u64(2);
    let one = BigNat::from_u64(1);
    let upper = sub_big(p, &two);
    let mut attempts: u64 = 0;
    while attempts < MAX_DRAWS
        invariant
            true,
        decreases MAX_DRAWS - attempts,
    {
        let candidate = rand_range_big(&two, &upper);
        let check = modpow_big(&candidate, q, p);
        if !eq_big(&check, &one) {
            return Ok(candidate);
        }
        attempts = attempts + 1;
    }
    Err(CryptoError::Internal)
}

} // verus!
