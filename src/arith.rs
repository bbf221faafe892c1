use vstd::arithmetic::div_mod::{
    lemma_div_is_ordered, lemma_fundamental_div_mod, lemma_mul_mod_noop_left,
    lemma_mul_mod_noop_right, lemma_small_mod,
};
use vstd::arithmetic::power::{lemma1_pow, lemma_pow_adds, lemma_pow_mod_noop, lemma_pow_multiplies, pow};
use vstd::prelude::*;

use crate::natural::{be_value, invertible, is_inverse, minimal_be, mod_inv};

verus! {

/// `n` zero bytes.
pub open spec fn zeros(n: nat) -> Seq<u8> {
    Seq::new(n, |i: int| 0u8)
}

/// The big-endian bytes of `n`, left-padded with zero bytes to `w` bytes when
/// its shortest form is shorter.
pub open spec fn fixed_be(n: nat, w: nat) -> Seq<u8> {
    if minimal_be(n).len() <= w {
        zeros((w - minimal_be(n).len()) as nat) + minimal_be(n)
    } else {
        minimal_be(n)
    }
}

/// Modular inverses are unique.
pub proof fn lemma_inverse_unique(i1: nat, i2: nat, z: nat, n: nat)
    requires
        is_inverse(i1, z, n),
        is_inverse(i2, z, n),
    ensures
        i1 == i2,
{
    if n > 1 {
        let a = i1 as int;
        let b = i2 as int;
        let c = z as int;
        let m = n as int;
        lemma_small_mod(1, n);
        lemma_small_mod(i1, n);
        lemma_small_mod(i2, n);
        lemma_mul_mod_noop_right(a, b * c, m);
        lemma_mul_mod_noop_right(b, a * c, m);
        assert(a * (b * c) == b * (a * c)) by (nonlinear_arith);
    }
}

/// Any inverse of `z` modulo `n` is the one `mod_inv` names.
pub proof fn lemma_mod_inv_is(i: nat, z: nat, n: nat)
    requires
        is_inverse(i, z, n),
    ensures
        invertible(z, n),
        mod_inv(z, n) == i,
{
    assert(invertible(z, n));
    let j = mod_inv(z, n);
    lemma_inverse_unique(i, j, z, n);
}

/// Multiplying by an invertible residue can be cancelled.
pub proof fn lemma_cancel(m1: nat, m2: nat, z: nat, n: nat)
    requires
        n > 0,
        invertible(z, n),
        (m1 * z) % n == (m2 * z) % n,
    ensures
        m1 % n == m2 % n,
{
    let i = mod_inv(z, n);
    let m = n as int;
    let (a, b, c, k) = (m1 as int, m2 as int, z as int, i as int);
    assert((k * c) % m == 1int % m);
    lemma_mul_mod_noop_right(a, k * c, m);
    lemma_mul_mod_noop_right(a, 1, m);
    lemma_mul_mod_noop_right(b, k * c, m);
    lemma_mul_mod_noop_right(b, 1, m);
    lemma_mul_mod_noop_right(k, a * c, m);
    lemma_mul_mod_noop_right(k, b * c, m);
    assert(a * (k * c) == k * (a * c)) by (nonlinear_arith);
    assert(b * (k * c) == k * (b * c)) by (nonlinear_arith);
}

/// The product of `i`, `b` and `z`, where `i` inverts `z`, is `b` modulo `n`.
pub proof fn lemma_inverse_cancels(i: nat, z: nat, b: nat, n: nat)
    requires
        n > 0,
        is_inverse(i, z, n),
    ensures
        (((i * b) % n) * z) % n == b % n,
{
    let m = n as int;
    let (k, c, v) = (i as int, z as int, b as int);
    lemma_mul_mod_noop_left(k * v, c, m);
    assert((k * v) * c == v * (k * c)) by (nonlinear_arith);
    lemma_mul_mod_noop_right(v, k * c, m);
    lemma_mul_mod_noop_right(v, 1, m);
}

/// `(b^e1 mod p)^e2 ≡ b^(e1·e2) (mod p)`.
pub proof fn lemma_pow_pow_mod(b: int, e1: nat, e2: nat, p: int)
    requires
        p > 0,
    ensures
        pow(pow(b, e1) % p, e2) % p == pow(b, e1 * e2) % p,
{
    lemma_pow_mod_noop(pow(b, e1), e2, p);
    lemma_pow_multiplies(b, e1, e2);
}

/// Where `g^q ≡ 1 (mod p)`, exponents of `g` count modulo `q`.
pub proof fn lemma_pow_mod_order(g: int, e: nat, q: nat, p: int)
    requires
        p > 1,
        q > 0,
        pow(g, q) % p == 1,
    ensures
        pow(g, e) % p == pow(g, e % q) % p,
{
    let t = e / q;
    let r = e % q;
    lemma_fundamental_div_mod(e as int, q as int);
    assert(e == q * t + r);
    lemma_pow_adds(g, q * t, r);
    lemma_pow_multiplies(g, q, t);
    lemma_pow_mod_noop(pow(g, q), t, p);
    lemma1_pow(t);
    lemma_small_mod(1, p as nat);
    lemma_mul_mod_noop_left(pow(g, q * t), pow(g, r), p);
}

/// Where `g^q ≡ 1 (mod p)`, every power of `g` is invertible modulo `p`.
pub proof fn lemma_pow_invertible(g: int, e: nat, q: nat, p: nat)
    requires
        p > 1,
        q > 0,
        pow(g, q) % (p as int) == 1,
    ensures
        invertible((pow(g, e) % (p as int)) as nat, p),
{
    let m = p as int;
    let z = pow(g, e) % m;
    let k = ((q - 1) * e) as nat;
    let i = pow(g, k) % m;
    lemma_pow_adds(g, k, e);
    assert(k + e == q * e) by (nonlinear_arith)
        requires
            k == (q - 1) * e,
            q > 0,
    ;
    lemma_pow_multiplies(g, q, e);
    lemma_pow_mod_noop(pow(g, q), e, m);
    lemma1_pow(e);
    lemma_small_mod(1, p);
    lemma_mul_mod_noop_left(pow(g, k), pow(g, e), m);
    lemma_mul_mod_noop_right(i, pow(g, e), m);
    assert(is_inverse(i as nat, z as nat, p));
}

/// The shortest form of `n` has the value `n`.
pub proof fn lemma_minimal_value(n: nat)
    ensures
        be_value(minimal_be(n)) == n,
        minimal_be(n).len() >= 1,
    decreases n,
{
    if n < 256 {
        let s = minimal_be(n);
        assert(s.drop_last() =~= Seq::<u8>::empty());
        assert(s.last() as nat == n);
        assert(be_value(s) == be_value(s.drop_last()) * 256 + s.last() as nat);
    } else {
        lemma_minimal_value(n / 256);
        let s = minimal_be(n);
        assert(s.drop_last() =~= minimal_be(n / 256));
        assert(s.last() as nat == n % 256);
        lemma_fundamental_div_mod(n as int, 256);
        assert(be_value(s) == be_value(s.drop_last()) * 256 + s.last() as nat);
    }
}

/// A larger number never has a shorter shortest form.
pub proof fn lemma_minimal_len_mono(n: nat, m: nat)
    requires
        n <= m,
    ensures
        minimal_be(n).len() <= minimal_be(m).len(),
    decreases m,
{
    lemma_minimal_value(m);
    if m >= 256 && n >= 256 {
        lemma_div_is_ordered(n as int, m as int, 256);
        lemma_minimal_len_mono(n / 256, m / 256);
    }
}

/// Zero bytes are worth nothing.
pub proof fn lemma_zeros_value(z: nat)
    ensures
        be_value(zeros(z)) == 0,
    decreases z,
{
    if z > 0 {
        assert(zeros(z).drop_last() =~= zeros((z - 1) as nat));
        lemma_zeros_value((z - 1) as nat);
    }
}

/// Leading zero bytes do not change the value.
pub proof fn lemma_zero_pad_value(z: nat, s: Seq<u8>)
    ensures
        be_value(zeros(z) + s) == be_value(s),
    decreases s.len(),
{
    if s.len() == 0 {
        assert(zeros(z) + s =~= zeros(z));
        lemma_zeros_value(z);
    } else {
        assert((zeros(z) + s).drop_last() =~= zeros(z) + s.drop_last());
        lemma_zero_pad_value(z, s.drop_last());
    }
}

/// The padded form of `n` has the value `n`, and the width asked for where `n`
/// fits in it.
pub proof fn lemma_fixed_value(n: nat, w: nat)
    ensures
        be_value(fixed_be(n, w)) == n,
        minimal_be(n).len() <= w ==> fixed_be(n, w).len() == w,
{
    lemma_minimal_value(n);
    if minimal_be(n).len() <= w {
        lemma_zero_pad_value((w - minimal_be(n).len()) as nat, minimal_be(n));
    }
}

} // verus!
