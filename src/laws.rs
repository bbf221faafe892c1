use vstd::arithmetic::div_mod::{
    lemma_add_mod_noop_right, lemma_div_is_ordered, lemma_mod_twice, lemma_mul_mod_noop, lemma_mul_mod_noop_left,
    lemma_mul_mod_noop_right, lemma_small_mod,
};
use vstd::arithmetic::power::{lemma_pow_adds, lemma_pow_distributes, lemma_pow_mod_noop, pow};
use vstd::prelude::*;

use crate::arith::{
    fixed_be, lemma_fixed_value, lemma_minimal_len_mono,
    lemma_cancel, lemma_inverse_cancels, lemma_pow_invertible, lemma_pow_mod_order,
    lemma_pow_pow_mod,
};
use crate::codec::{component_width, decode_pair, encode_pair};
use crate::internal::{
    decrypt_spec, encrypt_spec, nm_decrypt_input_spec, nm_decrypt_spec, nm_encrypt_input_spec,
    nm_encrypt_spec, reencrypt_spec, sign_spec, verify_spec,
};
use crate::keys::{key_pair, valid_group, ElgamalGroupElements, ElgamalPrivateKey, ElgamalPublicKey, GroupModel};
use crate::natural::{be_value, bit_len, invertible, is_inverse, mod_inv, pow_mod};

verus! {

/// Decrypting `(g^e mod p, m · (g^(e·x) mod p) mod p)` with `x` gives `m` back,
/// for `m < p`.
pub proof fn lemma_decrypt_power(gr: GroupModel, x: nat, e: nat, m: nat)
    requires
        valid_group(gr),
        m < gr.p,
    ensures
        decrypt_spec(gr.p, x, pow_mod(gr.g, e, gr.p), (m * pow_mod(gr.g, e * x, gr.p)) % gr.p)
            == Ok::<nat, crate::error::Error>(m),
{
    let p = gr.p;
    let a = pow_mod(gr.g, e, p);
    let z = pow_mod(a, x, p);
    lemma_pow_pow_mod(gr.g as int, e, x, p as int);
    assert(z == pow_mod(gr.g, e * x, p));
    lemma_pow_invertible(gr.g as int, e * x, gr.q, p);
    assert(invertible(z, p));
    let i = mod_inv(z, p);
    assert(is_inverse(i, z, p));
    let b = (m * z) % p;
    lemma_mod_twice((m * z) as int, p as int);
    lemma_inverse_cancels(i, z, b, p);
    let res = (i * b) % p;
    lemma_cancel(res, m, z, p);
    lemma_small_mod(res, p);
    lemma_small_mod(m, p);
}

/// Decryption undoes encryption: for a key pair, every plaintext `m < p` and
/// every ephemeral exponent `r`, decrypting the encryption of `m` gives `m`.
pub proof fn lemma_encrypt_decrypt(
    public: &ElgamalPublicKey,
    private: &ElgamalPrivateKey,
    m: nat,
    r: nat,
)
    requires
        key_pair(public, private),
        m < private.group_model().p,
    ensures
        ({
            let (a, b) = encrypt_spec(public.group_model(), public.spec_y(), m, r);
            decrypt_spec(private.group_model().p, private.spec_x(), a, b) == Ok::<
                nat,
                crate::error::Error,
            >(m)
        }),
{
    let gr = private.group_model();
    let x = private.spec_x();
    lemma_pow_pow_mod(gr.g as int, x, r, gr.p as int);
    assert(x * r == r * x) by (nonlinear_arith);
    lemma_decrypt_power(gr, x, r, m);
}

/// Re-encryption keeps the plaintext: for a key pair, every plaintext `m < p`
/// and all ephemeral exponents `r` and `r2`, re-encrypting the encryption of
/// `m` and decrypting gives `m`.
pub proof fn lemma_reencrypt_decrypt(
    public: &ElgamalPublicKey,
    private: &ElgamalPrivateKey,
    m: nat,
    r: nat,
    r2: nat,
)
    requires
        key_pair(public, private),
        m < private.group_model().p,
    ensures
        ({
            let (a, b) = encrypt_spec(public.group_model(), public.spec_y(), m, r);
            let (a2, b2) = reencrypt_spec(public.group_model(), public.spec_y(), a, b, r2);
            decrypt_spec(private.group_model().p, private.spec_x(), a2, b2) == Ok::<
                nat,
                crate::error::Error,
            >(m)
        }),
{
    let gr = private.group_model();
    let (g, p, x) = (gr.g as int, gr.p as int, private.spec_x());
    let (a, b) = encrypt_spec(gr, public.spec_y(), m, r);
    // a2 = g^(r2 + r) mod p
    lemma_mul_mod_noop(pow(g, r2), pow(g, r), p);
    lemma_pow_adds(g, r2, r);
    assert(reencrypt_spec(gr, public.spec_y(), a, b, r2).0 == pow_mod(gr.g, r2 + r, gr.p));
    // b2 = m * g^((r2 + r) x) mod p
    let y1 = pow_mod(public.spec_y(), r, gr.p);
    let y2 = pow_mod(public.spec_y(), r2, gr.p);
    lemma_pow_pow_mod(g, x, r, p);
    lemma_pow_pow_mod(g, x, r2, p);
    assert(y1 as int == pow(g, x * r) % p);
    assert(y2 as int == pow(g, x * r2) % p);
    lemma_mul_mod_noop(pow(g, x * r), pow(g, x * r2), p);
    lemma_pow_adds(g, x * r, x * r2);
    assert(x * r + x * r2 == (r2 + r) * x) by (nonlinear_arith);
    assert((y1 * y2) % gr.p == pow_mod(gr.g, (r2 + r) * x, gr.p));
    lemma_mul_mod_noop_left((m * y1) as int, y2 as int, p);
    assert((m * y1) * y2 == m * (y1 * y2)) by (nonlinear_arith);
    lemma_mul_mod_noop_right(m as int, (y1 * y2) as int, p);
    assert(reencrypt_spec(gr, public.spec_y(), a, b, r2).1 == (m * pow_mod(
        gr.g,
        (r2 + r) * x,
        gr.p,
    )) % gr.p);
    lemma_decrypt_power(gr, x, r2 + r, m);
}

/// A signature verifies: for a key pair, every `h` and every ephemeral `k`
/// for which signing succeeds, the signature passes verification.
pub proof fn lemma_sign_verify(
    public: &ElgamalPublicKey,
    private: &ElgamalPrivateKey,
    h: nat,
    k: nat,
)
    requires
        key_pair(public, private),
    ensures
        sign_spec(private.group_model(), private.spec_x(), h, k) matches Ok((r, s)) ==> verify_spec(
            public.group_model(),
            public.spec_y(),
            h,
            r,
            s,
        ) == Ok::<(), crate::error::Error>(()),
{
    let gr = private.group_model();
    let x = private.spec_x();
    if invertible(k, gr.q) {
        let (g, p, q) = (gr.g as int, gr.p as int, gr.q as int);
        let r = pow_mod(gr.g, k, gr.p);
        let i = mod_inv(k, gr.q);
        assert(is_inverse(i, k, gr.q));
        let d = h as int - x as int * r as int;
        let s = (i as int * d) % q;
        let sn = s as nat;
        // y^r = g^(x r) and r^s = g^(k s) modulo p
        lemma_pow_pow_mod(g, x, r, p);
        lemma_pow_pow_mod(g, k, sn, p);
        lemma_mul_mod_noop(pow(g, x * r), pow(g, k * sn), p);
        lemma_pow_adds(g, x * r, k * sn);
        // x r + k s = h modulo q
        lemma_small_mod(1, gr.q);
        lemma_mul_mod_noop_right(k as int, i as int * d, q);
        assert(k as int * (i as int * d) == d * (i as int * k as int)) by (nonlinear_arith);
        lemma_mul_mod_noop_right(d, i as int * k as int, q);
        assert((i as int * k as int) % q == 1);
        assert(d * 1 == d);
        assert((k * sn) as int % q == d % q);
        lemma_add_mod_noop_right(x as int * r as int, (k * sn) as int, q);
        lemma_add_mod_noop_right(x as int * r as int, d, q);
        assert(x as int * r as int + d == h as int);
        assert((x * r + k * sn) as int % q == h as int % q);
        // exponents of g count modulo q
        lemma_pow_mod_order(g, x * r + k * sn, gr.q, p);
        lemma_pow_mod_order(g, h, gr.q, p);
    }
}

/// Non-malleable round trip: for a key pair, every plaintext `m < p`, all
/// ephemeral exponents `r` and `s`, and any digest value, decryption of the
/// non-malleable ciphertext hashes exactly the bytes that encryption hashed,
/// and with the same digest value it gives `m` back.
pub proof fn lemma_non_malleable_round_trip(
    public: &ElgamalPublicKey,
    private: &ElgamalPrivateKey,
    m: nat,
    r: nat,
    s: nat,
    digest: Seq<u8>,
)
    requires
        key_pair(public, private),
        m < private.group_model().p,
    ensures
        ({
            let gr = public.group_model();
            let (a, b, c, d) = nm_encrypt_spec(gr, public.spec_y(), m, r, s, digest);
            &&& nm_decrypt_input_spec(private.group_model(), a, b, c, d) == Ok::<
                Seq<u8>,
                crate::error::Error,
            >(nm_encrypt_input_spec(gr, public.spec_y(), m, r, s))
            &&& nm_decrypt_spec(private.group_model(), private.spec_x(), a, b, c, digest) == Ok::<
                nat,
                crate::error::Error,
            >(m)
        }),
{
    let gr = private.group_model();
    let (g, p) = (gr.g as int, gr.p as int);
    let (a, b, c, d) = nm_encrypt_spec(gr, public.spec_y(), m, r, s, digest);
    let z = pow_mod(a, c, gr.p);
    lemma_pow_pow_mod(g, r, c, p);
    assert(r * c == c * r) by (nonlinear_arith);
    assert(z == pow_mod(gr.g, c * r, gr.p));
    lemma_pow_invertible(g, c * r, gr.q, gr.p);
    let i = mod_inv(z, gr.p);
    assert(is_inverse(i, z, gr.p));
    lemma_small_mod(1, gr.p);
    // g^d = g^s · g^(c r) modulo p
    lemma_pow_mod_order(g, s + c * r, gr.q, p);
    lemma_pow_adds(g, s, c * r);
    let (gs, gcr) = (pow(g, s), pow(g, c * r));
    lemma_mul_mod_noop_left(gs * gcr, i as int, p);
    assert((gs * gcr) * i == gs * (gcr * i)) by (nonlinear_arith);
    lemma_mul_mod_noop_right(gs, gcr * i, p);
    lemma_mul_mod_noop_left(gcr, i as int, p);
    assert((z * i) % gr.p == (i * z) % gr.p) by (nonlinear_arith);
    assert(gs * 1 == gs);
    assert((pow_mod(gr.g, d, gr.p) * i) % gr.p == pow_mod(gr.g, s, gr.p));
    lemma_encrypt_decrypt(public, private, m, r);
}

/// More value never takes fewer bits.
pub proof fn lemma_bit_len_mono(n: nat, m: nat)
    requires
        n <= m,
    ensures
        bit_len(n) <= bit_len(m),
    decreases m,
{
    if n > 0 {
        lemma_div_is_ordered(n as int, m as int, 2);
        lemma_bit_len_mono(n / 2, m / 2);
    }
}

/// Byte-level round trip: for a key pair, every message whose value `m` is
/// below `p`, and every ephemeral exponent `r`, the message is short enough to
/// encrypt, and the encrypted bytes split into halves that decrypt to `m`.
pub proof fn lemma_bytes_round_trip(
    public: &ElgamalPublicKey,
    private: &ElgamalPrivateKey,
    msg: Seq<u8>,
    r: nat,
)
    requires
        key_pair(public, private),
        be_value(msg) < private.group_model().p,
    ensures
        bit_len(be_value(msg)) <= bit_len(public.group_model().p),
        ({
            let gr = public.group_model();
            let (a, b) = encrypt_spec(gr, public.spec_y(), be_value(msg), r);
            let bytes = encode_pair(a, b, component_width(gr.p));
            &&& bytes.len() % 2 == 0
            &&& decrypt_spec(
                gr.p,
                private.spec_x(),
                decode_pair(bytes).0,
                decode_pair(bytes).1,
            ) == Ok::<nat, crate::error::Error>(be_value(msg))
        }),
{
    let gr = private.group_model();
    let m = be_value(msg);
    lemma_bit_len_mono(m, gr.p);
    let (a, b) = encrypt_spec(gr, public.spec_y(), m, r);
    let w = component_width(gr.p);
    lemma_minimal_len_mono(a, gr.p);
    lemma_minimal_len_mono(b, gr.p);
    lemma_fixed_value(a, w);
    lemma_fixed_value(b, w);
    let bytes = encode_pair(a, b, w);
    assert(bytes.subrange(0, w as int) =~= fixed_be(a, w));
    assert(bytes.subrange(w as int, bytes.len() as int) =~= fixed_be(b, w));
    lemma_encrypt_decrypt(public, private, m, r);
}

/// A product of residues invertible modulo `p` is invertible.
pub proof fn lemma_product_invertible(y: nat, a: nat, p: nat)
    requires
        p > 1,
        invertible(y, p),
        invertible(a, p),
    ensures
        invertible((y * a) % p, p),
{
    let k = mod_inv(y, p);
    let j = mod_inv(a, p);
    assert(is_inverse(k, y, p));
    assert(is_inverse(j, a, p));
    let m = p as int;
    let i = (j * k) % p;
    lemma_small_mod(1, p);
    lemma_mul_mod_noop((j * k) as int, (y * a) as int, m);
    lemma_mod_twice((j * k) as int, m);
    lemma_mod_twice((y * a) as int, m);
    assert((j * k) * (y * a) == (k * y) * (j * a)) by (nonlinear_arith);
    lemma_mul_mod_noop((k * y) as int, (j * a) as int, m);
    assert(((i * ((y * a) % p)) % p) as int == ((j * k) * (y * a)) as int % m);
    assert(is_inverse(i, (y * a) % p, p));
}

/// Where `y · a mod p` is invertible, so is `a`.
pub proof fn lemma_factor_invertible(y: nat, a: nat, p: nat)
    requires
        p > 1,
        invertible((y * a) % p, p),
    ensures
        invertible(a, p),
{
    let z = (y * a) % p;
    let i = mod_inv(z, p);
    assert(is_inverse(i, z, p));
    let m = p as int;
    let w = (i * y) % p;
    lemma_mul_mod_noop_left((i * y) as int, a as int, m);
    assert((i * y) * a == i * (y * a)) by (nonlinear_arith);
    lemma_mul_mod_noop_right(i as int, (y * a) as int, m);
    assert(is_inverse(w, a, p));
}

/// Re-encryption keeps the decryption of every ciphertext: for a key pair, all
/// `a`, `b` and every ephemeral exponent `r2`, decrypting the re-encryption of
/// `(a, b)` gives what decrypting `(a, b)` gives, error included.
pub proof fn lemma_reencrypt_keeps_decryption(
    public: &ElgamalPublicKey,
    private: &ElgamalPrivateKey,
    a: nat,
    b: nat,
    r2: nat,
)
    requires
        key_pair(public, private),
    ensures
        ({
            let (a2, b2) = reencrypt_spec(public.group_model(), public.spec_y(), a, b, r2);
            decrypt_spec(private.group_model().p, private.spec_x(), a2, b2) == decrypt_spec(
                private.group_model().p,
                private.spec_x(),
                a,
                b,
            )
        }),
{
    let gr = private.group_model();
    let (g, p, x) = (gr.g as int, gr.p as int, private.spec_x());
    let pn = gr.p;
    let (a2, b2) = reencrypt_spec(gr, public.spec_y(), a, b, r2);
    let g2 = pow_mod(gr.g, r2, pn);
    let big_a = pow_mod(a, x, pn);
    let big_y = pow_mod(gr.g, r2 * x, pn);
    // a2^x = g^(r2 x) · a^x modulo p
    lemma_pow_mod_noop((g2 * a) as int, x, p);
    lemma_pow_distributes(g2 as int, a as int, x);
    lemma_mul_mod_noop(pow(g2 as int, x), pow(a as int, x), p);
    lemma_pow_pow_mod(g, r2, x, p);
    let z2 = pow_mod(a2, x, pn);
    assert(z2 == (big_y * big_a) % pn);
    // y^r2 = g^(r2 x) modulo p
    lemma_pow_pow_mod(g, x, r2, p);
    assert(x * r2 == r2 * x) by (nonlinear_arith);
    assert(b2 == (b * big_y) % pn);
    lemma_pow_invertible(g, r2 * x, gr.q, pn);
    if invertible(big_a, pn) {
        lemma_product_invertible(big_y, big_a, pn);
        let m1 = (mod_inv(big_a, pn) * b) % pn;
        let m2 = (mod_inv(z2, pn) * b2) % pn;
        assert(is_inverse(mod_inv(big_a, pn), big_a, pn));
        assert(is_inverse(mod_inv(z2, pn), z2, pn));
        lemma_inverse_cancels(mod_inv(big_a, pn), big_a, b, pn);
        lemma_inverse_cancels(mod_inv(z2, pn), z2, b2, pn);
        lemma_mod_twice((b * big_y) as int, p);
        // m1 · z2 = y^r2 · (m1 · a^x) = y^r2 · b modulo p
        lemma_mul_mod_noop_right(m1 as int, (big_y * big_a) as int, p);
        assert(m1 * (big_y * big_a) == big_y * (m1 * big_a)) by (nonlinear_arith);
        lemma_mul_mod_noop_right(big_y as int, (m1 * big_a) as int, p);
        lemma_mul_mod_noop_right(big_y as int, b as int, p);
        assert(big_y * b == b * big_y) by (nonlinear_arith);
        assert((m1 * z2) % pn == (m2 * z2) % pn);
        lemma_cancel(m1, m2, z2, pn);
        lemma_small_mod(m1, pn);
        lemma_small_mod(m2, pn);
    } else {
        if invertible(z2, pn) {
            lemma_factor_invertible(big_y, big_a, pn);
        }
    }
}

} // verus!
