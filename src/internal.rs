use vstd::arithmetic::div_mod::{
    lemma_fundamental_div_mod, lemma_mod_multiples_vanish, lemma_mul_mod_noop_right,
};
use vstd::prelude::*;

use core::cmp::Ordering;

use crate::arith::lemma_mod_inv_is;
use crate::error::Error;
use crate::keys::{ElgamalGroupElements, ElgamalPrivateKey, ElgamalPublicKey, GroupModel};
use crate::natural::{
    be_value, big_add, big_bits, big_cmp, big_mod_inverse, big_modpow, big_mul, big_rem, big_sub,
    big_to_bytes_be, bit_len, invertible, minimal_be, mod_inv, pow_mod, Natural,
};

verus! {

/// A result carrying a number, seen through the numbers' values.
pub open spec fn nat_result(r: Result<Natural, Error>) -> Result<nat, Error> {
    match r {
        Ok(v) => Ok(v@),
        Err(e) => Err(e),
    }
}

/// A result carrying two numbers, seen through the numbers' values.
pub open spec fn pair_result(r: Result<(Natural, Natural), Error>) -> Result<(nat, nat), Error> {
    match r {
        Ok((a, b)) => Ok((a@, b@)),
        Err(e) => Err(e),
    }
}

/// The ciphertext `(g^r mod p, m·y^r mod p)` of `m` under `y` with ephemeral `r`.
pub open spec fn encrypt_spec(gr: GroupModel, y: nat, m: nat, r: nat) -> (nat, nat) {
    (pow_mod(gr.g, r, gr.p), (m * pow_mod(y, r, gr.p)) % gr.p)
}

/// Decryption of `(a, b)` with exponent `x`: `b · (a^x mod p)^-1 mod p`, or
/// `InvalidPrivateKey` where `a^x mod p` has no inverse.
pub open spec fn decrypt_spec(p: nat, x: nat, a: nat, b: nat) -> Result<nat, Error> {
    let z = pow_mod(a, x, p);
    if invertible(z, p) {
        Ok((mod_inv(z, p) * b) % p)
    } else {
        Err(Error::InvalidPrivateKey)
    }
}

/// Re-randomisation of `(a, b)` with fresh `r2`: `(g^r2 · a mod p, b · y^r2 mod p)`.
pub open spec fn reencrypt_spec(gr: GroupModel, y: nat, a: nat, b: nat, r2: nat) -> (nat, nat) {
    ((pow_mod(gr.g, r2, gr.p) * a) % gr.p, (b * pow_mod(y, r2, gr.p)) % gr.p)
}

/// The signature of `h` with exponent `x` and ephemeral `k`:
/// `(g^k mod p, k^-1 · (h - x·r) mod q)`, or `InvalidInverse` where `k` has no
/// inverse modulo `q`.
pub open spec fn sign_spec(gr: GroupModel, x: nat, h: nat, k: nat) -> Result<(nat, nat), Error> {
    if invertible(k, gr.q) {
        let r = pow_mod(gr.g, k, gr.p);
        let s = (mod_inv(k, gr.q) as int * (h as int - x as int * r as int)) % (gr.q as int);
        Ok((r, s as nat))
    } else {
        Err(Error::InvalidInverse)
    }
}

/// Verification of `(r, s)` on `h` under `y`: a component out of range is
/// `InvalidRange`; otherwise `y^r · r^s ≡ g^h (mod p)` decides.
pub open spec fn verify_spec(gr: GroupModel, y: nat, h: nat, r: nat, s: nat) -> Result<(), Error> {
    if s > gr.q || r > gr.p {
        Err(Error::InvalidRange)
    } else if (pow_mod(y, r, gr.p) * pow_mod(r, s, gr.p)) % gr.p == pow_mod(gr.g, h, gr.p) {
        Ok(())
    } else {
        Err(Error::Verification)
    }
}

#[inline]
fn encrypt_raw(m: &Natural, p: &Natural, y: &Natural, g: &Natural, r: &Natural) -> (res: (
    Natural,
    Natural,
))
    requires
        p@ > 0,
    ensures
        res.0@ == pow_mod(g@, r@, p@),
        res.1@ == (m@ * pow_mod(y@, r@, p@)) % p@,
{
    let a = big_modpow(g, r, p);
    let yr = big_modpow(y, r, p);
    let b = big_rem(&big_mul(m, &yr), p);
    (a, b)
}

#[inline]
fn decrypt_raw(a: &Natural, b: &Natural, p: &Natural, x: &Natural) -> (r: Result<Natural, Error>)
    requires
        p@ > 0,
    ensures
        nat_result(r) == decrypt_spec(p@, x@, a@, b@),
{
    let z = big_modpow(a, x, p);
    match big_mod_inverse(&z, p) {
        None => Err(Error::InvalidPrivateKey),
        Some(inv) => {
            proof {
                lemma_mod_inv_is(inv@, z@, p@);
            }
            let divider = big_mul(&inv, b);
            Ok(big_rem(&divider, p))
        },
    }
}

/// Encrypts `m` under `key` with the ephemeral exponent `r` (drawn from `[1, q)`).
/// `MessageTooLong` where `m` has more bits than `p`.
pub fn encrypt(key: &ElgamalPublicKey, m: &Natural, r: &Natural) -> (res: Result<(Natural, Natural), Error>)
    requires
        key.group_model().p > 0,
    ensures
        bit_len(m@) > bit_len(key.group_model().p) ==> res == Err::<(Natural, Natural), Error>(
            Error::MessageTooLong,
        ),
        bit_len(m@) <= bit_len(key.group_model().p) ==> pair_result(res) == Ok::<(nat, nat), Error>(
            encrypt_spec(key.group_model(), key.spec_y(), m@, r@),
        ),
{
    let p = key.get_p();
    if big_bits(m) > big_bits(p) {
        return Err(Error::MessageTooLong);
    }
    Ok(encrypt_raw(m, p, key.get_y(), key.get_g(), r))
}

/// A fresh ciphertext of the plaintext of `(a, b)`, made with the new ephemeral
/// exponent `r` (drawn from `[1, q)`) without decrypting.
pub fn reencrypt(key: &ElgamalPublicKey, a: &Natural, b: &Natural, r: &Natural) -> (res: (
    Natural,
    Natural,
))
    requires
        key.group_model().p > 0,
    ensures
        (res.0@, res.1@) == reencrypt_spec(key.group_model(), key.spec_y(), a@, b@, r@),
{
    let p = key.get_p();
    let (a1, b1) = encrypt_raw(b, p, key.get_y(), key.get_g(), r);
    let a2 = big_rem(&big_mul(&a1, a), p);
    proof {
        assert(b@ * pow_mod(key.spec_y(), r@, p@) == pow_mod(key.spec_y(), r@, p@) * b@)
            by (nonlinear_arith);
    }
    (a2, b1)
}

/// Decrypts `(a, b)` with `key`.
pub fn decrypt(key: &ElgamalPrivateKey, a: &Natural, b: &Natural) -> (r: Result<Natural, Error>)
    requires
        key.group_model().p > 0,
    ensures
        nat_result(r) == decrypt_spec(key.group_model().p, key.spec_x(), a@, b@),
{
    decrypt_raw(a, b, key.get_p(), key.get_x())
}

/// Checks the signature `(r, s)` of `h` under `key`.
pub fn verify(key: &ElgamalPublicKey, h: &Natural, r: &Natural, s: &Natural) -> (res: Result<(), Error>)
    requires
        key.group_model().p > 0,
    ensures
        res == verify_spec(key.group_model(), key.spec_y(), h@, r@, s@),
{
    let p = key.get_p();
    let q = key.get_q();
    let s_high = match big_cmp(s, q) {
        Ordering::Greater => true,
        _ => false,
    };
    let r_high = match big_cmp(r, p) {
        Ordering::Greater => true,
        _ => false,
    };
    if s_high || r_high {
        return Err(Error::InvalidRange);
    }
    let v1 = big_rem(&big_mul(&big_modpow(key.get_y(), r, p), &big_modpow(r, s, p)), p);
    let v2 = big_modpow(key.get_g(), h, p);
    match big_cmp(&v1, &v2) {
        Ordering::Equal => Ok(()),
        _ => Err(Error::Verification),
    }
}

/// Signs `h` with `key` and the ephemeral exponent `k` (drawn from `[1, q)`).
pub fn sign(key: &ElgamalPrivateKey, h: &Natural, k: &Natural) -> (res: Result<(Natural, Natural), Error>)
    requires
        key.group_model().p > 0,
        key.group_model().q > 0,
    ensures
        pair_result(res) == sign_spec(key.group_model(), key.spec_x(), h@, k@),
{
    let q = key.get_q();
    let r = big_modpow(key.get_g(), k, key.get_p());
    let reverse_k = match big_mod_inverse(k, q) {
        Some(i) => i,
        None => return Err(Error::InvalidInverse),
    };
    proof {
        lemma_mod_inv_is(reverse_k@, k@, q@);
    }
    let s1 = big_rem(&big_mul(key.get_x(), &r), q);
    let ghost xr = key.spec_x() as int * r@ as int;
    let ghost target = h@ as int - xr;
    proof {
        lemma_fundamental_div_mod(xr, q@ as int);
    }
    let s = match big_cmp(&s1, h) {
        Ordering::Greater => {
            let t = big_sub(&big_add(q, h), &s1);
            proof {
                assert(q@ * (1 + xr / q@ as int) == q@ + q@ * (xr / q@ as int))
                    by (nonlinear_arith);
                assert(t@ as int == q@ * (1 + xr / q@ as int) + target);
                lemma_mod_multiples_vanish(1 + xr / q@ as int, target, q@ as int);
                lemma_mul_mod_noop_right(reverse_k@ as int, t@ as int, q@ as int);
                lemma_mul_mod_noop_right(reverse_k@ as int, target, q@ as int);
            }
            big_rem(&big_mul(&reverse_k, &t), q)
        },
        _ => {
            let t = big_sub(h, &s1);
            proof {
                assert(t@ as int == q@ * (xr / q@ as int) + target);
                lemma_mod_multiples_vanish(xr / q@ as int, target, q@ as int);
                lemma_mul_mod_noop_right(reverse_k@ as int, t@ as int, q@ as int);
                lemma_mul_mod_noop_right(reverse_k@ as int, target, q@ as int);
            }
            big_rem(&big_mul(&reverse_k, &t), q)
        },
    };
    Ok((r, s))
}

/// The bytes that the challenge is hashed from: `v ‖ a ‖ b`, each in its
/// shortest big-endian form.
pub open spec fn challenge_input(v: nat, a: nat, b: nat) -> Seq<u8> {
    minimal_be(v) + minimal_be(a) + minimal_be(b)
}

/// What the non-malleable encryption of `m` with ephemerals `r` and `s` hashes:
/// the commitment `g^s mod p` and the ciphertext.
pub open spec fn nm_encrypt_input_spec(gr: GroupModel, y: nat, m: nat, r: nat, s: nat) -> Seq<u8> {
    let (a, b) = encrypt_spec(gr, y, m, r);
    challenge_input(pow_mod(gr.g, s, gr.p), a, b)
}

/// The non-malleable ciphertext `(a, b, c, d)` of `m`, where `digest` is the
/// hash of its challenge input: `c = digest mod q` and `d = s + c·r mod q`.
pub open spec fn nm_encrypt_spec(gr: GroupModel, y: nat, m: nat, r: nat, s: nat, digest: Seq<u8>) -> (
    nat,
    nat,
    nat,
    nat,
) {
    let (a, b) = encrypt_spec(gr, y, m, r);
    let c = be_value(digest) % gr.q;
    (a, b, c, (s + c * r) % gr.q)
}

/// What decryption of `(a, b, c, d)` hashes: the recomputed commitment
/// `g^d · (a^c mod p)^-1 mod p` and the ciphertext, or `InvalidPrivateKey`
/// where `a^c mod p` has no inverse.
pub open spec fn nm_decrypt_input_spec(gr: GroupModel, a: nat, b: nat, c: nat, d: nat) -> Result<
    Seq<u8>,
    Error,
> {
    let z = pow_mod(a, c, gr.p);
    if invertible(z, gr.p) {
        Ok(challenge_input((pow_mod(gr.g, d, gr.p) * mod_inv(z, gr.p)) % gr.p, a, b))
    } else {
        Err(Error::InvalidPrivateKey)
    }
}

/// Decryption of `(a, b, c)` where `digest` is the hash of the recomputed
/// challenge input: `Verification` unless `digest mod q == c`, else plain
/// decryption of `(a, b)`.
pub open spec fn nm_decrypt_spec(gr: GroupModel, x: nat, a: nat, b: nat, c: nat, digest: Seq<u8>) -> Result<
    nat,
    Error,
> {
    if be_value(digest) % gr.q != c {
        Err(Error::Verification)
    } else {
        decrypt_spec(gr.p, x, a, b)
    }
}

fn challenge_bytes(v: &Natural, a: &Natural, b: &Natural) -> (t: Vec<u8>)
    ensures
        t@ == challenge_input(v@, a@, b@),
{
    let mut t = big_to_bytes_be(v);
    let mut ab = big_to_bytes_be(a);
    t.append(&mut ab);
    let mut bb = big_to_bytes_be(b);
    t.append(&mut bb);
    t
}

/// The bytes to hash for the non-malleable encryption of `m` under `key` with
/// the ephemeral exponents `r` and `s` (each drawn from `[1, q)`).
pub fn non_malleable_encrypt_input(key: &ElgamalPublicKey, m: &Natural, r: &Natural, s: &Natural) -> (t: Vec<u8>)
    requires
        key.group_model().p > 0,
    ensures
        t@ == nm_encrypt_input_spec(key.group_model(), key.spec_y(), m@, r@, s@),
{
    let p = key.get_p();
    let g = key.get_g();
    let (a, b) = encrypt_raw(m, p, key.get_y(), g, r);
    let v = big_modpow(g, s, p);
    challenge_bytes(&v, &a, &b)
}

/// The non-malleable encryption of `m` under `key` with the ephemeral exponents
/// `r` and `s`, where `digest` is the hash of `non_malleable_encrypt_input`.
pub fn non_malleable_encrypt(
    key: &ElgamalPublicKey,
    m: &Natural,
    r: &Natural,
    s: &Natural,
    digest: &[u8],
) -> (res: (Natural, Natural, Natural, Natural))
    requires
        key.group_model().p > 0,
        key.group_model().q > 0,
    ensures
        (res.0@, res.1@, res.2@, res.3@) == nm_encrypt_spec(
            key.group_model(),
            key.spec_y(),
            m@,
            r@,
            s@,
            digest@,
        ),
{
    let q = key.get_q();
    let (a, b) = encrypt_raw(m, key.get_p(), key.get_y(), key.get_g(), r);
    let c = big_rem(&Natural::from_bytes_be(digest), q);
    let d = big_rem(&big_add(s, &big_mul(&c, r)), q);
    (a, b, c, d)
}

/// The bytes to hash when decrypting the non-malleable ciphertext
/// `(a, b, c, d)` with `key`.
pub fn non_malleable_decrypt_input(
    key: &ElgamalPrivateKey,
    a: &Natural,
    b: &Natural,
    c: &Natural,
    d: &Natural,
) -> (t: Result<Vec<u8>, Error>)
    requires
        key.group_model().p > 0,
    ensures
        match t {
            Ok(bytes) => nm_decrypt_input_spec(key.group_model(), a@, b@, c@, d@) == Ok::<
                Seq<u8>,
                Error,
            >(bytes@),
            Err(e) => nm_decrypt_input_spec(key.group_model(), a@, b@, c@, d@) == Err::<
                Seq<u8>,
                Error,
            >(e),
        },
{
    let p = key.get_p();
    let z = big_modpow(a, c, p);
    let a_inverse = match big_mod_inverse(&z, p) {
        Some(i) => i,
        None => return Err(Error::InvalidPrivateKey),
    };
    proof {
        lemma_mod_inv_is(a_inverse@, z@, p@);
    }
    let v = big_rem(&big_mul(&big_modpow(key.get_g(), d, p), &a_inverse), p);
    Ok(challenge_bytes(&v, a, b))
}

/// Decrypts the non-malleable ciphertext `(a, b, c)` with `key`, where `digest`
/// is the hash of `non_malleable_decrypt_input`.
pub fn non_malleable_decrypt(
    key: &ElgamalPrivateKey,
    a: &Natural,
    b: &Natural,
    c: &Natural,
    digest: &[u8],
) -> (r: Result<Natural, Error>)
    requires
        key.group_model().p > 0,
        key.group_model().q > 0,
    ensures
        nat_result(r) == nm_decrypt_spec(key.group_model(), key.spec_x(), a@, b@, c@, digest@),
{
    let v = big_rem(&Natural::from_bytes_be(digest), key.get_q());
    match big_cmp(&v, c) {
        Ordering::Equal => decrypt_raw(a, b, key.get_p(), key.get_x()),
        _ => Err(Error::Verification),
    }
}

} // verus!
