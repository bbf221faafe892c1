use vstd::prelude::*;

use crate::arith::{fixed_be, zeros};
use crate::error::Error;
use crate::internal::{
    decrypt, decrypt_spec, encrypt, encrypt_spec, sign, sign_spec, verify, verify_spec,
};
use crate::keys::{ElgamalGroupElements, ElgamalPrivateKey, ElgamalPublicKey};
use crate::natural::{be_value, big_bits, big_to_bytes_be, bit_len, minimal_be, Natural};

verus! {

/// The width in bytes of each encoded component: that of the shortest form of `p`.
pub open spec fn component_width(p: nat) -> nat {
    minimal_be(p).len()
}

/// Two components, each written in `w` bytes where it fits.
pub open spec fn encode_pair(a: nat, b: nat, w: nat) -> Seq<u8> {
    fixed_be(a, w) + fixed_be(b, w)
}

/// The two components read from the halves of `bytes`.
pub open spec fn decode_pair(bytes: Seq<u8>) -> (nat, nat) {
    let h = bytes.len() / 2;
    (be_value(bytes.subrange(0, h as int)), be_value(bytes.subrange(h as int, bytes.len() as int)))
}

/// `n` in big-endian order, left-padded with zero bytes to `w` bytes when shorter.
fn fixed_bytes(n: &Natural, w: usize) -> (r: Vec<u8>)
    ensures
        r@ == fixed_be(n@, w as nat),
{
    let shortest = big_to_bytes_be(n);
    if shortest.len() > w {
        return shortest;
    }
    let mut out: Vec<u8> = Vec::new();
    let pad = w - shortest.len();
    let mut i: usize = 0;
    while i < pad
        invariant
            i <= pad,
            out@ == zeros(i as nat),
        decreases pad - i,
    {
        out.push(0u8);
        i = i + 1;
        proof {
            assert(out@ =~= zeros(i as nat));
        }
    }
    let mut tail = shortest;
    out.append(&mut tail);
    out
}

/// `a` and `b`, each in `w` bytes where it fits, one after the other.
fn pair_bytes(a: &Natural, b: &Natural, w: usize) -> (r: Vec<u8>)
    ensures
        r@ == encode_pair(a@, b@, w as nat),
{
    let mut out = fixed_bytes(a, w);
    let mut second = fixed_bytes(b, w);
    out.append(&mut second);
    out
}

/// `n` has more bits than `p`.
fn too_long(n: &Natural, p: &Natural) -> (r: bool)
    ensures
        r == (bit_len(n@) > bit_len(p@)),
{
    big_bits(n) > big_bits(p)
}

impl ElgamalPublicKey {
    /// Encrypts the message `msg`, read as a big-endian number `m`, with the
    /// ephemeral exponent `r` (drawn from `[1, q)`). The ciphertext is `a` and
    /// then `b`, each in as many bytes as `p` takes. `MessageTooLong` where `m`
    /// has more bits than `p`.
    pub fn encrypt(&self, msg: &[u8], r: &Natural) -> (res: Result<Vec<u8>, Error>)
        requires
            self.group_model().p > 0,
        ensures
            ({
                let gr = self.group_model();
                let m = be_value(msg@);
                let (a, b) = encrypt_spec(gr, self.spec_y(), m, r@);
                match res {
                    Ok(bytes) => bit_len(m) <= bit_len(gr.p) && bytes@ == encode_pair(
                        a,
                        b,
                        component_width(gr.p),
                    ),
                    Err(e) => bit_len(m) > bit_len(gr.p) && e == Error::MessageTooLong,
                }
            }),
    {
        let m = Natural::from_bytes_be(msg);
        match encrypt(self, &m, r) {
            Ok((a, b)) => {
                let w = big_to_bytes_be(self.get_p()).len();
                Ok(pair_bytes(&a, &b, w))
            },
            Err(e) => Err(e),
        }
    }

    /// Checks the signature `sig` (`r` then `s`, in two halves of equal length)
    /// of the hash `hashed`, read as a big-endian number. `InvalidData` where
    /// `sig` has odd length.
    pub fn verify(&self, hashed: &[u8], sig: &[u8]) -> (res: Result<(), Error>)
        requires
            self.group_model().p > 0,
        ensures
            sig@.len() % 2 == 1 ==> res == Err::<(), Error>(Error::InvalidData),
            sig@.len() % 2 == 0 ==> res == verify_spec(
                self.group_model(),
                self.spec_y(),
                be_value(hashed@),
                decode_pair(sig@).0,
                decode_pair(sig@).1,
            ),
    {
        if sig.len() % 2 != 0 {
            return Err(Error::InvalidData);
        }
        let h = Natural::from_bytes_be(hashed);
        let half = sig.len() / 2;
        let r = Natural::from_be_range(sig, 0, half);
        let s = Natural::from_be_range(sig, half, sig.len());
        verify(self, &h, &r, &s)
    }
}

impl ElgamalPrivateKey {
    /// Decrypts `ciphertext` (`a` then `b`, in two halves of equal length) into
    /// the shortest big-endian bytes of the plaintext. `InvalidData` where
    /// `ciphertext` has odd length.
    pub fn decrypt(&self, ciphertext: &[u8]) -> (res: Result<Vec<u8>, Error>)
        requires
            self.group_model().p > 0,
        ensures
            ciphertext@.len() % 2 == 1 ==> res == Err::<Vec<u8>, Error>(Error::InvalidData),
            ciphertext@.len() % 2 == 0 ==> match decrypt_spec(
                self.group_model().p,
                self.spec_x(),
                decode_pair(ciphertext@).0,
                decode_pair(ciphertext@).1,
            ) {
                Ok(m) => res matches Ok(bytes) && bytes@ == minimal_be(m),
                Err(e) => res == Err::<Vec<u8>, Error>(e),
            },
    {
        if ciphertext.len() % 2 != 0 {
            return Err(Error::InvalidData);
        }
        let half = ciphertext.len() / 2;
        let a = Natural::from_be_range(ciphertext, 0, half);
        let b = Natural::from_be_range(ciphertext, half, ciphertext.len());
        match decrypt(self, &a, &b) {
            Ok(m) => Ok(big_to_bytes_be(&m)),
            Err(e) => Err(e),
        }
    }

    /// Signs the hash `hashed`, read as a big-endian number `h`, with the
    /// ephemeral exponent `k` (drawn from `[1, q)`). The signature is `r` and
    /// then `s`, each in as many bytes as `p` takes. `MessageTooLong` where `h`
    /// has more bits than `p`.
    pub fn sign(&self, hashed: &[u8], k: &Natural) -> (res: Result<Vec<u8>, Error>)
        requires
            self.group_model().p > 0,
            self.group_model().q > 0,
        ensures
            ({
                let gr = self.group_model();
                let h = be_value(hashed@);
                if bit_len(h) > bit_len(gr.p) {
                    res == Err::<Vec<u8>, Error>(Error::MessageTooLong)
                } else {
                    match sign_spec(gr, self.spec_x(), h, k@) {
                        Ok((r, s)) => res matches Ok(bytes) && bytes@ == encode_pair(
                            r,
                            s,
                            component_width(gr.p),
                        ),
                        Err(e) => res == Err::<Vec<u8>, Error>(e),
                    }
                }
            }),
    {
        let p = self.get_p();
        let h = Natural::from_bytes_be(hashed);
        if too_long(&h, p) {
            return Err(Error::MessageTooLong);
        }
        match sign(self, &h, k) {
            Ok((r, s)) => {
                let w = big_to_bytes_be(p).len();
                Ok(pair_bytes(&r, &s, w))
            },
            Err(e) => Err(e),
        }
    }
}

} // verus!
