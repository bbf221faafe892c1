use vstd::arithmetic::power::pow;
use vstd::prelude::*;

use core::cmp::Ordering;
use num_bigint_dig::prime::probably_prime;
use num_bigint_dig::BigUint;
use num_bigint_dig::ModInverse;

verus! {

/// The value of a big-endian byte string.
pub open spec fn be_value(s: Seq<u8>) -> nat
    decreases s.len(),
{
    if s.len() == 0 {
        0
    } else {
        be_value(s.drop_last()) * 256 + s.last() as nat
    }
}

/// `b^e mod m`.
pub open spec fn pow_mod(b: nat, e: nat, m: nat) -> nat {
    (pow(b as int, e) % (m as int)) as nat
}

/// The number of bits needed to write `n` (zero needs none).
pub open spec fn bit_len(n: nat) -> nat
    decreases n,
{
    if n == 0 {
        0
    } else {
        1 + bit_len(n / 2)
    }
}

/// The shortest big-endian bytes of `n`: one byte below 256, and no leading zero byte.
pub open spec fn minimal_be(n: nat) -> Seq<u8>
    decreases n,
{
    if n < 256 {
        seq![n as u8]
    } else {
        minimal_be(n / 256).push((n % 256) as u8)
    }
}

/// `i` is an inverse of `z` modulo `n`.
pub open spec fn is_inverse(i: nat, z: nat, n: nat) -> bool {
    i < n && (i * z) % n == 1nat % n
}

/// `z` has an inverse modulo `n`.
pub open spec fn invertible(z: nat, n: nat) -> bool {
    exists|i: nat| is_inverse(i, z, n)
}

/// The inverse of `z` modulo `n`, where one exists.
pub open spec fn mod_inv(z: nat, n: nat) -> nat {
    choose|i: nat| is_inverse(i, z, n)
}

/// Outcome of the probabilistic primality test on `n` with `rounds` extra rounds.
pub uninterp spec fn probable_prime(n: nat, rounds: nat) -> bool;

/// An arbitrary-precision unsigned integer, held as big-endian bytes. The
/// arithmetic below is num-bigint-dig's: each operation reads its operands with
/// `BigUint::from_bytes_be` and stores the result with `BigUint::to_bytes_be`.
#[derive(Clone, Debug)]
pub struct Natural {
    bytes: Vec<u8>,
}

impl View for Natural {
    type V = nat;

    closed spec fn view(&self) -> nat {
        be_value(self.bytes@)
    }
}

/// Relies on BigUint::modpow (after from_bytes_be / to_bytes_be):
/// `(base ^ exponent) % modulus`; it panics on a zero modulus.
#[verifier::external_body]
pub(crate) fn big_modpow(base: &Natural, exponent: &Natural, modulus: &Natural) -> (r: Natural)
    requires
        modulus@ > 0,
    ensures
        r@ == pow_mod(base@, exponent@, modulus@),
{
    let b = BigUint::from_bytes_be(&base.bytes);
    let e = BigUint::from_bytes_be(&exponent.bytes);
    let m = BigUint::from_bytes_be(&modulus.bytes);
    Natural { bytes: b.modpow(&e, &m).to_bytes_be() }
}

/// Relies on `BigUint * BigUint`: the product.
#[verifier::external_body]
pub(crate) fn big_mul(a: &Natural, b: &Natural) -> (r: Natural)
    ensures
        r@ == a@ * b@,
{
    let x = BigUint::from_bytes_be(&a.bytes);
    let y = BigUint::from_bytes_be(&b.bytes);
    Natural { bytes: (x * y).to_bytes_be() }
}

/// Relies on `BigUint + BigUint`: the sum.
#[verifier::external_body]
pub(crate) fn big_add(a: &Natural, b: &Natural) -> (r: Natural)
    ensures
        r@ == a@ + b@,
{
    let x = BigUint::from_bytes_be(&a.bytes);
    let y = BigUint::from_bytes_be(&b.bytes);
    Natural { bytes: (x + y).to_bytes_be() }
}

/// Relies on `BigUint - BigUint`: the difference; it panics when it would be negative.
#[verifier::external_body]
pub(crate) fn big_sub(a: &Natural, b: &Natural) -> (r: Natural)
    requires
        a@ >= b@,
    ensures
        r@ == a@ - b@,
{
    let x = BigUint::from_bytes_be(&a.bytes);
    let y = BigUint::from_bytes_be(&b.bytes);
    Natural { bytes: (x - y).to_bytes_be() }
}

/// Relies on `BigUint % BigUint`: the remainder; it panics on a zero divisor.
#[verifier::external_body]
pub(crate) fn big_rem(a: &Natural, m: &Natural) -> (r: Natural)
    requires
        m@ > 0,
    ensures
        r@ == a@ % m@,
{
    let x = BigUint::from_bytes_be(&a.bytes);
    let y = BigUint::from_bytes_be(&m.bytes);
    Natural { bytes: (x % y).to_bytes_be() }
}

/// Relies on `BigUint / BigUint`: the quotient rounded down; it panics on a zero divisor.
#[verifier::external_body]
pub(crate) fn big_div(a: &Natural, m: &Natural) -> (r: Natural)
    requires
        m@ > 0,
    ensures
        r@ == a@ / m@,
{
    let x = BigUint::from_bytes_be(&a.bytes);
    let y = BigUint::from_bytes_be(&m.bytes);
    Natural { bytes: (x / y).to_bytes_be() }
}

/// Relies on BigUint's `Ord::cmp`: the order of the two values.
#[verifier::external_body]
pub(crate) fn big_cmp(a: &Natural, b: &Natural) -> (r: Ordering)
    ensures
        (r == Ordering::Less) == (a@ < b@),
        (r == Ordering::Equal) == (a@ == b@),
        (r == Ordering::Greater) == (a@ > b@),
{
    BigUint::from_bytes_be(&a.bytes).cmp(&BigUint::from_bytes_be(&b.bytes))
}

/// Relies on BigUint::bits: the fewest bits that express the value.
#[verifier::external_body]
pub(crate) fn big_bits(a: &Natural) -> (r: usize)
    ensures
        r as nat == bit_len(a@),
{
    BigUint::from_bytes_be(&a.bytes).bits()
}

/// Relies on BigUint::to_bytes_be: the shortest big-endian form (`[0]` for zero).
#[verifier::external_body]
pub(crate) fn big_to_bytes_be(a: &Natural) -> (r: Vec<u8>)
    ensures
        r@ == minimal_be(a@),
{
    BigUint::from_bytes_be(&a.bytes).to_bytes_be()
}

/// Relies on `BigUint::from(u64)`: the same value.
#[verifier::external_body]
pub(crate) fn big_from_u64(v: u64) -> (r: Natural)
    ensures
        r@ == v as nat,
{
    Natural { bytes: BigUint::from(v).to_bytes_be() }
}

/// Relies on ModInverse::mod_inverse for BigUint (extended Euclid): `None` exactly
/// when the greatest common divisor with the modulus is not one, else the
/// inverse in `[0, m)`.
#[verifier::external_body]
pub(crate) fn big_mod_inverse(a: &Natural, m: &Natural) -> (r: Option<Natural>)
    requires
        m@ > 0,
    ensures
        r.is_some() == invertible(a@, m@),
        r matches Some(i) ==> is_inverse(i@, a@, m@),
{
    let x = BigUint::from_bytes_be(&a.bytes);
    let n = BigUint::from_bytes_be(&m.bytes);
    match x.mod_inverse(&n) {
        Some(i) => match i.to_biguint() {
            Some(u) => Some(Natural { bytes: u.to_bytes_be() }),
            None => None,
        },
        None => None,
    }
}

/// Relies on num_bigint_dig::prime::probably_prime: Miller-Rabin with bases
/// drawn from a generator seeded by `n` itself, then Baillie-PSW, so the
/// outcome depends on `n` and `rounds` alone.
#[verifier::external_body]
pub(crate) fn big_probably_prime(n: &Natural, rounds: usize) -> (r: bool)
    requires
        rounds < usize::MAX,
    ensures
        r == probable_prime(n@, rounds as nat),
{
    probably_prime(&BigUint::from_bytes_be(&n.bytes), rounds)
}

impl Natural {
    /// The number written by `bytes` in big-endian order (empty is zero).
    pub fn from_bytes_be(bytes: &[u8]) -> (r: Natural)
        ensures
            r@ == be_value(bytes@),
    {
        proof {
            assert(bytes@.subrange(0, bytes@.len() as int) == bytes@);
        }
        Natural::from_be_range(bytes, 0, bytes.len())
    }

    /// The number written in big-endian order by `bytes[lo..hi]`.
    pub fn from_be_range(bytes: &[u8], lo: usize, hi: usize) -> (r: Natural)
        requires
            lo <= hi <= bytes@.len(),
        ensures
            r@ == be_value(bytes@.subrange(lo as int, hi as int)),
    {
        let mut v: Vec<u8> = Vec::new();
        let mut i: usize = lo;
        while i < hi
            invariant
                lo <= i <= hi,
                hi <= bytes@.len(),
                v@ == bytes@.subrange(lo as int, i as int),
            decreases hi - i,
        {
            v.push(bytes[i]);
            i = i + 1;
            proof {
                assert(v@ == bytes@.subrange(lo as int, i as int));
            }
        }
        Natural { bytes: v }
    }

    /// The number `v`.
    pub fn from_u64(v: u64) -> (r: Natural)
        ensures
            r@ == v as nat,
    {
        big_from_u64(v)
    }

    /// The shortest big-endian bytes of the number (`[0]` for zero).
    pub fn to_bytes_be(&self) -> (r: Vec<u8>)
        ensures
            r@ == minimal_be(self@),
    {
        big_to_bytes_be(self)
    }

    /// The fewest bits that express the number.
    pub fn bits(&self) -> (r: usize)
        ensures
            r as nat == bit_len(self@),
    {
        big_bits(self)
    }

    /// A copy with the same value.
    pub fn duplicate(&self) -> (r: Natural)
        ensures
            r@ == self@,
    {
        Natural { bytes: self.bytes.clone() }
    }
}

impl PartialEq for Natural {
    fn eq(&self, other: &Natural) -> (r: bool) {
        match big_cmp(self, other) {
            Ordering::Equal => true,
            _ => false,
        }
    }
}

impl vstd::std_specs::cmp::PartialEqSpecImpl for Natural {
    open spec fn obeys_eq_spec() -> bool {
        true
    }

    open spec fn eq_spec(&self, other: &Natural) -> bool {
        self@ == other@
    }
}

} // verus!
