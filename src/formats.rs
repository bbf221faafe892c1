use vstd::prelude::*;

use crate::error::Error;
use crate::keys::{ElgamalGroup, ElgamalGroupElements, ElgamalPrivateKey, ElgamalPublicKey, GroupModel};
use crate::natural::{be_value, big_div, big_from_u64, big_sub, Natural};

verus! {

/// The encoded arcs of the ElGamal object identifier 1.3.14.7.2.1.1.
pub open spec fn elgamal_oid() -> Seq<u8> {
    seq![0x2Bu8, 0x0Eu8, 0x07u8, 0x02u8, 0x01u8, 0x01u8]
}

/// The encoded arcs of the DSA object identifier 1.2.840.10040.4.1.
pub open spec fn dsa_oid() -> Seq<u8> {
    seq![0x2Au8, 0x86u8, 0x48u8, 0xCEu8, 0x38u8, 0x04u8, 0x01u8]
}

/// The subgroup order assumed where a container omits it: `(p - 1) / 2`
/// (zero for a zero modulus).
pub open spec fn default_order(p: nat) -> nat {
    if p == 0 {
        0
    } else {
        ((p - 1) as nat) / 2
    }
}

/// The group that container fields describe.
pub open spec fn fields_group(p: Seq<u8>, q: Option<Seq<u8>>, g: Seq<u8>) -> GroupModel {
    GroupModel {
        p: be_value(p),
        q: match q {
            Some(q) => be_value(q),
            None => default_order(be_value(p)),
        },
        g: be_value(g),
    }
}

/// The view of optional field bytes.
pub open spec fn opt_view(q: Option<&[u8]>) -> Option<Seq<u8>> {
    match q {
        Some(b) => Some(b@),
        None => None,
    }
}

fn same_bytes(a: &[u8], b: &Vec<u8>) -> (r: bool)
    ensures
        r == (a@ == b@),
{
    if a.len() != b.len() {
        return false;
    }
    let mut i: usize = 0;
    while i < a.len()
        invariant
            a@.len() == b@.len(),
            i <= a@.len(),
            forall|j: int| 0 <= j < i ==> a@[j] == b@[j],
        decreases a@.len() - i,
    {
        if a[i] != b[i] {
            return false;
        }
        i = i + 1;
    }
    assert(a@ =~= b@);
    true
}

/// Whether the encoded object identifier `oid` names ElGamal or DSA.
pub fn verify_algorithm_id(oid: &[u8]) -> (r: bool)
    ensures
        r == (oid@ == elgamal_oid() || oid@ == dsa_oid()),
{
    let elgamal: Vec<u8> = vec![0x2Bu8, 0x0Eu8, 0x07u8, 0x02u8, 0x01u8, 0x01u8];
    let dsa: Vec<u8> = vec![0x2Au8, 0x86u8, 0x48u8, 0xCEu8, 0x38u8, 0x04u8, 0x01u8];
    proof {
        assert(elgamal@ =~= elgamal_oid());
        assert(dsa@ =~= dsa_oid());
    }
    same_bytes(oid, &elgamal) || same_bytes(oid, &dsa)
}

fn group_from_fields(p: &[u8], q: Option<&[u8]>, g: &[u8]) -> (r: ElgamalGroup)
    ensures
        r@ == fields_group(p@, opt_view(q), g@),
{
    let p = Natural::from_bytes_be(p);
    let q = match q {
        Some(bytes) => Natural::from_bytes_be(bytes),
        None => {
            let zero = big_from_u64(0);
            let one = big_from_u64(1);
            let two = big_from_u64(2);
            if p == zero {
                zero
            } else {
                big_div(&big_sub(&p, &one), &two)
            }
        },
    };
    ElgamalGroup::new(p, q, Natural::from_bytes_be(g))
}

/// The public key that the fields of a public-key container describe: the
/// algorithm identifier `oid`, the group `(p, q, g)` with `q` optional, and `y`.
/// `InvalidOID` unless `oid` names ElGamal or DSA.
pub fn public_key_from_fields(
    oid: &[u8],
    p: &[u8],
    q: Option<&[u8]>,
    g: &[u8],
    y: &[u8],
) -> (r: Result<ElgamalPublicKey, Error>)
    ensures
        match r {
            Ok(key) => (oid@ == elgamal_oid() || oid@ == dsa_oid()) && key.group_model()
                == fields_group(p@, opt_view(q), g@) && key.spec_y() == be_value(y@),
            Err(e) => !(oid@ == elgamal_oid() || oid@ == dsa_oid()) && e == Error::InvalidOID,
        },
{
    if !verify_algorithm_id(oid) {
        return Err(Error::InvalidOID);
    }
    let group = group_from_fields(p, q, g);
    Ok(ElgamalPublicKey::new(group, Natural::from_bytes_be(y)))
}

/// The private key that the fields of a private-key container describe: the
/// format `version`, the algorithm identifier `oid`, the group `(p, q, g)` with
/// `q` optional, and `x`. `InvalidOID` unless `oid` names ElGamal or DSA, then
/// `PrivateKeyMalformed` unless `version` is zero.
pub fn private_key_from_fields(
    version: u8,
    oid: &[u8],
    p: &[u8],
    q: Option<&[u8]>,
    g: &[u8],
    x: &[u8],
) -> (r: Result<ElgamalPrivateKey, Error>)
    ensures
        !(oid@ == elgamal_oid() || oid@ == dsa_oid()) ==> r == Err::<ElgamalPrivateKey, Error>(
            Error::InvalidOID,
        ),
        (oid@ == elgamal_oid() || oid@ == dsa_oid()) && version != 0 ==> r == Err::<
            ElgamalPrivateKey,
            Error,
        >(Error::PrivateKeyMalformed),
        (oid@ == elgamal_oid() || oid@ == dsa_oid()) && version == 0 ==> (r matches Ok(key)
            && key.group_model() == fields_group(p@, opt_view(q), g@) && key.spec_x() == be_value(
            x@,
        ) && key.spec_public() is None),
{
    if !verify_algorithm_id(oid) {
        return Err(Error::InvalidOID);
    }
    if version != 0 {
        return Err(Error::PrivateKeyMalformed);
    }
    let group = group_from_fields(p, q, g);
    Ok(ElgamalPrivateKey::new(group, Natural::from_bytes_be(x), None))
}

} // verus!
