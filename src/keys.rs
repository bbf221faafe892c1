use vstd::arithmetic::power::pow;
use vstd::prelude::*;

use crate::natural::Natural;

verus! {

/// The numbers that describe a group: the modulus `p`, the order `q` of the
/// subgroup and its generator `g`.
pub struct GroupModel {
    pub p: nat,
    pub q: nat,
    pub g: nat,
}

/// A group in which the schemes of this crate work: `q` divides `p - 1`, and
/// `g` has order dividing `q` while being neither `1` nor `p - 1`.
pub open spec fn valid_group(gr: GroupModel) -> bool {
    &&& gr.p > 3
    &&& gr.q > 1
    &&& (gr.p - 1) as nat % gr.q == 0
    &&& 1 < gr.g
    &&& gr.g + 1 < gr.p
    &&& pow(gr.g as int, gr.q) % (gr.p as int) == 1
}

/// Read access to the group of a group or a key.
pub trait ElgamalGroupElements {
    spec fn group_model(&self) -> GroupModel;

    fn get_p(&self) -> (r: &Natural)
        ensures
            r@ == self.group_model().p,
    ;

    fn get_q(&self) -> (r: &Natural)
        ensures
            r@ == self.group_model().q,
    ;

    fn get_g(&self) -> (r: &Natural)
        ensures
            r@ == self.group_model().g,
    ;
}

/// A prime-order subgroup modulo a prime.
#[derive(Clone, Debug)]
pub struct ElgamalGroup {
    /// Generator of the subgroup
    g: Natural,
    /// Modulus
    p: Natural,
    /// Order of the subgroup
    q: Natural,
}

impl View for ElgamalGroup {
    type V = GroupModel;

    closed spec fn view(&self) -> GroupModel {
        GroupModel { p: self.p@, q: self.q@, g: self.g@ }
    }
}

impl ElgamalGroupElements for ElgamalGroup {
    open spec fn group_model(&self) -> GroupModel {
        self@
    }

    fn get_p(&self) -> (r: &Natural) {
        &self.p
    }

    fn get_q(&self) -> (r: &Natural) {
        &self.q
    }

    fn get_g(&self) -> (r: &Natural) {
        &self.g
    }
}

impl ElgamalGroup {
    /// The group with modulus `p`, subgroup order `q` and generator `g`.
    pub fn new(p: Natural, q: Natural, g: Natural) -> (r: Self)
        ensures
            r@ == (GroupModel { p: p@, q: q@, g: g@ }),
    {
        ElgamalGroup { g, p, q }
    }

    /// A copy of the group.
    pub fn duplicate(&self) -> (r: Self)
        ensures
            r@ == self@,
    {
        ElgamalGroup { g: self.g.duplicate(), p: self.p.duplicate(), q: self.q.duplicate() }
    }
}

/// A public key: the group and `y = g^x mod p`.
#[derive(Clone, Debug)]
pub struct ElgamalPublicKey {
    /// y = g^x
    y: Natural,
    /// ElGamal group
    group: ElgamalGroup,
}

/// A private key: the group, the exponent `x`, and the public key if known.
#[derive(Clone, Debug)]
pub struct ElgamalPrivateKey {
    /// Private exponent
    x: Natural,
    /// ElGamal group
    group: ElgamalGroup,
    /// Public key
    public: Option<ElgamalPublicKey>,
}

impl ElgamalGroupElements for ElgamalPublicKey {
    closed spec fn group_model(&self) -> GroupModel {
        self.group@
    }

    fn get_p(&self) -> (r: &Natural) {
        self.group.get_p()
    }

    fn get_q(&self) -> (r: &Natural) {
        self.group.get_q()
    }

    fn get_g(&self) -> (r: &Natural) {
        self.group.get_g()
    }
}

impl ElgamalGroupElements for ElgamalPrivateKey {
    closed spec fn group_model(&self) -> GroupModel {
        self.group@
    }

    fn get_p(&self) -> (r: &Natural) {
        self.group.get_p()
    }

    fn get_q(&self) -> (r: &Natural) {
        self.group.get_q()
    }

    fn get_g(&self) -> (r: &Natural) {
        self.group.get_g()
    }
}

impl ElgamalPublicKey {
    /// The value `y` of the key.
    pub closed spec fn spec_y(&self) -> nat {
        self.y@
    }

    /// The public key `y` over `group`.
    pub fn new(group: ElgamalGroup, y: Natural) -> (r: Self)
        ensures
            r.group_model() == group@,
            r.spec_y() == y@,
    {
        ElgamalPublicKey { group, y }
    }

    /// Returns the public value `y` of the key.
    pub fn get_y(&self) -> (r: &Natural)
        ensures
            r@ == self.spec_y(),
    {
        &self.y
    }
}

impl ElgamalPrivateKey {
    /// The exponent `x` of the key.
    pub closed spec fn spec_x(&self) -> nat {
        self.x@
    }

    /// The public key held beside the exponent, if any.
    pub closed spec fn spec_public(&self) -> Option<ElgamalPublicKey> {
        self.public
    }

    /// The private exponent `x` over `group`, with the public key if known.
    pub fn new(group: ElgamalGroup, x: Natural, public: Option<ElgamalPublicKey>) -> (r: Self)
        ensures
            r.group_model() == group@,
            r.spec_x() == x@,
            r.spec_public() == public,
    {
        ElgamalPrivateKey { group, x, public }
    }

    /// Returns the private exponent of the key.
    pub fn get_x(&self) -> (r: &Natural)
        ensures
            r@ == self.spec_x(),
    {
        &self.x
    }

    /// Returns the public key, where one is held.
    pub fn public(&self) -> (r: Option<&ElgamalPublicKey>)
        ensures
            r.is_some() == self.spec_public().is_some(),
            r matches Some(k) ==> self.spec_public() == Some(*k),
    {
        self.public.as_ref()
    }
}

/// `public` and `private` form a key pair over a valid group: `y = g^x mod p`
/// with `1 <= x < q`.
pub open spec fn key_pair(public: &ElgamalPublicKey, private: &ElgamalPrivateKey) -> bool {
    let gr = private.group_model();
    &&& valid_group(gr)
    &&& public.group_model() == gr
    &&& 1 <= private.spec_x() < gr.q
    &&& public.spec_y() == pow(gr.g as int, private.spec_x()) % (gr.p as int)
}

} // verus!
