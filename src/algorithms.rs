use vstd::prelude::*;

use core::cmp::Ordering;

use crate::error::Error;
use crate::keys::{
    key_pair, valid_group, ElgamalGroup, ElgamalGroupElements, ElgamalPrivateKey,
    ElgamalPublicKey, GroupModel,
};
use crate::natural::{
    big_add, big_bits, big_cmp, big_div, big_from_u64, big_modpow, big_probably_prime, big_rem,
    big_sub, bit_len, pow_mod, probable_prime, Natural,
};

verus! {

/// Rounds of the probabilistic primality test applied to each candidate.
pub const PRIME_TEST_ROUNDS: usize = 10;

/// How many subgroup orders are tried before the search gives up.
pub const MAX_RESTARTS: usize = 64;

/// The least power of two that is at least `l`.
pub open spec fn pow2_at_least(l: nat) -> nat
    decreases l,
{
    if l <= 1 {
        1
    } else {
        2 * pow2_at_least((l + 1) / 2)
    }
}

proof fn lemma_pow2_at_least_positive(l: nat)
    ensures
        pow2_at_least(l) >= 1,
    decreases l,
{
    if l > 1 {
        lemma_pow2_at_least_positive((l + 1) / 2);
    }
}

/// `2^(ceil(log2 l) + 2)`: how many moduli are tried for one subgroup order.
pub open spec fn retry_bound(l: nat) -> nat {
    4 * pow2_at_least(l)
}

/// How many failed moduli are tolerated for one subgroup order: the retry
/// bound, saturating at `usize::MAX`.
pub open spec fn tries_bound(l: nat) -> nat {
    if retry_bound(l) <= usize::MAX {
        retry_bound(l)
    } else {
        usize::MAX as nat
    }
}

/// The modulus candidate shaped from `raw`: the largest value `<= raw` that is
/// a multiple of `2q`, plus one.
pub open spec fn shaped_modulus(raw: nat, q: nat) -> nat {
    (raw - raw % (2 * q) + 1) as nat
}

/// The modulus that `raw` yields for order `q` and bit length `l`, if the
/// shaped value has exactly `l` bits and passes the primality test.
pub open spec fn modulus_from(raw: nat, q: nat, l: nat) -> Option<nat> {
    let p = shaped_modulus(raw, q);
    if bit_len(p) == l && probable_prime(p, PRIME_TEST_ROUNDS as nat) {
        Some(p)
    } else {
        None
    }
}

/// The generator candidate `h^((p - 1) / q) mod p`.
pub open spec fn generator_candidate(p: nat, q: nat, h: nat) -> nat {
    pow_mod(h, ((p - 1) as nat) / q, p)
}

/// `g` is accepted as generator: it is neither `1` nor `p - 1`, and `g^q ≡ 1 (mod p)`.
pub open spec fn acceptable_generator(p: nat, q: nat, g: nat) -> bool {
    g != 1 && g + 1 != p && pow_mod(g, q, p) == 1
}

/// The first accepted generator candidate for bases `h, h + 1, ..., p - 2`.
pub open spec fn search_generator(p: nat, q: nat, h: nat) -> Option<nat>
    decreases p - h,
{
    if h + 1 >= p {
        None
    } else if acceptable_generator(p, q, generator_candidate(p, q, h)) {
        Some(generator_candidate(p, q, h))
    } else {
        search_generator(p, q, h + 1)
    }
}

/// A found generator satisfies the acceptance test and lies in `[0, p)`.
proof fn lemma_search_generator(p: nat, q: nat, h: nat)
    requires
        p > 0,
    ensures
        search_generator(p, q, h) matches Some(g) ==> acceptable_generator(p, q, g) && g < p
            && h + 1 < p,
    decreases p - h,
{
    if h + 1 < p && !acceptable_generator(p, q, generator_candidate(p, q, h)) {
        lemma_search_generator(p, q, h + 1);
    }
}

fn is_one(n: &Natural) -> (r: bool)
    ensures
        r == (n@ == 1),
{
    let one = big_from_u64(1);
    match big_cmp(n, &one) {
        Ordering::Equal => true,
        _ => false,
    }
}

/// `2^(ceil(log2 l) + 2)`, the bound on moduli tried per subgroup order,
/// saturating at `usize::MAX`.
pub fn maximum_tries(l: usize) -> (r: usize)
    ensures
        r as nat == tries_bound(l as nat),
{
    let mut b: usize = 1;
    let mut n: usize = l;
    while n > 1
        invariant
            b >= 1,
            b * pow2_at_least(n as nat) == pow2_at_least(l as nat),
        decreases n,
    {
        let n2: usize = n / 2 + n % 2;
        proof {
            assert(n2 as nat == (n as nat + 1) / 2);
            assert(pow2_at_least(n as nat) == 2 * pow2_at_least(n2 as nat));
            lemma_pow2_at_least_positive(n2 as nat);
            assert(b * pow2_at_least(n as nat) == (2 * b) * pow2_at_least(n2 as nat))
                by (nonlinear_arith)
                requires
                    pow2_at_least(n as nat) == 2 * pow2_at_least(n2 as nat),
            ;
        }
        if b > usize::MAX / 2 {
            proof {
                assert((2 * b) * pow2_at_least(n2 as nat) >= 2 * b) by (nonlinear_arith)
                    requires
                        pow2_at_least(n2 as nat) >= 1,
                        b >= 1,
                ;
            }
            return usize::MAX;
        }
        b = b * 2;
        n = n2;
    }
    proof {
        assert(pow2_at_least(n as nat) == 1);
        assert(b * pow2_at_least(n as nat) == b) by (nonlinear_arith)
            requires
                pow2_at_least(n as nat) == 1,
        ;
        assert(b as nat == pow2_at_least(l as nat));
    }
    if b > usize::MAX / 4 {
        usize::MAX
    } else {
        b * 4
    }
}

/// The modulus that `raw` yields for the subgroup order `q` and bit length `l`:
/// `raw` rounded down to a multiple of `2q`, plus one, kept only if it has `l`
/// bits and passes the primality test.
pub fn modulus_candidate(raw: &Natural, q: &Natural, l: usize) -> (r: Option<Natural>)
    requires
        q@ > 0,
    ensures
        match r {
            Some(p) => modulus_from(raw@, q@, l as nat) == Some(p@),
            None => modulus_from(raw@, q@, l as nat) is None,
        },
{
    let module = big_add(q, q);
    proof {
        vstd::arithmetic::div_mod::lemma_mod_decreases(raw@, module@);
    }
    let rounded = big_sub(raw, &big_rem(raw, &module));
    let p = big_add(&rounded, &big_from_u64(1));
    if big_bits(&p) == l && big_probably_prime(&p, PRIME_TEST_ROUNDS) {
        Some(p)
    } else {
        None
    }
}

/// The first generator `g = h^((p - 1) / q) mod p`, for bases `h` from `2` up
/// to `p - 2`, that is neither `1` nor `p - 1` and has `g^q ≡ 1 (mod p)`. The
/// last condition holds of every candidate where `p` is prime; checking it
/// keeps a composite `p` that passed the primality test from giving an
/// invalid group.
pub fn find_generator(p: &Natural, q: &Natural) -> (r: Option<Natural>)
    requires
        p@ > 0,
        q@ > 0,
    ensures
        match r {
            Some(g) => search_generator(p@, q@, 2) == Some(g@),
            None => search_generator(p@, q@, 2) is None,
        },
{
    let one = big_from_u64(1);
    let p_minus_one = big_sub(p, &one);
    let exponent = big_div(&p_minus_one, q);
    let mut h = big_from_u64(2);
    loop
        invariant
            p@ > 0,
            q@ > 0,
            one@ == 1,
            p_minus_one@ == p@ - 1,
            exponent@ == (p@ - 1) as nat / q@,
            h@ >= 2,
            search_generator(p@, q@, h@) == search_generator(p@, q@, 2),
        decreases p@ - h@,
    {
        let order = big_cmp(&h, &p_minus_one);
        match order {
            Ordering::Less => {},
            _ => {
                return None;
            },
        }
        assert(order == Ordering::Less);
        assert(h@ + 1 < p@);
        let g = big_modpow(&h, &exponent, p);
        assert(g@ == generator_candidate(p@, q@, h@));
        let is_p_minus_one = match big_cmp(&g, &p_minus_one) {
            Ordering::Equal => true,
            _ => false,
        };
        if !is_one(&g) && !is_p_minus_one && is_one(&big_modpow(&g, q, p)) {
            return Some(g);
        }
        assert(search_generator(p@, q@, h@) == search_generator(p@, q@, h@ + 1));
        h = big_add(&h, &one);
    }
}

/// What the parameter search asks of its caller next.
pub enum GenerationStep {
    /// A random prime of this many bits, to try as the subgroup order.
    DrawPrime(usize),
    /// A uniformly random number below two to the power of this many bits, to
    /// shape into a modulus.
    DrawCandidate(usize),
    /// The group that was found.
    Done(ElgamalGroup),
    /// The search gave up.
    Failed(Error),
}

/// The search for a group with an `l`-bit modulus and a `k`-bit subgroup order:
/// draw a prime `q`, then shape random numbers into moduli `p ≡ 1 (mod 2q)`
/// until one is prime, trying a fresh `q` after too many failures, and finally
/// pick the generator. The caller draws the random values.
pub struct ParameterSearch {
    l: usize,
    k: usize,
    q: Option<Natural>,
    tries: usize,
    max_tries: usize,
    restarts: usize,
}

/// The outcome of giving up the subgroup order under trial: with restarts
/// left, the order is dropped, the try count reset, the restart count raised and
/// another `k`-bit prime asked for; otherwise the search fails.
pub open spec fn restarted(pre: ParameterSearch, post: ParameterSearch, r: GenerationStep) -> bool {
    &&& post.spec_l() == pre.spec_l()
    &&& post.spec_k() == pre.spec_k()
    &&& post.spec_order() is None
    &&& if pre.spec_counts().1 < MAX_RESTARTS {
        &&& r matches GenerationStep::DrawPrime(bits) && bits == pre.spec_k()
        &&& post.spec_counts() == (0nat, pre.spec_counts().1 + 1)
    } else {
        &&& r matches GenerationStep::Failed(e) && e == Error::GenerationFailed
        &&& post.spec_counts() == pre.spec_counts()
    }
}

/// What is left of the search: restarts still allowed, weighted by the longest
/// run of draws one order can take, plus the draws left for the current order.
pub open spec fn search_measure(s: ParameterSearch) -> nat {
    let t = s.spec_max_tries();
    let left = (MAX_RESTARTS - s.spec_counts().1) as nat;
    left * (t + 3) + match s.spec_order() {
        None => t + 2,
        Some(_) => (t + 1 - s.spec_counts().0) as nat,
    }
}

/// Giving up an order with restarts left lowers the measure.
proof fn lemma_restart_progress(pre: ParameterSearch, post: ParameterSearch, r: GenerationStep)
    requires
        pre.wf(),
        post.wf(),
        restarted(pre, post, r),
        pre.spec_counts().1 < MAX_RESTARTS,
    ensures
        search_measure(post) < search_measure(pre),
{
    let t = pre.spec_max_tries();
    let left = (MAX_RESTARTS - pre.spec_counts().1) as nat;
    assert(post.spec_max_tries() == t);
    assert((left - 1) * (t + 3) + t + 2 < left * (t + 3)) by (nonlinear_arith)
        requires
            left >= 1,
    ;
}

impl ParameterSearch {
    /// The bit length of the modulus searched for.
    pub closed spec fn spec_l(&self) -> nat {
        self.l as nat
    }

    /// The bit length of the subgroup order searched for.
    pub closed spec fn spec_k(&self) -> nat {
        self.k as nat
    }

    /// The subgroup order under trial, if any.
    pub closed spec fn spec_order(&self) -> Option<nat> {
        match self.q {
            Some(q) => Some(q@),
            None => None,
        }
    }

    /// Moduli tried for the current order, and orders given up so far.
    pub closed spec fn spec_counts(&self) -> (nat, nat) {
        (self.tries as nat, self.restarts as nat)
    }

    /// The number of failed moduli tolerated per subgroup order.
    pub closed spec fn spec_max_tries(&self) -> nat {
        self.max_tries as nat
    }

    /// A subgroup order under trial passed the primality test and has `k`
    /// bits, and the tolerance is the one for `l`.
    pub closed spec fn wf(&self) -> bool {
        &&& self.max_tries as nat == tries_bound(self.l as nat)
        &&& self.tries <= self.max_tries + 1
        &&& self.q matches Some(q) ==> q@ > 1 && bit_len(q@) == self.k && probable_prime(
            q@,
            PRIME_TEST_ROUNDS as nat,
        )
        &&& self.restarts <= MAX_RESTARTS
    }

    /// A search for an `l`-bit modulus and a `k`-bit subgroup order.
    pub fn new(l: usize, k: usize) -> (r: Self)
        ensures
            r.wf(),
            r.spec_l() == l,
            r.spec_k() == k,
            r.spec_order() is None,
            r.spec_counts() == (0nat, 0nat),
    {
        ParameterSearch { l, k, q: None, tries: 0, max_tries: maximum_tries(l), restarts: 0 }
    }

    /// The first request: a `k`-bit prime.
    pub fn first_step(&self) -> (r: GenerationStep)
        ensures
            r matches GenerationStep::DrawPrime(bits) && bits == self.spec_k(),
    {
        GenerationStep::DrawPrime(self.k)
    }

    fn restart(&mut self) -> (r: GenerationStep)
        requires
            old(self).wf(),
        ensures
            final(self).wf(),
            restarted(*old(self), *final(self), r),
            old(self).spec_counts().1 < MAX_RESTARTS ==> search_measure(*final(self))
                < search_measure(*old(self)),
    {
        self.q = None;
        if self.restarts >= MAX_RESTARTS {
            return GenerationStep::Failed(Error::GenerationFailed);
        }
        self.restarts = self.restarts + 1;
        self.tries = 0;
        let r = GenerationStep::DrawPrime(self.k);
        proof {
            lemma_restart_progress(*old(self), *self, r);
        }
        r
    }

    /// Takes the drawn prime `q` as the subgroup order and asks for a modulus
    /// candidate; a value without `k` bits or failing the primality test is
    /// discarded as an attempt and another prime is asked for.
    pub fn prime_drawn(&mut self, q: Natural) -> (r: GenerationStep)
        requires
            old(self).wf(),
        ensures
            final(self).wf(),
            if q@ > 1 && bit_len(q@) == old(self).spec_k() && probable_prime(
                q@,
                PRIME_TEST_ROUNDS as nat,
            ) {
                &&& r matches GenerationStep::DrawCandidate(bits) && bits == old(self).spec_l()
                &&& final(self).spec_l() == old(self).spec_l()
                &&& final(self).spec_k() == old(self).spec_k()
                &&& final(self).spec_order() == Some(q@)
                &&& final(self).spec_counts() == (0nat, old(self).spec_counts().1)
            } else {
                restarted(*old(self), *final(self), r)
            },
            old(self).spec_order() is None && (r is DrawPrime || r is DrawCandidate)
                ==> search_measure(*final(self)) < search_measure(*old(self)),
    {
        let ok = match big_cmp(&q, &big_from_u64(1)) {
            Ordering::Greater => big_bits(&q) == self.k && big_probably_prime(
                &q,
                PRIME_TEST_ROUNDS,
            ),
            _ => false,
        };
        if !ok {
            return self.restart();
        }
        self.q = Some(q);
        self.tries = 0;
        GenerationStep::DrawCandidate(self.l)
    }

    /// Shapes the drawn number `raw` into a modulus candidate for the current
    /// subgroup order. On success the generator is searched for and the group
    /// returned; otherwise another candidate is asked for, or, after too many,
    /// a new order.
    pub fn candidate_drawn(&mut self, raw: Natural) -> (r: GenerationStep)
        requires
            old(self).wf(),
        ensures
            final(self).wf(),
            match old(self).spec_order() {
                None => restarted(*old(self), *final(self), r),
                Some(q) => match modulus_from(raw@, q, old(self).spec_l()) {
                    Some(p) => match search_generator(p, q, 2) {
                        Some(g) => {
                            &&& r matches GenerationStep::Done(group) && group@ == (GroupModel {
                                p,
                                q,
                                g,
                            })
                            &&& final(self).spec_l() == old(self).spec_l()
                            &&& final(self).spec_k() == old(self).spec_k()
                            &&& final(self).spec_order() == old(self).spec_order()
                            &&& final(self).spec_counts() == old(self).spec_counts()
                        },
                        None => restarted(*old(self), *final(self), r),
                    },
                    None => if old(self).spec_counts().0 <= old(self).spec_max_tries()
                        && old(self).spec_counts().0 < usize::MAX {
                        &&& r matches GenerationStep::DrawCandidate(bits) && bits
                            == old(self).spec_l()
                        &&& final(self).spec_l() == old(self).spec_l()
                        &&& final(self).spec_k() == old(self).spec_k()
                        &&& final(self).spec_order() == Some(q)
                        &&& final(self).spec_counts() == (
                            old(self).spec_counts().0 + 1,
                            old(self).spec_counts().1,
                        )
                    } else {
                        restarted(*old(self), *final(self), r)
                    },
                },
            },
            old(self).spec_order() is Some && (r is DrawPrime || r is DrawCandidate)
                ==> search_measure(*final(self)) < search_measure(*old(self)),
            r matches GenerationStep::Done(group) ==> {
                let gr = group@;
                &&& valid_group(gr)
                &&& bit_len(gr.p) == old(self).spec_l()
                &&& bit_len(gr.q) == old(self).spec_k()
                &&& probable_prime(gr.p, PRIME_TEST_ROUNDS as nat)
                &&& probable_prime(gr.q, PRIME_TEST_ROUNDS as nat)
                &&& (gr.p - 1) as nat % (2 * gr.q) == 0
            },
    {
        let q = match &self.q {
            Some(q) => q.duplicate(),
            None => {
                return self.restart();
            },
        };
        match modulus_candidate(&raw, &q, self.l) {
            Some(p) => {
                proof {
                    lemma_shaped_modulus(raw@, q@);
                }
                match find_generator(&p, &q) {
                    Some(g) => {
                        proof {
                            lemma_search_generator(p@, q@, 2);
                            vstd::arithmetic::power::lemma0_pow(q@);
                            if g@ == 0 {
                                assert(vstd::arithmetic::power::pow(0, q@) == 0);
                                assert(pow_mod(0, q@, p@) == 0);
                            }
                        }
                        GenerationStep::Done(ElgamalGroup::new(p, q, g))
                    },
                    None => self.restart(),
                }
            },
            None => {
                if self.tries > self.max_tries || self.tries == usize::MAX {
                    return self.restart();
                }
                self.tries = self.tries + 1;
                GenerationStep::DrawCandidate(self.l)
            },
        }
    }
}

/// The shaped modulus is one more than a multiple of `2q`.
proof fn lemma_shaped_modulus(raw: nat, q: nat)
    requires
        q > 0,
    ensures
        shaped_modulus(raw, q) >= 1,
        (shaped_modulus(raw, q) - 1) as nat % (2 * q) == 0,
        (shaped_modulus(raw, q) - 1) as nat % q == 0,
{
    let m = 2 * q;
    vstd::arithmetic::div_mod::lemma_fundamental_div_mod(raw as int, m as int);
    let t = raw / m;
    assert(m * t == t * m) by (nonlinear_arith);
    assert(raw - raw % m == t * m);
    assert((shaped_modulus(raw, q) - 1) as nat == t * m);
    vstd::arithmetic::div_mod::lemma_mod_multiples_basic(t as int, m as int);
    assert(t * m == (2 * t) * q) by (nonlinear_arith)
        requires
            m == 2 * q,
    ;
    vstd::arithmetic::div_mod::lemma_mod_multiples_basic((2 * t) as int, q as int);
}

/// The public value for the private exponent `x` in `group`: `(g^x mod p, x)`.
pub fn key_generation(group: &ElgamalGroup, x: Natural) -> (r: (Natural, Natural))
    requires
        group@.p > 0,
    ensures
        r.0@ == pow_mod(group@.g, x@, group@.p),
        r.1@ == x@,
{
    (big_modpow(group.get_g(), &x, group.get_p()), x)
}

/// The key pair with private exponent `x` (drawn from `[1, q)`) in `group`.
pub fn elgamal_key_generate(group: &ElgamalGroup, x: Natural) -> (r: (
    ElgamalPublicKey,
    ElgamalPrivateKey,
))
    requires
        group@.p > 0,
    ensures
        r.0.group_model() == group@,
        r.1.group_model() == group@,
        r.0.spec_y() == pow_mod(group@.g, x@, group@.p),
        r.1.spec_x() == x@,
        r.1.spec_public() is None,
        valid_group(group@) && 1 <= x@ < group@.q ==> key_pair(&r.0, &r.1),
{
    let (y, x) = key_generation(group, x);
    (ElgamalPublicKey::new(group.duplicate(), y), ElgamalPrivateKey::new(group.duplicate(), x, None))
}

} // verus!
