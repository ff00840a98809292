//! The Chaum-Pedersen prover and verifier over a fixed group description.

use crate::error::AuthError;
use crate::natural::{lemma_be_value_positive, mod_exp, Natural};
use crate::params::{Profile, RFC5114_G, RFC5114_P, RFC5114_Q};
use crate::theory::lemma_toy_group;
use vstd::arithmetic::div_mod::{lemma_mod_bound, lemma_small_mod};
use vstd::arithmetic::power::lemma_pow1;
use vstd::prelude::*;

verus! {

/// The public description of the group that every proof is made in: a modulus
/// `p`, the order `q` of the subgroup, and two generators of that subgroup.
pub struct ParameterSet {
    pub p: nat,
    pub q: nat,
    pub alpha: nat,
    pub beta: nat,
}

impl ParameterSet {
    /// The prover's response to challenge `c`, for nonce `k` and secret `x`:
    /// a representative of `k - c*x` modulo `q`, computed without ever going
    /// below zero. It is below `q`, but where `c*x - k` is a positive
    /// multiple of `q`: there it is `q` itself.
    pub open spec fn response(self, k: nat, c: nat, x: nat) -> nat {
        if k >= c * x {
            ((k - c * x) % (self.q as int)) as nat
        } else {
            (self.q - (c * x - k) % (self.q as int)) as nat
        }
    }

    /// The description is consistent: `q` divides `p - 1`, and each
    /// generator is other than 1 and has `q`-th power 1 modulo `p`. Where
    /// `q` is prime, this makes `q` the order of both generators.
    pub open spec fn consistent(self) -> bool {
        &&& self.p > 0
        &&& self.q > 0
        &&& (self.p - 1) % (self.q as int) == 0
        &&& mod_exp(self.alpha, 1, self.p) != 1
        &&& mod_exp(self.beta, 1, self.p) != 1
        &&& mod_exp(self.alpha, self.q, self.p) == 1
        &&& mod_exp(self.beta, self.q, self.p) == 1
    }

    /// Whether response `s` to challenge `c` matches the commitments
    /// `(r1, r2)` for the public values `(y1, y2)`: both
    /// `r1 == alpha^s * y1^c mod p` and `r2 == beta^s * y2^c mod p`.
    pub open spec fn accepts(self, r1: nat, r2: nat, y1: nat, y2: nat, c: nat, s: nat) -> bool {
        &&& r1 == (mod_exp(self.alpha, s, self.p) * mod_exp(y1, c, self.p)) % self.p
        &&& r2 == (mod_exp(self.beta, s, self.p) * mod_exp(y2, c, self.p)) % self.p
    }
}

/// A group description that the prover and the verifier compute in.
///
/// Both moduli of a `ZKP` are positive, so none of its operations can fail.
pub struct ZKP {
    p: Natural,
    q: Natural,
    alpha: Natural,
    beta: Natural,
}

impl View for ZKP {
    type V = ParameterSet;

    closed spec fn view(&self) -> ParameterSet {
        ParameterSet { p: self.p@, q: self.q@, alpha: self.alpha@, beta: self.beta@ }
    }
}

impl Clone for ZKP {
    fn clone(&self) -> (r: Self)
        ensures
            r@ == self@,
    {
        proof {
            use_type_invariant(self);
        }
        ZKP {
            p: self.p.clone(),
            q: self.q.clone(),
            alpha: self.alpha.clone(),
            beta: self.beta.clone(),
        }
    }
}

impl ZKP {
    #[verifier::type_invariant]
    spec fn positive_moduli(self) -> bool {
        self.p@ > 0 && self.q@ > 0
    }

    /// The group description `(p, q, alpha, beta)`, unless a modulus is zero.
    pub fn new(p: Natural, q: Natural, alpha: Natural, beta: Natural) -> (r: Result<ZKP, AuthError>)
        ensures
            r is Ok <==> p@ > 0 && q@ > 0,
            r is Ok ==> r->Ok_0@ == (ParameterSet { p: p@, q: q@, alpha: alpha@, beta: beta@ }),
            r is Err ==> r->Err_0 == AuthError::InvalidParameters,
    {
        if p.is_zero() || q.is_zero() {
            return Err(AuthError::InvalidParameters);
        }
        Ok(ZKP { p, q, alpha, beta })
    }

    /// The modulus, the subgroup's order and the generator of a profile.
    fn base(profile: Profile) -> (r: (Natural, Natural, Natural))
        ensures
            r.0@ == profile.p(),
            r.1@ == profile.q(),
            r.2@ == profile.alpha(),
            profile.p() > 0,
            profile.q() > 1,
    {
        match profile {
            Profile::Toy => (Natural::from_u32(23), Natural::from_u32(11), Natural::from_u32(4)),
            Profile::Rfc5114 => {
                proof {
                    lemma_be_value_positive(RFC5114_P@, 0);
                    assert(RFC5114_Q@.last() == 0x53);
                }
                (
                    Natural::from_bytes_be(RFC5114_P.as_slice()),
                    Natural::from_bytes_be(RFC5114_Q.as_slice()),
                    Natural::from_bytes_be(RFC5114_G.as_slice()),
                )
            },
        }
    }

    /// The group of `profile` whose second generator is
    /// `alpha^exponent mod p`.
    ///
    /// Whoever knows `exponent` can forge proofs in this group: outside
    /// tests, let `provision` choose it.
    pub fn derive(profile: Profile, exponent: &Natural) -> (r: ZKP)
        ensures
            r@ == profile.group(exponent@),
    {
        let (p, q, alpha) = ZKP::base(profile);
        let beta = alpha.modpow(exponent, &p);
        ZKP { p, q, alpha, beta }
    }

    /// The group of `profile` with a second generator that nobody knows the
    /// logarithm of: `alpha^e mod p` for an exponent `e` drawn at random
    /// from `[1, q)` and dropped before this function returns.
    ///
    /// The group is handed out only if it is consistent. The demonstration
    /// group always is.
    pub fn provision(profile: Profile) -> (r: Result<ZKP, AuthError>)
        ensures
            match r {
                Ok(zkp) => zkp@.consistent() && exists|e: nat|
                    0 < e < profile.q() && zkp@ == profile.group(e),
                Err(error) => error == AuthError::InvalidParameters && exists|e: nat|
                    0 < e < profile.q() && !profile.group(e).consistent(),
            },
            profile == Profile::Toy ==> r is Ok,
    {
        let (_, q, _) = ZKP::base(profile);
        let one = Natural::from_u32(1);
        let exponent = ZKP::generate_rand_below(&q.minus(&one)).plus(&one);
        let zkp = ZKP::derive(profile, &exponent);
        proof {
            if profile == Profile::Toy {
                lemma_small_mod(exponent@, 11);
                lemma_toy_group(exponent@);
            }
        }
        if zkp.is_consistent() {
            Ok(zkp)
        } else {
            Err(AuthError::InvalidParameters)
        }
    }

    /// `n^exponent mod modulus`, for a positive modulus.
    pub fn exponentiate(n: &Natural, exponent: &Natural, modulus: &Natural) -> (r: Natural)
        requires
            modulus@ > 0,
        ensures
            r@ == mod_exp(n@, exponent@, modulus@),
    {
        n.modpow(exponent, modulus)
    }

    /// The public values of the secret `x`, which a user registers:
    /// `alpha^x mod p` and `beta^x mod p`.
    pub fn public_values(&self, x: &Natural) -> (y: (Natural, Natural))
        ensures
            y.0@ == mod_exp(self@.alpha, x@, self@.p),
            y.1@ == mod_exp(self@.beta, x@, self@.p),
    {
        proof {
            use_type_invariant(self);
        }
        (self.alpha.modpow(x, &self.p), self.beta.modpow(x, &self.p))
    }

    /// A fresh nonce `k`, drawn below `q`, and the commitments to it:
    /// `alpha^k mod p` and `beta^k mod p`.
    ///
    /// A nonce serves one proof: two responses made with one nonce give the
    /// secret away.
    pub fn commit(&self) -> (r: (Natural, Natural, Natural))
        ensures
            r.0@ < self@.q,
            r.1@ == mod_exp(self@.alpha, r.0@, self@.p),
            r.2@ == mod_exp(self@.beta, r.0@, self@.p),
    {
        proof {
            use_type_invariant(self);
        }
        let k = ZKP::generate_rand_below(&self.q);
        let r1 = self.alpha.modpow(&k, &self.p);
        let r2 = self.beta.modpow(&k, &self.p);
        (k, r1, r2)
    }

    /// The response `s` to challenge `c`, for nonce `k` and secret `x`.
    ///
    /// Works for every `k`, `c` and `x`, whichever of `k` and `c*x` is larger.
    pub fn solve(&self, k: &Natural, c: &Natural, x: &Natural) -> (s: Natural)
        ensures
            s@ == self@.response(k@, c@, x@),
    {
        proof {
            use_type_invariant(self);
        }
        let one = Natural::from_u32(1);
        let cx = c.times(x);
        if k.ge(&cx) {
            proof {
                lemma_pow1(k@ - cx@);
            }
            return k.minus(&cx).modpow(&one, &self.q);
        }
        let over = cx.minus(k).modpow(&one, &self.q);
        proof {
            lemma_pow1(cx@ - k@);
            lemma_mod_bound(cx@ - k@, self.q@ as int);
        }
        self.q.minus(&over)
    }

    /// Whether response `s` to challenge `c` proves knowledge of the secret
    /// behind `(y1, y2)`, given the commitments `(r1, r2)`.
    ///
    /// Both equations are always evaluated, and the answer does not say
    /// which of them failed.
    pub fn verify(
        &self,
        r1: &Natural,
        r2: &Natural,
        y1: &Natural,
        y2: &Natural,
        c: &Natural,
        s: &Natural,
    ) -> (ok: bool)
        ensures
            ok == self@.accepts(r1@, r2@, y1@, y2@, c@, s@),
    {
        proof {
            use_type_invariant(self);
        }
        let one = Natural::from_u32(1);
        let first = self.alpha.modpow(s, &self.p).times(&y1.modpow(c, &self.p));
        let second = self.beta.modpow(s, &self.p).times(&y2.modpow(c, &self.p));
        proof {
            lemma_pow1(first@ as int);
            lemma_pow1(second@ as int);
        }
        let cond1 = r1.same_value(&first.modpow(&one, &self.p));
        let cond2 = r2.same_value(&second.modpow(&one, &self.p));
        cond1 && cond2
    }

    /// A number drawn uniformly at random from `[0, bound)`, for a positive
    /// bound.
    pub fn generate_rand_below(bound: &Natural) -> (r: Natural)
        requires
            bound@ > 0,
        ensures
            r@ < bound@,
    {
        Natural::random_below(bound)
    }

    /// Whether the description is consistent: `q` divides `p - 1`, and
    /// each generator is other than 1 and has `q`-th power 1 modulo `p`.
    /// That `q` is prime is not tested.
    pub fn is_consistent(&self) -> (r: bool)
        ensures
            r == self@.consistent(),
    {
        proof {
            use_type_invariant(self);
        }
        let one = Natural::from_u32(1);
        let below = self.p.minus(&one);
        proof {
            lemma_pow1(below@ as int);
        }
        let divides = below.modpow(&one, &self.q).is_zero();
        let first = !self.alpha.modpow(&one, &self.p).same_value(&one);
        let second = !self.beta.modpow(&one, &self.p).same_value(&one);
        let third = self.alpha.modpow(&self.q, &self.p).same_value(&one);
        let fourth = self.beta.modpow(&self.q, &self.p).same_value(&one);
        divides && first && second && third && fourth
    }

    /// The modulus, which is positive.
    pub fn p(&self) -> (r: &Natural)
        ensures
            r@ == self@.p,
            r@ > 0,
    {
        proof {
            use_type_invariant(self);
        }
        &self.p
    }

    /// The order of the subgroup, which is positive.
    pub fn q(&self) -> (r: &Natural)
        ensures
            r@ == self@.q,
            r@ > 0,
    {
        proof {
            use_type_invariant(self);
        }
        &self.q
    }

    /// The first generator.
    pub fn alpha(&self) -> (r: &Natural)
        ensures
            r@ == self@.alpha,
    {
        &self.alpha
    }

    /// The second generator.
    pub fn beta(&self) -> (r: &Natural)
        ensures
            r@ == self@.beta,
    {
        &self.beta
    }
}

} // verus!
