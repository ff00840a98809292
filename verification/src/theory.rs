//! Why the protocol works: the arithmetic of exponents modulo the order of a
//! generator, and from it the completeness and the soundness of the proof.

use crate::natural::mod_exp;
use crate::params::Profile;
use crate::zkp::ParameterSet;
use vstd::arithmetic::div_mod::{
    lemma_fundamental_div_mod, lemma_mod_bound, lemma_mod_equivalence, lemma_mod_multiples_vanish,
    lemma_mod_twice, lemma_mul_mod_noop, lemma_mul_mod_noop_left, lemma_small_mod,
};
use vstd::arithmetic::mul::{lemma_mul_is_commutative, lemma_mul_is_distributive_sub};
use vstd::arithmetic::power::{lemma1_pow, lemma_pow_adds, lemma_pow_mod_noop, lemma_pow_multiplies, pow};
use vstd::prelude::*;

verus! {

/// `gen` generates a subgroup of exactly `q` elements modulo `p`: its `q`-th
/// power is 1, and no smaller positive power is.
pub open spec fn has_order(gen: nat, q: nat, p: nat) -> bool {
    &&& p > 0
    &&& q > 0
    &&& mod_exp(gen, q, p) == 1
    &&& forall|e: nat| 0 < e < q ==> mod_exp(gen, e, p) != 1
}

/// `n` has no divisor but 1 and itself.
pub open spec fn is_prime(n: nat) -> bool {
    &&& n > 1
    &&& forall|d: nat| 1 < d < n ==> #[trigger] (n % d) != 0
}

/// Multiplying two powers of one base adds their exponents.
pub proof fn lemma_mod_exp_adds(base: nat, e1: nat, e2: nat, m: nat)
    requires
        m > 0,
    ensures
        (mod_exp(base, e1, m) * mod_exp(base, e2, m)) % m == mod_exp(base, e1 + e2, m),
{
    let b = base as int;
    let m_int = m as int;
    lemma_pow_adds(b, e1, e2);
    lemma_mul_mod_noop(pow(b, e1), pow(b, e2), m_int);
    lemma_mod_bound(pow(b, e1), m_int);
    lemma_mod_bound(pow(b, e2), m_int);
    lemma_mod_bound(pow(b, e1 + e2), m_int);
}

/// Raising a power to a power multiplies the exponents.
pub proof fn lemma_mod_exp_multiplies(base: nat, e1: nat, e2: nat, m: nat)
    requires
        m > 0,
    ensures
        mod_exp(mod_exp(base, e1, m), e2, m) == mod_exp(base, e1 * e2, m),
{
    let b = base as int;
    let m_int = m as int;
    lemma_mod_bound(pow(b, e1), m_int);
    lemma_pow_mod_noop(pow(b, e1), e2, m_int);
    lemma_pow_multiplies(b, e1, e2);
}

/// Where the `q`-th power of the base is 1, so is every power whose
/// exponent is a multiple of `q`.
pub proof fn lemma_mod_exp_multiple(base: nat, q: nat, t: nat, m: nat)
    requires
        m > 0,
        mod_exp(base, q, m) == 1,
    ensures
        mod_exp(base, q * t, m) == 1,
{
    lemma_mod_exp_multiplies(base, q, t, m);
    lemma1_pow(t);
    lemma_mod_bound(pow(base as int, q), m as int);
    lemma_small_mod(1, m);
}

/// Where the `q`-th power of the base is 1, adding a multiple of `q` to an
/// exponent changes nothing.
pub proof fn lemma_mod_exp_period(base: nat, q: nat, t: nat, e: nat, m: nat)
    requires
        m > 0,
        mod_exp(base, q, m) == 1,
    ensures
        mod_exp(base, e + q * t, m) == mod_exp(base, e, m),
{
    let m_int = m as int;
    lemma_mod_exp_multiple(base, q, t, m);
    lemma_mod_exp_adds(base, e, q * t, m);
    lemma_mod_bound(pow(base as int, e), m_int);
    lemma_mod_twice(pow(base as int, e), m_int);
    assert(mod_exp(base, e, m) * 1 == mod_exp(base, e, m));
}

/// The response is congruent to `k - c*x` modulo `q`, and no larger than
/// `q`: some multiple of `q` separates `s + c*x` from `k`, in one direction
/// or the other.
pub proof fn lemma_response_congruent(g: ParameterSet, k: nat, c: nat, x: nat) -> (t: (nat, nat))
    requires
        g.q > 0,
    ensures
        g.response(k, c, x) + c * x + g.q * t.0 == k + g.q * t.1,
        (g.response(k, c, x) + c * x) % g.q == k % g.q,
        g.response(k, c, x) <= g.q,
{
    let t = lemma_response_multiples(g, k, c, x);
    let sum = g.response(k, c, x) + c * x;
    assert(sum == g.q * (t.1 - t.0) + k) by {
        lemma_mul_is_distributive_sub(g.q as int, t.1 as int, t.0 as int);
    }
    lemma_mod_multiples_vanish(t.1 - t.0, k as int, g.q as int);
    t
}

proof fn lemma_response_multiples(g: ParameterSet, k: nat, c: nat, x: nat) -> (t: (nat, nat))
    requires
        g.q > 0,
    ensures
        g.response(k, c, x) + c * x + g.q * t.0 == k + g.q * t.1,
        g.response(k, c, x) <= g.q,
{
    let q = g.q as int;
    let s = g.response(k, c, x);
    if k >= c * x {
        let d = k - c * x;
        lemma_fundamental_div_mod(d, q);
        lemma_mod_bound(d, q);
        assert(d / q >= 0) by (nonlinear_arith)
            requires
                d >= 0,
                q > 0,
        ;
        let t0 = (d / q) as nat;
        assert(s == d % q);
        assert(g.q * t0 == q * (d / q));
        assert(g.q * 0nat == 0) by (nonlinear_arith);
        (t0, 0)
    } else {
        let d = c * x - k;
        lemma_fundamental_div_mod(d, q);
        lemma_mod_bound(d, q);
        assert(d / q >= 0) by (nonlinear_arith)
            requires
                d >= 0,
                q > 0,
        ;
        let t1 = (d / q + 1) as nat;
        assert(s == q - d % q);
        assert(g.q * t1 == q * (d / q) + q) by (nonlinear_arith)
            requires
                t1 == d / q + 1,
                g.q == q,
        ;
        assert(g.q * 0nat == 0) by (nonlinear_arith);
        (0, t1)
    }
}

/// One verification equation holds for an honest prover: where the `q`-th
/// power of `gen` is 1 modulo `p`, the commitment `gen^k` equals
/// `gen^s * (gen^x)^c` for the response `s` to `c`.
pub proof fn lemma_honest_equation(g: ParameterSet, gen: nat, k: nat, c: nat, x: nat)
    requires
        g.p > 0,
        g.q > 0,
        mod_exp(gen, g.q, g.p) == 1,
    ensures
        mod_exp(gen, k, g.p) == (mod_exp(gen, g.response(k, c, x), g.p) * mod_exp(
            mod_exp(gen, x, g.p),
            c,
            g.p,
        )) % g.p,
{
    let s = g.response(k, c, x);
    let t = lemma_response_congruent(g, k, c, x);
    lemma_mod_exp_multiplies(gen, x, c, g.p);
    lemma_mod_exp_adds(gen, s, x * c, g.p);
    lemma_mul_is_commutative(x as int, c as int);
    lemma_mod_exp_period(gen, g.q, t.0, s + c * x, g.p);
    lemma_mod_exp_period(gen, g.q, t.1, k, g.p);
}

/// Completeness: an honest prover always convinces the verifier.
///
/// In a consistent group, for every secret `x`, nonce `k` and challenge
/// `c`: with the public values `alpha^x`, `beta^x` and the commitments
/// `alpha^k`, `beta^k`, the response computed from `k`, `c` and `x` is
/// accepted.
pub proof fn lemma_completeness(g: ParameterSet, x: nat, k: nat, c: nat)
    requires
        g.consistent(),
    ensures
        g.accepts(
            mod_exp(g.alpha, k, g.p),
            mod_exp(g.beta, k, g.p),
            mod_exp(g.alpha, x, g.p),
            mod_exp(g.beta, x, g.p),
            c,
            g.response(k, c, x),
        ),
{
    lemma_honest_equation(g, g.alpha, k, c, x);
    lemma_honest_equation(g, g.beta, k, c, x);
}

/// A power of a generator of order `q` is 1 only for exponents that `q`
/// divides.
pub proof fn lemma_order_divides(gen: nat, q: nat, p: nat, d: nat)
    requires
        has_order(gen, q, p),
        mod_exp(gen, d, p) == 1,
    ensures
        d % q == 0,
{
    let q_int = q as int;
    lemma_fundamental_div_mod(d as int, q_int);
    lemma_mod_bound(d as int, q_int);
    assert(d as int / q_int >= 0) by (nonlinear_arith)
        requires
            d >= 0,
            q_int > 0,
    ;
    let t = (d as int / q_int) as nat;
    let r = (d % q) as nat;
    assert(d == r + q * t);
    lemma_mod_exp_period(gen, q, t, r, p);
    assert(mod_exp(gen, r, p) == 1);
}

/// Two powers of a generator of order `q` are equal only where the
/// exponents are congruent modulo `q`.
pub proof fn lemma_exponents_congruent(gen: nat, q: nat, p: nat, a: nat, b: nat)
    requires
        has_order(gen, q, p),
        mod_exp(gen, a, p) == mod_exp(gen, b, p),
    ensures
        a % q == b % q,
{
    if a >= b {
        lemma_exponents_congruent_ordered(gen, q, p, a, b);
    } else {
        lemma_exponents_congruent_ordered(gen, q, p, b, a);
    }
}

proof fn lemma_exponents_congruent_ordered(gen: nat, q: nat, p: nat, a: nat, b: nat)
    requires
        has_order(gen, q, p),
        mod_exp(gen, a, p) == mod_exp(gen, b, p),
        a >= b,
    ensures
        a % q == b % q,
{
    let q_int = q as int;
    // n is a multiple of q that is at least b, so gen^(n - b) undoes gen^b.
    lemma_fundamental_div_mod(b as int, q_int);
    lemma_mod_bound(b as int, q_int);
    assert(b as int / q_int >= 0) by (nonlinear_arith)
        requires
            b >= 0,
            q_int > 0,
    ;
    let t = (b as int / q_int + 1) as nat;
    assert(q * t == q * (b as int / q_int) + q) by (nonlinear_arith)
        requires
            t == b as int / q_int + 1,
    ;
    let n = q * t;
    assert(n >= b);
    let inv = (n - b) as nat;
    let d = (a - b) as nat;
    // gen^b * gen^inv == gen^n == 1
    lemma_mod_exp_multiple(gen, q, t, p);
    // gen^a * gen^inv == gen^(d + n) == gen^d
    lemma_mod_exp_adds(gen, a, inv, p);
    lemma_mod_exp_adds(gen, b, inv, p);
    assert(a + inv == d + q * t);
    assert(b + inv == n);
    lemma_mod_exp_period(gen, q, t, d, p);
    assert(mod_exp(gen, d, p) == 1);
    lemma_order_divides(gen, q, p, d);
    lemma_mod_equivalence(a as int, b as int, q_int);
}

/// Modulo a prime `q`, every number that `q` does not divide has an
/// inverse: some multiple of `a` is one more than a multiple of `q`.
pub proof fn lemma_inverse_mod_prime(q: nat, a: nat) -> (r: (nat, nat))
    requires
        is_prime(q),
        a % q != 0,
    ensures
        r.0 * a == 1 + q * r.1,
    decreases a,
{
    let q_int = q as int;
    let a_int = a as int;
    if a >= q {
        let rest = a % q;
        lemma_fundamental_div_mod(a_int, q_int);
        lemma_mod_bound(a_int, q_int);
        lemma_small_mod(rest, q);
        let (u, t) = lemma_inverse_mod_prime(q, rest);
        let j = a_int / q_int;
        assert(j >= 0) by (nonlinear_arith)
            requires
                a_int >= 0,
                q_int > 0,
                j == a_int / q_int,
        ;
        assert(u * a == 1 + q * (t + u * j)) by (nonlinear_arith)
            requires
                u * rest == 1 + q * t,
                a == q * j + rest,
        ;
        assert(t + u * j >= 0) by (nonlinear_arith)
            requires
                j >= 0,
        ;
        (u, (t + u * j) as nat)
    } else if a == 1 {
        assert(1 * a == 1 + q * 0) by (nonlinear_arith)
            requires
                a == 1,
        ;
        (1, 0)
    } else {
        lemma_small_mod(a, q);
        let rest = q % a;
        assert(rest != 0);
        lemma_fundamental_div_mod(q_int, a_int);
        lemma_mod_bound(q_int, a_int);
        lemma_small_mod(rest, q);
        let (u, t) = lemma_inverse_mod_prime(q, rest);
        let m = q_int / a_int;
        assert(m >= 1) by (nonlinear_arith)
            requires
                q_int == a_int * m + rest,
                rest < a_int,
                a_int < q_int,
                a_int > 0,
        ;
        let u2 = u * m * (q - 1);
        let t2 = u * m * a + t - u;
        assert(u2 >= 0 && t2 >= 0) by (nonlinear_arith)
            requires
                u2 == u * m * (q - 1),
                t2 == u * m * a + t - u,
                m >= 1,
                a >= 1,
                q >= 1,
        ;
        assert(u2 * a == 1 + q * t2) by (nonlinear_arith)
            requires
                u2 == u * m * (q - 1),
                t2 == u * m * a + t - u,
                u * rest == 1 + q * t,
                q == a * m + rest,
        ;
        (u2 as nat, t2 as nat)
    }
}

/// A prime that divides a product divides one of the factors.
pub proof fn lemma_prime_divides_product(q: nat, a: int, b: int)
    requires
        is_prime(q),
        (a * b) % (q as int) == 0,
    ensures
        a % (q as int) == 0 || b % (q as int) == 0,
{
    let q_int = q as int;
    if a % q_int != 0 {
        lemma_mod_bound(a, q_int);
        let rest = (a % q_int) as nat;
        lemma_small_mod(rest, q);
        let (u, t) = lemma_inverse_mod_prime(q, rest);
        // q divides rest * b, as it divides a * b
        lemma_mul_mod_noop_left(a, b, q_int);
        lemma_fundamental_div_mod(rest * b, q_int);
        let k = (rest * b) / q_int;
        assert(rest * b == q_int * k);
        assert(b == q_int * (u * k - t * b)) by (nonlinear_arith)
            requires
                u * rest == 1 + q_int * t,
                rest * b == q_int * k,
        ;
        lemma_mod_multiples_vanish(u * k - t * b, 0, q_int);
        lemma_small_mod(0, q);
    }
}

/// Where `q` is prime, a generator other than 1 whose `q`-th power is 1
/// has order exactly `q`.
pub proof fn lemma_prime_order(gen: nat, q: nat, p: nat)
    requires
        p > 0,
        is_prime(q),
        mod_exp(gen, q, p) == 1,
        mod_exp(gen, 1, p) != 1,
    ensures
        has_order(gen, q, p),
{
    assert forall|e: nat| 0 < e < q implies mod_exp(gen, e, p) != 1 by {
        if mod_exp(gen, e, p) == 1 {
            lemma_small_mod(e, q);
            let (u, t) = lemma_inverse_mod_prime(q, e);
            lemma_mod_exp_multiple(gen, e, u, p);
            lemma_mul_is_commutative(e as int, u as int);
            lemma_mod_exp_period(gen, q, t, 1, p);
        }
    }
}

/// In a consistent group whose `q` is prime, both generators have order
/// exactly `q`.
pub proof fn lemma_consistent_orders(g: ParameterSet)
    requires
        g.consistent(),
        is_prime(g.q),
    ensures
        has_order(g.alpha, g.q, g.p),
        has_order(g.beta, g.q, g.p),
{
    lemma_prime_order(g.alpha, g.q, g.p);
    lemma_prime_order(g.beta, g.q, g.p);
}

/// A second generator derived from the first one fits the group: where
/// `alpha` has order `q` modulo `p` and `q` does not divide the exponent,
/// `alpha^exponent` is other than 1 and has `q`-th power 1.
pub proof fn lemma_derived_generator(alpha: nat, q: nat, p: nat, exponent: nat)
    requires
        has_order(alpha, q, p),
        exponent % q != 0,
    ensures
        mod_exp(mod_exp(alpha, exponent, p), q, p) == 1,
        mod_exp(mod_exp(alpha, exponent, p), 1, p) != 1,
        mod_exp(alpha, 1, p) != 1,
{
    lemma_mod_exp_multiplies(alpha, exponent, q, p);
    lemma_mul_is_commutative(exponent as int, q as int);
    lemma_mod_exp_multiple(alpha, q, exponent, p);
    lemma_mod_exp_multiplies(alpha, exponent, 1, p);
    assert(exponent * 1 == exponent);
    if mod_exp(alpha, exponent, p) == 1 {
        lemma_order_divides(alpha, q, p, exponent);
    }
    if mod_exp(alpha, 1, p) == 1 {
        lemma_order_divides(alpha, q, p, 1);
        lemma_small_mod(0, q);
        assert(q == 1) by {
            if q > 1 {
                lemma_small_mod(1, q);
            }
        }
    }
}

/// Provisioning succeeds in every group whose base is sound: where `q`
/// divides `p - 1` and `alpha` has order `q` modulo `p`, the group derived
/// with any exponent from `[1, q)` is consistent.
pub proof fn lemma_derived_group(profile: Profile, exponent: nat)
    requires
        (profile.p() - 1) % (profile.q() as int) == 0,
        has_order(profile.alpha(), profile.q(), profile.p()),
        0 < exponent < profile.q(),
    ensures
        profile.group(exponent).consistent(),
{
    lemma_small_mod(exponent, profile.q());
    lemma_derived_generator(profile.alpha(), profile.q(), profile.p(), exponent);
}

/// In the demonstration group 11 is prime and 4 has order 11 modulo 23, so
/// every group derived from it with an exponent that 11 does not divide is
/// consistent.
pub proof fn lemma_toy_group(exponent: nat)
    requires
        exponent % 11 != 0,
    ensures
        is_prime(11),
        has_order(4, 11, 23),
        Profile::Toy.group(exponent).consistent(),
{
    assert forall|d: nat| 1 < d < 11 implies #[trigger] (11nat % d) != 0 by {
        assert(11nat % 2 == 1 && 11nat % 3 == 2 && 11nat % 4 == 3 && 11nat % 5 == 1);
        assert(11nat % 6 == 5 && 11nat % 7 == 4 && 11nat % 8 == 3 && 11nat % 9 == 2);
        assert(11nat % 10 == 1);
    }
    reveal_with_fuel(pow, 12);
    assert(pow(4, 11) == 4194304);
    assert(mod_exp(4, 11, 23) == 1);
    assert forall|e: nat| 0 < e < 11 implies mod_exp(4, e, 23) != 1 by {
        assert(pow(4, 1) == 4);
        assert(pow(4, 2) == 16);
        assert(pow(4, 3) == 64);
        assert(pow(4, 4) == 256);
        assert(pow(4, 5) == 1024);
        assert(pow(4, 6) == 4096);
        assert(pow(4, 7) == 16384);
        assert(pow(4, 8) == 65536);
        assert(pow(4, 9) == 262144);
        assert(pow(4, 10) == 1048576);
    }
    lemma_derived_generator(4, 11, 23, exponent);
}

/// Soundness: a response computed from another secret is rejected.
///
/// Let `alpha` have order exactly `q` modulo `p`, and let the prover answer
/// challenge `c` from `other` in place of the secret `x` behind the public
/// values. Unless `q` divides `c * (x - other)`, the first verification
/// equation fails, and so does the proof. For a prime `q` the exception is
/// a challenge that `q` divides, or a secret congruent to `x` modulo `q`.
pub proof fn lemma_soundness(g: ParameterSet, x: nat, other: nat, k: nat, c: nat)
    requires
        has_order(g.alpha, g.q, g.p),
        (c * (x - other)) % (g.q as int) != 0,
    ensures
        !g.accepts(
            mod_exp(g.alpha, k, g.p),
            mod_exp(g.beta, k, g.p),
            mod_exp(g.alpha, x, g.p),
            mod_exp(g.beta, x, g.p),
            c,
            g.response(k, c, other),
        ),
{
    let s = g.response(k, c, other);
    let q = g.q as int;
    let y1 = mod_exp(g.alpha, x, g.p);
    let r1 = mod_exp(g.alpha, k, g.p);
    if r1 == (mod_exp(g.alpha, s, g.p) * mod_exp(y1, c, g.p)) % g.p {
        lemma_mod_exp_multiplies(g.alpha, x, c, g.p);
        lemma_mod_exp_adds(g.alpha, s, x * c, g.p);
        lemma_exponents_congruent(g.alpha, g.q, g.p, k, s + x * c);
        let t = lemma_response_congruent(g, k, c, other);
        // s + x*c is congruent to k, and so is s + other*c.
        lemma_mod_equivalence(k as int, (s + x * c) as int, q);
        let diff = k - (s + x * c);
        assert(diff % q == 0);
        assert(s + c * other == k - q * (t.0 - t.1)) by {
            lemma_mul_is_distributive_sub(q, t.0 as int, t.1 as int);
        }
        assert(c * (x - other) == c * x - c * other) by {
            lemma_mul_is_distributive_sub(c as int, x as int, other as int);
        }
        lemma_mul_is_commutative(x as int, c as int);
        assert(c * (x - other) == q * (t.0 - t.1) + (-diff));
        lemma_mod_multiples_vanish(t.0 - t.1, -diff, q);
        lemma_mod_equivalence(0, diff, q);
        lemma_small_mod(0, g.q);
        assert(false);
    }
}

/// Soundness in a subgroup of prime order: in a consistent group whose `q`
/// is prime, a prover who answers from a secret that is not congruent to
/// `x` modulo `q` is rejected, unless `q` divides the challenge, which
/// happens to one challenge in `q`.
pub proof fn lemma_soundness_prime_order(g: ParameterSet, x: nat, other: nat, k: nat, c: nat)
    requires
        g.consistent(),
        is_prime(g.q),
        x % g.q != other % g.q,
        c % g.q != 0,
    ensures
        !g.accepts(
            mod_exp(g.alpha, k, g.p),
            mod_exp(g.beta, k, g.p),
            mod_exp(g.alpha, x, g.p),
            mod_exp(g.beta, x, g.p),
            c,
            g.response(k, c, other),
        ),
{
    let q = g.q as int;
    lemma_prime_order(g.alpha, g.q, g.p);
    if (c * (x - other)) % q == 0 {
        lemma_prime_divides_product(g.q, c as int, x - other);
        lemma_mod_equivalence(x as int, other as int, q);
    }
    lemma_soundness(g, x, other, k, c);
}

} // verus!
