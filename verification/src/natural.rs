//! Arbitrary-precision natural numbers, held as big-endian byte strings.
//!
//! The arithmetic itself is done by `num_bigint`; this module states what each
//! operation computes over the mathematical value of its operands.

use num_bigint::BigUint;
use num_bigint::RandBigInt;
use vstd::arithmetic::power::pow;
use vstd::prelude::*;
use vstd::slice::{slice_subrange, slice_to_vec};

verus! {

/// The number that a big-endian byte string denotes: the empty string is 0,
/// and each further byte multiplies what came before by 256.
pub open spec fn be_value(bytes: Seq<u8>) -> nat
    decreases bytes.len(),
{
    if bytes.len() == 0 {
        0
    } else {
        be_value(bytes.drop_last()) * 256 + bytes.last() as nat
    }
}

/// `base^exponent mod modulus` over the naturals.
pub open spec fn mod_exp(base: nat, exponent: nat, modulus: nat) -> nat {
    (pow(base as int, exponent) % (modulus as int)) as nat
}

/// Appending a byte shifts the value by one byte and adds the new one.
pub proof fn lemma_be_value_push(bytes: Seq<u8>, last: u8)
    ensures
        be_value(bytes.push(last)) == be_value(bytes) * 256 + last as nat,
{
    assert(bytes.push(last).drop_last() =~= bytes);
}

/// A byte string with a nonzero byte denotes a positive number.
pub proof fn lemma_be_value_positive(bytes: Seq<u8>, i: int)
    requires
        0 <= i < bytes.len(),
        bytes[i] != 0,
    ensures
        be_value(bytes) > 0,
    decreases bytes.len(),
{
    if i < bytes.len() - 1 {
        lemma_be_value_positive(bytes.drop_last(), i);
    }
}

/// A leading zero byte does not change the number.
pub proof fn lemma_be_value_leading_zero(bytes: Seq<u8>)
    requires
        bytes.len() > 0,
        bytes[0] == 0,
    ensures
        be_value(bytes.skip(1)) == be_value(bytes),
    decreases bytes.len(),
{
    if bytes.len() == 1 {
        assert(bytes.skip(1) =~= bytes.drop_last());
    } else {
        lemma_be_value_leading_zero(bytes.drop_last());
        assert(bytes.skip(1).drop_last() =~= bytes.drop_last().skip(1));
    }
}

/// The byte string is the shortest one for its number: it has no leading
/// zero byte, but for the single byte that spells zero.
pub open spec fn is_minimal(bytes: Seq<u8>) -> bool {
    bytes.len() >= 1 && (bytes.len() == 1 || bytes[0] != 0)
}

/// The shortest byte string of a number, built from its last byte up.
pub open spec fn minimal_bytes(n: nat) -> Seq<u8>
    decreases n,
{
    if n < 256 {
        seq![n as u8]
    } else {
        minimal_bytes(n / 256).push((n % 256) as u8)
    }
}

/// Every number has one shortest byte string.
pub proof fn lemma_minimal_bytes(bytes: Seq<u8>)
    requires
        is_minimal(bytes),
    ensures
        bytes == minimal_bytes(be_value(bytes)),
    decreases bytes.len(),
{
    let front = bytes.drop_last();
    if bytes.len() == 1 {
        assert(front =~= Seq::<u8>::empty());
        assert(bytes =~= seq![bytes[0]]);
    } else {
        lemma_be_value_positive(front, 0);
        lemma_minimal_bytes(front);
        assert(bytes =~= front.push(bytes.last()));
    }
}

/// A natural number of any size.
///
/// Any byte string is a number: leading zero bytes are allowed and do not
/// change the value.
#[derive(Debug)]
pub struct Natural {
    bytes: Vec<u8>,
}

impl View for Natural {
    type V = nat;

    closed spec fn view(&self) -> nat {
        be_value(self.bytes@)
    }
}

impl Clone for Natural {
    fn clone(&self) -> (r: Self)
        ensures
            r@ == self@,
    {
        let bytes = self.bytes.clone();
        assert(bytes@ =~= self.bytes@);
        Natural { bytes }
    }
}

impl PartialEq for Natural {
    /// Two numbers are equal when their values are, whatever their bytes.
    fn eq(&self, other: &Natural) -> (r: bool) {
        self.same_value(other)
    }
}

impl vstd::std_specs::cmp::PartialEqSpecImpl for Natural {
    open spec fn obeys_eq_spec() -> bool {
        true
    }

    open spec fn eq_spec(&self, other: &Natural) -> bool {
        self@ == other@
    }
}

impl Natural {
    /// Reads a big-endian byte string as a number.
    pub fn from_bytes_be(bytes: &[u8]) -> (r: Natural)
        ensures
            r@ == be_value(bytes@),
    {
        Natural { bytes: slice_to_vec(bytes) }
    }

    /// The number as its shortest big-endian byte string; zero is the
    /// single byte 0.
    pub fn to_bytes_be(&self) -> (r: Vec<u8>)
        ensures
            r@ == minimal_bytes(self@),
            be_value(r@) == self@,
            is_minimal(r@),
    {
        let n = self.bytes.len();
        let mut start: usize = 0;
        assert(self.bytes@.skip(0) =~= self.bytes@);
        while start < n && self.bytes[start] == 0
            invariant
                start <= n,
                n == self.bytes.len(),
                be_value(self.bytes@.skip(start as int)) == be_value(self.bytes@),
            decreases n - start,
        {
            proof {
                lemma_be_value_leading_zero(self.bytes@.skip(start as int));
                assert(self.bytes@.skip(start as int).skip(1) =~= self.bytes@.skip(start + 1));
            }
            start += 1;
        }
        let r = if start == n {
            let mut zero: Vec<u8> = Vec::new();
            zero.push(0);
            proof {
                lemma_be_value_push(Seq::<u8>::empty(), 0);
                assert(zero@ =~= Seq::<u8>::empty().push(0));
            }
            zero
        } else {
            let rest = slice_to_vec(slice_subrange(self.bytes.as_slice(), start, n));
            assert(rest@ =~= self.bytes@.skip(start as int));
            rest
        };
        proof {
            lemma_minimal_bytes(r@);
        }
        r
    }

    /// The number `n`.
    pub fn from_u32(n: u32) -> (r: Natural)
        ensures
            r@ == n,
    {
        let b0: u8 = (n / 0x100_0000) as u8;
        let b1: u8 = (n / 0x1_0000 % 0x100) as u8;
        let b2: u8 = (n / 0x100 % 0x100) as u8;
        let b3: u8 = (n % 0x100) as u8;
        let mut bytes: Vec<u8> = Vec::new();
        bytes.push(b0);
        bytes.push(b1);
        bytes.push(b2);
        bytes.push(b3);
        proof {
            let s0 = Seq::<u8>::empty();
            lemma_be_value_push(s0, b0);
            lemma_be_value_push(s0.push(b0), b1);
            lemma_be_value_push(s0.push(b0).push(b1), b2);
            lemma_be_value_push(s0.push(b0).push(b1).push(b2), b3);
            assert(bytes@ =~= s0.push(b0).push(b1).push(b2).push(b3));
        }
        Natural { bytes }
    }

    /// Whether the number is 0.
    pub fn is_zero(&self) -> (r: bool)
        ensures
            r == (self@ == 0),
    {
        let zero = Natural::from_u32(0);
        self.same_value(&zero)
    }

    /// Whether two numbers have the same value.
    ///
    /// Trusted: reads both operands with `BigUint::from_bytes_be` and
    /// compares them with `==` on `BigUint`, which holds exactly when the
    /// two are the same number.
    #[verifier::external_body]
    pub(crate) fn same_value(&self, other: &Natural) -> (r: bool)
        ensures
            r == (self@ == other@),
    {
        BigUint::from_bytes_be(&self.bytes) == BigUint::from_bytes_be(&other.bytes)
    }

    /// Whether `self` is at least `other`.
    ///
    /// Trusted: reads both operands with `BigUint::from_bytes_be` and
    /// compares them with `>=` on `BigUint`, which orders by magnitude.
    #[verifier::external_body]
    pub(crate) fn ge(&self, other: &Natural) -> (r: bool)
        ensures
            r == (self@ >= other@),
    {
        BigUint::from_bytes_be(&self.bytes) >= BigUint::from_bytes_be(&other.bytes)
    }

    /// The sum of the two numbers.
    ///
    /// Trusted: adds with `+` on `BigUint`, which never overflows. The
    /// operands are read with `BigUint::from_bytes_be` and the sum is
    /// written with `BigUint::to_bytes_be`.
    #[verifier::external_body]
    pub(crate) fn plus(&self, other: &Natural) -> (r: Natural)
        ensures
            r@ == self@ + other@,
    {
        let sum = BigUint::from_bytes_be(&self.bytes) + BigUint::from_bytes_be(&other.bytes);
        Natural { bytes: sum.to_bytes_be() }
    }

    /// The difference `self - other`, for `other` no larger than `self`.
    ///
    /// Trusted: subtracts with `-` on `BigUint`, which panics when the
    /// subtrahend is the larger one. The operands are read with
    /// `BigUint::from_bytes_be` and the difference is written with
    /// `BigUint::to_bytes_be`.
    #[verifier::external_body]
    pub(crate) fn minus(&self, other: &Natural) -> (r: Natural)
        requires
            self@ >= other@,
        ensures
            r@ == self@ - other@,
    {
        let difference = BigUint::from_bytes_be(&self.bytes) - BigUint::from_bytes_be(&other.bytes);
        Natural { bytes: difference.to_bytes_be() }
    }

    /// The product of the two numbers.
    ///
    /// Trusted: multiplies with `*` on `BigUint`, which never overflows. The
    /// operands are read with `BigUint::from_bytes_be` and the product is
    /// written with `BigUint::to_bytes_be`.
    #[verifier::external_body]
    pub(crate) fn times(&self, other: &Natural) -> (r: Natural)
        ensures
            r@ == self@ * other@,
    {
        let product = BigUint::from_bytes_be(&self.bytes) * BigUint::from_bytes_be(&other.bytes);
        Natural { bytes: product.to_bytes_be() }
    }

    /// `self^exponent mod modulus`.
    ///
    /// Trusted: calls `BigUint::modpow`, which is documented to return
    /// `(self ^ exponent) % modulus` and to panic on a zero modulus. The
    /// operands are read with `BigUint::from_bytes_be` and the result is
    /// written with `BigUint::to_bytes_be`.
    #[verifier::external_body]
    pub(crate) fn modpow(&self, exponent: &Natural, modulus: &Natural) -> (r: Natural)
        requires
            modulus@ > 0,
        ensures
            r@ == mod_exp(self@, exponent@, modulus@),
    {
        let base = BigUint::from_bytes_be(&self.bytes);
        let e = BigUint::from_bytes_be(&exponent.bytes);
        let m = BigUint::from_bytes_be(&modulus.bytes);
        Natural { bytes: base.modpow(&e, &m).to_bytes_be() }
    }

    /// A number drawn at random below `bound`.
    ///
    /// Trusted: calls `RandBigInt::gen_biguint_below` on `rand::thread_rng()`,
    /// which returns a number less than the bound and panics on a zero bound.
    /// Which number comes back is not determined. The bound is read with
    /// `BigUint::from_bytes_be` and the number is written with
    /// `BigUint::to_bytes_be`.
    #[verifier::external_body]
    pub(crate) fn random_below(bound: &Natural) -> (r: Natural)
        requires
            bound@ > 0,
        ensures
            r@ < bound@,
    {
        let mut rng = rand::thread_rng();
        let drawn = rng.gen_biguint_below(&BigUint::from_bytes_be(&bound.bytes));
        Natural { bytes: drawn.to_bytes_be() }
    }
}

} // verus!
