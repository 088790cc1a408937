//! Deferred multi-scalar multiplication: terms are collected and the sum
//! is taken once. Points are held by their discrete logarithm with respect
//! to the group generator, so the generator itself is `1`.
use crate::field::{
    add_spec, is_scalar, lemma_mul_assoc, lemma_mul_comm, mul_spec, scalar_add, scalar_mul, p,
    MODULUS,
};
use vstd::arithmetic::div_mod::{lemma_add_mod_noop, lemma_mul_mod_noop_right};
use vstd::arithmetic::mul::lemma_mul_is_distributive_add;
use vstd::prelude::*;

verus! {

/// `sum_{j < i} scalars[j] * bases[j]`.
pub open spec fn msm_sum(scalars: Seq<u64>, bases: Seq<u64>, i: int) -> int
    decreases i,
{
    if i <= 0 {
        0
    } else {
        add_spec(msm_sum(scalars, bases, i - 1), mul_spec(scalars[i - 1] as int, bases[i - 1] as int))
    }
}

/// `constant * G + sum_j scalars[j] * bases[j]`.
pub open spec fn msm_eval(constant: int, scalars: Seq<u64>, bases: Seq<u64>) -> int {
    add_spec(constant, msm_sum(scalars, bases, scalars.len() as int))
}

/// A linear combination of points, with a multiple of the generator.
pub struct MSM {
    pub constant: u64,
    pub scalars: Vec<u64>,
    pub bases: Vec<u64>,
}

impl MSM {
    pub open spec fn wf(&self) -> bool {
        &&& is_scalar(self.constant as int)
        &&& self.scalars.len() == self.bases.len()
        &&& forall|j: int| 0 <= j < self.scalars.len() ==> is_scalar(#[trigger] self.scalars[j] as int)
        &&& forall|j: int| 0 <= j < self.bases.len() ==> is_scalar(#[trigger] self.bases[j] as int)
    }

    /// What the combination sums to.
    pub open spec fn value(&self) -> int {
        msm_eval(self.constant as int, self.scalars@, self.bases@)
    }

    /// The empty combination.
    pub fn new() -> (r: MSM)
        ensures
            r.wf(),
            r.constant == 0,
            r.scalars@ == Seq::<u64>::empty(),
            r.bases@ == Seq::<u64>::empty(),
    {
        MSM { constant: 0, scalars: Vec::new(), bases: Vec::new() }
    }

    /// Appends `scalar * base`.
    pub fn add_term(&mut self, scalar: u64, base: u64)
        requires
            old(self).wf(),
            is_scalar(scalar as int),
            is_scalar(base as int),
        ensures
            final(self).wf(),
            final(self).constant == old(self).constant,
            final(self).scalars@ == old(self).scalars@.push(scalar),
            final(self).bases@ == old(self).bases@.push(base),
    {
        self.scalars.push(scalar);
        self.bases.push(base);
    }

    /// Adds `c` to the multiple of the generator.
    pub fn add_constant(&mut self, c: u64)
        requires
            old(self).wf(),
            is_scalar(c as int),
        ensures
            final(self).wf(),
            final(self).constant == add_spec(old(self).constant as int, c as int),
            final(self).scalars@ == old(self).scalars@,
            final(self).bases@ == old(self).bases@,
    {
        self.constant = scalar_add(self.constant, c);
    }

    /// Multiplies every scalar, and the constant, by `by`.
    pub fn scale(&mut self, by: u64)
        requires
            old(self).wf(),
            is_scalar(by as int),
        ensures
            final(self).wf(),
            final(self).bases@ == old(self).bases@,
            final(self).constant == mul_spec(old(self).constant as int, by as int),
            final(self).scalars.len() == old(self).scalars.len(),
            forall|j: int|
                0 <= j < old(self).scalars.len() ==> #[trigger] final(self).scalars[j] as int == mul_spec(
                    old(self).scalars[j] as int,
                    by as int,
                ),
            final(self).value() == mul_spec(old(self).value(), by as int),
    {
        let ghost s0 = self.scalars@;
        let ghost c0 = self.constant;
        let m = self.scalars.len();
        let mut i: usize = 0;
        while i < m
            invariant
                i <= m == self.scalars.len() == self.bases.len() == s0.len(),
                self.bases@ == old(self).bases@,
                self.constant == c0,
                s0 == old(self).scalars@,
                forall|j: int| 0 <= j < m ==> is_scalar(#[trigger] s0[j] as int),
                forall|j: int| 0 <= j < m ==> is_scalar(#[trigger] self.bases[j] as int),
                is_scalar(by as int),
                forall|j: int| i <= j < m ==> #[trigger] self.scalars[j] == s0[j],
                forall|j: int|
                    0 <= j < i ==> #[trigger] self.scalars[j] as int == mul_spec(s0[j] as int, by as int),
            decreases m - i,
        {
            let s = scalar_mul(self.scalars[i], by);
            self.scalars.set(i, s);
            i = i + 1;
        }
        self.constant = scalar_mul(self.constant, by);
        proof {
            lemma_msm_sum_scale(s0, self.scalars@, self.bases@, by as int, m as int);
            lemma_add_mul_distrib(c0 as int, msm_sum(s0, self.bases@, m as int), by as int);
        }
    }

    /// `self + challenge * other`: appends `other`'s terms, each scalar
    /// multiplied by `challenge`, and adds `challenge` times its constant.
    #[verifier::rlimit(100)]
    pub fn merge(&mut self, other: &MSM, challenge: u64)
        requires
            old(self).wf(),
            other.wf(),
            is_scalar(challenge as int),
        ensures
            final(self).wf(),
            final(self).value() == add_spec(old(self).value(), mul_spec(challenge as int, other.value())),
    {
        let ghost s0 = self.scalars@;
        let ghost b0 = self.bases@;
        let ghost c0 = self.constant as int;
        let m = other.scalars.len();
        let mut i: usize = 0;
        while i < m
            invariant
                i <= m == other.scalars.len() == other.bases.len(),
                other.wf(),
                self.wf(),
                is_scalar(challenge as int),
                self.constant == c0,
                self.scalars.len() == s0.len() + i,
                self.scalars@.subrange(0, s0.len() as int) == s0,
                self.bases@ == b0 + other.bases@.subrange(0, i as int),
                forall|j: int|
                    0 <= j < i ==> #[trigger] self.scalars[s0.len() + j] as int == mul_spec(
                        other.scalars[j] as int,
                        challenge as int,
                    ),
                msm_sum(self.scalars@, self.bases@, self.scalars.len() as int) == add_spec(
                    msm_sum(s0, b0, s0.len() as int),
                    mul_spec(msm_sum(other.scalars@, other.bases@, i as int), challenge as int),
                ),
            decreases m - i,
        {
            let sc = scalar_mul(other.scalars[i], challenge);
            proof {
                lemma_mul_comm(challenge as int, other.scalars[i as int] as int);
            }
            let ghost prev_s = self.scalars@;
            let ghost prev_b = self.bases@;
            self.scalars.push(sc);
            self.bases.push(other.bases[i]);
            proof {
                let n = prev_s.len() as int;
                assert(self.scalars@.subrange(0, s0.len() as int) =~= s0);
                assert(self.bases@ =~= b0 + other.bases@.subrange(0, i + 1));
                lemma_msm_sum_prefix(prev_s, prev_b, self.scalars@, self.bases@, n);
                let x = msm_sum(s0, b0, s0.len() as int);
                let y = msm_sum(other.scalars@, other.bases@, i as int);
                let t = mul_spec(other.scalars[i as int] as int, other.bases[i as int] as int);
                let c = challenge as int;
                // (sc) b = (o_i c) b = (o_i b) c
                lemma_mul_assoc(other.scalars[i as int] as int, c, other.bases[i as int] as int);
                lemma_mul_comm(c, other.bases[i as int] as int);
                lemma_mul_assoc(other.scalars[i as int] as int, other.bases[i as int] as int, c);
                lemma_add_mul_distrib(y, t, c);
                lemma_add_assoc(x, mul_spec(y, c), mul_spec(t, c));
                assert(msm_sum(other.scalars@, other.bases@, i + 1) == add_spec(y, t));
                assert(msm_sum(self.scalars@, self.bases@, n + 1) == add_spec(
                    msm_sum(self.scalars@, self.bases@, n),
                    mul_spec(sc as int, other.bases[i as int] as int),
                ));
            }
            i = i + 1;
        }
        let oc = scalar_mul(challenge, other.constant);
        self.constant = scalar_add(self.constant, oc);
        proof {
            let x = msm_sum(s0, b0, s0.len() as int);
            let y = msm_sum(other.scalars@, other.bases@, m as int);
            let c = challenge as int;
            lemma_mul_comm(y, c);
            // (c0 + oc) + (x + c y) = (c0 + x) + c (other.constant + y)
            lemma_add_mul_distrib(other.constant as int, y, c);
            lemma_mul_comm(other.constant as int, c);
            lemma_mul_comm(c, add_spec(other.constant as int, y));
            lemma_add_assoc(c0, mul_spec(c, other.constant as int), add_spec(x, mul_spec(c, y)));
            lemma_add_assoc(mul_spec(c, other.constant as int), x, mul_spec(c, y));
            lemma_add_comm(mul_spec(c, other.constant as int), x);
            lemma_add_assoc(x, mul_spec(c, other.constant as int), mul_spec(c, y));
            lemma_add_assoc(c0, x, add_spec(mul_spec(c, other.constant as int), mul_spec(c, y)));
            vstd::arithmetic::div_mod::lemma_mod_bound(c0 + mul_spec(c, other.constant as int), p());
        }
    }

    /// The sum, taken once.
    pub fn evaluate(&self) -> (r: u64)
        requires
            self.wf(),
        ensures
            r as int == self.value(),
            r < MODULUS,
    {
        let mut sum: u64 = 0;
        let mut i: usize = 0;
        while i < self.scalars.len()
            invariant
                self.wf(),
                i <= self.scalars.len(),
                sum as int == msm_sum(self.scalars@, self.bases@, i as int),
                sum < MODULUS,
            decreases self.scalars.len() - i,
        {
            let t = scalar_mul(self.scalars[i], self.bases[i]);
            sum = scalar_add(sum, t);
            i = i + 1;
        }
        scalar_add(self.constant, sum)
    }
}

/// `((x + y) mod p) c = x c + y c (mod p)`.
pub proof fn lemma_add_mul_distrib(x: int, y: int, c: int)
    ensures
        mul_spec(add_spec(x, y), c) == add_spec(mul_spec(x, c), mul_spec(y, c)),
{
    lemma_mul_comm(add_spec(x, y), c);
    lemma_mul_mod_noop_right(c, x + y, p());
    lemma_mul_is_distributive_add(c, x, y);
    lemma_add_mod_noop(c * x, c * y, p());
    lemma_mul_comm(c, x);
    lemma_mul_comm(c, y);
}

/// Sums over a prefix do not see what was appended.
proof fn lemma_msm_sum_prefix(s0: Seq<u64>, b0: Seq<u64>, s1: Seq<u64>, b1: Seq<u64>, n: int)
    requires
        0 <= n <= s0.len(),
        n <= b0.len(),
        n <= s1.len(),
        n <= b1.len(),
        forall|j: int| 0 <= j < n ==> s0[j] == s1[j] && b0[j] == b1[j],
    ensures
        msm_sum(s0, b0, n) == msm_sum(s1, b1, n),
    decreases n,
{
    if n > 0 {
        lemma_msm_sum_prefix(s0, b0, s1, b1, n - 1);
    }
}

/// Addition modulo `p` is associative.
pub proof fn lemma_add_assoc(x: int, y: int, z: int)
    ensures
        add_spec(add_spec(x, y), z) == add_spec(x, add_spec(y, z)),
{
    vstd::arithmetic::div_mod::lemma_add_mod_noop(x + y, z, p());
    vstd::arithmetic::div_mod::lemma_add_mod_noop(x, y + z, p());
    vstd::arithmetic::div_mod::lemma_mod_twice(x + y, p());
    vstd::arithmetic::div_mod::lemma_mod_twice(y + z, p());
    vstd::arithmetic::div_mod::lemma_add_mod_noop(x, y, p());
    vstd::arithmetic::div_mod::lemma_add_mod_noop(y, z, p());
    vstd::arithmetic::div_mod::lemma_mod_twice(x, p());
    vstd::arithmetic::div_mod::lemma_mod_twice(z, p());
}

/// Addition modulo `p` is commutative.
pub proof fn lemma_add_comm(x: int, y: int)
    ensures
        add_spec(x, y) == add_spec(y, x),
{
}

/// Scaling every scalar scales the sum.
proof fn lemma_msm_sum_scale(s0: Seq<u64>, s1: Seq<u64>, bases: Seq<u64>, c: int, i: int)
    requires
        0 <= i <= s0.len(),
        i <= s1.len(),
        i <= bases.len(),
        forall|j: int| 0 <= j < i ==> #[trigger] s1[j] as int == mul_spec(s0[j] as int, c),
    ensures
        msm_sum(s1, bases, i) == mul_spec(msm_sum(s0, bases, i), c),
    decreases i,
{
    if i > 0 {
        lemma_msm_sum_scale(s0, s1, bases, c, i - 1);
        let b = bases[i - 1] as int;
        let s = s0[i - 1] as int;
        lemma_add_mul_distrib(msm_sum(s0, bases, i - 1), mul_spec(s, b), c);
        // (s c) b = (s b) c
        lemma_mul_assoc(s, c, b);
        lemma_mul_comm(c, b);
        lemma_mul_assoc(s, b, c);
        assert(s1[i - 1] as int == mul_spec(s, c));
        assert(mul_spec(s1[i - 1] as int, b) == mul_spec(mul_spec(s, b), c));
        assert(msm_sum(s1, bases, i) == add_spec(msm_sum(s1, bases, i - 1), mul_spec(s1[i - 1] as int, b)));
        assert(msm_sum(s0, bases, i) == add_spec(msm_sum(s0, bases, i - 1), mul_spec(s, b)));
    } else {
        assert(0 * c == 0);
        assert(mul_spec(0, c) == 0);
    }
}

} // verus!
