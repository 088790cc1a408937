//! Deferred pairing checks and their folding. A group element is held by
//! its discrete logarithm, so the pairing of `a` and `b` is `a b` in the
//! exponent of the target group and the second generator is `1`.
use crate::field::{
    add_spec, is_inverse, is_scalar, lemma_mul_assoc, lemma_mul_comm, lemma_mul_one, mul_spec,
    scalar_add, scalar_mul, MODULUS,
};
use crate::msm::lemma_add_mul_distrib;
use vstd::prelude::*;

verus! {

/// The pairing, in the exponent of the target group.
pub open spec fn pairing(a: int, b: int) -> int {
    mul_spec(a, b)
}

/// `e(lhs, G2) == e(rhs, X2)`.
pub open spec fn pairing_check(lhs: int, rhs: int, x2: int) -> bool {
    pairing(lhs, 1) == pairing(rhs, x2)
}

/// One deferred pairing check.
#[derive(Clone, Copy, Debug, PartialEq, Eq, Structural)]
pub struct Accumulator {
    pub lhs: u64,
    pub rhs: u64,
}

impl Accumulator {
    pub open spec fn wf(&self) -> bool {
        is_scalar(self.lhs as int) && is_scalar(self.rhs as int)
    }

    pub open spec fn holds(&self, x2: int) -> bool {
        pairing_check(self.lhs as int, self.rhs as int, x2)
    }

    /// Performs the pairing check against the verification key's `X2`.
    pub fn check(&self, x2: u64) -> (r: bool)
        requires
            self.wf(),
            is_scalar(x2 as int),
        ensures
            r == self.holds(x2 as int),
    {
        let l = scalar_mul(self.lhs, 1);
        let r = scalar_mul(self.rhs, x2);
        l == r
    }
}

/// The `lhs` side of the first `i` accumulators folded, each weighted by its challenge.
pub open spec fn folded_lhs(accs: Seq<Accumulator>, challenges: Seq<u64>, i: int) -> int
    decreases i,
{
    if i <= 0 {
        0
    } else {
        add_spec(folded_lhs(accs, challenges, i - 1), mul_spec(challenges[i - 1] as int, accs[i - 1].lhs as int))
    }
}

/// The `rhs` side of the first `i` accumulators folded, each weighted by its challenge.
pub open spec fn folded_rhs(accs: Seq<Accumulator>, challenges: Seq<u64>, i: int) -> int
    decreases i,
{
    if i <= 0 {
        0
    } else {
        add_spec(folded_rhs(accs, challenges, i - 1), mul_spec(challenges[i - 1] as int, accs[i - 1].rhs as int))
    }
}

/// Folds accumulators into one: `acc' = acc + challenge * other`, starting
/// from the pair `(0, 0)`, whose check holds.
pub struct SameCurveAccumulation {
    pub accumulator: Accumulator,
}

impl SameCurveAccumulation {
    /// Nothing folded yet.
    pub fn new() -> (r: SameCurveAccumulation)
        ensures
            r.accumulator.lhs == 0,
            r.accumulator.rhs == 0,
    {
        SameCurveAccumulation { accumulator: Accumulator { lhs: 0, rhs: 0 } }
    }

    /// Folds `other` in, weighted by a fresh challenge.
    pub fn fold(&mut self, other: &Accumulator, challenge: u64)
        requires
            old(self).accumulator.wf(),
            other.wf(),
            is_scalar(challenge as int),
        ensures
            final(self).accumulator.wf(),
            final(self).accumulator.lhs == add_spec(
                old(self).accumulator.lhs as int,
                mul_spec(challenge as int, other.lhs as int),
            ),
            final(self).accumulator.rhs == add_spec(
                old(self).accumulator.rhs as int,
                mul_spec(challenge as int, other.rhs as int),
            ),
    {
        let l = scalar_mul(challenge, other.lhs);
        let r = scalar_mul(challenge, other.rhs);
        self.accumulator = Accumulator {
            lhs: scalar_add(self.accumulator.lhs, l),
            rhs: scalar_add(self.accumulator.rhs, r),
        };
    }

    /// Folds each accumulator with its own challenge.
    pub fn fold_all(accs: &Vec<Accumulator>, challenges: &Vec<u64>) -> (r: Accumulator)
        requires
            accs.len() == challenges.len(),
            forall|j: int| 0 <= j < accs.len() ==> (#[trigger] accs[j]).wf(),
            forall|j: int| 0 <= j < challenges.len() ==> is_scalar(#[trigger] challenges[j] as int),
        ensures
            r.wf(),
            r.lhs == folded_lhs(accs@, challenges@, accs.len() as int),
            r.rhs == folded_rhs(accs@, challenges@, accs.len() as int),
    {
        let mut acc = SameCurveAccumulation::new();
        let mut i: usize = 0;
        while i < accs.len()
            invariant
                i <= accs.len() == challenges.len(),
                forall|j: int| 0 <= j < accs.len() ==> (#[trigger] accs[j]).wf(),
                forall|j: int| 0 <= j < challenges.len() ==> is_scalar(#[trigger] challenges[j] as int),
                acc.accumulator.wf(),
                acc.accumulator.lhs == folded_lhs(accs@, challenges@, i as int),
                acc.accumulator.rhs == folded_rhs(accs@, challenges@, i as int),
            decreases accs.len() - i,
        {
            acc.fold(&accs[i], challenges[i]);
            i = i + 1;
        }
        acc.accumulator
    }
}

/// Folding two passing checks gives a passing check.
pub proof fn lemma_fold_step(l: int, r: int, l2: int, r2: int, c: int, x2: int)
    requires
        is_scalar(l),
        is_scalar(l2),
        pairing_check(l, r, x2),
        pairing_check(l2, r2, x2),
    ensures
        pairing_check(add_spec(l, mul_spec(c, l2)), add_spec(r, mul_spec(c, r2)), x2),
{
    lemma_mul_one(l);
    lemma_mul_one(l2);
    let nl = add_spec(l, mul_spec(c, l2));
    crate::field::lemma_mod_bound_sum(l + mul_spec(c, l2));
    lemma_mul_one(nl);
    // (r + c r2) x2 = r x2 + (c r2) x2 = l + c (r2 x2) = l + c l2
    lemma_add_mul_distrib(r, mul_spec(c, r2), x2);
    lemma_mul_assoc(c, r2, x2);
}

/// If every accumulator's pairing check holds, so does the check of their
/// fold, whatever the challenges.
pub proof fn lemma_fold_preserves_checks(accs: Seq<Accumulator>, challenges: Seq<u64>, x2: int)
    requires
        accs.len() == challenges.len(),
        forall|j: int| 0 <= j < accs.len() ==> (#[trigger] accs[j]).wf(),
        forall|j: int| 0 <= j < accs.len() ==> (#[trigger] accs[j]).holds(x2),
    ensures
        pairing_check(
            folded_lhs(accs, challenges, accs.len() as int),
            folded_rhs(accs, challenges, accs.len() as int),
            x2,
        ),
{
    lemma_fold_prefix(accs, challenges, x2, accs.len() as int);
}

proof fn lemma_fold_prefix(accs: Seq<Accumulator>, challenges: Seq<u64>, x2: int, i: int)
    requires
        0 <= i <= accs.len() == challenges.len(),
        forall|j: int| 0 <= j < accs.len() ==> (#[trigger] accs[j]).wf(),
        forall|j: int| 0 <= j < accs.len() ==> (#[trigger] accs[j]).holds(x2),
    ensures
        pairing_check(folded_lhs(accs, challenges, i), folded_rhs(accs, challenges, i), x2),
        is_scalar(folded_lhs(accs, challenges, i)),
    decreases i,
{
    if i == 0 {
        assert(0 * x2 == 0);
        assert(mul_spec(0, x2) == 0);
        assert(mul_spec(0, 1) == 0);
    } else {
        lemma_fold_prefix(accs, challenges, x2, i - 1);
        let a = accs[i - 1];
        assert(a.holds(x2));
        lemma_fold_step(
            folded_lhs(accs, challenges, i - 1),
            folded_rhs(accs, challenges, i - 1),
            a.lhs as int,
            a.rhs as int,
            challenges[i - 1] as int,
            x2,
        );
        crate::field::lemma_mod_bound_sum(
            folded_lhs(accs, challenges, i - 1) + mul_spec(challenges[i - 1] as int, a.lhs as int),
        );
    }
}

/// A single accumulator folded with an invertible challenge passes exactly
/// when the accumulator itself passes.
pub proof fn lemma_fold_single(acc: Accumulator, c: int, c_inv: int, x2: int)
    requires
        acc.wf(),
        is_scalar(c),
        is_scalar(c_inv),
        is_inverse(c, c_inv),
    ensures
        pairing_check(
            folded_lhs(seq![acc], seq![c as u64], 1),
            folded_rhs(seq![acc], seq![c as u64], 1),
            x2,
        ) <==> acc.holds(x2),
{
    let s = seq![acc];
    let cs = seq![c as u64];
    assert(folded_lhs(s, cs, 0) == 0);
    assert(folded_rhs(s, cs, 0) == 0);
    let l = acc.lhs as int;
    let r = acc.rhs as int;
    let cl = mul_spec(c, l);
    let cr = mul_spec(c, r);
    crate::field::lemma_mod_bound_sum(c * l);
    crate::field::lemma_mod_bound_sum(c * r);
    vstd::arithmetic::div_mod::lemma_small_mod(cl as nat, crate::field::p() as nat);
    vstd::arithmetic::div_mod::lemma_small_mod(cr as nat, crate::field::p() as nat);
    assert(folded_lhs(s, cs, 1) == cl);
    assert(folded_rhs(s, cs, 1) == cr);
    lemma_mul_one(cl);
    lemma_mul_one(l);
    // (c r) x2 = c (r x2)
    lemma_mul_assoc(c, r, x2);
    if pairing_check(cl, cr, x2) {
        // c l = c (r x2), so l = c_inv c l = c_inv c (r x2) = r x2
        lemma_mul_assoc(c_inv, c, l);
        lemma_mul_assoc(c_inv, c, mul_spec(r, x2));
        lemma_mul_comm(c_inv, c);
        crate::field::lemma_mod_bound_sum(r * x2);
        lemma_mul_one(mul_spec(r, x2));
    }
}

} // verus!
