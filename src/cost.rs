//! Static counts of what a verification costs.
use crate::circom_plonk::{CircomPlonkAccumulationScheme, LHS_TERMS, RHS_TERMS};
use crate::plonk_proof::PROOF_ELEMENTS;
use crate::protocol::Protocol;
use vstd::prelude::*;

verus! {

/// Counts of public inputs, commitments, evaluations and MSM terms.
#[derive(Debug, Clone, PartialEq, Eq, Structural)]
pub struct Cost {
    pub num_instance: usize,
    pub num_commitment: usize,
    pub num_evaluation: usize,
    pub num_msm: usize,
}

impl Cost {
    pub fn new(num_instance: usize, num_commitment: usize, num_evaluation: usize, num_msm: usize) -> (r: Self)
        ensures
            r.num_instance == num_instance,
            r.num_commitment == num_commitment,
            r.num_evaluation == num_evaluation,
            r.num_msm == num_msm,
    {
        Self { num_instance, num_commitment, num_evaluation, num_msm }
    }
}

/// A verification scheme that can state its cost for a protocol.
pub trait CostEstimation {
    fn estimate_cost(protocol: &Protocol) -> (r: Cost);
}

/// The number of opening evaluations in a proof.
pub const NUM_EVALUATIONS: usize = 7;

impl CostEstimation for CircomPlonkAccumulationScheme {
    /// The protocol's public inputs; the proof's commitments; its seven
    /// evaluations; and the terms of both combinations, with the generator.
    fn estimate_cost(protocol: &Protocol) -> (r: Cost) {
        Cost::new(
            protocol.num_statement,
            PROOF_ELEMENTS - NUM_EVALUATIONS,
            NUM_EVALUATIONS,
            LHS_TERMS + 1 + RHS_TERMS,
        )
    }
}

} // verus!
