//! A PLONK proof verifier over KZG commitments, with deferred
//! multi-scalar multiplication and foldable pairing accumulators.
mod accumulator;
mod circom_plonk;
mod cost;
mod domain;
mod error;
mod evaluation;
mod field;
mod msm;
mod plonk_proof;
mod protocol;
mod transcript;

pub use accumulator::{Accumulator, SameCurveAccumulation};
pub use circom_plonk::{
    AccumulationStrategy, CircomPlonkAccumulationScheme, StrategyOutput, VerificationKey,
};
pub use cost::{Cost, CostEstimation};
pub use domain::{powers, Domain};
pub use error::Error;
pub use evaluation::{
    first_lagrange_eval, lagrange_basis_eval, public_input_eval, vanishing_eval,
};
pub use field::{
    batch_invert, invert, pow_constant, scalar_add, scalar_mul, scalar_neg, scalar_sub, MODULUS,
    ROOT_OF_UNITY, ROOT_OF_UNITY_INV, TWO_ADICITY,
};
pub use msm::MSM;
pub use plonk_proof::{Challenges, CircomPlonkProof, PROOF_ELEMENTS};
pub use protocol::{langranges, Protocol};
pub use transcript::{Transcript, SQUEEZE_TAG};
