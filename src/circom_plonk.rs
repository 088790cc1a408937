//! The verification algorithm for PLONK proofs with KZG openings.
//! The identity and the batched opening become two deferred linear
//! combinations, which the accumulation strategy then checks or keeps.
use crate::accumulator::Accumulator;
use crate::domain::{powers, Domain};
use crate::error::Error;
use crate::evaluation::{
    first_lagrange_denominator, first_lagrange_eval, public_input_defined, public_input_eval,
    public_input_spec, vanishing_eval,
};
use crate::field::{
    add_spec, has_inverse, inv_spec, invert, is_scalar, lemma_inv_spec, mul_spec, pow_spec,
    scalar_add, scalar_mul, scalar_neg, scalar_sub, sub_spec, MODULUS, TWO_ADICITY,
};
use crate::msm::{msm_eval, MSM};
use crate::plonk_proof::{elem, proof_read_spec, CircomPlonkProof, PROOF_ELEMENTS};
use crate::transcript::{elements_ok, Transcript};
use vstd::arithmetic::div_mod::lemma_small_mod;
use vstd::arithmetic::power2::{lemma2_to64, lemma_pow2_strictly_increases, pow2};
use vstd::prelude::*;

verus! {

/// The circuit's fixed data: gate and permutation commitments, the SRS
/// point `X2`, the domain, and the domain points `omega^j` and their
/// inverses for each public input.
pub struct VerificationKey {
    pub domain: Domain,
    pub public_inputs_count: usize,
    pub k1: u64,
    pub k2: u64,
    pub qm: u64,
    pub ql: u64,
    pub qr: u64,
    pub qo: u64,
    pub qc: u64,
    pub s1: u64,
    pub s2: u64,
    pub s3: u64,
    pub x2: u64,
    pub omegas: Vec<u64>,
    pub omegas_inv: Vec<u64>,
}

impl VerificationKey {
    pub open spec fn wf(&self) -> bool {
        &&& self.domain.wf()
        &&& is_scalar(self.k1 as int) && is_scalar(self.k2 as int)
        &&& is_scalar(self.qm as int) && is_scalar(self.ql as int) && is_scalar(self.qr as int)
        &&& is_scalar(self.qo as int) && is_scalar(self.qc as int)
        &&& is_scalar(self.s1 as int) && is_scalar(self.s2 as int) && is_scalar(self.s3 as int)
        &&& is_scalar(self.x2 as int)
        &&& self.omegas.len() == self.public_inputs_count
        &&& self.omegas_inv.len() == self.public_inputs_count
        &&& forall|j: int|
            0 <= j < self.omegas.len() ==> #[trigger] self.omegas[j] as int == pow_spec(
                self.domain.omega as int,
                j as nat,
            )
        &&& forall|j: int|
            0 <= j < self.omegas_inv.len() ==> #[trigger] self.omegas_inv[j] as int == pow_spec(
                self.domain.omega_inv as int,
                j as nat,
            )
    }

    /// A key for the domain of size `2^k`, with its tables of domain points.
    pub fn new(
        k: u32,
        public_inputs_count: usize,
        k1: u64,
        k2: u64,
        qm: u64,
        ql: u64,
        qr: u64,
        qo: u64,
        qc: u64,
        s1: u64,
        s2: u64,
        s3: u64,
        x2: u64,
    ) -> (r: VerificationKey)
        requires
            k < TWO_ADICITY,
            k1 < MODULUS && k2 < MODULUS && qm < MODULUS && ql < MODULUS && qr < MODULUS,
            qo < MODULUS && qc < MODULUS && s1 < MODULUS && s2 < MODULUS && s3 < MODULUS,
            x2 < MODULUS,
        ensures
            r.wf(),
            r.domain.k == k,
            r.public_inputs_count == public_inputs_count,
            r.k1 == k1 && r.k2 == k2 && r.qm == qm && r.ql == ql && r.qr == qr && r.qo == qo,
            r.qc == qc && r.s1 == s1 && r.s2 == s2 && r.s3 == s3 && r.x2 == x2,
    {
        let domain = Domain::new(k);
        let omegas = powers(domain.omega, public_inputs_count);
        let omegas_inv = powers(domain.omega_inv, public_inputs_count);
        VerificationKey {
            domain,
            public_inputs_count,
            k1,
            k2,
            qm,
            ql,
            qr,
            qo,
            qc,
            s1,
            s2,
            s3,
            x2,
            omegas,
            omegas_inv,
        }
    }
}

impl VerificationKey {
    /// Reads a key from its encoding: `k`, the number of public inputs,
    /// `k1, k2, Qm, Ql, Qr, Qo, Qc, S1, S2, S3, X2`, each as eight
    /// little-endian bytes. Fails with `TranscriptError` where an element is
    /// missing or not canonical, `k` is not below the two-adicity, or there
    /// are more public inputs than domain points.
    pub fn read(bytes: &Vec<u8>) -> (r: Result<VerificationKey, Error>)
        ensures
            r.is_ok() <==> key_encoding_ok(bytes@),
            r.is_ok() ==> {
                let vk = r.unwrap();
                &&& vk.wf()
                &&& vk.domain.k == elem(bytes@, 0, 0)
                &&& vk.public_inputs_count == elem(bytes@, 0, 1)
                &&& vk.k1 == elem(bytes@, 0, 2) && vk.k2 == elem(bytes@, 0, 3)
                &&& vk.qm == elem(bytes@, 0, 4) && vk.ql == elem(bytes@, 0, 5)
                &&& vk.qr == elem(bytes@, 0, 6) && vk.qo == elem(bytes@, 0, 7)
                &&& vk.qc == elem(bytes@, 0, 8) && vk.s1 == elem(bytes@, 0, 9)
                &&& vk.s2 == elem(bytes@, 0, 10) && vk.s3 == elem(bytes@, 0, 11)
                &&& vk.x2 == elem(bytes@, 0, 12)
            },
            r.is_err() ==> r == Err::<VerificationKey, Error>(Error::TranscriptError),
    {
        let mut t = Transcript::new(bytes.clone());
        let e = t.read_n_scalars(KEY_ELEMENTS)?;
        assert(forall|j: int| 0 <= j < KEY_ELEMENTS ==> #[trigger] e[j] as int == elem(bytes@, 0, j));
        if e[0] >= TWO_ADICITY as u64 {
            return Err(Error::TranscriptError);
        }
        let k = e[0] as u32;
        proof {
            lemma2_to64();
            if k < 32 {
                lemma_pow2_strictly_increases(k as nat, 32);
            }
        }
        let size: u64 = 1u64 << k;
        assert(size == pow2(k as nat)) by {
            vstd::bits::lemma_u64_shl_is_mul(1, k as u64);
            vstd::arithmetic::power2::lemma_pow2(k as nat);
            vstd::arithmetic::power::lemma_pow1(2);
        }
        if e[1] > size {
            return Err(Error::TranscriptError);
        }
        Ok(VerificationKey::new(
            k,
            e[1] as usize,
            e[2],
            e[3],
            e[4],
            e[5],
            e[6],
            e[7],
            e[8],
            e[9],
            e[10],
            e[11],
            e[12],
        ))
    }
}

/// How many elements encode a verification key.
pub const KEY_ELEMENTS: usize = 13;

/// `bytes` encode a verification key.
pub open spec fn key_encoding_ok(bytes: Seq<u8>) -> bool {
    &&& elements_ok(bytes, 0, KEY_ELEMENTS as int)
    &&& elem(bytes, 0, 0) < TWO_ADICITY
    &&& elem(bytes, 0, 1) <= pow2(elem(bytes, 0, 0) as nat)
}

/// What the verification hands back: a verdict, or the deferred check.
#[derive(Debug, PartialEq, Eq, Structural)]
pub enum StrategyOutput {
    Verdict(bool),
    Deferred(Accumulator),
}

/// Whether to decide now or to defer the pairing check for folding.
#[derive(Clone, Copy, Debug, PartialEq, Eq, Structural)]
pub enum AccumulationStrategy {
    /// Evaluate both combinations and perform the pairing check.
    Direct,
    /// Evaluate both combinations into an accumulator, unchecked.
    Accumulating,
}

/// The number of terms in each deferred combination.
pub const LHS_TERMS: usize = 17;

pub const RHS_TERMS: usize = 2;

/// `n` as a scalar.
pub open spec fn n_spec(vk: VerificationKey) -> int {
    vk.domain.n as int
}

/// `xi^n`.
pub open spec fn xin_spec(vk: VerificationKey, p: CircomPlonkProof) -> int {
    pow_spec(p.challenges.xi as int, vk.domain.n as nat)
}

/// `z_H(xi) = xi^n - 1`.
pub open spec fn zh_spec(vk: VerificationKey, p: CircomPlonkProof) -> int {
    sub_spec(xin_spec(vk, p), 1)
}

/// `L0(xi)`.
pub open spec fn l1_spec(vk: VerificationKey, p: CircomPlonkProof) -> int {
    mul_spec(
        zh_spec(vk, p),
        inv_spec(first_lagrange_denominator(n_spec(vk), p.challenges.xi as int)),
    )
}

/// `PI(xi)`.
pub open spec fn pi_spec(vk: VerificationKey, p: CircomPlonkProof) -> int {
    public_input_spec(
        zh_spec(vk, p),
        n_spec(vk),
        p.challenges.xi as int,
        vk.omegas_inv@,
        p.public_signals@,
    )
}

/// The inverses that the identity needs exist.
pub open spec fn proof_defined(vk: VerificationKey, p: CircomPlonkProof) -> bool {
    &&& has_inverse(first_lagrange_denominator(n_spec(vk), p.challenges.xi as int))
    &&& public_input_defined(
        n_spec(vk),
        p.challenges.xi as int,
        vk.omegas_inv@,
        p.public_signals.len() as int,
    )
    &&& has_inverse(zh_spec(vk, p))
}

/// `v^i`.
pub open spec fn v_pow(p: CircomPlonkProof, i: nat) -> int {
    pow_spec(p.challenges.v as int, i)
}

/// `(a + beta s1 + gamma)(b + beta s2 + gamma)`.
pub open spec fn perm_ab_spec(p: CircomPlonkProof) -> int {
    let beta = p.challenges.beta as int;
    let gamma = p.challenges.gamma as int;
    mul_spec(
        add_spec(add_spec(p.eval_a as int, mul_spec(beta, p.eval_s1 as int)), gamma),
        add_spec(add_spec(p.eval_b as int, mul_spec(beta, p.eval_s2 as int)), gamma),
    )
}

/// The quotient evaluation
/// `t = (r - PI - perm_ab (c + gamma) zw alpha - L0 alpha^2) / z_H`.
#[verifier::opaque]
pub open spec fn t_spec(vk: VerificationKey, p: CircomPlonkProof) -> int {
    let alpha = p.challenges.alpha as int;
    let perm = mul_spec(
        mul_spec(
            mul_spec(perm_ab_spec(p), add_spec(p.eval_c as int, p.challenges.gamma as int)),
            p.eval_zw as int,
        ),
        alpha,
    );
    let num = sub_spec(
        sub_spec(sub_spec(p.eval_r as int, pi_spec(vk, p)), perm),
        mul_spec(l1_spec(vk, p), mul_spec(alpha, alpha)),
    );
    mul_spec(num, inv_spec(zh_spec(vk, p)))
}

/// The scalar of `Z`:
/// `(a + beta xi + gamma)(b + beta k1 xi + gamma)(c + beta k2 xi + gamma) alpha v + L0 alpha^2 v + u`.
#[verifier::opaque]
pub open spec fn z_scalar_spec(vk: VerificationKey, p: CircomPlonkProof) -> int {
    let ch = p.challenges;
    let betaxi = mul_spec(ch.beta as int, ch.xi as int);
    let za = add_spec(add_spec(p.eval_a as int, betaxi), ch.gamma as int);
    let zb = add_spec(add_spec(p.eval_b as int, mul_spec(betaxi, vk.k1 as int)), ch.gamma as int);
    let zc = add_spec(add_spec(p.eval_c as int, mul_spec(betaxi, vk.k2 as int)), ch.gamma as int);
    add_spec(
        add_spec(
            mul_spec(mul_spec(mul_spec(mul_spec(za, zb), zc), ch.alpha as int), ch.v as int),
            mul_spec(mul_spec(l1_spec(vk, p), mul_spec(ch.alpha as int, ch.alpha as int)), ch.v as int),
        ),
        ch.u as int,
    )
}

/// The scalar of `S3`: `-perm_ab alpha v beta zw`.
#[verifier::opaque]
pub open spec fn s3_scalar_spec(p: CircomPlonkProof) -> int {
    let ch = p.challenges;
    sub_spec(
        0,
        mul_spec(
            mul_spec(mul_spec(mul_spec(perm_ab_spec(p), ch.alpha as int), ch.v as int), ch.beta as int),
            p.eval_zw as int,
        ),
    )
}

/// The multiple of the generator in the batched opening:
/// `t + v r + v^2 a + v^3 b + v^4 c + v^5 s1 + v^6 s2 + u zw`.
#[verifier::opaque]
pub open spec fn e_spec(vk: VerificationKey, p: CircomPlonkProof) -> int {
    add_spec(
        add_spec(
            add_spec(
                add_spec(
                    add_spec(
                        add_spec(
                            add_spec(t_spec(vk, p), mul_spec(v_pow(p, 1), p.eval_r as int)),
                            mul_spec(v_pow(p, 2), p.eval_a as int),
                        ),
                        mul_spec(v_pow(p, 3), p.eval_b as int),
                    ),
                    mul_spec(v_pow(p, 4), p.eval_c as int),
                ),
                mul_spec(v_pow(p, 5), p.eval_s1 as int),
            ),
            mul_spec(v_pow(p, 6), p.eval_s2 as int),
        ),
        mul_spec(p.challenges.u as int, p.eval_zw as int),
    )
}

/// The scalars of the left-hand combination
/// `xi Wxi + u xi omega Wxiw + F - E`, with
/// `F = T1 + xi^n T2 + xi^2n T3 + D + v^2 A + v^3 B + v^4 C + v^5 S1 + v^6 S2`
/// and `D = ab v Qm + a v Ql + b v Qr + c v Qo + v Qc + z_scalar Z + s3_scalar S3`.
pub open spec fn lhs_scalars(vk: VerificationKey, p: CircomPlonkProof) -> Seq<u64> {
    let ch = p.challenges;
    let v = ch.v as int;
    let xin = xin_spec(vk, p);
    seq![
        ch.xi,
        mul_spec(mul_spec(ch.u as int, ch.xi as int), vk.domain.omega as int) as u64,
        1,
        xin as u64,
        mul_spec(xin, xin) as u64,
        mul_spec(mul_spec(p.eval_a as int, p.eval_b as int), v) as u64,
        mul_spec(p.eval_a as int, v) as u64,
        mul_spec(p.eval_b as int, v) as u64,
        mul_spec(p.eval_c as int, v) as u64,
        ch.v,
        z_scalar_spec(vk, p) as u64,
        s3_scalar_spec(p) as u64,
        v_pow(p, 2) as u64,
        v_pow(p, 3) as u64,
        v_pow(p, 4) as u64,
        v_pow(p, 5) as u64,
        v_pow(p, 6) as u64,
    ]
}

/// The points of the left-hand combination, in the order of its scalars.
pub open spec fn lhs_bases(vk: VerificationKey, p: CircomPlonkProof) -> Seq<u64> {
    seq![
        p.wxi, p.wxiw, p.t1, p.t2, p.t3, vk.qm, vk.ql, vk.qr, vk.qo, vk.qc, p.z, vk.s3, p.a, p.b, p.c,
        vk.s1, vk.s2,
    ]
}

/// The left-hand side of the pairing check.
pub open spec fn lhs_spec(vk: VerificationKey, p: CircomPlonkProof) -> int {
    msm_eval(sub_spec(0, e_spec(vk, p)), lhs_scalars(vk, p), lhs_bases(vk, p))
}

/// The right-hand side of the pairing check, `Wxi + u Wxiw`.
pub open spec fn rhs_spec(p: CircomPlonkProof) -> int {
    msm_eval(0, seq![1u64, p.challenges.u], seq![p.wxi, p.wxiw])
}

/// The accumulator of a proof.
pub open spec fn accumulator_spec(vk: VerificationKey, p: CircomPlonkProof) -> Accumulator {
    Accumulator { lhs: lhs_spec(vk, p) as u64, rhs: rhs_spec(p) as u64 }
}

/// What the strategy makes of a proof's accumulator.
pub open spec fn output_spec(
    vk: VerificationKey,
    p: CircomPlonkProof,
    strategy: AccumulationStrategy,
) -> StrategyOutput {
    let acc = accumulator_spec(vk, p);
    match strategy {
        AccumulationStrategy::Direct => StrategyOutput::Verdict(acc.holds(vk.x2 as int)),
        AccumulationStrategy::Accumulating => StrategyOutput::Deferred(acc),
    }
}

/// The verification scheme for PLONK proofs in the Circom wire format.
#[derive(Default)]
pub struct CircomPlonkAccumulationScheme;

impl CircomPlonkAccumulationScheme {
    /// Verifies, or accumulates, a proof read from `transcript` against
    /// `vk` and `public_signals`. Fails with `ProtocolMismatch` when the
    /// signals do not fit the key, with `TranscriptError` when the proof is
    /// malformed, and with `ArithmeticError` when an inverse that the
    /// identity needs does not exist.
    pub fn accumulate(
        vk: &VerificationKey,
        public_signals: &Vec<u64>,
        transcript: &mut Transcript,
        strategy: AccumulationStrategy,
    ) -> (r: Result<StrategyOutput, Error>)
        requires
            vk.wf(),
        ensures
            final(transcript).data@ == old(transcript).data@,
            signals_fit(vk, public_signals@) ==> r != Err::<StrategyOutput, Error>(Error::ProtocolMismatch),
            !signals_fit(vk, public_signals@) ==> r == Err::<StrategyOutput, Error>(Error::ProtocolMismatch),
            signals_fit(vk, public_signals@) ==> (r == Err::<StrategyOutput, Error>(Error::TranscriptError)
                <==> !elements_ok(
                old(transcript).data@,
                old(transcript).pos as int,
                PROOF_ELEMENTS as int,
            )),
            r.is_ok() || r == Err::<StrategyOutput, Error>(Error::ArithmeticError) ==> exists|
                p: CircomPlonkProof,
            |
                #![trigger proof_defined(*vk, p)]
                proof_read_spec(
                    p,
                    old(transcript).state@,
                    public_signals@,
                    old(transcript).data@,
                    old(transcript).pos as int,
                ) && p.wf() && (r.is_ok() <==> proof_defined(*vk, p)) && (r.is_ok() ==> r.unwrap()
                    == output_spec(*vk, p, strategy)),
    {
        // the signals must match the key's tables
        if public_signals.len() != vk.public_inputs_count {
            return Err(Error::ProtocolMismatch);
        }
        let mut i: usize = 0;
        while i < public_signals.len()
            invariant
                i <= public_signals.len(),
                forall|j: int| 0 <= j < i ==> is_scalar(#[trigger] public_signals[j] as int),
            decreases public_signals.len() - i,
        {
            if public_signals[i] >= MODULUS {
                return Err(Error::ProtocolMismatch);
            }
            i = i + 1;
        }
        let proof = CircomPlonkProof::read(public_signals, transcript)?;
        let r = Self::accumulate_proof(vk, &proof, strategy);
        assert(proof_defined(*vk, proof) ==> r.is_ok());
        r
    }

    /// The algorithm on a proof already read: `Ok` exactly when the needed
    /// inverses exist, with what the strategy makes of the accumulator.
    pub fn accumulate_proof(
        vk: &VerificationKey,
        proof: &CircomPlonkProof,
        strategy: AccumulationStrategy,
    ) -> (r: Result<StrategyOutput, Error>)
        requires
            vk.wf(),
            proof.wf(),
            proof.public_signals.len() == vk.public_inputs_count,
        ensures
            r.is_ok() <==> proof_defined(*vk, *proof),
            r.is_ok() ==> r.unwrap() == output_spec(*vk, *proof, strategy),
            r.is_err() ==> r == Err::<StrategyOutput, Error>(Error::ArithmeticError),
    {
        let xi = proof.challenges.xi;
        proof {
            lemma2_to64();
            if vk.domain.k < 32 {
                lemma_pow2_strictly_increases(vk.domain.k as nat, 32);
            }
        }
        let n = vk.domain.n as u64;
        // z_H(xi) = xi^n - 1
        let xin = crate::field::pow_constant(xi, n);
        let zh = vanishing_eval(xi, n);
        // L0(xi) = z_H(xi) / (n (xi - 1))
        let l1 = match first_lagrange_eval(zh, n, xi) {
            Some(x) => x,
            None => {
                return Err(Error::ArithmeticError);
            },
        };
        // PI(xi), barycentric
        let pi = match public_input_eval(zh, n, xi, &vk.omegas_inv, &proof.public_signals) {
            Some(x) => x,
            None => {
                return Err(Error::ArithmeticError);
            },
        };
        let zh_inv = match invert(zh) {
            Some(x) => x,
            None => {
                return Err(Error::ArithmeticError);
            },
        };
        proof {
            lemma_inv_spec(zh as int, zh_inv as int);
        }
        let t = quotient_eval(vk, proof, l1, pi, zh_inv);
        let lhs = lhs_msm(vk, proof, xin, l1, t);
        let rhs = rhs_msm(proof);
        let acc = Accumulator { lhs: lhs.evaluate(), rhs: rhs.evaluate() };
        match strategy {
            AccumulationStrategy::Direct => Ok(StrategyOutput::Verdict(acc.check(vk.x2))),
            AccumulationStrategy::Accumulating => Ok(StrategyOutput::Deferred(acc)),
        }
    }
}

/// `t`, from `L0(xi)`, `PI(xi)` and the inverse of `z_H(xi)`.
fn quotient_eval(vk: &VerificationKey, proof: &CircomPlonkProof, l1: u64, pi: u64, zh_inv: u64) -> (r: u64)
    requires
        vk.wf(),
        proof.wf(),
        l1 < MODULUS && l1 as int == l1_spec(*vk, *proof),
        pi < MODULUS && pi as int == pi_spec(*vk, *proof),
        zh_inv < MODULUS && zh_inv as int == inv_spec(zh_spec(*vk, *proof)),
    ensures
        r as int == t_spec(*vk, *proof),
        r < MODULUS,
{
    let ch = &proof.challenges;
    let (beta, gamma, alpha) = (ch.beta, ch.gamma, ch.alpha);
    let alpha2 = scalar_mul(alpha, alpha);
    let pa = scalar_add(scalar_add(proof.eval_a, scalar_mul(beta, proof.eval_s1)), gamma);
    let pb = scalar_add(scalar_add(proof.eval_b, scalar_mul(beta, proof.eval_s2)), gamma);
    let pab = scalar_mul(pa, pb);
    let perm = scalar_mul(scalar_mul(scalar_mul(pab, scalar_add(proof.eval_c, gamma)), proof.eval_zw), alpha);
    let t_num = scalar_sub(scalar_sub(scalar_sub(proof.eval_r, pi), perm), scalar_mul(l1, alpha2));
    proof {
        reveal(t_spec);
    }
    scalar_mul(t_num, zh_inv)
}

/// The scalar of `Z`.
fn z_scalar(vk: &VerificationKey, proof: &CircomPlonkProof, l1: u64) -> (r: u64)
    requires
        vk.wf(),
        proof.wf(),
        l1 < MODULUS && l1 as int == l1_spec(*vk, *proof),
    ensures
        r as int == z_scalar_spec(*vk, *proof),
        r < MODULUS,
{
    let ch = &proof.challenges;
    let (gamma, alpha, v) = (ch.gamma, ch.alpha, ch.v);
    let betaxi = scalar_mul(ch.beta, ch.xi);
    let za = scalar_add(scalar_add(proof.eval_a, betaxi), gamma);
    let zb = scalar_add(scalar_add(proof.eval_b, scalar_mul(betaxi, vk.k1)), gamma);
    let zc = scalar_add(scalar_add(proof.eval_c, scalar_mul(betaxi, vk.k2)), gamma);
    proof {
        reveal(z_scalar_spec);
    }
    scalar_add(
        scalar_add(
            scalar_mul(scalar_mul(scalar_mul(scalar_mul(za, zb), zc), alpha), v),
            scalar_mul(scalar_mul(l1, scalar_mul(alpha, alpha)), v),
        ),
        ch.u,
    )
}

/// The scalar of `S3`.
fn s3_scalar(proof: &CircomPlonkProof) -> (r: u64)
    requires
        proof.wf(),
    ensures
        r as int == s3_scalar_spec(*proof),
        r < MODULUS,
{
    let ch = &proof.challenges;
    let beta = ch.beta;
    let gamma = ch.gamma;
    let pa = scalar_add(scalar_add(proof.eval_a, scalar_mul(beta, proof.eval_s1)), gamma);
    let pb = scalar_add(scalar_add(proof.eval_b, scalar_mul(beta, proof.eval_s2)), gamma);
    let pab = scalar_mul(pa, pb);
    proof {
        reveal(s3_scalar_spec);
    }
    scalar_neg(scalar_mul(scalar_mul(scalar_mul(scalar_mul(pab, ch.alpha), ch.v), beta), proof.eval_zw))
}

/// The multiple of the generator, `E`.
fn opening_eval(vk: &VerificationKey, proof: &CircomPlonkProof, t: u64) -> (r: u64)
    requires
        vk.wf(),
        proof.wf(),
        t < MODULUS && t as int == t_spec(*vk, *proof),
    ensures
        r as int == e_spec(*vk, *proof),
        r < MODULUS,
{
    let v = proof.challenges.v;
    let v2 = scalar_mul(v, v);
    let v3 = scalar_mul(v2, v);
    let v4 = scalar_mul(v3, v);
    let v5 = scalar_mul(v4, v);
    let v6 = scalar_mul(v5, v);
    proof {
        lemma_v_pows(v as int);
        reveal(e_spec);
    }
    scalar_add(
        scalar_add(
            scalar_add(
                scalar_add(
                    scalar_add(
                        scalar_add(scalar_add(t, scalar_mul(v, proof.eval_r)), scalar_mul(v2, proof.eval_a)),
                        scalar_mul(v3, proof.eval_b),
                    ),
                    scalar_mul(v4, proof.eval_c),
                ),
                scalar_mul(v5, proof.eval_s1),
            ),
            scalar_mul(v6, proof.eval_s2),
        ),
        scalar_mul(proof.challenges.u, proof.eval_zw),
    )
}

/// The left-hand combination, unevaluated.
#[verifier::rlimit(50)]
fn lhs_msm(vk: &VerificationKey, proof: &CircomPlonkProof, xin: u64, l1: u64, t: u64) -> (r: MSM)
    requires
        vk.wf(),
        proof.wf(),
        xin < MODULUS && xin as int == xin_spec(*vk, *proof),
        l1 < MODULUS && l1 as int == l1_spec(*vk, *proof),
        t < MODULUS && t as int == t_spec(*vk, *proof),
    ensures
        r.wf(),
        r.value() == lhs_spec(*vk, *proof),
{
    let ch = &proof.challenges;
    let (a, b, c, v) = (proof.eval_a, proof.eval_b, proof.eval_c, ch.v);
    let z_s = z_scalar(vk, proof, l1);
    let s3_s = s3_scalar(proof);
    let e = opening_eval(vk, proof, t);
    let v2 = scalar_mul(v, v);
    let v3 = scalar_mul(v2, v);
    let v4 = scalar_mul(v3, v);
    let v5 = scalar_mul(v4, v);
    let v6 = scalar_mul(v5, v);
    proof {
        lemma_v_pows(v as int);
    }
    let mut lhs = MSM::new();
    lhs.add_term(ch.xi, proof.wxi);
    lhs.add_term(scalar_mul(scalar_mul(ch.u, ch.xi), vk.domain.omega), proof.wxiw);
    lhs.add_term(1, proof.t1);
    lhs.add_term(xin, proof.t2);
    lhs.add_term(scalar_mul(xin, xin), proof.t3);
    lhs.add_term(scalar_mul(scalar_mul(a, b), v), vk.qm);
    lhs.add_term(scalar_mul(a, v), vk.ql);
    lhs.add_term(scalar_mul(b, v), vk.qr);
    lhs.add_term(scalar_mul(c, v), vk.qo);
    lhs.add_term(v, vk.qc);
    lhs.add_term(z_s, proof.z);
    lhs.add_term(s3_s, vk.s3);
    lhs.add_term(v2, proof.a);
    lhs.add_term(v3, proof.b);
    lhs.add_term(v4, proof.c);
    lhs.add_term(v5, vk.s1);
    lhs.add_term(v6, vk.s2);
    lhs.add_constant(scalar_neg(e));
    proof {
        lemma_small_mod(sub_spec(0, e as int) as nat, crate::field::p() as nat);
        assert(lhs.scalars@ =~= lhs_scalars(*vk, *proof));
        assert(lhs.bases@ =~= lhs_bases(*vk, *proof));
    }
    lhs
}

/// The right-hand combination, `Wxi + u Wxiw`, unevaluated.
fn rhs_msm(proof: &CircomPlonkProof) -> (r: MSM)
    requires
        proof.wf(),
    ensures
        r.wf(),
        r.value() == rhs_spec(*proof),
{
    let mut rhs = MSM::new();
    rhs.add_term(1, proof.wxi);
    rhs.add_term(proof.challenges.u, proof.wxiw);
    proof {
        assert(rhs.scalars@ =~= seq![1u64, proof.challenges.u]);
        assert(rhs.bases@ =~= seq![proof.wxi, proof.wxiw]);
    }
    rhs
}

/// Reading the same bytes after the same absorbed state gives the same
/// challenges and the same result, whatever the strategy.
pub proof fn lemma_replay_deterministic(
    vk: VerificationKey,
    p1: CircomPlonkProof,
    p2: CircomPlonkProof,
    st: Seq<u8>,
    signals: Seq<u64>,
    data: Seq<u8>,
    pos: int,
    strategy: AccumulationStrategy,
)
    requires
        proof_read_spec(p1, st, signals, data, pos),
        proof_read_spec(p2, st, signals, data, pos),
    ensures
        p1.challenges == p2.challenges,
        proof_defined(vk, p1) == proof_defined(vk, p2),
        output_spec(vk, p1, strategy) == output_spec(vk, p2, strategy),
{
    reveal(t_spec);
    reveal(z_scalar_spec);
    reveal(s3_scalar_spec);
    reveal(e_spec);
    assert(lhs_scalars(vk, p1) =~= lhs_scalars(vk, p2));
    assert(lhs_bases(vk, p1) =~= lhs_bases(vk, p2));
}

/// The signals have the length that the key expects and are canonical.
pub open spec fn signals_fit(vk: &VerificationKey, signals: Seq<u64>) -> bool {
    &&& signals.len() == vk.public_inputs_count
    &&& forall|j: int| 0 <= j < signals.len() ==> is_scalar(#[trigger] signals[j] as int)
}

proof fn lemma_v_pows(v: int)
    requires
        is_scalar(v),
    ensures
        pow_spec(v, 1) == v,
        pow_spec(v, 2) == mul_spec(v, v),
        pow_spec(v, 3) == mul_spec(mul_spec(v, v), v),
        pow_spec(v, 4) == mul_spec(mul_spec(mul_spec(v, v), v), v),
        pow_spec(v, 5) == mul_spec(mul_spec(mul_spec(mul_spec(v, v), v), v), v),
        pow_spec(v, 6) == mul_spec(mul_spec(mul_spec(mul_spec(mul_spec(v, v), v), v), v), v),
{
    crate::field::lemma_mul_one(v);
    assert(pow_spec(v, 1) == mul_spec(v, pow_spec(v, 0)));
    crate::field::lemma_mul_comm(v, v);
    assert(pow_spec(v, 2) == mul_spec(v, pow_spec(v, 1)));
    crate::field::lemma_mul_comm(v, pow_spec(v, 2));
    assert(pow_spec(v, 3) == mul_spec(v, pow_spec(v, 2)));
    crate::field::lemma_mul_comm(v, pow_spec(v, 3));
    assert(pow_spec(v, 4) == mul_spec(v, pow_spec(v, 3)));
    crate::field::lemma_mul_comm(v, pow_spec(v, 4));
    assert(pow_spec(v, 5) == mul_spec(v, pow_spec(v, 4)));
    crate::field::lemma_mul_comm(v, pow_spec(v, 5));
    assert(pow_spec(v, 6) == mul_spec(v, pow_spec(v, 5)));
}

} // verus!
