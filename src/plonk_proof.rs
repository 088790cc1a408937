//! The proof and the fixed order in which it is read from the transcript:
//! public signals, `A, B, C`, beta, gamma, `Z`, alpha, `T1, T2, T3`, xi,
//! seven evaluations, v, `Wxi, Wxiw`, u.
use crate::error::Error;
use crate::field::{is_scalar, p};
use crate::transcript::{
    challenge_spec, elements_ok, le_bytes, le_u64_at, squeeze_digest, Transcript,
};
use vstd::prelude::*;

verus! {

/// The challenges, in the order in which they are squeezed.
pub struct Challenges {
    pub beta: u64,
    pub gamma: u64,
    pub alpha: u64,
    pub xi: u64,
    pub v: u64,
    pub u: u64,
}

/// A proof: nine commitments, seven opening evaluations, the public
/// signals, and the challenges derived while reading it. Points are held by
/// their discrete logarithm with respect to the group generator.
pub struct CircomPlonkProof {
    pub public_signals: Vec<u64>,
    pub a: u64,
    pub b: u64,
    pub c: u64,
    pub z: u64,
    pub t1: u64,
    pub t2: u64,
    pub t3: u64,
    pub wxi: u64,
    pub wxiw: u64,
    pub eval_a: u64,
    pub eval_b: u64,
    pub eval_c: u64,
    pub eval_s1: u64,
    pub eval_s2: u64,
    pub eval_zw: u64,
    pub eval_r: u64,
    pub challenges: Challenges,
}

impl CircomPlonkProof {
    /// Every element is a canonical scalar.
    pub open spec fn wf(&self) -> bool {
        &&& forall|j: int| 0 <= j < self.public_signals.len() ==> is_scalar(#[trigger] self.public_signals[j] as int)
        &&& is_scalar(self.a as int) && is_scalar(self.b as int) && is_scalar(self.c as int)
        &&& is_scalar(self.z as int) && is_scalar(self.t1 as int) && is_scalar(self.t2 as int)
        &&& is_scalar(self.t3 as int) && is_scalar(self.wxi as int) && is_scalar(self.wxiw as int)
        &&& is_scalar(self.eval_a as int) && is_scalar(self.eval_b as int) && is_scalar(self.eval_c as int)
        &&& is_scalar(self.eval_s1 as int) && is_scalar(self.eval_s2 as int)
        &&& is_scalar(self.eval_zw as int) && is_scalar(self.eval_r as int)
        &&& is_scalar(self.challenges.beta as int) && is_scalar(self.challenges.gamma as int)
        &&& is_scalar(self.challenges.alpha as int) && is_scalar(self.challenges.xi as int)
        &&& is_scalar(self.challenges.v as int) && is_scalar(self.challenges.u as int)
    }
}

/// How many elements a proof occupies in the transcript.
pub const PROOF_ELEMENTS: usize = 16;

/// The `j`-th element from `pos`.
pub open spec fn elem(data: Seq<u8>, pos: int, j: int) -> int {
    le_u64_at(data, pos + 8 * j)
}

/// The bytes of elements `from..to` from `pos`.
pub open spec fn chunk(data: Seq<u8>, pos: int, from: int, to: int) -> Seq<u8> {
    data.subrange(pos + 8 * from, pos + 8 * to)
}

/// `state` with each signal absorbed in turn.
pub open spec fn absorb_all(state: Seq<u8>, signals: Seq<u64>) -> Seq<u8>
    decreases signals.len(),
{
    if signals.len() == 0 {
        state
    } else {
        absorb_all(state, signals.drop_last()) + le_bytes(signals.last())
    }
}

/// The state squeezed for beta.
pub open spec fn beta_state(st: Seq<u8>, signals: Seq<u64>, data: Seq<u8>, pos: int) -> Seq<u8> {
    absorb_all(st, signals) + chunk(data, pos, 0, 3)
}

/// The state squeezed for gamma.
pub open spec fn gamma_state(st: Seq<u8>, signals: Seq<u64>, data: Seq<u8>, pos: int) -> Seq<u8> {
    let s = beta_state(st, signals, data, pos);
    squeeze_digest(s) + le_bytes(challenge_spec(s) as u64)
}

/// The state squeezed for alpha.
pub open spec fn alpha_state(st: Seq<u8>, signals: Seq<u64>, data: Seq<u8>, pos: int) -> Seq<u8> {
    squeeze_digest(gamma_state(st, signals, data, pos)) + chunk(data, pos, 3, 4)
}

/// The state squeezed for xi.
pub open spec fn xi_state(st: Seq<u8>, signals: Seq<u64>, data: Seq<u8>, pos: int) -> Seq<u8> {
    squeeze_digest(alpha_state(st, signals, data, pos)) + chunk(data, pos, 4, 7)
}

/// The state squeezed for v.
pub open spec fn v_state(st: Seq<u8>, signals: Seq<u64>, data: Seq<u8>, pos: int) -> Seq<u8> {
    squeeze_digest(xi_state(st, signals, data, pos)) + chunk(data, pos, 7, 14)
}

/// The state squeezed for u.
pub open spec fn u_state(st: Seq<u8>, signals: Seq<u64>, data: Seq<u8>, pos: int) -> Seq<u8> {
    squeeze_digest(v_state(st, signals, data, pos)) + chunk(data, pos, 14, 16)
}

/// What reading a proof from `data` at `pos`, after `st` was absorbed,
/// yields.
pub open spec fn proof_read_spec(
    p: CircomPlonkProof,
    st: Seq<u8>,
    signals: Seq<u64>,
    data: Seq<u8>,
    pos: int,
) -> bool {
    &&& p.public_signals@ == signals
    &&& p.a == elem(data, pos, 0)
    &&& p.b == elem(data, pos, 1)
    &&& p.c == elem(data, pos, 2)
    &&& p.z == elem(data, pos, 3)
    &&& p.t1 == elem(data, pos, 4)
    &&& p.t2 == elem(data, pos, 5)
    &&& p.t3 == elem(data, pos, 6)
    &&& p.eval_a == elem(data, pos, 7)
    &&& p.eval_b == elem(data, pos, 8)
    &&& p.eval_c == elem(data, pos, 9)
    &&& p.eval_s1 == elem(data, pos, 10)
    &&& p.eval_s2 == elem(data, pos, 11)
    &&& p.eval_zw == elem(data, pos, 12)
    &&& p.eval_r == elem(data, pos, 13)
    &&& p.wxi == elem(data, pos, 14)
    &&& p.wxiw == elem(data, pos, 15)
    &&& p.challenges.beta == challenge_spec(beta_state(st, signals, data, pos))
    &&& p.challenges.gamma == challenge_spec(gamma_state(st, signals, data, pos))
    &&& p.challenges.alpha == challenge_spec(alpha_state(st, signals, data, pos))
    &&& p.challenges.xi == challenge_spec(xi_state(st, signals, data, pos))
    &&& p.challenges.v == challenge_spec(v_state(st, signals, data, pos))
    &&& p.challenges.u == challenge_spec(u_state(st, signals, data, pos))
}

/// Elements from `pos` split at `a`.
proof fn lemma_elements_split(data: Seq<u8>, pos: int, a: int, b: int)
    requires
        0 <= a,
        0 <= b,
    ensures
        elements_ok(data, pos, a + b) <==> (elements_ok(data, pos, a) && elements_ok(
            data,
            pos + 8 * a,
            b,
        )),
{
    if elements_ok(data, pos, a) && elements_ok(data, pos + 8 * a, b) {
        assert forall|j: int| 0 <= j < a + b implies #[trigger] le_u64_at(data, pos + 8 * j) < p() by {
            if j >= a {
                assert(le_u64_at(data, (pos + 8 * a) + 8 * (j - a)) < p());
                assert((pos + 8 * a) + 8 * (j - a) == pos + 8 * j);
            }
        }
    }
    if elements_ok(data, pos, a + b) {
        assert forall|j: int| 0 <= j < b implies #[trigger] le_u64_at(data, (pos + 8 * a) + 8 * j) < p() by {
            assert(le_u64_at(data, pos + 8 * (a + j)) < p());
            assert((pos + 8 * a) + 8 * j == pos + 8 * (a + j));
        }
    }
}

impl CircomPlonkProof {
    /// Absorbs the public signals and reads a proof in the wire order,
    /// squeezing each challenge where it falls. Fails with
    /// `TranscriptError` exactly when the proof elements are missing or
    /// not canonical.
    pub fn read(public_signals: &Vec<u64>, transcript: &mut Transcript) -> (r: Result<
        CircomPlonkProof,
        Error,
    >)
        ensures
            final(transcript).data@ == old(transcript).data@,
            r.is_ok() <==> elements_ok(
                old(transcript).data@,
                old(transcript).pos as int,
                PROOF_ELEMENTS as int,
            ),
            r.is_ok() ==> (forall|j: int|
                0 <= j < public_signals.len() ==> is_scalar(#[trigger] public_signals[j] as int))
                ==> r.unwrap().wf(),
            r.is_ok() ==> proof_read_spec(
                r.unwrap(),
                old(transcript).state@,
                public_signals@,
                old(transcript).data@,
                old(transcript).pos as int,
            ) && final(transcript).pos == old(transcript).pos + 8 * PROOF_ELEMENTS
                && final(transcript).state@ == squeeze_digest(
                u_state(
                    old(transcript).state@,
                    public_signals@,
                    old(transcript).data@,
                    old(transcript).pos as int,
                ),
            ),
            r.is_err() ==> r == Err::<CircomPlonkProof, Error>(Error::TranscriptError),
    {
        let ghost st0 = transcript.state@;
        let ghost d = transcript.data@;
        let ghost q = transcript.pos as int;
        proof {
            lemma_elements_split(d, q, 3, 13);
            lemma_elements_split(d, q + 24, 1, 12);
            lemma_elements_split(d, q + 32, 3, 9);
            lemma_elements_split(d, q + 56, 7, 2);
        }
        let mut i: usize = 0;
        while i < public_signals.len()
            invariant
                i <= public_signals.len(),
                transcript.data@ == d,
                transcript.pos == q,
                transcript.state@ == absorb_all(st0, public_signals@.subrange(0, i as int)),
            decreases public_signals.len() - i,
        {
            transcript.common_scalar(public_signals[i]);
            i = i + 1;
            assert(public_signals@.subrange(0, i as int).drop_last() =~= public_signals@.subrange(
                0,
                i - 1,
            ));
        }
        assert(public_signals@.subrange(0, i as int) =~= public_signals@);
        // A, B, C
        let abc = transcript.read_n_scalars(3)?;
        let beta = transcript.squeeze_challenge();
        transcript.common_scalar(beta);
        let gamma = transcript.squeeze_challenge();
        let z = transcript.read_ec_point()?;
        let alpha = transcript.squeeze_challenge();
        // T1, T2, T3
        let ts = transcript.read_n_scalars(3)?;
        let xi = transcript.squeeze_challenge();
        let evals = transcript.read_n_scalars(7)?;
        let v = transcript.squeeze_challenge();
        // Wxi, Wxiw
        let ws = transcript.read_n_scalars(2)?;
        let u = transcript.squeeze_challenge();
        let proof = CircomPlonkProof {
            public_signals: public_signals.clone(),
            a: abc[0],
            b: abc[1],
            c: abc[2],
            z,
            t1: ts[0],
            t2: ts[1],
            t3: ts[2],
            wxi: ws[0],
            wxiw: ws[1],
            eval_a: evals[0],
            eval_b: evals[1],
            eval_c: evals[2],
            eval_s1: evals[3],
            eval_s2: evals[4],
            eval_zw: evals[5],
            eval_r: evals[6],
            challenges: Challenges { beta, gamma, alpha, xi, v, u },
        };
        assert(abc[1] as int == le_u64_at(d, q + 8 * 1));
        assert(abc[2] as int == le_u64_at(d, q + 8 * 2));
        assert(ts[0] as int == le_u64_at(d, q + 32 + 8 * 0));
        assert(ts[1] as int == le_u64_at(d, q + 32 + 8 * 1));
        assert(ts[2] as int == le_u64_at(d, q + 32 + 8 * 2));
        assert(evals[0] as int == le_u64_at(d, q + 56 + 8 * 0));
        assert(evals[1] as int == le_u64_at(d, q + 56 + 8 * 1));
        assert(evals[2] as int == le_u64_at(d, q + 56 + 8 * 2));
        assert(evals[3] as int == le_u64_at(d, q + 56 + 8 * 3));
        assert(evals[4] as int == le_u64_at(d, q + 56 + 8 * 4));
        assert(evals[5] as int == le_u64_at(d, q + 56 + 8 * 5));
        assert(evals[6] as int == le_u64_at(d, q + 56 + 8 * 6));
        assert(ws[0] as int == le_u64_at(d, q + 112 + 8 * 0));
        assert(ws[1] as int == le_u64_at(d, q + 112 + 8 * 1));
        assert(proof.public_signals@ == public_signals@);
        Ok(proof)
    }
}

} // verus!
