use plonk_verifier::{
    langranges, scalar_add, scalar_mul, AccumulationStrategy, Accumulator,
    CircomPlonkAccumulationScheme, CircomPlonkProof, Cost, CostEstimation, Error, Protocol,
    SameCurveAccumulation, StrategyOutput, Transcript, VerificationKey, MODULUS, MSM,
};

fn lcg(seed: &mut u64) -> u64 {
    *seed = seed.wrapping_mul(6364136223846793005).wrapping_add(1442695040888963407);
    *seed % MODULUS
}

fn encode(elems: &[u64]) -> Vec<u8> {
    elems.iter().flat_map(|e| e.to_le_bytes()).collect()
}

fn key(count: usize) -> VerificationKey {
    VerificationKey::new(3, count, 7, 13, 11, 12, 13, 14, 15, 16, 17, 18, 987654321)
}

fn proof_bytes(seed: u64) -> Vec<u8> {
    let mut s = seed;
    let elems: Vec<u64> = (0..16).map(|_| lcg(&mut s)).collect();
    encode(&elems)
}

#[test]
fn squeeze_on_empty_state() {
    let mut t = Transcript::new(Vec::new());
    assert_eq!(t.squeeze_challenge(), 1500434604740126121);
    assert_eq!(t.state.len(), 32);
    assert_eq!(&t.state[..4], &[169, 37, 61, 200]);
}

#[test]
fn squeeze_binds_absorbed_scalar() {
    let mut t = Transcript::new(Vec::new());
    t.common_scalar(1);
    assert_eq!(t.state, vec![1, 0, 0, 0, 0, 0, 0, 0]);
    assert_eq!(t.squeeze_challenge(), 2730175955623369152);
}

#[test]
fn read_scalar_and_point() {
    let mut t = Transcript::new(encode(&[5, 6]));
    assert_eq!(t.read_scalar(), Ok(5));
    assert_eq!(t.read_ec_point(), Ok(6));
    assert_eq!(t.pos, 16);
    assert_eq!(t.state.len(), 16);
    assert_eq!(t.read_scalar(), Err(Error::TranscriptError));
    assert_eq!(t.pos, 16);
}

#[test]
fn read_rejects_non_canonical() {
    let mut t = Transcript::new(encode(&[MODULUS]));
    assert_eq!(t.read_scalar(), Err(Error::TranscriptError));
    let mut t = Transcript::new(encode(&[1, 2, MODULUS - 1]));
    assert_eq!(t.read_n_scalars(3), Ok(vec![1, 2, MODULUS - 1]));
}

#[test]
fn read_rejects_truncated() {
    let mut t = Transcript::new(vec![1, 2, 3]);
    assert_eq!(t.read_scalar(), Err(Error::TranscriptError));
    assert_eq!(t.state.len(), 0);
}

#[test]
fn proof_read_in_wire_order() {
    let elems: Vec<u64> = (1..=16).collect();
    let mut t = Transcript::new(encode(&elems));
    let p = CircomPlonkProof::read(&vec![9], &mut t).ok().unwrap();
    assert_eq!((p.a, p.b, p.c, p.z), (1, 2, 3, 4));
    assert_eq!((p.t1, p.t2, p.t3), (5, 6, 7));
    assert_eq!(
        [p.eval_a, p.eval_b, p.eval_c, p.eval_s1, p.eval_s2, p.eval_zw, p.eval_r],
        [8, 9, 10, 11, 12, 13, 14]
    );
    assert_eq!((p.wxi, p.wxiw), (15, 16));
    assert_eq!(p.public_signals, vec![9]);
    assert_eq!(t.pos, 128);
    // the challenges are replayed by hand
    let mut r = Transcript::new(encode(&elems));
    r.common_scalar(9);
    r.read_n_scalars(3).unwrap();
    let beta = r.squeeze_challenge();
    r.common_scalar(beta);
    let gamma = r.squeeze_challenge();
    assert_eq!((p.challenges.beta, p.challenges.gamma), (beta, gamma));
    r.read_ec_point().unwrap();
    assert_eq!(p.challenges.alpha, r.squeeze_challenge());
    r.read_n_scalars(3).unwrap();
    assert_eq!(p.challenges.xi, r.squeeze_challenge());
    r.read_n_scalars(7).unwrap();
    assert_eq!(p.challenges.v, r.squeeze_challenge());
    r.read_n_scalars(2).unwrap();
    assert_eq!(p.challenges.u, r.squeeze_challenge());
    assert_ne!(beta, gamma);
}

#[test]
fn accumulate_rejects_wrong_signal_count() {
    let vk = key(2);
    let mut t = Transcript::new(proof_bytes(1));
    let r = CircomPlonkAccumulationScheme::accumulate(&vk, &vec![1], &mut t, AccumulationStrategy::Direct);
    assert_eq!(r, Err(Error::ProtocolMismatch));
}

#[test]
fn accumulate_rejects_non_canonical_signal() {
    let vk = key(1);
    let mut t = Transcript::new(proof_bytes(1));
    let r = CircomPlonkAccumulationScheme::accumulate(
        &vk,
        &vec![MODULUS],
        &mut t,
        AccumulationStrategy::Direct,
    );
    assert_eq!(r, Err(Error::ProtocolMismatch));
}

#[test]
fn accumulate_rejects_truncated_proof() {
    let vk = key(1);
    let mut bytes = proof_bytes(3);
    bytes.truncate(120);
    let mut t = Transcript::new(bytes);
    let r = CircomPlonkAccumulationScheme::accumulate(&vk, &vec![4], &mut t, AccumulationStrategy::Direct);
    assert_eq!(r, Err(Error::TranscriptError));
}

#[test]
fn accumulate_rejects_random_proof() {
    let vk = key(2);
    for seed in 0..5u64 {
        let mut t = Transcript::new(proof_bytes(seed));
        let r = CircomPlonkAccumulationScheme::accumulate(
            &vk,
            &vec![3, 4],
            &mut t,
            AccumulationStrategy::Direct,
        );
        assert_eq!(r, Ok(StrategyOutput::Verdict(false)));
    }
}

#[test]
fn accumulate_without_signals() {
    let vk = key(0);
    let mut t = Transcript::new(proof_bytes(11));
    let r = CircomPlonkAccumulationScheme::accumulate(&vk, &vec![], &mut t, AccumulationStrategy::Accumulating);
    assert!(matches!(r, Ok(StrategyOutput::Deferred(_))));
}

#[test]
fn replay_is_deterministic() {
    let vk = key(2);
    let bytes = proof_bytes(21);
    let mut outs = Vec::new();
    let mut challenges = Vec::new();
    for _ in 0..2 {
        let mut t = Transcript::new(bytes.clone());
        let p = CircomPlonkProof::read(&vec![3, 4], &mut t).ok().unwrap();
        challenges.push((p.challenges.beta, p.challenges.gamma, p.challenges.alpha, p.challenges.xi, p.challenges.v, p.challenges.u));
        for strategy in [AccumulationStrategy::Direct, AccumulationStrategy::Accumulating] {
            let mut t = Transcript::new(bytes.clone());
            outs.push(CircomPlonkAccumulationScheme::accumulate(&vk, &vec![3, 4], &mut t, strategy));
        }
    }
    assert_eq!(challenges[0], challenges[1]);
    assert_eq!(outs[0], outs[2]);
    assert_eq!(outs[1], outs[3]);
}

#[test]
fn direct_verdict_is_the_deferred_check() {
    let vk = key(1);
    let bytes = proof_bytes(5);
    let mut t = Transcript::new(bytes.clone());
    let d = CircomPlonkAccumulationScheme::accumulate(&vk, &vec![8], &mut t, AccumulationStrategy::Direct);
    let mut t = Transcript::new(bytes);
    let a = CircomPlonkAccumulationScheme::accumulate(&vk, &vec![8], &mut t, AccumulationStrategy::Accumulating);
    match (d, a) {
        (Ok(StrategyOutput::Verdict(v)), Ok(StrategyOutput::Deferred(acc))) => {
            assert_eq!(v, acc.check(vk.x2));
        }
        _ => panic!("unexpected outputs"),
    }
}

fn passing(rhs: u64, x2: u64) -> Accumulator {
    Accumulator { lhs: scalar_mul(rhs, x2), rhs }
}

fn failing(rhs: u64, x2: u64) -> Accumulator {
    Accumulator { lhs: scalar_add(scalar_mul(rhs, x2), 1), rhs }
}

#[test]
fn fold_checks_pass_iff_all_pass() {
    let x2 = 987654321u64;
    let mut seed = 99u64;
    for k in [1usize, 2, 5] {
        for bad in 0..=k {
            let accs: Vec<Accumulator> = (0..k)
                .map(|i| {
                    let r = lcg(&mut seed);
                    if i == bad { failing(r, x2) } else { passing(r, x2) }
                })
                .collect();
            let challenges: Vec<u64> = (0..k).map(|_| lcg(&mut seed)).collect();
            let folded = SameCurveAccumulation::fold_all(&accs, &challenges);
            assert_eq!(folded.check(x2), bad == k);
        }
    }
}

#[test]
fn fold_one_at_a_time() {
    let x2 = 5u64;
    let mut acc = SameCurveAccumulation::new();
    assert!(acc.accumulator.check(x2));
    acc.fold(&passing(3, x2), 2);
    assert_eq!(acc.accumulator, Accumulator { lhs: 30, rhs: 6 });
    assert!(acc.accumulator.check(x2));
    acc.fold(&failing(1, x2), 7);
    assert_eq!(acc.accumulator, Accumulator { lhs: 72, rhs: 13 });
    assert!(!acc.accumulator.check(x2));
}

#[test]
fn msm_evaluate_and_scale() {
    let mut m = MSM::new();
    m.add_term(2, 3);
    m.add_term(4, 5);
    m.add_constant(7);
    assert_eq!(m.evaluate(), 33);
    m.scale(2);
    assert_eq!(m.evaluate(), 66);
    assert_eq!(m.scalars, vec![4, 8]);
    assert_eq!(m.constant, 14);
}

#[test]
fn langranges_lists_relations_then_inputs() {
    let protocol = Protocol { k: 3, num_statement: 2, num_preprocessed: 9, relation_langranges: vec![0, -1] };
    let statements: Vec<Vec<u64>> = vec![vec![1, 2], vec![3, 4, 5], vec![]];
    assert_eq!(langranges(&protocol, &statements), vec![0, -1, 0, 1, 2]);
    let none: Vec<Vec<u64>> = vec![];
    assert_eq!(langranges(&protocol, &none), vec![0, -1]);
}

#[test]
fn cost_new_and_estimate() {
    let c = Cost::new(1, 2, 3, 4);
    assert_eq!((c.num_instance, c.num_commitment, c.num_evaluation, c.num_msm), (1, 2, 3, 4));
    let protocol = Protocol { k: 3, num_statement: 2, num_preprocessed: 9, relation_langranges: vec![] };
    let e = <CircomPlonkAccumulationScheme as CostEstimation>::estimate_cost(&protocol);
    assert_eq!(e, Cost::new(2, 9, 7, 20));
}

#[test]
fn verification_key_tables() {
    let vk = key(3);
    assert_eq!(vk.omegas.len(), 3);
    assert_eq!(vk.omegas[0], 1);
    assert_eq!(vk.omegas[1], vk.domain.omega);
    for (o, oi) in vk.omegas.iter().zip(vk.omegas_inv.iter()) {
        assert_eq!(scalar_mul(*o, *oi), 1);
    }
}

#[test]
fn msm_merge_weights_other() {
    let mut m = MSM::new();
    m.add_term(2, 3);
    m.add_constant(1);
    let mut o = MSM::new();
    o.add_term(4, 5);
    o.add_constant(6);
    m.merge(&o, 10);
    assert_eq!(m.evaluate(), 7 + 10 * 26);
    assert_eq!(m.scalars, vec![2, 40]);
    assert_eq!(m.bases, vec![3, 5]);
}

#[test]
fn verification_key_read() {
    let bytes = encode(&[3, 2, 7, 13, 11, 12, 13, 14, 15, 16, 17, 18, 987654321]);
    let vk = VerificationKey::read(&bytes).ok().unwrap();
    assert_eq!(vk.domain.n, 8);
    assert_eq!(vk.public_inputs_count, 2);
    assert_eq!((vk.k1, vk.k2, vk.qm, vk.s3, vk.x2), (7, 13, 11, 18, 987654321));
    assert_eq!(vk.omegas_inv.len(), 2);
}

#[test]
fn verification_key_read_rejects() {
    let too_many = encode(&[2, 5, 7, 13, 11, 12, 13, 14, 15, 16, 17, 18, 1]);
    assert!(matches!(VerificationKey::read(&too_many), Err(Error::TranscriptError)));
    let big_k = encode(&[32, 0, 7, 13, 11, 12, 13, 14, 15, 16, 17, 18, 1]);
    assert!(matches!(VerificationKey::read(&big_k), Err(Error::TranscriptError)));
    let short = encode(&[2, 0, 7]);
    assert!(matches!(VerificationKey::read(&short), Err(Error::TranscriptError)));
}
