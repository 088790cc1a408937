use plonk_verifier::{
    first_lagrange_eval, lagrange_basis_eval, pow_constant, powers, public_input_eval, scalar_add,
    scalar_mul, scalar_sub, vanishing_eval, Domain, MODULUS,
};

fn lcg(seed: &mut u64) -> u64 {
    *seed = seed.wrapping_mul(6364136223846793005).wrapping_add(1442695040888963407);
    *seed % MODULUS
}

#[test]
fn domain_generators() {
    for k in [0u32, 2, 3, 4, 10] {
        let d = Domain::new(k);
        assert_eq!(d.n, 1usize << k);
        assert_eq!(pow_constant(d.omega, d.n as u64), 1);
        if k > 0 {
            assert_ne!(pow_constant(d.omega, (d.n / 2) as u64), 1);
        }
        assert_eq!(scalar_mul(d.omega, d.omega_inv), 1);
    }
}

#[test]
fn powers_table() {
    assert_eq!(powers(3, 4), vec![1, 3, 9, 27]);
    assert_eq!(powers(3, 0), Vec::<u64>::new());
}

#[test]
fn vanishing_at_domain_points_is_zero() {
    let d = Domain::new(3);
    for p in powers(d.omega, 8) {
        assert_eq!(vanishing_eval(p, 8), 0);
    }
    assert_eq!(vanishing_eval(2, 8), 255);
}

#[test]
fn first_lagrange_at_one_fails() {
    assert_eq!(first_lagrange_eval(0, 4, 1), None);
}

#[test]
fn lagrange_first_basis_sanity() {
    for k in [2u32, 3] {
        let d = Domain::new(k);
        let pts = powers(d.omega, d.n);
        assert_eq!(lagrange_basis_eval(&pts, 0, 1), Some(1));
        for j in 1..d.n {
            assert_eq!(lagrange_basis_eval(&pts, 0, pts[j]), Some(0));
        }
    }
}

#[test]
fn first_lagrange_matches_product_formula() {
    let mut seed = 7u64;
    for k in [2u32, 3, 4] {
        let d = Domain::new(k);
        let pts = powers(d.omega, d.n);
        let xi = lcg(&mut seed);
        let zh = vanishing_eval(xi, d.n as u64);
        let l0 = first_lagrange_eval(zh, d.n as u64, xi).unwrap();
        assert_eq!(Some(l0), lagrange_basis_eval(&pts, 0, xi));
    }
}

#[test]
fn lagrange_basis_repeated_points() {
    assert_eq!(lagrange_basis_eval(&vec![5u64, 5, 6], 0, 9), None);
}

#[test]
fn barycentric_matches_lagrange_interpolation() {
    let mut seed = 42u64;
    for k in [2u32, 3, 4] {
        let d = Domain::new(k);
        let n = d.n;
        let pts = powers(d.omega, n);
        let inv_pts = powers(d.omega_inv, n);
        for count in 1..=n {
            let signals: Vec<u64> = (0..count).map(|_| lcg(&mut seed)).collect();
            let xi = lcg(&mut seed);
            let zh = vanishing_eval(xi, n as u64);
            let pi = public_input_eval(zh, n as u64, xi, &inv_pts, &signals).unwrap();
            let mut direct = 0u64;
            for (i, s) in signals.iter().enumerate() {
                let li = lagrange_basis_eval(&pts, i, xi).unwrap();
                direct = scalar_add(direct, scalar_mul(li, *s));
            }
            assert_eq!(pi, direct);
        }
    }
}

#[test]
fn public_input_without_signals_is_numerator() {
    let d = Domain::new(2);
    let xi = 1234567u64;
    let zh = vanishing_eval(xi, 4);
    let pi = public_input_eval(zh, 4, xi, &powers(d.omega_inv, 0), &Vec::new()).unwrap();
    let n_inv = plonk_verifier::invert(4).unwrap();
    assert_eq!(pi, scalar_mul(zh, n_inv));
}

#[test]
fn public_input_at_domain_point_fails() {
    let d = Domain::new(2);
    let inv_pts = powers(d.omega_inv, 4);
    let xi = d.omega;
    let zh = vanishing_eval(xi, 4);
    assert_eq!(zh, 0);
    assert_eq!(public_input_eval(zh, 4, xi, &inv_pts, &vec![1, 2]), None);
    assert_eq!(scalar_sub(xi, xi), 0);
}
