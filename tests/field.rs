use plonk_verifier::{
    batch_invert, invert, pow_constant, scalar_add, scalar_mul, scalar_neg, scalar_sub, MODULUS,
    ROOT_OF_UNITY, ROOT_OF_UNITY_INV,
};

#[test]
fn add_wraps_at_modulus() {
    assert_eq!(scalar_add(MODULUS - 1, 5), 4);
    assert_eq!(scalar_add(3, 4), 7);
}

#[test]
fn sub_and_neg() {
    assert_eq!(scalar_sub(3, 5), MODULUS - 2);
    assert_eq!(scalar_sub(9, 5), 4);
    assert_eq!(scalar_neg(0), 0);
    assert_eq!(scalar_neg(1), MODULUS - 1);
}

#[test]
fn mul_exact() {
    assert_eq!(scalar_mul(MODULUS - 1, MODULUS - 1), 1);
    assert_eq!(scalar_mul(1 << 32, 1 << 32), (1u64 << 32) - 1);
}

#[test]
fn pow_exact() {
    assert_eq!(pow_constant(3, 0), 1);
    assert_eq!(pow_constant(3, 5), 243);
    assert_eq!(pow_constant(ROOT_OF_UNITY, 1 << 32), 1);
    assert_ne!(pow_constant(ROOT_OF_UNITY, 1 << 31), 1);
    assert_eq!(scalar_mul(ROOT_OF_UNITY, ROOT_OF_UNITY_INV), 1);
}

#[test]
fn invert_two_and_zero() {
    assert_eq!(invert(2), Some((MODULUS + 1) / 2));
    assert_eq!(invert(1), Some(1));
    assert_eq!(invert(0), None);
    let x = 123456789u64;
    let y = invert(x).unwrap();
    assert_eq!(scalar_mul(x, y), 1);
}

#[test]
fn batch_invert_matches_elementwise() {
    let xs = vec![1u64, 2, 3, 987654321, MODULUS - 1, 77];
    let ys = batch_invert(&xs).unwrap();
    assert_eq!(ys.len(), xs.len());
    for (x, y) in xs.iter().zip(ys.iter()) {
        assert_eq!(Some(*y), invert(*x));
        assert_eq!(scalar_mul(*x, *y), 1);
    }
}

#[test]
fn batch_invert_fails_on_zero() {
    assert_eq!(batch_invert(&vec![4u64, 0, 5]), None);
    assert_eq!(batch_invert(&vec![0u64]), None);
}

#[test]
fn batch_invert_empty() {
    assert_eq!(batch_invert(&Vec::new()), Some(Vec::new()));
}
