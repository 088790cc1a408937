//! Evaluations at the challenge point: the vanishing polynomial, the first
//! Lagrange basis polynomial and the public-input polynomial (barycentric
//! form), and a Lagrange basis polynomial by its product formula.
use crate::field::{
    add_spec, batch_invert, has_inverse, inv_spec, invert, is_scalar, lemma_inv_spec,
    lemma_mod_bound_sum, lemma_pow_is_scalar, mul_spec, pow_constant, pow_spec, scalar_add,
    scalar_mul, scalar_sub, sub_spec, MODULUS,
};
use vstd::prelude::*;

verus! {

/// `z_H(xi) = xi^n - 1`.
pub open spec fn vanishing_spec(xi: int, n: nat) -> int {
    sub_spec(pow_spec(xi, n), 1)
}

/// Evaluation of the vanishing polynomial of a domain of size `n`.
pub fn vanishing_eval(xi: u64, n: u64) -> (r: u64)
    requires
        is_scalar(xi as int),
    ensures
        r as int == vanishing_spec(xi as int, n as nat),
        r < MODULUS,
{
    let xn = pow_constant(xi, n);
    proof {
        lemma_pow_is_scalar(xi as int, n as nat);
    }
    scalar_sub(xn, 1)
}

/// `n (xi - 1)`, the denominator of `L0(xi)`.
pub open spec fn first_lagrange_denominator(n: int, xi: int) -> int {
    mul_spec(n, sub_spec(xi, 1))
}

/// `L0(xi) = z_H(xi) / (n (xi - 1))`; `None` when the denominator has no
/// inverse (as at `xi = 1`).
pub fn first_lagrange_eval(z_h: u64, n: u64, xi: u64) -> (r: Option<u64>)
    requires
        is_scalar(z_h as int),
        is_scalar(n as int),
        is_scalar(xi as int),
    ensures
        r.is_some() <==> has_inverse(first_lagrange_denominator(n as int, xi as int)),
        r.is_some() ==> r.unwrap() < MODULUS && r.unwrap() as int == mul_spec(
            z_h as int,
            inv_spec(first_lagrange_denominator(n as int, xi as int)),
        ),
{
    let d = scalar_sub(xi, 1);
    proof {
        lemma_mod_bound_sum(xi as int - 1);
    }
    let den = scalar_mul(n, d);
    proof {
        lemma_mod_bound_sum(n as int * d as int);
    }
    match invert(den) {
        Some(w) => {
            proof {
                lemma_inv_spec(den as int, w as int);
            }
            Some(scalar_mul(z_h, w))
        },
        None => None,
    }
}

/// `xi omega^-i - 1`, the denominator of the `i`-th barycentric term.
pub open spec fn barycentric_denominator(xi: int, omega_inv_i: int) -> int {
    sub_spec(mul_spec(xi, omega_inv_i), 1)
}

/// `sum_{j < i} public_signals[j] / (xi omega^-j - 1)`.
pub open spec fn barycentric_sum(xi: int, omegas_inv: Seq<u64>, public_signals: Seq<u64>, i: int) -> int
    decreases i,
{
    if i <= 0 {
        0
    } else {
        add_spec(
            barycentric_sum(xi, omegas_inv, public_signals, i - 1),
            mul_spec(
                inv_spec(barycentric_denominator(xi, omegas_inv[i - 1] as int)),
                public_signals[i - 1] as int,
            ),
        )
    }
}

/// `PI(xi)`: `z_H(xi) / n` alone when there are no public signals, else
/// `z_H(xi) / n` times the barycentric sum.
pub open spec fn public_input_spec(
    z_h: int,
    n: int,
    xi: int,
    omegas_inv: Seq<u64>,
    public_signals: Seq<u64>,
) -> int {
    let numerator = mul_spec(z_h, inv_spec(n));
    if public_signals.len() == 0 {
        numerator
    } else {
        mul_spec(numerator, barycentric_sum(xi, omegas_inv, public_signals, public_signals.len() as int))
    }
}

/// The inverses that `PI(xi)` needs exist.
pub open spec fn public_input_defined(n: int, xi: int, omegas_inv: Seq<u64>, len: int) -> bool {
    &&& has_inverse(n)
    &&& forall|j: int| 0 <= j < len ==> has_inverse(#[trigger] barycentric_denominator(xi, omegas_inv[j] as int))
}

/// Evaluation of the public-input polynomial at `xi` by barycentric
/// interpolation over the domain points `omega^j`, given their inverses;
/// all denominators are inverted together.
pub fn public_input_eval(
    z_h: u64,
    n: u64,
    xi: u64,
    omegas_inv: &Vec<u64>,
    public_signals: &Vec<u64>,
) -> (r: Option<u64>)
    requires
        is_scalar(z_h as int),
        is_scalar(n as int),
        is_scalar(xi as int),
        public_signals.len() <= omegas_inv.len(),
        forall|j: int| 0 <= j < omegas_inv.len() ==> is_scalar(#[trigger] omegas_inv[j] as int),
        forall|j: int| 0 <= j < public_signals.len() ==> is_scalar(#[trigger] public_signals[j] as int),
    ensures
        r.is_some() <==> public_input_defined(n as int, xi as int, omegas_inv@, public_signals.len() as int),
        r.is_some() ==> r.unwrap() < MODULUS && r.unwrap() as int == public_input_spec(
            z_h as int,
            n as int,
            xi as int,
            omegas_inv@,
            public_signals@,
        ),
{
    let m = public_signals.len();
    let n_inv = match invert(n) {
        Some(w) => w,
        None => {
            return None;
        },
    };
    proof {
        lemma_inv_spec(n as int, n_inv as int);
    }
    let numerator = scalar_mul(z_h, n_inv);
    if m == 0 {
        return Some(numerator);
    }
    let mut denoms: Vec<u64> = Vec::new();
    let mut i: usize = 0;
    while i < m
        invariant
            i <= m == public_signals.len() <= omegas_inv.len(),
            is_scalar(xi as int),
            forall|j: int| 0 <= j < omegas_inv.len() ==> is_scalar(#[trigger] omegas_inv[j] as int),
            denoms.len() == i,
            forall|j: int|
                0 <= j < i ==> #[trigger] denoms[j] as int == barycentric_denominator(
                    xi as int,
                    omegas_inv[j] as int,
                ),
        decreases m - i,
    {
        let t = scalar_mul(xi, omegas_inv[i]);
        proof {
            lemma_mod_bound_sum(xi as int * omegas_inv[i as int] as int);
        }
        denoms.push(scalar_sub(t, 1));
        i = i + 1;
    }
    proof {
        assert forall|j: int| 0 <= j < denoms.len() implies is_scalar(#[trigger] denoms[j] as int) by {
            lemma_mod_bound_sum(mul_spec(xi as int, omegas_inv[j] as int) - 1);
        }
    }
    let inverses = match batch_invert(&denoms) {
        Some(v) => v,
        None => {
            proof {
                assert(!public_input_defined(n as int, xi as int, omegas_inv@, m as int)) by {
                    let j = choose|j: int| 0 <= j < denoms.len() && !has_inverse(#[trigger] denoms[j] as int);
                    assert(denoms[j] as int == barycentric_denominator(xi as int, omegas_inv[j] as int));
                }
            }
            return None;
        },
    };
    let mut sum: u64 = 0;
    let mut k: usize = 0;
    while k < m
        invariant
            k <= m == public_signals.len() == inverses.len() == denoms.len() <= omegas_inv.len(),
            forall|j: int| 0 <= j < public_signals.len() ==> is_scalar(#[trigger] public_signals[j] as int),
            forall|j: int|
                0 <= j < m ==> is_scalar(#[trigger] inverses[j] as int) && crate::field::is_inverse(
                    denoms[j] as int,
                    inverses[j] as int,
                ),
            forall|j: int|
                0 <= j < m ==> #[trigger] denoms[j] as int == barycentric_denominator(
                    xi as int,
                    omegas_inv[j] as int,
                ),
            is_scalar(sum as int),
            sum as int == barycentric_sum(xi as int, omegas_inv@, public_signals@, k as int),
        decreases m - k,
    {
        let term = scalar_mul(inverses[k], public_signals[k]);
        proof {
            lemma_inv_spec(denoms[k as int] as int, inverses[k as int] as int);
            lemma_mod_bound_sum(inverses[k as int] as int * public_signals[k as int] as int);
            lemma_mod_bound_sum(sum as int + term as int);
        }
        sum = scalar_add(sum, term);
        k = k + 1;
    }
    proof {
        lemma_mod_bound_sum(z_h as int * n_inv as int);
        assert forall|j: int| 0 <= j < m implies has_inverse(
            #[trigger] barycentric_denominator(xi as int, omegas_inv[j] as int),
        ) by {
            assert(has_inverse(denoms[j] as int));
        }
    }
    Some(scalar_mul(numerator, sum))
}

/// `prod_{j < len, j != i} (x - points[j])`.
pub open spec fn basis_numerator(points: Seq<u64>, i: int, x: int, len: int) -> int
    decreases len,
{
    if len <= 0 {
        1
    } else if len - 1 == i {
        basis_numerator(points, i, x, len - 1)
    } else {
        mul_spec(basis_numerator(points, i, x, len - 1), sub_spec(x, points[len - 1] as int))
    }
}

/// `prod_{j < len, j != i} (points[i] - points[j])`.
pub open spec fn basis_denominator(points: Seq<u64>, i: int, len: int) -> int {
    basis_numerator(points, i, points[i] as int, len)
}

proof fn lemma_basis_numerator_is_scalar(points: Seq<u64>, i: int, x: int, len: int)
    ensures
        is_scalar(basis_numerator(points, i, x, len)),
    decreases len,
{
    if len > 0 {
        lemma_basis_numerator_is_scalar(points, i, x, len - 1);
        lemma_mod_bound_sum(basis_numerator(points, i, x, len - 1) * sub_spec(x, points[len - 1] as int));
    }
}

/// Evaluation at `x` of the `i`-th Lagrange basis polynomial over `points`,
/// `prod_{j != i} (x - points[j]) / (points[i] - points[j])`; `None` when the
/// denominator has no inverse (repeated points).
pub fn lagrange_basis_eval(points: &Vec<u64>, i: usize, x: u64) -> (r: Option<u64>)
    requires
        i < points.len(),
        is_scalar(x as int),
        forall|j: int| 0 <= j < points.len() ==> is_scalar(#[trigger] points[j] as int),
    ensures
        r.is_some() <==> has_inverse(basis_denominator(points@, i as int, points.len() as int)),
        r.is_some() ==> r.unwrap() as int == mul_spec(
            basis_numerator(points@, i as int, x as int, points.len() as int),
            inv_spec(basis_denominator(points@, i as int, points.len() as int)),
        ),
{
    let m = points.len();
    let xi = points[i];
    let mut num: u64 = 1;
    let mut den: u64 = 1;
    let mut j: usize = 0;
    while j < m
        invariant
            j <= m == points.len(),
            i < m,
            xi == points[i as int],
            is_scalar(x as int),
            forall|t: int| 0 <= t < points.len() ==> is_scalar(#[trigger] points[t] as int),
            num as int == basis_numerator(points@, i as int, x as int, j as int),
            den as int == basis_denominator(points@, i as int, j as int),
        decreases m - j,
    {
        proof {
            lemma_basis_numerator_is_scalar(points@, i as int, x as int, j as int);
            lemma_basis_numerator_is_scalar(points@, i as int, xi as int, j as int);
        }
        if j != i {
            let a = scalar_sub(x, points[j]);
            let b = scalar_sub(xi, points[j]);
            proof {
                lemma_mod_bound_sum(x as int - points[j as int] as int);
                lemma_mod_bound_sum(xi as int - points[j as int] as int);
            }
            num = scalar_mul(num, a);
            den = scalar_mul(den, b);
        }
        j = j + 1;
    }
    proof {
        lemma_basis_numerator_is_scalar(points@, i as int, x as int, m as int);
        lemma_basis_numerator_is_scalar(points@, i as int, xi as int, m as int);
    }
    match invert(den) {
        Some(w) => {
            proof {
                lemma_inv_spec(den as int, w as int);
            }
            Some(scalar_mul(num, w))
        },
        None => None,
    }
}

} // verus!
