//! The scalar field: integers modulo the 64-bit prime `2^64 - 2^32 + 1`,
//! whose multiplicative group has a subgroup of order `2^32`.
use vstd::arithmetic::div_mod::*;
use vstd::arithmetic::mul::*;
use vstd::prelude::*;

verus! {

/// The field modulus `2^64 - 2^32 + 1`.
pub const MODULUS: u64 = 18446744069414584321;

/// The largest `s` such that `2^s` divides `MODULUS - 1`.
pub const TWO_ADICITY: u32 = 32;

/// A primitive `2^32`-th root of unity (`7^((MODULUS - 1) / 2^32)`).
pub const ROOT_OF_UNITY: u64 = 1753635133440165772;

/// The inverse of `ROOT_OF_UNITY`.
pub const ROOT_OF_UNITY_INV: u64 = 8554224884056360729;

pub open spec fn p() -> int {
    MODULUS as int
}

/// A canonical field element.
pub open spec fn is_scalar(a: int) -> bool {
    0 <= a < p()
}

pub open spec fn add_spec(a: int, b: int) -> int {
    (a + b) % p()
}

pub open spec fn sub_spec(a: int, b: int) -> int {
    (a - b) % p()
}

pub open spec fn mul_spec(a: int, b: int) -> int {
    (a * b) % p()
}

pub open spec fn pow_spec(a: int, e: nat) -> int
    decreases e,
{
    if e == 0 {
        1
    } else {
        mul_spec(a, pow_spec(a, (e - 1) as nat))
    }
}

/// `b` is a multiplicative inverse of `a`.
pub open spec fn is_inverse(a: int, b: int) -> bool {
    mul_spec(a, b) == 1
}

pub open spec fn has_inverse(a: int) -> bool {
    exists|b: int| is_scalar(b) && #[trigger] is_inverse(a, b)
}

pub proof fn lemma_mul_comm(a: int, b: int)
    ensures
        mul_spec(a, b) == mul_spec(b, a),
{
    lemma_mul_is_commutative(a, b);
}

pub proof fn lemma_mul_assoc(a: int, b: int, c: int)
    ensures
        mul_spec(mul_spec(a, b), c) == mul_spec(a, mul_spec(b, c)),
{
    lemma_mul_mod_noop_left(a * b, c, p());
    lemma_mul_mod_noop_right(a, b * c, p());
    lemma_mul_is_associative(a, b, c);
}

pub proof fn lemma_mul_reduce(a: int, b: int)
    ensures
        mul_spec(a % p(), b) == mul_spec(a, b),
        mul_spec(a, b % p()) == mul_spec(a, b),
{
    lemma_mul_mod_noop_left(a, b, p());
    lemma_mul_mod_noop_right(a, b, p());
}

pub proof fn lemma_mul_one(a: int)
    requires
        is_scalar(a),
    ensures
        mul_spec(a, 1) == a,
        mul_spec(1, a) == a,
{
    lemma_small_mod(a as nat, p() as nat);
}

/// Zero has no inverse.
pub proof fn lemma_zero_has_no_inverse()
    ensures
        !has_inverse(0),
{
    assert forall|b: int| is_scalar(b) implies !#[trigger] is_inverse(0, b) by {
        assert(0 * b == 0);
    }
}

/// A product of two invertible elements is invertible.
pub proof fn lemma_inverse_mul(a: int, b: int)
    requires
        has_inverse(a),
        has_inverse(b),
    ensures
        has_inverse(mul_spec(a, b)),
{
    let ia = choose|x: int| is_scalar(x) && #[trigger] is_inverse(a, x);
    let ib = choose|x: int| is_scalar(x) && #[trigger] is_inverse(b, x);
    let w = mul_spec(ia, ib);
    lemma_mod_bound(ia * ib, p());
    // (a b)(ia ib) = (a ia)(b ib)
    lemma_mul_assoc(mul_spec(a, b), ia, ib);
    lemma_mul_assoc(a, b, ia);
    lemma_mul_comm(b, ia);
    lemma_mul_assoc(a, ia, b);
    lemma_mul_assoc(mul_spec(a, ia), b, ib);
    lemma_mul_one(1);
    assert(is_inverse(mul_spec(a, b), w));
}

/// Inverses are unique.
pub proof fn lemma_inverse_unique(a: int, b: int, c: int)
    requires
        is_scalar(b),
        is_scalar(c),
        is_inverse(a, b),
        is_inverse(a, c),
    ensures
        b == c,
{
    // b = b (a c) = (b a) c = c
    lemma_mul_one(b);
    lemma_mul_one(c);
    lemma_mul_assoc(b, a, c);
    lemma_mul_comm(b, a);
}

/// The inverse of `a`, where it has one.
pub open spec fn inv_spec(a: int) -> int {
    choose|b: int| is_scalar(b) && #[trigger] is_inverse(a, b)
}

pub proof fn lemma_inv_spec(a: int, b: int)
    requires
        is_scalar(b),
        is_inverse(a, b),
    ensures
        inv_spec(a) == b,
        has_inverse(a),
{
    assert(has_inverse(a));
    let c = inv_spec(a);
    lemma_inverse_unique(a, b, c);
}

/// A value reduced modulo the field size is a scalar.
pub proof fn lemma_mod_bound_sum(x: int)
    ensures
        is_scalar(x % p()),
{
    lemma_mod_bound(x, p());
}

/// Sum of two scalars.
pub fn scalar_add(a: u64, b: u64) -> (r: u64)
    requires
        is_scalar(a as int),
        is_scalar(b as int),
    ensures
        r as int == add_spec(a as int, b as int),
        r < MODULUS,
{
    ((a as u128 + b as u128) % (MODULUS as u128)) as u64
}

/// Difference of two scalars.
pub fn scalar_sub(a: u64, b: u64) -> (r: u64)
    requires
        is_scalar(a as int),
        is_scalar(b as int),
    ensures
        r as int == sub_spec(a as int, b as int),
        r < MODULUS,
{
    if a >= b {
        proof {
            lemma_small_mod((a - b) as nat, p() as nat);
        }
        a - b
    } else {
        proof {
            lemma_mod_add_multiples_vanish(a - b, p());
            lemma_small_mod((p() + a - b) as nat, p() as nat);
        }
        MODULUS - (b - a)
    }
}

/// Additive inverse of a scalar.
pub fn scalar_neg(a: u64) -> (r: u64)
    requires
        is_scalar(a as int),
    ensures
        r as int == sub_spec(0, a as int),
        r < MODULUS,
{
    scalar_sub(0, a)
}

/// Product of two scalars.
pub fn scalar_mul(a: u64, b: u64) -> (r: u64)
    requires
        is_scalar(a as int),
        is_scalar(b as int),
    ensures
        r as int == mul_spec(a as int, b as int),
        r < MODULUS,
{
    assert((a as int) * (b as int) <= 0xffff_ffff_ffff_ffff_ffff_ffff_ffff_ffff) by (nonlinear_arith)
        requires
            a < MODULUS,
            b < MODULUS,
    ;
    ((a as u128 * b as u128) % (MODULUS as u128)) as u64
}

/// `a^e` by square-and-multiply, for an exponent fixed by the caller.
pub fn pow_constant(a: u64, e: u64) -> (r: u64)
    requires
        is_scalar(a as int),
    ensures
        r as int == pow_spec(a as int, e as nat),
        r < MODULUS,
{
    let mut result: u64 = 1;
    let mut base: u64 = a;
    let mut rest: u64 = e;
    while rest > 0
        invariant
            is_scalar(result as int),
            is_scalar(base as int),
            mul_spec(result as int, pow_spec(base as int, rest as nat)) == pow_spec(a as int, e as nat),
        decreases rest,
    {
        proof {
            lemma_pow_split(base as int, rest as nat);
        }
        if rest % 2 == 1 {
            proof {
                lemma_mul_assoc(result as int, base as int, pow_spec(mul_spec(base as int, base as int), (rest / 2) as nat));
            }
            result = scalar_mul(result, base);
        }
        base = scalar_mul(base, base);
        rest = rest / 2;
    }
    proof {
        lemma_mul_one(result as int);
    }
    result
}

/// `a^e = a^(e mod 2) * (a^2)^(e / 2)`.
proof fn lemma_pow_split(a: int, e: nat)
    requires
        is_scalar(a),
    ensures
        e % 2 == 0 ==> pow_spec(a, e) == pow_spec(mul_spec(a, a), e / 2),
        e % 2 == 1 ==> pow_spec(a, e) == mul_spec(a, pow_spec(mul_spec(a, a), e / 2)),
    decreases e,
{
    lemma_pow_is_scalar(a, e);
    if e == 0 {
    } else if e == 1 {
        assert(e / 2 == 0);
        assert(pow_spec(a, e) == mul_spec(a, pow_spec(a, 0)));
    } else {
        let e2 = (e - 2) as nat;
        lemma_pow_split(a, e2);
        lemma_pow_is_scalar(a, e2);
        lemma_pow_is_scalar(mul_spec(a, a), e2 / 2);
        assert(pow_spec(a, (e - 1) as nat) == mul_spec(a, pow_spec(a, e2)));
        assert(pow_spec(a, e) == mul_spec(a, mul_spec(a, pow_spec(a, e2))));
        lemma_mul_assoc(a, a, pow_spec(a, e2));
        assert(e / 2 == e2 / 2 + 1);
        assert(pow_spec(mul_spec(a, a), e / 2) == mul_spec(mul_spec(a, a), pow_spec(mul_spec(a, a), e2 / 2)));
        if e % 2 == 1 {
            let t = pow_spec(mul_spec(a, a), e2 / 2);
            lemma_mul_assoc(a, a, t);
        }
    }
}

pub proof fn lemma_pow_is_scalar(a: int, e: nat)
    ensures
        is_scalar(pow_spec(a, e)),
    decreases e,
{
    if e > 0 {
        lemma_mod_bound(a * pow_spec(a, (e - 1) as nat), p());
    }
}

/// `x` and `y` divisible by `d` make every integer combination of them divisible by `d`.
proof fn lemma_divides_comb(d: int, x: int, y: int, c1: int, c2: int)
    requires
        d > 0,
        x % d == 0,
        y % d == 0,
    ensures
        (c1 * x + c2 * y) % d == 0,
{
    lemma_fundamental_div_mod(x, d);
    lemma_fundamental_div_mod(y, d);
    let k = c1 * (x / d) + c2 * (y / d);
    assert(c1 * x + c2 * y == k * d) by (nonlinear_arith)
        requires
            x == d * (x / d),
            y == d * (y / d),
            k == c1 * (x / d) + c2 * (y / d),
    ;
    lemma_mod_multiples_basic(k, d);
}

/// One step of the extended Euclidean algorithm keeps `r ≡ a s (mod p)`.
proof fn lemma_euclid_step(a: int, s0: int, s1: int, r0: int, r1: int, q: int)
    requires
        mul_spec(a, s0) == r0 % p(),
        mul_spec(a, s1) == r1 % p(),
    ensures
        mul_spec(a, sub_spec(s0, mul_spec(q % p(), s1))) == (r0 - q * r1) % p(),
{
    let t = mul_spec(q % p(), s1);
    lemma_mul_mod_noop_right(a, s0 - t, p());
    lemma_mul_is_distributive_sub(a, s0, t);
    lemma_sub_mod_noop(a * s0, a * t, p());
    // a t = a ((q mod p) s1) ≡ q (a s1) ≡ q r1
    lemma_mul_reduce(q, s1);
    lemma_mul_mod_noop_right(a, q * s1, p());
    lemma_mul_is_associative(a, q, s1);
    lemma_mul_is_commutative(a, q);
    lemma_mul_is_associative(q, a, s1);
    lemma_mul_mod_noop_right(q, a * s1, p());
    lemma_mul_mod_noop_right(q, r1, p());
    assert((a * t) % p() == (q * r1) % p());
    lemma_sub_mod_noop(r0, q * r1, p());
}

/// The inverse of a scalar, found by the extended Euclidean algorithm;
/// `None` exactly when the scalar has no inverse.
pub fn invert(a: u64) -> (r: Option<u64>)
    requires
        is_scalar(a as int),
    ensures
        r.is_some() <==> has_inverse(a as int),
        r.is_some() ==> is_scalar(r.unwrap() as int) && is_inverse(a as int, r.unwrap() as int),
{
    let mut r0: u64 = MODULUS;
    let mut r1: u64 = a;
    let mut s0: u64 = 0;
    let mut s1: u64 = 1;
    proof {
        lemma_mod_self_0(p());
        lemma_small_mod(a as nat, p() as nat);
        lemma_mul_one(a as int);
    }
    while r1 != 0
        invariant
            0 < r0 <= MODULUS,
            r1 < r0,
            is_scalar(s0 as int),
            is_scalar(s1 as int),
            mul_spec(a as int, s0 as int) == (r0 as int) % p(),
            mul_spec(a as int, s1 as int) == (r1 as int) % p(),
            forall|d: int|
                d > 0 && #[trigger] ((r0 as int) % d) == 0 && (r1 as int) % d == 0 ==> p() % d == 0
                    && (a as int) % d == 0,
        decreases r1,
    {
        let q: u64 = r0 / r1;
        let rem: u64 = r0 % r1;
        let qs = scalar_mul(q % MODULUS, s1);
        let s2 = scalar_sub(s0, qs);
        proof {
            lemma_fundamental_div_mod(r0 as int, r1 as int);
            assert(rem as int == r0 as int - (q as int) * (r1 as int));
            lemma_euclid_step(a as int, s0 as int, s1 as int, r0 as int, r1 as int, q as int);
            let (or0, or1) = (r0 as int, r1 as int);
            assert forall|d: int|
                d > 0 && #[trigger] (or1 % d) == 0 && (rem as int) % d == 0 implies p() % d == 0
                    && (a as int) % d == 0 by {
                lemma_divides_comb(d, or1, rem as int, q as int, 1);
                assert(or0 % d == 0);
            }
        }
        r0 = r1;
        r1 = rem;
        s0 = s1;
        s1 = s2;
    }
    if r0 == 1 {
        proof {
            lemma_small_mod(1, p() as nat);
            assert(is_inverse(a as int, s0 as int));
        }
        Some(s0)
    } else {
        proof {
            let g = r0 as int;
            lemma_mod_self_0(g);
            assert(0int % g == 0);
            assert(p() % g == 0 && (a as int) % g == 0);
            assert forall|b: int| is_scalar(b) implies !#[trigger] is_inverse(a as int, b) by {
                if is_inverse(a as int, b) {
                    lemma_fundamental_div_mod(a as int * b, p());
                    let k = (a as int * b) / p();
                    lemma_divides_comb(g, a as int, p(), b, -k);
                    assert(b * (a as int) + (-k) * p() == 1) by (nonlinear_arith)
                        requires
                            a as int * b == p() * k + 1,
                    ;
                    lemma_small_mod(1, g as nat);
                }
            }
        }
        None
    }
}

/// Product of the first `i` elements.
pub open spec fn prefix_product(xs: Seq<u64>, i: int) -> int
    decreases i,
{
    if i <= 0 {
        1
    } else {
        mul_spec(prefix_product(xs, i - 1), xs[i - 1] as int)
    }
}

proof fn lemma_prefix_product_is_scalar(xs: Seq<u64>, i: int)
    ensures
        is_scalar(prefix_product(xs, i)),
    decreases i,
{
    if i > 0 {
        lemma_mod_bound(prefix_product(xs, i - 1) * xs[i - 1] as int, p());
    }
}

/// A product of invertible elements is invertible.
proof fn lemma_prefix_product_invertible(xs: Seq<u64>, i: int)
    requires
        0 <= i <= xs.len(),
        forall|j: int| 0 <= j < i ==> has_inverse(#[trigger] xs[j] as int),
    ensures
        has_inverse(prefix_product(xs, i)),
    decreases i,
{
    if i <= 0 {
        lemma_mul_one(1);
        assert(is_inverse(1, 1));
    } else {
        lemma_prefix_product_invertible(xs, i - 1);
        assert(has_inverse(xs[i - 1] as int));
        lemma_inverse_mul(prefix_product(xs, i - 1), xs[i - 1] as int);
    }
}

/// Every element inverted, with a single field inversion and a linear
/// number of multiplications (running products, inverted once, unwound
/// backwards). `None` exactly when some element has no inverse.
pub fn batch_invert(xs: &Vec<u64>) -> (r: Option<Vec<u64>>)
    requires
        forall|i: int| 0 <= i < xs.len() ==> is_scalar(#[trigger] xs[i] as int),
    ensures
        r.is_some() <==> forall|i: int| 0 <= i < xs.len() ==> has_inverse(#[trigger] xs[i] as int),
        r.is_some() ==> r.unwrap().len() == xs.len() && forall|i: int|
            0 <= i < xs.len() ==> is_scalar(#[trigger] r.unwrap()[i] as int) && is_inverse(
                xs[i] as int,
                r.unwrap()[i] as int,
            ) && r.unwrap()[i] as int == inv_spec(xs[i] as int),
        (exists|i: int| 0 <= i < xs.len() && #[trigger] xs[i] == 0) ==> r.is_none(),
{
    proof {
        lemma_zero_has_no_inverse();
    }
    let m = xs.len();
    let mut prefix: Vec<u64> = Vec::new();
    let mut acc: u64 = 1;
    let mut i: usize = 0;
    while i < m
        invariant
            i <= m == xs.len(),
            forall|j: int| 0 <= j < xs.len() ==> is_scalar(#[trigger] xs[j] as int),
            prefix.len() == i,
            forall|j: int| 0 <= j < i ==> #[trigger] prefix[j] as int == prefix_product(xs@, j),
            acc as int == prefix_product(xs@, i as int),
        decreases m - i,
    {
        proof {
            lemma_prefix_product_is_scalar(xs@, i as int);
        }
        prefix.push(acc);
        acc = scalar_mul(acc, xs[i]);
        i = i + 1;
    }
    proof {
        lemma_prefix_product_is_scalar(xs@, m as int);
    }
    let inv_all = invert(acc);
    match inv_all {
        None => {
            proof {
                if forall|j: int| 0 <= j < xs.len() ==> has_inverse(#[trigger] xs[j] as int) {
                    lemma_prefix_product_invertible(xs@, m as int);
                }
            }
            None
        },
        Some(inv0) => {
            let mut inv: u64 = inv0;
            let mut out: Vec<u64> = vec_of_zeros(m);
            let mut k: usize = 0;
            while k < m
                invariant
                    k <= m == xs.len() == prefix.len(),
                    forall|j: int| 0 <= j < xs.len() ==> is_scalar(#[trigger] xs[j] as int),
                    forall|j: int| 0 <= j < m ==> #[trigger] prefix[j] as int == prefix_product(xs@, j),
                    out.len() == m,
                    is_scalar(inv as int),
                    is_inverse(prefix_product(xs@, (m - k) as int), inv as int),
                    forall|j: int|
                        m - k <= j < m ==> is_scalar(#[trigger] out[j] as int) && is_inverse(
                            xs[j] as int,
                            out[j] as int,
                        ),
                decreases m - k,
            {
                let idx = m - k - 1;
                let y = scalar_mul(inv, prefix[idx]);
                let next = scalar_mul(inv, xs[idx]);
                proof {
                    let pj = prefix_product(xs@, idx as int);
                    let x = xs[idx as int] as int;
                    // x (inv pj) = inv (pj x) = inv prefix(idx + 1) = 1
                    lemma_mul_comm(x, mul_spec(inv as int, pj));
                    lemma_mul_assoc(inv as int, pj, x);
                    lemma_mul_comm(inv as int, prefix_product(xs@, idx + 1));
                    // (inv x) pj = inv prefix(idx + 1)
                    lemma_mul_comm(mul_spec(inv as int, x), pj);
                    lemma_mul_assoc(pj, inv as int, x);
                    lemma_mul_comm(pj, inv as int);
                    lemma_mul_assoc(inv as int, pj, x);
                    lemma_prefix_product_is_scalar(xs@, idx as int);
                }
                out.set(idx, y);
                inv = next;
                k = k + 1;
            }
            proof {
                assert forall|j: int| 0 <= j < xs.len() implies has_inverse(#[trigger] xs[j] as int) by {
                    assert(is_inverse(xs[j] as int, out[j] as int));
                }
                assert forall|j: int| 0 <= j < xs.len() implies #[trigger] out[j] as int == inv_spec(xs[j] as int) by {
                    lemma_inv_spec(xs[j] as int, out[j] as int);
                }
            }
            Some(out)
        },
    }
}

/// A vector of `m` zeros.
fn vec_of_zeros(m: usize) -> (r: Vec<u64>)
    ensures
        r.len() == m,
        forall|j: int| 0 <= j < m ==> r[j] == 0,
{
    let mut r: Vec<u64> = Vec::new();
    let mut i: usize = 0;
    while i < m
        invariant
            i <= m,
            r.len() == i,
            forall|j: int| 0 <= j < i ==> r[j] == 0,
        decreases m - i,
    {
        r.push(0);
        i = i + 1;
    }
    r
}

} // verus!
