//! Evaluation domains: the multiplicative subgroups of order `2^k`.
use crate::field::{
    is_inverse, is_scalar, lemma_mul_assoc, lemma_mul_comm, lemma_mul_one, lemma_pow_is_scalar, mul_spec, pow_spec, scalar_mul,
    ROOT_OF_UNITY, ROOT_OF_UNITY_INV, TWO_ADICITY,
};
use vstd::arithmetic::div_mod::lemma_fundamental_div_mod_converse_mod;
use vstd::arithmetic::power2::*;
use vstd::prelude::*;

verus! {

/// `x` squared `j` times, that is `x^(2^j)`.
pub open spec fn square_times(x: int, j: nat) -> int
    decreases j,
{
    if j == 0 {
        x
    } else {
        let y = square_times(x, (j - 1) as nat);
        mul_spec(y, y)
    }
}

/// The generator of the subgroup of order `2^k`.
pub open spec fn omega_spec(k: nat) -> int {
    square_times(ROOT_OF_UNITY as int, (TWO_ADICITY - k) as nat)
}

/// The inverse of that generator.
pub open spec fn omega_inv_spec(k: nat) -> int {
    square_times(ROOT_OF_UNITY_INV as int, (TWO_ADICITY - k) as nat)
}

/// The domain of size `n = 2^k` generated by `omega`.
pub struct Domain {
    pub k: usize,
    pub n: usize,
    pub omega: u64,
    pub omega_inv: u64,
}

impl Domain {
    pub open spec fn wf(&self) -> bool {
        &&& self.k < TWO_ADICITY
        &&& self.n == pow2(self.k as nat)
        &&& self.omega == omega_spec(self.k as nat)
        &&& self.omega_inv == omega_inv_spec(self.k as nat)
        &&& is_scalar(self.omega as int)
        &&& is_scalar(self.omega_inv as int)
        &&& is_inverse(self.omega as int, self.omega_inv as int)
    }

    /// The domain of size `2^k`.
    pub fn new(k: u32) -> (r: Domain)
        requires
            k < TWO_ADICITY,
        ensures
            r.wf(),
            r.k == k,
    {
        let mut n: usize = 1;
        let mut i: u32 = 0;
        proof {
            lemma2_to64();
        }
        while i < k
            invariant
                i <= k < TWO_ADICITY,
                n == pow2(i as nat),
            decreases k - i,
        {
            proof {
                lemma_pow2_unfold((i + 1) as nat);
                if i + 1 < 31 {
                    lemma_pow2_strictly_increases((i + 1) as nat, 31);
                }
                lemma2_to64();
            }
            n = n * 2;
            i = i + 1;
        }
        let mut omega: u64 = ROOT_OF_UNITY;
        let mut omega_inv: u64 = ROOT_OF_UNITY_INV;
        let mut j: u32 = 0;
        proof {
            let prod: int = 15000989296029362726448170468790767788;
            assert(1753635133440165772int * 8554224884056360729int == 15000989296029362726448170468790767788int)
                by (nonlinear_arith);
            assert(prod == 18446744069414584321 * 813205259398680747int + 1);
            lemma_fundamental_div_mod_converse_mod(prod, 18446744069414584321, 813205259398680747, 1);
            assert(is_inverse(ROOT_OF_UNITY as int, ROOT_OF_UNITY_INV as int));
        }
        while j < TWO_ADICITY - k
            invariant
                j <= TWO_ADICITY - k,
                omega == square_times(ROOT_OF_UNITY as int, j as nat),
                omega_inv == square_times(ROOT_OF_UNITY_INV as int, j as nat),
                is_scalar(omega as int),
                is_scalar(omega_inv as int),
                is_inverse(omega as int, omega_inv as int),
            decreases TWO_ADICITY - k - j,
        {
            proof {
                lemma_square_inverse(omega as int, omega_inv as int);
            }
            omega = scalar_mul(omega, omega);
            omega_inv = scalar_mul(omega_inv, omega_inv);
            j = j + 1;
        }
        Domain { k: k as usize, n, omega, omega_inv }
    }
}

/// Squares of mutually inverse elements are mutually inverse.
proof fn lemma_square_inverse(x: int, y: int)
    requires
        is_scalar(x),
        is_scalar(y),
        is_inverse(x, y),
    ensures
        is_inverse(mul_spec(x, x), mul_spec(y, y)),
{
    // (x x)(y y) = x (x (y y)) = x ((x y) y) = x y = 1
    lemma_mul_assoc(x, x, mul_spec(y, y));
    lemma_mul_assoc(x, y, y);
    lemma_mul_one(y);
}

/// `[x^0, x^1, ..., x^(count - 1)]`.
pub fn powers(x: u64, count: usize) -> (r: Vec<u64>)
    requires
        is_scalar(x as int),
    ensures
        r.len() == count,
        forall|j: int| 0 <= j < count ==> #[trigger] r[j] as int == pow_spec(x as int, j as nat),
{
    let mut r: Vec<u64> = Vec::new();
    let mut cur: u64 = 1;
    let mut i: usize = 0;
    while i < count
        invariant
            i <= count,
            is_scalar(x as int),
            r.len() == i,
            cur as int == pow_spec(x as int, i as nat),
            forall|j: int| 0 <= j < i ==> #[trigger] r[j] as int == pow_spec(x as int, j as nat),
        decreases count - i,
    {
        r.push(cur);
        proof {
            lemma_pow_is_scalar(x as int, i as nat);
            lemma_mul_comm(x as int, cur as int);
        }
        cur = scalar_mul(cur, x);
        i = i + 1;
    }
    r
}

} // verus!
