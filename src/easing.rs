use vstd::prelude::*;
use crate::utils::{is_unit, ONE};

verus! {

/// `y` raised to the `n`-th power in fixed point, rounding down after each product.
pub open spec fn pow_fx(y: int, n: nat) -> int
    decreases n,
{
    if n == 0 {
        ONE as int
    } else {
        pow_fx(y, (n - 1) as nat) * y / (ONE as int)
    }
}

/// `y` is the least unit value whose `n`-th fixed-point power reaches `t`:
/// the fixed-point `n`-th root of `t`.
pub open spec fn is_root(t: int, n: nat, y: int) -> bool {
    &&& is_unit(y)
    &&& pow_fx(y, n) >= t
    &&& forall|z: int| 0 <= z < y ==> #[trigger] pow_fx(z, n) < t
}

/// The fixed-point `n`-th root of `t`.
pub open spec fn root_fx(t: int, n: nat) -> int {
    choose|y: int| is_root(t, n, y)
}

/// The power curve of shape `k` on a unit input `x`: the power `k + 1` for
/// `k >= 0`, the root of degree `1 - k` for `k < 0`; the identity for `k == 0`.
pub open spec fn shape(k: int, x: int) -> int {
    if k >= 0 {
        pow_fx(x, (k + 1) as nat)
    } else {
        root_fx(x, (1 - k) as nat)
    }
}

/// An easing shape: how progress between two control points is weighted.
#[derive(Clone, Copy, Debug, PartialEq, Eq, Structural)]
pub enum Weight {
    /// Jumps straight to the point being approached.
    Constant,
    /// A power curve; `Quadratic(0)` is linear.
    Quadratic(i32),
    /// A power curve mirrored about the midpoint: an S-curve, point-symmetric
    /// about (1/2, 1/2). The upper half rounds down, the lower half up.
    Cubic(i32),
}

impl Weight {
    /// The eased progress for a unit progress `t`.
    pub open spec fn spec_eval(self, t: int) -> int {
        match self {
            Weight::Constant => ONE as int,
            Weight::Quadratic(k) => shape(k as int, t),
            Weight::Cubic(k) => {
                let x = 2 * t - ONE;
                if x >= 0 {
                    (shape(k as int, x) + ONE) / 2
                } else {
                    ONE - (shape(k as int, -x) + ONE) / 2
                }
            },
        }
    }

    pub fn eval(&self, t: i64) -> (r: i64)
        requires
            is_unit(t as int),
        ensures
            r as int == self.spec_eval(t as int),
            is_unit(r as int),
    {
        match self {
            Weight::Constant => ONE,
            Weight::Quadratic(k) => shape_exec(*k, t),
            Weight::Cubic(k) => {
                let x: i64 = 2 * t - ONE;
                if x >= 0 {
                    (shape_exec(*k, x) + ONE) / 2
                } else {
                    ONE - (shape_exec(*k, -x) + ONE) / 2
                }
            },
        }
    }
}

proof fn lemma_pow_bounds(y: int, n: nat)
    requires
        is_unit(y),
    ensures
        0 <= pow_fx(y, n) <= ONE,
        n >= 1 ==> pow_fx(y, n) <= y,
    decreases n,
{
    if n > 0 {
        lemma_pow_bounds(y, (n - 1) as nat);
        let p = pow_fx(y, (n - 1) as nat);
        assert(0 <= p * y <= 65536 * y) by (nonlinear_arith)
            requires
                0 <= p <= 65536,
                0 <= y,
        ;
        vstd::arithmetic::div_mod::lemma_div_is_ordered(0, p * y, 65536);
        vstd::arithmetic::div_mod::lemma_div_is_ordered(p * y, 65536 * y, 65536);
        vstd::arithmetic::div_mod::lemma_div_multiples_vanish(y, 65536);
        assert(65536 * y == y * 65536);
    }
}

proof fn lemma_pow_monotone(a: int, b: int, n: nat)
    requires
        0 <= a <= b <= ONE,
    ensures
        pow_fx(a, n) <= pow_fx(b, n),
    decreases n,
{
    if n > 0 {
        lemma_pow_monotone(a, b, (n - 1) as nat);
        lemma_pow_bounds(a, (n - 1) as nat);
        let pa = pow_fx(a, (n - 1) as nat);
        let pb = pow_fx(b, (n - 1) as nat);
        assert(pa * a <= pb * b) by (nonlinear_arith)
            requires
                0 <= pa <= pb,
                0 <= a <= b,
        ;
        vstd::arithmetic::div_mod::lemma_div_is_ordered(pa * a, pb * b, 65536);
    }
}

proof fn lemma_root_unique(t: int, n: nat, y: int)
    requires
        is_root(t, n, y),
    ensures
        root_fx(t, n) == y,
{
    let c = root_fx(t, n);
    assert(is_root(t, n, c));
    if c < y {
        assert(pow_fx(c, n) < t);
    }
    if y < c {
        assert(pow_fx(y, n) < t);
    }
}

/// The `n`-th fixed-point power of a unit value.
fn pow_exec(y: i64, n: u64) -> (r: i64)
    requires
        is_unit(y as int),
    ensures
        r as int == pow_fx(y as int, n as nat),
        is_unit(r as int),
{
    let mut acc: i64 = ONE;
    let mut i: u64 = 0;
    while i < n
        invariant
            is_unit(y as int),
            i <= n,
            acc as int == pow_fx(y as int, i as nat),
            is_unit(acc as int),
        decreases n - i,
    {
        proof {
            lemma_pow_bounds(y as int, (i + 1) as nat);
            assert(0 <= acc * y <= 4294967296) by (nonlinear_arith)
                requires
                    0 <= acc <= 65536,
                    0 <= y <= 65536,
            ;
        }
        acc = acc * y / ONE;
        i = i + 1;
    }
    acc
}

/// The fixed-point `n`-th root of a unit value, by binary search.
fn root_exec(t: i64, n: u64) -> (r: i64)
    requires
        is_unit(t as int),
    ensures
        r as int == root_fx(t as int, n as nat),
        is_unit(r as int),
{
    let mut lo: i64 = 0;
    let mut hi: i64 = ONE;
    proof {
        lemma_pow_bounds(ONE as int, n as nat);
        assert(pow_fx(ONE as int, n as nat) >= t) by {
            lemma_pow_at_one(n as nat);
        }
    }
    while lo < hi
        invariant
            is_unit(t as int),
            0 <= lo <= hi <= ONE,
            pow_fx(hi as int, n as nat) >= t,
            forall|z: int| 0 <= z < lo ==> #[trigger] pow_fx(z, n as nat) < t,
        decreases hi - lo,
    {
        let mid: i64 = lo + (hi - lo) / 2;
        if pow_exec(mid, n) >= t {
            hi = mid;
        } else {
            proof {
                assert forall|z: int| 0 <= z <= mid implies #[trigger] pow_fx(z, n as nat) < t by {
                    lemma_pow_monotone(z, mid as int, n as nat);
                }
            }
            lo = mid + 1;
        }
    }
    proof {
        lemma_root_unique(t as int, n as nat, lo as int);
    }
    lo
}

proof fn lemma_pow_at_one(n: nat)
    ensures
        pow_fx(ONE as int, n) == ONE,
    decreases n,
{
    if n > 0 {
        lemma_pow_at_one((n - 1) as nat);
        vstd::arithmetic::div_mod::lemma_div_multiples_vanish(65536, 65536);
    }
}

/// The power curve of shape `k` on a unit input.
fn shape_exec(k: i32, x: i64) -> (r: i64)
    requires
        is_unit(x as int),
    ensures
        r as int == shape(k as int, x as int),
        is_unit(r as int),
{
    if k >= 0 {
        pow_exec(x, k as u64 + 1)
    } else {
        root_exec(x, (1 - k as i64) as u64)
    }
}


/// Every shape passes through the ends: `Quadratic(k)` maps 0 to 0 and 1 to 1;
/// `Cubic(k)` maps 0 to 0, one half to one half and 1 to 1; `Constant` is 1
/// on the whole unit interval.
pub proof fn lemma_weight_endpoints(k: i32, t: int)
    requires
        is_unit(t),
    ensures
        Weight::Quadratic(k).spec_eval(0) == 0,
        Weight::Quadratic(k).spec_eval(ONE as int) == ONE,
        Weight::Cubic(k).spec_eval(0) == 0,
        Weight::Cubic(k).spec_eval(ONE as int / 2) == ONE / 2,
        Weight::Cubic(k).spec_eval(ONE as int) == ONE,
        Weight::Constant.spec_eval(t) == ONE,
{
    lemma_shape_endpoints(k as int);
}

proof fn lemma_shape_endpoints(k: int)
    ensures
        shape(k, 0) == 0,
        shape(k, ONE as int) == ONE,
{
    if k >= 0 {
        let n = (k + 1) as nat;
        lemma_pow_bounds(0, n);
        lemma_pow_at_one(n);
    } else {
        let n = (1 - k) as nat;
        lemma_pow_bounds(0, n);
        lemma_root_unique(0, n, 0);
        lemma_pow_at_one(n);
        assert forall|z: int| 0 <= z < ONE implies #[trigger] pow_fx(z, n) < ONE by {
            lemma_pow_bounds(z, n);
        }
        lemma_root_unique(ONE as int, n, ONE as int);
    }
}


/// `Cubic(k)` is point-symmetric about the midpoint: the eased value at
/// `1 - t` is one minus the eased value at `t`.
pub proof fn lemma_cubic_symmetric(k: i32, t: int)
    requires
        is_unit(t),
    ensures
        Weight::Cubic(k).spec_eval(ONE - t) == ONE - Weight::Cubic(k).spec_eval(t),
{
    lemma_shape_endpoints(k as int);
}

} // verus!
