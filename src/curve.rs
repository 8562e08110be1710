//! The bonding curve: unit `i` is worth `i * i` scaled by
//! `PRICE_NUMERATOR / PRICE_DENOMINATOR`, and a trade of `n` units is priced by
//! summing over the units it covers and flooring once at the end.

use vstd::prelude::*;

verus! {

/// Scale applied to the summed squares before the final division.
pub const PRICE_NUMERATOR: u128 = 1_000_000;

/// Divisor applied once, after summing and scaling.
pub const PRICE_DENOMINATOR: u128 = 16_000;

/// `0^2 + 1^2 + ... + (k - 1)^2`.
pub open spec fn sum_sq(k: nat) -> nat
    decreases k,
{
    if k == 0 {
        0
    } else {
        let j = (k - 1) as nat;
        sum_sq(j) + j * j
    }
}

/// `lo^2 + (lo + 1)^2 + ... + (lo + n - 1)^2`: the units `[lo, lo + n - 1]`.
pub open spec fn range_sq(lo: nat, n: nat) -> nat
    decreases n,
{
    if n == 0 {
        0
    } else {
        let top = (lo + n - 1) as nat;
        range_sq(lo, (n - 1) as nat) + top * top
    }
}

/// Price of the `n` units `[lo, lo + n - 1]`, floored once.
pub open spec fn curve_price(lo: nat, n: nat) -> nat {
    range_sq(lo, n) * PRICE_NUMERATOR as nat / PRICE_DENOMINATOR as nat
}

/// `6 * sum_sq(k)` in closed form.
pub open spec fn six_sum_sq(k: nat) -> int {
    (k - 1) * k * (2 * k - 1)
}

/// The closed form of `sum_sq(k)` can be evaluated in `u128`.
pub open spec fn sum_sq_fits(k: nat) -> bool {
    six_sum_sq(k) <= u128::MAX
}

/// Every step of the evaluation of `curve_price(lo, n)` fits in `u128`.
pub open spec fn price_computable(lo: nat, n: nat) -> bool {
    &&& sum_sq_fits(lo + n)
    &&& range_sq(lo, n) * PRICE_NUMERATOR <= u128::MAX
}

pub proof fn lemma_sum_sq_closed_form(k: nat)
    ensures
        6 * sum_sq(k) == six_sum_sq(k),
    decreases k,
{
    if k == 0 {
        assert(six_sum_sq(k) == 0) by (nonlinear_arith)
            requires
                k == 0,
        ;
    } else {
        let j = (k - 1) as nat;
        lemma_sum_sq_closed_form(j);
        assert((j - 1) * j * (2 * j - 1) + 6 * (j * j) == j * (j + 1) * (2 * j + 1))
            by (nonlinear_arith);
        assert((k - 1) * k * (2 * k - 1) == j * (j + 1) * (2 * j + 1)) by (nonlinear_arith)
            requires
                k == j + 1,
        ;
    }
}

pub proof fn lemma_range_sq_split(lo: nat, n: nat)
    ensures
        sum_sq(lo + n) == sum_sq(lo) + range_sq(lo, n),
    decreases n,
{
    if n > 0 {
        lemma_range_sq_split(lo, (n - 1) as nat);
    }
}

proof fn lemma_six_sum_sq_monotonic(a: nat, b: nat)
    requires
        a <= b,
    ensures
        six_sum_sq(a) <= six_sum_sq(b),
{
    lemma_sum_sq_closed_form(a);
    lemma_sum_sq_closed_form(b);
    lemma_range_sq_split(a, (b - a) as nat);
}

/// `sum_sq(k)`, or `None` where the closed form does not fit in `u128`.
fn sum_squares_below(k: u128) -> (r: Option<u128>)
    ensures
        r == (if sum_sq_fits(k as nat) {
            Some(sum_sq(k as nat) as u128)
        } else {
            None
        }),
{
    proof {
        lemma_sum_sq_closed_form(k as nat);
    }
    if k == 0 {
        return Some(0);
    }
    let a: u128 = k - 1;
    let b: u128 = k;
    let ab = match a.checked_mul(b) {
        Some(v) => v,
        None => {
            assert(a * b * (2 * k - 1) >= a * b) by (nonlinear_arith)
                requires
                    k >= 1,
                    a >= 0,
                    b >= 0,
            ;
            return None;
        },
    };
    if k > u128::MAX / 2 {
        assert(a * b >= 2 * k - 1) by (nonlinear_arith)
            requires
                k > u128::MAX / 2,
                a == k - 1,
                b == k,
        ;
        assert(a * b * (2 * k - 1) > u128::MAX) by (nonlinear_arith)
            requires
                a * b >= 2 * k - 1,
                2 * k - 1 >= u128::MAX,
        ;
        return None;
    }
    let c: u128 = 2 * k - 1;
    match ab.checked_mul(c) {
        Some(v) => Some(v / 6),
        None => None,
    }
}

/// Price of the `n` units `[lo, lo + n - 1]`, or `None` where an
/// intermediate value leaves `u128`.
pub fn price_of_units(lo: u128, n: u128) -> (r: Option<u128>)
    ensures
        r == (if price_computable(lo as nat, n as nat) {
            Some(curve_price(lo as nat, n as nat) as u128)
        } else {
            None
        }),
{
    proof {
        lemma_range_sq_split(lo as nat, n as nat);
        lemma_six_sum_sq_monotonic(lo as nat, (lo + n) as nat);
        lemma_sum_sq_closed_form(lo as nat);
        lemma_sum_sq_closed_form((lo + n) as nat);
    }
    let hi = match lo.checked_add(n) {
        Some(v) => v,
        None => {
            let ghost k = lo + n;
            assert((k - 1) * k * (2 * k - 1) >= k) by (nonlinear_arith)
                requires
                    k >= 2,
            ;
            return None;
        },
    };
    let upper = match sum_squares_below(hi) {
        Some(v) => v,
        None => return None,
    };
    let lower = match sum_squares_below(lo) {
        Some(v) => v,
        None => return None,
    };
    let units = upper - lower;
    match units.checked_mul(PRICE_NUMERATOR) {
        Some(v) => Some(v / PRICE_DENOMINATOR),
        None => None,
    }
}

/// Whenever a price can be computed, the units it covers can be counted in
/// `u128`.
pub proof fn lemma_computable_units_fit(lo: nat, n: nat)
    requires
        price_computable(lo, n),
    ensures
        lo + n <= u128::MAX,
{
    let k = lo + n;
    if k >= 2 {
        assert((k - 1) * k * (2 * k - 1) >= k) by (nonlinear_arith)
            requires
                k >= 2,
        ;
    }
}

} // verus!
