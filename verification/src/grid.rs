//! Price-grid generation: the ordered sequences of sample prices the payoff
//! curve is evaluated over. Two sampling policies exist: a bounded-count
//! grid of evenly spaced points inside a ±10% band around the spot, and a
//! fixed-step grid walking from zero in whole-unit steps of 100 up to (but
//! excluding) twice the spot.

use vstd::prelude::*;
use vstd::arithmetic::div_mod::{
    lemma_div_is_ordered,
    lemma_div_multiples_vanish,
    lemma_div_pos_is_pos,
    lemma_fundamental_div_mod_converse,
};
use vstd::arithmetic::mul::lemma_mul_inequality;
use crate::payoff::AMOUNT_BOUND;

verus! {

/// Number of sample points of the bounded-count policy when the caller
/// leaves it unspecified.
pub const DEFAULT_SAMPLES: usize = 400;

/// Step of the fixed-step policy, in cents: 100 whole monetary units.
pub const FIXED_STEP_CENTS: i64 = 10_000;

/// Grid sizing chosen by the caller: either `n` evenly spaced points inside
/// the ±10% band around the spot, or whole-unit steps of 100 from zero up to
/// (but excluding) twice the spot.
#[derive(Clone, Copy, Debug, PartialEq, Eq, Structural)]
pub enum GridConfig {
    BoundedCount { n: usize },
    FixedStep,
}

impl Default for GridConfig {
    /// The historical default: a bounded-count grid of `DEFAULT_SAMPLES`
    /// points.
    fn default() -> (r: GridConfig)
        ensures
            r == (GridConfig::BoundedCount { n: DEFAULT_SAMPLES }),
    {
        GridConfig::BoundedCount { n: DEFAULT_SAMPLES }
    }
}

/// Lower edge of the bounded-count band: 90% of the spot, in cents, rounded
/// down to the cent.
pub open spec fn grid_lower(spot: int) -> int {
    (9 * spot) / 10
}

/// Upper edge of the bounded-count band: 110% of the spot, in cents, rounded
/// down to the cent.
pub open spec fn grid_upper(spot: int) -> int {
    (11 * spot) / 10
}

/// Sample `i` of a bounded-count grid of `n` points: evenly spaced from the
/// lower to the upper band edge, each sample rounded down to the cent. A
/// one-point grid holds the lower edge alone.
pub open spec fn bounded_grid_point(spot: int, n: int, i: int) -> int {
    if n == 1 {
        grid_lower(spot)
    } else {
        grid_lower(spot) + (i * (grid_upper(spot) - grid_lower(spot))) / (n - 1)
    }
}

/// Length of a fixed-step grid: one point per multiple of the step strictly
/// below twice the spot.
pub open spec fn fixed_step_len(spot: int) -> int {
    (2 * spot - 1) / (FIXED_STEP_CENTS as int) + 1
}

/// Law: within one bounded-count grid, samples at higher indices are never
/// smaller — the grid is ascending.
pub proof fn lemma_bounded_grid_ascending(spot: int, n: int, i: int, j: int)
    requires
        0 < spot,
        1 <= n,
        0 <= i <= j < n,
    ensures
        bounded_grid_point(spot, n, i) <= bounded_grid_point(spot, n, j),
{
    if n > 1 {
        let diff = grid_upper(spot) - grid_lower(spot);
        lemma_div_is_ordered(9 * spot, 11 * spot, 10);
        lemma_mul_inequality(i, j, diff);
        lemma_div_is_ordered(i * diff, j * diff, n - 1);
    }
}

/// Law: every sample of a bounded-count grid lies inside the band.
pub proof fn lemma_bounded_grid_in_band(spot: int, n: int, i: int)
    requires
        0 < spot,
        1 <= n,
        0 <= i < n,
    ensures
        grid_lower(spot) <= bounded_grid_point(spot, n, i) <= grid_upper(spot),
{
    if n > 1 {
        let diff = grid_upper(spot) - grid_lower(spot);
        lemma_div_is_ordered(9 * spot, 11 * spot, 10);
        assert(0 <= i * diff) by {
            lemma_mul_inequality(0, i, diff);
        }
        lemma_div_pos_is_pos(i * diff, n - 1);
        lemma_mul_inequality(i, n - 1, diff);
        lemma_div_is_ordered(i * diff, (n - 1) * diff, n - 1);
        lemma_div_multiples_vanish(diff, n - 1);
    }
}

/// Bounded-count sampling: `n` evenly spaced prices from 90% to 110% of the
/// spot, ascending, both band edges included when `n > 1`; a one-point grid
/// holds the lower edge alone.
pub fn bounded_count_prices(spot: i64, n: usize) -> (r: Vec<i64>)
    requires
        0 < spot <= AMOUNT_BOUND,
        n >= 1,
    ensures
        r@.len() == n,
        forall|i: int| 0 <= i < n ==> #[trigger] r@[i] == bounded_grid_point(
            spot as int,
            n as int,
            i,
        ),
        forall|i: int, j: int| 0 <= i <= j < n ==> r@[i] <= r@[j],
        r@[0] == grid_lower(spot as int),
        n > 1 ==> r@[n - 1] == grid_upper(spot as int),
        forall|i: int| 0 <= i < n ==> 0 <= #[trigger] r@[i] <= 2 * AMOUNT_BOUND,
{
    let lower: i64 = (9 * spot) / 10;
    let upper: i64 = (11 * spot) / 10;
    proof {
        lemma_div_is_ordered(9 * spot as int, 11 * spot as int, 10);
        lemma_div_pos_is_pos(9 * spot as int, 10);
        lemma_div_is_ordered(11 * spot as int, 11 * AMOUNT_BOUND as int, 10);
    }
    let mut r: Vec<i64> = Vec::new();
    if n == 1 {
        r.push(lower);
        return r;
    }
    let diff: i64 = upper - lower;
    let denom: i128 = (n - 1) as i128;
    let mut i: usize = 0;
    while i < n
        invariant
            1 < n,
            0 < spot <= AMOUNT_BOUND,
            lower == grid_lower(spot as int),
            upper == grid_upper(spot as int),
            0 <= lower <= upper <= 2 * AMOUNT_BOUND,
            diff == upper - lower,
            denom == n - 1,
            0 <= i <= n,
            r@.len() == i,
            forall|k: int| 0 <= k < i ==> r@[k] == bounded_grid_point(spot as int, n as int, k),
        decreases n - i,
    {
        proof {
            assert(0 <= (i as int) * (diff as int) <= (n - 1) * (2 * AMOUNT_BOUND as int)) by {
                lemma_mul_inequality(0, i as int, diff as int);
                vstd::arithmetic::mul::lemma_mul_upper_bound(
                    i as int,
                    n - 1,
                    diff as int,
                    2 * AMOUNT_BOUND as int,
                );
            }
            assert((n - 1) * (2 * AMOUNT_BOUND as int) <= (usize::MAX as int) * (2
                * AMOUNT_BOUND as int)) by {
                lemma_mul_inequality(n - 1, usize::MAX as int, 2 * AMOUNT_BOUND as int);
            }
        }
        let offset: i128 = ((i as i128) * (diff as i128)) / denom;
        proof {
            lemma_div_pos_is_pos((i as int) * (diff as int), n - 1);
            lemma_mul_inequality(i as int, n - 1, diff as int);
            lemma_div_is_ordered((i as int) * (diff as int), (n - 1) * (diff as int), n - 1);
            lemma_div_multiples_vanish(diff as int, n - 1);
        }
        r.push(lower + (offset as i64));
        i = i + 1;
    }
    proof {
        assert forall|a: int, b: int| 0 <= a <= b < n implies r@[a] <= r@[b] by {
            lemma_bounded_grid_ascending(spot as int, n as int, a, b);
        }
        assert forall|a: int| 0 <= a < n implies 0 <= #[trigger] r@[a] <= 2 * AMOUNT_BOUND by {
            lemma_bounded_grid_in_band(spot as int, n as int, a);
        }
        assert(r@[n - 1] == grid_upper(spot as int)) by {
            lemma_div_multiples_vanish(diff as int, n - 1);
        }
    }
    r
}

/// Fixed-step sampling: prices `0, 100, 200, ...` monetary units (in cents),
/// stopping strictly before twice the spot.
pub fn fixed_step_prices(spot: i64) -> (r: Vec<i64>)
    requires
        0 < spot <= AMOUNT_BOUND,
    ensures
        r@.len() == fixed_step_len(spot as int),
        r@.len() >= 1,
        forall|k: int| 0 <= k < r@.len() ==> #[trigger] r@[k] == k * (FIXED_STEP_CENTS as int),
        forall|a: int, b: int| 0 <= a <= b < r@.len() ==> r@[a] <= r@[b],
        (r@.len() - 1) * (FIXED_STEP_CENTS as int) < 2 * spot,
        r@.len() * (FIXED_STEP_CENTS as int) >= 2 * spot,
        forall|k: int| 0 <= k < r@.len() ==> 0 <= #[trigger] r@[k] <= 2 * AMOUNT_BOUND,
{
    let limit: i64 = 2 * spot;
    let mut r: Vec<i64> = Vec::new();
    let mut price: i64 = 0;
    while price < limit
        invariant
            0 < limit <= 2 * AMOUNT_BOUND,
            0 <= price <= limit + FIXED_STEP_CENTS - 1,
            price == r@.len() * (FIXED_STEP_CENTS as int),
            forall|k: int| 0 <= k < r@.len() ==> r@[k] == k * (FIXED_STEP_CENTS as int),
            r@.len() == 0 || (r@.len() - 1) * (FIXED_STEP_CENTS as int) < limit,
        decreases limit + FIXED_STEP_CENTS - price,
    {
        r.push(price);
        price = price + FIXED_STEP_CENTS;
    }
    proof {
        let step = FIXED_STEP_CENTS as int;
        let len = r@.len() as int;
        assert(len >= 1);
        let rem = (2 * spot - 1) - (len - 1) * step;
        assert(2 * spot - 1 == step * (len - 1) + rem) by {
            vstd::arithmetic::mul::lemma_mul_is_commutative(len - 1, step);
        }
        lemma_fundamental_div_mod_converse(2 * spot - 1, step, len - 1, rem);
        assert forall|a: int, b: int| 0 <= a <= b < len implies r@[a] <= r@[b] by {
            lemma_mul_inequality(a, b, step);
        }
        assert forall|k: int| 0 <= k < len implies 0 <= #[trigger] r@[k] <= 2 * AMOUNT_BOUND by {
            lemma_mul_inequality(0, k, step);
        }
    }
    r
}

} // verus!
