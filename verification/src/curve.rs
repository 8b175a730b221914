//! Curve assembly: evaluating a whole position set over a price grid and
//! aggregating the per-leg payoffs into one payoff per sample price.
//!
//! Amounts are integer cents, so each leg payoff and each per-price sum is
//! exact to the cent: rounding the portfolio value to two decimal places is
//! the identity, and no rounding error accumulates whichever order the legs
//! are summed in.

use vstd::prelude::*;
use vstd::seq_lib::{commutative_foldr, lemma_fold_right_permutation};
use crate::grid::{
    bounded_count_prices,
    bounded_grid_point,
    fixed_step_len,
    fixed_step_prices,
    GridConfig,
    DEFAULT_SAMPLES,
    FIXED_STEP_CENTS,
};
use crate::payoff::{
    position_payoff,
    valid_position,
    valid_price,
    OptionData,
    OptionDataSet,
    AMOUNT_BOUND,
};

verus! {

/// Magnitude bound, in cents, of one leg's payoff at a valid price: the
/// intrinsic value is at most the price or the strike, the premium at most
/// the amount bound.
pub const LEG_PAYOFF_BOUND: i64 = 0x1800_0000_0000_0000;

/// The output curve: sample prices `x` (ascending, in cents) and the
/// aggregate portfolio payoff `y` at each price (in cents), aligned by
/// index and of equal length.
#[derive(Clone, Debug, Default, PartialEq)]
pub struct Payoff {
    pub x: Vec<i64>,
    pub y: Vec<i128>,
}

/// Why a computation was rejected: each variant names the invalid input.
#[derive(Clone, Copy, Debug, PartialEq, Eq, Structural)]
pub enum PayoffError {
    /// The reference spot price was zero or negative.
    NonPositiveSpot,
    /// Some position's strike was zero or negative.
    NonPositiveStrike,
    /// A bounded-count grid of zero samples was requested.
    ZeroSampleCount,
}

/// Aggregate payoff of a sequence of legs at one sample price: the sum of
/// the per-leg payoffs, zero for the empty sequence.
pub open spec fn total_payoff(positions: Seq<OptionData>, price: int) -> int
    decreases positions.len(),
{
    if positions.len() == 0 {
        0
    } else {
        total_payoff(positions.drop_last(), price) + position_payoff(positions.last(), price)
    }
}

/// One summation step as a fold operator, used to relate `total_payoff` to
/// `Seq::fold_right`.
pub open spec fn payoff_step(price: int) -> spec_fn(OptionData, int) -> int {
    |option_data: OptionData, acc: int| position_payoff(option_data, price) + acc
}

/// Every position of the sequence is well formed.
pub open spec fn valid_positions(positions: Seq<OptionData>) -> bool {
    forall|i: int| 0 <= i < positions.len() ==> valid_position(#[trigger] positions[i])
}

/// Law: the empty position set pays exactly zero at every price.
pub proof fn lemma_empty_total_payoff(price: int)
    ensures
        total_payoff(Seq::<OptionData>::empty(), price) == 0,
{
}

/// Law: aggregation distributes over concatenation — summing two sets of
/// legs together equals summing each and adding the results.
pub proof fn lemma_total_payoff_concat(s1: Seq<OptionData>, s2: Seq<OptionData>, price: int)
    ensures
        total_payoff(s1 + s2, price) == total_payoff(s1, price) + total_payoff(s2, price),
    decreases s2.len(),
{
    if s2.len() == 0 {
        assert(s1 + s2 =~= s1);
    } else {
        assert((s1 + s2).drop_last() =~= s1 + s2.drop_last());
        assert((s1 + s2).last() == s2.last());
        lemma_total_payoff_concat(s1, s2.drop_last(), price);
    }
}

/// `total_payoff` is the fold of `payoff_step` with any seed.
proof fn lemma_total_payoff_is_fold(positions: Seq<OptionData>, price: int, seed: int)
    ensures
        positions.fold_right(payoff_step(price), seed) == total_payoff(positions, price) + seed,
    decreases positions.len(),
{
    if positions.len() > 0 {
        lemma_total_payoff_is_fold(
            positions.drop_last(),
            price,
            payoff_step(price)(positions.last(), seed),
        );
    }
}

/// Law: summation over a position set is order-independent — two sequences
/// holding the same legs (as a multiset) aggregate to the same payoff at
/// every price, so reordering a set does not change the output curve.
pub proof fn lemma_total_payoff_permutation(s1: Seq<OptionData>, s2: Seq<OptionData>, price: int)
    requires
        s1.to_multiset() == s2.to_multiset(),
    ensures
        total_payoff(s1, price) == total_payoff(s2, price),
{
    assert(commutative_foldr(payoff_step(price)));
    lemma_fold_right_permutation(s1, s2, payoff_step(price), 0);
    lemma_total_payoff_is_fold(s1, price, 0);
    lemma_total_payoff_is_fold(s2, price, 0);
}

/// Law: a computation over the empty position set that succeeds yields a
/// payoff of exactly zero at every sample price.
pub proof fn lemma_empty_set_curve_is_zero(
    spot: int,
    config: GridConfig,
    r: Result<Payoff, PayoffError>,
)
    requires
        compute_post(Seq::<OptionData>::empty(), spot, config, r),
        r is Ok,
    ensures
        forall|i: int| 0 <= i < (r->Ok_0).y@.len() ==> #[trigger] (r->Ok_0).y@[i] == 0,
{
}

/// Positive strikes are a property of the legs alone, so any reordering of a
/// set keeps it.
proof fn lemma_positive_strikes_transfer(s1: Seq<OptionData>, s2: Seq<OptionData>)
    requires
        s1.to_multiset() == s2.to_multiset(),
        all_strikes_positive(s1),
    ensures
        all_strikes_positive(s2),
{
    broadcast use vstd::seq_lib::to_multiset_contains;

    assert forall|i: int| 0 <= i < s2.len() implies (#[trigger] s2[i]).strike > 0 by {
        assert(s2.contains(s2[i]));
        assert(s2.to_multiset().count(s2[i]) > 0);
        assert(s1.contains(s2[i]));
    }
}

/// Law: reordering the positions of a set changes nothing a caller can see.
/// With the same spot and grid configuration, computations over two
/// orderings of the same legs are owed equal results: the same error, or
/// curves with identical prices and identical payoffs.
pub proof fn lemma_reordering_preserves_curve(
    s1: Seq<OptionData>,
    s2: Seq<OptionData>,
    spot: int,
    config: GridConfig,
    r1: Result<Payoff, PayoffError>,
    r2: Result<Payoff, PayoffError>,
)
    requires
        s1.to_multiset() == s2.to_multiset(),
        compute_post(s1, spot, config, r1),
        compute_post(s2, spot, config, r2),
    ensures
        r1 is Err ==> r2 == r1,
        r2 is Err ==> r1 == r2,
        r1 is Ok && r2 is Ok ==> (r1->Ok_0).x@ == (r2->Ok_0).x@ && (r1->Ok_0).y@ == (
        r2->Ok_0).y@,
{
    if all_strikes_positive(s1) {
        lemma_positive_strikes_transfer(s1, s2);
    }
    if all_strikes_positive(s2) {
        lemma_positive_strikes_transfer(s2, s1);
    }
    if spot > 0 && config_valid(config) && all_strikes_positive(s1) {
        let p1 = r1->Ok_0;
        let p2 = r2->Ok_0;
        assert(p1.x@ =~= p2.x@);
        assert forall|i: int| 0 <= i < p1.y@.len() implies #[trigger] p1.y@[i] == p2.y@[i] by {
            lemma_total_payoff_permutation(s1, s2, p1.x@[i] as int);
        }
        assert(p1.y@ =~= p2.y@);
    }
}

/// Bound on one leg's payoff, used to keep the running sum inside `i128`.
proof fn lemma_position_payoff_bound(option_data: OptionData, price: int)
    requires
        valid_position(option_data),
        valid_price(price),
    ensures
        -LEG_PAYOFF_BOUND <= position_payoff(option_data, price) <= LEG_PAYOFF_BOUND,
{
}

/// Aggregate payoff of a set of legs at one sample price, exact in cents.
pub fn sum_position_payoffs(options: &Vec<OptionData>, price: i64) -> (t: i128)
    requires
        valid_positions(options@),
        valid_price(price as int),
    ensures
        t == total_payoff(options@, price as int),
{
    let mut acc: i128 = 0;
    let mut i: usize = 0;
    while i < options.len()
        invariant
            valid_positions(options@),
            valid_price(price as int),
            0 <= i <= options@.len(),
            acc == total_payoff(options@.take(i as int), price as int),
            -(i as int) * (LEG_PAYOFF_BOUND as int) <= acc <= (i as int) * (
            LEG_PAYOFF_BOUND as int),
        decreases options@.len() - i,
    {
        let leg: i64 = crate::payoff::calculate_total_payoff(&options[i], price);
        proof {
            lemma_position_payoff_bound(options@[i as int], price as int);
            assert(options@.take(i as int + 1).drop_last() =~= options@.take(i as int));
            assert(options@.take(i as int + 1).last() == options@[i as int]);
            assert((i as int) * (LEG_PAYOFF_BOUND as int) + LEG_PAYOFF_BOUND == (i as int + 1) * (
            LEG_PAYOFF_BOUND as int)) by {
                vstd::arithmetic::mul::lemma_mul_is_distributive_add_other_way(
                    LEG_PAYOFF_BOUND as int,
                    i as int,
                    1,
                );
            }
            assert((i as int + 1) * (LEG_PAYOFF_BOUND as int) <= (usize::MAX as int + 1) * (
            LEG_PAYOFF_BOUND as int)) by {
                vstd::arithmetic::mul::lemma_mul_inequality(
                    i as int + 1,
                    usize::MAX as int + 1,
                    LEG_PAYOFF_BOUND as int,
                );
            }
        }
        acc = acc + (leg as i128);
        i = i + 1;
    }
    proof {
        assert(options@.take(options@.len() as int) =~= options@);
    }
    acc
}

/// Payoffs aligned with a price grid: entry `i` is the aggregate payoff of
/// the set at price `prices[i]`.
pub fn aggregate_payoffs(options: &Vec<OptionData>, prices: &Vec<i64>) -> (y: Vec<i128>)
    requires
        valid_positions(options@),
        forall|i: int| 0 <= i < prices@.len() ==> valid_price(#[trigger] prices@[i] as int),
    ensures
        y@.len() == prices@.len(),
        forall|i: int| 0 <= i < y@.len() ==> #[trigger] y@[i] == total_payoff(
            options@,
            prices@[i] as int,
        ),
{
    let mut y: Vec<i128> = Vec::new();
    let mut i: usize = 0;
    while i < prices.len()
        invariant
            valid_positions(options@),
            forall|k: int| 0 <= k < prices@.len() ==> valid_price(#[trigger] prices@[k] as int),
            0 <= i <= prices@.len(),
            y@.len() == i,
            forall|k: int| 0 <= k < i ==> #[trigger] y@[k] == total_payoff(
                options@,
                prices@[k] as int,
            ),
        decreases prices@.len() - i,
    {
        let t: i128 = sum_position_payoffs(options, prices[i]);
        y.push(t);
        i = i + 1;
    }
    y
}

/// The sample count a bounded-count configuration requests is positive;
/// the fixed-step policy has no sizing parameter to reject.
pub open spec fn config_valid(config: GridConfig) -> bool {
    match config {
        GridConfig::BoundedCount { n } => n >= 1,
        GridConfig::FixedStep => true,
    }
}

/// Number of samples the chosen policy produces for a positive spot.
pub open spec fn grid_len(spot: int, config: GridConfig) -> int {
    match config {
        GridConfig::BoundedCount { n } => n as int,
        GridConfig::FixedStep => fixed_step_len(spot),
    }
}

/// Sample `i` of the chosen policy's grid.
pub open spec fn grid_point(spot: int, config: GridConfig, i: int) -> int {
    match config {
        GridConfig::BoundedCount { n } => bounded_grid_point(spot, n as int, i),
        GridConfig::FixedStep => i * (FIXED_STEP_CENTS as int),
    }
}

/// Every strike of the sequence is positive.
pub open spec fn all_strikes_positive(positions: Seq<OptionData>) -> bool {
    forall|i: int| 0 <= i < positions.len() ==> (#[trigger] positions[i]).strike > 0
}

/// Amounts of every position lie within the machine bound; this is what
/// `compute` demands of its caller beyond what the domain itself rejects.
pub open spec fn amounts_in_bounds(positions: Seq<OptionData>) -> bool {
    forall|i: int| 0 <= i < positions.len() ==> (#[trigger] positions[i]).strike <= AMOUNT_BOUND
        && -AMOUNT_BOUND <= positions[i].ccy2 <= AMOUNT_BOUND
}

/// The curve `p` is exactly the one the chosen policy and position set
/// define: the grid of the policy, and at each grid price the aggregate
/// payoff of the set.
pub open spec fn curve_matches(
    positions: Seq<OptionData>,
    spot: int,
    config: GridConfig,
    p: Payoff,
) -> bool {
    &&& p.x@.len() == grid_len(spot, config)
    &&& forall|i: int| 0 <= i < p.x@.len() ==> #[trigger] p.x@[i] == grid_point(spot, config, i)
    &&& p.y@.len() == p.x@.len()
    &&& forall|i: int| 0 <= i < p.y@.len() ==> #[trigger] p.y@[i] == total_payoff(
        positions,
        p.x@[i] as int,
    )
}

/// Full contract of `compute` and `calculate_payoff`: rejection is owed
/// exactly on the inputs the domain rules out, checked in the order spot,
/// sample count, strikes; on all other inputs the exact curve is owed.
pub open spec fn compute_post(
    positions: Seq<OptionData>,
    spot: int,
    config: GridConfig,
    r: Result<Payoff, PayoffError>,
) -> bool {
    &&& (spot <= 0 <==> r == Err::<Payoff, PayoffError>(PayoffError::NonPositiveSpot))
    &&& (spot > 0 && !config_valid(config) <==> r == Err::<Payoff, PayoffError>(
        PayoffError::ZeroSampleCount,
    ))
    &&& (spot > 0 && config_valid(config) && !all_strikes_positive(positions) <==> r
        == Err::<Payoff, PayoffError>(PayoffError::NonPositiveStrike))
    &&& (spot > 0 && config_valid(config) && all_strikes_positive(positions) ==> (r matches Ok(p)
        && curve_matches(positions, spot, config, p)))
}

/// Compute the payoff curve of a position set over the grid the chosen
/// policy derives from the spot. Rejects a non-positive spot, a zero sample
/// count and a non-positive strike; for every other input it returns the
/// curve `curve_matches` describes.
pub fn compute(option_data_set: &OptionDataSet, spot: i64, config: GridConfig) -> (r: Result<
    Payoff,
    PayoffError,
>)
    requires
        spot <= AMOUNT_BOUND,
        amounts_in_bounds(option_data_set.options@),
    ensures
        compute_post(option_data_set.options@, spot as int, config, r),
{
    if spot <= 0 {
        return Err(PayoffError::NonPositiveSpot);
    }
    let config_is_valid: bool = match config {
        GridConfig::BoundedCount { n } => n >= 1,
        GridConfig::FixedStep => true,
    };
    if !config_is_valid {
        return Err(PayoffError::ZeroSampleCount);
    }
    assert(config_valid(config));
    let options = &option_data_set.options;
    let mut i: usize = 0;
    while i < options.len()
        invariant
            0 < spot,
            config_valid(config),
            options@ == option_data_set.options@,
            0 <= i <= options@.len(),
            forall|k: int| 0 <= k < i ==> (#[trigger] options@[k]).strike > 0,
        decreases options@.len() - i,
    {
        if options[i].strike <= 0 {
            proof {
                assert((options@[i as int]).strike <= 0);
                assert(!all_strikes_positive(options@));
            }
            return Err(PayoffError::NonPositiveStrike);
        }
        i = i + 1;
    }
    let x: Vec<i64> = match config {
        GridConfig::BoundedCount { n } => bounded_count_prices(spot, n),
        GridConfig::FixedStep => fixed_step_prices(spot),
    };
    let y: Vec<i128> = aggregate_payoffs(options, &x);
    Ok(Payoff { x, y })
}

/// Compute the payoff curve over the historical bounded-count grid:
/// `dimension` samples inside the ±10% band around the spot, defaulting to
/// `DEFAULT_SAMPLES` when unspecified.
pub fn calculate_payoff(option_data_set: OptionDataSet, spot: i64, dimension: Option<usize>) -> (r:
    Result<Payoff, PayoffError>)
    requires
        spot <= AMOUNT_BOUND,
        amounts_in_bounds(option_data_set.options@),
    ensures
        compute_post(
            option_data_set.options@,
            spot as int,
            GridConfig::BoundedCount {
                n: match dimension {
                    Some(d) => d,
                    None => DEFAULT_SAMPLES,
                },
            },
            r,
        ),
{
    let n: usize = match dimension {
        Some(d) => d,
        None => DEFAULT_SAMPLES,
    };
    compute(&option_data_set, spot, GridConfig::BoundedCount { n })
}

} // verus!
