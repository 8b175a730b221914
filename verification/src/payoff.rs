//! Data model for option positions and the per-leg payoff formula.

use vstd::prelude::*;

verus! {

/// Largest magnitude, in cents, accepted for a strike or a premium.
///
/// This is a machine bound, not a domain rule: it is 2^59, chosen so that
/// every intermediate of the payoff formula and of the grid arithmetic
/// (at most 11 times an amount) stays inside `i64`.
pub const AMOUNT_BOUND: i64 = 0x0800_0000_0000_0000;

/// Trade side of one option leg. BUY pays the premium up front and owns the
/// right; SELL receives the premium up front and bears the obligation.
#[derive(Clone, Copy, Debug, PartialEq, Eq, Structural)]
pub enum Side {
    BUY,
    SELL,
}

/// Kind of a vanilla option: a CALL pays off above the strike, a PUT below.
#[derive(Clone, Copy, Debug, PartialEq, Eq, Structural)]
pub enum OptionKind {
    CALL,
    PUT,
}

/// One option leg. All amounts are in integer cents: `strike` is the
/// exercise price, `spot` the reference underlying price the leg was traded
/// against, and `ccy2` the premium already realized in the secondary
/// currency. A leg is well formed when `strike > 0`.
#[derive(Clone, Copy, Debug, PartialEq, Eq, Structural)]
pub struct OptionData {
    pub strike: i64,
    pub spot: i64,
    pub option_kind: OptionKind,
    pub side: Side,
    pub ccy2: i64,
}

/// An ordered collection of option legs. Order is kept for reproducibility
/// but does not affect aggregate payoffs (see `lemma_total_payoff_permutation`).
#[derive(Clone, Debug)]
pub struct OptionDataSet {
    pub options: Vec<OptionData>,
}

impl Default for Side {
    fn default() -> (r: Side)
        ensures
            r == Side::BUY,
    {
        Side::BUY
    }
}

impl Default for OptionKind {
    fn default() -> (r: OptionKind)
        ensures
            r == OptionKind::CALL,
    {
        OptionKind::CALL
    }
}

impl Default for OptionDataSet {
    fn default() -> (r: OptionDataSet)
        ensures
            r.options@.len() == 0,
    {
        OptionDataSet { options: Vec::new() }
    }
}

/// Intrinsic value of an option at a sample price: what exercising it would
/// pay, never negative.
pub open spec fn intrinsic_value(option_kind: OptionKind, strike: int, price: int) -> int {
    match option_kind {
        OptionKind::CALL => if price - strike > 0 {
            price - strike
        } else {
            0
        },
        OptionKind::PUT => if strike - price > 0 {
            strike - price
        } else {
            0
        },
    }
}

/// Signed payoff of one leg at a sample price, in cents: the buyer receives
/// the intrinsic value and has paid the premium, the seller the reverse.
pub open spec fn leg_payoff(
    option_kind: OptionKind,
    side: Side,
    strike: int,
    premium: int,
    price: int,
) -> int {
    match side {
        Side::BUY => intrinsic_value(option_kind, strike, price) - premium,
        Side::SELL => premium - intrinsic_value(option_kind, strike, price),
    }
}

/// Payoff of one stored leg at a sample price, in cents.
pub open spec fn position_payoff(option_data: OptionData, price: int) -> int {
    leg_payoff(
        option_data.option_kind,
        option_data.side,
        option_data.strike as int,
        option_data.ccy2 as int,
        price,
    )
}

/// Well-formedness of one leg: a positive strike (the domain invariant) and
/// amounts within the machine bound.
pub open spec fn valid_position(option_data: OptionData) -> bool {
    &&& 0 < option_data.strike <= AMOUNT_BOUND
    &&& -AMOUNT_BOUND <= option_data.ccy2 <= AMOUNT_BOUND
}

/// A sample price the engine evaluates at: non-negative and within twice the
/// amount bound (every grid price satisfies this).
pub open spec fn valid_price(price: int) -> bool {
    0 <= price <= 2 * AMOUNT_BOUND
}

/// Signed payoff of one leg at one sample price, before aggregation.
pub fn calculate_axis_values(
    strike: i64,
    price: i64,
    premium: i64,
    side: Side,
    option_kind: OptionKind,
) -> (r: i64)
    requires
        0 < strike <= AMOUNT_BOUND,
        -AMOUNT_BOUND <= premium <= AMOUNT_BOUND,
        valid_price(price as int),
    ensures
        r == leg_payoff(option_kind, side, strike as int, premium as int, price as int),
{
    match option_kind {
        OptionKind::CALL => {
            let intrinsic: i64 = if price - strike > 0 {
                price - strike
            } else {
                0
            };
            match side {
                Side::BUY => intrinsic - premium,
                Side::SELL => premium - intrinsic,
            }
        },
        OptionKind::PUT => {
            let intrinsic: i64 = if strike - price > 0 {
                strike - price
            } else {
                0
            };
            match side {
                Side::BUY => intrinsic - premium,
                Side::SELL => premium - intrinsic,
            }
        },
    }
}

/// Signed payoff of one stored leg at one sample price.
pub fn calculate_total_payoff(option_data: &OptionData, price: i64) -> (r: i64)
    requires
        valid_position(*option_data),
        valid_price(price as int),
    ensures
        r == position_payoff(*option_data, price as int),
{
    calculate_axis_values(
        option_data.strike,
        price,
        option_data.ccy2,
        option_data.side,
        option_data.option_kind,
    )
}

/// Law: a bought leg of either kind is worth exactly the negated premium at
/// its own strike, where the intrinsic value vanishes.
pub proof fn lemma_buy_payoff_at_strike(option_kind: OptionKind, strike: int, premium: int)
    ensures
        leg_payoff(option_kind, Side::BUY, strike, premium, strike) == -premium,
{
}

/// Law: the payoff of a bought call never decreases as the sample price
/// rises.
pub proof fn lemma_call_buy_monotone(strike: int, premium: int, price1: int, price2: int)
    requires
        price1 <= price2,
    ensures
        leg_payoff(OptionKind::CALL, Side::BUY, strike, premium, price1) <= leg_payoff(
            OptionKind::CALL,
            Side::BUY,
            strike,
            premium,
            price2,
        ),
{
}

/// Law: the payoff of a bought put never increases as the sample price
/// rises.
pub proof fn lemma_put_buy_antitone(strike: int, premium: int, price1: int, price2: int)
    requires
        price1 <= price2,
    ensures
        leg_payoff(OptionKind::PUT, Side::BUY, strike, premium, price1) >= leg_payoff(
            OptionKind::PUT,
            Side::BUY,
            strike,
            premium,
            price2,
        ),
{
}

/// Law: selling a leg mirrors buying it — the SELL payoff is the exact
/// negation of the BUY payoff of an otherwise identical leg at the same
/// price.
pub proof fn lemma_sell_negates_buy(
    option_kind: OptionKind,
    strike: int,
    premium: int,
    price: int,
)
    ensures
        leg_payoff(option_kind, Side::SELL, strike, premium, price) == -leg_payoff(
            option_kind,
            Side::BUY,
            strike,
            premium,
            price,
        ),
{
}

} // verus!
