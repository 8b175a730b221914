use payoff::curve::{
    calculate_payoff, compute, sum_position_payoffs, Payoff, PayoffError,
};
use payoff::grid::GridConfig;
use payoff::payoff::{OptionData, OptionDataSet, OptionKind, Side};

fn leg(strike: i64, kind: OptionKind, side: Side, premium: i64) -> OptionData {
    OptionData {
        strike,
        spot: 10000,
        option_kind: kind,
        side,
        ccy2: premium,
    }
}

#[test]
fn end_to_end_scenario_at_fifty() {
    // One CALL/BUY at strike 60.00 premium 3.00 and one PUT/SELL at strike
    // 55.00 premium 3.00, evaluated at price 50.00: -3.00 + -2.00 = -5.00.
    let options: Vec<OptionData> = vec![
        leg(6000, OptionKind::CALL, Side::BUY, 300),
        leg(5500, OptionKind::PUT, Side::SELL, 300),
    ];
    let total: i128 = sum_position_payoffs(&options, 5000);
    assert_eq!(total, -500);
}

#[test]
fn empty_set_pays_zero_at_every_price() {
    let set = OptionDataSet { options: Vec::new() };
    let curve: Payoff = compute(&set, 10000, GridConfig::BoundedCount { n: 50 }).unwrap();
    assert_eq!(curve.x.len(), 50);
    assert_eq!(curve.y.len(), 50);
    assert!(curve.y.iter().all(|&v| v == 0));
}

#[test]
fn reordering_positions_leaves_the_curve_unchanged() {
    let a = leg(6000, OptionKind::CALL, Side::BUY, 300);
    let b = leg(5500, OptionKind::PUT, Side::SELL, 300);
    let c = leg(7000, OptionKind::PUT, Side::BUY, 120);
    let one = OptionDataSet { options: vec![a, b, c] };
    let other = OptionDataSet { options: vec![c, a, b] };
    let curve_one: Payoff = compute(&one, 10000, GridConfig::BoundedCount { n: 33 }).unwrap();
    let curve_other: Payoff = compute(&other, 10000, GridConfig::BoundedCount { n: 33 }).unwrap();
    assert_eq!(curve_one, curve_other);
}

#[test]
fn curve_prices_and_payoffs_align() {
    let set = OptionDataSet {
        options: vec![leg(9500, OptionKind::CALL, Side::BUY, 200)],
    };
    let curve: Payoff = compute(&set, 10000, GridConfig::BoundedCount { n: 400 }).unwrap();
    assert_eq!(curve.x.len(), curve.y.len());
    // At the lowest sample, 90.00, the call is out of the money: -2.00.
    assert_eq!(curve.x[0], 9000);
    assert_eq!(curve.y[0], -200);
    // At the highest sample, 110.00, it is 15.00 in the money: 13.00.
    assert_eq!(curve.x[399], 11000);
    assert_eq!(curve.y[399], 1300);
}

#[test]
fn fixed_step_curve_matches_by_index() {
    let set = OptionDataSet {
        options: vec![leg(5500, OptionKind::PUT, Side::SELL, 300)],
    };
    let curve: Payoff = compute(&set, 15000, GridConfig::FixedStep).unwrap();
    assert_eq!(curve.x, vec![0, 10000, 20000]);
    // At 0.00 the put is 55.00 in the money: 3.00 - 55.00 = -52.00.
    assert_eq!(curve.y, vec![-5200, 300, 300]);
}

#[test]
fn default_dimension_is_four_hundred_samples() {
    let set = OptionDataSet { options: Vec::new() };
    let curve: Payoff = calculate_payoff(set, 10000, None).unwrap();
    assert_eq!(curve.x.len(), 400);
    let set2 = OptionDataSet { options: Vec::new() };
    let curve2: Payoff = calculate_payoff(set2, 10000, Some(7)).unwrap();
    assert_eq!(curve2.x.len(), 7);
}

#[test]
fn non_positive_spot_is_rejected() {
    let set = OptionDataSet { options: Vec::new() };
    assert_eq!(
        compute(&set, 0, GridConfig::FixedStep),
        Err(PayoffError::NonPositiveSpot)
    );
    let set2 = OptionDataSet { options: Vec::new() };
    assert_eq!(
        calculate_payoff(set2, -100, None),
        Err(PayoffError::NonPositiveSpot)
    );
}

#[test]
fn non_positive_strike_is_rejected() {
    let set = OptionDataSet {
        options: vec![leg(0, OptionKind::CALL, Side::BUY, 300)],
    };
    assert_eq!(
        compute(&set, 10000, GridConfig::FixedStep),
        Err(PayoffError::NonPositiveStrike)
    );
}

#[test]
fn zero_sample_count_is_rejected() {
    let set = OptionDataSet { options: Vec::new() };
    assert_eq!(
        compute(&set, 10000, GridConfig::BoundedCount { n: 0 }),
        Err(PayoffError::ZeroSampleCount)
    );
}
