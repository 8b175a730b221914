use payoff::payoff::{calculate_axis_values, calculate_total_payoff, OptionData, OptionKind, Side};

// Amounts are cents: strike 60.00, premium 3.00, price 50.00.

#[test]
fn call_buy_out_of_the_money_pays_minus_premium() {
    let r: i64 = calculate_axis_values(6000, 5000, 300, Side::BUY, OptionKind::CALL);
    assert_eq!(r, -300);
}

#[test]
fn call_buy_in_the_money_pays_intrinsic_less_premium() {
    let r: i64 = calculate_axis_values(6000, 7500, 300, Side::BUY, OptionKind::CALL);
    assert_eq!(r, 1500 - 300);
}

#[test]
fn call_sell_mirrors_call_buy() {
    let buy: i64 = calculate_axis_values(6000, 7500, 300, Side::BUY, OptionKind::CALL);
    let sell: i64 = calculate_axis_values(6000, 7500, 300, Side::SELL, OptionKind::CALL);
    assert_eq!(sell, -buy);
}

#[test]
fn put_buy_in_the_money_pays_intrinsic_less_premium() {
    let r: i64 = calculate_axis_values(5500, 5000, 300, Side::BUY, OptionKind::PUT);
    assert_eq!(r, 500 - 300);
}

#[test]
fn put_sell_out_of_the_money_keeps_premium() {
    let r: i64 = calculate_axis_values(5500, 6000, 300, Side::SELL, OptionKind::PUT);
    assert_eq!(r, 300);
}

#[test]
fn put_sell_in_the_money_owes_intrinsic() {
    let r: i64 = calculate_axis_values(5500, 5000, 300, Side::SELL, OptionKind::PUT);
    assert_eq!(r, -200);
}

#[test]
fn buy_payoff_at_strike_is_minus_premium_for_both_kinds() {
    let call: i64 = calculate_axis_values(6000, 6000, 300, Side::BUY, OptionKind::CALL);
    let put: i64 = calculate_axis_values(6000, 6000, 300, Side::BUY, OptionKind::PUT);
    assert_eq!(call, -300);
    assert_eq!(put, -300);
}

#[test]
fn call_buy_payoff_is_non_decreasing_in_price() {
    let mut previous: i64 = i64::MIN;
    for price in [0i64, 3000, 5999, 6000, 6001, 9000, 20000] {
        let r: i64 = calculate_axis_values(6000, price, 300, Side::BUY, OptionKind::CALL);
        assert!(r >= previous);
        previous = r;
    }
}

#[test]
fn put_buy_payoff_is_non_increasing_in_price() {
    let mut previous: i64 = i64::MAX;
    for price in [0i64, 3000, 5999, 6000, 6001, 9000, 20000] {
        let r: i64 = calculate_axis_values(6000, price, 300, Side::BUY, OptionKind::PUT);
        assert!(r <= previous);
        previous = r;
    }
}

#[test]
fn stored_leg_payoff_matches_formula() {
    let leg = OptionData {
        strike: 6000,
        spot: 6300,
        option_kind: OptionKind::CALL,
        side: Side::SELL,
        ccy2: 450,
    };
    let direct: i64 = calculate_axis_values(6000, 7000, 450, Side::SELL, OptionKind::CALL);
    assert_eq!(calculate_total_payoff(&leg, 7000), direct);
    assert_eq!(direct, 450 - 1000);
}
