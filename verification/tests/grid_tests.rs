use payoff::grid::{bounded_count_prices, fixed_step_prices, DEFAULT_SAMPLES, FIXED_STEP_CENTS};

#[test]
fn bounded_grid_spans_ten_percent_band() {
    // spot 100.00 with the default 400 samples: 400 ascending prices from
    // 90.00 to 110.00, both endpoints included.
    let prices: Vec<i64> = bounded_count_prices(10000, DEFAULT_SAMPLES);
    assert_eq!(prices.len(), 400);
    assert_eq!(prices[0], 9000);
    assert_eq!(prices[399], 11000);
    for w in prices.windows(2) {
        assert!(w[0] < w[1]);
    }
}

#[test]
fn bounded_grid_single_point_is_lower_edge() {
    let prices: Vec<i64> = bounded_count_prices(10000, 1);
    assert_eq!(prices, vec![9000]);
}

#[test]
fn bounded_grid_two_points_are_the_edges() {
    let prices: Vec<i64> = bounded_count_prices(10000, 2);
    assert_eq!(prices, vec![9000, 11000]);
}

#[test]
fn fixed_step_grid_small_spot_keeps_only_zero() {
    // spot 50.00: the band [0, 100.00) in steps of 100.00 holds 0 alone.
    let prices: Vec<i64> = fixed_step_prices(5000);
    assert_eq!(prices, vec![0]);
}

#[test]
fn fixed_step_grid_stops_strictly_before_twice_the_spot() {
    // spot 150.00: multiples of 100.00 strictly below 300.00.
    let prices: Vec<i64> = fixed_step_prices(15000);
    assert_eq!(prices, vec![0, 10000, 20000]);
}

#[test]
fn fixed_step_grid_excludes_exact_double() {
    // Twice the spot is itself a step multiple: it stays out.
    let prices: Vec<i64> = fixed_step_prices(FIXED_STEP_CENTS);
    assert_eq!(prices, vec![0, 10000]);
}
