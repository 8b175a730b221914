//! Profit/loss profiles for portfolios of vanilla option positions.
//!
//! All monetary amounts (strikes, premiums, sample prices, payoffs) are
//! fixed-point values in integer hundredths of the secondary currency unit
//! ("cents"), so every payoff carries exactly two decimal places and the
//! per-price aggregation is exact: summing whole numbers of cents loses
//! nothing, and rounding the portfolio sum to the cent is the identity.

pub mod currency;
pub mod curve;
pub mod grid;
pub mod payoff;
