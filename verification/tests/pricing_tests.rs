use optirust::chart::PriceChart;
use optirust::date::Date;
use optirust::monte_carlo::{days_to_years, wiener_increment, MonteCarloPricing, PricingError};
use optirust::params::MonteCarloParams;
use rand::RngExt;
use rand_distr::StandardNormal;

const SCALE: i64 = 1_000_000;

fn fixed(x: f64) -> i64 {
    (x * SCALE as f64).round() as i64
}

fn normal_draws(n: usize) -> Vec<i64> {
    let mut rng = rand::rng();
    (0..n)
        .map(|_| {
            let z: f64 = rng.sample(StandardNormal);
            fixed(z)
        })
        .collect()
}

fn discount_factor(rate: f64, years: f64) -> i64 {
    fixed((-rate * years).exp())
}

fn chart_of(prices: &[f64]) -> PriceChart {
    let fixed_prices: Vec<i64> = prices.iter().map(|&p| fixed(p)).collect();
    PriceChart::from_prices_and_date(fixed_prices, Date::from_ymd(2025, 1, 3).unwrap()).unwrap()
}

#[test]
fn test_from_params() {
    let params = MonteCarloParams {
        current_asset_price: "100.0".to_string(),
        market_option_price: "10.0".to_string(),
        strike_price: "100.0".to_string(),
        num_simulations: "1000".to_string(),
        days_to_expire: "30".to_string(),
        risk_free_rate: "0.05".to_string(),
        implied_vol: "0.2".to_string(),
        num_steps: "10".to_string(),
    };

    let mc = MonteCarloPricing::from_params(&params);
    assert_eq!(mc.current_asset_price, fixed(100.0));
    assert_eq!(mc.market_option_price, fixed(10.0));
    assert_eq!(mc.strike_price, fixed(100.0));
    assert_eq!(mc.num_simulations, 1000);
    assert_eq!(mc.num_steps, 10);
}

#[test]
fn from_params_falls_back_to_defaults() {
    let params = MonteCarloParams {
        current_asset_price: "not a number".to_string(),
        market_option_price: "".to_string(),
        strike_price: "1e3".to_string(),
        num_simulations: "-5".to_string(),
        days_to_expire: "many".to_string(),
        risk_free_rate: "x".to_string(),
        implied_vol: "..".to_string(),
        num_steps: "70000".to_string(),
    };

    let mc = MonteCarloPricing::from_params(&params);
    assert_eq!(mc.current_asset_price, fixed(100.0));
    assert_eq!(mc.market_option_price, 0);
    assert_eq!(mc.strike_price, 0);
    assert_eq!(mc.num_simulations, 1000);
    assert_eq!(mc.num_steps, 5);
    assert_eq!(mc.risk_free_rate, 0);
    assert_eq!(mc.implied_vol, fixed(0.03));
    assert_eq!(mc.years_to_expire, 30 * SCALE / 365);
}

#[test]
fn test_price() {
    let mc = MonteCarloPricing {
        current_asset_price: fixed(100.0),
        market_option_price: fixed(10.0),
        strike_price: fixed(100.0),
        num_simulations: 1000,
        num_steps: 10,
        risk_free_rate: fixed(0.05),
        implied_vol: fixed(0.2),
        years_to_expire: fixed(1.0),
    };

    let price_chart = PriceChart::default();
    let draws = normal_draws(1000 * 10);
    let price_result = mc.price(&price_chart, &draws, discount_factor(0.05, 1.0));

    assert!(price_result.is_ok());
    assert!(price_result.unwrap() > 0);
}

#[test]
fn test_wiener_increment() {
    let dt = fixed(0.01);
    let mut rng = rand::rng();
    let z: f64 = rng.sample(StandardNormal);
    let w = wiener_increment(fixed(z), dt);
    assert!(w.is_some());
}

#[test]
fn wiener_increment_scales_by_root_dt() {
    // sqrt(0.01) == 0.1, so a unit draw becomes 0.1.
    assert_eq!(wiener_increment(fixed(1.0), fixed(0.01)), Some(fixed(0.1)));
    // sqrt(4.0) == 2.0.
    assert_eq!(wiener_increment(fixed(-1.5), fixed(4.0)), Some(fixed(-3.0)));
    // A zero step length stills every increment.
    assert_eq!(wiener_increment(fixed(2.0), 0), Some(0));
}

#[test]
fn test_days_to_years() {
    assert_eq!(days_to_years(365), fixed(1.0));
    assert_eq!(days_to_years(730), fixed(2.0));
    assert_eq!(days_to_years(0), 0);
}

#[test]
fn deep_in_the_money_call_converges() {
    let mc = MonteCarloPricing {
        current_asset_price: fixed(1000.0),
        market_option_price: 0,
        strike_price: fixed(1.0),
        num_simulations: 10_000,
        num_steps: 5,
        risk_free_rate: fixed(0.05),
        implied_vol: fixed(0.01),
        years_to_expire: fixed(1.0),
    };
    let chart = chart_of(&[1000.0]);
    let draws = normal_draws(10_000 * 5);
    let price = mc.price(&chart, &draws, discount_factor(0.05, 1.0)).unwrap();
    let expected = fixed((1000.0 - 1.0) * (-0.05f64).exp());
    let tolerance = fixed(0.05 * 1000.0);
    assert!((price - expected).abs() < tolerance, "price {price} expected {expected}");
}

#[test]
fn deep_out_of_the_money_call_converges_to_zero() {
    let mc = MonteCarloPricing {
        current_asset_price: fixed(1.0),
        market_option_price: 0,
        strike_price: fixed(1000.0),
        num_simulations: 10_000,
        num_steps: 5,
        risk_free_rate: fixed(0.05),
        implied_vol: fixed(0.01),
        years_to_expire: fixed(1.0),
    };
    let chart = chart_of(&[1.0]);
    let draws = normal_draws(10_000 * 5);
    let price = mc.price(&chart, &draws, discount_factor(0.05, 1.0)).unwrap();
    assert!(price >= 0);
    assert!(price < fixed(0.05));
}

#[test]
fn price_is_exact_on_deterministic_draws() {
    // With zero draws every path grows by exactly 1 + rate*dt per step.
    let mc = MonteCarloPricing {
        current_asset_price: fixed(100.0),
        market_option_price: 0,
        strike_price: fixed(90.0),
        num_simulations: 2,
        num_steps: 1,
        risk_free_rate: fixed(0.05),
        implied_vol: fixed(0.2),
        years_to_expire: fixed(1.0),
    };
    let chart = chart_of(&[100.0]);
    let draws = vec![0i64; 2];
    // Undiscounted: payoff is 100*1.05 - 90 = 15 per path.
    let price = mc.price(&chart, &draws, SCALE).unwrap();
    assert_eq!(price, fixed(15.0));
}

#[test]
fn zero_simulations_are_rejected() {
    let mc = MonteCarloPricing { num_simulations: 0, num_steps: 5, ..zero_model() };
    let chart = chart_of(&[100.0]);
    assert_eq!(
        mc.price(&chart, &Vec::new(), SCALE).unwrap_err(),
        PricingError::ZeroSimulations
    );
}

#[test]
fn zero_steps_are_rejected() {
    let mc = MonteCarloPricing { num_simulations: 10, num_steps: 0, ..zero_model() };
    let chart = chart_of(&[100.0]);
    assert_eq!(mc.price(&chart, &Vec::new(), SCALE).unwrap_err(), PricingError::ZeroSteps);
}

#[test]
fn wrong_number_of_draws_is_rejected() {
    let mc = MonteCarloPricing { num_simulations: 10, num_steps: 5, ..zero_model() };
    let chart = chart_of(&[100.0]);
    let draws = vec![0i64; 49];
    assert_eq!(mc.price(&chart, &draws, SCALE).unwrap_err(), PricingError::DrawsMismatch);
}

#[test]
fn arithmetic_overflow_is_reported() {
    let mc = MonteCarloPricing {
        current_asset_price: fixed(100.0),
        market_option_price: 0,
        strike_price: 0,
        num_simulations: 1,
        num_steps: 1,
        risk_free_rate: 0,
        implied_vol: 1_000_000_000_000,
        years_to_expire: fixed(1.0),
    };
    let chart = chart_of(&[100.0]);
    let draws = vec![i64::MAX; 1];
    assert_eq!(mc.price(&chart, &draws, SCALE).unwrap_err(), PricingError::Overflow);
}

#[test]
fn pricing_error_messages_name_the_failure() {
    assert_eq!(PricingError::ZeroSimulations.message(), "number of simulations is zero");
    assert_eq!(PricingError::ZeroSteps.message(), "number of steps is zero");
    assert_eq!(PricingError::DrawsMismatch.message(), "wrong number of random draws");
    assert_eq!(PricingError::Overflow.message(), "pricing arithmetic overflowed");
}

fn zero_model() -> MonteCarloPricing {
    MonteCarloPricing {
        current_asset_price: 0,
        market_option_price: 0,
        strike_price: 0,
        num_simulations: 0,
        num_steps: 0,
        risk_free_rate: 0,
        implied_vol: 0,
        years_to_expire: 0,
    }
}
