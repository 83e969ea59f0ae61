use optirust::monte_carlo::MonteCarloPricing;
use optirust::solver::{VolBracket, MAX_BISECTION_STEPS, SIGMA_HIGH, SIGMA_LOW, TOLERANCE};
use statrs::distribution::{Continuous, ContinuousCDF, Normal};

const SCALE: i64 = 1_000_000;

fn fixed(x: f64) -> i64 {
    (x * SCALE as f64).round() as i64
}

/// The closed-form Black-Scholes call price (canonical `ln(spot/strike)`
/// form), evaluated with the standard normal distribution.
fn black_scholes_call(spot: f64, strike: f64, rate: f64, years: f64, sigma: f64) -> f64 {
    let d1 = ((spot / strike).ln() + (rate + 0.5 * sigma * sigma) * years)
        / (sigma * years.sqrt());
    let d2 = d1 - sigma * years.sqrt();
    let normal = Normal::standard();
    spot * normal.cdf(d1) - strike * (-rate * years).exp() * normal.cdf(d2)
}

/// The Black-Scholes vega: sensitivity of the call price to volatility.
fn black_scholes_vega(spot: f64, strike: f64, rate: f64, years: f64, sigma: f64) -> f64 {
    let d1 = ((spot / strike).ln() + (rate + 0.5 * sigma * sigma) * years)
        / (sigma * years.sqrt());
    let normal = Normal::standard();
    spot * normal.pdf(d1) * years.sqrt()
}

fn model(market_price: f64) -> MonteCarloPricing {
    MonteCarloPricing {
        current_asset_price: fixed(100.0),
        market_option_price: fixed(market_price),
        strike_price: fixed(100.0),
        num_simulations: 1000,
        num_steps: 10,
        risk_free_rate: fixed(0.05),
        implied_vol: fixed(0.25),
        years_to_expire: fixed(1.0),
    }
}

/// Drives the bisection with the closed-form price at each midpoint, as the
/// application does, and returns the estimate in fixed point.
fn solve_implied_vol(mc: &MonteCarloPricing) -> i64 {
    let spot = mc.current_asset_price as f64 / SCALE as f64;
    let strike = mc.strike_price as f64 / SCALE as f64;
    let rate = mc.risk_free_rate as f64 / SCALE as f64;
    let years = mc.years_to_expire as f64 / SCALE as f64;
    let mut bracket = VolBracket::start();
    for _ in 0..MAX_BISECTION_STEPS {
        if bracket.converged() {
            break;
        }
        let sigma = bracket.mid() as f64 / SCALE as f64;
        let price = black_scholes_call(spot, strike, rate, years, sigma);
        bracket = mc.implied_volatility_step(bracket, fixed(price));
    }
    assert!(bracket.converged());
    bracket.mid()
}

#[test]
fn test_implied_volatility() {
    let mc = model(10.0);
    let iv = solve_implied_vol(&mc);
    assert!(iv > 0);
}

#[test]
fn solver_recovers_a_known_volatility() {
    let known_sigma = 0.25;
    let market = black_scholes_call(100.0, 100.0, 0.05, 1.0, known_sigma);
    let mc = model(market);
    let iv = solve_implied_vol(&mc) as f64 / SCALE as f64;
    assert!(
        (iv - known_sigma).abs() < 2.0 * TOLERANCE as f64 / SCALE as f64,
        "recovered {iv}, wanted {known_sigma}"
    );
}

#[test]
fn call_price_is_nonnegative_and_monotone_in_volatility() {
    let cases = [
        (100.0, 100.0, 0.05, 1.0),
        (100.0, 120.0, 0.0, 0.5),
        (80.0, 100.0, 0.03, 2.0),
        (150.0, 50.0, 0.1, 0.25),
    ];
    for &(spot, strike, rate, years) in cases.iter() {
        let mut last = -1.0;
        let mut sigma = 0.01;
        while sigma <= 2.0 {
            let price = black_scholes_call(spot, strike, rate, years, sigma);
            assert!(price >= 0.0, "negative price at sigma {sigma}");
            assert!(price >= last - 1e-9, "price fell at sigma {sigma}");
            assert!(black_scholes_vega(spot, strike, rate, years, sigma) >= 0.0);
            last = price;
            sigma += 0.01;
        }
    }
}

#[test]
fn bracket_validation_straddles_the_market_price() {
    let mc = model(10.0);
    let low = black_scholes_call(100.0, 100.0, 0.05, 1.0, 0.01);
    let high = black_scholes_call(100.0, 100.0, 0.05, 1.0, 2.0);
    assert!(mc.crossing_bracketed(fixed(low), fixed(high)));
    // A market price beyond anything the bracket can produce is detected.
    let hopeless = model(high + 10.0);
    assert!(!hopeless.crossing_bracketed(fixed(low), fixed(high)));
}

#[test]
fn bisection_step_halves_the_bracket() {
    let mc = model(10.0);
    let b = VolBracket::start();
    assert_eq!(b.low, SIGMA_LOW);
    assert_eq!(b.high, SIGMA_HIGH);
    let mid = b.mid();
    let above = mc.implied_volatility_step(b, mc.market_option_price + 1);
    assert_eq!(above.low, b.low);
    assert_eq!(above.high, mid);
    let below = mc.implied_volatility_step(b, mc.market_option_price - 1);
    assert_eq!(below.low, mid);
    assert_eq!(below.high, b.high);
    let at = mc.implied_volatility_step(b, mc.market_option_price);
    assert_eq!(at.low, mid);
}

#[test]
fn fifteen_steps_always_converge() {
    let mc = model(10.0);
    // Whatever the answers, the bracket is within tolerance after the cap.
    for pattern in 0u32..16 {
        let mut b = VolBracket::start();
        for step in 0..MAX_BISECTION_STEPS {
            let above = (pattern >> (step % 4)) & 1 == 1;
            let price = if above {
                mc.market_option_price + 1
            } else {
                mc.market_option_price
            };
            b = mc.implied_volatility_step(b, price);
        }
        assert!(b.converged());
        assert!(b.high - b.low <= TOLERANCE);
    }
}
