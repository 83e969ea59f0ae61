//! Monte Carlo pricing of a European call option.
//!
//! The engine evolves `num_simulations` independent price paths for
//! `num_steps` steps each under the multiplicative Euler update
//! `s *= 1 + rate*dt + vol*w`, where `w` is a standard-normal draw scaled by
//! `sqrt(dt)`, then averages the call payoffs and discounts them to present
//! value. All arithmetic is exact fixed-point integer arithmetic; the
//! standard-normal draws and the discount factor `exp(-rate * years)` are
//! supplied by the caller, so the engine itself is deterministic and its
//! result is pinned down exactly for every input.

use vstd::prelude::*;

use crate::chart::{PriceChart, PRICE_LIMIT};
use crate::fixed::{checked_scale_mul, fits_i64, isqrt, scaled_product, sqrt_floor, tdiv, SCALE};
use crate::params::MonteCarloParams;
use crate::parse::{parse_fixed_result, parse_u16_result};

verus! {

/// Why a pricing run was rejected.
#[derive(Debug, Clone, Copy, PartialEq, Eq, Structural)]
pub enum PricingError {
    /// `num_simulations` is zero: the average would divide by zero.
    ZeroSimulations,
    /// `num_steps` is zero: the step length would divide by zero.
    ZeroSteps,
    /// The caller supplied a number of draws other than
    /// `num_simulations * num_steps`.
    DrawsMismatch,
    /// An intermediate value left the fixed-point range.
    Overflow,
}

/// The description `PricingError::message` returns.
pub open spec fn pricing_error_text(e: PricingError) -> Seq<char> {
    match e {
        PricingError::ZeroSimulations => "number of simulations is zero"@,
        PricingError::ZeroSteps => "number of steps is zero"@,
        PricingError::DrawsMismatch => "wrong number of random draws"@,
        PricingError::Overflow => "pricing arithmetic overflowed"@,
    }
}

impl PricingError {
    /// A short description of the failure.
    pub fn message(&self) -> (r: String)
        ensures
            r@ == pricing_error_text(*self),
    {
        match self {
            PricingError::ZeroSimulations => "number of simulations is zero".to_owned(),
            PricingError::ZeroSteps => "number of steps is zero".to_owned(),
            PricingError::DrawsMismatch => "wrong number of random draws".to_owned(),
            PricingError::Overflow => "pricing arithmetic overflowed".to_owned(),
        }
    }
}

/// The pricing model: the parsed, fixed-point counterpart of
/// `MonteCarloParams`.
#[derive(Debug, Clone, Copy, PartialEq, Eq, Structural)]
pub struct MonteCarloPricing {
    pub current_asset_price: i64,
    pub market_option_price: i64,
    pub strike_price: i64,
    pub num_simulations: u16,
    pub num_steps: u16,
    pub risk_free_rate: i64,
    pub implied_vol: i64,
    pub years_to_expire: i64,
}

/// Fixed-point value of a parameter string, or its fallback default.
pub open spec fn fixed_or(s: Seq<char>, default: i64) -> i64 {
    match parse_fixed_result(s) {
        Some(v) => v,
        None => default,
    }
}

/// Counter value of a parameter string, or its fallback default.
pub open spec fn u16_or(s: Seq<char>, default: u16) -> u16 {
    match parse_u16_result(s) {
        Some(v) => v,
        None => default,
    }
}

/// A count of days as a fixed-point fraction of a 365-day year.
pub open spec fn days_to_years_spec(days: int) -> int {
    days * SCALE / 365
}

/// Converts days to a fixed-point year fraction (365-day year).
pub fn days_to_years(days: u16) -> (r: i64)
    ensures
        r == days_to_years_spec(days as int),
{
    (days as i64) * SCALE / 365
}

/// One multiplicative Euler step of a price path: `s * (1 + rate*dt +
/// vol*w)` with `w = z*sqrt(dt)`, or `None` when an intermediate value
/// leaves the fixed-point range.
pub open spec fn step_price(s: int, rate_dt: int, vol: int, root: int, z: int) -> Option<int> {
    let w = tdiv(z * root, SCALE as int);
    if !fits_i64(w) {
        None
    } else {
        let sw = tdiv(vol * w, SCALE as int);
        if !fits_i64(sw) {
            None
        } else {
            let f = SCALE + rate_dt + sw;
            if !fits_i64(f) {
                None
            } else {
                let s2 = tdiv(s * f, SCALE as int);
                if !fits_i64(s2) {
                    None
                } else {
                    Some(s2)
                }
            }
        }
    }
}

/// The final value of one price path, stepped once per draw.
pub open spec fn path_price(spot: int, rate_dt: int, vol: int, root: int, zs: Seq<i64>) -> Option<
    int,
>
    decreases zs.len(),
{
    if zs.len() == 0 {
        Some(spot)
    } else {
        match path_price(spot, rate_dt, vol, root, zs.drop_last()) {
            Some(sv) => step_price(sv, rate_dt, vol, root, zs.last() as int),
            None => None,
        }
    }
}

/// The payoff of a call: the excess of the final price over the strike.
pub open spec fn call_payoff(s: int, strike: int) -> int {
    if s - strike > 0 {
        s - strike
    } else {
        0
    }
}

/// The sum of the call payoffs of the first `trials` paths, each path taking
/// its `m` draws from its own slice of `draws`.
pub open spec fn total_payoff(
    spot: int,
    rate_dt: int,
    vol: int,
    root: int,
    strike: int,
    draws: Seq<i64>,
    trials: int,
    m: int,
) -> Option<int>
    decreases trials,
{
    if trials <= 0 {
        Some(0)
    } else {
        let rest = total_payoff(spot, rate_dt, vol, root, strike, draws, trials - 1, m);
        let path = path_price(spot, rate_dt, vol, root, draws.subrange((trials - 1) * m, trials
            * m));
        match (rest, path) {
            (Some(acc), Some(sv)) => Some(acc + call_payoff(sv, strike)),
            _ => None,
        }
    }
}

/// The model a parameter set parses to, default by default: 100.0 for the
/// asset price, 0.0 for the market price, strike and rate, 0.03 for the
/// volatility, 1000 simulations, 5 steps, 30 days to expiry.
pub open spec fn model_of(p: MonteCarloParams) -> MonteCarloPricing {
    MonteCarloPricing {
        current_asset_price: fixed_or(p.current_asset_price@, 100_000_000i64),
        market_option_price: fixed_or(p.market_option_price@, 0),
        strike_price: fixed_or(p.strike_price@, 0),
        num_simulations: u16_or(p.num_simulations@, 1000),
        num_steps: u16_or(p.num_steps@, 5),
        risk_free_rate: fixed_or(p.risk_free_rate@, 0),
        implied_vol: fixed_or(p.implied_vol@, 30_000),
        years_to_expire: days_to_years_spec(u16_or(p.days_to_expire@, 30) as int) as i64,
    }
}

impl MonteCarloPricing {
    /// What `price` returns for a spot price, a flat sequence of draws and a
    /// discount factor: either the discounted average payoff or the error
    /// naming the first reason the run cannot be carried out.
    pub open spec fn price_result(self, spot: int, draws: Seq<i64>, discount: int) -> Result<
        i64,
        PricingError,
    > {
        let sims = self.num_simulations as int;
        let m = self.num_steps as int;
        if sims == 0 {
            Err(PricingError::ZeroSimulations)
        } else if m == 0 {
            Err(PricingError::ZeroSteps)
        } else if draws.len() != sims * m {
            Err(PricingError::DrawsMismatch)
        } else {
            let dt = self.years_to_expire as int / m;
            let rate_dt = scaled_product(self.risk_free_rate as int, dt);
            if !fits_i64(rate_dt) {
                Err(PricingError::Overflow)
            } else {
                let root = sqrt_floor(dt * SCALE);
                match total_payoff(
                    spot,
                    rate_dt,
                    self.implied_vol as int,
                    root,
                    self.strike_price as int,
                    draws,
                    sims,
                    m,
                ) {
                    None => Err(PricingError::Overflow),
                    Some(total) => {
                        let pv = total / sims * discount / (SCALE as int);
                        if !fits_i64(pv) {
                            Err(PricingError::Overflow)
                        } else {
                            Ok(pv as i64)
                        }
                    },
                }
            }
        }
    }

    /// Parses the textual parameters, substituting a documented default for
    /// each field that does not parse: 100.0 for the asset price, 0.0 for the
    /// market price, strike and rate, 0.03 for the volatility, 1000
    /// simulations, 5 steps, and 30 days to expiry.
    pub fn from_params(params: &MonteCarloParams) -> (r: MonteCarloPricing)
        ensures
            r == model_of(*params),
    {
        let current_asset_price = match crate::parse::parse_fixed(params.current_asset_price.as_str()) {
            Some(v) => v,
            None => 100_000_000,
        };
        let market_option_price = match crate::parse::parse_fixed(params.market_option_price.as_str()) {
            Some(v) => v,
            None => 0,
        };
        let strike_price = match crate::parse::parse_fixed(params.strike_price.as_str()) {
            Some(v) => v,
            None => 0,
        };
        let num_simulations = match crate::parse::parse_u16(params.num_simulations.as_str()) {
            Some(v) => v,
            None => 1000,
        };
        let num_steps = match crate::parse::parse_u16(params.num_steps.as_str()) {
            Some(v) => v,
            None => 5,
        };
        let risk_free_rate = match crate::parse::parse_fixed(params.risk_free_rate.as_str()) {
            Some(v) => v,
            None => 0,
        };
        let implied_vol = match crate::parse::parse_fixed(params.implied_vol.as_str()) {
            Some(v) => v,
            None => 30_000,
        };
        let days = match crate::parse::parse_u16(params.days_to_expire.as_str()) {
            Some(v) => v,
            None => 30,
        };
        MonteCarloPricing {
            current_asset_price,
            market_option_price,
            strike_price,
            num_simulations,
            num_steps,
            risk_free_rate,
            implied_vol,
            years_to_expire: days_to_years(days),
        }
    }
}

impl Default for MonteCarloPricing {
    /// An all-zero model, as a placeholder before parameters are applied.
    fn default() -> (r: MonteCarloPricing)
        ensures
            r.current_asset_price == 0,
            r.market_option_price == 0,
            r.strike_price == 0,
            r.num_simulations == 0,
            r.num_steps == 0,
            r.risk_free_rate == 0,
            r.implied_vol == 0,
            r.years_to_expire == 0,
    {
        MonteCarloPricing {
            current_asset_price: 0,
            market_option_price: 0,
            strike_price: 0,
            num_simulations: 0,
            num_steps: 0,
            risk_free_rate: 0,
            implied_vol: 0,
            years_to_expire: 0,
        }
    }
}

/// A path that has already failed keeps failing as more steps are taken.
proof fn lemma_path_price_none_extends(
    spot: int,
    rate_dt: int,
    vol: int,
    root: int,
    zs: Seq<i64>,
    i: int,
)
    requires
        0 <= i <= zs.len(),
        path_price(spot, rate_dt, vol, root, zs.take(i)) is None,
    ensures
        path_price(spot, rate_dt, vol, root, zs) is None,
    decreases zs.len() - i,
{
    if i == zs.len() {
        assert(zs.take(i) =~= zs);
    } else {
        assert(zs.take(i + 1).drop_last() =~= zs.take(i));
        lemma_path_price_none_extends(spot, rate_dt, vol, root, zs, i + 1);
    }
}

/// One failing path makes the whole payoff total fail.
proof fn lemma_total_payoff_none(
    spot: int,
    rate_dt: int,
    vol: int,
    root: int,
    strike: int,
    draws: Seq<i64>,
    trials: int,
    m: int,
    i: int,
)
    requires
        0 <= i < trials,
        path_price(spot, rate_dt, vol, root, draws.subrange(i * m, (i + 1) * m)) is None,
    ensures
        total_payoff(spot, rate_dt, vol, root, strike, draws, trials, m) is None,
    decreases trials,
{
    if i < trials - 1 {
        lemma_total_payoff_none(spot, rate_dt, vol, root, strike, draws, trials - 1, m, i);
    }
}

impl MonteCarloPricing {
    /// Prices the call by Monte Carlo: one path per `num_simulations`, each
    /// stepped `num_steps` times with its own slice of the supplied
    /// standard-normal draws, payoffs averaged and discounted by the supplied
    /// fixed-point factor (`exp(-rate * years)`). The result is exactly
    /// `price_result`; the spot price is the latest price of the chart.
    #[verifier::loop_isolation(false)]
    pub fn price(
        &self,
        price_chart: &PriceChart,
        draws: &Vec<i64>,
        discount: i64,
    ) -> (r: Result<i64, PricingError>)
        requires
            price_chart.wf(),
            0 <= self.years_to_expire,
            0 <= discount <= PRICE_LIMIT,
        ensures
            r == self.price_result(price_chart.data@.last().price as int, draws@, discount as int),
            r matches Ok(p) ==> p >= 0,
    {
        let sims: u16 = self.num_simulations;
        if sims == 0 {
            return Err(PricingError::ZeroSimulations);
        }
        let m: u16 = self.num_steps;
        if m == 0 {
            return Err(PricingError::ZeroSteps);
        }
        proof {
            assert((sims as int) * (m as int) <= 65535 * 65535 && (sims as int) * (m as int) >= 1)
                by (nonlinear_arith)
                requires
                    1 <= sims <= 65535,
                    1 <= m <= 65535,
            ;
        }
        let need: usize = (sims as usize) * (m as usize);
        if draws.len() != need {
            return Err(PricingError::DrawsMismatch);
        }
        let spot: i64 = price_chart.underlying_price();
        let dt: i64 = self.years_to_expire / (m as i64);
        let rate_dt: i64 = match checked_scale_mul(self.risk_free_rate, dt) {
            Some(v) => v,
            None => {
                return Err(PricingError::Overflow);
            },
        };
        proof {
            assert((dt as int) * (SCALE as int) <= u128::MAX) by (nonlinear_arith)
                requires
                    0 <= dt <= i64::MAX,
            ;
        }
        let n128: u128 = (dt as u128) * (SCALE as u128);
        let root_wide = isqrt(n128);
        proof {
            assert(root_wide <= 4_000_000_000_000u128) by (nonlinear_arith)
                requires
                    (root_wide as int) * (root_wide as int) <= n128,
                    n128 <= 9_223_372_036_854_775_807u128 * 1_000_000,
                    root_wide >= 0,
            ;
        }
        let root: i64 = root_wide as i64;
        let vol: i64 = self.implied_vol;
        let strike: i64 = self.strike_price;
        let mut total: i128 = 0;
        let mut i: usize = 0;
        while i < (sims as usize)
            invariant
                0 <= i <= sims as int,
                total_payoff(
                    spot as int,
                    rate_dt as int,
                    vol as int,
                    root as int,
                    strike as int,
                    draws@,
                    i as int,
                    m as int,
                ) == Some(total as int),
                0 <= total <= (i as int) * 18_446_744_073_709_551_615int,
            decreases sims as int - i,
        {
            proof {
                assert((i as int) * (m as int) >= 0 && (i as int + 1) * (m as int) == (i as int)
                    * (m as int) + (m as int) && (i as int) * (m as int) + (m as int) <= (
                sims as int) * (m as int)) by (nonlinear_arith)
                    requires
                        0 <= i < sims,
                        1 <= m,
                ;
            }
            let base: usize = i * (m as usize);
            let ghost trial = draws@.subrange((i as int) * (m as int), (i as int + 1) * (m
                as int));
            let mut sv: i64 = spot;
            let mut k: usize = 0;
            proof {
                assert(trial.take(0) =~= Seq::<i64>::empty());
            }
            while k < (m as usize)
                invariant
                    0 <= k <= m as usize,
                    path_price(spot as int, rate_dt as int, vol as int, root as int, trial.take(
                        k as int,
                    )) == Some(sv as int),
                decreases m as int - k,
            {
                let z = draws[base + k];
                proof {
                    assert(trial[k as int] == draws@[base + k]);
                    assert(trial.take(k + 1).drop_last() =~= trial.take(k as int));
                    assert(trial.take(k + 1).last() == trial[k as int]);
                }
                let w: i64 = match checked_scale_mul(z, root) {
                    Some(v) => v,
                    None => {
                        proof {
                            lemma_path_price_none_extends(
                                spot as int,
                                rate_dt as int,
                                vol as int,
                                root as int,
                                trial,
                                k + 1,
                            );
                            lemma_total_payoff_none(
                                spot as int,
                                rate_dt as int,
                                vol as int,
                                root as int,
                                strike as int,
                                draws@,
                                sims as int,
                                m as int,
                                i as int,
                            );
                        }
                        return Err(PricingError::Overflow);
                    },
                };
                let sw: i64 = match checked_scale_mul(vol, w) {
                    Some(v) => v,
                    None => {
                        proof {
                            lemma_path_price_none_extends(
                                spot as int,
                                rate_dt as int,
                                vol as int,
                                root as int,
                                trial,
                                k + 1,
                            );
                            lemma_total_payoff_none(
                                spot as int,
                                rate_dt as int,
                                vol as int,
                                root as int,
                                strike as int,
                                draws@,
                                sims as int,
                                m as int,
                                i as int,
                            );
                        }
                        return Err(PricingError::Overflow);
                    },
                };
                let ff: i128 = (SCALE as i128) + (rate_dt as i128) + (sw as i128);
                if ff < i64::MIN as i128 || ff > i64::MAX as i128 {
                    proof {
                        lemma_path_price_none_extends(
                            spot as int,
                            rate_dt as int,
                            vol as int,
                            root as int,
                            trial,
                            k + 1,
                        );
                        lemma_total_payoff_none(
                            spot as int,
                            rate_dt as int,
                            vol as int,
                            root as int,
                            strike as int,
                            draws@,
                            sims as int,
                            m as int,
                            i as int,
                        );
                    }
                    return Err(PricingError::Overflow);
                }
                let f: i64 = ff as i64;
                let s2: i64 = match checked_scale_mul(sv, f) {
                    Some(v) => v,
                    None => {
                        proof {
                            lemma_path_price_none_extends(
                                spot as int,
                                rate_dt as int,
                                vol as int,
                                root as int,
                                trial,
                                k + 1,
                            );
                            lemma_total_payoff_none(
                                spot as int,
                                rate_dt as int,
                                vol as int,
                                root as int,
                                strike as int,
                                draws@,
                                sims as int,
                                m as int,
                                i as int,
                            );
                        }
                        return Err(PricingError::Overflow);
                    },
                };
                sv = s2;
                k = k + 1;
            }
            proof {
                assert(trial.take(m as int) =~= trial);
            }
            let diff: i128 = (sv as i128) - (strike as i128);
            let pay: i128 = if diff > 0 {
                diff
            } else {
                0
            };
            total = total + pay;
            i = i + 1;
        }
        let avg: i128 = total / (sims as i128);
        proof {
            assert(0 <= avg && avg <= total) by (nonlinear_arith)
                requires
                    0 <= total,
                    1 <= sims as i128,
                    avg == total / (sims as i128),
            ;
            assert(avg * (discount as i128) <= 18_446_744_073_709_551_615i128 * 65_535
                * 1_000_000_000_000 && 0 <= avg * (discount as i128)) by (nonlinear_arith)
                requires
                    0 <= avg <= 18_446_744_073_709_551_615i128 * 65_535,
                    0 <= discount <= 1_000_000_000_000,
            ;
        }
        let scaled: i128 = avg * (discount as i128);
        let pv: i128 = scaled / (SCALE as i128);
        if pv > i64::MAX as i128 {
            return Err(PricingError::Overflow);
        }
        Ok(pv as i64)
    }
}

/// A Wiener process increment: a standard-normal draw `z` scaled by the
/// square root of the step length, all in fixed point. `None` when the
/// scaled value does not fit.
pub fn wiener_increment(z: i64, dt: i64) -> (r: Option<i64>)
    requires
        0 <= dt,
    ensures
        r == (if fits_i64(tdiv(z as int * sqrt_floor(dt * SCALE), SCALE as int)) {
            Some(tdiv(z as int * sqrt_floor(dt * SCALE), SCALE as int) as i64)
        } else {
            None::<i64>
        }),
{
    proof {
        assert((dt as int) * (SCALE as int) <= u128::MAX) by (nonlinear_arith)
            requires
                0 <= dt <= i64::MAX,
        ;
    }
    let n: u128 = (dt as u128) * (SCALE as u128);
    let root_wide = isqrt(n);
    proof {
        assert(root_wide <= 4_000_000_000_000u128) by (nonlinear_arith)
            requires
                (root_wide as int) * (root_wide as int) <= n,
                n <= 9_223_372_036_854_775_807u128 * 1_000_000,
                root_wide >= 0,
        ;
    }
    let root = root_wide as i64;
    checked_scale_mul(z, root)
}

} // verus!
