//! The application state and its event-driven updates.
//!
//! `update` takes a user-interface event and performs every decision it
//! implies on the state, returning the one piece of outside work — a network
//! fetch, an implied-volatility solve, a pricing run — that the surrounding
//! application must perform. The outcome of that work is handed back through
//! the `apply_*` methods, which finish the update.

use vstd::prelude::*;

use crate::chart::{
    default_prices, import_error, parsed_points, sorted_by_date, synth_points, ChartError,
    PriceChart,
};
use crate::date::{day_number, Date};
use crate::fixed::{checked_scale_mul, fits_i64, scaled_product};
use crate::monte_carlo::{model_of, pricing_error_text, MonteCarloPricing, PricingError};
use crate::params::MonteCarloParams;
use crate::parse::{fixed_string, fixed_to_string};
use crate::request::StockData;
use vstd::pervasive::unreached;

verus! {

/// The user-interface events the application reacts to.
#[derive(Debug, Clone)]
pub enum Message {
    ShowImport,
    HideImport,
    ImportData,
    ImportIndexChanged(String),
    SubmitApiKey,
    HideSubmitApiKey,
    ApiKeyChanged(String),
    ClearError,
    AssetPriceChanged(String),
    StrikePriceChanged(String),
    MarketPriceChanged(String),
    ImpliedVolChanged(String),
    RiskFreeRateChanged(String),
    DaysToExpireChanged(String),
    NumStepsChanged(String),
    NumSimulationsChanged(String),
    UpdateParameters,
    RunMonteCarlo,
}

/// The outside work a state update asks its caller to perform.
#[derive(Debug, Clone, Copy, PartialEq, Eq, Structural)]
pub enum Action {
    /// Nothing beyond the state changed.
    Nothing,
    /// Fetch the daily series for the chosen index, then call
    /// `apply_index_data` with it (or report the failure to the user).
    FetchIndexData,
    /// Estimate the implied volatility with the bisection solver, then call
    /// `apply_implied_vol` with the estimate.
    SolveImpliedVol,
    /// Run the pricing engine, then call `apply_pricing_result`.
    RunPricing,
}

/// The application state: the loaded price series, the import dialog state,
/// and the pricing model with its editable parameters.
pub struct OptiRust {
    pub chart: PriceChart,
    pub show_import: bool,
    pub imported_index: String,
    pub index_value_text: String,
    pub api_key: String,
    pub require_api_key: bool,
    pub error_message: Option<String>,
    pub monte_carlo_pricing: MonteCarloPricing,
    pub monte_carlo_params: MonteCarloParams,
    pub pricing_result: Option<i64>,
}

impl OptiRust {
    /// Reacts to one event: updates the state and names the outside work, if
    /// any, that must follow.
    pub fn update(&mut self, message: Message) -> (a: Action)
        ensures
            message is ShowImport ==> a == Action::Nothing && (if old(self).api_key@.len() == 0 {
                *final(self) == (OptiRust { require_api_key: true, ..*old(self) })
            } else {
                *final(self) == (OptiRust { show_import: true, ..*old(self) })
            }),
            message is HideImport ==> a == Action::Nothing && *final(self) == (OptiRust {
                show_import: false,
                ..*old(self)
            }),
            message matches Message::ImportIndexChanged(v) ==> a == Action::Nothing && *final(self) == (
            OptiRust { index_value_text: v, ..*old(self) }),
            message matches Message::ApiKeyChanged(v) ==> a == Action::Nothing && *final(self) == (
            OptiRust { api_key: v, ..*old(self) }),
            message is SubmitApiKey ==> a == Action::Nothing && *final(self) == (OptiRust {
                require_api_key: false,
                show_import: true,
                ..*old(self)
            }),
            message is HideSubmitApiKey ==> a == Action::Nothing && *final(self) == (OptiRust {
                require_api_key: false,
                api_key: final(self).api_key,
                ..*old(self)
            }) && final(self).api_key@.len() == 0,
            message is ClearError ==> a == Action::Nothing && *final(self) == (OptiRust {
                error_message: None,
                ..*old(self)
            }),
            message is ImportData ==> *final(self) == (OptiRust {
                show_import: false,
                error_message: final(self).error_message,
                ..*old(self)
            }) && (if old(self).api_key@.len() == 0 {
                a == Action::Nothing && (final(self).error_message matches Some(msg) && msg@
                    == "No Alpha Vantage API key was specified"@)
            } else if old(self).index_value_text@.len() == 0 {
                a == Action::Nothing && (final(self).error_message matches Some(msg) && msg@
                    == "No Stock index was specified"@)
            } else {
                a == Action::FetchIndexData && final(self).error_message == old(
                    self,
                ).error_message
            }),
            message matches Message::AssetPriceChanged(v) ==> a == Action::Nothing && *final(self) == (
            OptiRust {
                monte_carlo_params: MonteCarloParams {
                    current_asset_price: v,
                    ..old(self).monte_carlo_params
                },
                ..*old(self)
            }),
            message matches Message::StrikePriceChanged(v) ==> a == Action::Nothing && *final(self) == (
            OptiRust {
                monte_carlo_params: MonteCarloParams {
                    strike_price: v,
                    ..old(self).monte_carlo_params
                },
                ..*old(self)
            }),
            message matches Message::MarketPriceChanged(v) ==> a == Action::Nothing && *final(self) == (
            OptiRust {
                monte_carlo_params: MonteCarloParams {
                    market_option_price: v,
                    ..old(self).monte_carlo_params
                },
                ..*old(self)
            }),
            message matches Message::ImpliedVolChanged(v) ==> a == Action::Nothing && *final(self) == (
            OptiRust {
                monte_carlo_params: MonteCarloParams {
                    implied_vol: v,
                    ..old(self).monte_carlo_params
                },
                ..*old(self)
            }),
            message matches Message::RiskFreeRateChanged(v) ==> a == Action::Nothing && *final(self) == (
            OptiRust {
                monte_carlo_params: MonteCarloParams {
                    risk_free_rate: v,
                    ..old(self).monte_carlo_params
                },
                ..*old(self)
            }),
            message matches Message::DaysToExpireChanged(v) ==> a == Action::Nothing && *final(self) == (
            OptiRust {
                monte_carlo_params: MonteCarloParams {
                    days_to_expire: v,
                    ..old(self).monte_carlo_params
                },
                ..*old(self)
            }),
            message matches Message::NumStepsChanged(v) ==> a == Action::Nothing && *final(self) == (
            OptiRust {
                monte_carlo_params: MonteCarloParams {
                    num_steps: v,
                    ..old(self).monte_carlo_params
                },
                ..*old(self)
            }),
            message matches Message::NumSimulationsChanged(v) ==> a == Action::Nothing && *final(self) == (
            OptiRust {
                monte_carlo_params: MonteCarloParams {
                    num_simulations: v,
                    ..old(self).monte_carlo_params
                },
                ..*old(self)
            }),
            message is UpdateParameters ==> a == Action::SolveImpliedVol && *final(self) == (
            OptiRust { monte_carlo_pricing: model_of(old(self).monte_carlo_params), ..*old(self) }),
            message is RunMonteCarlo ==> a == Action::RunPricing && *final(self) == (OptiRust {
                monte_carlo_pricing: model_of(old(self).monte_carlo_params),
                ..*old(self)
            }),
    {
        match message {
            Message::ShowImport => {
                if self.api_key.as_str().is_empty() {
                    self.require_api_key = true;
                } else {
                    self.show_import = true;
                }
                Action::Nothing
            },
            Message::HideImport => {
                self.show_import = false;
                Action::Nothing
            },
            Message::ImportData => {
                self.show_import = false;
                if self.api_key.as_str().is_empty() {
                    self.error_message = Some(
                        "No Alpha Vantage API key was specified".to_owned(),
                    );
                    Action::Nothing
                } else if self.index_value_text.as_str().is_empty() {
                    self.error_message = Some("No Stock index was specified".to_owned());
                    Action::Nothing
                } else {
                    Action::FetchIndexData
                }
            },
            Message::ImportIndexChanged(value) => {
                self.index_value_text = value;
                Action::Nothing
            },
            Message::ApiKeyChanged(value) => {
                self.api_key = value;
                Action::Nothing
            },
            Message::SubmitApiKey => {
                self.require_api_key = false;
                self.show_import = true;
                Action::Nothing
            },
            Message::HideSubmitApiKey => {
                self.require_api_key = false;
                self.api_key = String::new();
                Action::Nothing
            },
            Message::ClearError => {
                self.error_message = None;
                Action::Nothing
            },
            Message::AssetPriceChanged(value) => {
                self.monte_carlo_params.current_asset_price = value;
                Action::Nothing
            },
            Message::StrikePriceChanged(value) => {
                self.monte_carlo_params.strike_price = value;
                Action::Nothing
            },
            Message::MarketPriceChanged(value) => {
                self.monte_carlo_params.market_option_price = value;
                Action::Nothing
            },
            Message::ImpliedVolChanged(value) => {
                self.monte_carlo_params.implied_vol = value;
                Action::Nothing
            },
            Message::RiskFreeRateChanged(value) => {
                self.monte_carlo_params.risk_free_rate = value;
                Action::Nothing
            },
            Message::DaysToExpireChanged(value) => {
                self.monte_carlo_params.days_to_expire = value;
                Action::Nothing
            },
            Message::NumStepsChanged(value) => {
                self.monte_carlo_params.num_steps = value;
                Action::Nothing
            },
            Message::NumSimulationsChanged(value) => {
                self.monte_carlo_params.num_simulations = value;
                Action::Nothing
            },
            Message::UpdateParameters => {
                self.monte_carlo_pricing = MonteCarloPricing::from_params(
                    &self.monte_carlo_params,
                );
                Action::SolveImpliedVol
            },
            Message::RunMonteCarlo => {
                self.monte_carlo_pricing = MonteCarloPricing::from_params(
                    &self.monte_carlo_params,
                );
                Action::RunPricing
            },
        }
    }

    /// Takes over an imported daily series: builds the chart from it,
    /// remembers the imported index, and seeds the asset price with the
    /// latest close and the strike with 1.05 times it. On a parse failure
    /// the state is left untouched.
    pub fn apply_index_data(&mut self, data: StockData) -> (r: Result<(), ChartError>)
        ensures
            r matches Err(e) ==> import_error(data.time_series@) == Some(e) && *final(self)
                == *old(self),
            r is Ok ==> import_error(data.time_series@) is None && *final(self) == (OptiRust {
                chart: final(self).chart,
                imported_index: final(self).imported_index,
                monte_carlo_params: final(self).monte_carlo_params,
                ..*old(self)
            }) && final(self).chart.wf() && sorted_by_date(final(self).chart.data@)
                && final(self).chart.data@.to_multiset() == parsed_points(
                data.time_series@,
            ).to_multiset() && !final(self).chart.refresh_chart && final(self).imported_index@
                == old(self).index_value_text@ && final(self).monte_carlo_params == (MonteCarloParams {
                current_asset_price: final(self).monte_carlo_params.current_asset_price,
                strike_price: final(self).monte_carlo_params.strike_price,
                ..old(self).monte_carlo_params
            }) && final(self).monte_carlo_params.current_asset_price@ == fixed_string(
                final(self).chart.data@.last().price as int,
            ) && final(self).monte_carlo_params.strike_price@ == fixed_string(
                scaled_product(final(self).chart.data@.last().price as int, 1_050_000),
            ),
    {
        let chart = match PriceChart::from_json(data) {
            Ok(c) => c,
            Err(e) => {
                return Err(e);
            },
        };
        let spot = chart.underlying_price();
        proof {
            assert(chart.data@[chart.data@.len() - 1] == chart.data@.last());
            assert(fits_i64(scaled_product(spot as int, 1_050_000))) by (nonlinear_arith)
                requires
                    -1_000_000_000_000 <= spot <= 1_000_000_000_000,
            ;
        }
        let strike = match checked_scale_mul(spot, 1_050_000) {
            Some(v) => v,
            None => unreached(),
        };
        self.chart = chart;
        self.imported_index = self.index_value_text.clone();
        self.monte_carlo_params.current_asset_price = fixed_to_string(spot);
        self.monte_carlo_params.strike_price = fixed_to_string(strike);
        Ok(())
    }

    /// Writes the solver's implied-volatility estimate back into the
    /// editable parameter field, as text.
    pub fn apply_implied_vol(&mut self, vol: i64)
        requires
            vol > i64::MIN,
        ensures
            *final(self) == (OptiRust {
                monte_carlo_params: final(self).monte_carlo_params,
                ..*old(self)
            }),
            final(self).monte_carlo_params == (MonteCarloParams {
                implied_vol: final(self).monte_carlo_params.implied_vol,
                ..old(self).monte_carlo_params
            }),
            final(self).monte_carlo_params.implied_vol@ == fixed_string(vol as int),
    {
        self.monte_carlo_params.implied_vol = fixed_to_string(vol);
    }

    /// Records the outcome of a pricing run: the discounted price on
    /// success, a user-visible message on failure.
    pub fn apply_pricing_result(&mut self, result: Result<i64, PricingError>)
        ensures
            result matches Ok(p) ==> *final(self) == (OptiRust {
                pricing_result: Some(p),
                ..*old(self)
            }),
            result matches Err(e) ==> *final(self) == (OptiRust {
                error_message: final(self).error_message,
                ..*old(self)
            }) && (final(self).error_message matches Some(msg) && msg@ == pricing_error_text(e)),
    {
        match result {
            Ok(p) => {
                self.pricing_result = Some(p);
            },
            Err(e) => {
                self.error_message = Some(e.message());
            },
        }
    }
}

/// The solver's estimate survives the write-back: after `apply_implied_vol`
/// the volatility field holds text that the next `from_params` parses to
/// exactly the estimate.
pub proof fn lemma_implied_vol_written_back_parses(vol: i64, p: MonteCarloParams)
    requires
        -crate::chart::PRICE_LIMIT <= vol <= crate::chart::PRICE_LIMIT,
        p.implied_vol@ == crate::parse::fixed_string(vol as int),
    ensures
        model_of(p).implied_vol == vol,
{
    crate::parse::lemma_render_parse_round_trip(vol as int);
}

impl Default for OptiRust {
    /// A fresh session: the default chart and parameters, no import dialog,
    /// no error, nothing priced yet.
    fn default() -> (r: OptiRust)
        ensures
            r.chart.wf(),
            r.chart.data@ == synth_points(
                default_prices(),
                Date { days: day_number(2025, 1, 3) as i64 },
            ),
            !r.show_import,
            r.imported_index@.len() == 0,
            r.index_value_text@.len() == 0,
            r.api_key@.len() == 0,
            !r.require_api_key,
            r.error_message is None,
            r.monte_carlo_pricing == (MonteCarloPricing {
                current_asset_price: 0,
                market_option_price: 0,
                strike_price: 0,
                num_simulations: 0,
                num_steps: 0,
                risk_free_rate: 0,
                implied_vol: 0,
                years_to_expire: 0,
            }),
            r.monte_carlo_params.current_asset_price@ == "100.0"@,
            r.monte_carlo_params.market_option_price@ == "5.0"@,
            r.monte_carlo_params.strike_price@ == "105.5"@,
            r.monte_carlo_params.days_to_expire@ == "25"@,
            r.monte_carlo_params.num_simulations@ == "1000"@,
            r.monte_carlo_params.num_steps@ == "10"@,
            r.monte_carlo_params.risk_free_rate@ == "0.05"@,
            r.monte_carlo_params.implied_vol@ == "0.25"@,
            r.pricing_result is None,
    {
        OptiRust {
            chart: PriceChart::default(),
            show_import: false,
            imported_index: String::new(),
            api_key: String::new(),
            require_api_key: false,
            error_message: None,
            monte_carlo_pricing: MonteCarloPricing::default(),
            monte_carlo_params: MonteCarloParams::default(),
            index_value_text: String::new(),
            pricing_result: None,
        }
    }
}

} // verus!
