use optirust::application::{Action, Message, OptiRust};
use optirust::monte_carlo::PricingError;
use optirust::request::{DailyPrice, StockData};

const SCALE: i64 = 1_000_000;

#[test]
fn default_state_is_a_fresh_session() {
    let app = OptiRust::default();
    assert!(!app.show_import);
    assert!(!app.require_api_key);
    assert!(app.error_message.is_none());
    assert!(app.pricing_result.is_none());
    assert_eq!(app.monte_carlo_params.current_asset_price, "100.0");
    assert_eq!(app.monte_carlo_params.implied_vol, "0.25");
    assert_eq!(app.chart.data.len(), 8);
}

#[test]
fn show_import_asks_for_a_key_first() {
    let mut app = OptiRust::default();
    assert_eq!(app.update(Message::ShowImport), Action::Nothing);
    assert!(app.require_api_key);
    assert!(!app.show_import);

    app.update(Message::ApiKeyChanged("SECRET-REDACTED".to_string()));
    app.update(Message::SubmitApiKey);
    assert!(!app.require_api_key);
    assert!(app.show_import);
}

#[test]
fn import_without_index_reports_an_error() {
    let mut app = OptiRust::default();
    app.update(Message::ApiKeyChanged("SECRET-REDACTED".to_string()));
    assert_eq!(app.update(Message::ImportData), Action::Nothing);
    assert_eq!(app.error_message.as_deref(), Some("No Stock index was specified"));
    assert!(!app.show_import);
    app.update(Message::ClearError);
    assert!(app.error_message.is_none());
}

#[test]
fn import_with_key_and_index_requests_a_fetch() {
    let mut app = OptiRust::default();
    assert_eq!(app.update(Message::ImportData), Action::Nothing);
    assert_eq!(
        app.error_message.as_deref(),
        Some("No Alpha Vantage API key was specified")
    );
    app.update(Message::ApiKeyChanged("SECRET-REDACTED".to_string()));
    app.update(Message::ImportIndexChanged("SPX".to_string()));
    assert_eq!(app.update(Message::ImportData), Action::FetchIndexData);
}

#[test]
fn parameter_edits_land_in_the_params() {
    let mut app = OptiRust::default();
    app.update(Message::AssetPriceChanged("123.5".to_string()));
    app.update(Message::StrikePriceChanged("130.0".to_string()));
    app.update(Message::NumSimulationsChanged("2000".to_string()));
    assert_eq!(app.monte_carlo_params.current_asset_price, "123.5");
    assert_eq!(app.monte_carlo_params.strike_price, "130.0");
    assert_eq!(app.monte_carlo_params.num_simulations, "2000");
}

#[test]
fn update_parameters_builds_the_model() {
    let mut app = OptiRust::default();
    app.update(Message::AssetPriceChanged("123.5".to_string()));
    assert_eq!(app.update(Message::UpdateParameters), Action::SolveImpliedVol);
    assert_eq!(app.monte_carlo_pricing.current_asset_price, 123_500_000);
    assert_eq!(app.monte_carlo_pricing.strike_price, 105_500_000);
    assert_eq!(app.monte_carlo_pricing.num_simulations, 1000);
    app.apply_implied_vol(312_500);
    assert_eq!(app.monte_carlo_params.implied_vol, "0.312500");
}

#[test]
fn run_monte_carlo_requests_a_pricing_run() {
    let mut app = OptiRust::default();
    assert_eq!(app.update(Message::RunMonteCarlo), Action::RunPricing);
    app.apply_pricing_result(Ok(12 * SCALE));
    assert_eq!(app.pricing_result, Some(12 * SCALE));
    app.apply_pricing_result(Err(PricingError::ZeroSimulations));
    assert_eq!(app.error_message.as_deref(), Some("number of simulations is zero"));
    assert_eq!(app.pricing_result, Some(12 * SCALE));
}

fn day(date: &str, close: &str) -> (String, DailyPrice) {
    (
        date.to_string(),
        DailyPrice {
            open: "0.0".to_string(),
            high: "0.0".to_string(),
            low: "0.0".to_string(),
            close: close.to_string(),
            volume: "0".to_string(),
        },
    )
}

#[test]
fn imported_data_seeds_the_pricing_parameters() {
    let mut app = OptiRust::default();
    app.update(Message::ImportIndexChanged("SPX".to_string()));
    let data = StockData {
        time_series: vec![day("2025-01-01", "100.0"), day("2025-01-02", "120.0")],
    };
    app.apply_index_data(data).unwrap();
    assert_eq!(app.imported_index, "SPX");
    assert_eq!(app.chart.underlying_price(), 120 * SCALE);
    assert_eq!(app.monte_carlo_params.current_asset_price, "120.000000");
    assert_eq!(app.monte_carlo_params.strike_price, "126.000000");
}

#[test]
fn a_failed_import_leaves_the_state_alone() {
    let mut app = OptiRust::default();
    let old_sum = app.chart.sum;
    let data = StockData { time_series: vec![day("2025-99-01", "100.0")] };
    assert!(app.apply_index_data(data).is_err());
    assert_eq!(app.chart.sum, old_sum);
    assert_eq!(app.imported_index, "");
}
