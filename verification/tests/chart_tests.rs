use optirust::chart::{ChartError, DataPoint, PriceChart};
use optirust::date::Date;
use optirust::request::{DailyPrice, StockData};

/// One fixed-point unit per millionth: 1.0 is 1_000_000.
const SCALE: i64 = 1_000_000;

fn fixed(x: f64) -> i64 {
    (x * SCALE as f64).round() as i64
}

fn ymd(y: i64, m: i64, d: i64) -> Date {
    Date::from_ymd(y, m, d).unwrap()
}

fn chart_of(prices: &[f64]) -> PriceChart {
    let fixed_prices: Vec<i64> = prices.iter().map(|&p| fixed(p)).collect();
    PriceChart::from_prices_and_date(fixed_prices, ymd(2025, 1, 3)).unwrap()
}

#[test]
fn test_data_point_creation() {
    let date = ymd(2025, 1, 1);
    let dp = DataPoint::new(fixed(100.0), date);
    assert_eq!(dp.price, fixed(100.0));
    assert_eq!(dp.date, date);
}

#[test]
fn test_price_chart_creation() {
    let data = vec![
        DataPoint::new(fixed(100.0), ymd(2025, 1, 1)),
        DataPoint::new(fixed(105.0), ymd(2025, 1, 2)),
    ];
    let chart = PriceChart::new(&data).unwrap();
    assert_eq!(chart.sum, fixed(205.0));
    assert_eq!(chart.max_price, fixed(105.0));
    assert_eq!(chart.min_price, fixed(100.0));
}

#[test]
fn test_change_price() {
    let mut chart = PriceChart::default();
    let old_price = chart.data[0].price;
    chart.change_price(0, fixed(150.0)).unwrap();
    assert!(chart.data[0].price != old_price);
    assert_eq!(chart.data[0].price, fixed(150.0));
}

#[test]
fn test_variance() {
    let chart = PriceChart::default();
    let var = chart.variance();
    assert!(var > 0);
}

#[test]
fn test_underlying_price() {
    let chart = PriceChart::default();
    let last_price = chart.data.last().unwrap().price;
    assert_eq!(chart.underlying_price(), last_price);
}

#[test]
fn construction_sums_are_exact() {
    let prices = [113.0, 116.5, 137.0, 145.3, 101.32, 104.33, 120.32, 100.4];
    let chart = chart_of(&prices);
    let sum: i64 = prices.iter().map(|&p| fixed(p)).sum();
    let squared_sum: i128 = prices
        .iter()
        .map(|&p| {
            let f = fixed(p) as i128;
            f * f
        })
        .sum();
    assert_eq!(chart.sum, sum);
    assert_eq!(chart.squared_sum, squared_sum);
}

#[test]
fn change_price_adjusts_sum_by_difference() {
    let mut chart = chart_of(&[100.0, 105.0, 102.5]);
    let before = chart.sum;
    let old_price = chart.data[1].price;
    chart.change_price(1, fixed(99.25)).unwrap();
    assert_eq!(chart.sum, before + (fixed(99.25) - old_price));
    assert_eq!(chart.data[1].price, fixed(99.25));
}

#[test]
fn min_max_track_every_change() {
    let mut chart = chart_of(&[100.0, 105.0, 102.0]);
    chart.change_price(0, fixed(150.0)).unwrap();
    assert_eq!(chart.max_price, fixed(150.0));
    assert_eq!(chart.min_price, fixed(102.0));
    chart.change_price(0, fixed(101.0)).unwrap();
    assert_eq!(chart.max_price, fixed(105.0));
    assert_eq!(chart.min_price, fixed(101.0));
    chart.change_price(2, fixed(90.0)).unwrap();
    chart.change_price(1, fixed(95.0)).unwrap();
    assert_eq!(chart.max_price, fixed(101.0));
    assert_eq!(chart.min_price, fixed(90.0));
}

#[test]
fn variance_of_constant_series_is_zero() {
    let chart = chart_of(&[5.0, 5.0, 5.0, 5.0]);
    assert_eq!(chart.variance(), 0);
}

#[test]
fn variance_is_never_negative() {
    assert!(chart_of(&[1.0, 2.0]).variance() >= 0);
    assert!(chart_of(&[-3.5, 2.25, 0.0]).variance() >= 0);
    assert!(chart_of(&[7.125]).variance() >= 0);
}

#[test]
fn two_day_scenario() {
    let mut chart = chart_of(&[100.0, 105.0]);
    assert_eq!(chart.sum, fixed(205.0));
    assert_eq!(chart.max_price, fixed(105.0));
    assert_eq!(chart.min_price, fixed(100.0));
    chart.change_price(0, fixed(150.0)).unwrap();
    assert_eq!(chart.sum, fixed(255.0));
    assert_eq!(chart.max_price, fixed(150.0));
}

#[test]
fn empty_series_is_rejected() {
    let empty: Vec<DataPoint> = Vec::new();
    assert_eq!(PriceChart::new(&empty).unwrap_err(), ChartError::EmptySeries);
    let no_prices: Vec<i64> = Vec::new();
    assert_eq!(
        PriceChart::from_prices_and_date(no_prices, ymd(2025, 1, 1)).unwrap_err(),
        ChartError::EmptySeries
    );
}

#[test]
fn oversized_series_is_rejected() {
    let prices = vec![fixed(1.0); 1_000_001];
    assert_eq!(
        PriceChart::from_prices_and_date(prices, ymd(2025, 1, 1)).unwrap_err(),
        ChartError::TooManyPoints
    );
}

#[test]
fn variance_has_its_exact_value() {
    // Population variance of [100, 105] is 6.25, in squared fixed point.
    let chart = chart_of(&[100.0, 105.0]);
    assert_eq!(chart.variance(), 6_250_000_000_000);
}

#[test]
fn out_of_range_price_is_rejected() {
    let data = vec![DataPoint::new(2_000_000_000_000, ymd(2025, 1, 1))];
    assert_eq!(PriceChart::new(&data).unwrap_err(), ChartError::PriceOutOfRange);
}

#[test]
fn change_price_checks_the_index() {
    let mut chart = chart_of(&[100.0, 105.0]);
    assert_eq!(chart.change_price(2, fixed(1.0)).unwrap_err(), ChartError::IndexOutOfRange);
    assert_eq!(chart.sum, fixed(205.0));
    assert_eq!(
        chart.change_price(0, 2_000_000_000_000).unwrap_err(),
        ChartError::PriceOutOfRange
    );
    assert_eq!(chart.data[0].price, fixed(100.0));
}

#[test]
fn synthesized_dates_advance_daily() {
    let chart = chart_of(&[1.0, 2.0, 3.0]);
    let start = ymd(2025, 1, 3);
    assert_eq!(chart.data[0].date.days, start.days);
    assert_eq!(chart.data[1].date.days, start.days + 1);
    assert_eq!(chart.data[2].date.days, start.days + 2);
}

fn day(date: &str, close: &str) -> (String, DailyPrice) {
    (
        date.to_string(),
        DailyPrice {
            open: "0.0".to_string(),
            high: "0.0".to_string(),
            low: "0.0".to_string(),
            close: close.to_string(),
            volume: "0".to_string(),
        },
    )
}

#[test]
fn from_json_sorts_by_date() {
    let data = StockData {
        time_series: vec![
            day("2025-01-03", "102.0"),
            day("2025-01-01", "100.0"),
            day("2025-01-02", "105.0"),
        ],
    };
    let chart = PriceChart::from_json(data).unwrap();
    assert_eq!(chart.data.len(), 3);
    assert_eq!(chart.data[0].price, fixed(100.0));
    assert_eq!(chart.data[1].price, fixed(105.0));
    assert_eq!(chart.data[2].price, fixed(102.0));
    assert!(chart.data[0].date.days < chart.data[1].date.days);
    assert!(chart.data[1].date.days < chart.data[2].date.days);
    assert_eq!(chart.sum, fixed(307.0));
    assert_eq!(chart.underlying_price(), fixed(102.0));
}

#[test]
fn from_json_rejects_bad_date() {
    let data = StockData { time_series: vec![day("2025-13-01", "100.0")] };
    assert_eq!(PriceChart::from_json(data).unwrap_err(), ChartError::InvalidDate);
}

#[test]
fn from_json_rejects_bad_price() {
    let data = StockData { time_series: vec![day("2025-01-01", "abc")] };
    assert_eq!(PriceChart::from_json(data).unwrap_err(), ChartError::InvalidPrice);
}

#[test]
fn from_json_rejects_empty_series() {
    let data = StockData { time_series: Vec::new() };
    assert_eq!(PriceChart::from_json(data).unwrap_err(), ChartError::EmptySeries);
}

#[test]
fn calendar_dates_are_consistent() {
    assert!(Date::from_ymd(2025, 2, 29).is_none());
    assert!(Date::from_ymd(2024, 2, 29).is_some());
    assert!(Date::from_ymd(1900, 2, 29).is_none());
    assert!(Date::from_ymd(2000, 2, 29).is_some());
    assert!(Date::from_ymd(2025, 0, 1).is_none());
    assert!(Date::from_ymd(2025, 4, 31).is_none());
    assert_eq!(ymd(2025, 1, 31).days + 1, ymd(2025, 2, 1).days);
    assert_eq!(ymd(2024, 12, 31).days + 1, ymd(2025, 1, 1).days);
    assert_eq!(ymd(2024, 2, 28).days + 2, ymd(2024, 3, 1).days);
    assert_eq!(ymd(1, 1, 1).days, 0);
}

#[test]
fn iso_dates_parse_to_the_same_day() {
    assert_eq!(Date::parse_iso("2025-01-03"), Some(ymd(2025, 1, 3)));
    assert_eq!(Date::parse_iso("2024-02-29"), Some(ymd(2024, 2, 29)));
    assert_eq!(Date::parse_iso("2025-02-29"), None);
    assert_eq!(Date::parse_iso("2025-1-03"), None);
    assert_eq!(Date::parse_iso("03-01-2025"), None);
    assert_eq!(Date::parse_iso(""), None);
}
