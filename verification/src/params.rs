//! The user-editable pricing parameters, as entered: free text per field.

use vstd::prelude::*;

verus! {

/// The eight pricing parameters as textual fields. Parsing them, with a
/// documented fallback default per field, yields a `MonteCarloPricing`.
pub struct MonteCarloParams {
    pub current_asset_price: String,
    pub market_option_price: String,
    pub strike_price: String,
    pub days_to_expire: String,
    pub num_simulations: String,
    pub num_steps: String,
    pub risk_free_rate: String,
    pub implied_vol: String,
}

impl Default for MonteCarloParams {
    /// The parameter set a fresh session starts from.
    fn default() -> (r: MonteCarloParams)
        ensures
            r.current_asset_price@ == "100.0"@,
            r.market_option_price@ == "5.0"@,
            r.strike_price@ == "105.5"@,
            r.days_to_expire@ == "25"@,
            r.num_simulations@ == "1000"@,
            r.num_steps@ == "10"@,
            r.risk_free_rate@ == "0.05"@,
            r.implied_vol@ == "0.25"@,
    {
        MonteCarloParams {
            current_asset_price: "100.0".to_owned(),
            market_option_price: "5.0".to_owned(),
            strike_price: "105.5".to_owned(),
            days_to_expire: "25".to_owned(),
            num_simulations: "1000".to_owned(),
            num_steps: "10".to_owned(),
            risk_free_rate: "0.05".to_owned(),
            implied_vol: "0.25".to_owned(),
        }
    }
}

} // verus!
