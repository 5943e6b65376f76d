//! Weather aggregation: several unreliable providers are asked for the
//! temperature at a location, and their answers are merged into one.

pub mod aggregate;
pub mod apixu;
pub mod async_request;
pub mod decimal;
pub mod forecast;
pub mod json;
pub mod owm;
pub mod server;
pub mod temperature;
pub mod weatherbit;

use vstd::prelude::*;

verus! {

/// The credentials of the three providers.
#[derive(Debug, Clone)]
pub struct ApiKeys {
    pub owm_key: String,
    pub apixu_key: String,
    pub weatherbit_key: String,
}

impl ApiKeys {
    /// Puts the three credentials together.
    pub fn new(owm_key: String, apixu_key: String, weatherbit_key: String) -> (keys: ApiKeys)
        ensures
            keys.owm_key == owm_key,
            keys.apixu_key == apixu_key,
            keys.weatherbit_key == weatherbit_key,
    {
        ApiKeys { owm_key: owm_key, apixu_key: apixu_key, weatherbit_key: weatherbit_key }
    }
}

} // verus!
