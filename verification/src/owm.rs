//! The adapter for openweathermap.org: current conditions only.

use vstd::prelude::*;
use vstd::string::StringExecFns;
use crate::async_request::AsyncJsonResponse;
use crate::async_request::error::ApiError;
use crate::temperature::Temperature;

verus! {

/// Where the provider is reached.
pub const API_ROOT: &'static str = "http://api.openweathermap.org/data/2.5";

/// The status with which the provider says that it does not know the
/// location.
pub const NOT_FOUND_STATUS: u16 = 404;

/// The address that the current conditions at `q` are asked from.
pub open spec fn current_url_text(api_root: Seq<char>, q: Seq<char>, api_key: Seq<char>) -> Seq<
    char,
> {
    api_root + "/weather?q="@ + q + "&APPID="@ + api_key + "&units=metric"@
}

/// What an answer of the provider amounts to: `LocationNotFound` for the
/// status 404; else the number at `main.temp` as a temperature; `Other`
/// where there is none.
pub open spec fn current_outcome(response: AsyncJsonResponse) -> Result<Temperature, ApiError> {
    if response.status == NOT_FOUND_STATUS {
        Err(ApiError::LocationNotFound)
    } else {
        match response.body {
            Some(document) => match document.spec_nested_temperature("main"@, "temp"@) {
                Some(t) => Ok(t),
                None => Err(ApiError::Other),
            },
            None => Err(ApiError::Other),
        }
    }
}

/// Builds the address that the current conditions at `q` are asked from.
pub fn current_url(api_root: &str, q: &str, api_key: &str) -> (url: String)
    ensures
        url@ == current_url_text(api_root@, q@, api_key@),
{
    let mut url = String::from_str(api_root);
    url.append("/weather?q=");
    url.append(q);
    url.append("&APPID=");
    url.append(api_key);
    url.append("&units=metric");
    url
}

/// Reads the current temperature from an answer of the provider.
pub fn current(response: &AsyncJsonResponse) -> (outcome: Result<Temperature, ApiError>)
    ensures
        outcome == current_outcome(*response),
{
    if response.status == NOT_FOUND_STATUS {
        return Err(ApiError::LocationNotFound);
    }
    match &response.body {
        Some(document) => match document.nested_temperature("main", "temp") {
            Some(t) => Ok(t),
            None => Err(ApiError::Other),
        },
        None => Err(ApiError::Other),
    }
}

/// Reads the current temperature from what a call to the provider settled
/// with: an answer is read, a failure is kept as it is.
pub fn current_of(settled: &Result<AsyncJsonResponse, ApiError>) -> (outcome: Result<
    Temperature,
    ApiError,
>)
    ensures
        outcome == match *settled {
            Ok(response) => current_outcome(response),
            Err(e) => Err(e),
        },
{
    match settled {
        Ok(response) => current(response),
        Err(e) => Err(*e),
    }
}

} // verus!
