//! The adapter for apixu.com: current conditions and a forecast.

use vstd::prelude::*;
use vstd::string::StringExecFns;
use crate::async_request::AsyncJsonResponse;
use crate::async_request::error::ApiError;
use crate::forecast::Forecast;
use crate::forecast::five_days;
use crate::forecast::outcome_days;
use crate::json::Json;
use crate::temperature::Temperature;

verus! {

/// Where the provider is reached.
pub const API_ROOT: &'static str = "http://api.apixu.com/v1";

/// The status with which the provider reports an error of the request.
pub const BAD_REQUEST_STATUS: u16 = 400;

/// The address that the current conditions at `q` are asked from.
pub open spec fn current_url_text(api_root: Seq<char>, q: Seq<char>, api_key: Seq<char>) -> Seq<
    char,
> {
    api_root + "/current.json?key="@ + api_key + "&q="@ + q
}

/// The address that the forecast for `q` is asked from.
pub open spec fn forecast_url_text(api_root: Seq<char>, q: Seq<char>, api_key: Seq<char>) -> Seq<
    char,
> {
    api_root + "/forecast.json?key="@ + api_key + "&q="@ + q + "&days=5"@
}

/// Whether an answer says that the provider does not know the location:
/// the status 400, with the number 1006 at `error.code`.
pub open spec fn says_not_found(response: AsyncJsonResponse) -> bool {
    response.status == BAD_REQUEST_STATUS && match response.body {
        Some(document) => match document.spec_member("error"@) {
            Some(error) => match error.spec_member("code"@) {
                Some(code) => code.spec_is_number("1006"@),
                None => false,
            },
            None => false,
        },
        None => false,
    }
}

/// What an answer to a question for the current conditions amounts to:
/// `LocationNotFound` where it says so; else the number at
/// `current.temp_c` as a temperature; `Other` where there is none.
pub open spec fn current_outcome(response: AsyncJsonResponse) -> Result<Temperature, ApiError> {
    if says_not_found(response) {
        Err(ApiError::LocationNotFound)
    } else {
        match response.body {
            Some(document) => match document.spec_nested_temperature("current"@, "temp_c"@) {
                Some(t) => Ok(t),
                None => Err(ApiError::Other),
            },
            None => Err(ApiError::Other),
        }
    }
}

/// The temperature of each day of a list of forecast days: the number at
/// `day.avgtemp_c`, unknown where there is none.
pub open spec fn day_temperatures(days: Seq<Json>) -> Seq<Option<Temperature>> {
    Seq::new(days.len(), |i: int| days[i].spec_nested_temperature("day"@, "avgtemp_c"@))
}

/// The list of forecast days in a document: the array at
/// `forecast.forecastday`.
pub open spec fn forecast_list(document: Json) -> Option<Seq<Json>> {
    match document.spec_member("forecast"@) {
        Some(forecast) => match forecast.spec_member("forecastday"@) {
            Some(list) => list.spec_items(),
            None => None,
        },
        None => None,
    }
}

/// What an answer to a question for the forecast amounts to:
/// `LocationNotFound` where it says so; `Other` where it holds no list of
/// days; else the temperatures of the first five days of the list, with
/// unknown days after them where the list is shorter.
pub open spec fn forecast_outcome(response: AsyncJsonResponse) -> Result<
    Seq<Option<Temperature>>,
    ApiError,
> {
    if says_not_found(response) {
        Err(ApiError::LocationNotFound)
    } else {
        match response.body {
            Some(document) => match forecast_list(document) {
                Some(days) => Ok(five_days(day_temperatures(days))),
                None => Err(ApiError::Other),
            },
            None => Err(ApiError::Other),
        }
    }
}

/// Builds the address that the current conditions at `q` are asked from.
pub fn current_url(api_root: &str, q: &str, api_key: &str) -> (url: String)
    ensures
        url@ == current_url_text(api_root@, q@, api_key@),
{
    let mut url = String::from_str(api_root);
    url.append("/current.json?key=");
    url.append(api_key);
    url.append("&q=");
    url.append(q);
    url
}

/// Builds the address that the forecast for `q` is asked from.
pub fn forecast_url(api_root: &str, q: &str, api_key: &str) -> (url: String)
    ensures
        url@ == forecast_url_text(api_root@, q@, api_key@),
{
    let mut url = String::from_str(api_root);
    url.append("/forecast.json?key=");
    url.append(api_key);
    url.append("&q=");
    url.append(q);
    url.append("&days=5");
    url
}

/// Whether an answer says that the provider does not know the location.
pub fn is_not_found(response: &AsyncJsonResponse) -> (not_found: bool)
    ensures
        not_found == says_not_found(*response),
{
    if response.status != BAD_REQUEST_STATUS {
        return false;
    }
    match &response.body {
        Some(document) => match document.member("error") {
            Some(error) => match error.member("code") {
                Some(code) => code.is_number("1006"),
                None => false,
            },
            None => false,
        },
        None => false,
    }
}

/// Reads the current temperature from an answer of the provider.
pub fn current(response: &AsyncJsonResponse) -> (outcome: Result<Temperature, ApiError>)
    ensures
        outcome == current_outcome(*response),
{
    if is_not_found(response) {
        return Err(ApiError::LocationNotFound);
    }
    match &response.body {
        Some(document) => match document.nested_temperature("current", "temp_c") {
            Some(t) => Ok(t),
            None => Err(ApiError::Other),
        },
        None => Err(ApiError::Other),
    }
}

/// Finds the list of forecast days in a document.
fn find_forecast_list(document: &Json) -> (list: Option<&Vec<Json>>)
    ensures
        match list {
            Some(days) => forecast_list(*document) == Some(days@),
            None => forecast_list(*document) is None,
        },
{
    match document.member("forecast") {
        Some(forecast) => match forecast.member("forecastday") {
            Some(list) => list.items(),
            None => None,
        },
        None => None,
    }
}

/// Reads the temperature of each day of a list of forecast days.
fn read_days(days: &Vec<Json>) -> (temperatures: Vec<Option<Temperature>>)
    ensures
        temperatures@ == day_temperatures(days@),
{
    let mut temperatures: Vec<Option<Temperature>> = Vec::new();
    let mut i: usize = 0;
    while i < days.len()
        invariant
            i <= days@.len(),
            temperatures@.len() == i,
            forall|j: int|
                0 <= j < i ==> #[trigger] temperatures@[j] == days@[j].spec_nested_temperature(
                    "day"@,
                    "avgtemp_c"@,
                ),
        decreases days.len() - i,
    {
        temperatures.push(days[i].nested_temperature("day", "avgtemp_c"));
        i += 1;
    }
    assert(temperatures@ =~= day_temperatures(days@));
    temperatures
}

/// Reads the forecast from an answer of the provider.
pub fn forecast(response: &AsyncJsonResponse) -> (outcome: Result<Forecast, ApiError>)
    ensures
        outcome_days(outcome) == forecast_outcome(*response),
{
    if is_not_found(response) {
        return Err(ApiError::LocationNotFound);
    }
    match &response.body {
        Some(document) => match find_forecast_list(document) {
            Some(days) => Ok(Forecast::from_days(read_days(days))),
            None => Err(ApiError::Other),
        },
        None => Err(ApiError::Other),
    }
}

/// Reads the current temperature from what a call to the provider settled
/// with: an answer is read, a failure is kept as it is.
pub fn current_of(settled: &Result<AsyncJsonResponse, ApiError>) -> (outcome: Result<
    Temperature,
    ApiError,
>)
    ensures
        outcome == match *settled {
            Ok(response) => current_outcome(response),
            Err(e) => Err(e),
        },
{
    match settled {
        Ok(response) => current(response),
        Err(e) => Err(*e),
    }
}

/// Reads the forecast from what a call to the provider settled with: an
/// answer is read, a failure is kept as it is.
pub fn forecast_of(settled: &Result<AsyncJsonResponse, ApiError>) -> (outcome: Result<
    Forecast,
    ApiError,
>)
    ensures
        outcome_days(outcome) == match *settled {
            Ok(response) => forecast_outcome(response),
            Err(e) => Err(e),
        },
{
    match settled {
        Ok(response) => forecast(response),
        Err(e) => Err(*e),
    }
}

} // verus!
