//! Five-day forecasts: bringing a provider's days to exactly five, and
//! merging the forecasts of two providers day by day.

use vstd::prelude::*;
use itertools::EitherOrBoth;
use itertools::Itertools;
use crate::aggregate::AggregateFailure;
use crate::aggregate::classify;
use crate::async_request::error::ApiError;
use crate::temperature::Temperature;
use crate::temperature::round_div;
use crate::temperature::rounded_quotient;
use crate::temperature::lemma_round_div_between;

verus! {

/// The number of days in a forecast.
pub const DAYS: usize = 5;

/// A forecast: the temperature of each of five days, where it is known.
#[derive(Debug, Clone, Copy, PartialEq, Eq)]
pub struct Forecast {
    pub days: [Option<Temperature>; 5],
}

impl View for Forecast {
    type V = Seq<Option<Temperature>>;

    open spec fn view(&self) -> Seq<Option<Temperature>> {
        self.days@
    }
}

/// The first five of `days`, with unknown days after them where there are
/// fewer than five.
pub open spec fn five_days(days: Seq<Option<Temperature>>) -> Seq<Option<Temperature>> {
    Seq::new(
        5,
        |i: int|
            if i < days.len() {
                days[i]
            } else {
                None
            },
    )
}

/// One day of two forecasts merged: the mean of two known temperatures
/// (rounded to the nearest millidegree, ties to even), the known one of a
/// known and an unknown, unknown where both are.
pub open spec fn merge_day(a: Option<Temperature>, b: Option<Temperature>) -> Option<Temperature> {
    match (a, b) {
        (Some(x), Some(y)) => Some(
            Temperature { millidegrees: round_div(x.millidegrees + y.millidegrees, 2) as i64 },
        ),
        (Some(x), None) => Some(x),
        (None, Some(y)) => Some(y),
        (None, None) => None,
    }
}

/// Two forecasts merged day by day.
pub open spec fn merge_days(a: Seq<Option<Temperature>>, b: Seq<Option<Temperature>>) -> Seq<
    Option<Temperature>,
> {
    Seq::new(5, |i: int| merge_day(a[i], b[i]))
}

/// The days of a provider's forecast, or five unknown days where the
/// provider failed.
pub open spec fn days_or_unknown(outcome: Result<Forecast, ApiError>) -> Seq<Option<Temperature>> {
    match outcome {
        Ok(forecast) => forecast@,
        Err(_) => Seq::new(5, |i: int| None),
    }
}

/// What the outcomes of the two forecast providers amount to: a class of
/// failure where both failed, else their forecasts merged day by day.
pub open spec fn forecast_result(
    first: Result<Forecast, ApiError>,
    second: Result<Forecast, ApiError>,
) -> Result<Seq<Option<Temperature>>, AggregateFailure> {
    match (first, second) {
        (Err(ApiError::LocationNotFound), Err(ApiError::LocationNotFound)) => Err(
            AggregateFailure::AllNotFound,
        ),
        (Err(_), Err(_)) => Err(AggregateFailure::AllOtherFailure),
        _ => Ok(merge_days(days_or_unknown(first), days_or_unknown(second))),
    }
}

/// The days of a forecast that a provider's answer was read as.
pub open spec fn outcome_days(outcome: Result<Forecast, ApiError>) -> Result<
    Seq<Option<Temperature>>,
    ApiError,
> {
    match outcome {
        Ok(forecast) => Ok(forecast@),
        Err(e) => Err(e),
    }
}

/// The days of an aggregated forecast.
pub open spec fn result_days(result: Result<Forecast, AggregateFailure>) -> Result<
    Seq<Option<Temperature>>,
    AggregateFailure,
> {
    match result {
        Ok(forecast) => Ok(forecast@),
        Err(failure) => Err(failure),
    }
}

/// Pairs each of `days` with its index below `n`, by `zip_longest` of
/// itertools: the pairs are as many as the longer of the two, and each
/// holds the day at its index where `days` reaches that far, and the index
/// where it is below `n`.
#[verifier::external_body]
fn zip_longest_with_indices(days: Vec<Option<Temperature>>, n: usize) -> (pairs: Vec<
    (Option<Option<Temperature>>, Option<usize>),
>)
    ensures
        pairs@.len() == if days@.len() >= n {
            days@.len()
        } else {
            n as nat
        },
        forall|i: int|
            0 <= i < pairs@.len() ==> (#[trigger] pairs@[i]).0 == if i < days@.len() {
                Some(days@[i])
            } else {
                None
            },
        forall|i: int|
            0 <= i < pairs@.len() ==> (#[trigger] pairs@[i]).1 == if i < n {
                Some(i as usize)
            } else {
                None
            },
{
    days.into_iter().zip_longest(0..n).map(
        |pair|
            match pair {
                EitherOrBoth::Both(day, index) => (Some(day), Some(index)),
                EitherOrBoth::Left(day) => (Some(day), None),
                EitherOrBoth::Right(index) => (None, Some(index)),
            },
    ).collect()
}

/// The day that a pair of a day and an index stands for: the day's
/// temperature where both are there and the temperature is known.
fn paired_day(pair: &(Option<Option<Temperature>>, Option<usize>)) -> (day: Option<Temperature>)
    ensures
        day == match *pair {
            (Some(Some(t)), Some(_)) => Some(t),
            _ => None,
        },
{
    match pair {
        (Some(Some(t)), Some(_)) => Some(*t),
        _ => None,
    }
}

/// Merges one day of two forecasts.
pub fn merged_day(a: Option<Temperature>, b: Option<Temperature>) -> (day: Option<Temperature>)
    ensures
        day == merge_day(a, b),
        (a, b) matches (Some(x), Some(y)) ==> day matches Some(m) && m.millidegrees == round_div(
            x.millidegrees + y.millidegrees,
            2,
        ),
{
    match (a, b) {
        (Some(x), Some(y)) => {
            proof {
                lemma_round_div_between(
                    x.millidegrees + y.millidegrees,
                    2,
                    i64::MIN as int,
                    i64::MAX as int,
                );
            }
            let m = rounded_quotient(x.millidegrees as i128 + y.millidegrees as i128, 2);
            Some(Temperature { millidegrees: m as i64 })
        },
        (Some(x), None) => Some(x),
        (None, Some(y)) => Some(y),
        (None, None) => None,
    }
}

impl Forecast {
    /// A forecast of which no day is known.
    pub fn unknown() -> (forecast: Forecast)
        ensures
            forecast@ == Seq::new(5, |i: int| None::<Temperature>),
    {
        let forecast = Forecast { days: [None, None, None, None, None] };
        assert(forecast@ =~= Seq::new(5, |i: int| None::<Temperature>));
        forecast
    }

    /// Brings the days that a provider returned to exactly five: days
    /// beyond the fifth are dropped, days that are missing are unknown.
    pub fn from_days(days: Vec<Option<Temperature>>) -> (forecast: Forecast)
        ensures
            forecast@ == five_days(days@),
            forecast@.len() == 5,
    {
        let pairs = zip_longest_with_indices(days, DAYS);
        let forecast = Forecast {
            days: [
                paired_day(&pairs[0]),
                paired_day(&pairs[1]),
                paired_day(&pairs[2]),
                paired_day(&pairs[3]),
                paired_day(&pairs[4]),
            ],
        };
        assert(forecast@ =~= five_days(days@));
        forecast
    }

    /// Merges this forecast with another, day by day.
    pub fn merge(&self, other: &Forecast) -> (merged: Forecast)
        ensures
            merged@ == merge_days(self@, other@),
            merged@.len() == 5,
    {
        let merged = Forecast {
            days: [
                merged_day(self.days[0], other.days[0]),
                merged_day(self.days[1], other.days[1]),
                merged_day(self.days[2], other.days[2]),
                merged_day(self.days[3], other.days[3]),
                merged_day(self.days[4], other.days[4]),
            ],
        };
        assert(merged@ =~= merge_days(self@, other@));
        merged
    }
}

/// Merges the settled outcomes of the two forecast providers. Where both
/// failed, the answer is the class of the two failures: `AllNotFound` only
/// if both are `LocationNotFound`. Otherwise it is five days, each merged
/// from the two forecasts, a failed provider counting as five unknown days.
pub fn get_forecast(first: &Result<Forecast, ApiError>, second: &Result<Forecast, ApiError>) -> (result:
    Result<Forecast, AggregateFailure>)
    ensures
        result_days(result) == forecast_result(*first, *second),
        result matches Ok(forecast) ==> forecast@.len() == 5,
{
    match (first, second) {
        (Err(a), Err(b)) => {
            let failures = [*a, *b];
            let class = classify(failures.as_slice());
            proof {
                assert(failures@[0] == *a && failures@[1] == *b);
            }
            Err(class)
        },
        (Ok(a), Ok(b)) => Ok(a.merge(b)),
        (Ok(a), Err(_)) => {
            let b = Forecast::unknown();
            Ok(a.merge(&b))
        },
        (Err(_), Ok(b)) => {
            let a = Forecast::unknown();
            Ok(a.merge(b))
        },
    }
}

/// Merging one day does not depend on which provider comes first.
pub proof fn lemma_merge_day_commutes(a: Option<Temperature>, b: Option<Temperature>)
    ensures
        merge_day(a, b) == merge_day(b, a),
{
}

/// The merged temperature of a day lies between the two that it was
/// merged from.
pub proof fn lemma_merge_day_between(x: Temperature, y: Temperature)
    requires
        x.millidegrees <= y.millidegrees,
    ensures
        merge_day(Some(x), Some(y)) matches Some(m) && x.millidegrees <= m.millidegrees
            <= y.millidegrees,
{
    lemma_round_div_between(
        x.millidegrees + y.millidegrees,
        2,
        x.millidegrees as int,
        y.millidegrees as int,
    );
}

/// Merging two forecasts does not depend on which provider comes first.
pub proof fn lemma_merge_days_commutes(a: Seq<Option<Temperature>>, b: Seq<Option<Temperature>>)
    ensures
        merge_days(a, b) == merge_days(b, a),
{
    assert(merge_days(a, b) =~= merge_days(b, a));
}

/// The answer for a forecast does not depend on which provider comes
/// first.
pub proof fn lemma_forecast_result_commutes(
    first: Result<Forecast, ApiError>,
    second: Result<Forecast, ApiError>,
)
    ensures
        forecast_result(first, second) == forecast_result(second, first),
{
    lemma_merge_days_commutes(days_or_unknown(first), days_or_unknown(second));
}

/// What a provider returned is brought to five days, whether it returned
/// fewer or more: its own first five, and unknown days after them.
pub proof fn lemma_five_days(days: Seq<Option<Temperature>>)
    ensures
        five_days(days).len() == 5,
        forall|i: int| 0 <= i < 5 && i < days.len() ==> five_days(days)[i] == days[i],
        forall|i: int| 0 <= i < 5 && i >= days.len() ==> five_days(days)[i] is None,
{
}

/// A forecast that was merged has five days, whatever the two providers
/// settled with.
pub proof fn lemma_merged_forecast_has_five_days(
    first: Result<Forecast, ApiError>,
    second: Result<Forecast, ApiError>,
)
    ensures
        forecast_result(first, second) matches Ok(merged) ==> merged.len() == 5,
{
}

} // verus!
