use weather::aggregate::AggregateFailure;
use weather::async_request::error::ApiError;
use weather::forecast::get_forecast;
use weather::forecast::merged_day;
use weather::forecast::Forecast;
use weather::temperature::Temperature;

fn degrees(celsius: f32) -> Temperature {
    Temperature { millidegrees: (celsius * 1000.0).round() as i64 }
}

fn celsius(t: Temperature) -> f32 {
    t.millidegrees as f32 / 1000.0
}

fn forecast(days: [Option<f32>; 5]) -> Forecast {
    Forecast { days: days.map(|day| day.map(degrees)) }
}

fn shown(f: Forecast) -> Vec<Option<f32>> {
    f.days.iter().map(|day| day.map(celsius)).collect()
}

fn some(m: i64) -> Option<Temperature> {
    Some(Temperature { millidegrees: m })
}

#[test]
fn two_forecasts_are_merged_day_by_day() {
    let a = Ok(forecast([Some(-9.8), Some(-6.8), Some(-4.2), None, None]));
    let b = Ok(forecast([Some(-9.0), Some(-11.0), Some(-9.0), Some(-6.0), Some(-7.0)]));
    let merged = get_forecast(&a, &b).unwrap();
    assert_eq!(shown(merged), vec![Some(-9.4), Some(-8.9), Some(-6.6), Some(-6.0), Some(-7.0)]);
    assert_eq!(get_forecast(&b, &a), Ok(merged));
}

#[test]
fn not_found_and_other_is_all_other_failure() {
    let a = Err(ApiError::LocationNotFound);
    let b = Err(ApiError::Other);
    assert_eq!(get_forecast(&a, &b), Err(AggregateFailure::AllOtherFailure));
    assert_eq!(get_forecast(&b, &a), Err(AggregateFailure::AllOtherFailure));
}

#[test]
fn both_not_found_is_all_not_found() {
    let a = Err(ApiError::LocationNotFound);
    assert_eq!(get_forecast(&a, &a), Err(AggregateFailure::AllNotFound));
}

#[test]
fn every_other_pair_of_failures_is_all_other_failure() {
    let kinds = [ApiError::LocationNotFound, ApiError::Timeout, ApiError::Other];
    for first in kinds {
        for second in kinds {
            let expected = if first == ApiError::LocationNotFound && second == ApiError::LocationNotFound {
                AggregateFailure::AllNotFound
            } else {
                AggregateFailure::AllOtherFailure
            };
            assert_eq!(get_forecast(&Err(first), &Err(second)), Err(expected));
        }
    }
}

#[test]
fn a_failed_provider_counts_as_five_unknown_days() {
    let a = forecast([Some(1.5), None, Some(-2.0), None, Some(0.0)]);
    for failure in [ApiError::LocationNotFound, ApiError::Timeout, ApiError::Other] {
        assert_eq!(get_forecast(&Ok(a), &Err(failure)), Ok(a));
        assert_eq!(get_forecast(&Err(failure), &Ok(a)), Ok(a));
    }
}

#[test]
fn a_forecast_of_unknown_days_is_a_success() {
    let unknown = Forecast::unknown();
    assert_eq!(unknown.days, [None; 5]);
    assert_eq!(get_forecast(&Ok(unknown), &Err(ApiError::Timeout)), Ok(unknown));
    assert_eq!(get_forecast(&Ok(unknown), &Ok(unknown)), Ok(unknown));
}

#[test]
fn merging_a_day_follows_the_four_cases() {
    assert_eq!(merged_day(some(1_000), some(2_000)), some(1_500));
    assert_eq!(merged_day(some(1_000), None), some(1_000));
    assert_eq!(merged_day(None, some(2_000)), some(2_000));
    assert_eq!(merged_day(None, None), None);
}

#[test]
fn merging_a_day_is_commutative_and_rounds_ties_to_even() {
    for (x, y, mean) in [(1, 2, 2), (2, 3, 2), (-1, -2, -2), (-2, -3, -2), (-1, 0, 0), (i64::MAX, i64::MAX, i64::MAX), (i64::MIN, i64::MAX, 0), (i64::MIN, i64::MIN, i64::MIN)] {
        assert_eq!(merged_day(some(x), some(y)), some(mean));
        assert_eq!(merged_day(some(y), some(x)), some(mean));
    }
}

#[test]
fn a_provider_s_days_are_brought_to_five() {
    let day = |m: i64| some(m);
    assert_eq!(Forecast::from_days(vec![]).days, [None; 5]);
    assert_eq!(Forecast::from_days(vec![day(1)]).days, [day(1), None, None, None, None]);
    assert_eq!(
        Forecast::from_days(vec![day(1), None, day(3)]).days,
        [day(1), None, day(3), None, None]
    );
    assert_eq!(
        Forecast::from_days(vec![day(1), day(2), day(3), day(4), day(5)]).days,
        [day(1), day(2), day(3), day(4), day(5)]
    );
    assert_eq!(
        Forecast::from_days(vec![day(1), day(2), day(3), day(4), day(5), day(6), day(7)]).days,
        [day(1), day(2), day(3), day(4), day(5)]
    );
    assert_eq!(Forecast::from_days(vec![None; 9]).days, [None; 5]);
}

#[test]
fn merging_forecasts_through_the_method() {
    let a = forecast([Some(10.0), None, Some(3.0), None, Some(-1.0)]);
    let b = forecast([Some(20.0), Some(5.0), None, None, Some(-2.0)]);
    assert_eq!(shown(a.merge(&b)), vec![Some(15.0), Some(5.0), Some(3.0), None, Some(-1.5)]);
    assert_eq!(a.merge(&b), b.merge(&a));
}
