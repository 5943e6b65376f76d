use weather::aggregate::classify;
use weather::aggregate::get_current;
use weather::aggregate::AggregateFailure;
use weather::async_request::error::ApiError;
use weather::temperature::rounded_quotient;
use weather::temperature::Temperature;

fn degrees(celsius: f32) -> Temperature {
    Temperature { millidegrees: (celsius * 1000.0).round() as i64 }
}

fn celsius(t: Temperature) -> f32 {
    t.millidegrees as f32 / 1000.0
}

fn millis(m: i64) -> Result<Temperature, ApiError> {
    Ok(Temperature { millidegrees: m })
}

#[test]
fn mean_of_two_successes_and_a_failure() {
    let outcomes = [Ok(degrees(-14.0)), Ok(degrees(-13.0)), Err(ApiError::Other)];
    let r = get_current(&outcomes);
    assert_eq!(r.map(celsius), Ok(-13.5));
}

#[test]
fn three_not_found_is_all_not_found() {
    let outcomes = [
        Err(ApiError::LocationNotFound),
        Err(ApiError::LocationNotFound),
        Err(ApiError::LocationNotFound),
    ];
    assert_eq!(get_current(&outcomes), Err(AggregateFailure::AllNotFound));
}

#[test]
fn a_timeout_or_another_failure_is_all_other_failure() {
    for other in [ApiError::Timeout, ApiError::Other] {
        for position in 0..3 {
            let mut outcomes = vec![Err(ApiError::LocationNotFound); 3];
            outcomes[position] = Err(other);
            assert_eq!(get_current(&outcomes), Err(AggregateFailure::AllOtherFailure));
        }
    }
    assert_eq!(
        get_current(&[Err(ApiError::Timeout), Err(ApiError::Other)]),
        Err(AggregateFailure::AllOtherFailure)
    );
}

#[test]
fn no_provider_at_all_is_all_not_found() {
    assert_eq!(get_current(&[]), Err(AggregateFailure::AllNotFound));
}

#[test]
fn one_success_among_failures_is_the_answer() {
    let outcomes = [
        Err(ApiError::Timeout),
        Err(ApiError::LocationNotFound),
        millis(21_300),
        Err(ApiError::Other),
    ];
    assert_eq!(get_current(&outcomes), millis(21_300).map_err(|_| AggregateFailure::AllNotFound));
}

#[test]
fn failures_do_not_change_the_mean() {
    let plain = [millis(1_000), millis(2_500), millis(-700)];
    let mut mixed = vec![Err(ApiError::Timeout), millis(1_000), Err(ApiError::LocationNotFound)];
    mixed.extend([millis(2_500), Err(ApiError::Other), millis(-700), Err(ApiError::Other)]);
    assert_eq!(get_current(&plain), get_current(&mixed));
    assert_eq!(get_current(&plain), Ok(Temperature { millidegrees: 933 }));
}

#[test]
fn the_order_of_the_outcomes_does_not_matter() {
    let a = [millis(5), Err(ApiError::Other), millis(-9_000), millis(123)];
    let b = [millis(123), millis(-9_000), millis(5), Err(ApiError::Other)];
    assert_eq!(get_current(&a), get_current(&b));
    assert_eq!(get_current(&a), Ok(Temperature { millidegrees: -2_957 }));
}

#[test]
fn the_mean_is_rounded_to_the_nearest_millidegree_ties_to_even() {
    assert_eq!(get_current(&[millis(1), millis(2)]), Ok(Temperature { millidegrees: 2 }));
    assert_eq!(get_current(&[millis(0), millis(1)]), Ok(Temperature { millidegrees: 0 }));
    assert_eq!(get_current(&[millis(-1), millis(0)]), Ok(Temperature { millidegrees: 0 }));
    assert_eq!(get_current(&[millis(-1), millis(-2)]), Ok(Temperature { millidegrees: -2 }));
    assert_eq!(get_current(&[millis(1), millis(1), millis(2)]), Ok(Temperature { millidegrees: 1 }));
    assert_eq!(get_current(&[millis(1), millis(2), millis(2)]), Ok(Temperature { millidegrees: 2 }));
}

#[test]
fn the_mean_of_extreme_temperatures_does_not_overflow() {
    assert_eq!(
        get_current(&[millis(i64::MAX), millis(i64::MAX), millis(i64::MAX)]),
        millis(i64::MAX).map_err(|_| AggregateFailure::AllNotFound)
    );
    assert_eq!(
        get_current(&[millis(i64::MIN), millis(i64::MIN)]),
        millis(i64::MIN).map_err(|_| AggregateFailure::AllNotFound)
    );
    assert_eq!(get_current(&[millis(i64::MIN), millis(i64::MAX)]), Ok(Temperature { millidegrees: 0 }));
}

#[test]
fn classify_tells_not_found_from_the_rest() {
    assert_eq!(classify(&[]), AggregateFailure::AllNotFound);
    assert_eq!(
        classify(&[ApiError::LocationNotFound, ApiError::LocationNotFound]),
        AggregateFailure::AllNotFound
    );
    assert_eq!(
        classify(&[ApiError::LocationNotFound, ApiError::Other]),
        AggregateFailure::AllOtherFailure
    );
    assert_eq!(
        classify(&[ApiError::Timeout, ApiError::LocationNotFound]),
        AggregateFailure::AllOtherFailure
    );
}

#[test]
fn rounded_quotient_goes_to_the_nearest_and_to_even_on_a_tie() {
    assert_eq!(rounded_quotient(7, 2), 4);
    assert_eq!(rounded_quotient(5, 2), 2);
    assert_eq!(rounded_quotient(-5, 2), -2);
    assert_eq!(rounded_quotient(-7, 2), -4);
    assert_eq!(rounded_quotient(10, 3), 3);
    assert_eq!(rounded_quotient(11, 3), 4);
    assert_eq!(rounded_quotient(-10, 3), -3);
    assert_eq!(rounded_quotient(-11, 3), -4);
    assert_eq!(rounded_quotient(0, 9), 0);
    assert_eq!(rounded_quotient(12, 4), 3);
    assert_eq!(rounded_quotient(1, 1_000_000), 0);
}
