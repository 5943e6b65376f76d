use weather::aggregate::AggregateFailure;
use weather::async_request::error::ApiError;
use weather::forecast::Forecast;
use weather::server::answer_current;
use weather::server::answer_forecast;
use weather::server::empty_query_reply;
use weather::server::failure_reply;
use weather::server::format_merged;
use weather::server::format_temps;
use weather::server::index_reply;
use weather::server::not_found_reply;
use weather::server::route;
use weather::server::ContentType;
use weather::server::Route;
use weather::temperature::Temperature;
use weather::ApiKeys;

fn millis(m: i64) -> Temperature {
    Temperature { millidegrees: m }
}

#[test]
fn it_works() {
    let outcomes = [Ok(millis(-14_000)), Ok(millis(-13_000)), Err(ApiError::Other)];
    let reply = answer_current(&outcomes);
    assert_eq!(reply.status, 200);
    assert!(reply.body.contains("avg"));
    assert_eq!(reply.body, "avg: -13.5°C\n");
    assert_eq!(reply.content_type, Some(ContentType::Plaintext));
}

#[test]
fn it_works_with_forecasts() {
    let a = Ok(Forecast {
        days: [Some(millis(-9_800)), Some(millis(-6_800)), Some(millis(-4_200)), None, None],
    });
    let b = Ok(Forecast {
        days: [
            Some(millis(-9_000)),
            Some(millis(-11_000)),
            Some(millis(-9_000)),
            Some(millis(-6_000)),
            Some(millis(-7_000)),
        ],
    });
    let reply = answer_forecast(&a, &b);
    assert_eq!(reply.status, 200);
    assert!(reply.body.contains("day1"));
    assert!(reply.body.contains("day5"));
    assert_eq!(
        reply.body,
        "day1 temp = -9.4°C\nday2 temp = -8.9°C\nday3 temp = -6.6°C\nday4 temp = -6.0°C\nday5 temp = -7.0°C"
    );
}

#[test]
fn it_works_for_wrong_locations() {
    let outcomes = [Err(ApiError::LocationNotFound); 3];
    let reply = answer_current(&outcomes);
    assert_eq!(reply.status, 404);
    assert!(reply.body.contains("Location not found"));
    let forecast = answer_forecast(&Err(ApiError::LocationNotFound), &Err(ApiError::LocationNotFound));
    assert_eq!(forecast.status, 404);
    assert_eq!(forecast.body, "Location not found");
}

#[test]
fn other_failures_are_a_server_error() {
    let reply = answer_current(&[Err(ApiError::Timeout), Err(ApiError::LocationNotFound)]);
    assert_eq!(reply.status, 500);
    assert_eq!(reply.body, "Something went wrong");
    let forecast = answer_forecast(&Err(ApiError::LocationNotFound), &Err(ApiError::Other));
    assert_eq!(forecast.status, 500);
    assert_eq!(forecast.body, "Something went wrong");
    assert_eq!(failure_reply(AggregateFailure::AllOtherFailure).status, 500);
    assert_eq!(failure_reply(AggregateFailure::AllNotFound).body, "Location not found");
}

#[test]
fn requests_are_routed() {
    assert_eq!(route(true, "/", ""), Route::Index);
    assert_eq!(route(true, "/", "anything"), Route::Index);
    assert_eq!(route(true, "/current", "tomsk"), Route::Current);
    assert_eq!(route(true, "/current", ""), Route::EmptyQuery);
    assert_eq!(route(true, "/forecast", "perm"), Route::Forecast);
    assert_eq!(route(true, "/forecast", ""), Route::EmptyQuery);
    assert_eq!(route(true, "/current/", "tomsk"), Route::NotFound);
    assert_eq!(route(true, "/other", "tomsk"), Route::NotFound);
    assert_eq!(route(true, "", ""), Route::NotFound);
    assert_eq!(route(false, "/", ""), Route::NotFound);
    assert_eq!(route(false, "/current", "tomsk"), Route::NotFound);
    assert_eq!(route(false, "/forecast", ""), Route::NotFound);
}

#[test]
fn fixed_replies() {
    let index = index_reply();
    assert_eq!(index.status, 200);
    assert_eq!(index.content_type, Some(ContentType::Html));
    assert_eq!(
        index.body,
        "<html> <body> examples:<br/> <a href='/current?tomsk'>current weather in tomsk</a><br/> <a href='/forecast?perm'>5 days forecast for perm</a> </body> </html> "
    );
    let empty = empty_query_reply();
    assert_eq!(empty.status, 422);
    assert_eq!(empty.content_type, Some(ContentType::Plaintext));
    assert_eq!(empty.body, "Provide location as query");
    let missing = not_found_reply();
    assert_eq!(missing.status, 404);
    assert_eq!(missing.content_type, None);
    assert_eq!(missing.body, "");
}

#[test]
fn days_are_written_one_line_each() {
    assert_eq!(format_temps(&[]), "");
    assert_eq!(format_temps(&[None]), "day1 temp is unknown°C");
    assert_eq!(
        format_temps(&[Some(millis(1_234)), None, Some(millis(-50))]),
        "day1 temp = 1.2°C\nday2 temp is unknown°C\nday3 temp = -0.0°C"
    );
    assert_eq!(format_temps(&[Some(millis(-40))]), "day1 temp = -0.0°C");
    let many = vec![Some(millis(0)); 12];
    let text = format_temps(&many);
    assert!(text.ends_with("day11 temp = 0.0°C\nday12 temp = 0.0°C"));
    assert_eq!(text.lines().count(), 12);
}

#[test]
fn temperatures_are_shown_with_one_decimal_place() {
    for (m, text) in [
        (0, "0.0"),
        (49, "0.0"),
        (50, "0.0"),
        (51, "0.1"),
        (150, "0.2"),
        (250, "0.2"),
        (-1, "-0.0"),
        (-40, "-0.0"),
        (-50, "-0.0"),
        (-51, "-0.1"),
        (-150, "-0.2"),
        (-13_500, "-13.5"),
        (-13_549, "-13.5"),
        (-13_550, "-13.6"),
        (12_345, "12.3"),
        (12_350, "12.4"),
        (12_250, "12.2"),
        (99_950, "100.0"),
        (-41_000, "-41.0"),
        (i64::MAX, "9223372036854775.8"),
        (i64::MIN, "-9223372036854775.8"),
    ] {
        assert_eq!(millis(m).to_text(), text);
    }
}

#[test]
fn the_shown_mean_is_rounded_once() {
    let outcomes = [Ok(millis(149)), Ok(millis(150)), Ok(millis(150))];
    assert_eq!(answer_current(&outcomes).body, "avg: 0.1°C\n");
    let outcomes = [Ok(millis(150)), Err(ApiError::Timeout), Ok(millis(151))];
    assert_eq!(answer_current(&outcomes).body, "avg: 0.2°C\n");
    let outcomes = [Ok(millis(21_040))];
    assert_eq!(answer_current(&outcomes).body, "avg: 21.0°C\n");
    let outcomes = [Ok(millis(i64::MAX)), Ok(millis(i64::MAX))];
    assert_eq!(answer_current(&outcomes).body, "avg: 9223372036854775.8°C\n");
    let outcomes = [Ok(millis(i64::MIN)), Ok(millis(i64::MIN)), Ok(millis(i64::MIN))];
    assert_eq!(answer_current(&outcomes).body, "avg: -9223372036854775.8°C\n");
}

#[test]
fn a_mean_below_zero_keeps_its_sign() {
    assert_eq!(answer_current(&[Ok(millis(-40))]).body, "avg: -0.0°C\n");
    assert_eq!(answer_current(&[Ok(millis(-90)), Ok(millis(30))]).body, "avg: -0.0°C\n");
    assert_eq!(answer_current(&[Ok(millis(-30)), Ok(millis(30))]).body, "avg: 0.0°C\n");
}

#[test]
fn the_shown_days_are_rounded_once() {
    let a = Forecast { days: [Some(millis(149)), Some(millis(150)), Some(millis(-40)), None, None] };
    let b = Forecast { days: [Some(millis(150)), Some(millis(151)), None, Some(millis(-60)), None] };
    let text = "day1 temp = 0.1°C\nday2 temp = 0.2°C\nday3 temp = -0.0°C\nday4 temp = -0.1°C\nday5 temp is unknown°C";
    assert_eq!(format_merged(&a, &b), text);
    assert_eq!(format_merged(&b, &a), text);
    assert_eq!(answer_forecast(&Ok(a), &Ok(b)).body, text);
    assert_eq!(format_merged(&a, &Forecast::unknown()), format_temps(&a.days));
}

#[test]
fn replies_to_forecasts() {
    let unknown = answer_forecast(&Ok(Forecast::unknown()), &Err(ApiError::Timeout));
    assert_eq!(unknown.status, 200);
    assert_eq!(unknown.content_type, Some(ContentType::Plaintext));
    assert_eq!(
        unknown.body,
        "day1 temp is unknown°C\nday2 temp is unknown°C\nday3 temp is unknown°C\nday4 temp is unknown°C\nday5 temp is unknown°C"
    );
    let one = Forecast { days: [Some(millis(1_000)), None, None, None, Some(millis(-2_500))] };
    let reply = answer_forecast(&Err(ApiError::LocationNotFound), &Ok(one));
    assert_eq!(reply.status, 200);
    assert_eq!(
        reply.body,
        "day1 temp = 1.0°C\nday2 temp is unknown°C\nday3 temp is unknown°C\nday4 temp is unknown°C\nday5 temp = -2.5°C"
    );
}

#[test]
fn keys_are_kept() {
    let keys = ApiKeys::new("a".to_string(), "b".to_string(), "c".to_string());
    assert_eq!(keys.owm_key, "a");
    assert_eq!(keys.apixu_key, "b");
    assert_eq!(keys.weatherbit_key, "c");
}
