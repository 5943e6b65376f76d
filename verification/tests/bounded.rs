use weather::async_request::error::ApiError;
use weather::async_request::call_answered;
use weather::async_request::call_failed;
use weather::async_request::settle;
use weather::async_request::timer_failed;
use weather::async_request::AsyncJsonResponse;
use weather::async_request::AsyncResponse;
use weather::async_request::RaceEvent;
use weather::async_request::ResultSlot;
use weather::async_request::TIMEOUT;

#[test]
fn a_call_that_completes_first_keeps_its_outcome() {
    assert_eq!(settle(RaceEvent::Completed(Ok(7))), Ok(7));
    assert_eq!(
        settle::<u8>(RaceEvent::Completed(Err(ApiError::LocationNotFound))),
        Err(ApiError::LocationNotFound)
    );
    assert_eq!(settle::<u8>(RaceEvent::Completed(Err(ApiError::Other))), Err(ApiError::Other));
}

#[test]
fn a_deadline_that_passes_first_is_a_timeout() {
    assert_eq!(settle::<u8>(RaceEvent::DeadlineElapsed), Err(ApiError::Timeout));
}

#[test]
fn a_late_answer_does_not_replace_a_timeout() {
    let mut slot: ResultSlot<u8> = ResultSlot::new();
    assert!(!slot.is_settled());
    assert!(slot.offer(RaceEvent::DeadlineElapsed));
    assert!(slot.is_settled());
    assert!(!slot.offer(RaceEvent::Completed(Ok(3))));
    assert!(!slot.offer(RaceEvent::Completed(Err(ApiError::Other))));
    assert_eq!(slot.into_outcome(), Some(Err(ApiError::Timeout)));
}

#[test]
fn a_late_deadline_does_not_replace_an_answer() {
    let mut slot: ResultSlot<u8> = ResultSlot::new();
    assert!(slot.offer(RaceEvent::Completed(Ok(3))));
    assert!(!slot.offer(RaceEvent::DeadlineElapsed));
    assert_eq!(slot.into_outcome(), Some(Ok(3)));
}

#[test]
fn an_empty_slot_has_no_outcome() {
    let slot: ResultSlot<u8> = ResultSlot::new();
    assert_eq!(slot.into_outcome(), None);
}

#[test]
fn the_deadline_is_ten_seconds() {
    assert_eq!(TIMEOUT, 10);
}

#[test]
fn error_labels_and_descriptions() {
    assert_eq!(ApiError::LocationNotFound.label(), "LocationNotFound");
    assert_eq!(ApiError::Timeout.label(), "Timeout");
    assert_eq!(ApiError::Other.label(), "Other");
    assert_eq!(ApiError::LocationNotFound.description(), "Location wasnt found");
    assert_eq!(ApiError::Timeout.description(), "Connection timed out");
    assert_eq!(ApiError::Other.description(), "Other error");
}

#[test]
fn an_io_error_is_another_failure() {
    let fault = std::io::Error::new(std::io::ErrorKind::TimedOut, "timed out");
    assert_eq!(ApiError::from(fault), ApiError::Other);
}

#[test]
fn a_call_that_failed_in_transport_is_another_failure() {
    assert_eq!(call_failed::<u8>(), RaceEvent::Completed(Err(ApiError::Other)));
    assert_eq!(settle(call_failed::<u8>()), Err(ApiError::Other));
}

#[test]
fn a_broken_timer_is_another_failure() {
    let fault = std::io::Error::new(std::io::ErrorKind::Other, "timer");
    assert_eq!(settle(timer_failed::<u8>(fault)), Err(ApiError::Other));
}

#[test]
fn an_answered_call_keeps_its_answer() {
    assert_eq!(call_answered(5), RaceEvent::Completed(Ok(5)));
    assert_eq!(settle(call_answered(5)), Ok(5));
}

#[test]
fn a_failure_passes_the_decoding_unchanged() {
    for failure in [ApiError::LocationNotFound, ApiError::Timeout, ApiError::Other] {
        assert_eq!(AsyncJsonResponse::decode_settled(&Err(failure)), Err(failure));
    }
    let answered = Ok(AsyncResponse { status: 201, body: b"[]".to_vec() });
    let decoded = AsyncJsonResponse::decode_settled(&answered).unwrap();
    assert_eq!(decoded.status, 201);
    assert_eq!(decoded.body, Some(weather::json::Json::Array(vec![])));
}
