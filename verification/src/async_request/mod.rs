//! One bounded provider call: the race of the call against its deadline,
//! what came back, and how it is decoded.

pub mod error;

use vstd::prelude::*;
use crate::async_request::error::ApiError;
use crate::json::Json;
use crate::json::json_document;

verus! {

/// The deadline of one provider call, in seconds.
pub const TIMEOUT: u64 = 10;

/// What a provider sent back: the status of the answer and its body.
#[derive(Debug, PartialEq, Eq)]
pub struct AsyncResponse {
    pub status: u16,
    pub body: Vec<u8>,
}

/// What a provider sent back, with the body read as JSON: `None` where
/// the body is not a JSON document.
#[derive(Debug, PartialEq, Eq)]
pub struct AsyncJsonResponse {
    pub status: u16,
    pub body: Option<Json>,
}

impl AsyncJsonResponse {
    /// Reads the body of a response as JSON and keeps the status.
    pub fn decode(response: &AsyncResponse) -> (decoded: AsyncJsonResponse)
        ensures
            decoded.status == response.status,
            decoded.body == json_document(response.body@),
    {
        AsyncJsonResponse { status: response.status, body: Json::parse(response.body.as_slice()) }
    }

    /// Decodes what a call settled with: an answer is decoded, a failure
    /// is kept as it is.
    pub fn decode_settled(settled: &Result<AsyncResponse, ApiError>) -> (decoded: Result<
        AsyncJsonResponse,
        ApiError,
    >)
        ensures
            match *settled {
                Ok(response) => decoded matches Ok(json) && json.status == response.status
                    && json.body == json_document(response.body@),
                Err(e) => decoded == Err::<AsyncJsonResponse, ApiError>(e),
            },
    {
        match settled {
            Ok(response) => Ok(AsyncJsonResponse::decode(response)),
            Err(e) => Err(*e),
        }
    }
}

/// What the race of a call against its deadline reports.
#[derive(Debug, PartialEq, Eq)]
pub enum RaceEvent<T> {
    /// The call settled, with an answer or with a failure of its own.
    Completed(Result<T, ApiError>),
    /// The deadline passed.
    DeadlineElapsed,
}

/// The outcome that one event stands for: the call's own where it
/// completed, `Timeout` where the deadline passed.
pub open spec fn outcome_of<T>(event: RaceEvent<T>) -> Result<T, ApiError> {
    match event {
        RaceEvent::Completed(outcome) => outcome,
        RaceEvent::DeadlineElapsed => Err(ApiError::Timeout),
    }
}

/// A slot after an event: a settled slot stays as it is, an empty one
/// takes the outcome of the event.
pub open spec fn resolve<T>(slot: Option<Result<T, ApiError>>, event: RaceEvent<T>) -> Option<
    Result<T, ApiError>,
> {
    match slot {
        Some(outcome) => Some(outcome),
        None => Some(outcome_of(event)),
    }
}

/// A slot after a run of events, in their order.
pub open spec fn resolve_all<T>(
    slot: Option<Result<T, ApiError>>,
    events: Seq<RaceEvent<T>>,
) -> Option<Result<T, ApiError>>
    decreases events.len(),
{
    if events.len() == 0 {
        slot
    } else {
        resolve_all(resolve(slot, events[0]), events.drop_first())
    }
}

/// The event of a call that failed in transport: it completed, and its
/// failure is `Other`.
pub fn call_failed<T>() -> (event: RaceEvent<T>)
    ensures
        event == RaceEvent::Completed(Err::<T, ApiError>(ApiError::Other)),
{
    RaceEvent::Completed(Err(ApiError::Other))
}

/// The event of a race whose timer broke with `fault`: the call counts as
/// completed, and its failure is the one that the fault is classified as.
pub fn timer_failed<T>(fault: std::io::Error) -> (event: RaceEvent<T>)
    ensures
        event == RaceEvent::Completed(Err::<T, ApiError>(ApiError::Other)),
{
    RaceEvent::Completed(Err(ApiError::from(fault)))
}

/// The event of a call that was answered with `answer`.
pub fn call_answered<T>(answer: T) -> (event: RaceEvent<T>)
    ensures
        event == RaceEvent::Completed(Ok::<T, ApiError>(answer)),
{
    RaceEvent::Completed(Ok(answer))
}

/// The outcome of a race, from the event that came first.
pub fn settle<T>(first: RaceEvent<T>) -> (outcome: Result<T, ApiError>)
    ensures
        outcome == outcome_of(first),
{
    match first {
        RaceEvent::Completed(outcome) => outcome,
        RaceEvent::DeadlineElapsed => Err(ApiError::Timeout),
    }
}

/// The place where the outcome of one bounded call is put: it is settled
/// once, by the first event, and never again.
#[derive(Debug, PartialEq, Eq)]
pub struct ResultSlot<T> {
    pub outcome: Option<Result<T, ApiError>>,
}

impl<T> ResultSlot<T> {
    /// An empty slot.
    pub fn new() -> (slot: ResultSlot<T>)
        ensures
            slot.outcome is None,
    {
        ResultSlot { outcome: None }
    }

    /// Whether an outcome has been put.
    pub fn is_settled(&self) -> (settled: bool)
        ensures
            settled == self.outcome is Some,
    {
        self.outcome.is_some()
    }

    /// Hands an event to the slot. An empty slot takes the outcome of the
    /// event; a settled slot discards the event. Answers whether the event
    /// was taken.
    pub fn offer(&mut self, event: RaceEvent<T>) -> (taken: bool)
        ensures
            final(self).outcome == resolve(old(self).outcome, event),
            taken == old(self).outcome is None,
            old(self).outcome is Some ==> *final(self) == *old(self),
    {
        if self.outcome.is_none() {
            self.outcome = Some(settle(event));
            true
        } else {
            false
        }
    }

    /// The outcome that was put, if any.
    pub fn into_outcome(self) -> (outcome: Option<Result<T, ApiError>>)
        ensures
            outcome == self.outcome,
    {
        self.outcome
    }
}

/// A settled slot keeps its outcome, whatever arrives later.
pub proof fn lemma_settled_is_final<T>(outcome: Result<T, ApiError>, later: Seq<RaceEvent<T>>)
    ensures
        resolve_all(Some(outcome), later) == Some(outcome),
    decreases later.len(),
{
    if later.len() > 0 {
        lemma_settled_is_final(outcome, later.drop_first());
    }
}

/// The first event decides the outcome.
pub proof fn lemma_first_event_decides<T>(events: Seq<RaceEvent<T>>)
    requires
        events.len() > 0,
    ensures
        resolve_all(None, events) == Some(outcome_of(events[0])),
{
    lemma_settled_is_final(outcome_of(events[0]), events.drop_first());
}

/// A call whose deadline passed first is recorded as `Timeout`, and an
/// answer of the call that arrives later does not replace it.
pub proof fn lemma_late_answer_is_discarded<T>(late: Result<T, ApiError>, later: Seq<RaceEvent<T>>)
    ensures
        resolve_all(
            None,
            seq![RaceEvent::DeadlineElapsed, RaceEvent::Completed(late)] + later,
        ) == Some(Err::<T, ApiError>(ApiError::Timeout)),
{
    let events = seq![RaceEvent::DeadlineElapsed, RaceEvent::Completed(late)] + later;
    lemma_first_event_decides(events);
}

} // verus!
