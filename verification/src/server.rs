//! What the server answers: which question a request asks, and the status
//! and text of each answer.

use vstd::prelude::*;
use vstd::string::StringExecFns;
use crate::aggregate::AggregateFailure;
use crate::aggregate::classify;
use crate::aggregate::current_result;
use crate::aggregate::failure_class;
use crate::aggregate::successes;
use crate::aggregate::tally;
use crate::aggregate::total;
use crate::async_request::error::ApiError;
use crate::forecast::Forecast;
use crate::forecast::days_or_unknown;
use crate::forecast::forecast_result;
use crate::temperature::Temperature;
use crate::temperature::decimal_text;
use crate::temperature::one_decimal_text;
use crate::temperature::push_number;
use crate::temperature::push_one_decimal;

verus! {

/// What a request asks for.
#[derive(Debug, PartialEq, Eq, Clone, Copy, Structural)]
pub enum Route {
    /// The page of examples.
    Index,
    /// The current temperature at the location in the query.
    Current,
    /// The forecast for the location in the query.
    Forecast,
    /// A question that needs a location, without one.
    EmptyQuery,
    /// Anything else.
    NotFound,
}

/// The kind of text in an answer.
#[derive(Debug, PartialEq, Eq, Clone, Copy, Structural)]
pub enum ContentType {
    Plaintext,
    Html,
}

/// An answer of the server: a status, and a text with its kind where
/// there is one.
#[derive(Debug, PartialEq, Eq)]
pub struct Reply {
    pub status: u16,
    pub content_type: Option<ContentType>,
    pub body: String,
}

pub const OK: u16 = 200;

pub const NOT_FOUND: u16 = 404;

pub const UNPROCESSABLE_ENTITY: u16 = 422;

pub const INTERNAL_SERVER_ERROR: u16 = 500;

/// The question that a request asks: the method must be GET; `/` is the
/// index, `/current` and `/forecast` need a query that is not empty.
pub open spec fn route_of(is_get: bool, path: Seq<char>, query: Seq<char>) -> Route {
    if !is_get {
        Route::NotFound
    } else if path == "/"@ {
        Route::Index
    } else if path == "/current"@ {
        if query.len() == 0 {
            Route::EmptyQuery
        } else {
            Route::Current
        }
    } else if path == "/forecast"@ {
        if query.len() == 0 {
            Route::EmptyQuery
        } else {
            Route::Forecast
        }
    } else {
        Route::NotFound
    }
}

/// The text of the index page.
pub open spec fn index_text() -> Seq<char> {
    "<html> <body> examples:<br/> <a href='/current?tomsk'>current weather in tomsk</a><br/> <a href='/forecast?perm'>5 days forecast for perm</a> </body> </html> "@
}

/// One day as it is shown: its temperature in degrees with one decimal
/// place, or nothing where it is unknown.
pub open spec fn day_text(day: Option<Temperature>) -> Option<Seq<char>> {
    match day {
        Some(t) => Some(t.text()),
        None => None,
    }
}

/// One day of two forecasts as it is shown: the mean of two known
/// temperatures, rounded once, from their sum, to the nearest tenth of a
/// degree; the known one of a known and an unknown; nothing where both are
/// unknown.
pub open spec fn merged_day_text(a: Option<Temperature>, b: Option<Temperature>) -> Option<
    Seq<char>,
> {
    match (a, b) {
        (Some(x), Some(y)) => Some(one_decimal_text(x.millidegrees + y.millidegrees, 200)),
        (Some(x), None) => Some(x.text()),
        (None, Some(y)) => Some(y.text()),
        (None, None) => None,
    }
}

/// The line of one day; days are counted from 1.
pub open spec fn day_line(index: nat, shown: Option<Seq<char>>) -> Seq<char> {
    "day"@ + decimal_text(index + 1) + match shown {
        Some(text) => " temp = "@ + text + "°C"@,
        None => " temp is unknown°C"@,
    }
}

/// The lines of some days, with a line break between every two.
pub open spec fn lines_text(shown: Seq<Option<Seq<char>>>) -> Seq<char>
    decreases shown.len(),
{
    if shown.len() == 0 {
        Seq::empty()
    } else if shown.len() == 1 {
        day_line(0, shown[0])
    } else {
        lines_text(shown.drop_last()) + "\n"@ + day_line((shown.len() - 1) as nat, shown.last())
    }
}

/// The lines of the days of a forecast.
pub open spec fn temps_text(days: Seq<Option<Temperature>>) -> Seq<char> {
    lines_text(Seq::new(days.len(), |i: int| day_text(days[i])))
}

/// The lines of the five days of two forecasts merged.
pub open spec fn merged_text(a: Seq<Option<Temperature>>, b: Seq<Option<Temperature>>) -> Seq<
    char,
> {
    lines_text(Seq::new(5, |i: int| merged_day_text(a[i], b[i])))
}

/// The text of an answer that reports a failure.
pub open spec fn failure_text(failure: AggregateFailure) -> Seq<char> {
    match failure {
        AggregateFailure::AllNotFound => "Location not found"@,
        AggregateFailure::AllOtherFailure => "Something went wrong"@,
    }
}

/// The status of an answer that reports a failure.
pub open spec fn failure_status(failure: AggregateFailure) -> u16 {
    match failure {
        AggregateFailure::AllNotFound => NOT_FOUND,
        AggregateFailure::AllOtherFailure => INTERNAL_SERVER_ERROR,
    }
}

/// The text of the answer about the current temperature: the mean of the
/// temperatures that came back, rounded once, from their sum and their
/// number, to the nearest tenth of a degree; or the report of the failure.
pub open spec fn current_text(outcomes: Seq<Result<Temperature, ApiError>>) -> Seq<char> {
    let temps = successes(outcomes);
    if temps.len() > 0 {
        "avg: "@ + one_decimal_text(total(temps), 100 * (temps.len() as int)) + "°C\n"@
    } else {
        failure_text(failure_class(outcomes))
    }
}

/// The status of the answer about the current temperature.
pub open spec fn current_status(outcomes: Seq<Result<Temperature, ApiError>>) -> u16 {
    if successes(outcomes).len() > 0 {
        OK
    } else {
        failure_status(failure_class(outcomes))
    }
}

/// The text of the answer about a forecast: the report of the failure
/// where both providers failed, else the lines of their forecasts merged,
/// a failed provider counting as five unknown days.
pub open spec fn forecast_text(
    first: Result<Forecast, ApiError>,
    second: Result<Forecast, ApiError>,
) -> Seq<char> {
    match forecast_result(first, second) {
        Ok(_) => merged_text(days_or_unknown(first), days_or_unknown(second)),
        Err(failure) => failure_text(failure),
    }
}

/// The status of the answer about a forecast.
pub open spec fn forecast_status(
    first: Result<Forecast, ApiError>,
    second: Result<Forecast, ApiError>,
) -> u16 {
    match forecast_result(first, second) {
        Ok(_) => OK,
        Err(failure) => failure_status(failure),
    }
}

/// The text that is shown for a day, if any.
pub open spec fn shown_text(shown: Option<String>) -> Option<Seq<char>> {
    match shown {
        Some(text) => Some(text@),
        None => None,
    }
}

/// Whether two texts are the same.
fn same_text(a: &str, b: &str) -> (same: bool)
    ensures
        same == (a@ == b@),
{
    let left = String::from_str(a);
    let right = String::from_str(b);
    left == right
}

/// Decides which question a request asks.
pub fn route(is_get: bool, path: &str, query: &str) -> (route: Route)
    ensures
        route == route_of(is_get, path@, query@),
{
    if !is_get {
        Route::NotFound
    } else if same_text(path, "/") {
        Route::Index
    } else if same_text(path, "/current") {
        if query.is_empty() {
            Route::EmptyQuery
        } else {
            Route::Current
        }
    } else if same_text(path, "/forecast") {
        if query.is_empty() {
            Route::EmptyQuery
        } else {
            Route::Forecast
        }
    } else {
        Route::NotFound
    }
}

/// The page of examples.
pub fn index_reply() -> (reply: Reply)
    ensures
        reply.status == OK,
        reply.content_type == Some(ContentType::Html),
        reply.body@ == index_text(),
{
    Reply {
        status: OK,
        content_type: Some(ContentType::Html),
        body: String::from_str(
            "<html> <body> examples:<br/> <a href='/current?tomsk'>current weather in tomsk</a><br/> <a href='/forecast?perm'>5 days forecast for perm</a> </body> </html> ",
        ),
    }
}

/// The answer to a question that needs a location and has none.
pub fn empty_query_reply() -> (reply: Reply)
    ensures
        reply.status == UNPROCESSABLE_ENTITY,
        reply.content_type == Some(ContentType::Plaintext),
        reply.body@ == "Provide location as query"@,
{
    Reply {
        status: UNPROCESSABLE_ENTITY,
        content_type: Some(ContentType::Plaintext),
        body: String::from_str("Provide location as query"),
    }
}

/// The answer to a request that asks nothing that the server knows.
pub fn not_found_reply() -> (reply: Reply)
    ensures
        reply.status == NOT_FOUND,
        reply.content_type is None,
        reply.body@ == Seq::<char>::empty(),
{
    Reply { status: NOT_FOUND, content_type: None, body: String::new() }
}

/// The answer that reports a failure of all providers.
pub fn failure_reply(failure: AggregateFailure) -> (reply: Reply)
    ensures
        reply.status == failure_status(failure),
        reply.content_type == Some(ContentType::Plaintext),
        reply.body@ == failure_text(failure),
{
    match failure {
        AggregateFailure::AllNotFound => Reply {
            status: NOT_FOUND,
            content_type: Some(ContentType::Plaintext),
            body: String::from_str("Location not found"),
        },
        AggregateFailure::AllOtherFailure => Reply {
            status: INTERNAL_SERVER_ERROR,
            content_type: Some(ContentType::Plaintext),
            body: String::from_str("Something went wrong"),
        },
    }
}

/// Writes one line for each of `shown`: the number of the day, counted
/// from 1, and the text of its temperature, or that it is unknown.
fn format_lines(shown: &Vec<Option<String>>) -> (text: String)
    ensures
        text@ == lines_text(Seq::new(shown@.len(), |i: int| shown_text(shown@[i]))),
{
    let ghost lines = Seq::new(shown@.len(), |i: int| shown_text(shown@[i]));
    let mut text = String::new();
    let mut i: usize = 0;
    while i < shown.len()
        invariant
            i <= shown@.len(),
            lines == Seq::new(shown@.len(), |i: int| shown_text(shown@[i])),
            text@ == lines_text(lines.take(i as int)),
        decreases shown.len() - i,
    {
        let ghost before = text@;
        let ghost written = lines.take(i + 1);
        proof {
            assert(written.drop_last() =~= lines.take(i as int));
            assert(written.last() == shown_text(shown@[i as int]));
            assert(written[0] == lines[0]);
        }
        if i > 0 {
            text.append("\n");
        }
        text.append("day");
        push_number(&mut text, i as u64 + 1);
        match &shown[i] {
            Some(temperature) => {
                text.append(" temp = ");
                text.append(temperature.as_str());
                text.append("°C");
            },
            None => {
                text.append(" temp is unknown°C");
            },
        }
        proof {
            let line = day_line(i as nat, shown_text(shown@[i as int]));
            if i > 0 {
                assert(text@ =~= before + "\n"@ + line);
            } else {
                assert(before =~= Seq::<char>::empty());
                assert(text@ =~= line);
            }
        }
        i += 1;
    }
    proof {
        assert(lines.take(i as int) =~= lines);
    }
    text
}

/// Writes the days of a forecast, one line each: the number of the day,
/// counted from 1, and its temperature with one decimal place, or that it
/// is unknown.
pub fn format_temps(days: &[Option<Temperature>]) -> (text: String)
    ensures
        text@ == temps_text(days@),
{
    let mut shown: Vec<Option<String>> = Vec::new();
    let mut i: usize = 0;
    while i < days.len()
        invariant
            i <= days@.len(),
            shown@.len() == i,
            forall|j: int| 0 <= j < i ==> shown_text(#[trigger] shown@[j]) == day_text(days@[j]),
        decreases days.len() - i,
    {
        let day = match days[i] {
            Some(t) => Some(t.to_text()),
            None => None,
        };
        shown.push(day);
        i += 1;
    }
    proof {
        assert(Seq::new(shown@.len(), |i: int| shown_text(shown@[i])) =~= Seq::new(
            days@.len(),
            |i: int| day_text(days@[i]),
        ));
    }
    format_lines(&shown)
}

/// Writes one day of two forecasts merged: the mean of two known
/// temperatures, rounded once from their sum; the known one of a known and
/// an unknown; nothing where both are unknown.
fn shown_merged_day(a: Option<Temperature>, b: Option<Temperature>) -> (shown: Option<String>)
    ensures
        shown_text(shown) == merged_day_text(a, b),
{
    match (a, b) {
        (Some(x), Some(y)) => {
            let mut text = String::new();
            push_one_decimal(&mut text, x.millidegrees as i128 + y.millidegrees as i128, 200);
            Some(text)
        },
        (Some(x), None) => Some(x.to_text()),
        (None, Some(y)) => Some(y.to_text()),
        (None, None) => None,
    }
}

/// Writes the five days of two forecasts merged, one line each. The
/// temperature of a day that both know is the mean of the two, rounded
/// once to the nearest tenth of a degree.
pub fn format_merged(first: &Forecast, second: &Forecast) -> (text: String)
    ensures
        text@ == merged_text(first@, second@),
{
    let mut shown: Vec<Option<String>> = Vec::new();
    let mut i: usize = 0;
    while i < 5
        invariant
            i <= 5,
            shown@.len() == i,
            forall|j: int|
                0 <= j < i ==> shown_text(#[trigger] shown@[j]) == merged_day_text(
                    first@[j],
                    second@[j],
                ),
        decreases 5 - i,
    {
        shown.push(shown_merged_day(first.days[i], second.days[i]));
        i += 1;
    }
    proof {
        assert(Seq::new(shown@.len(), |i: int| shown_text(shown@[i])) =~= Seq::new(
            5,
            |i: int| merged_day_text(first@[i], second@[i]),
        ));
    }
    format_lines(&shown)
}

/// Answers a question for the current temperature from the settled
/// outcomes of all providers: the mean of the temperatures that came back
/// with one decimal place, or the report of the failure.
pub fn answer_current(outcomes: &[Result<Temperature, ApiError>]) -> (reply: Reply)
    ensures
        reply.status == current_status(outcomes@),
        reply.content_type == Some(ContentType::Plaintext),
        reply.body@ == current_text(outcomes@),
{
    let counted = tally(outcomes);
    if counted.count > 0 {
        proof {
            assert(counted.count * i64::MIN >= usize::MAX * i64::MIN) by (nonlinear_arith)
                requires
                    0 <= counted.count <= usize::MAX,
            ;
            assert(counted.count * i64::MAX <= usize::MAX * i64::MAX) by (nonlinear_arith)
                requires
                    0 <= counted.count <= usize::MAX,
            ;
        }
        let mut body = String::from_str("avg: ");
        push_one_decimal(&mut body, counted.total, 100 * (counted.count as i128));
        body.append("°C\n");
        Reply { status: OK, content_type: Some(ContentType::Plaintext), body: body }
    } else if counted.all_not_found {
        failure_reply(AggregateFailure::AllNotFound)
    } else {
        failure_reply(AggregateFailure::AllOtherFailure)
    }
}

/// Answers a question for a forecast from the settled outcomes of the two
/// forecast providers: five lines, or the report of the failure where both
/// failed.
pub fn answer_forecast(first: &Result<Forecast, ApiError>, second: &Result<Forecast, ApiError>) -> (reply:
    Reply)
    ensures
        reply.status == forecast_status(*first, *second),
        reply.content_type == Some(ContentType::Plaintext),
        reply.body@ == forecast_text(*first, *second),
{
    let body = match (first, second) {
        (Err(a), Err(b)) => {
            let failures = [*a, *b];
            let class = classify(failures.as_slice());
            proof {
                assert(failures@[0] == *a && failures@[1] == *b);
            }
            return failure_reply(class);
        },
        (Ok(a), Ok(b)) => format_merged(a, b),
        (Ok(a), Err(_)) => {
            let b = Forecast::unknown();
            format_merged(a, &b)
        },
        (Err(_), Ok(b)) => {
            let a = Forecast::unknown();
            format_merged(&a, b)
        },
    };
    Reply { status: OK, content_type: Some(ContentType::Plaintext), body: body }
}

/// The answer about the current temperature follows what the outcomes
/// amount to: the status 200 exactly where there is a mean, and else the
/// status and the text of the class of failure.
pub proof fn lemma_current_answer_follows_result(outcomes: Seq<Result<Temperature, ApiError>>)
    ensures
        match current_result(outcomes) {
            Ok(_) => current_status(outcomes) == OK,
            Err(failure) => current_status(outcomes) == failure_status(failure) && current_text(
                outcomes,
            ) == failure_text(failure),
        },
{
}

/// The lines of a forecast merged with five unknown days are the lines of
/// the forecast itself.
pub proof fn lemma_merged_with_unknown(days: Seq<Option<Temperature>>)
    requires
        days.len() == 5,
    ensures
        merged_text(days, Seq::new(5, |i: int| None::<Temperature>)) == temps_text(days),
        merged_text(Seq::new(5, |i: int| None::<Temperature>), days) == temps_text(days),
{
    let unknown = Seq::new(5, |i: int| None::<Temperature>);
    assert(Seq::new(5, |i: int| merged_day_text(days[i], unknown[i])) =~= Seq::new(
        days.len(),
        |i: int| day_text(days[i]),
    ));
    assert(Seq::new(5, |i: int| merged_day_text(unknown[i], days[i])) =~= Seq::new(
        days.len(),
        |i: int| day_text(days[i]),
    ));
}

/// The text of one day of two forecasts does not depend on which provider
/// comes first.
pub proof fn lemma_merged_day_text_commutes(a: Option<Temperature>, b: Option<Temperature>)
    ensures
        merged_day_text(a, b) == merged_day_text(b, a),
{
}

} // verus!
