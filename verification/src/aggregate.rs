//! Merging the settled outcomes of all providers into one answer about the
//! current temperature.

use vstd::prelude::*;
use crate::async_request::error::ApiError;
use crate::temperature::Temperature;
use crate::temperature::round_div;
use crate::temperature::rounded_quotient;
use crate::temperature::lemma_round_div_between;

verus! {

/// Why an aggregation produced no temperature.
#[derive(Debug, PartialEq, Eq, Clone, Copy, Structural)]
pub enum AggregateFailure {
    /// Every provider said that the location does not exist.
    AllNotFound,
    /// No provider succeeded, and at least one failed in another way.
    AllOtherFailure,
}

/// The temperatures of the outcomes that succeeded, in their order.
pub open spec fn successes(outcomes: Seq<Result<Temperature, ApiError>>) -> Seq<Temperature>
    decreases outcomes.len(),
{
    if outcomes.len() == 0 {
        Seq::empty()
    } else {
        match outcomes.last() {
            Ok(t) => successes(outcomes.drop_last()).push(t),
            Err(_) => successes(outcomes.drop_last()),
        }
    }
}

/// The sum of some temperatures, in millidegrees.
pub open spec fn total(temps: Seq<Temperature>) -> int
    decreases temps.len(),
{
    if temps.len() == 0 {
        0
    } else {
        total(temps.drop_last()) + temps.last().millidegrees
    }
}

/// The arithmetic mean of some temperatures, in millidegrees, rounded to
/// the nearest one (ties to even).
pub open spec fn mean(temps: Seq<Temperature>) -> int
    recommends
        temps.len() > 0,
{
    round_div(total(temps), temps.len() as int)
}

/// Whether every outcome is the failure `LocationNotFound`.
pub open spec fn all_not_found(outcomes: Seq<Result<Temperature, ApiError>>) -> bool {
    forall|i: int|
        0 <= i < outcomes.len() ==> #[trigger] outcomes[i] == Err::<Temperature, ApiError>(
            ApiError::LocationNotFound,
        )
}

/// The class of failure of a set of outcomes none of which succeeded.
pub open spec fn failure_class(outcomes: Seq<Result<Temperature, ApiError>>) -> AggregateFailure {
    if all_not_found(outcomes) {
        AggregateFailure::AllNotFound
    } else {
        AggregateFailure::AllOtherFailure
    }
}

/// What the providers' outcomes amount to: the mean of the successes where
/// there is one, the class of failure where there is none.
pub open spec fn current_result(outcomes: Seq<Result<Temperature, ApiError>>) -> Result<
    Temperature,
    AggregateFailure,
> {
    if successes(outcomes).len() > 0 {
        Ok(Temperature { millidegrees: mean(successes(outcomes)) as i64 })
    } else {
        Err(failure_class(outcomes))
    }
}

/// A sum of temperatures is bounded by their number.
pub proof fn lemma_total_bounds(temps: Seq<Temperature>)
    ensures
        temps.len() * i64::MIN <= total(temps) <= temps.len() * i64::MAX,
    decreases temps.len(),
{
    if temps.len() > 0 {
        lemma_total_bounds(temps.drop_last());
        assert(temps.drop_last().len() == temps.len() - 1);
        assert((temps.len() - 1) * i64::MIN + i64::MIN == temps.len() * i64::MIN)
            by (nonlinear_arith);
        assert((temps.len() - 1) * i64::MAX + i64::MAX == temps.len() * i64::MAX)
            by (nonlinear_arith);
    }
}

/// The mean of some temperatures is itself a temperature.
pub proof fn lemma_mean_in_range(temps: Seq<Temperature>)
    requires
        temps.len() > 0,
    ensures
        i64::MIN <= mean(temps) <= i64::MAX,
{
    lemma_total_bounds(temps);
    assert(i64::MIN * temps.len() == temps.len() * i64::MIN) by (nonlinear_arith);
    assert(i64::MAX * temps.len() == temps.len() * i64::MAX) by (nonlinear_arith);
    lemma_round_div_between(total(temps), temps.len() as int, i64::MIN as int, i64::MAX as int);
}

/// The successes of a prefix of the outcomes are at most as many as the
/// prefix is long.
pub proof fn lemma_successes_len(outcomes: Seq<Result<Temperature, ApiError>>)
    ensures
        successes(outcomes).len() <= outcomes.len(),
    decreases outcomes.len(),
{
    if outcomes.len() > 0 {
        lemma_successes_len(outcomes.drop_last());
    }
}

/// Decides the class of failure of outcomes none of which succeeded:
/// `AllNotFound` if every one is `LocationNotFound`, else `AllOtherFailure`.
pub fn classify(failures: &[ApiError]) -> (class: AggregateFailure)
    ensures
        class == if forall|i: int|
            0 <= i < failures@.len() ==> #[trigger] failures@[i] == ApiError::LocationNotFound {
            AggregateFailure::AllNotFound
        } else {
            AggregateFailure::AllOtherFailure
        },
{
    let mut i: usize = 0;
    while i < failures.len()
        invariant
            i <= failures@.len(),
            forall|j: int| 0 <= j < i ==> #[trigger] failures@[j] == ApiError::LocationNotFound,
        decreases failures.len() - i,
    {
        match failures[i] {
            ApiError::LocationNotFound => {},
            _ => {
                return AggregateFailure::AllOtherFailure;
            },
        }
        i += 1;
    }
    AggregateFailure::AllNotFound
}

/// What is counted over the settled outcomes before they are merged.
#[derive(Debug, Clone, Copy, PartialEq, Eq, Structural)]
pub struct Tally {
    /// The sum of the temperatures that came back, in millidegrees.
    pub total: i128,
    /// How many temperatures came back.
    pub count: usize,
    /// Whether every outcome is the failure `LocationNotFound`.
    pub all_not_found: bool,
}

/// Goes once through the settled outcomes of all providers and counts:
/// the sum and the number of the temperatures that came back, and whether
/// every outcome is `LocationNotFound`.
#[verifier::rlimit(50)]
pub fn tally(outcomes: &[Result<Temperature, ApiError>]) -> (counted: Tally)
    ensures
        counted.total == total(successes(outcomes@)),
        counted.count == successes(outcomes@).len(),
        counted.all_not_found == all_not_found(outcomes@),
        counted.count * i64::MIN <= counted.total <= counted.count * i64::MAX,
{
    let mut sum: i128 = 0;
    let mut count: usize = 0;
    let mut not_found: bool = true;
    let mut i: usize = 0;
    while i < outcomes.len()
        invariant
            i <= outcomes@.len(),
            count == successes(outcomes@.take(i as int)).len(),
            count <= i,
            sum == total(successes(outcomes@.take(i as int))),
            not_found == all_not_found(outcomes@.take(i as int)),
        decreases outcomes.len() - i,
    {
        let ghost before = outcomes@.take(i as int);
        let ghost after = outcomes@.take(i + 1);
        proof {
            assert(after.drop_last() =~= before);
            assert(after.last() == outcomes@[i as int]);
            lemma_total_bounds(successes(before));
            lemma_total_bounds(successes(after));
            lemma_successes_len(after);
            assert(count * i64::MIN >= usize::MAX * i64::MIN) by (nonlinear_arith)
                requires
                    0 <= count <= usize::MAX,
            ;
            assert(count * i64::MAX <= usize::MAX * i64::MAX) by (nonlinear_arith)
                requires
                    0 <= count <= usize::MAX,
            ;
        }
        match outcomes[i] {
            Ok(t) => {
                proof {
                    assert(successes(after) == successes(before).push(t));
                    assert(successes(after).drop_last() =~= successes(before));
                    assert(!all_not_found(after));
                }
                sum = sum + t.millidegrees as i128;
                count = count + 1;
                not_found = false;
            },
            Err(e) => {
                proof {
                    assert(successes(after) == successes(before));
                }
                match e {
                    ApiError::LocationNotFound => {
                        proof {
                            if not_found {
                                assert forall|j: int| 0 <= j < after.len() implies #[trigger] after[j]
                                    == Err::<Temperature, ApiError>(ApiError::LocationNotFound) by {
                                    if j < i {
                                        assert(before[j] == after[j]);
                                    }
                                }
                            } else {
                                let k = choose|k: int|
                                    0 <= k < before.len() && #[trigger] before[k] != Err::<
                                        Temperature,
                                        ApiError,
                                    >(ApiError::LocationNotFound);
                                assert(after[k] == before[k]);
                            }
                        }
                    },
                    _ => {
                        proof {
                            assert(!all_not_found(after));
                        }
                        not_found = false;
                    },
                }
            },
        }
        i += 1;
    }
    proof {
        assert(outcomes@.take(i as int) =~= outcomes@);
        lemma_total_bounds(successes(outcomes@));
    }
    Tally { total: sum, count: count, all_not_found: not_found }
}

/// Merges the settled outcomes of all providers: the mean of the
/// temperatures that came back, whatever else failed; without any, the
/// class of the failures.
pub fn get_current(outcomes: &[Result<Temperature, ApiError>]) -> (result: Result<
    Temperature,
    AggregateFailure,
>)
    ensures
        result == current_result(outcomes@),
        result matches Ok(t) ==> t.millidegrees == mean(successes(outcomes@)),
{
    let counted = tally(outcomes);
    if counted.count > 0 {
        proof {
            lemma_mean_in_range(successes(outcomes@));
            assert(counted.count * i64::MIN >= usize::MAX * i64::MIN) by (nonlinear_arith)
                requires
                    0 <= counted.count <= usize::MAX,
            ;
            assert(counted.count * i64::MAX <= usize::MAX * i64::MAX) by (nonlinear_arith)
                requires
                    0 <= counted.count <= usize::MAX,
            ;
        }
        let m = rounded_quotient(counted.total, counted.count as i128);
        Ok(Temperature { millidegrees: m as i64 })
    } else if counted.all_not_found {
        Err(AggregateFailure::AllNotFound)
    } else {
        Err(AggregateFailure::AllOtherFailure)
    }
}

/// Outcomes that all failed have no successes.
pub proof fn lemma_no_success(outcomes: Seq<Result<Temperature, ApiError>>)
    requires
        forall|i: int| 0 <= i < outcomes.len() ==> (#[trigger] outcomes[i]) is Err,
    ensures
        successes(outcomes).len() == 0,
    decreases outcomes.len(),
{
    if outcomes.len() > 0 {
        let rest = outcomes.drop_last();
        assert forall|i: int| 0 <= i < rest.len() implies (#[trigger] rest[i]) is Err by {
            assert(rest[i] == outcomes[i]);
        }
        lemma_no_success(rest);
        assert(outcomes.last() == outcomes[outcomes.len() - 1]);
    }
}

/// Outcomes with a success among them have a success.
pub proof fn lemma_some_success(outcomes: Seq<Result<Temperature, ApiError>>, k: int)
    requires
        0 <= k < outcomes.len(),
        outcomes[k] is Ok,
    ensures
        successes(outcomes).len() > 0,
    decreases outcomes.len(),
{
    if k < outcomes.len() - 1 {
        assert(outcomes.drop_last()[k] == outcomes[k]);
        lemma_some_success(outcomes.drop_last(), k);
    }
}

/// With at least one success, the answer is the mean of exactly the
/// successful temperatures: two sets of outcomes with the same successes
/// get the same answer, however many failures of whatever kind each holds.
pub proof fn lemma_mean_of_successes_only(
    a: Seq<Result<Temperature, ApiError>>,
    b: Seq<Result<Temperature, ApiError>>,
    k: int,
)
    requires
        0 <= k < a.len(),
        a[k] is Ok,
        successes(a) == successes(b),
    ensures
        current_result(a) == Ok::<Temperature, AggregateFailure>(
            Temperature { millidegrees: mean(successes(a)) as i64 },
        ),
        i64::MIN <= mean(successes(a)) <= i64::MAX,
        current_result(b) == current_result(a),
{
    lemma_some_success(a, k);
    lemma_mean_in_range(successes(a));
}

/// One more failure, of any kind, leaves a mean as it is.
pub proof fn lemma_failure_leaves_mean(outcomes: Seq<Result<Temperature, ApiError>>, e: ApiError)
    requires
        successes(outcomes).len() > 0,
    ensures
        current_result(outcomes.push(Err(e))) == current_result(outcomes),
{
    let more = outcomes.push(Err(e));
    assert(more.drop_last() =~= outcomes);
}

/// Where every provider failed with `LocationNotFound`, the answer is
/// `AllNotFound`.
pub proof fn lemma_all_not_found(outcomes: Seq<Result<Temperature, ApiError>>)
    requires
        forall|i: int|
            0 <= i < outcomes.len() ==> #[trigger] outcomes[i] == Err::<Temperature, ApiError>(
                ApiError::LocationNotFound,
            ),
    ensures
        current_result(outcomes) == Err::<Temperature, AggregateFailure>(
            AggregateFailure::AllNotFound,
        ),
{
    lemma_no_success(outcomes);
}

/// Where every provider failed and one of them with `Timeout` or `Other`,
/// the answer is `AllOtherFailure`.
pub proof fn lemma_all_other_failure(outcomes: Seq<Result<Temperature, ApiError>>, k: int)
    requires
        forall|i: int| 0 <= i < outcomes.len() ==> (#[trigger] outcomes[i]) is Err,
        0 <= k < outcomes.len(),
        outcomes[k] == Err::<Temperature, ApiError>(ApiError::Timeout) || outcomes[k] == Err::<
            Temperature,
            ApiError,
        >(ApiError::Other),
    ensures
        current_result(outcomes) == Err::<Temperature, AggregateFailure>(
            AggregateFailure::AllOtherFailure,
        ),
{
    lemma_no_success(outcomes);
}

/// What one outcome adds to the sum of the successes.
pub open spec fn share(outcome: Result<Temperature, ApiError>) -> int {
    match outcome {
        Ok(t) => t.millidegrees as int,
        Err(_) => 0,
    }
}

/// What one outcome adds to the number of the successes.
pub open spec fn weight(outcome: Result<Temperature, ApiError>) -> int {
    match outcome {
        Ok(_) => 1,
        Err(_) => 0,
    }
}

/// Taking one outcome out takes its share out of the sum of the successes
/// and its weight out of their number.
pub proof fn lemma_remove_outcome(outcomes: Seq<Result<Temperature, ApiError>>, k: int)
    requires
        0 <= k < outcomes.len(),
    ensures
        total(successes(outcomes)) == total(successes(outcomes.remove(k))) + share(outcomes[k]),
        successes(outcomes).len() == successes(outcomes.remove(k)).len() + weight(outcomes[k]),
    decreases outcomes.len(),
{
    let rest = outcomes.drop_last();
    if k == outcomes.len() - 1 {
        assert(outcomes.remove(k) =~= rest);
        match outcomes.last() {
            Ok(t) => {
                assert(successes(outcomes).drop_last() =~= successes(rest));
            },
            Err(_) => {},
        }
    } else {
        let shorter = outcomes.remove(k);
        assert(shorter.drop_last() =~= rest.remove(k));
        assert(shorter.last() == outcomes.last());
        assert(rest[k] == outcomes[k]);
        lemma_remove_outcome(rest, k);
        match outcomes.last() {
            Ok(t) => {
                assert(successes(outcomes).drop_last() =~= successes(rest));
                assert(successes(shorter).drop_last() =~= successes(rest.remove(k)));
            },
            Err(_) => {},
        }
    }
}

/// The sum and the number of the successes do not depend on the order of
/// the outcomes.
pub proof fn lemma_successes_of_permutation(
    a: Seq<Result<Temperature, ApiError>>,
    b: Seq<Result<Temperature, ApiError>>,
)
    requires
        a.to_multiset() == b.to_multiset(),
    ensures
        total(successes(a)) == total(successes(b)),
        successes(a).len() == successes(b).len(),
    decreases a.len(),
{
    broadcast use vstd::seq_lib::group_to_multiset_ensures;

    a.to_multiset_ensures();
    b.to_multiset_ensures();
    assert(a.len() == a.to_multiset().len());
    assert(b.len() == b.to_multiset().len());
    if a.len() > 0 {
        let x = a.last();
        assert(a.contains(x));
        assert(b.to_multiset().count(x) > 0);
        assert(b.contains(x));
        let k = choose|k: int| 0 <= k < b.len() && b[k] == x;
        let last = a.len() - 1;
        assert(a.remove(last) =~= a.drop_last());
        assert(a.remove(last).to_multiset() =~= a.to_multiset().remove(a[last]));
        assert(b.remove(k).to_multiset() =~= b.to_multiset().remove(b[k]));
        lemma_successes_of_permutation(a.drop_last(), b.remove(k));
        lemma_remove_outcome(a, last);
        lemma_remove_outcome(b, k);
    }
}

/// The order in which the providers settled does not change the answer.
pub proof fn lemma_order_is_irrelevant(
    a: Seq<Result<Temperature, ApiError>>,
    b: Seq<Result<Temperature, ApiError>>,
)
    requires
        a.to_multiset() == b.to_multiset(),
    ensures
        current_result(a) == current_result(b),
{
    broadcast use vstd::seq_lib::group_to_multiset_ensures;

    a.to_multiset_ensures();
    b.to_multiset_ensures();
    lemma_successes_of_permutation(a, b);
    let not_found = Err::<Temperature, ApiError>(ApiError::LocationNotFound);
    if all_not_found(a) && !all_not_found(b) {
        let k = choose|k: int| 0 <= k < b.len() && #[trigger] b[k] != not_found;
        assert(b.contains(b[k]));
        assert(a.to_multiset().count(b[k]) > 0);
        assert(a.contains(b[k]));
    }
    if all_not_found(b) && !all_not_found(a) {
        let k = choose|k: int| 0 <= k < a.len() && #[trigger] a[k] != not_found;
        assert(a.contains(a[k]));
        assert(b.to_multiset().count(a[k]) > 0);
        assert(b.contains(a[k]));
    }
}

} // verus!
