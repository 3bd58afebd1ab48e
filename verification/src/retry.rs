//! The attempts of one fetch: up to a fixed number, a fixed delay between each two,
//! and the first body that is read ends it.
//!
//! The network is not here. What is here is the rule: what counts as a failed
//! attempt, and, given how the last attempt ended, what comes next.

use vstd::prelude::*;

verus! {

/// The delay between two attempts, in seconds. It does not grow.
pub const RETRY_DELAY_SECS: u64 = 2;

/// Where a fetch stands.
#[derive(Clone, Copy, PartialEq, Eq, Structural, Debug)]
pub enum FetchState {
    /// The attempt of this number, counted from 1, is to be made or under way.
    Attempting(usize),
    /// The attempt of this number has failed and another is left; the delay between
    /// the two is to be waited.
    Waiting(usize),
    /// A body was read: the fetch has ended well.
    Fetched,
    /// Every attempt has failed: the fetch has ended in failure.
    Exhausted,
}

/// What happened to a fetch.
#[derive(Clone, Copy, PartialEq, Eq, Structural, Debug)]
pub enum FetchEvent {
    /// The request was answered with a success status and the body of the answer
    /// was read as text.
    Succeeded,
    /// The request did not get through, or was answered with another status, or the
    /// body of the answer could not be read.
    Failed,
    /// The delay is over.
    Waited,
}

/// A status that tells success: 200 up to 299.
pub open spec fn is_success_status(status: u16) -> bool {
    200 <= status && status < 300
}

/// How an attempt ended. It has succeeded only if the request was sent and answered,
/// the status of the answer tells success, and its body was read as text. Everything
/// else is a failed attempt: no answer, an answer with another status whatever its
/// body, an answer whose body could not be read.
pub open spec fn attempt_event(sent: bool, status: u16, body_read: bool) -> FetchEvent {
    if sent && is_success_status(status) && body_read {
        FetchEvent::Succeeded
    } else {
        FetchEvent::Failed
    }
}

/// Where a fetch of at most `retries` attempts starts: at its first attempt, or, with
/// no attempt allowed, at its end.
pub open spec fn first_state(retries: usize) -> FetchState {
    if retries >= 1 {
        FetchState::Attempting(1)
    } else {
        FetchState::Exhausted
    }
}

/// Where a fetch of at most `retries` attempts goes from `state` on `event`. An
/// attempt that succeeds ends the fetch. One that fails is followed by the delay if
/// another attempt is left, and ends the fetch in failure if it was the last: there
/// is no delay behind the last attempt. The delay is followed by the next attempt.
/// An event that does not belong to the state leaves it as it is, and nothing leads
/// out of the two ends.
pub open spec fn next_state(retries: usize, state: FetchState, event: FetchEvent) -> FetchState {
    match (state, event) {
        (FetchState::Attempting(_), FetchEvent::Succeeded) => FetchState::Fetched,
        (FetchState::Attempting(n), FetchEvent::Failed) => if n < retries {
            FetchState::Waiting(n)
        } else {
            FetchState::Exhausted
        },
        (FetchState::Waiting(n), FetchEvent::Waited) => if n < retries {
            FetchState::Attempting((n + 1) as usize)
        } else {
            FetchState::Exhausted
        },
        _ => state,
    }
}

/// Where a fetch stands after the attempts whose outcomes are given, `true` for an
/// attempt that succeeded, the delay behind each failed attempt waited where there
/// is one. Outcomes behind the end of the fetch are of attempts that were never made.
pub open spec fn after_attempts(retries: usize, outcomes: Seq<bool>) -> FetchState
    decreases outcomes.len(),
{
    if outcomes.len() == 0 {
        first_state(retries)
    } else {
        let before = after_attempts(retries, outcomes.drop_last());
        if outcomes.last() {
            next_state(retries, before, FetchEvent::Succeeded)
        } else {
            next_state(
                retries,
                next_state(retries, before, FetchEvent::Failed),
                FetchEvent::Waited,
            )
        }
    }
}

/// How many attempts were made in the course of the given outcomes: one for each
/// outcome that found the fetch at an attempt.
pub open spec fn attempts_made(retries: usize, outcomes: Seq<bool>) -> nat
    decreases outcomes.len(),
{
    if outcomes.len() == 0 {
        0
    } else {
        let shorter = outcomes.drop_last();
        if after_attempts(retries, shorter) is Attempting {
            attempts_made(retries, shorter) + 1
        } else {
            attempts_made(retries, shorter)
        }
    }
}

/// How many delays were waited in the course of the given outcomes: one for each
/// failed attempt that led to `Waiting`.
pub open spec fn waits_made(retries: usize, outcomes: Seq<bool>) -> nat
    decreases outcomes.len(),
{
    if outcomes.len() == 0 {
        0
    } else {
        let shorter = outcomes.drop_last();
        if !outcomes.last() && next_state(
            retries,
            after_attempts(retries, shorter),
            FetchEvent::Failed,
        ) is Waiting {
            waits_made(retries, shorter) + 1
        } else {
            waits_made(retries, shorter)
        }
    }
}

/// One of the first `n` outcomes is a success.
pub open spec fn succeeds_within(outcomes: Seq<bool>, n: int) -> bool {
    exists|i: int| 0 <= i < n && i < outcomes.len() && outcomes[i]
}

/// The number of attempts is capped and the first success ends the fetch. After any
/// outcomes, a fetch of at most `retries` attempts has ended well if one of the first
/// `retries` attempts succeeded; it has ended in failure if there were `retries`
/// attempts and all failed; and otherwise it stands at the next attempt, whose number
/// is not above `retries`.
pub proof fn lemma_attempts_are_capped(retries: usize, outcomes: Seq<bool>)
    ensures
        after_attempts(retries, outcomes) == (if succeeds_within(outcomes, retries as int) {
            FetchState::Fetched
        } else if outcomes.len() >= retries {
            FetchState::Exhausted
        } else {
            FetchState::Attempting((outcomes.len() + 1) as usize)
        }),
    decreases outcomes.len(),
{
    if outcomes.len() > 0 {
        let shorter = outcomes.drop_last();
        let last = outcomes.len() - 1;
        lemma_attempts_are_capped(retries, shorter);
        if succeeds_within(shorter, retries as int) {
            let i = choose|i: int| 0 <= i < retries && i < shorter.len() && shorter[i];
            assert(outcomes[i]);
        } else if succeeds_within(outcomes, retries as int) {
            let i = choose|i: int| 0 <= i < retries && i < outcomes.len() && outcomes[i];
            if i < last {
                assert(shorter[i]);
            }
        } else if last < retries {
            assert(!outcomes[last]);
        }
    }
}

/// The delays lie between the attempts. While a fetch stands at its attempt `k`, it
/// has made `k - 1` attempts and waited as many delays, one behind each. Once it has
/// ended, it has waited one delay less than it has made attempts: none before the
/// first attempt and none behind the last. No more than `retries` attempts are made.
pub proof fn lemma_delays_lie_between_attempts(retries: usize, outcomes: Seq<bool>)
    ensures
        attempts_made(retries, outcomes) <= retries,
        match after_attempts(retries, outcomes) {
            FetchState::Attempting(k) => k >= 1 && attempts_made(retries, outcomes) == k - 1
                && waits_made(retries, outcomes) == k - 1 && k <= retries,
            FetchState::Waiting(_) => false,
            _ => if attempts_made(retries, outcomes) == 0 {
                waits_made(retries, outcomes) == 0
            } else {
                waits_made(retries, outcomes) == attempts_made(retries, outcomes) - 1
            },
        },
    decreases outcomes.len(),
{
    if outcomes.len() > 0 {
        lemma_delays_lie_between_attempts(retries, outcomes.drop_last());
    }
}

/// The outcomes of a row of attempts, each given as whether it was sent, the status
/// of its answer and whether its body was read: `true` where the attempt succeeded.
pub open spec fn outcomes_of(answers: Seq<(bool, u16, bool)>) -> Seq<bool> {
    Seq::new(
        answers.len(),
        |i: int| attempt_event(answers[i].0, answers[i].1, answers[i].2) == FetchEvent::Succeeded,
    )
}

/// Answers without a success status never make a fetch succeed, whatever their
/// bodies: every one of them counts as a failed attempt, and once as many have come
/// as attempts are allowed, the fetch has ended in failure.
pub proof fn lemma_bad_status_never_fetches(retries: usize, answers: Seq<(bool, u16, bool)>)
    requires
        forall|i: int| 0 <= i < answers.len() ==> !is_success_status((#[trigger] answers[i]).1),
    ensures
        after_attempts(retries, outcomes_of(answers)) != FetchState::Fetched,
        answers.len() >= retries ==> after_attempts(retries, outcomes_of(answers))
            == FetchState::Exhausted,
{
    let outcomes = outcomes_of(answers);
    lemma_attempts_are_capped(retries, outcomes);
    if succeeds_within(outcomes, retries as int) {
        let i = choose|i: int| 0 <= i < retries && i < outcomes.len() && outcomes[i];
        assert(!is_success_status(answers[i].1));
    }
}

/// Tells how an attempt ended, from whether the request was sent and answered, the
/// status of the answer, and whether its body was read as text.
pub fn classify_attempt(sent: bool, status: u16, body_read: bool) -> (event: FetchEvent)
    ensures
        event == attempt_event(sent, status, body_read),
{
    if sent && 200 <= status && status < 300 && body_read {
        FetchEvent::Succeeded
    } else {
        FetchEvent::Failed
    }
}

} // verus!
