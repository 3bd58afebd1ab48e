//! One refresh, category by category, and the schedule of refreshes.
//!
//! A refresh goes through the categories one after the other and stops at the first
//! that cannot be written. The schedule runs one refresh at a time, for ever.

use vstd::prelude::*;

verus! {

/// Where a refresh stands.
#[derive(Clone, Copy, PartialEq, Eq, Structural, Debug)]
pub enum RefreshState {
    /// The category with this index is to be processed or under way.
    Processing(usize),
    /// Every category was written.
    Finished,
    /// The category with this index could not be written. Those behind it were not
    /// touched.
    Failed(usize),
}

/// Where a refresh of `total` categories starts.
pub open spec fn first_refresh_state(total: usize) -> RefreshState {
    if total > 0 {
        RefreshState::Processing(0)
    } else {
        RefreshState::Finished
    }
}

/// Where a refresh of `total` categories goes from `state` when the category under
/// way has ended, `written` telling whether its output file was written. A category
/// that was written is followed by the next, the last by the end; one that was not
/// ends the refresh in failure. Nothing leads out of the two ends.
pub open spec fn next_refresh_state(total: usize, state: RefreshState, written: bool) ->
    RefreshState {
    match state {
        RefreshState::Processing(i) => if !written {
            RefreshState::Failed(i)
        } else if i + 1 < total {
            RefreshState::Processing((i + 1) as usize)
        } else {
            RefreshState::Finished
        },
        _ => state,
    }
}

/// Where a refresh stands after the categories whose outcomes are given, `true` for
/// one that was written. Outcomes behind the end of the refresh are of categories
/// that were never processed.
pub open spec fn after_categories(total: usize, outcomes: Seq<bool>) -> RefreshState
    decreases outcomes.len(),
{
    if outcomes.len() == 0 {
        first_refresh_state(total)
    } else {
        next_refresh_state(
            total,
            after_categories(total, outcomes.drop_last()),
            outcomes.last(),
        )
    }
}

/// The index of the first outcome at or behind `from` that is a failure, or the
/// number of outcomes where none is.
pub open spec fn first_failure_from(outcomes: Seq<bool>, from: int) -> int
    decreases outcomes.len() - from,
{
    if 0 <= from < outcomes.len() && outcomes[from] {
        first_failure_from(outcomes, from + 1)
    } else {
        from
    }
}

/// The index of the first outcome that is a failure, or the number of outcomes
/// where none is.
pub open spec fn first_failure(outcomes: Seq<bool>) -> int {
    first_failure_from(outcomes, 0)
}

/// What the first failure is: every outcome before it is a success, and it is a
/// failure itself where it lies among the outcomes.
pub proof fn lemma_first_failure(outcomes: Seq<bool>, from: int)
    requires
        0 <= from <= outcomes.len(),
    ensures
        from <= first_failure_from(outcomes, from) <= outcomes.len(),
        forall|i: int| from <= i < first_failure_from(outcomes, from) ==> outcomes[i],
        first_failure_from(outcomes, from) < outcomes.len() ==> !outcomes[first_failure_from(
            outcomes,
            from,
        )],
    decreases outcomes.len() - from,
{
    if from < outcomes.len() && outcomes[from] {
        lemma_first_failure(outcomes, from + 1);
    }
}

/// The first failure is known by what lies before it and at it.
pub proof fn lemma_first_failure_is(outcomes: Seq<bool>, from: int, at: int)
    requires
        0 <= from <= at <= outcomes.len(),
        forall|i: int| from <= i < at ==> outcomes[i],
        at < outcomes.len() ==> !outcomes[at],
    ensures
        first_failure_from(outcomes, from) == at,
    decreases at - from,
{
    if from < at {
        lemma_first_failure_is(outcomes, from + 1, at);
    }
}

/// The first category that cannot be written ends the refresh. After any outcomes, a
/// refresh of `total` categories has failed at the first of its categories that was
/// not written, and the categories behind that one were not processed; it has
/// finished if `total` categories were processed and all were written; and otherwise
/// it stands at the next category.
pub proof fn lemma_first_failure_ends_refresh(total: usize, outcomes: Seq<bool>)
    ensures
        after_categories(total, outcomes) == (if first_failure(outcomes) < outcomes.len()
            && first_failure(outcomes) < total {
            RefreshState::Failed(first_failure(outcomes) as usize)
        } else if outcomes.len() >= total {
            RefreshState::Finished
        } else {
            RefreshState::Processing(outcomes.len() as usize)
        }),
    decreases outcomes.len(),
{
    if outcomes.len() > 0 {
        let shorter = outcomes.drop_last();
        let last = outcomes.len() - 1;
        lemma_first_failure_ends_refresh(total, shorter);
        lemma_first_failure(shorter, 0);
        let f = first_failure(shorter);
        if f < last {
            assert forall|i: int| 0 <= i < f implies outcomes[i] by {
                assert(shorter[i] == outcomes[i]);
            }
            assert(shorter[f] == outcomes[f]);
            lemma_first_failure_is(outcomes, 0, f);
        } else {
            assert forall|i: int| 0 <= i < last implies outcomes[i] by {
                assert(shorter[i] == outcomes[i]);
            }
            if outcomes[last] {
                lemma_first_failure_is(outcomes, 0, last + 1);
            } else {
                lemma_first_failure_is(outcomes, 0, last);
            }
        }
    }
}

/// Whether a refresh is under way.
#[derive(Clone, Copy, PartialEq, Eq, Structural, Debug)]
pub enum SchedulerState {
    /// No refresh is under way.
    Idle,
    /// A refresh is under way.
    Refreshing,
}

/// What the schedule is told.
#[derive(Clone, Copy, PartialEq, Eq, Structural, Debug)]
pub enum SchedulerEvent {
    /// It is time for a refresh: at the start, and each time the interval is over.
    Tick,
    /// The refresh under way has ended; `failed` tells whether in failure.
    Ended { failed: bool },
}

/// What the schedule asks for.
#[derive(Clone, Copy, PartialEq, Eq, Structural, Debug)]
pub enum SchedulerAction {
    /// Run a refresh now.
    Refresh,
    /// Sleep for so many seconds, then tick.
    Sleep(u64),
    /// Nothing: the event came at the wrong time.
    Nothing,
}

/// The state that follows `state` on `event`.
pub open spec fn next_scheduler_state(state: SchedulerState, event: SchedulerEvent) ->
    SchedulerState {
    match (state, event) {
        (SchedulerState::Idle, SchedulerEvent::Tick) => SchedulerState::Refreshing,
        (SchedulerState::Refreshing, SchedulerEvent::Ended { .. }) => SchedulerState::Idle,
        _ => state,
    }
}

/// What is asked for in `state` on `event`, the interval being `interval_secs`. A
/// tick starts a refresh only where none is under way. The end of a refresh is
/// followed by the whole interval, whether it failed or not: the interval runs from
/// the end of one refresh to the start of the next.
pub open spec fn scheduler_action(
    state: SchedulerState,
    event: SchedulerEvent,
    interval_secs: u64,
) -> SchedulerAction {
    match (state, event) {
        (SchedulerState::Idle, SchedulerEvent::Tick) => SchedulerAction::Refresh,
        (SchedulerState::Refreshing, SchedulerEvent::Ended { .. }) => SchedulerAction::Sleep(
            interval_secs,
        ),
        _ => SchedulerAction::Nothing,
    }
}

/// The state after a sequence of events, from `Idle`.
pub open spec fn scheduler_after(events: Seq<SchedulerEvent>) -> SchedulerState
    decreases events.len(),
{
    if events.len() == 0 {
        SchedulerState::Idle
    } else {
        next_scheduler_state(scheduler_after(events.drop_last()), events.last())
    }
}

/// How many refreshes were started during a sequence of events, from `Idle`.
pub open spec fn refreshes_started(events: Seq<SchedulerEvent>) -> nat
    decreases events.len(),
{
    if events.len() == 0 {
        0
    } else {
        let before = events.drop_last();
        if scheduler_after(before) == SchedulerState::Idle && events.last()
            == SchedulerEvent::Tick {
            refreshes_started(before) + 1
        } else {
            refreshes_started(before)
        }
    }
}

/// How many refreshes have ended during a sequence of events, from `Idle`.
pub open spec fn refreshes_ended(events: Seq<SchedulerEvent>) -> nat
    decreases events.len(),
{
    if events.len() == 0 {
        0
    } else {
        let before = events.drop_last();
        if scheduler_after(before) == SchedulerState::Refreshing && events.last()
            != SchedulerEvent::Tick {
            refreshes_ended(before) + 1
        } else {
            refreshes_ended(before)
        }
    }
}

/// Refreshes never overlap. Whatever the events, at most one refresh is under way:
/// the refreshes started are those that have ended, and one more exactly while the
/// schedule is `Refreshing`.
pub proof fn lemma_one_refresh_at_a_time(events: Seq<SchedulerEvent>)
    ensures
        refreshes_started(events) == refreshes_ended(events) + (if scheduler_after(events)
            == SchedulerState::Refreshing {
            1nat
        } else {
            0nat
        }),
    decreases events.len(),
{
    if events.len() > 0 {
        lemma_one_refresh_at_a_time(events.drop_last());
    }
}

/// The schedule never ends, and a failed refresh does not stop it: in each state one
/// event leads on, and the end of a refresh leads to the same state and the same
/// sleep whether the refresh failed or not.
pub proof fn lemma_schedule_goes_on(state: SchedulerState, interval_secs: u64, failed: bool)
    ensures
        state == SchedulerState::Idle ==> scheduler_action(
            state,
            SchedulerEvent::Tick,
            interval_secs,
        ) == SchedulerAction::Refresh,
        state == SchedulerState::Refreshing ==> scheduler_action(
            state,
            SchedulerEvent::Ended { failed },
            interval_secs,
        ) == SchedulerAction::Sleep(interval_secs) && next_scheduler_state(
            state,
            SchedulerEvent::Ended { failed },
        ) == SchedulerState::Idle,
{
}

/// The schedule of refreshes.
pub struct Scheduler {
    state: SchedulerState,
    interval_secs: u64,
}

impl Scheduler {
    /// Where the schedule stands.
    pub closed spec fn state(&self) -> SchedulerState {
        self.state
    }

    /// The seconds from the end of one refresh to the start of the next.
    pub closed spec fn interval(&self) -> u64 {
        self.interval_secs
    }

    /// A schedule with the given interval, with no refresh under way.
    pub fn new(interval_secs: u64) -> (s: Self)
        ensures
            s.state() == SchedulerState::Idle,
            s.interval() == interval_secs,
    {
        Scheduler { state: SchedulerState::Idle, interval_secs }
    }

    /// Tells whether a refresh is under way.
    pub fn is_refreshing(&self) -> (r: bool)
        ensures
            r == (self.state() == SchedulerState::Refreshing),
    {
        match self.state {
            SchedulerState::Refreshing => true,
            SchedulerState::Idle => false,
        }
    }

    /// Takes an event and says what is to be done.
    pub fn step(&mut self, event: SchedulerEvent) -> (action: SchedulerAction)
        ensures
            final(self).state() == next_scheduler_state(old(self).state(), event),
            final(self).interval() == old(self).interval(),
            action == scheduler_action(old(self).state(), event, old(self).interval()),
    {
        match (self.state, event) {
            (SchedulerState::Idle, SchedulerEvent::Tick) => {
                self.state = SchedulerState::Refreshing;
                SchedulerAction::Refresh
            },
            (SchedulerState::Refreshing, SchedulerEvent::Ended { .. }) => {
                self.state = SchedulerState::Idle;
                SchedulerAction::Sleep(self.interval_secs)
            },
            _ => SchedulerAction::Nothing,
        }
    }
}

} // verus!
