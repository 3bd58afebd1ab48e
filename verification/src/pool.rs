//! The bounded pool of downloads: which URL is fetched next, and when to wait.
//!
//! The pool holds counts only. Whoever runs the downloads asks it what to do, starts
//! a fetch where it says so, and tells it of each fetch that has ended.

use vstd::prelude::*;

verus! {

/// The counts of a pool, as numbers without bounds.
pub struct PoolCounts {
    /// How many URLs there are.
    pub total: nat,
    /// How many fetches may be under way at once.
    pub limit: nat,
    /// How many fetches were started.
    pub started: nat,
    /// How many fetches have ended.
    pub ended: nat,
}

/// What can happen to a pool.
#[derive(Clone, Copy, PartialEq, Eq, Structural, Debug)]
pub enum PoolEvent {
    /// The next fetch is to be started.
    Start,
    /// A fetch has ended, well or not.
    End,
}

/// What a pool asks for.
#[derive(Clone, Copy, PartialEq, Eq, Structural, Debug)]
pub enum PoolAction {
    /// Start the fetch of the URL with this index.
    Launch(usize),
    /// As many fetches as allowed are under way, or all were started and some have
    /// not ended: wait for one to end.
    Await,
    /// URLs are left, none is under way and none may be started: a pool with the
    /// limit 0 never gets on.
    Stalled,
    /// Every URL was fetched and every fetch has ended.
    Done,
}

impl PoolCounts {
    /// How many fetches are under way.
    pub open spec fn in_flight(self) -> int {
        self.started - self.ended
    }

    /// The counts fit together: no more ended than started, no more started than
    /// there are URLs, and no more under way than the limit allows.
    pub open spec fn consistent(self) -> bool {
        self.ended <= self.started <= self.total && self.in_flight() <= self.limit
    }

    /// A fetch may be started: a URL is left and the limit is not reached.
    pub open spec fn may_start(self) -> bool {
        self.started < self.total && self.in_flight() < self.limit
    }

    /// The counts after `event`. A start that may not be, and an end with nothing
    /// under way, change nothing.
    pub open spec fn after(self, event: PoolEvent) -> PoolCounts {
        match event {
            PoolEvent::Start => if self.may_start() {
                PoolCounts { started: self.started + 1, ..self }
            } else {
                self
            },
            PoolEvent::End => if self.in_flight() > 0 {
                PoolCounts { ended: self.ended + 1, ..self }
            } else {
                self
            },
        }
    }

    /// The counts after a sequence of events.
    pub open spec fn after_all(self, events: Seq<PoolEvent>) -> PoolCounts
        decreases events.len(),
    {
        if events.len() == 0 {
            self
        } else {
            self.after_all(events.drop_last()).after(events.last())
        }
    }

    /// What the pool asks for with these counts.
    pub open spec fn action(self) -> PoolAction {
        if self.may_start() {
            PoolAction::Launch(self.started as usize)
        } else if self.in_flight() > 0 {
            PoolAction::Await
        } else if self.started < self.total {
            PoolAction::Stalled
        } else {
            PoolAction::Done
        }
    }
}

/// The counts of a new pool.
pub open spec fn fresh(total: nat, limit: nat) -> PoolCounts {
    PoolCounts { total, limit, started: 0, ended: 0 }
}

/// The bound on concurrency. Whatever happens to a pool of `total` URLs with the
/// limit `limit`, in whatever order: never are more than `limit` fetches under way,
/// never more started than there are URLs, never more ended than started.
pub proof fn lemma_never_above_limit(total: nat, limit: nat, events: Seq<PoolEvent>)
    ensures
        fresh(total, limit).after_all(events).consistent(),
        fresh(total, limit).after_all(events).in_flight() <= limit,
        fresh(total, limit).after_all(events).total == total,
        fresh(total, limit).after_all(events).limit == limit,
    decreases events.len(),
{
    if events.len() > 0 {
        lemma_never_above_limit(total, limit, events.drop_last());
    }
}

/// With a limit of at least one, a pool never stalls, and it is done exactly when
/// every URL was started and every fetch has ended.
pub proof fn lemma_pool_gets_on(counts: PoolCounts)
    requires
        counts.consistent(),
        counts.limit >= 1,
    ensures
        counts.action() != PoolAction::Stalled,
        counts.action() == PoolAction::Done <==> counts.ended == counts.total,
{
}

/// The pool of the downloads of one category.
pub struct DownloadPool {
    total: usize,
    limit: usize,
    started: usize,
    ended: usize,
}

impl View for DownloadPool {
    type V = PoolCounts;

    closed spec fn view(&self) -> PoolCounts {
        PoolCounts {
            total: self.total as nat,
            limit: self.limit as nat,
            started: self.started as nat,
            ended: self.ended as nat,
        }
    }
}

impl DownloadPool {
    #[verifier::type_invariant]
    closed spec fn fits(&self) -> bool {
        self@.consistent()
    }

    /// A pool for `total` URLs of which at most `limit` are fetched at once. Nothing
    /// is started yet.
    pub fn new(total: usize, limit: usize) -> (pool: Self)
        ensures
            pool@ == fresh(total as nat, limit as nat),
    {
        DownloadPool { total, limit, started: 0, ended: 0 }
    }

    /// How many fetches are under way. It is never above the limit.
    pub fn in_flight(&self) -> (n: usize)
        ensures
            n == self@.in_flight(),
            n <= self@.limit,
            self@.consistent(),
    {
        proof {
            use_type_invariant(self);
        }
        self.started - self.ended
    }

    /// What is to be done next.
    pub fn next_action(&self) -> (action: PoolAction)
        ensures
            action == self@.action(),
    {
        proof {
            use_type_invariant(self);
        }
        let flying = self.started - self.ended;
        if self.started < self.total && flying < self.limit {
            PoolAction::Launch(self.started)
        } else if flying > 0 {
            PoolAction::Await
        } else if self.started < self.total {
            PoolAction::Stalled
        } else {
            PoolAction::Done
        }
    }

    /// Starts the next fetch, if one may be started, and returns the index of its
    /// URL. Where none may be, the pool stays as it is.
    pub fn launch(&mut self) -> (index: Option<usize>)
        ensures
            final(self)@ == old(self)@.after(PoolEvent::Start),
            index == (if old(self)@.may_start() {
                Some(old(self)@.started as usize)
            } else {
                None
            }),
    {
        proof {
            use_type_invariant(&*self);
        }
        if self.started < self.total && self.started - self.ended < self.limit {
            let index = self.started;
            self.started = self.started + 1;
            Some(index)
        } else {
            None
        }
    }

    /// Takes note that a fetch has ended, and returns whether one was under way.
    /// Where none was, the pool stays as it is.
    pub fn complete(&mut self) -> (was_flying: bool)
        ensures
            final(self)@ == old(self)@.after(PoolEvent::End),
            was_flying == (old(self)@.in_flight() > 0),
    {
        proof {
            use_type_invariant(&*self);
        }
        if self.started - self.ended > 0 {
            self.ended = self.ended + 1;
            true
        } else {
            false
        }
    }
}

} // verus!
