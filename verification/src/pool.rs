//! Worker-pool supervision: one supervisor per protocol admits capture
//! workers for a target list while keeping the number in flight below a
//! configured bound, and drains the pool on cancellation or exhaustion.
//!
//! The supervisor here is the decision core alone: the caller owns the
//! threads and the completion channel, reports each received completion
//! and the cancellation flag to [`WorkerPool::step`], and performs the
//! action that comes back.

use vstd::prelude::*;

verus! {

/// What a finished capture worker sends back on its status channel.
#[derive(Debug)]
pub enum ThreadStatus {
    Complete,
}

/// What the supervisor loop must do next.
#[derive(Copy, Clone, PartialEq, Eq, Structural, Debug)]
pub enum PoolAction {
    /// Start a worker for the target with this index in the target list.
    Spawn(usize),
    /// Stop admitting targets and join the workers still in flight.
    Drain,
    /// Nothing to admit right now; poll again.
    Continue,
}

/// The supervisor's state: how many workers may run at once, how many
/// are in flight, and how far the target list has been consumed.
#[derive(Copy, Clone, PartialEq, Eq, Structural, Debug)]
pub struct WorkerPool {
    pub max_workers: usize,
    pub active: usize,
    pub next_target: usize,
    pub n_targets: usize,
}

/// One iteration of the supervisor loop, as a pure function of the state
/// and of what was observed: whether a completion message arrived, and
/// whether cancellation was requested.
pub open spec fn pool_step(p: WorkerPool, completion: bool, cancelled: bool) -> (
    WorkerPool,
    PoolAction,
) {
    if cancelled {
        (p, PoolAction::Drain)
    } else {
        let a = if completion && p.active > 0 {
            (p.active - 1) as usize
        } else {
            p.active
        };
        if a < p.max_workers {
            if p.next_target < p.n_targets {
                (
                    (WorkerPool {
                        max_workers: p.max_workers,
                        active: (a + 1) as usize,
                        next_target: (p.next_target + 1) as usize,
                        n_targets: p.n_targets,
                    }),
                    PoolAction::Spawn(p.next_target),
                )
            } else {
                (
                    (WorkerPool {
                        max_workers: p.max_workers,
                        active: a,
                        next_target: p.next_target,
                        n_targets: p.n_targets,
                    }),
                    PoolAction::Drain,
                )
            }
        } else {
            (
                (WorkerPool {
                    max_workers: p.max_workers,
                    active: a,
                    next_target: p.next_target,
                    n_targets: p.n_targets,
                }),
                PoolAction::Continue,
            )
        }
    }
}

/// The pool state reached after a whole sequence of observations, each a
/// `(completion, cancelled)` pair, from the state `p`.
pub open spec fn pool_run(p: WorkerPool, events: Seq<(bool, bool)>) -> WorkerPool
    decreases events.len(),
{
    if events.len() == 0 {
        p
    } else {
        pool_run(pool_step(p, events[0].0, events[0].1).0, events.drop_first())
    }
}

impl WorkerPool {
    /// The supervisor never tracks more in-flight workers than its bound
    /// and never reads past the end of the target list.
    pub open spec fn wf(&self) -> bool {
        self.active <= self.max_workers && self.next_target <= self.n_targets
    }

    pub fn new(max_workers: usize, n_targets: usize) -> (r: Self)
        ensures
            r.wf(),
            r.max_workers == max_workers,
            r.active == 0,
            r.next_target == 0,
            r.n_targets == n_targets,
    {
        WorkerPool { max_workers, active: 0, next_target: 0, n_targets }
    }

    /// One supervisor-loop iteration. `completion` says whether a
    /// `ThreadStatus::Complete` was just received on the status channel;
    /// a completion can only be observed while a worker is in flight.
    /// `cancelled` is the state of the shared cancellation flag, checked
    /// before anything new is admitted.
    pub fn step(&mut self, completion: bool, cancelled: bool) -> (act: PoolAction)
        requires
            old(self).wf(),
            completion ==> old(self).active > 0,
        ensures
            final (self).wf(),
            (*final (self), act) == pool_step(*old(self), completion, cancelled),
            final (self).max_workers == old(self).max_workers,
            final (self).n_targets == old(self).n_targets,
            final (self).active <= final (self).max_workers,
    {
        if cancelled {
            return PoolAction::Drain;
        }
        if completion {
            self.active = self.active - 1;
        }
        if self.active < self.max_workers {
            if self.next_target < self.n_targets {
                let idx = self.next_target;
                self.active = self.active + 1;
                self.next_target = self.next_target + 1;
                PoolAction::Spawn(idx)
            } else {
                PoolAction::Drain
            }
        } else {
            PoolAction::Continue
        }
    }
}

/// The worker pool respects its concurrency bound: from any well-formed
/// state, whatever sequence of completions and cancellation checks the
/// supervisor observes, the number of in-flight workers it admits never
/// exceeds `max_workers` — in the final state and, since `events` may be
/// any prefix of a run, at every observation point along the way.
pub proof fn lemma_pool_respects_bound(p: WorkerPool, events: Seq<(bool, bool)>)
    requires
        p.wf(),
    ensures
        pool_run(p, events).wf(),
        pool_run(p, events).max_workers == p.max_workers,
        pool_run(p, events).active <= p.max_workers,
    decreases events.len(),
{
    if events.len() > 0 {
        let p1 = pool_step(p, events[0].0, events[0].1).0;
        assert(p1.wf());
        lemma_pool_respects_bound(p1, events.drop_first());
    }
}

} // verus!
