//! A future together with the task that stands for it, and what to report
//! before and after each poll.

use vstd::prelude::*;
use crate::inspector::{Inspector, InspectorState};
use crate::instrument::{clear_current_task_id, set_current_task_id, TaskContext};
use crate::task::TaskId;
use crate::time::Timestamp;

verus! {

/// A future and the task that it runs as.
pub struct TrackedFuture<F> {
    pub future: F,
    /// The task that the future runs as.
    pub task_id: TaskId,
    /// Whether the future was polled.
    pub started: bool,
    /// When the poll that is under way began.
    pub poll_start: Option<Timestamp>,
}

impl<F> TrackedFuture<F> {
    /// Registers a task named `name` for the future.
    pub fn new(future: F, name: String, inspector: &mut Inspector, now: Timestamp) -> (wrapped:
        TrackedFuture<F>)
        requires
            old(inspector).wf(),
            old(inspector)@.ids.has_next(),
        ensures
            final(inspector).wf(),
            final(inspector)@ == old(inspector)@.registered(name, None, now),
            wrapped.task_id == TaskId(old(inspector)@.ids.next),
            wrapped.future == future,
            !wrapped.started,
            wrapped.poll_start.is_none(),
    {
        let task_id = inspector.register_task(name, now);
        TrackedFuture { future, task_id, started: false, poll_start: None }
    }

    pub fn task_id(&self) -> (id: TaskId)
        ensures
            id == self.task_id,
    {
        self.task_id
    }

    /// To be called before the future is polled: the task is at hand, and
    /// the start of the poll is reported.
    pub fn before_poll(&mut self, inspector: &mut Inspector, context: &mut TaskContext, now: Timestamp)
        requires
            old(inspector).wf(),
        ensures
            final(inspector).wf(),
            final(inspector)@ == old(inspector)@.when_enabled(
                old(inspector)@.poll_started(old(self).task_id, now),
            ),
            final(context).current == Some(old(self).task_id),
            final(self).task_id == old(self).task_id,
            final(self).future == old(self).future,
            final(self).started,
            final(self).poll_start == Some(now),
    {
        set_current_task_id(context, self.task_id);
        self.started = true;
        self.poll_start = Some(now);
        inspector.poll_started(self.task_id, now);
    }

    /// The state after a poll that began at `since`, if one is under way,
    /// and ended at `now`: the poll is counted, and a future that is ready
    /// has completed its task.
    pub open spec fn polled(
        state: InspectorState,
        task: TaskId,
        since: Option<Timestamp>,
        ready: bool,
        now: Timestamp,
    ) -> InspectorState {
        let start = match since {
            Some(t) => t,
            None => now,
        };
        let counted = state.when_enabled(state.poll_ended(task, now.since(start), now));
        if ready {
            counted.when_enabled(counted.task_completed(task, now))
        } else {
            counted
        }
    }

    /// To be called after the future was polled, with whether it is ready:
    /// the end of the poll is reported, and for a future that is ready the
    /// end of the task, after which no task is at hand.
    pub fn after_poll(
        &mut self,
        ready: bool,
        inspector: &mut Inspector,
        context: &mut TaskContext,
        now: Timestamp,
    )
        requires
            old(inspector).wf(),
        ensures
            final(inspector).wf(),
            final(inspector)@ == Self::polled(
                old(inspector)@,
                old(self).task_id,
                old(self).poll_start,
                ready,
                now,
            ),
            final(context).current == if ready {
                None
            } else {
                old(context).current
            },
            final(self).task_id == old(self).task_id,
            final(self).future == old(self).future,
            final(self).started == old(self).started,
            final(self).poll_start.is_none(),
    {
        let start = match self.poll_start {
            Some(t) => t,
            None => now,
        };
        self.poll_start = None;
        inspector.poll_ended(self.task_id, now.duration_since(start), now);
        if ready {
            inspector.task_completed(self.task_id, now);
            clear_current_task_id(context);
        }
    }
}

} // verus!
