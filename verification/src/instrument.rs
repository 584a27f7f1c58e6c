//! Helpers for code that reports to an inspector: the task at hand, and
//! guards that record the two ends of a poll, a wait or a task.
//!
//! A guard is made at the start of what it measures, which it reports, and
//! handed back at the end with `finish`, which reports the end.

use vstd::prelude::*;
use crate::inspector::{Inspector, InspectorState};
use crate::task::TaskId;
use crate::time::{Duration, Timestamp};
use crate::timeline::EventKind;

verus! {

/// The task that the running code belongs to.
#[derive(Debug, Clone, Copy, PartialEq, Eq, Structural)]
pub struct TaskContext {
    pub current: Option<TaskId>,
}

impl TaskContext {
    /// A context with no task at hand.
    pub fn new() -> (context: TaskContext)
        ensures
            context.current.is_none(),
    {
        TaskContext { current: None }
    }
}

/// The task at hand.
pub fn current_task_id(context: &TaskContext) -> (task: Option<TaskId>)
    ensures
        task == context.current,
{
    context.current
}

/// Makes `task_id` the task at hand.
pub fn set_current_task_id(context: &mut TaskContext, task_id: TaskId)
    ensures
        final(context).current == Some(task_id),
{
    context.current = Some(task_id);
}

/// Leaves no task at hand.
pub fn clear_current_task_id(context: &mut TaskContext)
    ensures
        final(context).current.is_none(),
{
    context.current = None;
}

/// A task and the time at which something began for it.
#[derive(Debug, Clone, Copy, PartialEq, Eq, Structural)]
pub struct InspectContext {
    pub task_id: TaskId,
    pub start_time: Timestamp,
}

impl InspectContext {
    pub fn new(task_id: TaskId, now: Timestamp) -> (context: InspectContext)
        ensures
            context == (InspectContext { task_id, start_time: now }),
    {
        InspectContext { task_id, start_time: now }
    }

    /// The time from the start to `now`.
    pub fn elapsed(&self, now: Timestamp) -> (d: Duration)
        ensures
            d == now.since(self.start_time),
    {
        now.duration_since(self.start_time)
    }
}

/// A poll that has begun.
#[derive(Debug)]
pub struct PollGuard {
    task_id: TaskId,
    start: Timestamp,
}

impl PollGuard {
    /// The task that is polled.
    pub closed spec fn task(&self) -> TaskId {
        self.task_id
    }

    /// When the poll began.
    pub closed spec fn started(&self) -> Timestamp {
        self.start
    }

    /// Reports the start of a poll of `task_id`.
    pub fn new(inspector: &mut Inspector, task_id: TaskId, now: Timestamp) -> (guard: PollGuard)
        requires
            old(inspector).wf(),
        ensures
            final(inspector).wf(),
            final(inspector)@ == old(inspector)@.when_enabled(
                old(inspector)@.poll_started(task_id, now),
            ),
            guard.task() == task_id,
            guard.started() == now,
    {
        inspector.poll_started(task_id, now);
        PollGuard { task_id, start: now }
    }

    /// Reports the end of the poll, with the time since its start.
    pub fn finish(self, inspector: &mut Inspector, now: Timestamp)
        requires
            old(inspector).wf(),
        ensures
            final(inspector).wf(),
            final(inspector)@ == old(inspector)@.when_enabled(
                old(inspector)@.poll_ended(self.task(), now.since(self.started()), now),
            ),
    {
        inspector.poll_ended(self.task_id, now.duration_since(self.start), now);
    }
}

/// A wait that has begun.
#[derive(Debug)]
pub struct AwaitGuard {
    task_id: TaskId,
    await_point: String,
    start: Timestamp,
}

impl AwaitGuard {
    /// The task that waits.
    pub closed spec fn task(&self) -> TaskId {
        self.task_id
    }

    /// Where the task waits.
    pub closed spec fn label(&self) -> String {
        self.await_point
    }

    /// When the wait began.
    pub closed spec fn started(&self) -> Timestamp {
        self.start
    }

    /// Reports the start of a wait of `task_id` at `await_point`.
    pub fn new(inspector: &mut Inspector, task_id: TaskId, await_point: String, now: Timestamp) -> (guard:
        AwaitGuard)
        requires
            old(inspector).wf(),
        ensures
            final(inspector).wf(),
            final(inspector)@ == old(inspector)@.when_enabled(
                old(inspector)@.await_started(task_id, await_point, None, now),
            ),
            guard.task() == task_id,
            guard.label() == await_point,
            guard.started() == now,
    {
        inspector.await_started(task_id, await_point.clone(), None, now);
        AwaitGuard { task_id, await_point, start: now }
    }

    /// Reports the end of the wait, with the time since its start.
    pub fn finish(self, inspector: &mut Inspector, now: Timestamp)
        requires
            old(inspector).wf(),
        ensures
            final(inspector).wf(),
            final(inspector)@ == old(inspector)@.when_enabled(
                old(inspector)@.await_ended(
                    self.task(),
                    self.label(),
                    now.since(self.started()),
                    now,
                ),
            ),
    {
        let duration = now.duration_since(self.start);
        inspector.await_ended(self.task_id, self.await_point, duration, now);
    }
}

/// A task that has begun.
#[derive(Debug)]
pub struct TaskGuard {
    task_id: TaskId,
}

impl TaskGuard {
    /// The task.
    pub closed spec fn task(&self) -> TaskId {
        self.task_id
    }

    /// Registers a task named `name` and makes it the task at hand.
    pub fn new(inspector: &mut Inspector, context: &mut TaskContext, name: String, now: Timestamp) -> (guard:
        TaskGuard)
        requires
            old(inspector).wf(),
            old(inspector)@.ids.has_next(),
        ensures
            final(inspector).wf(),
            final(inspector)@ == old(inspector)@.registered(name, None, now),
            guard.task() == TaskId(old(inspector)@.ids.next),
            final(context).current == Some(guard.task()),
    {
        let task_id = inspector.register_task(name, now);
        set_current_task_id(context, task_id);
        TaskGuard { task_id }
    }

    pub fn task_id(&self) -> (id: TaskId)
        ensures
            id == self.task(),
    {
        self.task_id
    }

    /// Reports that the task finished, and leaves no task at hand.
    pub fn finish(self, inspector: &mut Inspector, context: &mut TaskContext, now: Timestamp)
        requires
            old(inspector).wf(),
        ensures
            final(inspector).wf(),
            final(inspector)@ == old(inspector)@.when_enabled(
                old(inspector)@.task_completed(self.task(), now),
            ),
            final(context).current.is_none(),
    {
        inspector.task_completed(self.task_id, now);
        clear_current_task_id(context);
    }
}

/// Logs the start of a wait of the task at hand. Nothing is logged where no
/// task is at hand. The task's state is left as it is.
pub fn inspect_await_start(
    inspector: &mut Inspector,
    context: &TaskContext,
    label: String,
    location: Option<String>,
    now: Timestamp,
)
    ensures
        old(inspector).wf() ==> final(inspector).wf(),
        final(inspector)@ == match context.current {
            Some(task) => old(inspector)@.logged(
                task,
                EventKind::AwaitStarted { await_point: label, location },
                now,
            ),
            None => old(inspector)@,
        },
{
    match current_task_id(context) {
        Some(task_id) => {
            inspector.add_event(
                task_id,
                EventKind::AwaitStarted { await_point: label, location },
                now,
            );
        },
        None => {},
    }
}

/// Logs the end of a wait of the task at hand, with no length of its own:
/// how long the wait took shows in the time between the two events.
pub fn inspect_await_end(inspector: &mut Inspector, context: &TaskContext, label: String, now: Timestamp)
    ensures
        old(inspector).wf() ==> final(inspector).wf(),
        final(inspector)@ == match context.current {
            Some(task) => old(inspector)@.logged(
                task,
                EventKind::AwaitEnded { await_point: label, duration: Duration { nanos: 0 } },
                now,
            ),
            None => old(inspector)@,
        },
{
    match current_task_id(context) {
        Some(task_id) => {
            inspector.add_event(
                task_id,
                EventKind::AwaitEnded { await_point: label, duration: Duration::zero() },
                now,
            );
        },
        None => {},
    }
}

} // verus!
