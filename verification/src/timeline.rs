//! The event timeline: an append-only record of what happened to the tasks,
//! in the order in which it was reported.

use vstd::prelude::*;
use vstd::string::*;
use crate::task::{copy_text, TaskId, TaskState};
use crate::time::{Duration, Timestamp};

verus! {

/// The identifier of an event, from a counter of its own.
#[derive(Debug, Clone, Copy, PartialEq, Eq, Hash, Structural)]
pub struct EventId(pub u64);

impl EventId {
    pub fn new(id: u64) -> (event: EventId)
        ensures
            event.0 == id,
    {
        EventId(id)
    }
}

/// What happened.
#[derive(Debug)]
pub enum EventKind {
    /// A task was registered.
    TaskSpawned { name: String, parent: Option<TaskId>, location: Option<String> },
    /// A poll of the task began.
    PollStarted,
    /// A poll of the task ended after `duration`.
    PollEnded { duration: Duration },
    /// The task began to wait at the named await point.
    AwaitStarted { await_point: String, location: Option<String> },
    /// The task's wait at the named await point ended.
    AwaitEnded { await_point: String, duration: Duration },
    /// The task finished, `duration` after its creation.
    TaskCompleted { duration: Duration },
    /// The task failed or was cancelled.
    TaskFailed { error: Option<String> },
    /// The task passed a point that its author marked.
    InspectionPoint { label: String, message: Option<String> },
    /// The task went from one state to another.
    StateChanged { old_state: TaskState, new_state: TaskState },
}

impl Clone for EventKind {
    fn clone(&self) -> (copy: EventKind)
        ensures
            copy == *self,
    {
        match self {
            EventKind::TaskSpawned { name, parent, location } => EventKind::TaskSpawned {
                name: name.clone(),
                parent: *parent,
                location: copy_text(location),
            },
            EventKind::PollStarted => EventKind::PollStarted,
            EventKind::PollEnded { duration } => EventKind::PollEnded { duration: *duration },
            EventKind::AwaitStarted { await_point, location } => EventKind::AwaitStarted {
                await_point: await_point.clone(),
                location: copy_text(location),
            },
            EventKind::AwaitEnded { await_point, duration } => EventKind::AwaitEnded {
                await_point: await_point.clone(),
                duration: *duration,
            },
            EventKind::TaskCompleted { duration } => EventKind::TaskCompleted {
                duration: *duration,
            },
            EventKind::TaskFailed { error } => EventKind::TaskFailed { error: copy_text(error) },
            EventKind::InspectionPoint { label, message } => EventKind::InspectionPoint {
                label: label.clone(),
                message: copy_text(message),
            },
            EventKind::StateChanged { old_state, new_state } => EventKind::StateChanged {
                old_state: old_state.clone(),
                new_state: new_state.clone(),
            },
        }
    }
}

impl EventKind {
    /// The name of the variant.
    pub open spec fn name(self) -> Seq<char> {
        match self {
            EventKind::TaskSpawned { .. } => "TaskSpawned"@,
            EventKind::PollStarted => "PollStarted"@,
            EventKind::PollEnded { .. } => "PollEnded"@,
            EventKind::AwaitStarted { .. } => "AwaitStarted"@,
            EventKind::AwaitEnded { .. } => "AwaitEnded"@,
            EventKind::TaskCompleted { .. } => "TaskCompleted"@,
            EventKind::TaskFailed { .. } => "TaskFailed"@,
            EventKind::InspectionPoint { .. } => "InspectionPoint"@,
            EventKind::StateChanged { .. } => "StateChanged"@,
        }
    }

    /// The name of the variant, as the exporters write it.
    pub fn kind_name(&self) -> (s: String)
        ensures
            s@ == self.name(),
    {
        match self {
            EventKind::TaskSpawned { .. } => String::from_str("TaskSpawned"),
            EventKind::PollStarted => String::from_str("PollStarted"),
            EventKind::PollEnded { .. } => String::from_str("PollEnded"),
            EventKind::AwaitStarted { .. } => String::from_str("AwaitStarted"),
            EventKind::AwaitEnded { .. } => String::from_str("AwaitEnded"),
            EventKind::TaskCompleted { .. } => String::from_str("TaskCompleted"),
            EventKind::TaskFailed { .. } => String::from_str("TaskFailed"),
            EventKind::InspectionPoint { .. } => String::from_str("InspectionPoint"),
            EventKind::StateChanged { .. } => String::from_str("StateChanged"),
        }
    }
}

/// One entry of the timeline. An event is never changed once it is made.
#[derive(Debug)]
pub struct Event {
    pub id: EventId,
    /// The task that the event belongs to.
    pub task_id: TaskId,
    /// When the event was reported.
    pub timestamp: Timestamp,
    pub kind: EventKind,
}

impl Clone for Event {
    fn clone(&self) -> (copy: Event)
        ensures
            copy == *self,
    {
        Event {
            id: self.id,
            task_id: self.task_id,
            timestamp: self.timestamp,
            kind: self.kind.clone(),
        }
    }
}

impl Event {
    /// An event reported at `now`.
    pub fn new(id: u64, task_id: TaskId, kind: EventKind, now: Timestamp) -> (event: Event)
        ensures
            event == (Event { id: EventId(id), task_id, timestamp: now, kind }),
    {
        Event { id: EventId::new(id), task_id, timestamp: now, kind }
    }

    /// The time from the event to `now`.
    pub fn age(&self, now: Timestamp) -> (d: Duration)
        ensures
            d == now.since(self.timestamp),
    {
        now.duration_since(self.timestamp)
    }
}

/// The events of `events` that belong to `task`, in their order.
pub open spec fn events_of(events: Seq<Event>, task: TaskId) -> Seq<Event> {
    events.filter(|e: Event| e.task_id == task)
}

/// The timestamp of the first event, if there is one.
pub open spec fn first_timestamp(events: Seq<Event>) -> Option<Timestamp> {
    if events.len() == 0 {
        None
    } else {
        Some(events[0].timestamp)
    }
}

/// The events in the order in which they were added. Nothing is reordered,
/// merged or dropped; only `clear` removes events, and it removes all.
#[derive(Debug)]
pub struct Timeline {
    events: Vec<Event>,
}

impl View for Timeline {
    type V = Seq<Event>;

    closed spec fn view(&self) -> Seq<Event> {
        self.events@
    }
}

impl Timeline {
    pub fn new() -> (timeline: Timeline)
        ensures
            timeline@ == Seq::<Event>::empty(),
    {
        Timeline { events: Vec::new() }
    }

    /// Appends `event`.
    pub fn add_event(&mut self, event: Event)
        ensures
            final(self)@ == old(self)@.push(event),
    {
        self.events.push(event);
    }

    /// All events, oldest first.
    pub fn events(&self) -> (events: &[Event])
        ensures
            events@ == self@,
    {
        self.events.as_slice()
    }

    /// The events of one task, oldest first.
    pub fn events_for_task(&self, task_id: TaskId) -> (found: Vec<&Event>)
        ensures
            found@.len() == events_of(self@, task_id).len(),
            forall|i: int| 0 <= i < found@.len() ==> *found@[i] == events_of(self@, task_id)[i],
    {
        let mut found: Vec<&Event> = Vec::new();
        let n: usize = self.events.len();
        proof {
            reveal(Seq::filter);
        }
        for i in 0..n
            invariant
                n == self.events@.len(),
                found@.len() == events_of(self.events@.take(i as int), task_id).len(),
                forall|j: int|
                    0 <= j < found@.len() ==> *found@[j] == events_of(
                        self.events@.take(i as int),
                        task_id,
                    )[j],
        {
            proof {
                let pred = |e: Event| e.task_id == task_id;
                assert(self.events@.take(i + 1) == self.events@.take(i as int).push(
                    self.events@[i as int],
                ));
                self.events@.take(i as int).lemma_filter_push(self.events@[i as int], pred);
            }
            if self.events[i].task_id == task_id {
                found.push(&self.events[i]);
            }
        }
        assert(self.events@.take(n as int) == self.events@);
        found
    }

    /// The time from the first event to `now`; nothing while the timeline is
    /// empty.
    pub open spec fn span(self, now: Timestamp) -> Duration {
        match first_timestamp(self@) {
            Some(start) => now.since(start),
            None => Duration { nanos: 0 },
        }
    }

    pub fn duration(&self, now: Timestamp) -> (d: Duration)
        ensures
            d == self.span(now),
    {
        if self.events.len() == 0 {
            Duration::zero()
        } else {
            now.duration_since(self.events[0].timestamp)
        }
    }

    pub fn len(&self) -> (n: usize)
        ensures
            n == self@.len(),
    {
        self.events.len()
    }

    pub fn is_empty(&self) -> (empty: bool)
        ensures
            empty == (self@.len() == 0),
    {
        self.events.is_empty()
    }

    /// Removes every event.
    pub fn clear(&mut self)
        ensures
            final(self)@ == Seq::<Event>::empty(),
    {
        self.events.clear();
    }
}

} // verus!
