//! Tasks: their identifiers, their states and what the registry keeps of
//! each.

use vstd::prelude::*;
use vstd::string::*;
use crate::ids::IdGenerator;
use crate::text::{debug_text, decimal, push_decimal, quote_debug};
use crate::time::{saturating_sum, Duration, Timestamp};

verus! {

/// The identifier of a task: unique among the tasks of one generator, and
/// ordered as the tasks were created.
#[derive(Debug, Clone, Copy, PartialEq, Eq, Hash, Structural)]
pub struct TaskId(pub u64);

impl TaskId {
    /// The next identifier of `ids`.
    pub fn new(ids: &mut IdGenerator) -> (id: TaskId)
        requires
            old(ids).has_next(),
        ensures
            id.0 == old(ids).next,
            *final(ids) == old(ids).after(1),
    {
        TaskId(ids.allocate())
    }

    pub fn as_u64(&self) -> (raw: u64)
        ensures
            raw == self.0,
    {
        self.0
    }

    /// The identifier with the given raw value.
    pub fn from_u64(id: u64) -> (task: TaskId)
        ensures
            task.0 == id,
    {
        TaskId(id)
    }

    /// How the identifier is written: `#` and the number.
    pub open spec fn text(self) -> Seq<char> {
        seq!['#'] + decimal(self.0 as nat)
    }

    /// Appends the identifier as it is written.
    pub fn push_to(&self, out: &mut String)
        ensures
            final(out)@ == old(out)@ + self.text(),
    {
        proof {
            reveal_strlit("#");
        }
        out.append("#");
        push_decimal(out, self.0);
        assert(out@ =~= old(out)@ + self.text());
    }

    pub fn to_string(&self) -> (s: String)
        ensures
            s@ == self.text(),
    {
        let mut s = String::new();
        self.push_to(&mut s);
        assert(s@ =~= self.text());
        s
    }
}

/// Whether `set` holds the raw identifiers of the tasks of `tasks`, and
/// nothing else.
pub open spec fn mirrors(set: Set<u64>, tasks: Seq<TaskId>) -> bool {
    forall|raw: u64| #[trigger] set.contains(raw) <==> tasks.contains(TaskId(raw))
}

/// A set that mirrors a list mirrors the list with one more task, once it
/// holds that task too.
pub proof fn lemma_mirrors_push(set: Set<u64>, tasks: Seq<TaskId>, task: TaskId)
    requires
        mirrors(set, tasks),
    ensures
        mirrors(set.insert(task.0), tasks.push(task)),
{
    crate::lookup::lemma_push_contains(tasks, task);
}

/// Where a task stands in its life. `Completed` and `Failed` are final: a
/// task in one of them changes its state no more.
#[derive(Debug, PartialEq, Eq)]
pub enum TaskState {
    /// Registered, not yet polled.
    Pending,
    /// Being polled.
    Running,
    /// Suspended at the named await point.
    Blocked { await_point: String },
    /// Finished with a result.
    Completed,
    /// Cancelled, or ended in an error.
    Failed,
}

impl Clone for TaskState {
    fn clone(&self) -> (copy: TaskState)
        ensures
            copy == *self,
    {
        match self {
            TaskState::Pending => TaskState::Pending,
            TaskState::Running => TaskState::Running,
            TaskState::Blocked { await_point } => TaskState::Blocked {
                await_point: await_point.clone(),
            },
            TaskState::Completed => TaskState::Completed,
            TaskState::Failed => TaskState::Failed,
        }
    }
}

impl TaskState {
    /// Whether the task has ended: a task that has completed or failed
    /// stays as it is.
    pub open spec fn is_terminal(self) -> bool {
        self is Completed || self is Failed
    }

    pub fn is_final(&self) -> (ended: bool)
        ensures
            ended == self.is_terminal(),
    {
        match self {
            TaskState::Completed => true,
            TaskState::Failed => true,
            _ => false,
        }
    }

    /// How the state is written: its name in capitals, and for a blocked
    /// task the await point in brackets.
    pub open spec fn text(self) -> Seq<char> {
        match self {
            TaskState::Pending => "PENDING"@,
            TaskState::Running => "RUNNING"@,
            TaskState::Blocked { await_point } => "BLOCKED("@ + await_point@ + ")"@,
            TaskState::Completed => "COMPLETED"@,
            TaskState::Failed => "FAILED"@,
        }
    }

    /// How the state is written for people who debug: the name of the
    /// variant, and for a blocked task its field.
    pub open spec fn debug(self) -> Seq<char> {
        match self {
            TaskState::Pending => "Pending"@,
            TaskState::Running => "Running"@,
            TaskState::Blocked { await_point } => "Blocked { await_point: "@ + debug_text(
                await_point@,
            ) + " }"@,
            TaskState::Completed => "Completed"@,
            TaskState::Failed => "Failed"@,
        }
    }

    /// Appends the state as it is written for people who debug.
    pub fn push_debug(&self, out: &mut String)
        ensures
            final(out)@ == old(out)@ + self.debug(),
    {
        match self {
            TaskState::Pending => out.append("Pending"),
            TaskState::Running => out.append("Running"),
            TaskState::Blocked { await_point } => {
                out.append("Blocked { await_point: ");
                let quoted = quote_debug(await_point.as_str());
                out.append(quoted.as_str());
                out.append(" }");
                assert(out@ =~= old(out)@ + self.debug());
            },
            TaskState::Completed => out.append("Completed"),
            TaskState::Failed => out.append("Failed"),
        }
    }

    pub fn to_string(&self) -> (s: String)
        ensures
            s@ == self.text(),
    {
        match self {
            TaskState::Pending => String::from_str("PENDING"),
            TaskState::Running => String::from_str("RUNNING"),
            TaskState::Blocked { await_point } => {
                let mut s = String::from_str("BLOCKED(");
                s.append(await_point.as_str());
                s.append(")");
                s
            },
            TaskState::Completed => String::from_str("COMPLETED"),
            TaskState::Failed => String::from_str("FAILED"),
        }
    }
}

/// A copy of an optional text.
pub fn copy_text(text: &Option<String>) -> (copy: Option<String>)
    ensures
        copy == *text,
{
    match text {
        Some(t) => Some(t.clone()),
        None => None,
    }
}

/// What the registry keeps of one task.
#[derive(Debug)]
pub struct TaskInfo {
    pub id: TaskId,
    /// A name for people to read.
    pub name: String,
    pub state: TaskState,
    pub created_at: Timestamp,
    /// When the state last changed or a poll was last recorded.
    pub last_updated: Timestamp,
    /// How many polls were recorded; it stays at `u64::MAX` once there.
    pub poll_count: u64,
    /// The time spent in the recorded polls together.
    pub total_run_time: Duration,
    pub parent: Option<TaskId>,
    /// Where in the source the task was created (file and line).
    pub location: Option<String>,
}

impl Clone for TaskInfo {
    fn clone(&self) -> (copy: TaskInfo)
        ensures
            copy == *self,
    {
        TaskInfo {
            id: self.id,
            name: self.name.clone(),
            state: self.state.clone(),
            created_at: self.created_at,
            last_updated: self.last_updated,
            poll_count: self.poll_count,
            total_run_time: self.total_run_time,
            parent: self.parent,
            location: copy_text(&self.location),
        }
    }
}

impl TaskInfo {
    /// A pending task created at `now`, under the next identifier of `ids`.
    pub fn new(name: String, ids: &mut IdGenerator, now: Timestamp) -> (task: TaskInfo)
        requires
            old(ids).has_next(),
        ensures
            *final(ids) == old(ids).after(1),
            task == (TaskInfo {
                id: TaskId(old(ids).next),
                name: name,
                state: TaskState::Pending,
                created_at: now,
                last_updated: now,
                poll_count: 0,
                total_run_time: Duration { nanos: 0 },
                parent: None,
                location: None,
            }),
    {
        TaskInfo {
            id: TaskId::new(ids),
            name,
            state: TaskState::Pending,
            created_at: now,
            last_updated: now,
            poll_count: 0,
            total_run_time: Duration::zero(),
            parent: None,
            location: None,
        }
    }

    /// The task in the given state, updated at `now`.
    pub open spec fn in_state(self, new_state: TaskState, now: Timestamp) -> TaskInfo {
        TaskInfo { state: new_state, last_updated: now, ..self }
    }

    /// The task after one more poll that took `duration` and was recorded at
    /// `now`. Both totals stay at their largest value once they reach it.
    pub open spec fn polled(self, duration: Duration, now: Timestamp) -> TaskInfo {
        TaskInfo {
            poll_count: saturating_sum(self.poll_count as int, 1) as u64,
            total_run_time: Duration {
                nanos: saturating_sum(
                    self.total_run_time.nanos as int,
                    duration.nanos as int,
                ) as u64,
            },
            last_updated: now,
            ..self
        }
    }

    /// The task after a request to put it in the given state at `now`: a
    /// task that has ended stays as it is, any other is in the new state.
    pub open spec fn moved_to(self, new_state: TaskState, now: Timestamp) -> TaskInfo {
        if self.state.is_terminal() {
            self
        } else {
            self.in_state(new_state, now)
        }
    }

    /// Puts the task in a new state, unless it has ended.
    pub fn update_state(&mut self, new_state: TaskState, now: Timestamp)
        ensures
            *final(self) == old(self).moved_to(new_state, now),
    {
        if !self.state.is_final() {
            self.state = new_state;
            self.last_updated = now;
        }
    }

    /// Counts one poll that took `duration`.
    pub fn record_poll(&mut self, duration: Duration, now: Timestamp)
        ensures
            *final(self) == old(self).polled(duration, now),
    {
        self.poll_count = self.poll_count.saturating_add(1);
        self.total_run_time = self.total_run_time.saturating_add(duration);
        self.last_updated = now;
    }

    /// The time from the task's creation to `now`.
    pub fn age(&self, now: Timestamp) -> (d: Duration)
        ensures
            d == now.since(self.created_at),
    {
        now.duration_since(self.created_at)
    }

    /// The time from the last update to `now`.
    pub fn time_since_update(&self, now: Timestamp) -> (d: Duration)
        ensures
            d == now.since(self.last_updated),
    {
        now.duration_since(self.last_updated)
    }

    pub fn with_parent(self, parent: TaskId) -> (task: TaskInfo)
        ensures
            task == (TaskInfo { parent: Some(parent), ..self }),
    {
        let mut task = self;
        task.parent = Some(parent);
        task
    }

    pub fn with_location(self, location: String) -> (task: TaskInfo)
        ensures
            task == (TaskInfo { location: Some(location), ..self }),
    {
        let mut task = self;
        task.location = Some(location);
        task
    }
}

} // verus!
