//! The inspector: the task registry and the event timeline behind one
//! interface, so that a task never changes without the event that says so.

use std::collections::HashMap;
use vstd::prelude::*;
use crate::ids::{advance, IdGenerator};
use crate::lookup::{
    distinct_by, first_match, is_index, lemma_first_match, lemma_first_match_is, lemma_index_finds,
    lemma_index_push, upsert,
};
use crate::profile::{of_task, with_run, HotPath, Profiler, TaskMetrics, DEFAULT_BOTTLENECK_THRESHOLD_MS};
use crate::task::{copy_text, TaskId, TaskInfo, TaskState};
use crate::time::{saturating_difference, Duration, Timestamp};
use crate::timeline::{events_of, Event, EventId, EventKind, Timeline};
use crate::waits::{await_samples, measure_waits};

verus! {

broadcast use vstd::std_specs::hash::group_hash_axioms;

/// The raw identifier of a task.
pub open spec fn raw_id_of() -> spec_fn(TaskInfo) -> u64 {
    |t: TaskInfo| t.id.0
}

/// The task with the given identifier.
pub open spec fn with_id(id: TaskId) -> spec_fn(TaskInfo) -> bool {
    |t: TaskInfo| t.id == id
}

/// The identifier of a task.
pub open spec fn task_id_of() -> spec_fn(TaskInfo) -> TaskId {
    |t: TaskInfo| t.id
}

/// What an inspector holds.
pub struct InspectorState {
    /// The tasks, one entry for each identifier, in the order in which the
    /// identifiers were first registered.
    pub tasks: Seq<TaskInfo>,
    /// The timeline, oldest event first.
    pub events: Seq<Event>,
    /// The identifier that the next event gets.
    pub next_event_id: u64,
    /// The source of task identifiers.
    pub ids: IdGenerator,
    /// The identifiers that registrations have returned, oldest first. It
    /// outlasts the tasks: clearing the registry does not shorten it.
    pub issued: Seq<TaskId>,
    /// Whether anything is recorded.
    pub enabled: bool,
}

impl InspectorState {
    /// The state of a new inspector.
    pub open spec fn initial() -> InspectorState {
        InspectorState {
            tasks: Seq::empty(),
            events: Seq::empty(),
            next_event_id: 1,
            ids: IdGenerator { next: 1 },
            issued: Seq::empty(),
            enabled: true,
        }
    }

    /// No identifier has two entries in the registry, and the identifiers
    /// that registrations have returned increase strictly and lie below the
    /// next one to come: none was returned twice, and none will be.
    pub open spec fn wf(self) -> bool {
        &&& distinct_by(self.tasks, task_id_of())
        &&& forall|i: int| 0 <= i < self.issued.len() ==> (#[trigger] self.issued[i]).0 < self.ids.next
        &&& forall|i: int, j: int|
            0 <= i < j < self.issued.len() ==> (#[trigger] self.issued[i]).0 < (
            #[trigger] self.issued[j]).0
    }

    /// The entry of a task, if it has one.
    pub open spec fn task(self, id: TaskId) -> Option<TaskInfo> {
        crate::lookup::lookup(self.tasks, with_id(id))
    }

    /// One more event at the end of the timeline, under the next event
    /// identifier. The counter of events goes round after `u64::MAX`.
    pub open spec fn logged(self, task_id: TaskId, kind: EventKind, now: Timestamp) -> InspectorState {
        InspectorState {
            events: self.events.push(
                Event { id: EventId(self.next_event_id), task_id, timestamp: now, kind },
            ),
            next_event_id: advance(self.next_event_id, 1),
            ..self
        }
    }

    /// The task stored, in the place of an entry of the same identifier where
    /// there is one, and the event of its creation logged.
    pub open spec fn spawned(self, task: TaskInfo, now: Timestamp) -> InspectorState {
        let logged = self.logged(
            task.id,
            EventKind::TaskSpawned { name: task.name, parent: task.parent, location: task.location },
            now,
        );
        InspectorState { tasks: upsert(self.tasks, with_id(task.id), task), ..logged }
    }

    /// A task of the given name registered under the next task identifier.
    pub open spec fn registered(self, name: String, parent: Option<TaskId>, now: Timestamp) -> InspectorState {
        let task = TaskInfo {
            id: TaskId(self.ids.next),
            name,
            state: TaskState::Pending,
            created_at: now,
            last_updated: now,
            poll_count: 0,
            total_run_time: Duration { nanos: 0 },
            parent,
            location: None,
        };
        let taken = InspectorState {
            ids: self.ids.after(1),
            issued: self.issued.push(TaskId(self.ids.next)),
            ..self
        };
        if self.enabled {
            taken.spawned(task, now)
        } else {
            taken
        }
    }

    /// Whether the task is known and has not ended, so that its state can
    /// change.
    pub open spec fn is_live(self, id: TaskId) -> bool {
        let i = first_match(self.tasks, with_id(id));
        i < self.tasks.len() && !self.tasks[i].state.is_terminal()
    }

    /// A known task that has not ended put in a new state, and the change
    /// logged. Nothing happens, and nothing is logged, for an unknown task
    /// and for a task that has completed or failed.
    pub open spec fn state_changed(self, id: TaskId, new_state: TaskState, now: Timestamp) -> InspectorState {
        let i = first_match(self.tasks, with_id(id));
        if self.is_live(id) {
            (InspectorState {
                tasks: self.tasks.update(i, self.tasks[i].in_state(new_state, now)),
                ..self
            }).logged(
                id,
                EventKind::StateChanged { old_state: self.tasks[i].state, new_state },
                now,
            )
        } else {
            self
        }
    }

    /// A poll counted for a known task.
    pub open spec fn poll_counted(self, id: TaskId, duration: Duration, now: Timestamp) -> InspectorState {
        let i = first_match(self.tasks, with_id(id));
        if i < self.tasks.len() {
            InspectorState {
                tasks: self.tasks.update(i, self.tasks[i].polled(duration, now)),
                ..self
            }
        } else {
            self
        }
    }

    /// The start of a poll: the task runs, unless it has ended, and the poll
    /// is logged.
    pub open spec fn poll_started(self, id: TaskId, now: Timestamp) -> InspectorState {
        self.state_changed(id, TaskState::Running, now).logged(id, EventKind::PollStarted, now)
    }

    /// The end of a poll: it is counted for the task and logged. The task's
    /// state stays as it is.
    pub open spec fn poll_ended(self, id: TaskId, duration: Duration, now: Timestamp) -> InspectorState {
        self.poll_counted(id, duration, now).logged(id, EventKind::PollEnded { duration }, now)
    }

    /// The start of a wait: the task is blocked at the await point, unless
    /// it has ended, and the wait is logged.
    pub open spec fn await_started(
        self,
        id: TaskId,
        await_point: String,
        location: Option<String>,
        now: Timestamp,
    ) -> InspectorState {
        self.state_changed(id, TaskState::Blocked { await_point }, now).logged(
            id,
            EventKind::AwaitStarted { await_point, location },
            now,
        )
    }

    /// The end of a wait, which is logged.
    pub open spec fn await_ended(
        self,
        id: TaskId,
        await_point: String,
        duration: Duration,
        now: Timestamp,
    ) -> InspectorState {
        self.logged(id, EventKind::AwaitEnded { await_point, duration }, now)
    }

    /// The completion of a known task, logged with the task's age. A task
    /// that has ended before keeps its state. Nothing happens for an unknown
    /// task.
    pub open spec fn task_completed(self, id: TaskId, now: Timestamp) -> InspectorState {
        match self.task(id) {
            Some(task) => self.state_changed(id, TaskState::Completed, now).logged(
                id,
                EventKind::TaskCompleted { duration: now.since(task.created_at) },
                now,
            ),
            None => self,
        }
    }

    /// The failure of a task, which is logged also for an unknown task. A
    /// task that has ended before keeps its state.
    pub open spec fn task_failed(self, id: TaskId, error: Option<String>, now: Timestamp) -> InspectorState {
        self.state_changed(id, TaskState::Failed, now).logged(
            id,
            EventKind::TaskFailed { error },
            now,
        )
    }

    /// `then` while recording is on, and the state as it is while it is off.
    pub open spec fn when_enabled(self, then: InspectorState) -> InspectorState {
        if self.enabled {
            then
        } else {
            self
        }
    }

    /// No tasks and no events, and the counter of events back at one. The
    /// source of task identifiers goes on, so that no identifier comes twice.
    pub open spec fn cleared(self) -> InspectorState {
        InspectorState { tasks: Seq::empty(), events: Seq::empty(), next_event_id: 1, ..self }
    }
}

/// The tasks that are pending.
pub open spec fn pending() -> spec_fn(TaskInfo) -> bool {
    |t: TaskInfo| t.state is Pending
}

/// The tasks that are running.
pub open spec fn running() -> spec_fn(TaskInfo) -> bool {
    |t: TaskInfo| t.state is Running
}

/// The tasks that are blocked.
pub open spec fn blocked() -> spec_fn(TaskInfo) -> bool {
    |t: TaskInfo| t.state is Blocked
}

/// The tasks that have completed.
pub open spec fn completed() -> spec_fn(TaskInfo) -> bool {
    |t: TaskInfo| t.state is Completed
}

/// The tasks that have failed.
pub open spec fn failed() -> spec_fn(TaskInfo) -> bool {
    |t: TaskInfo| t.state is Failed
}

/// How many tasks and events an inspector holds.
#[derive(Debug, Clone, Copy, PartialEq, Eq, Structural)]
pub struct InspectorStats {
    pub total_tasks: usize,
    pub pending_tasks: usize,
    pub running_tasks: usize,
    pub blocked_tasks: usize,
    pub completed_tasks: usize,
    pub failed_tasks: usize,
    pub total_events: usize,
    /// The time since the first event of the timeline.
    pub timeline_duration: Duration,
}

impl InspectorState {
    /// How many tasks satisfy `p`.
    pub open spec fn count(self, p: spec_fn(TaskInfo) -> bool) -> nat {
        self.tasks.filter(p).len()
    }

    /// The counts of this state at `now`.
    pub open spec fn stats(self, now: Timestamp) -> InspectorStats {
        InspectorStats {
            total_tasks: self.tasks.len() as usize,
            pending_tasks: self.count(pending()) as usize,
            running_tasks: self.count(running()) as usize,
            blocked_tasks: self.count(blocked()) as usize,
            completed_tasks: self.count(completed()) as usize,
            failed_tasks: self.count(failed()) as usize,
            total_events: self.events.len() as usize,
            timeline_duration: match crate::timeline::first_timestamp(self.events) {
                Some(start) => now.since(start),
                None => Duration { nanos: 0 },
            },
        }
    }
}

/// Whether `m` holds the figures of `task` at `now`, with the waits that
/// `events` show: the age as the total, the time in polls as the running
/// time, what is left of the age as the blocked time, the running time per
/// poll, and one sample for each finished wait.
pub open spec fn describes(m: TaskMetrics, task: TaskInfo, events: Seq<Event>, now: Timestamp) -> bool {
    let age = now.since(task.created_at);
    &&& m.task_id == task.id
    &&& m.name == task.name
    &&& m.total_duration == age
    &&& m.running_time == task.total_run_time
    &&& m.blocked_time.nanos == saturating_difference(
        age.nanos as int,
        task.total_run_time.nanos as int,
    )
    &&& m.poll_count == task.poll_count
    &&& m.avg_poll_duration.nanos == if task.poll_count > 0 {
        task.total_run_time.nanos / task.poll_count
    } else {
        0
    }
    &&& m.completed == (task.state is Completed)
    &&& m.await_durations@ == await_samples(events, task.id)
    &&& m.await_count == await_samples(events, task.id).len()
}

/// The paths that the tasks ran, each task taken at its age at `now`.
pub open spec fn paths_of(tasks: Seq<TaskInfo>, now: Timestamp) -> Seq<HotPath>
    decreases tasks.len(),
{
    if tasks.len() == 0 {
        Seq::empty()
    } else {
        with_run(
            paths_of(tasks.drop_last(), now),
            tasks.last().name,
            now.since(tasks.last().created_at),
        )
    }
}

/// A state with tasks of distinct identifiers, and the identifiers of a
/// well-formed state, is well formed.
proof fn lemma_identifiers_carry(before: InspectorState, after: InspectorState)
    requires
        before.wf(),
        after.ids == before.ids,
        after.issued == before.issued,
        distinct_by(after.tasks, task_id_of()),
    ensures
        after.wf(),
{
}

/// The registry of tasks and the timeline of their events. The tasks stand
/// in the order in which they were registered; a hash map finds the entry
/// of an identifier.
pub struct Inspector {
    tasks: Vec<TaskInfo>,
    index: HashMap<u64, usize>,
    timeline: Timeline,
    event_counter: u64,
    task_ids: IdGenerator,
    issued: Ghost<Seq<TaskId>>,
    enabled: bool,
}

impl View for Inspector {
    type V = InspectorState;

    closed spec fn view(&self) -> InspectorState {
        InspectorState {
            tasks: self.tasks@,
            events: self.timeline@,
            next_event_id: self.event_counter,
            ids: self.task_ids,
            issued: self.issued@,
            enabled: self.enabled,
        }
    }
}

impl Inspector {
    /// The index says of every task where its entry stands.
    pub closed spec fn indexed(&self) -> bool {
        is_index(self.index@, self.tasks@.map_values(raw_id_of()))
    }

    /// What the inspector holds is well formed, and its index is in step
    /// with its tasks.
    pub open spec fn wf(&self) -> bool {
        self@.wf() && self.indexed()
    }

    pub fn new() -> (inspector: Inspector)
        ensures
            inspector.wf(),
            inspector@ == InspectorState::initial(),
    {
        Inspector {
            tasks: Vec::new(),
            index: HashMap::new(),
            timeline: Timeline::new(),
            event_counter: 1,
            task_ids: IdGenerator::new(),
            issued: Ghost(Seq::empty()),
            enabled: true,
        }
    }

    /// Whether there is an identifier left for a task. There is, unless
    /// nearly all sixty-four-bit values have been handed out.
    pub fn can_register(&self) -> (can: bool)
        ensures
            can == self@.ids.has_next(),
    {
        self.task_ids.can_allocate()
    }

    /// Takes the next task identifier and notes that it was returned.
    fn issue(&mut self) -> (id: TaskId)
        requires
            old(self).wf(),
            old(self)@.ids.has_next(),
        ensures
            final(self).wf(),
            id == TaskId(old(self)@.ids.next),
            final(self)@ == (InspectorState {
                ids: old(self)@.ids.after(1),
                issued: old(self)@.issued.push(id),
                ..old(self)@
            }),
    {
        let id = TaskId::new(&mut self.task_ids);
        self.issued = Ghost(self.issued@.push(id));
        id
    }

    pub fn is_enabled(&self) -> (enabled: bool)
        ensures
            enabled == self@.enabled,
    {
        self.enabled
    }

    pub fn enable(&mut self)
        ensures
            final(self)@ == (InspectorState { enabled: true, ..old(self)@ }),
            old(self).wf() ==> final(self).wf(),
    {
        self.enabled = true;
    }

    pub fn disable(&mut self)
        ensures
            final(self)@ == (InspectorState { enabled: false, ..old(self)@ }),
            old(self).wf() ==> final(self).wf(),
    {
        self.enabled = false;
    }

    fn position(&self, task_id: TaskId) -> (i: usize)
        requires
            self.indexed(),
        ensures
            i == first_match(self@.tasks, with_id(task_id)),
            i <= self@.tasks.len(),
    {
        proof {
            lemma_index_finds(
                self.index@,
                self.tasks@,
                raw_id_of(),
                with_id(task_id),
                task_id.0,
            );
        }
        match self.index.get(&task_id.0) {
            Some(i) => *i,
            None => self.tasks.len(),
        }
    }

    fn store(&mut self, task: TaskInfo)
        requires
            old(self).wf(),
        ensures
            final(self).wf(),
            final(self)@ == (InspectorState {
                tasks: upsert(old(self)@.tasks, with_id(task.id), task),
                ..old(self)@
            }),
    {
        proof {
            crate::lookup::lemma_upsert_keeps_distinct(
                self@.tasks,
                task_id_of(),
                with_id(task.id),
                task,
            );
        }
        let i: usize = self.position(task.id);
        let ghost keys = self.tasks@.map_values(raw_id_of());
        if i == self.tasks.len() {
            proof {
                lemma_first_match(self.tasks@, with_id(task.id));
                if self.index@.contains_key(task.id.0) {
                    assert(keys[self.index@[task.id.0] as int] == task.id.0);
                }
                lemma_index_push(self.index@, keys, task.id.0);
            }
            self.index.insert(task.id.0, i);
            self.tasks.push(task);
            assert(self.tasks@.map_values(raw_id_of()) =~= keys.push(task.id.0));
        } else {
            proof {
                lemma_first_match(self.tasks@, with_id(task.id));
            }
            self.tasks[i] = task;
            assert(self.tasks@.map_values(raw_id_of()) =~= keys);
        }
    }

    /// Registers a task under a new identifier and logs its creation. While
    /// recording is off, the identifier is taken and nothing is recorded.
    /// The identifier is larger than every identifier that a registration
    /// has returned before, so it is none of them.
    pub fn register_task(&mut self, name: String, now: Timestamp) -> (id: TaskId)
        requires
            old(self).wf(),
            old(self)@.ids.has_next(),
        ensures
            final(self).wf(),
            id == TaskId(old(self)@.ids.next),
            !old(self)@.issued.contains(id),
            forall|k: int| 0 <= k < old(self)@.issued.len() ==> old(self)@.issued[k].0 < id.0,
            final(self)@ == old(self)@.registered(name, None, now),
    {
        let id = self.issue();
        if !self.enabled {
            return id;
        }
        let task = TaskInfo {
            id,
            name,
            state: TaskState::Pending,
            created_at: now,
            last_updated: now,
            poll_count: 0,
            total_run_time: Duration::zero(),
            parent: None,
            location: None,
        };
        self.register_task_with_info(task, now)
    }

    /// Registers a task under a new identifier as the child of `parent_id`.
    pub fn register_child_task(&mut self, name: String, parent_id: TaskId, now: Timestamp) -> (id:
        TaskId)
        requires
            old(self).wf(),
            old(self)@.ids.has_next(),
        ensures
            final(self).wf(),
            id == TaskId(old(self)@.ids.next),
            !old(self)@.issued.contains(id),
            forall|k: int| 0 <= k < old(self)@.issued.len() ==> old(self)@.issued[k].0 < id.0,
            final(self)@ == old(self)@.registered(name, Some(parent_id), now),
    {
        let id = self.issue();
        if !self.enabled {
            return id;
        }
        let task = TaskInfo {
            id,
            name,
            state: TaskState::Pending,
            created_at: now,
            last_updated: now,
            poll_count: 0,
            total_run_time: Duration::zero(),
            parent: Some(parent_id),
            location: None,
        };
        self.register_task_with_info(task, now)
    }

    /// Stores a task that the caller has made and logs its creation. An
    /// entry with the same identifier is replaced.
    pub fn register_task_with_info(&mut self, task: TaskInfo, now: Timestamp) -> (id: TaskId)
        requires
            old(self).wf(),
        ensures
            final(self).wf(),
            id == task.id,
            final(self)@ == old(self)@.when_enabled(old(self)@.spawned(task, now)),
    {
        let id = task.id;
        if !self.enabled {
            return id;
        }
        self.add_event(
            id,
            EventKind::TaskSpawned {
                name: task.name.clone(),
                parent: task.parent,
                location: copy_text(&task.location),
            },
            now,
        );
        self.store(task);
        id
    }

    /// Puts a known task in a new state and logs the change. For an unknown
    /// task, and for a task that has completed or failed, nothing happens.
    pub fn update_task_state(&mut self, task_id: TaskId, new_state: TaskState, now: Timestamp)
        requires
            old(self).wf(),
        ensures
            final(self).wf(),
            final(self)@ == old(self)@.when_enabled(
                old(self)@.state_changed(task_id, new_state, now),
            ),
    {
        if !self.enabled {
            return ;
        }
        let i: usize = self.position(task_id);
        if i < self.tasks.len() {
            if !self.tasks[i].state.is_final() {
                let old_state = self.tasks[i].state.clone();
                self.tasks[i].update_state(new_state.clone(), now);
                assert(self.tasks@.map_values(raw_id_of()) =~= old(self).tasks@.map_values(
                    raw_id_of(),
                ));
                self.add_event(task_id, EventKind::StateChanged { old_state, new_state }, now);
            }
        }
        proof {
            assert(distinct_by(self@.tasks, task_id_of())) by {
                assert forall|a: int, b: int| 0 <= a < b < self@.tasks.len() implies task_id_of()(
                    self@.tasks[a],
                ) != task_id_of()(self@.tasks[b]) by {
                    assert(task_id_of()(old(self)@.tasks[a]) != task_id_of()(
                        old(self)@.tasks[b],
                    ));
                }
            }
            lemma_identifiers_carry(old(self)@, self@);
        }
    }

    /// Records that a poll of the task began.
    pub fn poll_started(&mut self, task_id: TaskId, now: Timestamp)
        requires
            old(self).wf(),
        ensures
            final(self).wf(),
            final(self)@ == old(self)@.when_enabled(old(self)@.poll_started(task_id, now)),
    {
        if !self.enabled {
            return ;
        }
        self.update_task_state(task_id, TaskState::Running, now);
        self.add_event(task_id, EventKind::PollStarted, now);
    }

    /// Records that a poll of the task ended after `duration`.
    pub fn poll_ended(&mut self, task_id: TaskId, duration: Duration, now: Timestamp)
        requires
            old(self).wf(),
        ensures
            final(self).wf(),
            final(self)@ == old(self)@.when_enabled(
                old(self)@.poll_ended(task_id, duration, now),
            ),
    {
        if !self.enabled {
            return ;
        }
        let i: usize = self.position(task_id);
        if i < self.tasks.len() {
            self.tasks[i].record_poll(duration, now);
        }
        assert(self.tasks@.map_values(raw_id_of()) =~= old(self).tasks@.map_values(raw_id_of()));
        self.add_event(task_id, EventKind::PollEnded { duration }, now);
        proof {
            assert(distinct_by(self@.tasks, task_id_of())) by {
                assert forall|a: int, b: int| 0 <= a < b < self@.tasks.len() implies task_id_of()(
                    self@.tasks[a],
                ) != task_id_of()(self@.tasks[b]) by {
                    assert(task_id_of()(old(self)@.tasks[a]) != task_id_of()(
                        old(self)@.tasks[b],
                    ));
                }
            }
            lemma_identifiers_carry(old(self)@, self@);
        }
    }

    /// Records that the task began to wait at `await_point`.
    pub fn await_started(
        &mut self,
        task_id: TaskId,
        await_point: String,
        location: Option<String>,
        now: Timestamp,
    )
        requires
            old(self).wf(),
        ensures
            final(self).wf(),
            final(self)@ == old(self)@.when_enabled(
                old(self)@.await_started(task_id, await_point, location, now),
            ),
    {
        if !self.enabled {
            return ;
        }
        self.update_task_state(
            task_id,
            TaskState::Blocked { await_point: await_point.clone() },
            now,
        );
        self.add_event(task_id, EventKind::AwaitStarted { await_point, location }, now);
    }

    /// Records that the task's wait at `await_point` ended.
    pub fn await_ended(
        &mut self,
        task_id: TaskId,
        await_point: String,
        duration: Duration,
        now: Timestamp,
    )
        requires
            old(self).wf(),
        ensures
            final(self).wf(),
            final(self)@ == old(self)@.when_enabled(
                old(self)@.await_ended(task_id, await_point, duration, now),
            ),
    {
        if !self.enabled {
            return ;
        }
        self.add_event(task_id, EventKind::AwaitEnded { await_point, duration }, now);
    }

    /// Records that a known task finished.
    pub fn task_completed(&mut self, task_id: TaskId, now: Timestamp)
        requires
            old(self).wf(),
        ensures
            final(self).wf(),
            final(self)@ == old(self)@.when_enabled(old(self)@.task_completed(task_id, now)),
    {
        if !self.enabled {
            return ;
        }
        let i: usize = self.position(task_id);
        if i < self.tasks.len() {
            let duration = self.tasks[i].age(now);
            self.update_task_state(task_id, TaskState::Completed, now);
            self.add_event(task_id, EventKind::TaskCompleted { duration }, now);
        }
    }

    /// Records that the task failed.
    pub fn task_failed(&mut self, task_id: TaskId, error: Option<String>, now: Timestamp)
        requires
            old(self).wf(),
        ensures
            final(self).wf(),
            final(self)@ == old(self)@.when_enabled(
                old(self)@.task_failed(task_id, error, now),
            ),
    {
        if !self.enabled {
            return ;
        }
        self.update_task_state(task_id, TaskState::Failed, now);
        self.add_event(task_id, EventKind::TaskFailed { error }, now);
    }

    /// Records that the task passed a marked point.
    pub fn inspection_point(
        &mut self,
        task_id: TaskId,
        label: String,
        message: Option<String>,
        now: Timestamp,
    )
        requires
            old(self).wf(),
        ensures
            final(self).wf(),
            final(self)@ == old(self)@.when_enabled(
                old(self)@.logged(task_id, EventKind::InspectionPoint { label, message }, now),
            ),
    {
        if !self.enabled {
            return ;
        }
        self.add_event(task_id, EventKind::InspectionPoint { label, message }, now);
    }

    /// Appends an event to the timeline, whether recording is on or off.
    pub fn add_event(&mut self, task_id: TaskId, kind: EventKind, now: Timestamp)
        ensures
            final(self)@ == old(self)@.logged(task_id, kind, now),
            old(self).indexed() ==> final(self).indexed(),
            old(self).wf() ==> final(self).wf(),
    {
        let event_id: u64 = self.event_counter;
        self.event_counter = event_id.wrapping_add(1);
        self.timeline.add_event(Event::new(event_id, task_id, kind, now));
        proof {
            if old(self).wf() {
                lemma_identifiers_carry(old(self)@, self@);
            }
        }
    }

    /// A copy of the entry of a task.
    pub fn get_task(&self, task_id: TaskId) -> (task: Option<TaskInfo>)
        requires
            self.wf(),
        ensures
            task == self@.task(task_id),
    {
        let i: usize = self.position(task_id);
        if i < self.tasks.len() {
            Some(self.tasks[i].clone())
        } else {
            None
        }
    }

    /// Copies of all entries, in the order in which their identifiers were
    /// first registered.
    pub fn get_all_tasks(&self) -> (tasks: Vec<TaskInfo>)
        ensures
            tasks@ == self@.tasks,
    {
        let mut tasks: Vec<TaskInfo> = Vec::new();
        let n: usize = self.tasks.len();
        for i in 0..n
            invariant
                n == self.tasks@.len(),
                tasks@ == self.tasks@.take(i as int),
        {
            tasks.push(self.tasks[i].clone());
            assert(tasks@ =~= self.tasks@.take(i + 1));
        }
        assert(self.tasks@.take(n as int) == self.tasks@);
        tasks
    }

    /// Copies of all events, oldest first.
    pub fn get_events(&self) -> (events: Vec<Event>)
        ensures
            events@ == self@.events,
    {
        let all = self.timeline.events();
        let mut events: Vec<Event> = Vec::new();
        let n: usize = all.len();
        for i in 0..n
            invariant
                n == all@.len(),
                all@ == self@.events,
                events@ == all@.take(i as int),
        {
            events.push(all[i].clone());
            assert(events@ =~= all@.take(i + 1));
        }
        assert(all@.take(n as int) == all@);
        events
    }

    /// Copies of the events of one task, oldest first.
    pub fn get_task_events(&self, task_id: TaskId) -> (events: Vec<Event>)
        ensures
            events@ == events_of(self@.events, task_id),
    {
        let found = self.timeline.events_for_task(task_id);
        let mut events: Vec<Event> = Vec::new();
        let n: usize = found.len();
        for i in 0..n
            invariant
                n == found@.len(),
                found@.len() == events_of(self@.events, task_id).len(),
                forall|j: int|
                    0 <= j < found@.len() ==> *found@[j] == events_of(self@.events, task_id)[j],
                events@ == events_of(self@.events, task_id).take(i as int),
        {
            events.push(found[i].clone());
            assert(events@ =~= events_of(self@.events, task_id).take(i + 1));
        }
        assert(events_of(self@.events, task_id).take(n as int) == events_of(
            self@.events,
            task_id,
        ));
        events
    }

    fn measure(&self, task: &TaskInfo, now: Timestamp) -> (m: TaskMetrics)
        ensures
            describes(m, *task, self@.events, now),
    {
        let mut m = TaskMetrics::new(task.id, task.name.clone());
        m.total_duration = task.age(now);
        m.running_time = task.total_run_time;
        m.blocked_time = m.total_duration.saturating_sub(task.total_run_time);
        m.poll_count = task.poll_count;
        if task.poll_count > 0 {
            m.avg_poll_duration = Duration { nanos: task.total_run_time.nanos / task.poll_count };
        }
        m.completed = matches!(task.state, TaskState::Completed);
        m.await_durations = measure_waits(self.timeline.events(), task.id);
        m.await_count = m.await_durations.len() as u64;
        m
    }

    /// The figures of every task at `now`, and the paths that the tasks ran.
    pub fn build_profiler(&self, now: Timestamp) -> (profiler: Profiler)
        requires
            self.wf(),
        ensures
            profiler.wf(),
            profiler.threshold() == DEFAULT_BOTTLENECK_THRESHOLD_MS,
            profiler.metrics().len() == self@.tasks.len(),
            forall|i: int|
                0 <= i < self@.tasks.len() ==> describes(
                    #[trigger] profiler.metrics()[i],
                    self@.tasks[i],
                    self@.events,
                    now,
                ),
            profiler.paths() == paths_of(self@.tasks, now),
    {
        let mut profiler = Profiler::new();
        let n: usize = self.tasks.len();
        for i in 0..n
            invariant
                n == self.tasks@.len(),
                self.wf(),
                profiler.wf(),
                profiler.threshold() == DEFAULT_BOTTLENECK_THRESHOLD_MS,
                profiler.metrics().len() == i,
                forall|j: int|
                    0 <= j < i ==> describes(
                        #[trigger] profiler.metrics()[j],
                        self@.tasks[j],
                        self@.events,
                        now,
                    ),
                profiler.paths() == paths_of(self@.tasks.take(i as int), now),
        {
            let m = self.measure(&self.tasks[i], now);
            proof {
                let seen = profiler.metrics();
                assert forall|j: int| 0 <= j < seen.len() implies !of_task(m.task_id)(
                    #[trigger] seen[j],
                ) by {
                    assert(task_id_of()(self@.tasks[j]) != task_id_of()(self@.tasks[i as int]));
                }
                lemma_first_match_is(seen, of_task(m.task_id), seen.len() as int);
                assert(self@.tasks.take(i + 1).drop_last() == self@.tasks.take(i as int));
            }
            profiler.record_task(m);
        }
        assert(self@.tasks.take(n as int) == self@.tasks);
        profiler
    }

    /// The counts of tasks and events at `now`.
    pub fn stats(&self, now: Timestamp) -> (stats: InspectorStats)
        ensures
            stats == self@.stats(now),
    {
        let n: usize = self.tasks.len();
        let mut pending_tasks: usize = 0;
        let mut running_tasks: usize = 0;
        let mut blocked_tasks: usize = 0;
        let mut completed_tasks: usize = 0;
        let mut failed_tasks: usize = 0;
        proof {
            reveal(Seq::filter);
        }
        for i in 0..n
            invariant
                n == self.tasks@.len(),
                pending_tasks == self.tasks@.take(i as int).filter(pending()).len(),
                running_tasks == self.tasks@.take(i as int).filter(running()).len(),
                blocked_tasks == self.tasks@.take(i as int).filter(blocked()).len(),
                completed_tasks == self.tasks@.take(i as int).filter(completed()).len(),
                failed_tasks == self.tasks@.take(i as int).filter(failed()).len(),
                pending_tasks + running_tasks + blocked_tasks + completed_tasks + failed_tasks
                    == i,
        {
            proof {
                let seen = self.tasks@.take(i as int);
                let task = self.tasks@[i as int];
                assert(self.tasks@.take(i + 1) == seen.push(task));
                seen.lemma_filter_push(task, pending());
                seen.lemma_filter_push(task, running());
                seen.lemma_filter_push(task, blocked());
                seen.lemma_filter_push(task, completed());
                seen.lemma_filter_push(task, failed());
            }
            match &self.tasks[i].state {
                TaskState::Pending => {
                    pending_tasks = pending_tasks + 1;
                },
                TaskState::Running => {
                    running_tasks = running_tasks + 1;
                },
                TaskState::Blocked { .. } => {
                    blocked_tasks = blocked_tasks + 1;
                },
                TaskState::Completed => {
                    completed_tasks = completed_tasks + 1;
                },
                TaskState::Failed => {
                    failed_tasks = failed_tasks + 1;
                },
            }
        }
        assert(self.tasks@.take(n as int) == self.tasks@);
        InspectorStats {
            total_tasks: n,
            pending_tasks,
            running_tasks,
            blocked_tasks,
            completed_tasks,
            failed_tasks,
            total_events: self.timeline.len(),
            timeline_duration: self.timeline.duration(now),
        }
    }

    /// Forgets every task and every event. The identifiers go on where they
    /// were, so that none comes twice.
    pub fn clear(&mut self)
        requires
            old(self).wf(),
        ensures
            final(self).wf(),
            final(self)@ == old(self)@.cleared(),
    {
        self.tasks.clear();
        self.index.clear();
        self.timeline.clear();
        self.event_counter = 1;
        proof {
            lemma_identifiers_carry(old(self)@, self@);
        }
    }

    /// Forgets every task and every event, and turns recording on.
    pub fn reset(&mut self)
        requires
            old(self).wf(),
        ensures
            final(self).wf(),
            final(self)@ == (InspectorState { enabled: true, ..old(self)@.cleared() }),
    {
        self.clear();
        self.enable();
    }
}

} // verus!
