//! What holds of the inspector and the detector over several calls.

use vstd::prelude::*;
use crate::cycles::{are_the_deadlocks, lemma_cycle_edge, lemma_cycle_tasks_are_deadlocked, reported, CycleView};
use crate::deadlock::{DetectorState, ResourceId};
use crate::inspector::InspectorState;
use crate::task::TaskId;
use crate::time::{Duration, Timestamp};
use crate::timeline::{Event, EventId, EventKind};
use crate::waits::{await_samples, lemma_wait_is_measured, wait_log};

verus! {

/// Whatever was done with an inspector, the identifiers that its
/// registrations have returned are pairwise distinct, and a later
/// registration has returned the larger one.
pub proof fn lemma_issued_identifiers_increase(state: InspectorState, earlier: int, later: int)
    requires
        state.wf(),
        0 <= earlier < later < state.issued.len(),
    ensures
        state.issued[earlier].0 < state.issued[later].0,
        state.issued[earlier] != state.issued[later],
{
}

/// A registration returns an identifier that no registration has returned
/// before, larger than all of them, whether recording is on or off; and it
/// leaves the inspector well formed.
pub proof fn lemma_registration_issues_a_new_identifier(
    state: InspectorState,
    name: String,
    parent: Option<TaskId>,
    now: Timestamp,
)
    requires
        state.wf(),
        state.ids.has_next(),
    ensures
        state.registered(name, parent, now).wf(),
        state.registered(name, parent, now).issued == state.issued.push(TaskId(state.ids.next)),
        !state.issued.contains(TaskId(state.ids.next)),
        forall|k: int| 0 <= k < state.issued.len() ==> state.issued[k].0 < state.ids.next,
{
    let id = TaskId(state.ids.next);
    let after = state.registered(name, parent, now);
    assert(after.issued == state.issued.push(id));
    if state.issued.contains(id) {
        let k = choose|k: int| 0 <= k < state.issued.len() && state.issued[k] == id;
        assert(state.issued[k].0 < state.ids.next);
    }
    assert forall|i: int| 0 <= i < after.issued.len() implies (#[trigger] after.issued[i]).0
        < after.ids.next by {
        if i < state.issued.len() {
            assert(after.issued[i] == state.issued[i]);
        }
    }
    assert forall|i: int, j: int| 0 <= i < j < after.issued.len() implies (
    #[trigger] after.issued[i]).0 < (#[trigger] after.issued[j]).0 by {
        assert(after.issued[i] == state.issued[i]);
        if j < state.issued.len() {
            assert(after.issued[j] == state.issued[j]);
        }
    }
    if state.enabled {
        let task = crate::task::TaskInfo {
            id,
            name,
            state: crate::task::TaskState::Pending,
            created_at: now,
            last_updated: now,
            poll_count: 0,
            total_run_time: Duration { nanos: 0 },
            parent,
            location: None,
        };
        crate::lookup::lemma_upsert_keeps_distinct(
            state.tasks,
            crate::inspector::task_id_of(),
            crate::inspector::with_id(id),
            task,
        );
    }
}

/// Nothing but a registration takes or returns an identifier: every other
/// operation leaves the source of identifiers, and what was returned, as
/// they are.
pub proof fn lemma_only_registration_issues_identifiers(
    state: InspectorState,
    task: TaskId,
    info: crate::task::TaskInfo,
    kind: EventKind,
    new_state: crate::task::TaskState,
    text: String,
    note: Option<String>,
    span: Duration,
    now: Timestamp,
)
    ensures
        same_identifiers(state, state.logged(task, kind, now)),
        same_identifiers(state, state.spawned(info, now)),
        same_identifiers(state, state.state_changed(task, new_state, now)),
        same_identifiers(state, state.poll_started(task, now)),
        same_identifiers(state, state.poll_ended(task, span, now)),
        same_identifiers(state, state.await_started(task, text, note, now)),
        same_identifiers(state, state.await_ended(task, text, span, now)),
        same_identifiers(state, state.task_completed(task, now)),
        same_identifiers(state, state.task_failed(task, note, now)),
        same_identifiers(state, state.cleared()),
{
}

/// Whether two states have the same source of identifiers and the same
/// identifiers returned.
pub open spec fn same_identifiers(before: InspectorState, after: InspectorState) -> bool {
    before.ids == after.ids && before.issued == after.issued
}

/// A wait that is reported from start to end is measured once: after the
/// start and the end of a wait of one task at one await point, the task has
/// exactly one more sample, and it is the time between the two reports.
pub proof fn lemma_reported_wait_is_measured(
    state: InspectorState,
    task: TaskId,
    await_point: String,
    location: Option<String>,
    told: Duration,
    started: Timestamp,
    ended: Timestamp,
)
    requires
        state.enabled,
    ensures
        await_samples(
            state.await_started(task, await_point, location, started).await_ended(
                task,
                await_point,
                told,
                ended,
            ).events,
            task,
        ) == await_samples(state.events, task).push(ended.since(started)),
{
    let blocked = state.state_changed(
        task,
        crate::task::TaskState::Blocked { await_point },
        started,
    );
    assert(wait_log(blocked.events, task) == wait_log(state.events, task)) by {
        if blocked.events != state.events {
            assert(blocked.events.drop_last() == state.events);
        }
    }
    let start = Event {
        id: EventId(blocked.next_event_id),
        task_id: task,
        timestamp: started,
        kind: EventKind::AwaitStarted { await_point, location },
    };
    let waiting = blocked.logged(task, start.kind, started);
    let end = Event {
        id: EventId(waiting.next_event_id),
        task_id: task,
        timestamp: ended,
        kind: EventKind::AwaitEnded { await_point, duration: told },
    };
    lemma_wait_is_measured(blocked.events, start, end);
}

/// To clear twice is to clear once, and after it there are no tasks and no
/// events, whatever was there before.
pub proof fn lemma_clear_is_idempotent(state: InspectorState)
    ensures
        state.cleared().cleared() == state.cleared(),
        state.cleared().tasks.len() == 0,
        state.cleared().events.len() == 0,
{
}

/// Where no task is deadlocked, the detector reports nothing.
pub proof fn lemma_nothing_to_report(state: DetectorState, cycles: Seq<CycleView>)
    requires
        are_the_deadlocks(state, cycles),
        forall|task: TaskId| !state.deadlocked(task),
    ensures
        cycles.len() == 0,
{
    if cycles.len() > 0 {
        let c = cycles[0];
        assert(state.is_cycle(c));
        assert(c.tasks.contains(c.tasks[0]));
        lemma_cycle_tasks_are_deadlocked(state, c, c.tasks[0]);
    }
}

/// A task that waits for a resource that nobody holds, or for one that is
/// not known, or that does not wait, is in no cycle that the detector
/// reports.
pub proof fn lemma_free_task_is_not_reported(state: DetectorState, cycles: Seq<CycleView>, task: TaskId)
    requires
        are_the_deadlocks(state, cycles),
        state.blocker(task).is_none(),
    ensures
        !reported(cycles, task),
{
    if reported(cycles, task) {
        let i = choose|i: int| 0 <= i < cycles.len() && (#[trigger] cycles[i]).tasks.contains(task);
        lemma_cycle_tasks_are_deadlocked(state, cycles[i], task);
        crate::cycles::lemma_free_task(state, task);
    }
}

/// Two tasks that each hold what the other waits for are reported as one
/// cycle: where the first task waits for a resource that the second holds,
/// the second waits for a resource that the first holds, and nobody else
/// is blocked, the detector reports exactly one cycle, of exactly these two
/// tasks and these two resources.
pub proof fn lemma_two_tasks_in_deadlock(
    state: DetectorState,
    cycles: Seq<CycleView>,
    first: TaskId,
    second: TaskId,
    held_by_first: ResourceId,
    held_by_second: ResourceId,
)
    requires
        are_the_deadlocks(state, cycles),
        first != second,
        state.waits_for(first) == Some(held_by_second),
        state.holder_of(held_by_second) == Some(second),
        state.waits_for(second) == Some(held_by_first),
        state.holder_of(held_by_first) == Some(first),
        forall|other: TaskId| other != first && other != second ==> state.blocker(other).is_none(),
    ensures
        cycles.len() == 1,
        cycles[0].tasks.len() == 2,
        cycles[0].tasks.contains(first),
        cycles[0].tasks.contains(second),
        cycles[0].resources.len() == 2,
        cycles[0].resources.contains(held_by_first),
        cycles[0].resources.contains(held_by_second),
{
    assert(state.blocker(first) == Some(second));
    assert(state.blocker(second) == Some(first));
    assert(state.walk(first, 2) == Some(first)) by {
        assert(state.walk(first, 0) == Some(first));
        assert(state.walk(second, 1) == Some(first));
    }
    assert(state.deadlocked(first));
    assert(reported(cycles, first));
    // every cycle is made of the two tasks, and holds both
    assert forall|i: int| 0 <= i < cycles.len() implies (#[trigger] cycles[i]).tasks.contains(first)
        && cycles[i].tasks.contains(second) && cycles[i].tasks.len() == 2 && cycles[i].resources.contains(
        held_by_first,
    ) && cycles[i].resources.contains(held_by_second) by {
        let c = cycles[i];
        let n = c.tasks.len() as int;
        assert(state.is_cycle(c));
        assert forall|k: int| 0 <= k < n implies c.tasks[k] == first || c.tasks[k] == second by {
            assert(c.tasks.contains(c.tasks[k]));
            lemma_cycle_tasks_are_deadlocked(state, c, c.tasks[k]);
            if c.tasks[k] != first && c.tasks[k] != second {
                crate::cycles::lemma_free_task(state, c.tasks[k]);
            }
        }
        lemma_cycle_edge(state, c, 0);
        assert(state.links(c, 0));
        if n == 1 {
            assert(crate::cycles::next_place(0, n) == 0);
            assert(false);
        }
        if n > 2 {
            // three places, two tasks
            assert(c.tasks[0] != c.tasks[1] && c.tasks[0] != c.tasks[2] && c.tasks[1]
                != c.tasks[2]);
            assert(false);
        }
        assert(n == 2);
        assert(c.tasks[0] != c.tasks[1]);
        assert(state.links(c, 1));
        if c.tasks[0] == first {
            assert(c.tasks[1] == second);
            assert(c.resources[0] == held_by_second && c.resources[1] == held_by_first);
        } else {
            assert(c.tasks[0] == second && c.tasks[1] == first);
            assert(c.resources[0] == held_by_first && c.resources[1] == held_by_second);
        }
    }
    if cycles.len() > 1 {
        assert(cycles[0].tasks.contains(first) && cycles[1].tasks.contains(first));
        assert(false);
    }
}

} // verus!
