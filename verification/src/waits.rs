//! Measuring waits: how the ends of waits in a timeline are matched with
//! their starts.
//!
//! A task may wait at several await points at once, and more than once at
//! one of them. The end of a wait belongs to the latest start at the same
//! await point, of the same task, that has no end yet. A start without an
//! end is not measured, and an end without a start is passed over.

use vstd::prelude::*;
use crate::lookup::{last_match, lemma_last_match_is};
use crate::task::TaskId;
use crate::time::{Duration, Timestamp};
use crate::timeline::{Event, EventKind};

verus! {

/// A wait that has begun and not ended: its await point and its start.
pub struct OpenWait {
    pub label: Seq<char>,
    pub started: Timestamp,
}

/// What is known of a task's waits after a part of the timeline.
pub struct WaitLog {
    /// The waits that have not ended, oldest first.
    pub open: Seq<OpenWait>,
    /// The lengths of the waits that have ended, in the order of their ends.
    pub samples: Seq<Duration>,
}

/// The waits at the await point `label`.
pub open spec fn at_point(label: Seq<char>) -> spec_fn(OpenWait) -> bool {
    |w: OpenWait| w.label == label
}

/// The log after one more event of the task.
pub open spec fn wait_step(log: WaitLog, event: Event) -> WaitLog {
    match event.kind {
        EventKind::AwaitStarted { await_point, .. } => WaitLog {
            open: log.open.push(OpenWait { label: await_point@, started: event.timestamp }),
            ..log
        },
        EventKind::AwaitEnded { await_point, .. } => {
            let i = last_match(log.open, at_point(await_point@));
            if i >= 0 {
                WaitLog {
                    open: log.open.remove(i),
                    samples: log.samples.push(event.timestamp.since(log.open[i].started)),
                }
            } else {
                log
            }
        },
        _ => log,
    }
}

/// The log of the waits of `task` after `events`.
pub open spec fn wait_log(events: Seq<Event>, task: TaskId) -> WaitLog
    decreases events.len(),
{
    if events.len() == 0 {
        WaitLog { open: Seq::empty(), samples: Seq::empty() }
    } else {
        let log = wait_log(events.drop_last(), task);
        if events.last().task_id == task {
            wait_step(log, events.last())
        } else {
            log
        }
    }
}

/// The lengths of the finished waits of `task` in `events`.
pub open spec fn await_samples(events: Seq<Event>, task: TaskId) -> Seq<Duration> {
    wait_log(events, task).samples
}

/// The await point at which the event starts a wait, if it starts one.
pub open spec fn started_at(event: Event) -> Option<Seq<char>> {
    match event.kind {
        EventKind::AwaitStarted { await_point, .. } => Some(await_point@),
        _ => None,
    }
}

/// A wait that starts and then ends is measured once: whatever the timeline
/// held before, the start of a wait followed by its end adds exactly one
/// sample for the task, the time between the two events, and leaves the open
/// waits as they were.
pub proof fn lemma_wait_is_measured(events: Seq<Event>, start: Event, end: Event)
    requires
        start.task_id == end.task_id,
        start.kind is AwaitStarted,
        end.kind is AwaitEnded,
        started_at(start) == Some(end.kind->AwaitEnded_await_point@),
    ensures
        wait_log(events.push(start).push(end), start.task_id) == (WaitLog {
            open: wait_log(events, start.task_id).open,
            samples: wait_log(events, start.task_id).samples.push(
                end.timestamp.since(start.timestamp),
            ),
        }),
{
    let task = start.task_id;
    let before = wait_log(events, task);
    let one = events.push(start);
    let two = one.push(end);
    assert(one.drop_last() == events);
    assert(two.drop_last() == one);
    let label = end.kind->AwaitEnded_await_point@;
    let mid = wait_log(one, task);
    assert(mid.open == before.open.push(OpenWait { label, started: start.timestamp }));
    lemma_last_match_is(mid.open, at_point(label), before.open.len() as int);
    assert(mid.open.remove(before.open.len() as int) =~= before.open);
}

/// An event of another task changes nothing in the log of this one.
pub proof fn lemma_other_task_is_ignored(events: Seq<Event>, event: Event, task: TaskId)
    requires
        event.task_id != task,
    ensures
        wait_log(events.push(event), task) == wait_log(events, task),
{
    assert(events.push(event).drop_last() == events);
}

fn starts_wait_at(event: &Event, label: &String) -> (same: bool)
    ensures
        same == (started_at(*event) == Some(label@)),
{
    match &event.kind {
        EventKind::AwaitStarted { await_point, .. } => *await_point == *label,
        _ => false,
    }
}

/// Measures the finished waits of `task_id` in `events`.
pub fn measure_waits(events: &[Event], task_id: TaskId) -> (samples: Vec<Duration>)
    ensures
        samples@ == await_samples(events@, task_id),
{
    let n: usize = events.len();
    let mut open: Vec<usize> = Vec::new();
    let mut samples: Vec<Duration> = Vec::new();
    for i in 0..n
        invariant
            n == events@.len(),
            samples@ == wait_log(events@.take(i as int), task_id).samples,
            open@.len() == wait_log(events@.take(i as int), task_id).open.len(),
            forall|k: int|
                0 <= k < open@.len() ==> {
                    &&& (#[trigger] open@[k]) < i
                    &&& started_at(events@[open@[k] as int]) == Some(
                        wait_log(events@.take(i as int), task_id).open[k].label,
                    )
                    &&& events@[open@[k] as int].timestamp == wait_log(
                        events@.take(i as int),
                        task_id,
                    ).open[k].started
                },
    {
        let ghost before = wait_log(events@.take(i as int), task_id);
        proof {
            assert(events@.take(i + 1).drop_last() == events@.take(i as int));
            assert(events@.take(i + 1).last() == events@[i as int]);
        }
        if events[i].task_id == task_id {
            match &events[i].kind {
                EventKind::AwaitStarted { .. } => {
                    open.push(i);
                },
                EventKind::AwaitEnded { await_point, .. } => {
                    let mut k: usize = open.len();
                    while k > 0 && !starts_wait_at(&events[open[k - 1]], await_point)
                        invariant
                            n == events@.len(),
                            i < n,
                            k <= open@.len(),
                            open@.len() == before.open.len(),
                            forall|j: int|
                                0 <= j < open@.len() ==> {
                                    &&& (#[trigger] open@[j]) < i
                                    &&& started_at(events@[open@[j] as int]) == Some(
                                        before.open[j].label,
                                    )
                                },
                            forall|j: int|
                                k <= j < open@.len() ==> !at_point(await_point@)(
                                    #[trigger] before.open[j],
                                ),
                        decreases k,
                    {
                        k = k - 1;
                    }
                    proof {
                        lemma_last_match_is(before.open, at_point(await_point@), k as int - 1);
                    }
                    if k > 0 {
                        let start: usize = open.remove(k - 1);
                        samples.push(events[i].timestamp.duration_since(events[start].timestamp));
                    }
                },
                _ => {},
            }
        }
    }
    assert(events@.take(n as int) == events@);
    samples
}

} // verus!
