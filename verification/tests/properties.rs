use async_inspect::config::Config;
use async_inspect::deadlock::{DeadlockDetector, ResourceId, ResourceInfo, ResourceKind, WaitEdge};
use async_inspect::export::CsvExporter;
use async_inspect::graph::{Relationship, RelationshipType, TaskGraph};
use async_inspect::ids::IdGenerator;
use async_inspect::integrations::tokio_console::ConsoleIntegrationConfig;
use async_inspect::inspector::Inspector;
use async_inspect::instrument::{
    current_task_id, inspect_await_end, inspect_await_start, set_current_task_id, AwaitGuard,
    InspectContext, PollGuard, TaskContext,
};
use async_inspect::profile::{Profiler, TaskMetrics};
use async_inspect::runtime::tokio::TrackedFuture;
use async_inspect::stats::DurationStats;
use async_inspect::task::{TaskId, TaskInfo, TaskState};
use async_inspect::time::{Duration, Timestamp};
use async_inspect::timeline::{EventId, EventKind};
use async_inspect::tui::{FilterMode, SortMode};

fn at(millis: u64) -> Timestamp {
    Timestamp::from_nanos(millis * 1_000_000)
}

fn ms(millis: u64) -> Duration {
    Duration::from_millis(millis)
}

fn edge(from: u64, to: u64, kind: RelationshipType, resource: Option<&str>) -> Relationship {
    Relationship {
        from: TaskId::from_u64(from),
        to: TaskId::from_u64(to),
        relationship_type: kind,
        resource_name: resource.map(|r| r.to_string()),
        data_description: None,
    }
}

fn known(graph: &mut TaskGraph, id: u64, name: &str, state: TaskState) {
    graph.add_task(TaskInfo {
        id: TaskId::from_u64(id),
        name: name.to_string(),
        state,
        created_at: at(0),
        last_updated: at(0),
        poll_count: 0,
        total_run_time: Duration::zero(),
        parent: None,
        location: None,
    });
}

fn ids_of(tasks: &[TaskId]) -> Vec<u64> {
    tasks.iter().map(|t| t.as_u64()).collect()
}

// Identifiers

#[test]
fn registered_identifiers_are_distinct_and_increase() {
    let mut inspector = Inspector::new();
    let mut seen: Vec<u64> = Vec::new();
    for i in 0..5 {
        let id = inspector.register_task(format!("task{}", i), at(i));
        seen.push(id.as_u64());
    }
    assert_eq!(seen, vec![1, 2, 3, 4, 5]);
}

#[test]
fn a_disabled_inspector_still_hands_out_new_identifiers() {
    let mut inspector = Inspector::new();
    inspector.disable();
    let first = inspector.register_task("a".to_string(), at(0));
    let second = inspector.register_child_task("b".to_string(), first, at(1));
    assert_eq!(first.as_u64(), 1);
    assert_eq!(second.as_u64(), 2);
    assert!(inspector.get_all_tasks().is_empty());
    assert!(inspector.get_events().is_empty());
    inspector.enable();
    let third = inspector.register_task("c".to_string(), at(2));
    assert_eq!(third.as_u64(), 3);
    assert_eq!(inspector.get_all_tasks().len(), 1);
}

#[test]
fn the_generator_gives_out_until_one_value_is_left() {
    let mut ids = IdGenerator { next: u64::MAX - 2 };
    assert!(ids.can_allocate());
    assert_eq!(TaskId::new(&mut ids).as_u64(), u64::MAX - 2);
    assert!(ids.can_allocate());
    assert_eq!(ResourceId::new(&mut ids).as_u64(), u64::MAX - 1);
    assert!(!ids.can_allocate());
    assert!(Inspector::new().can_register());
}

#[test]
fn identifiers_are_written_with_their_marks() {
    assert_eq!(TaskId::from_u64(42).to_string(), "#42");
    assert_eq!(TaskId::from_u64(0).to_string(), "#0");
    assert_eq!(TaskId::from_u64(u64::MAX).to_string(), "#18446744073709551615");
    let mut ids = IdGenerator { next: 7 };
    assert_eq!(ResourceId::new(&mut ids).to_string(), "Resource#7");
}

#[test]
fn states_and_kinds_are_written_by_name() {
    assert_eq!(TaskState::Pending.to_string(), "PENDING");
    assert_eq!(TaskState::Running.to_string(), "RUNNING");
    assert_eq!(
        TaskState::Blocked { await_point: "io".to_string() }.to_string(),
        "BLOCKED(io)"
    );
    assert_eq!(TaskState::Completed.to_string(), "COMPLETED");
    assert_eq!(TaskState::Failed.to_string(), "FAILED");
    assert_eq!(ResourceKind::Mutex.to_string(), "Mutex");
    assert_eq!(ResourceKind::RwLock.to_string(), "RwLock");
    assert_eq!(ResourceKind::Semaphore.to_string(), "Semaphore");
    assert_eq!(ResourceKind::Channel.to_string(), "Channel");
    assert_eq!(ResourceKind::Other("pool".to_string()).to_string(), "pool");
    assert_eq!(RelationshipType::ChannelSend.to_string(), "sends →");
    assert_eq!(RelationshipType::ChannelReceive.to_string(), "← receives");
    assert_eq!(RelationshipType::Dependency.to_string(), "depends on");
    assert_eq!(EventKind::PollStarted.kind_name(), "PollStarted");
    assert_eq!(EventKind::TaskFailed { error: None }.kind_name(), "TaskFailed");
}

// Time

#[test]
fn durations_convert_and_saturate() {
    assert_eq!(Duration::from_millis(10).as_nanos(), 10_000_000);
    assert_eq!(Duration::from_micros(3).as_nanos(), 3_000);
    assert_eq!(Duration::from_secs(2).as_millis(), 2_000);
    assert_eq!(Duration::from_nanos(1_999_999).as_millis(), 1);
    assert_eq!(Duration::from_nanos(1_999_999).as_micros(), 1_999);
    assert_eq!(Duration::from_secs(u64::MAX).as_nanos(), u64::MAX);
    assert_eq!(Duration::from_nanos(u64::MAX).saturating_add(ms(1)).as_nanos(), u64::MAX);
    assert_eq!(ms(1).saturating_sub(ms(2)), Duration::zero());
    assert_eq!(ms(5).saturating_sub(ms(2)), ms(3));
    assert!(Duration::zero().is_zero());
    assert!(!ms(1).is_zero());
}

#[test]
fn the_time_since_a_later_point_is_nothing() {
    assert_eq!(at(5).duration_since(at(2)), ms(3));
    assert_eq!(at(2).duration_since(at(5)), Duration::zero());
}

// Registry and timeline

#[test]
fn every_change_of_state_has_its_event() {
    let mut inspector = Inspector::new();
    let id = inspector.register_task("worker".to_string(), at(0));
    inspector.update_task_state(id, TaskState::Running, at(1));
    let events = inspector.get_events();
    assert_eq!(events.len(), 2);
    assert_eq!(events[0].id, EventId::new(1));
    assert_eq!(events[1].id, EventId::new(2));
    assert!(matches!(events[0].kind, EventKind::TaskSpawned { .. }));
    match &events[1].kind {
        EventKind::StateChanged { old_state, new_state } => {
            assert_eq!(*old_state, TaskState::Pending);
            assert_eq!(*new_state, TaskState::Running);
        }
        _ => panic!("the second event is the change of state"),
    }
    assert_eq!(events[1].timestamp, at(1));
    let task = inspector.get_task(id).unwrap();
    assert_eq!(task.state, TaskState::Running);
    assert_eq!(task.last_updated, at(1));
}

#[test]
fn an_unknown_task_changes_nothing() {
    let mut inspector = Inspector::new();
    inspector.update_task_state(TaskId::from_u64(99), TaskState::Running, at(1));
    inspector.task_completed(TaskId::from_u64(99), at(2));
    assert!(inspector.get_events().is_empty());
    assert!(inspector.get_task(TaskId::from_u64(99)).is_none());
    // a poll of an unknown task is logged, as is its failure
    inspector.poll_started(TaskId::from_u64(99), at(3));
    inspector.poll_ended(TaskId::from_u64(99), ms(1), at(4));
    inspector.task_failed(TaskId::from_u64(99), Some("gone".to_string()), at(5));
    assert_eq!(inspector.get_events().len(), 3);
    assert!(inspector.get_all_tasks().is_empty());
}

#[test]
fn polls_add_up_without_changing_the_state() {
    let mut inspector = Inspector::new();
    let id = inspector.register_task("poller".to_string(), at(0));
    inspector.poll_ended(id, ms(10), at(10));
    inspector.poll_ended(id, ms(5), at(20));
    let task = inspector.get_task(id).unwrap();
    assert_eq!(task.poll_count, 2);
    assert_eq!(task.total_run_time, ms(15));
    assert_eq!(task.state, TaskState::Pending);
    assert_eq!(task.age(at(30)), ms(30));
    assert_eq!(task.time_since_update(at(30)), ms(10));
}

#[test]
fn children_know_their_parents() {
    let mut inspector = Inspector::new();
    let parent = inspector.register_task("parent".to_string(), at(0));
    let child = inspector.register_child_task("child".to_string(), parent, at(1));
    assert_eq!(inspector.get_task(child).unwrap().parent, Some(parent));
    let events = inspector.get_task_events(child);
    assert_eq!(events.len(), 1);
    match &events[0].kind {
        EventKind::TaskSpawned { name, parent: p, location } => {
            assert_eq!(name, "child");
            assert_eq!(*p, Some(parent));
            assert_eq!(*location, None);
        }
        _ => panic!("the event is the creation"),
    }
}

#[test]
fn a_task_registered_twice_has_one_entry() {
    let mut ids = IdGenerator::new();
    let mut inspector = Inspector::new();
    let task = TaskInfo::new("first".to_string(), &mut ids, at(0))
        .with_location("main.rs:1".to_string());
    let id = task.id;
    inspector.register_task_with_info(task, at(0));
    let mut again = TaskInfo::new("second".to_string(), &mut ids, at(1));
    again.id = id;
    inspector.register_task_with_info(again, at(1));
    assert_eq!(inspector.get_all_tasks().len(), 1);
    assert_eq!(inspector.get_task(id).unwrap().name, "second");
    assert_eq!(inspector.get_events().len(), 2);
}

#[test]
fn events_of_a_task_keep_their_order() {
    let mut inspector = Inspector::new();
    let a = inspector.register_task("a".to_string(), at(0));
    let b = inspector.register_task("b".to_string(), at(1));
    inspector.inspection_point(a, "one".to_string(), None, at(2));
    inspector.inspection_point(b, "two".to_string(), Some("note".to_string()), at(3));
    inspector.inspection_point(a, "three".to_string(), None, at(4));
    let events = inspector.get_task_events(a);
    let ids: Vec<EventId> = events.iter().map(|e| e.id).collect();
    assert_eq!(ids, vec![EventId::new(1), EventId::new(3), EventId::new(5)]);
}

#[test]
fn clearing_leaves_nothing() {
    let mut inspector = Inspector::new();
    let id = inspector.register_task("a".to_string(), at(0));
    inspector.poll_started(id, at(1));
    inspector.clear();
    assert!(inspector.get_all_tasks().is_empty());
    assert!(inspector.get_events().is_empty());
    inspector.clear();
    assert!(inspector.get_all_tasks().is_empty());
    assert!(inspector.get_events().is_empty());
    // identifiers go on, events count from one again
    let next = inspector.register_task("b".to_string(), at(2));
    assert_eq!(next.as_u64(), 2);
    assert_eq!(inspector.get_events()[0].id, EventId::new(1));
}

#[test]
fn reset_turns_recording_on() {
    let mut inspector = Inspector::new();
    inspector.register_task("a".to_string(), at(0));
    inspector.disable();
    assert!(!inspector.is_enabled());
    inspector.reset();
    assert!(inspector.is_enabled());
    assert!(inspector.get_all_tasks().is_empty());
}

#[test]
fn stats_count_the_tasks_by_state() {
    let mut inspector = Inspector::new();
    let a = inspector.register_task("a".to_string(), at(10));
    let b = inspector.register_task("b".to_string(), at(11));
    let c = inspector.register_task("c".to_string(), at(12));
    let d = inspector.register_task("d".to_string(), at(13));
    inspector.register_task("e".to_string(), at(14));
    inspector.poll_started(a, at(15));
    inspector.await_started(b, "lock".to_string(), None, at(16));
    inspector.task_completed(c, at(17));
    inspector.task_failed(d, None, at(18));
    let stats = inspector.stats(at(110));
    assert_eq!(stats.total_tasks, 5);
    assert_eq!(stats.pending_tasks, 1);
    assert_eq!(stats.running_tasks, 1);
    assert_eq!(stats.blocked_tasks, 1);
    assert_eq!(stats.completed_tasks, 1);
    assert_eq!(stats.failed_tasks, 1);
    assert_eq!(stats.total_events, 5 + 2 + 2 + 2 + 2);
    assert_eq!(stats.timeline_duration, ms(100));
    assert_eq!(Inspector::new().stats(at(5)).timeline_duration, Duration::zero());
}

// Waits

#[test]
fn a_wait_is_measured_by_the_gap_between_its_events() {
    let mut inspector = Inspector::new();
    let id = inspector.register_task("waiter".to_string(), at(0));
    inspector.await_started(id, "fetch".to_string(), None, at(100));
    inspector.await_ended(id, "fetch".to_string(), ms(1), at(350));
    let profiler = inspector.build_profiler(at(400));
    let metrics = profiler.get_task_metrics(&id).unwrap();
    assert_eq!(metrics.await_durations, vec![ms(250)]);
    assert_eq!(metrics.await_count, 1);
}

#[test]
fn waits_are_matched_by_await_point_latest_first() {
    let mut inspector = Inspector::new();
    let id = inspector.register_task("waiter".to_string(), at(0));
    let other = inspector.register_task("other".to_string(), at(0));
    inspector.await_started(id, "a".to_string(), None, at(10));
    inspector.await_started(id, "b".to_string(), None, at(20));
    inspector.await_started(id, "a".to_string(), None, at(30));
    inspector.await_started(other, "a".to_string(), None, at(35));
    inspector.await_ended(id, "a".to_string(), ms(0), at(40)); // from 30
    inspector.await_ended(id, "c".to_string(), ms(0), at(45)); // never started
    inspector.await_ended(id, "a".to_string(), ms(0), at(50)); // from 10
    inspector.await_ended(id, "a".to_string(), ms(0), at(60)); // nothing open
    let profiler = inspector.build_profiler(at(100));
    let metrics = profiler.get_task_metrics(&id).unwrap();
    assert_eq!(metrics.await_durations, vec![ms(10), ms(40)]);
    assert_eq!(metrics.await_count, 2);
    // "b" never ended, and the other task's wait is its own
    assert!(profiler.get_task_metrics(&other).unwrap().await_durations.is_empty());
}

#[test]
fn the_profiler_takes_its_figures_from_the_registry() {
    let mut inspector = Inspector::new();
    let id = inspector.register_task("job".to_string(), at(0));
    inspector.poll_ended(id, ms(30), at(40));
    inspector.poll_ended(id, ms(50), at(90));
    inspector.task_completed(id, at(100));
    let idle = inspector.register_task("idle".to_string(), at(100));
    let profiler = inspector.build_profiler(at(200));
    let metrics = profiler.get_task_metrics(&id).unwrap();
    assert_eq!(metrics.name, "job");
    assert_eq!(metrics.total_duration, ms(200));
    assert_eq!(metrics.running_time, ms(80));
    assert_eq!(metrics.blocked_time, ms(120));
    assert_eq!(metrics.poll_count, 2);
    assert_eq!(metrics.avg_poll_duration, ms(40));
    assert!(metrics.completed);
    let parts = metrics.efficiency_parts();
    assert_eq!((parts.num, parts.den), (80_000_000, 200_000_000));
    let none = profiler.get_task_metrics(&idle).unwrap();
    assert_eq!(none.avg_poll_duration, Duration::zero());
    assert!(!none.completed);
    assert!(profiler.get_task_metrics(&TaskId::from_u64(77)).is_none());
}

#[test]
fn blocked_time_is_never_negative() {
    let mut inspector = Inspector::new();
    let id = inspector.register_task("skewed".to_string(), at(0));
    inspector.poll_ended(id, ms(500), at(1));
    let profiler = inspector.build_profiler(at(100));
    let metrics = profiler.get_task_metrics(&id).unwrap();
    assert_eq!(metrics.total_duration, ms(100));
    assert_eq!(metrics.running_time, ms(500));
    assert_eq!(metrics.blocked_time, Duration::zero());
}

#[test]
fn a_task_without_age_has_no_efficiency() {
    let metrics = TaskMetrics::new(TaskId::from_u64(1), "new".to_string());
    let parts = metrics.efficiency_parts();
    assert_eq!((parts.num, parts.den), (0, 1));
}

// Statistics

#[test]
fn statistics_of_nothing_are_zero() {
    let stats = DurationStats::from_durations(Vec::new());
    assert_eq!(stats.count, 0);
    assert_eq!(stats.min, Duration::zero());
    assert_eq!(stats.max, Duration::zero());
    assert_eq!(stats.mean, Duration::zero());
    assert_eq!(stats.median, Duration::zero());
    assert_eq!(stats.p95, Duration::zero());
    assert_eq!(stats.p99, Duration::zero());
}

#[test]
fn statistics_do_not_depend_on_the_order() {
    let stats = DurationStats::from_durations(vec![ms(50), ms(10), ms(40), ms(20), ms(30)]);
    assert_eq!(stats.min, ms(10));
    assert_eq!(stats.max, ms(50));
    assert_eq!(stats.mean, ms(30));
    assert_eq!(stats.median, ms(30));
    assert_eq!(stats.p95, ms(50));
    assert_eq!(stats.p99, ms(50));
    assert_eq!(stats.count, 5);
}

#[test]
fn the_median_of_an_even_number_is_the_mean_of_the_middle() {
    let stats = DurationStats::from_durations(vec![ms(40), ms(10), ms(20), ms(30)]);
    assert_eq!(stats.median, ms(25));
    assert_eq!(stats.mean, ms(25));
    let odd = DurationStats::from_durations(vec![
        Duration::from_nanos(1),
        Duration::from_nanos(2),
    ]);
    assert_eq!(odd.median, Duration::from_nanos(1));
    assert_eq!(odd.mean, Duration::from_nanos(1));
}

#[test]
fn percentiles_pick_by_place() {
    let mut durations: Vec<Duration> = Vec::new();
    for i in 1..=100u64 {
        durations.push(ms(101 - i));
    }
    let stats = DurationStats::from_durations(durations);
    assert_eq!(stats.count, 100);
    assert_eq!(stats.min, ms(1));
    assert_eq!(stats.max, ms(100));
    assert_eq!(stats.p95, ms(96));
    assert_eq!(stats.p99, ms(100));
    assert_eq!(stats.median, Duration::from_nanos(50_500_000));
    let one = DurationStats::from_durations(vec![ms(7)]);
    assert_eq!((one.min, one.max, one.median, one.p95, one.p99), (ms(7), ms(7), ms(7), ms(7), ms(7)));
    let twenty: Vec<Duration> = (1..=20u64).map(ms).collect();
    let stats = DurationStats::from_durations(twenty);
    assert_eq!(stats.p95, ms(20));
    assert_eq!(stats.p99, ms(20));
}

#[test]
fn the_mean_of_the_largest_durations_does_not_overflow() {
    let top = Duration::from_nanos(u64::MAX);
    let stats = DurationStats::from_durations(vec![top, top, top]);
    assert_eq!(stats.mean, top);
    assert_eq!(stats.median, top);
}

// Profiler

fn metrics(id: u64, name: &str, total_ms: u64, running_ms: u64, polls: u64) -> TaskMetrics {
    let mut m = TaskMetrics::new(TaskId::from_u64(id), name.to_string());
    m.total_duration = ms(total_ms);
    m.running_time = ms(running_ms);
    m.poll_count = polls;
    m
}

fn names(list: &[&TaskMetrics]) -> Vec<String> {
    list.iter().map(|m| m.name.clone()).collect()
}

#[test]
fn rankings_keep_the_order_of_equals() {
    let mut profiler = Profiler::new();
    profiler.record_task(metrics(1, "a", 100, 50, 3));
    profiler.record_task(metrics(2, "b", 300, 30, 9));
    profiler.record_task(metrics(3, "c", 100, 100, 9));
    profiler.record_task(metrics(4, "d", 300, 150, 1));
    profiler.record_task(metrics(5, "e", 0, 0, 3));
    assert_eq!(names(&profiler.slowest_tasks(3)), vec!["b", "d", "a"]);
    assert_eq!(names(&profiler.slowest_tasks(10)), vec!["b", "d", "a", "c", "e"]);
    assert_eq!(names(&profiler.busiest_tasks(4)), vec!["b", "c", "a", "e"]);
    // efficiencies: a 1/2, b 1/10, c 1, d 1/2, e 0
    assert_eq!(names(&profiler.least_efficient_tasks(5)), vec!["e", "b", "a", "d", "c"]);
    assert!(profiler.slowest_tasks(0).is_empty());
    assert_eq!(names(&profiler.all_metrics()), vec!["a", "b", "c", "d", "e"]);
}

#[test]
fn bottlenecks_are_over_the_threshold() {
    let mut profiler = Profiler::new();
    profiler.record_task(metrics(1, "quick", 100, 0, 0));
    profiler.record_task(metrics(2, "slow", 101, 0, 0));
    profiler.record_task(metrics(3, "slower", 500, 0, 0));
    assert_eq!(names(&profiler.identify_bottlenecks()), vec!["slow", "slower"]);
    profiler.set_bottleneck_threshold(400);
    assert_eq!(names(&profiler.identify_bottlenecks()), vec!["slower"]);
}

#[test]
fn hot_paths_count_the_runs_of_a_name() {
    let mut profiler = Profiler::new();
    profiler.record_task(metrics(1, "fetch", 100, 0, 0));
    profiler.record_task(metrics(2, "parse", 10, 0, 0));
    profiler.record_task(metrics(3, "fetch", 300, 0, 0));
    profiler.record_task(metrics(4, "store", 20, 0, 0));
    let hot = profiler.get_hot_paths();
    let listed: Vec<(String, u64, Duration, Duration)> = hot
        .iter()
        .map(|h| (h.path.clone(), h.execution_count, h.total_time, h.avg_time))
        .collect();
    assert_eq!(
        listed,
        vec![
            ("fetch".to_string(), 2, ms(400), ms(200)),
            ("parse".to_string(), 1, ms(10), ms(10)),
            ("store".to_string(), 1, ms(20), ms(20)),
        ]
    );
}

#[test]
fn later_figures_of_a_task_replace_earlier_ones() {
    let mut profiler = Profiler::new();
    profiler.record_task(metrics(1, "a", 100, 0, 0));
    profiler.record_task(metrics(2, "b", 200, 0, 0));
    profiler.record_task(metrics(1, "a", 150, 0, 0));
    assert_eq!(profiler.all_metrics().len(), 2);
    assert_eq!(profiler.get_task_metrics(&TaskId::from_u64(1)).unwrap().total_duration, ms(150));
    assert_eq!(names(&profiler.all_metrics()), vec!["a", "b"]);
    assert_eq!(profiler.get_hot_paths()[0].execution_count, 2);
}

#[test]
fn overall_statistics_cover_all_tasks_and_waits() {
    let mut profiler = Profiler::new();
    let mut a = metrics(1, "a", 10, 0, 0);
    a.await_durations = vec![ms(4), ms(2)];
    let mut b = metrics(2, "b", 30, 0, 0);
    b.await_durations = vec![ms(6)];
    profiler.record_task(a);
    profiler.record_task(b);
    let stats = profiler.calculate_stats();
    assert_eq!((stats.count, stats.min, stats.max, stats.mean), (2, ms(10), ms(30), ms(20)));
    let waits = profiler.await_stats();
    assert_eq!((waits.count, waits.min, waits.max, waits.median), (3, ms(2), ms(6), ms(4)));
    assert_eq!(Profiler::new().calculate_stats().count, 0);
}

// Deadlocks

struct Scene {
    detector: DeadlockDetector,
    resources: Vec<ResourceId>,
}

fn scene(count: usize) -> Scene {
    let mut ids = IdGenerator::new();
    let mut detector = DeadlockDetector::new();
    let mut resources = Vec::new();
    for i in 0..count {
        let info = ResourceInfo::new(ResourceKind::Mutex, format!("r{}", i), &mut ids);
        resources.push(detector.register_resource(info));
    }
    Scene { detector, resources }
}

fn task(id: u64) -> TaskId {
    TaskId::from_u64(id)
}

#[test]
fn two_tasks_that_hold_what_the_other_wants_are_one_cycle() {
    let Scene { mut detector, resources } = scene(2);
    let (r1, r2) = (resources[0], resources[1]);
    detector.acquire(task(1), r1);
    detector.wait_for(task(1), r2);
    detector.acquire(task(2), r2);
    detector.wait_for(task(2), r1);
    let cycles = detector.detect_deadlocks();
    assert_eq!(cycles.len(), 1);
    let cycle = &cycles[0];
    assert_eq!(ids_of(&cycle.tasks), vec![1, 2]);
    assert_eq!(cycle.resources, vec![r2, r1]);
    assert_eq!(
        cycle.chain,
        vec![
            WaitEdge { task: task(1), resource: r2, holder: task(2) },
            WaitEdge { task: task(2), resource: r1, holder: task(1) },
        ]
    );
    assert_eq!(
        cycle.describe(),
        "Deadlock cycle detected:\n  → Task #1 → Resource#2 → Task #2\n    Task #2 → Resource#1 → Task #1\n\n2 tasks and 2 resources involved"
    );
    // detection changes nothing
    assert_eq!(detector.detect_deadlocks().len(), 1);
}

#[test]
fn a_release_before_the_wait_is_no_deadlock() {
    let Scene { mut detector, resources } = scene(2);
    let (r1, r2) = (resources[0], resources[1]);
    detector.acquire(task(1), r1);
    detector.wait_for(task(1), r2);
    detector.acquire(task(2), r2);
    detector.release(task(1), r1);
    detector.wait_for(task(2), r1);
    assert!(detector.detect_deadlocks().is_empty());
}

#[test]
fn a_task_that_leads_into_a_cycle_is_not_part_of_it() {
    let Scene { mut detector, resources } = scene(3);
    let (r1, r2, r3) = (resources[0], resources[1], resources[2]);
    detector.acquire(task(1), r1);
    detector.acquire(task(2), r2);
    detector.acquire(task(3), r3);
    detector.wait_for(task(1), r2);
    detector.wait_for(task(2), r1);
    detector.wait_for(task(3), r1);
    detector.wait_for(task(4), r3);
    let cycles = detector.detect_deadlocks();
    assert_eq!(cycles.len(), 1);
    assert_eq!(ids_of(&cycles[0].tasks), vec![1, 2]);
}

#[test]
fn the_cycle_is_found_from_its_tail() {
    let Scene { mut detector, resources } = scene(3);
    let (r1, r2, r3) = (resources[0], resources[1], resources[2]);
    detector.acquire(task(1), r1);
    detector.acquire(task(2), r2);
    detector.acquire(task(3), r3);
    // the first to wait only leads into the cycle of 2 and 3
    detector.wait_for(task(1), r2);
    detector.wait_for(task(2), r3);
    detector.wait_for(task(3), r2);
    let cycles = detector.detect_deadlocks();
    assert_eq!(cycles.len(), 1);
    assert_eq!(ids_of(&cycles[0].tasks), vec![2, 3]);
    assert_eq!(cycles[0].resources, vec![r3, r2]);
}

#[test]
fn separate_cycles_are_all_found() {
    let Scene { mut detector, resources } = scene(5);
    for (i, r) in resources.iter().enumerate() {
        detector.acquire(task(i as u64 + 1), *r);
    }
    detector.wait_for(task(1), resources[1]);
    detector.wait_for(task(2), resources[0]);
    detector.wait_for(task(3), resources[3]);
    detector.wait_for(task(4), resources[4]);
    detector.wait_for(task(5), resources[2]);
    let cycles = detector.detect_deadlocks();
    assert_eq!(cycles.len(), 2);
    assert_eq!(ids_of(&cycles[0].tasks), vec![1, 2]);
    assert_eq!(ids_of(&cycles[1].tasks), vec![3, 4, 5]);
}

#[test]
fn a_task_that_waits_for_what_it_holds_blocks_itself() {
    let Scene { mut detector, resources } = scene(1);
    detector.acquire(task(1), resources[0]);
    detector.wait_for(task(1), resources[0]);
    let cycles = detector.detect_deadlocks();
    assert_eq!(cycles.len(), 1);
    assert_eq!(ids_of(&cycles[0].tasks), vec![1]);
    assert_eq!(
        cycles[0].chain,
        vec![WaitEdge { task: task(1), resource: resources[0], holder: task(1) }]
    );
}

#[test]
fn waits_for_free_or_unknown_resources_are_passed_over() {
    let Scene { mut detector, resources } = scene(1);
    let mut other = IdGenerator { next: 500 };
    detector.wait_for(task(1), resources[0]);
    detector.wait_for(task(2), ResourceId::new(&mut other));
    assert!(detector.detect_deadlocks().is_empty());
    assert!(DeadlockDetector::new().detect_deadlocks().is_empty());
}

#[test]
fn acquiring_ends_the_wait() {
    let Scene { mut detector, resources } = scene(2);
    let (r1, r2) = (resources[0], resources[1]);
    detector.acquire(task(1), r1);
    detector.acquire(task(2), r2);
    detector.wait_for(task(1), r2);
    detector.wait_for(task(2), r1);
    assert_eq!(detector.get_resource(r2).unwrap().waiters, vec![task(1)]);
    assert_eq!(detector.detect_deadlocks().len(), 1);
    detector.release(task(2), r2);
    detector.acquire(task(1), r2);
    assert!(detector.detect_deadlocks().is_empty());
    let got = detector.get_resource(r2).unwrap();
    assert_eq!(got.holder, Some(task(1)));
    assert!(got.waiters.is_empty());
}

#[test]
fn only_the_holder_can_release() {
    let Scene { mut detector, resources } = scene(1);
    detector.acquire(task(1), resources[0]);
    detector.release(task(2), resources[0]);
    assert_eq!(detector.get_resource(resources[0]).unwrap().holder, Some(task(1)));
    detector.release(task(1), resources[0]);
    assert_eq!(detector.get_resource(resources[0]).unwrap().holder, None);
    assert!(!detector.get_resource(resources[0]).unwrap().is_held());
}

#[test]
fn a_task_waits_once_for_one_resource() {
    let Scene { mut detector, resources } = scene(2);
    detector.wait_for(task(1), resources[0]);
    detector.wait_for(task(1), resources[0]);
    detector.wait_for(task(2), resources[0]);
    assert_eq!(detector.get_resource(resources[0]).unwrap().waiters, vec![task(1), task(2)]);
    assert!(detector.get_resource(resources[0]).unwrap().has_waiters());
    // a new wait takes the place of the old one
    detector.acquire(task(3), resources[0]);
    detector.acquire(task(1), resources[1]);
    detector.wait_for(task(3), resources[1]);
    detector.wait_for(task(1), resources[0]);
    assert_eq!(detector.detect_deadlocks().len(), 1);
}

#[test]
fn a_disabled_detector_records_nothing() {
    let mut ids = IdGenerator::new();
    let mut detector = DeadlockDetector::new();
    detector.disable();
    assert!(!detector.is_enabled());
    let info = ResourceInfo::new(ResourceKind::Channel, "c".to_string(), &mut ids).with_address(64);
    assert_eq!(info.address, Some(64));
    let id = detector.register_resource(info);
    detector.acquire(task(1), id);
    detector.wait_for(task(1), id);
    assert!(detector.get_resources().is_empty());
    assert!(detector.get_resource(id).is_none());
    assert!(detector.detect_deadlocks().is_empty());
    detector.enable();
    assert!(detector.is_enabled());
}

#[test]
fn clearing_the_detector_forgets_the_waits() {
    let Scene { mut detector, resources } = scene(1);
    detector.acquire(task(1), resources[0]);
    detector.wait_for(task(1), resources[0]);
    detector.clear();
    assert!(detector.get_resources().is_empty());
    assert!(detector.detect_deadlocks().is_empty());
}

// Relationship graph

#[test]
fn the_critical_path_is_the_longest_chain() {
    let mut graph = TaskGraph::new();
    for i in 1..=5u64 {
        known(&mut graph, i, &format!("t{}", i), TaskState::Running);
    }
    graph.add_relationship(edge(1, 2, RelationshipType::Dependency, None));
    graph.add_relationship(edge(2, 3, RelationshipType::DataFlow, None));
    graph.add_relationship(edge(3, 4, RelationshipType::AwaitsOn, None));
    graph.add_relationship(edge(1, 5, RelationshipType::Dependency, None));
    // these kinds hold nobody up
    graph.add_relationship(edge(4, 5, RelationshipType::Spawned, None));
    graph.add_relationship(edge(5, 1, RelationshipType::SharedResource, Some("m")));
    assert_eq!(ids_of(&graph.find_critical_path()), vec![1, 2, 3, 4]);
}

#[test]
fn a_linear_chain_of_three_is_its_own_critical_path() {
    let mut graph = TaskGraph::new();
    known(&mut graph, 3, "c", TaskState::Running);
    known(&mut graph, 2, "b", TaskState::Running);
    known(&mut graph, 1, "a", TaskState::Running);
    graph.add_relationship(edge(2, 3, RelationshipType::Dependency, None));
    graph.add_relationship(edge(1, 2, RelationshipType::Dependency, None));
    assert_eq!(ids_of(&graph.find_critical_path()), vec![1, 2, 3]);
}

#[test]
fn the_critical_path_ends_where_it_would_repeat() {
    let mut graph = TaskGraph::new();
    known(&mut graph, 1, "a", TaskState::Running);
    known(&mut graph, 2, "b", TaskState::Running);
    graph.add_relationship(edge(1, 2, RelationshipType::Dependency, None));
    graph.add_relationship(edge(2, 1, RelationshipType::Dependency, None));
    graph.add_relationship(edge(1, 1, RelationshipType::Dependency, None));
    assert_eq!(ids_of(&graph.find_critical_path()), vec![1, 2]);
}

#[test]
fn the_critical_path_begins_at_a_known_task() {
    let mut graph = TaskGraph::new();
    assert!(graph.find_critical_path().is_empty());
    graph.add_relationship(edge(1, 2, RelationshipType::Dependency, None));
    graph.add_relationship(edge(2, 3, RelationshipType::Dependency, None));
    assert!(graph.find_critical_path().is_empty());
    known(&mut graph, 2, "b", TaskState::Pending);
    assert_eq!(ids_of(&graph.find_critical_path()), vec![2, 3]);
    assert_eq!(graph.get_task(&TaskId::from_u64(2)).unwrap().name, "b");
    assert!(graph.get_task(&TaskId::from_u64(3)).is_none());
}

#[test]
fn dependencies_are_followed_through() {
    let mut graph = TaskGraph::new();
    graph.add_relationship(edge(1, 2, RelationshipType::Dependency, None));
    graph.add_relationship(edge(2, 3, RelationshipType::AwaitsOn, None));
    graph.add_relationship(edge(3, 4, RelationshipType::DataFlow, None));
    graph.add_relationship(edge(1, 5, RelationshipType::AwaitsOn, None));
    graph.add_relationship(edge(5, 3, RelationshipType::Dependency, None));
    graph.add_relationship(edge(6, 1, RelationshipType::Dependency, None));
    assert_eq!(ids_of(&graph.find_transitive_dependencies(TaskId::from_u64(1))), vec![2, 5, 3]);
    assert_eq!(ids_of(&graph.find_transitive_dependencies(TaskId::from_u64(6))), vec![1, 2, 5, 3]);
    assert!(graph.find_transitive_dependencies(TaskId::from_u64(4)).is_empty());
}

#[test]
fn a_task_depends_on_itself_only_in_a_cycle() {
    let mut graph = TaskGraph::new();
    graph.add_relationship(edge(1, 2, RelationshipType::Dependency, None));
    graph.add_relationship(edge(2, 1, RelationshipType::Dependency, None));
    assert_eq!(ids_of(&graph.find_transitive_dependencies(TaskId::from_u64(1))), vec![2, 1]);
}

#[test]
fn edges_are_listed_by_kind_and_by_end() {
    let mut graph = TaskGraph::new();
    graph.add_relationship(edge(1, 2, RelationshipType::Spawned, None));
    graph.add_relationship(edge(1, 3, RelationshipType::Dependency, None));
    graph.add_relationship(edge(2, 3, RelationshipType::Spawned, None));
    graph.add_relationship(edge(3, 1, RelationshipType::DataFlow, None));
    let spawned: Vec<(u64, u64)> = graph
        .get_relationships_by_type(RelationshipType::Spawned)
        .iter()
        .map(|r| (r.from.as_u64(), r.to.as_u64()))
        .collect();
    assert_eq!(spawned, vec![(1, 2), (2, 3)]);
    assert!(graph.get_relationships_by_type(RelationshipType::AwaitsOn).is_empty());
    assert_eq!(
        graph.get_related_tasks(TaskId::from_u64(1)),
        vec![
            (TaskId::from_u64(2), RelationshipType::Spawned),
            (TaskId::from_u64(3), RelationshipType::Dependency),
        ]
    );
    assert_eq!(
        graph.get_dependent_tasks(TaskId::from_u64(3)),
        vec![
            (TaskId::from_u64(1), RelationshipType::Dependency),
            (TaskId::from_u64(2), RelationshipType::Spawned),
        ]
    );
    assert!(graph.get_related_tasks(TaskId::from_u64(9)).is_empty());
}

#[test]
fn sharers_are_listed_once_in_the_order_of_the_edges() {
    let mut graph = TaskGraph::new();
    graph.add_relationship(edge(3, 1, RelationshipType::SharedResource, Some("db")));
    graph.add_relationship(edge(1, 2, RelationshipType::SharedResource, Some("db")));
    graph.add_relationship(edge(4, 5, RelationshipType::SharedResource, Some("cache")));
    graph.add_relationship(edge(6, 7, RelationshipType::Dependency, Some("db")));
    graph.add_relationship(edge(8, 9, RelationshipType::SharedResource, None));
    assert_eq!(ids_of(&graph.find_tasks_sharing_resource("db")), vec![3, 1, 2]);
    assert_eq!(ids_of(&graph.find_tasks_sharing_resource("cache")), vec![4, 5]);
    assert!(graph.find_tasks_sharing_resource("none").is_empty());
}

#[test]
fn channel_pairs_join_a_send_to_its_receive() {
    let mut graph = TaskGraph::new();
    graph.add_relationship(edge(1, 10, RelationshipType::ChannelSend, Some("jobs")));
    graph.add_relationship(edge(10, 2, RelationshipType::ChannelReceive, Some("jobs")));
    graph.add_relationship(edge(10, 3, RelationshipType::ChannelReceive, Some("jobs")));
    graph.add_relationship(edge(10, 4, RelationshipType::ChannelReceive, Some("other")));
    graph.add_relationship(edge(11, 5, RelationshipType::ChannelReceive, Some("jobs")));
    graph.add_relationship(edge(6, 10, RelationshipType::ChannelSend, None));
    graph.add_relationship(edge(10, 7, RelationshipType::ChannelReceive, None));
    let pairs: Vec<(u64, u64)> =
        graph.find_channel_pairs().iter().map(|(a, b)| (a.as_u64(), b.as_u64())).collect();
    assert_eq!(pairs, vec![(1, 2), (1, 3), (6, 7)]);
}

#[test]
fn a_cycle_of_awaits_is_a_possible_deadlock() {
    let mut graph = TaskGraph::new();
    known(&mut graph, 1, "a", TaskState::Running);
    known(&mut graph, 2, "b", TaskState::Running);
    known(&mut graph, 3, "c", TaskState::Running);
    graph.add_relationship(edge(1, 2, RelationshipType::AwaitsOn, None));
    graph.add_relationship(edge(2, 3, RelationshipType::SharedResource, Some("m")));
    graph.add_relationship(edge(3, 1, RelationshipType::AwaitsOn, None));
    let found: Vec<Vec<u64>> =
        graph.detect_potential_deadlocks().iter().map(|c| ids_of(c)).collect();
    assert_eq!(found, vec![vec![3, 1]]);
}

#[test]
fn a_way_into_a_cycle_is_no_cycle_of_its_own() {
    let mut graph = TaskGraph::new();
    known(&mut graph, 1, "a", TaskState::Running);
    known(&mut graph, 2, "b", TaskState::Running);
    known(&mut graph, 3, "c", TaskState::Running);
    graph.add_relationship(edge(1, 2, RelationshipType::AwaitsOn, None));
    graph.add_relationship(edge(2, 1, RelationshipType::AwaitsOn, None));
    graph.add_relationship(edge(3, 1, RelationshipType::AwaitsOn, None));
    let found: Vec<Vec<u64>> =
        graph.detect_potential_deadlocks().iter().map(|c| ids_of(c)).collect();
    assert_eq!(found, vec![vec![2, 1]]);
}

#[test]
fn without_a_cycle_there_is_no_possible_deadlock() {
    let mut graph = TaskGraph::new();
    known(&mut graph, 1, "a", TaskState::Running);
    known(&mut graph, 2, "b", TaskState::Running);
    known(&mut graph, 3, "c", TaskState::Running);
    graph.add_relationship(edge(1, 2, RelationshipType::AwaitsOn, None));
    graph.add_relationship(edge(1, 3, RelationshipType::SharedResource, Some("m")));
    graph.add_relationship(edge(2, 3, RelationshipType::AwaitsOn, None));
    // a cycle of kinds that do not block
    graph.add_relationship(edge(3, 1, RelationshipType::Dependency, None));
    assert!(graph.detect_potential_deadlocks().is_empty());
    // a cycle that no known task leads to
    graph.add_relationship(edge(8, 9, RelationshipType::AwaitsOn, None));
    graph.add_relationship(edge(9, 8, RelationshipType::AwaitsOn, None));
    assert!(graph.detect_potential_deadlocks().is_empty());
}

#[test]
fn the_graph_is_drawn_for_graphviz() {
    let mut graph = TaskGraph::new();
    known(&mut graph, 1, "load", TaskState::Running);
    known(&mut graph, 2, "save", TaskState::Blocked { await_point: "disk \"a\"".to_string() });
    graph.add_relationship(edge(1, 2, RelationshipType::Dependency, None));
    graph.add_relationship(edge(2, 1, RelationshipType::SharedResource, Some("file")));
    let expected = "digraph TaskGraph {\n  rankdir=LR;\n  node [shape=box, style=rounded];\n\n  t1 [label=\"load\nRunning\", fillcolor=lightblue, style=\"filled,rounded\"];\n  t2 [label=\"save\nBlocked { await_point: \"disk \\\"a\\\"\" }\", fillcolor=yellow, style=\"filled,rounded\"];\n\n  t1 -> t2 [label=\"depends\", style=solid, color=orange];\n  t2 -> t1 [label=\"shares\nfile\", style=dotted, color=red];\n\n  // Critical path\n  t1 -> t2 [color=red, penwidth=3.0, constraint=false];\n}\n";
    assert_eq!(graph.to_dot(), expected);
    assert_eq!(
        TaskGraph::new().to_dot(),
        "digraph TaskGraph {\n  rankdir=LR;\n  node [shape=box, style=rounded];\n\n\n}\n"
    );
}

#[test]
fn the_graph_is_said_in_words() {
    let mut graph = TaskGraph::new();
    known(&mut graph, 1, "load", TaskState::Running);
    known(&mut graph, 2, "save", TaskState::Completed);
    graph.add_relationship(edge(1, 2, RelationshipType::Dependency, None));
    graph.add_relationship(edge(2, 3, RelationshipType::SharedResource, Some("file")));
    graph.add_relationship(edge(1, 2, RelationshipType::SharedResource, Some("file")));
    graph.add_relationship(edge(1, 3, RelationshipType::Spawned, None));
    let expected = "Task Relationship Graph\n=======================\n\n\nspawned Relationships:\n  load spawned ?\n\nshares resource Relationships:\n  save shares resource ? (file)\n  load shares resource save (file)\n\ndepends on Relationships:\n  load depends on save\n\nCritical Path:\n  → load (Running)\n  → save (Completed)\n\nShared Resources:\n  file (accessed by 3 tasks):\n    - save\n    - load\n";
    assert_eq!(graph.to_text(), expected);
    assert_eq!(
        TaskGraph::new().to_text(),
        "Task Relationship Graph\n=======================\n\n"
    );
}

// Fields of comma-separated files

fn read_field(written: &str) -> Option<String> {
    let chars: Vec<char> = written.chars().collect();
    if chars.first() != Some(&'"') {
        if written.contains(',') || written.contains('"') || written.contains('\n') {
            return None;
        }
        return Some(written.to_string());
    }
    let mut field = String::new();
    let mut i: usize = 1;
    while i < chars.len() {
        if chars[i] == '"' {
            if i + 1 == chars.len() {
                return Some(field);
            }
            if chars[i + 1] != '"' {
                return None;
            }
            field.push('"');
            i += 2;
        } else {
            field.push(chars[i]);
            i += 1;
        }
    }
    None
}

#[test]
fn a_written_field_reads_back_as_it_was() {
    let names = [
        "",
        "plain",
        "with,comma",
        "with\"quote",
        "two\nlines",
        "\"",
        "\"\"",
        ",",
        "a \"b\", c\nd",
        "späte, \"Züge\"",
        "tab\tand\rreturn",
    ];
    for name in names {
        let written = CsvExporter::escape_csv(name);
        assert_eq!(read_field(&written), Some(name.to_string()), "for {:?}", name);
    }
    assert_eq!(CsvExporter::escape_csv("two\nlines"), "\"two\nlines\"");
    assert_eq!(CsvExporter::escape_csv("\""), "\"\"\"\"");
    assert_eq!(CsvExporter::escape_csv(""), "");
    assert_eq!(CsvExporter::escape_csv("tab\tand\rreturn"), "tab\tand\rreturn");
}

// Settings

#[test]
fn a_new_configuration_records_everything() {
    let mut config = Config::new();
    assert_eq!(config.sampling_rate(), 1);
    assert_eq!(config.max_events(), 10_000);
    assert_eq!(config.max_tasks(), 1_000);
    assert!(config.track_awaits());
    assert!(config.track_polls());
    assert!(config.enable_html());
    for _ in 0..5 {
        assert!(config.should_sample());
    }
    config.set_sampling_rate(0);
    assert_eq!(config.sampling_rate(), 1);
}

#[test]
fn sampling_takes_the_first_of_every_so_many() {
    let mut config = Config::new();
    config.set_sampling_rate(3);
    let taken: Vec<bool> = (0..7).map(|_| config.should_sample()).collect();
    assert_eq!(taken, vec![true, false, false, true, false, false, true]);
}

#[test]
fn the_modes_set_what_they_say() {
    let mut config = Config::new();
    config.set_track_polls(false);
    config.production_mode();
    assert_eq!((config.max_events(), config.max_tasks()), (1_000, 500));
    assert!(!config.track_polls());
    config.debug_mode();
    assert_eq!((config.sampling_rate(), config.max_events(), config.max_tasks()), (1, 0, 0));
    assert!(config.track_awaits() && config.enable_html());
    config.development_mode();
    assert_eq!((config.sampling_rate(), config.max_events(), config.max_tasks()), (1, 10_000, 1_000));
    config.set_max_events(7);
    config.set_max_tasks(8);
    config.set_track_awaits(false);
    config.set_enable_html(false);
    assert_eq!((config.max_events(), config.max_tasks()), (7, 8));
    assert!(!config.track_awaits() && !config.enable_html());
}

#[test]
fn overhead_is_counted_and_reset() {
    let mut config = Config::new();
    config.record_overhead(1000);
    config.record_overhead(2000);
    assert_eq!(config.total_overhead_ns(), 3000);
    assert_eq!(config.instrumentation_calls(), 2);
    config.record_overhead(u64::MAX);
    assert_eq!(config.total_overhead_ns(), 2999);
    config.reset_overhead();
    assert_eq!(config.total_overhead_ns(), 0);
    assert_eq!(config.instrumentation_calls(), 0);
}

// Guards

#[test]
fn a_poll_guard_reports_both_ends() {
    let mut inspector = Inspector::new();
    let id = inspector.register_task("polled".to_string(), at(0));
    let guard = PollGuard::new(&mut inspector, id, at(10));
    assert_eq!(inspector.get_task(id).unwrap().state, TaskState::Running);
    guard.finish(&mut inspector, at(25));
    let task = inspector.get_task(id).unwrap();
    assert_eq!(task.poll_count, 1);
    assert_eq!(task.total_run_time, ms(15));
    let events = inspector.get_events();
    assert!(matches!(events[2].kind, EventKind::PollStarted));
    assert!(matches!(events[3].kind, EventKind::PollEnded { duration } if duration == ms(15)));
}

#[test]
fn an_await_guard_reports_both_ends() {
    let mut inspector = Inspector::new();
    let id = inspector.register_task("waits".to_string(), at(0));
    let guard = AwaitGuard::new(&mut inspector, id, "socket".to_string(), at(10));
    assert_eq!(
        inspector.get_task(id).unwrap().state,
        TaskState::Blocked { await_point: "socket".to_string() }
    );
    guard.finish(&mut inspector, at(70));
    let events = inspector.get_events();
    match &events[3].kind {
        EventKind::AwaitEnded { await_point, duration } => {
            assert_eq!(await_point, "socket");
            assert_eq!(*duration, ms(60));
        }
        _ => panic!("the last event is the end of the wait"),
    }
    let profiler = inspector.build_profiler(at(100));
    assert_eq!(profiler.get_task_metrics(&id).unwrap().await_durations, vec![ms(60)]);
}

#[test]
fn waits_of_the_task_at_hand_are_logged() {
    let mut inspector = Inspector::new();
    let mut context = TaskContext::new();
    inspect_await_start(&mut inspector, &context, "x".to_string(), None, at(1));
    assert!(inspector.get_events().is_empty());
    let id = inspector.register_task("t".to_string(), at(0));
    set_current_task_id(&mut context, id);
    inspect_await_start(&mut inspector, &context, "x".to_string(), Some("a.rs:3".to_string()), at(5));
    inspect_await_end(&mut inspector, &context, "x".to_string(), at(9));
    assert_eq!(current_task_id(&context), Some(id));
    let events = inspector.get_task_events(id);
    assert_eq!(events.len(), 3);
    assert!(matches!(&events[2].kind, EventKind::AwaitEnded { duration, .. } if duration.is_zero()));
    assert_eq!(inspector.get_task(id).unwrap().state, TaskState::Pending);
    let profiler = inspector.build_profiler(at(10));
    assert_eq!(profiler.get_task_metrics(&id).unwrap().await_durations, vec![ms(4)]);
    let context = InspectContext::new(id, at(3));
    assert_eq!(context.elapsed(at(10)), ms(7));
}

#[test]
fn a_followed_future_reports_its_polls() {
    let mut inspector = Inspector::new();
    let mut context = TaskContext::new();
    let mut future = TrackedFuture::new(7u8, "work".to_string(), &mut inspector, at(0));
    let id = future.task_id();
    assert!(!future.started);
    future.before_poll(&mut inspector, &mut context, at(1));
    assert_eq!(current_task_id(&context), Some(id));
    future.after_poll(false, &mut inspector, &mut context, at(4));
    assert_eq!(current_task_id(&context), Some(id));
    future.before_poll(&mut inspector, &mut context, at(10));
    future.after_poll(true, &mut inspector, &mut context, at(12));
    assert_eq!(current_task_id(&context), None);
    let task = inspector.get_task(id).unwrap();
    assert_eq!(task.poll_count, 2);
    assert_eq!(task.total_run_time, ms(5));
    assert_eq!(task.state, TaskState::Completed);
    assert_eq!(future.future, 7);
    assert!(future.started);
}

// Lists on a screen

#[test]
fn the_modes_of_a_list_go_round() {
    let mut sort = SortMode::Id;
    let mut seen = Vec::new();
    for _ in 0..5 {
        sort = sort.next();
        seen.push(sort);
    }
    assert_eq!(
        seen,
        vec![SortMode::Name, SortMode::Duration, SortMode::State, SortMode::PollCount, SortMode::Id]
    );
    assert_eq!(FilterMode::All.next(), FilterMode::Running);
    assert_eq!(FilterMode::Blocked.next(), FilterMode::All);
    assert!(FilterMode::All.shows(&TaskState::Failed));
    assert!(FilterMode::Blocked.shows(&TaskState::Blocked { await_point: "x".to_string() }));
    assert!(!FilterMode::Running.shows(&TaskState::Pending));
    assert!(FilterMode::Completed.shows(&TaskState::Completed));
    assert!(!FilterMode::Failed.shows(&TaskState::Completed));
}

#[test]
fn states_are_written_for_debugging_as_the_language_writes_them() {
    let states = [
        TaskState::Pending,
        TaskState::Running,
        TaskState::Blocked { await_point: "plain".to_string() },
        TaskState::Blocked { await_point: "quote \" slash \\ tab \t line \n é ✓".to_string() },
        TaskState::Blocked { await_point: String::new() },
        TaskState::Completed,
        TaskState::Failed,
    ];
    for state in states {
        let mut written = String::from("> ");
        state.push_debug(&mut written);
        assert_eq!(written, format!("> {:?}", state));
    }
}

#[test]
fn every_kind_of_event_has_its_name() {
    let kinds = [
        (EventKind::TaskSpawned { name: "n".to_string(), parent: None, location: None }, "TaskSpawned"),
        (EventKind::PollStarted, "PollStarted"),
        (EventKind::PollEnded { duration: ms(1) }, "PollEnded"),
        (EventKind::AwaitStarted { await_point: "a".to_string(), location: None }, "AwaitStarted"),
        (EventKind::AwaitEnded { await_point: "a".to_string(), duration: ms(1) }, "AwaitEnded"),
        (EventKind::TaskCompleted { duration: ms(1) }, "TaskCompleted"),
        (EventKind::TaskFailed { error: Some("e".to_string()) }, "TaskFailed"),
        (EventKind::InspectionPoint { label: "l".to_string(), message: None }, "InspectionPoint"),
        (
            EventKind::StateChanged { old_state: TaskState::Pending, new_state: TaskState::Running },
            "StateChanged",
        ),
    ];
    for (kind, name) in kinds {
        assert_eq!(kind.kind_name(), name);
        assert_eq!(kind.clone().kind_name(), name);
    }
}

#[test]
fn copies_are_equal_to_what_they_copy() {
    let mut ids = IdGenerator::new();
    let task = TaskInfo::new("t".to_string(), &mut ids, at(3))
        .with_parent(TaskId::from_u64(9))
        .with_location("lib.rs:7".to_string());
    let copy = task.clone();
    assert_eq!(copy.id, task.id);
    assert_eq!(copy.name, "t");
    assert_eq!(copy.parent, Some(TaskId::from_u64(9)));
    assert_eq!(copy.location, Some("lib.rs:7".to_string()));
    assert_eq!(copy.created_at, at(3));
    let info = ResourceInfo::new(ResourceKind::Other("pool".to_string()), "p".to_string(), &mut ids);
    let copy = info.clone();
    assert_eq!(copy.id, info.id);
    assert_eq!(copy.kind, ResourceKind::Other("pool".to_string()));
    let e = edge(1, 2, RelationshipType::DataFlow, Some("r"));
    let copy = e.clone();
    assert_eq!((copy.from, copy.to, copy.relationship_type), (e.from, e.to, e.relationship_type));
    assert_eq!(copy.resource_name, Some("r".to_string()));
}

#[test]
fn resources_are_written_with_their_address_in_hexadecimal() {
    let mut ids = IdGenerator { next: 12 };
    let info = ResourceInfo::new(ResourceKind::Mutex, "cache".to_string(), &mut ids);
    assert_eq!(info.to_string(), "Mutex 'cache' (Resource#12)");
    let info = info.with_address(0xdead_beef);
    assert_eq!(info.to_string(), format!("Mutex 'cache' (Resource#12) @ 0x{:x}", 0xdead_beef_usize));
    for address in [0usize, 9, 10, 15, 16, 255, 4096, usize::MAX] {
        let mut ids = IdGenerator::new();
        let info = ResourceInfo::new(ResourceKind::Other("pool".to_string()), "p".to_string(), &mut ids)
            .with_address(address);
        assert_eq!(info.to_string(), format!("pool 'p' (Resource#1) @ 0x{:x}", address));
    }
}

#[test]
fn the_console_settings_are_written_in_full() {
    let config = ConsoleIntegrationConfig::default();
    assert_eq!(
        config.to_string(),
        "ConsoleIntegration { compatible: true, filter: true, min_ms: 10 }"
    );
    assert!(config.filter_short_tasks);
    assert_eq!(config.min_duration_ms, 10);
    let other = ConsoleIntegrationConfig {
        console_compatible: false,
        filter_short_tasks: true,
        min_duration_ms: 0,
    };
    assert_eq!(
        other.to_string(),
        "ConsoleIntegration { compatible: false, filter: true, min_ms: 0 }"
    );
}

#[test]
fn a_ruler_marks_every_fifth_and_tenth_place() {
    assert_eq!(async_inspect::text::timeline_ruler(0), "");
    assert_eq!(async_inspect::text::timeline_ruler(12), "|────·────|─");
    assert_eq!(async_inspect::text::timeline_ruler(50).chars().count(), 50);
}

#[test]
fn a_task_that_has_ended_keeps_its_state() {
    let mut ids = IdGenerator::new();
    let mut task = TaskInfo::new("t".to_string(), &mut ids, at(0));
    task.update_state(TaskState::Running, at(1));
    task.update_state(TaskState::Blocked { await_point: "io".to_string() }, at(2));
    task.update_state(TaskState::Running, at(3));
    task.update_state(TaskState::Completed, at(4));
    assert_eq!((task.state.clone(), task.last_updated), (TaskState::Completed, at(4)));
    task.update_state(TaskState::Running, at(5));
    assert_eq!((task.state.clone(), task.last_updated), (TaskState::Completed, at(4)));
    task.update_state(TaskState::Failed, at(6));
    assert_eq!((task.state.clone(), task.last_updated), (TaskState::Completed, at(4)));
    let mut failed = TaskInfo::new("f".to_string(), &mut ids, at(0));
    failed.update_state(TaskState::Failed, at(1));
    failed.update_state(TaskState::Pending, at(2));
    failed.update_state(TaskState::Completed, at(3));
    assert_eq!((failed.state.clone(), failed.last_updated), (TaskState::Failed, at(1)));
}

#[test]
fn the_registry_logs_no_change_of_a_task_that_has_ended() {
    let mut inspector = Inspector::new();
    let done = inspector.register_task("done".to_string(), at(0));
    let failed = inspector.register_task("failed".to_string(), at(0));
    inspector.task_completed(done, at(1));
    inspector.task_failed(failed, None, at(1));
    let before = inspector.get_events().len();
    assert_eq!(before, 2 + 2 + 2);

    inspector.update_task_state(done, TaskState::Running, at(2));
    inspector.update_task_state(failed, TaskState::Blocked { await_point: "x".to_string() }, at(2));
    assert_eq!(inspector.get_events().len(), before);

    // the poll, the wait and the failure are logged, the state stays
    inspector.poll_started(done, at(3));
    inspector.await_started(done, "late".to_string(), None, at(4));
    inspector.task_failed(done, Some("late".to_string()), at(5));
    let events = inspector.get_task_events(done);
    assert_eq!(events.len(), 3 + 3);
    assert!(events[3..].iter().all(|e| !matches!(e.kind, EventKind::StateChanged { .. })));
    let task = inspector.get_task(done).unwrap();
    assert_eq!((task.state, task.last_updated), (TaskState::Completed, at(1)));
    assert_eq!(inspector.get_task(failed).unwrap().state, TaskState::Failed);

    let stats = inspector.stats(at(6));
    assert_eq!((stats.completed_tasks, stats.failed_tasks, stats.running_tasks), (1, 1, 0));
}

#[test]
fn a_cycle_that_no_known_task_leads_to_is_not_reported() {
    let mut graph = TaskGraph::new();
    graph.add_relationship(edge(7, 7, RelationshipType::SharedResource, Some("m")));
    assert!(graph.detect_potential_deadlocks().is_empty());
    known(&mut graph, 1, "a", TaskState::Running);
    assert!(graph.detect_potential_deadlocks().is_empty());
    // a known task that blocks itself is reported once
    known(&mut graph, 7, "b", TaskState::Running);
    let found: Vec<Vec<u64>> =
        graph.detect_potential_deadlocks().iter().map(|c| ids_of(c)).collect();
    assert_eq!(found, vec![vec![7, 7]]);
    // two known tasks that lead to one cycle give one report
    known(&mut graph, 2, "c", TaskState::Running);
    graph.add_relationship(edge(1, 7, RelationshipType::AwaitsOn, None));
    graph.add_relationship(edge(2, 7, RelationshipType::AwaitsOn, None));
    let found: Vec<Vec<u64>> =
        graph.detect_potential_deadlocks().iter().map(|c| ids_of(c)).collect();
    assert_eq!(found, vec![vec![7, 7]]);
}

#[test]
fn waits_are_found_after_others_have_ended() {
    let Scene { mut detector, resources } = scene(4);
    for (i, r) in resources.iter().enumerate() {
        detector.acquire(task(i as u64 + 1), *r);
    }
    // 1 -> 2 -> 3 -> 4 -> 1, then the wait of 2 ends
    detector.wait_for(task(1), resources[1]);
    detector.wait_for(task(2), resources[2]);
    detector.wait_for(task(3), resources[3]);
    detector.wait_for(task(4), resources[0]);
    assert_eq!(ids_of(&detector.detect_deadlocks()[0].tasks), vec![1, 2, 3, 4]);
    detector.release(task(3), resources[2]);
    detector.acquire(task(2), resources[2]);
    assert!(detector.detect_deadlocks().is_empty());
    // the waits behind it are still known by their tasks
    detector.wait_for(task(4), resources[3]);
    detector.wait_for(task(3), resources[3]);
    let cycles = detector.detect_deadlocks();
    assert_eq!(cycles.len(), 1);
    assert_eq!(ids_of(&cycles[0].tasks), vec![4]);
    detector.wait_for(task(2), resources[0]);
    detector.wait_for(task(1), resources[1]);
    detector.acquire(task(3), resources[1]);
    let cycles = detector.detect_deadlocks();
    assert_eq!(cycles.len(), 1);
    assert_eq!(ids_of(&cycles[0].tasks), vec![4]);
    assert_eq!(detector.get_resource(resources[1]).unwrap().holder, Some(task(3)));
}

#[test]
fn many_tasks_are_found_by_their_identifiers() {
    let mut inspector = Inspector::new();
    let mut ids = Vec::new();
    for i in 0..200u64 {
        ids.push(inspector.register_task(format!("t{}", i), at(i)));
    }
    for (i, id) in ids.iter().enumerate() {
        if i % 3 == 0 {
            inspector.poll_started(*id, at(300));
        }
    }
    for (i, id) in ids.iter().enumerate() {
        let task = inspector.get_task(*id).unwrap();
        assert_eq!(task.name, format!("t{}", i));
        assert_eq!(task.state == TaskState::Running, i % 3 == 0);
    }
    assert!(inspector.get_task(TaskId::from_u64(201)).is_none());
    let profiler = inspector.build_profiler(at(400));
    assert_eq!(profiler.all_metrics().len(), 200);
    assert_eq!(profiler.get_task_metrics(&ids[150]).unwrap().name, "t150");
    inspector.clear();
    assert!(inspector.get_task(ids[0]).is_none());
    let next = inspector.register_task("again".to_string(), at(500));
    assert_eq!(next.as_u64(), 201);
    assert_eq!(inspector.get_task(next).unwrap().name, "again");
}
