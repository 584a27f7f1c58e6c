use async_inspect::config::Config;
use async_inspect::cycles::DeadlockCycle;
use async_inspect::deadlock::{DeadlockDetector, ResourceInfo, ResourceKind};
use async_inspect::export::CsvExporter;
use async_inspect::graph::{Relationship, RelationshipType, TaskGraph};
use async_inspect::ids::IdGenerator;
use async_inspect::inspector::Inspector;
use async_inspect::instrument::{
    clear_current_task_id, current_task_id, set_current_task_id, TaskContext, TaskGuard,
};
use async_inspect::integrations::tokio_console::ConsoleIntegrationConfig;
use async_inspect::profile::TaskMetrics;
use async_inspect::stats::DurationStats;
use async_inspect::task::{TaskId, TaskInfo, TaskState};
use async_inspect::time::{Duration, Timestamp};
use async_inspect::timeline::{Event, EventKind, Timeline};

fn at(millis: u64) -> Timestamp {
    Timestamp::from_nanos(millis * 1_000_000)
}

#[test]
fn lib_test_placeholder() {
    assert_eq!(2 + 2, 4);
}

#[test]
fn test_sampling_rate() {
    let mut config = Config::new();
    config.set_sampling_rate(10);
    assert_eq!(config.sampling_rate(), 10);

    let mut sampled: u32 = 0;
    for _ in 0..100 {
        if config.should_sample() {
            sampled += 1;
        }
    }
    assert!(sampled >= 8 && sampled <= 12);
}

#[test]
fn test_overhead_tracking() {
    let mut config = Config::new();
    config.reset_overhead();

    config.record_overhead(1000);
    config.record_overhead(2000);

    assert_eq!(config.total_overhead_ns(), 3000);
    assert_eq!(config.instrumentation_calls(), 2);
}

#[test]
fn test_production_mode() {
    let mut config = Config::new();
    config.production_mode();

    assert_eq!(config.sampling_rate(), 100);
    assert!(!config.track_awaits());
    assert!(!config.enable_html());
}

#[test]
fn test_resource_creation() {
    let mut ids = IdGenerator::new();
    let resource = ResourceInfo::new(ResourceKind::Mutex, "test_mutex".to_string(), &mut ids);
    assert_eq!(resource.kind, ResourceKind::Mutex);
    assert_eq!(resource.name, "test_mutex");
    assert!(!resource.is_held());
    assert!(!resource.has_waiters());
}

#[test]
fn test_detector_registration() {
    let mut ids = IdGenerator::new();
    let mut detector = DeadlockDetector::new();
    let resource = ResourceInfo::new(ResourceKind::Mutex, "test".to_string(), &mut ids);
    let resource_id = resource.id;

    detector.register_resource(resource);

    let retrieved = detector.get_resource(resource_id).unwrap();
    assert_eq!(retrieved.name, "test");
}

#[test]
fn test_simple_deadlock_detection() {
    let mut resource_ids = IdGenerator::new();
    let mut task_ids = IdGenerator::new();
    let mut detector = DeadlockDetector::new();

    let res1 = ResourceInfo::new(ResourceKind::Mutex, "mutex_a".to_string(), &mut resource_ids);
    let res2 = ResourceInfo::new(ResourceKind::Mutex, "mutex_b".to_string(), &mut resource_ids);
    let res1_id = res1.id;
    let res2_id = res2.id;

    detector.register_resource(res1);
    detector.register_resource(res2);

    let task1 = TaskId::new(&mut task_ids);
    let task2 = TaskId::new(&mut task_ids);

    detector.acquire(task1, res1_id);
    detector.wait_for(task1, res2_id);

    detector.acquire(task2, res2_id);
    detector.wait_for(task2, res1_id);

    let deadlocks: Vec<DeadlockCycle> = detector.detect_deadlocks();
    assert_eq!(deadlocks.len(), 1);

    let cycle = &deadlocks[0];
    assert_eq!(cycle.tasks.len(), 2);
    assert!(cycle.tasks.contains(&task1));
    assert!(cycle.tasks.contains(&task2));
}

#[test]
fn test_no_deadlock() {
    let mut resource_ids = IdGenerator::new();
    let mut task_ids = IdGenerator::new();
    let mut detector = DeadlockDetector::new();

    let res = ResourceInfo::new(ResourceKind::Mutex, "mutex".to_string(), &mut resource_ids);
    let res_id = res.id;
    detector.register_resource(res);

    let task1 = TaskId::new(&mut task_ids);
    let task2 = TaskId::new(&mut task_ids);

    detector.acquire(task1, res_id);
    detector.release(task1, res_id);

    detector.acquire(task2, res_id);

    let deadlocks = detector.detect_deadlocks();
    assert_eq!(deadlocks.len(), 0);
}

#[test]
fn test_csv_escape() {
    assert_eq!(CsvExporter::escape_csv("simple"), "simple");
    assert_eq!(CsvExporter::escape_csv("with,comma"), "\"with,comma\"");
    assert_eq!(CsvExporter::escape_csv("with\"quote"), "\"with\"\"quote\"");
}

fn running_task(id: TaskId, name: &str, now: Timestamp) -> TaskInfo {
    TaskInfo {
        id,
        name: name.to_string(),
        state: TaskState::Running,
        created_at: now,
        last_updated: now,
        parent: None,
        location: None,
        poll_count: 0,
        total_run_time: Duration::zero(),
    }
}

#[test]
fn test_critical_path() {
    let mut graph = TaskGraph::new();

    let t1 = TaskId::from_u64(1);
    let t2 = TaskId::from_u64(2);
    let t3 = TaskId::from_u64(3);

    let now = at(0);
    graph.add_task(running_task(t1, "task1", now));
    graph.add_task(running_task(t2, "task2", now));
    graph.add_task(running_task(t3, "task3", now));

    graph.add_relationship(Relationship {
        from: t1,
        to: t2,
        relationship_type: RelationshipType::Dependency,
        resource_name: None,
        data_description: None,
    });

    graph.add_relationship(Relationship {
        from: t2,
        to: t3,
        relationship_type: RelationshipType::Dependency,
        resource_name: None,
        data_description: None,
    });

    let path = graph.find_critical_path();
    assert!(path.contains(&t1));
    assert!(path.contains(&t2));
    assert!(path.contains(&t3));
}

#[test]
fn test_shared_resources() {
    let mut graph = TaskGraph::new();

    let t1 = TaskId::from_u64(1);
    let t2 = TaskId::from_u64(2);

    graph.add_relationship(Relationship {
        from: t1,
        to: t2,
        relationship_type: RelationshipType::SharedResource,
        resource_name: Some("mutex_1".to_string()),
        data_description: None,
    });

    let tasks = graph.find_tasks_sharing_resource("mutex_1");
    assert_eq!(tasks.len(), 2);
}

#[test]
fn test_inspector_creation() {
    let inspector = Inspector::new();
    assert!(inspector.is_enabled());
}

#[test]
fn test_register_task() {
    let mut inspector = Inspector::new();
    let task_id = inspector.register_task("test_task".to_string(), at(0));
    let task = inspector.get_task(task_id).unwrap();
    assert_eq!(task.name, "test_task");
}

#[test]
fn test_task_lifecycle() {
    let mut inspector = Inspector::new();
    let task_id = inspector.register_task("test".to_string(), at(0));

    inspector.poll_started(task_id, at(1));
    inspector.poll_ended(task_id, Duration::from_millis(10), at(11));
    inspector.task_completed(task_id, at(12));

    let task = inspector.get_task(task_id).unwrap();
    assert_eq!(task.state, TaskState::Completed);
    assert_eq!(task.poll_count, 1);
}

#[test]
fn test_stats() {
    let mut inspector = Inspector::new();
    inspector.register_task("task1".to_string(), at(0));
    inspector.register_task("task2".to_string(), at(1));

    let stats = inspector.stats(at(2));
    assert_eq!(stats.total_tasks, 2);
}

#[test]
fn test_current_task_id() {
    let mut ids = IdGenerator::new();
    let mut context = TaskContext::new();
    let task_id = TaskId::new(&mut ids);
    set_current_task_id(&mut context, task_id);
    assert_eq!(current_task_id(&context), Some(task_id));
    clear_current_task_id(&mut context);
    assert_eq!(current_task_id(&context), None);
}

#[test]
fn test_task_guard() {
    let mut inspector = Inspector::new();
    let mut context = TaskContext::new();
    let guard = TaskGuard::new(&mut inspector, &mut context, "test".to_string(), at(0));
    let task_id = guard.task_id();
    assert_eq!(current_task_id(&context), Some(task_id));
    guard.finish(&mut inspector, &mut context, at(5));
    assert_eq!(current_task_id(&context), None);
}

#[test]
fn test_config() {
    let config = ConsoleIntegrationConfig::default();
    assert!(config.console_compatible);
}

#[test]
fn test_duration_stats() {
    let durations = vec![
        Duration::from_millis(10),
        Duration::from_millis(20),
        Duration::from_millis(30),
        Duration::from_millis(40),
        Duration::from_millis(50),
    ];

    let stats = DurationStats::from_durations(durations);

    assert_eq!(stats.min, Duration::from_millis(10));
    assert_eq!(stats.max, Duration::from_millis(50));
    assert_eq!(stats.median, Duration::from_millis(30));
    assert_eq!(stats.count, 5);
}

#[test]
fn test_task_efficiency() {
    let mut ids = IdGenerator::new();
    let mut metrics = TaskMetrics::new(TaskId::new(&mut ids), "test".to_string());
    metrics.total_duration = Duration::from_millis(100);
    metrics.running_time = Duration::from_millis(80);
    metrics.blocked_time = Duration::from_millis(20);

    let parts = metrics.efficiency_parts();
    let efficiency = parts.num as f64 / parts.den as f64;
    assert!((efficiency - 0.8).abs() < 0.01, "Expected efficiency ~0.8, got {}", efficiency);
}

#[test]
fn test_bottleneck_detection() {
    let mut ids = IdGenerator::new();
    let mut metrics = TaskMetrics::new(TaskId::new(&mut ids), "slow_task".to_string());
    metrics.total_duration = Duration::from_millis(150);

    assert!(metrics.is_bottleneck(100));
    assert!(!metrics.is_bottleneck(200));
}

#[test]
fn test_task_id_uniqueness() {
    let mut ids = IdGenerator::new();
    let id1 = TaskId::new(&mut ids);
    let id2 = TaskId::new(&mut ids);
    assert_ne!(id1, id2);
}

#[test]
fn test_task_info_creation() {
    let mut ids = IdGenerator::new();
    let task = TaskInfo::new("test_task".to_string(), &mut ids, at(0));
    assert_eq!(task.name, "test_task");
    assert_eq!(task.state, TaskState::Pending);
    assert_eq!(task.poll_count, 0);
}

#[test]
fn test_task_state_update() {
    let mut ids = IdGenerator::new();
    let mut task = TaskInfo::new("test".to_string(), &mut ids, at(0));
    task.update_state(TaskState::Running, at(1));
    assert_eq!(task.state, TaskState::Running);
}

#[test]
fn test_task_poll_recording() {
    let mut ids = IdGenerator::new();
    let mut task = TaskInfo::new("test".to_string(), &mut ids, at(0));
    task.record_poll(Duration::from_millis(100), at(100));
    assert_eq!(task.poll_count, 1);
    assert_eq!(task.total_run_time, Duration::from_millis(100));
}

#[test]
fn test_timeline_creation() {
    let timeline = Timeline::new();
    assert!(timeline.is_empty());
    assert_eq!(timeline.len(), 0);
}

#[test]
fn test_add_event() {
    let mut ids = IdGenerator::new();
    let mut timeline = Timeline::new();
    let task_id = TaskId::new(&mut ids);
    let event = Event::new(
        1,
        task_id,
        EventKind::TaskSpawned { name: "test".to_string(), parent: None, location: None },
        at(0),
    );

    timeline.add_event(event);
    assert_eq!(timeline.len(), 1);
}

#[test]
fn test_events_for_task() {
    let mut ids = IdGenerator::new();
    let mut timeline = Timeline::new();
    let task1 = TaskId::new(&mut ids);
    let task2 = TaskId::new(&mut ids);

    timeline.add_event(Event::new(1, task1, EventKind::PollStarted, at(0)));
    timeline.add_event(Event::new(2, task2, EventKind::PollStarted, at(1)));
    timeline.add_event(Event::new(
        3,
        task1,
        EventKind::PollEnded { duration: Duration::from_millis(10) },
        at(11),
    ));

    let task1_events = timeline.events_for_task(task1);
    assert_eq!(task1_events.len(), 2);
}
