//! The profiler: per-task performance figures, and what follows from them --
//! bottlenecks, hot paths, rankings and overall statistics.

use std::collections::HashMap;
use vstd::prelude::*;
use crate::lookup::{
    distinct_by, first_match, has_match, is_index, lemma_first_match, lemma_first_match_is,
    lemma_index_finds, lemma_index_push, upsert,
};
use crate::rank::{is_ranking, rank, RankKey};
pub use crate::stats::DurationStats;
use crate::task::TaskId;
use crate::time::{saturating_sum, Duration, NANOS_PER_MILLI};

verus! {

broadcast use vstd::std_specs::hash::group_hash_axioms;

/// The performance figures of one task.
#[derive(Debug, Clone)]
pub struct TaskMetrics {
    pub task_id: TaskId,
    pub name: String,
    /// The task's age when the figures were taken.
    pub total_duration: Duration,
    /// The time spent in polls.
    pub running_time: Duration,
    /// The rest of the task's age.
    pub blocked_time: Duration,
    pub poll_count: u64,
    /// How many waits were measured.
    pub await_count: u64,
    /// How long each measured wait took, in the order in which they ended.
    pub await_durations: Vec<Duration>,
    /// The running time divided by the number of polls.
    pub avg_poll_duration: Duration,
    /// Whether the task has finished with a result.
    pub completed: bool,
}

impl TaskMetrics {
    /// Figures that are all zero.
    pub fn new(task_id: TaskId, name: String) -> (metrics: TaskMetrics)
        ensures
            metrics.task_id == task_id,
            metrics.name == name,
            metrics.total_duration.nanos == 0,
            metrics.running_time.nanos == 0,
            metrics.blocked_time.nanos == 0,
            metrics.poll_count == 0,
            metrics.await_count == 0,
            metrics.await_durations@ == Seq::<Duration>::empty(),
            metrics.avg_poll_duration.nanos == 0,
            !metrics.completed,
    {
        TaskMetrics {
            task_id,
            name,
            total_duration: Duration::zero(),
            running_time: Duration::zero(),
            blocked_time: Duration::zero(),
            poll_count: 0,
            await_count: 0,
            await_durations: Vec::new(),
            avg_poll_duration: Duration::zero(),
            completed: false,
        }
    }

    /// Whether the task took more than `threshold_ms` whole milliseconds.
    pub open spec fn exceeds(self, threshold_ms: u64) -> bool {
        self.total_duration.nanos / NANOS_PER_MILLI > threshold_ms
    }

    pub fn is_bottleneck(&self, threshold_ms: u64) -> (slow: bool)
        ensures
            slow == self.exceeds(threshold_ms),
    {
        self.total_duration.as_millis() > threshold_ms
    }

    /// The share of the task's age that it spent running, as the fraction
    /// of running time over age; zero for a task of no age.
    pub open spec fn efficiency(self) -> RankKey {
        if self.total_duration.nanos == 0 {
            RankKey { num: 0, den: 1 }
        } else {
            RankKey { num: self.running_time.nanos, den: self.total_duration.nanos }
        }
    }

    /// The running time and the age, in nanoseconds, whose quotient is the
    /// efficiency.
    pub fn efficiency_parts(&self) -> (key: RankKey)
        ensures
            key == self.efficiency(),
            key.valid(),
    {
        RankKey::ratio(self.running_time.nanos, self.total_duration.nanos)
    }
}

/// A code path that ran, and how often and how long.
#[derive(Debug, Clone)]
pub struct HotPath {
    /// The name of the path: that of the tasks that ran it.
    pub path: String,
    pub execution_count: u64,
    pub total_time: Duration,
    /// The total time divided by the number of executions.
    pub avg_time: Duration,
}

impl HotPath {
    /// The path after one more execution that took `duration`. The count and
    /// the total stay at their largest value once they reach it.
    pub open spec fn after_run(self, duration: Duration) -> HotPath {
        let count = saturating_sum(self.execution_count as int, 1);
        let total = saturating_sum(self.total_time.nanos as int, duration.nanos as int);
        HotPath {
            path: self.path,
            execution_count: count as u64,
            total_time: Duration { nanos: total as u64 },
            avg_time: Duration { nanos: (total / count) as u64 },
        }
    }

    fn record_run(&mut self, duration: Duration)
        ensures
            *final(self) == old(self).after_run(duration),
    {
        self.execution_count = self.execution_count.saturating_add(1);
        self.total_time = self.total_time.saturating_add(duration);
        self.avg_time = Duration { nanos: self.total_time.nanos / self.execution_count };
    }
}

/// The figures with the given task.
pub open spec fn of_task(id: TaskId) -> spec_fn(TaskMetrics) -> bool {
    |m: TaskMetrics| m.task_id == id
}

/// The path with the given name.
pub open spec fn named(name: Seq<char>) -> spec_fn(HotPath) -> bool {
    |h: HotPath| h.path@ == name
}

/// The raw identifier of the task of some figures.
pub open spec fn metrics_raw_id() -> spec_fn(TaskMetrics) -> u64 {
    |m: TaskMetrics| m.task_id.0
}

/// The task of some figures.
pub open spec fn metrics_task() -> spec_fn(TaskMetrics) -> TaskId {
    |m: TaskMetrics| m.task_id
}

/// The name of a path.
pub open spec fn path_name() -> spec_fn(HotPath) -> Seq<char> {
    |h: HotPath| h.path@
}

/// The paths after a task named `name` that took `duration` was recorded: its
/// path has one more execution, and is new at the end if it was not there.
pub open spec fn with_run(paths: Seq<HotPath>, name: String, duration: Duration) -> Seq<HotPath> {
    let i = first_match(paths, named(name@));
    if i < paths.len() {
        paths.update(i, paths[i].after_run(duration))
    } else {
        paths.push(
            (HotPath {
                path: name,
                execution_count: 0,
                total_time: Duration { nanos: 0 },
                avg_time: Duration { nanos: 0 },
            }).after_run(duration),
        )
    }
}

/// The age of each task.
pub open spec fn total_durations(metrics: Seq<TaskMetrics>) -> Seq<Duration> {
    metrics.map_values(|m: TaskMetrics| m.total_duration)
}

/// The measured waits of all tasks, task after task.
pub open spec fn all_await_durations(metrics: Seq<TaskMetrics>) -> Seq<Duration>
    decreases metrics.len(),
{
    if metrics.len() == 0 {
        Seq::empty()
    } else {
        all_await_durations(metrics.drop_last()) + metrics.last().await_durations@
    }
}

/// What to rank the tasks by.
#[derive(Debug, Clone, Copy, PartialEq, Eq, Structural)]
pub enum Ranking {
    /// The oldest task first.
    Slowest,
    /// The task with the most polls first.
    Busiest,
    /// The task with the smallest efficiency first.
    LeastEfficient,
}

/// The key of one task under a ranking.
pub open spec fn ranking_key(by: Ranking, m: TaskMetrics) -> RankKey {
    match by {
        Ranking::Slowest => RankKey { num: (u64::MAX - m.total_duration.nanos) as u64, den: 1 },
        Ranking::Busiest => RankKey { num: (u64::MAX - m.poll_count) as u64, den: 1 },
        Ranking::LeastEfficient => m.efficiency(),
    }
}

/// The keys of the tasks under a ranking.
pub open spec fn ranking_keys(by: Ranking, metrics: Seq<TaskMetrics>) -> Seq<RankKey> {
    metrics.map_values(|m: TaskMetrics| ranking_key(by, m))
}

/// The keys under which the path that ran most often comes first.
pub open spec fn path_keys(paths: Seq<HotPath>) -> Seq<RankKey> {
    paths.map_values(|h: HotPath| RankKey { num: (u64::MAX - h.execution_count) as u64, den: 1 })
}

/// Whether `top` holds the first `count` items of `items` in the order of
/// their keys, or all of them where there are fewer. Items with level keys
/// come in the order in which they stand in `items`.
pub open spec fn is_top<T>(items: Seq<T>, keys: Seq<RankKey>, count: nat, top: Seq<&T>) -> bool {
    &&& top.len() == if count < items.len() {
        count
    } else {
        items.len()
    }
    &&& exists|order: Seq<usize>|
        is_ranking(keys, order) && forall|i: int|
            0 <= i < top.len() ==> *(#[trigger] top[i]) == items[order[i] as int]
}

/// The figures of the tasks, one entry for each task, in the order in which
/// the tasks were first recorded; a hash map finds the entry of a task. The
/// paths are few and are found by their names.
#[derive(Debug)]
pub struct Profiler {
    task_metrics: Vec<TaskMetrics>,
    index: HashMap<u64, usize>,
    hot_paths: Vec<HotPath>,
    bottleneck_threshold: u64,
}

/// The threshold of a new profiler, in milliseconds.
pub const DEFAULT_BOTTLENECK_THRESHOLD_MS: u64 = 100;

impl Profiler {
    /// The recorded figures, in the order in which their tasks were first
    /// recorded.
    pub closed spec fn metrics(&self) -> Seq<TaskMetrics> {
        self.task_metrics@
    }

    /// The paths, in the order in which they first ran.
    pub closed spec fn paths(&self) -> Seq<HotPath> {
        self.hot_paths@
    }

    /// The age in milliseconds above which a task is a bottleneck.
    pub closed spec fn threshold(&self) -> u64 {
        self.bottleneck_threshold
    }

    /// The index says of every task where its figures stand.
    pub closed spec fn indexed(&self) -> bool {
        is_index(self.index@, self.task_metrics@.map_values(metrics_raw_id()))
    }

    /// No task has two entries, no path has two, and the index is in step
    /// with the figures.
    pub open spec fn wf(&self) -> bool {
        &&& distinct_by(self.metrics(), metrics_task())
        &&& distinct_by(self.paths(), path_name())
        &&& self.indexed()
    }

    pub fn new() -> (profiler: Profiler)
        ensures
            profiler.wf(),
            profiler.metrics() == Seq::<TaskMetrics>::empty(),
            profiler.paths() == Seq::<HotPath>::empty(),
            profiler.threshold() == DEFAULT_BOTTLENECK_THRESHOLD_MS,
    {
        Profiler {
            task_metrics: Vec::new(),
            index: HashMap::new(),
            hot_paths: Vec::new(),
            bottleneck_threshold: DEFAULT_BOTTLENECK_THRESHOLD_MS,
        }
    }

    pub fn set_bottleneck_threshold(&mut self, threshold_ms: u64)
        ensures
            final(self).threshold() == threshold_ms,
            final(self).metrics() == old(self).metrics(),
            final(self).paths() == old(self).paths(),
            old(self).wf() ==> final(self).wf(),
    {
        self.bottleneck_threshold = threshold_ms;
    }

    fn metrics_position(&self, task_id: TaskId) -> (i: usize)
        requires
            self.indexed(),
        ensures
            i == first_match(self.metrics(), of_task(task_id)),
            i <= self.metrics().len(),
    {
        proof {
            lemma_index_finds(
                self.index@,
                self.task_metrics@,
                metrics_raw_id(),
                of_task(task_id),
                task_id.0,
            );
        }
        match self.index.get(&task_id.0) {
            Some(i) => *i,
            None => self.task_metrics.len(),
        }
    }

    fn path_position(&self, name: &String) -> (i: usize)
        ensures
            i == first_match(self.paths(), named(name@)),
            i <= self.paths().len(),
    {
        let n: usize = self.hot_paths.len();
        let mut i: usize = 0;
        while i < n && !(self.hot_paths[i].path == *name)
            invariant
                n == self.hot_paths@.len(),
                i <= n,
                forall|j: int| 0 <= j < i ==> self.hot_paths@[j].path@ != name@,
            decreases n - i,
        {
            i = i + 1;
        }
        proof {
            lemma_first_match_is(self.hot_paths@, named(name@), i as int);
        }
        i
    }

    /// Records the figures of one task: they take the place of earlier
    /// figures of the same task, and the path of the task's name has run
    /// once more, for the task's age.
    pub fn record_task(&mut self, metrics: TaskMetrics)
        requires
            old(self).wf(),
        ensures
            final(self).wf(),
            final(self).threshold() == old(self).threshold(),
            final(self).paths() == with_run(old(self).paths(), metrics.name, metrics.total_duration),
            final(self).metrics() == upsert(
                old(self).metrics(),
                of_task(metrics.task_id),
                metrics,
            ),
    {
        let p: usize = self.path_position(&metrics.name);
        if p == self.hot_paths.len() {
            self.hot_paths.push(
                HotPath {
                    path: metrics.name.clone(),
                    execution_count: 0,
                    total_time: Duration::zero(),
                    avg_time: Duration::zero(),
                },
            );
        }
        self.hot_paths[p].record_run(metrics.total_duration);
        proof {
            let before = old(self).paths();
            let after = self.hot_paths@;
            assert(after =~= with_run(before, metrics.name, metrics.total_duration));
            crate::lookup::lemma_first_match(before, named(metrics.name@));
            assert forall|i: int, j: int| 0 <= i < j < after.len() implies path_name()(after[i])
                != path_name()(after[j]) by {
                if i != p && j != p {
                    assert(path_name()(before[i]) != path_name()(before[j]));
                } else if (p as int) < before.len() {
                    assert(path_name()(before[i]) != path_name()(before[j]));
                } else {
                    assert(!named(metrics.name@)(before[i]));
                }
            }
            crate::lookup::lemma_upsert_keeps_distinct(
                old(self).metrics(),
                metrics_task(),
                of_task(metrics.task_id),
                metrics,
            );
        }
        let i: usize = self.metrics_position(metrics.task_id);
        let ghost keys = self.task_metrics@.map_values(metrics_raw_id());
        proof {
            lemma_first_match(self.task_metrics@, of_task(metrics.task_id));
        }
        if i == self.task_metrics.len() {
            proof {
                if self.index@.contains_key(metrics.task_id.0) {
                    assert(keys[self.index@[metrics.task_id.0] as int] == metrics.task_id.0);
                }
                lemma_index_push(self.index@, keys, metrics.task_id.0);
            }
            self.index.insert(metrics.task_id.0, i);
            self.task_metrics.push(metrics);
            assert(self.task_metrics@.map_values(metrics_raw_id()) =~= keys.push(
                metrics.task_id.0,
            ));
        } else {
            self.task_metrics[i] = metrics;
            assert(self.task_metrics@.map_values(metrics_raw_id()) =~= keys);
        }
    }

    /// The figures of one task, if any were recorded.
    pub fn get_task_metrics(&self, task_id: &TaskId) -> (found: Option<&TaskMetrics>)
        requires
            self.wf(),
        ensures
            match found {
                Some(m) => has_match(self.metrics(), of_task(*task_id)) && *m
                    == self.metrics()[first_match(self.metrics(), of_task(*task_id))],
                None => !has_match(self.metrics(), of_task(*task_id)),
            },
    {
        let i: usize = self.metrics_position(*task_id);
        if i < self.task_metrics.len() {
            Some(&self.task_metrics[i])
        } else {
            None
        }
    }

    /// All recorded figures, in the order in which their tasks were first
    /// recorded.
    pub fn all_metrics(&self) -> (all: Vec<&TaskMetrics>)
        ensures
            all@.len() == self.metrics().len(),
            forall|i: int| 0 <= i < all@.len() ==> *all@[i] == self.metrics()[i],
    {
        let mut all: Vec<&TaskMetrics> = Vec::new();
        let n: usize = self.task_metrics.len();
        for i in 0..n
            invariant
                n == self.task_metrics@.len(),
                all@.len() == i,
                forall|j: int| 0 <= j < i ==> *all@[j] == self.task_metrics@[j],
        {
            all.push(&self.task_metrics[i]);
        }
        all
    }

    /// The figures that are over the threshold.
    pub open spec fn bottlenecks(&self) -> Seq<TaskMetrics> {
        self.metrics().filter(|m: TaskMetrics| m.exceeds(self.threshold()))
    }

    /// The tasks that took longer than the threshold, in the order in which
    /// they were first recorded.
    pub fn identify_bottlenecks(&self) -> (slow: Vec<&TaskMetrics>)
        ensures
            slow@.len() == self.bottlenecks().len(),
            forall|i: int| 0 <= i < slow@.len() ==> *slow@[i] == self.bottlenecks()[i],
    {
        let mut slow: Vec<&TaskMetrics> = Vec::new();
        let n: usize = self.task_metrics.len();
        let ghost pred = |m: TaskMetrics| m.exceeds(self.threshold());
        proof {
            reveal(Seq::filter);
        }
        for i in 0..n
            invariant
                n == self.task_metrics@.len(),
                pred == (|m: TaskMetrics| m.exceeds(self.threshold())),
                slow@.len() == self.task_metrics@.take(i as int).filter(pred).len(),
                forall|j: int|
                    0 <= j < slow@.len() ==> *slow@[j] == self.task_metrics@.take(
                        i as int,
                    ).filter(pred)[j],
        {
            proof {
                assert(self.task_metrics@.take(i + 1) == self.task_metrics@.take(i as int).push(
                    self.task_metrics@[i as int],
                ));
                self.task_metrics@.take(i as int).lemma_filter_push(
                    self.task_metrics@[i as int],
                    pred,
                );
            }
            if self.task_metrics[i].is_bottleneck(self.bottleneck_threshold) {
                slow.push(&self.task_metrics[i]);
            }
        }
        assert(self.task_metrics@.take(n as int) == self.task_metrics@);
        slow
    }

    /// The paths, the one that ran most often first. Paths that ran equally
    /// often come in the order in which they first ran.
    pub fn get_hot_paths(&self) -> (hot: Vec<&HotPath>)
        ensures
            is_top(self.paths(), path_keys(self.paths()), self.paths().len(), hot@),
    {
        let n: usize = self.hot_paths.len();
        let mut keys: Vec<RankKey> = Vec::new();
        for i in 0..n
            invariant
                n == self.hot_paths@.len(),
                keys@ == path_keys(self.hot_paths@.take(i as int)),
        {
            keys.push(RankKey::descending(self.hot_paths[i].execution_count));
            assert(keys@ =~= path_keys(self.hot_paths@.take(i + 1)));
        }
        assert(self.hot_paths@.take(n as int) == self.hot_paths@);
        let order = rank(&keys);
        let mut hot: Vec<&HotPath> = Vec::new();
        for i in 0..n
            invariant
                n == self.hot_paths@.len(),
                is_ranking(keys@, order@),
                keys@.len() == n,
                hot@.len() == i,
                forall|j: int| 0 <= j < i ==> *hot@[j] == self.hot_paths@[order@[j] as int],
        {
            hot.push(&self.hot_paths[order[i]]);
        }
        hot
    }

    /// The statistics of the tasks' ages.
    pub fn calculate_stats(&self) -> (stats: DurationStats)
        ensures
            stats == DurationStats::of(total_durations(self.metrics())),
    {
        let n: usize = self.task_metrics.len();
        let mut durations: Vec<Duration> = Vec::new();
        for i in 0..n
            invariant
                n == self.task_metrics@.len(),
                durations@ == total_durations(self.task_metrics@.take(i as int)),
        {
            durations.push(self.task_metrics[i].total_duration);
            assert(durations@ =~= total_durations(self.task_metrics@.take(i + 1)));
        }
        assert(self.task_metrics@.take(n as int) == self.task_metrics@);
        DurationStats::from_durations(durations)
    }

    /// The statistics of all measured waits of all tasks.
    pub fn await_stats(&self) -> (stats: DurationStats)
        ensures
            stats == DurationStats::of(all_await_durations(self.metrics())),
    {
        let n: usize = self.task_metrics.len();
        let mut durations: Vec<Duration> = Vec::new();
        for i in 0..n
            invariant
                n == self.task_metrics@.len(),
                durations@ == all_await_durations(self.task_metrics@.take(i as int)),
        {
            let waits = &self.task_metrics[i].await_durations;
            let ghost base = durations@;
            let k: usize = waits.len();
            for j in 0..k
                invariant
                    k == waits@.len(),
                    durations@ == base + waits@.take(j as int),
            {
                durations.push(waits[j]);
                assert(durations@ =~= base + waits@.take(j + 1));
            }
            proof {
                assert(waits@.take(k as int) == waits@);
                assert(self.task_metrics@.take(i + 1).drop_last() == self.task_metrics@.take(
                    i as int,
                ));
            }
        }
        assert(self.task_metrics@.take(n as int) == self.task_metrics@);
        DurationStats::from_durations(durations)
    }

    fn top_tasks(&self, by: Ranking, count: usize) -> (top: Vec<&TaskMetrics>)
        ensures
            is_top(self.metrics(), ranking_keys(by, self.metrics()), count as nat, top@),
    {
        let n: usize = self.task_metrics.len();
        let mut keys: Vec<RankKey> = Vec::new();
        for i in 0..n
            invariant
                n == self.task_metrics@.len(),
                keys@ == ranking_keys(by, self.task_metrics@.take(i as int)),
                forall|j: int| 0 <= j < keys@.len() ==> (#[trigger] keys@[j]).valid(),
        {
            let m = &self.task_metrics[i];
            let key = match by {
                Ranking::Slowest => RankKey::descending(m.total_duration.nanos),
                Ranking::Busiest => RankKey::descending(m.poll_count),
                Ranking::LeastEfficient => m.efficiency_parts(),
            };
            keys.push(key);
            assert(keys@ =~= ranking_keys(by, self.task_metrics@.take(i + 1)));
        }
        assert(self.task_metrics@.take(n as int) == self.task_metrics@);
        let order = rank(&keys);
        let limit: usize = if count < n {
            count
        } else {
            n
        };
        let mut top: Vec<&TaskMetrics> = Vec::new();
        for i in 0..limit
            invariant
                n == self.task_metrics@.len(),
                limit <= n,
                is_ranking(keys@, order@),
                keys@.len() == n,
                top@.len() == i,
                forall|j: int| 0 <= j < i ==> *top@[j] == self.task_metrics@[order@[j] as int],
        {
            top.push(&self.task_metrics[order[i]]);
        }
        top
    }

    /// The `count` oldest tasks, the oldest first. Tasks of one age come in
    /// the order in which they were first recorded.
    pub fn slowest_tasks(&self, count: usize) -> (top: Vec<&TaskMetrics>)
        ensures
            is_top(
                self.metrics(),
                ranking_keys(Ranking::Slowest, self.metrics()),
                count as nat,
                top@,
            ),
    {
        self.top_tasks(Ranking::Slowest, count)
    }

    /// The `count` tasks with the most polls, the busiest first. Tasks with
    /// equally many polls come in the order in which they were first recorded.
    pub fn busiest_tasks(&self, count: usize) -> (top: Vec<&TaskMetrics>)
        ensures
            is_top(
                self.metrics(),
                ranking_keys(Ranking::Busiest, self.metrics()),
                count as nat,
                top@,
            ),
    {
        self.top_tasks(Ranking::Busiest, count)
    }

    /// The `count` tasks that spent the smallest share of their age running,
    /// the least efficient first. Tasks of one efficiency come in the order
    /// in which they were first recorded.
    pub fn least_efficient_tasks(&self, count: usize) -> (top: Vec<&TaskMetrics>)
        ensures
            is_top(
                self.metrics(),
                ranking_keys(Ranking::LeastEfficient, self.metrics()),
                count as nat,
                top@,
            ),
    {
        self.top_tasks(Ranking::LeastEfficient, count)
    }
}

} // verus!
