//! Settings for production use: how much to record, and what recording
//! costs.

use vstd::prelude::*;
use crate::ids::advance;

verus! {

/// What a configuration holds.
pub struct Settings {
    /// One task in this many is recorded; one means every task.
    pub sampling_rate: usize,
    /// How many events to keep; zero means all.
    pub max_events: usize,
    /// How many tasks to keep; zero means all.
    pub max_tasks: usize,
    /// How many sampling decisions were made at a rate above one.
    pub sample_counter: u64,
    pub track_awaits: bool,
    pub track_polls: bool,
    pub enable_html: bool,
    /// The time spent in recording, in nanoseconds.
    pub overhead_ns: u64,
    /// How often the time spent in recording was measured.
    pub instrumentation_calls: u64,
}

impl Settings {
    /// The settings of a new configuration: everything is recorded, and up
    /// to ten thousand events and a thousand tasks are kept.
    pub open spec fn initial() -> Settings {
        Settings {
            sampling_rate: 1,
            max_events: 10_000,
            max_tasks: 1_000,
            sample_counter: 0,
            track_awaits: true,
            track_polls: true,
            enable_html: true,
            overhead_ns: 0,
            instrumentation_calls: 0,
        }
    }

    /// Whether the next task is recorded: every task at a rate of one or
    /// less, else the first of every `sampling_rate` tasks.
    pub open spec fn samples_next(self) -> bool {
        self.sampling_rate <= 1 || self.sample_counter as int % self.sampling_rate as int == 0
    }

    /// The settings after a sampling decision. The counter goes round after
    /// `u64::MAX`.
    pub open spec fn sampled(self) -> Settings {
        if self.sampling_rate <= 1 {
            self
        } else {
            Settings { sample_counter: advance(self.sample_counter, 1), ..self }
        }
    }

    /// The settings after `nanos` more nanoseconds were spent in recording.
    /// Both counters go round after `u64::MAX`.
    pub open spec fn with_overhead(self, nanos: u64) -> Settings {
        Settings {
            overhead_ns: advance(self.overhead_ns, nanos as nat),
            instrumentation_calls: advance(self.instrumentation_calls, 1),
            ..self
        }
    }

    /// The settings for production: one task in a hundred, few events and
    /// tasks, no tracking of awaits and no reports.
    pub open spec fn production(self) -> Settings {
        Settings {
            sampling_rate: 100,
            max_events: 1_000,
            max_tasks: 500,
            track_awaits: false,
            enable_html: false,
            ..self
        }
    }

    /// The settings for development: every task, with awaits and reports.
    pub open spec fn development(self) -> Settings {
        Settings {
            sampling_rate: 1,
            max_events: 10_000,
            max_tasks: 1_000,
            track_awaits: true,
            enable_html: true,
            ..self
        }
    }

    /// The settings for debugging: every task, and no limits.
    pub open spec fn debugging(self) -> Settings {
        Settings {
            sampling_rate: 1,
            max_events: 0,
            max_tasks: 0,
            track_awaits: true,
            enable_html: true,
            ..self
        }
    }
}

/// The settings, and the counters of what recording costs.
#[derive(Debug)]
pub struct Config {
    sampling_rate: usize,
    max_events: usize,
    max_tasks: usize,
    sample_counter: u64,
    track_awaits: bool,
    track_polls: bool,
    enable_html: bool,
    overhead_ns: u64,
    instrumentation_calls: u64,
}

impl View for Config {
    type V = Settings;

    closed spec fn view(&self) -> Settings {
        Settings {
            sampling_rate: self.sampling_rate,
            max_events: self.max_events,
            max_tasks: self.max_tasks,
            sample_counter: self.sample_counter,
            track_awaits: self.track_awaits,
            track_polls: self.track_polls,
            enable_html: self.enable_html,
            overhead_ns: self.overhead_ns,
            instrumentation_calls: self.instrumentation_calls,
        }
    }
}

impl Config {
    pub fn new() -> (config: Config)
        ensures
            config@ == Settings::initial(),
    {
        Config {
            sampling_rate: 1,
            max_events: 10_000,
            max_tasks: 1_000,
            sample_counter: 0,
            track_awaits: true,
            track_polls: true,
            enable_html: true,
            overhead_ns: 0,
            instrumentation_calls: 0,
        }
    }

    /// Sets the rate: one task in `rate` is recorded. A rate of zero counts
    /// as one.
    pub fn set_sampling_rate(&mut self, rate: usize)
        ensures
            final(self)@ == (Settings {
                sampling_rate: if rate < 1 {
                    1
                } else {
                    rate
                },
                ..old(self)@
            }),
    {
        self.sampling_rate = if rate < 1 {
            1
        } else {
            rate
        };
    }

    pub fn sampling_rate(&self) -> (rate: usize)
        ensures
            rate == self@.sampling_rate,
    {
        self.sampling_rate
    }

    pub fn set_max_events(&mut self, max: usize)
        ensures
            final(self)@ == (Settings { max_events: max, ..old(self)@ }),
    {
        self.max_events = max;
    }

    pub fn max_events(&self) -> (max: usize)
        ensures
            max == self@.max_events,
    {
        self.max_events
    }

    pub fn set_max_tasks(&mut self, max: usize)
        ensures
            final(self)@ == (Settings { max_tasks: max, ..old(self)@ }),
    {
        self.max_tasks = max;
    }

    pub fn max_tasks(&self) -> (max: usize)
        ensures
            max == self@.max_tasks,
    {
        self.max_tasks
    }

    pub fn set_track_awaits(&mut self, enabled: bool)
        ensures
            final(self)@ == (Settings { track_awaits: enabled, ..old(self)@ }),
    {
        self.track_awaits = enabled;
    }

    pub fn track_awaits(&self) -> (enabled: bool)
        ensures
            enabled == self@.track_awaits,
    {
        self.track_awaits
    }

    pub fn set_track_polls(&mut self, enabled: bool)
        ensures
            final(self)@ == (Settings { track_polls: enabled, ..old(self)@ }),
    {
        self.track_polls = enabled;
    }

    pub fn track_polls(&self) -> (enabled: bool)
        ensures
            enabled == self@.track_polls,
    {
        self.track_polls
    }

    pub fn set_enable_html(&mut self, enabled: bool)
        ensures
            final(self)@ == (Settings { enable_html: enabled, ..old(self)@ }),
    {
        self.enable_html = enabled;
    }

    pub fn enable_html(&self) -> (enabled: bool)
        ensures
            enabled == self@.enable_html,
    {
        self.enable_html
    }

    /// Decides whether the next task is recorded, and counts the decision.
    pub fn should_sample(&mut self) -> (sample: bool)
        ensures
            sample == old(self)@.samples_next(),
            final(self)@ == old(self)@.sampled(),
    {
        let rate: usize = self.sampling_rate;
        if rate <= 1 {
            return true;
        }
        let count: u64 = self.sample_counter;
        self.sample_counter = count.wrapping_add(1);
        count % (rate as u64) == 0
    }

    /// Counts `nanos` nanoseconds spent in recording.
    pub fn record_overhead(&mut self, nanos: u64)
        ensures
            final(self)@ == old(self)@.with_overhead(nanos),
    {
        self.overhead_ns = self.overhead_ns.wrapping_add(nanos);
        self.instrumentation_calls = self.instrumentation_calls.wrapping_add(1);
    }

    pub fn total_overhead_ns(&self) -> (nanos: u64)
        ensures
            nanos == self@.overhead_ns,
    {
        self.overhead_ns
    }

    pub fn instrumentation_calls(&self) -> (calls: u64)
        ensures
            calls == self@.instrumentation_calls,
    {
        self.instrumentation_calls
    }

    /// Sets up for production, where recording must cost little.
    pub fn production_mode(&mut self)
        ensures
            final(self)@ == old(self)@.production(),
    {
        self.set_sampling_rate(100);
        self.set_max_events(1_000);
        self.set_max_tasks(500);
        self.set_track_awaits(false);
        self.set_enable_html(false);
    }

    /// Sets up for development, where everything is recorded.
    pub fn development_mode(&mut self)
        ensures
            final(self)@ == old(self)@.development(),
    {
        self.set_sampling_rate(1);
        self.set_max_events(10_000);
        self.set_max_tasks(1_000);
        self.set_track_awaits(true);
        self.set_enable_html(true);
    }

    /// Sets up for debugging, where nothing is left out or dropped.
    pub fn debug_mode(&mut self)
        ensures
            final(self)@ == old(self)@.debugging(),
    {
        self.set_sampling_rate(1);
        self.set_max_events(0);
        self.set_max_tasks(0);
        self.set_track_awaits(true);
        self.set_enable_html(true);
    }

    /// Sets the counters of what recording costs back to zero.
    pub fn reset_overhead(&mut self)
        ensures
            final(self)@ == (Settings {
                overhead_ns: 0,
                instrumentation_calls: 0,
                ..old(self)@
            }),
    {
        self.overhead_ns = 0;
        self.instrumentation_calls = 0;
    }
}

} // verus!
