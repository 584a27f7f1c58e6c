//! In-process observability for concurrent task execution: a task registry,
//! an event timeline, a deadlock detector, a relationship graph and a
//! profiler, with their contracts.

pub mod blocking;
pub mod config;
pub mod cycles;
pub mod deadlock;
pub mod dot;
pub mod export;
pub mod graph;
pub mod ids;
pub mod inspector;
pub mod instrument;
pub mod integrations;
pub mod laws;
pub mod lookup;
pub mod outline;
pub mod paths;
pub mod profile;
pub mod rank;
pub mod reach;
pub mod runtime;
pub mod stats;
pub mod task;
pub mod text;
pub mod time;
pub mod timeline;
pub mod tui;
pub mod waits;
