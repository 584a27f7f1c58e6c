//! Working together with other tools.

pub mod tokio_console;
