//! Following units of asynchronous work as a runtime drives them.

pub mod tokio;
