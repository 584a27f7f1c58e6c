//! What a list of tasks on a screen is ordered and filtered by.

use vstd::prelude::*;
use crate::task::TaskState;

verus! {

/// What the list of tasks is ordered by.
#[derive(Debug, Clone, Copy, PartialEq, Eq, Structural)]
pub enum SortMode {
    Id,
    Name,
    /// The oldest task first.
    Duration,
    State,
    PollCount,
}

/// Which tasks the list shows.
#[derive(Debug, Clone, Copy, PartialEq, Eq, Structural)]
pub enum FilterMode {
    All,
    Running,
    Completed,
    Failed,
    Blocked,
}

impl SortMode {
    /// The mode that follows this one, going round.
    pub open spec fn following(self) -> SortMode {
        match self {
            SortMode::Id => SortMode::Name,
            SortMode::Name => SortMode::Duration,
            SortMode::Duration => SortMode::State,
            SortMode::State => SortMode::PollCount,
            SortMode::PollCount => SortMode::Id,
        }
    }

    pub fn next(self) -> (mode: SortMode)
        ensures
            mode == self.following(),
    {
        match self {
            SortMode::Id => SortMode::Name,
            SortMode::Name => SortMode::Duration,
            SortMode::Duration => SortMode::State,
            SortMode::State => SortMode::PollCount,
            SortMode::PollCount => SortMode::Id,
        }
    }
}

impl FilterMode {
    /// The mode that follows this one, going round.
    pub open spec fn following(self) -> FilterMode {
        match self {
            FilterMode::All => FilterMode::Running,
            FilterMode::Running => FilterMode::Completed,
            FilterMode::Completed => FilterMode::Failed,
            FilterMode::Failed => FilterMode::Blocked,
            FilterMode::Blocked => FilterMode::All,
        }
    }

    pub fn next(self) -> (mode: FilterMode)
        ensures
            mode == self.following(),
    {
        match self {
            FilterMode::All => FilterMode::Running,
            FilterMode::Running => FilterMode::Completed,
            FilterMode::Completed => FilterMode::Failed,
            FilterMode::Failed => FilterMode::Blocked,
            FilterMode::Blocked => FilterMode::All,
        }
    }

    /// Whether a task in `state` is shown.
    pub open spec fn admits(self, state: TaskState) -> bool {
        match self {
            FilterMode::All => true,
            FilterMode::Running => state is Running,
            FilterMode::Completed => state is Completed,
            FilterMode::Failed => state is Failed,
            FilterMode::Blocked => state is Blocked,
        }
    }

    pub fn shows(self, state: &TaskState) -> (shown: bool)
        ensures
            shown == self.admits(*state),
    {
        match self {
            FilterMode::All => true,
            FilterMode::Running => matches!(state, TaskState::Running),
            FilterMode::Completed => matches!(state, TaskState::Completed),
            FilterMode::Failed => matches!(state, TaskState::Failed),
            FilterMode::Blocked => matches!(state, TaskState::Blocked { .. }),
        }
    }
}

} // verus!
