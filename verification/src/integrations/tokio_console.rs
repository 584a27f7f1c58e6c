//! Settings for use beside a live console.

use vstd::prelude::*;
use vstd::string::*;
use crate::text::{decimal, push_decimal, push_truth, truth};

verus! {

/// How to behave beside a live console.
#[derive(Debug, Clone, Copy, PartialEq, Eq, Structural)]
pub struct ConsoleIntegrationConfig {
    /// Whether to keep to what the console understands.
    pub console_compatible: bool,
    /// Whether to leave out tasks that were short.
    pub filter_short_tasks: bool,
    /// The shortest task to show, in milliseconds.
    pub min_duration_ms: u64,
}

impl ConsoleIntegrationConfig {
    /// How the settings are written.
    pub open spec fn text(self) -> Seq<char> {
        "ConsoleIntegration { compatible: "@ + truth(self.console_compatible) + ", filter: "@
            + truth(self.filter_short_tasks) + ", min_ms: "@ + decimal(
            self.min_duration_ms as nat,
        ) + " }"@
    }

    pub fn to_string(&self) -> (s: String)
        ensures
            s@ == self.text(),
    {
        let mut s = String::from_str("ConsoleIntegration { compatible: ");
        push_truth(&mut s, self.console_compatible);
        s.append(", filter: ");
        push_truth(&mut s, self.filter_short_tasks);
        s.append(", min_ms: ");
        push_decimal(&mut s, self.min_duration_ms);
        s.append(" }");
        assert(s@ =~= self.text());
        s
    }
}

impl Default for ConsoleIntegrationConfig {
    fn default() -> (config: ConsoleIntegrationConfig)
        ensures
            config == (ConsoleIntegrationConfig {
                console_compatible: true,
                filter_short_tasks: true,
                min_duration_ms: 10,
            }),
    {
        ConsoleIntegrationConfig {
            console_compatible: true,
            filter_short_tasks: true,
            min_duration_ms: 10,
        }
    }
}

} // verus!
