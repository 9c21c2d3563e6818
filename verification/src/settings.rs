//! What one statement may spend.

use vstd::prelude::*;

verus! {

/// The limits written on a statement. An absent one is the server's own.
#[derive(Clone, Copy, PartialEq, Eq, Debug, Structural)]
pub struct Settings {
    /// Seconds.
    pub max_execution_time: Option<u64>,
    /// Bytes.
    pub max_memory_usage: Option<u64>,
    /// Rows of the answer.
    pub max_result_rows: Option<u64>,
    /// Records one delete may clear.
    pub max_delete_records: Option<u64>,
}

/// No limits.
pub open spec fn no_settings() -> Settings {
    Settings {
        max_execution_time: None,
        max_memory_usage: None,
        max_result_rows: None,
        max_delete_records: None,
    }
}

impl Default for Settings {
    fn default() -> (r: Settings)
        ensures
            r == no_settings(),
    {
        Settings {
            max_execution_time: None,
            max_memory_usage: None,
            max_result_rows: None,
            max_delete_records: None,
        }
    }
}

impl Settings {
    /// Whether nothing was written.
    pub fn is_empty(&self) -> (r: bool)
        ensures
            r == (*self == no_settings()),
    {
        self.max_execution_time.is_none() && self.max_memory_usage.is_none()
            && self.max_result_rows.is_none() && self.max_delete_records.is_none()
    }
}

} // verus!
