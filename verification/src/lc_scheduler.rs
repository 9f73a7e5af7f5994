//! Cron-style plugin tasks of the command-line program.
use vstd::prelude::*;
use crate::text::{chars_of, words, words_chars};

verus! {

/// A plugin capability to run on a cron schedule.
#[derive(Debug, Clone)]
pub struct ScheduledTask {
    pub name: String,
    pub cron: String,
    pub plugin_manifest: String,
    pub capability: String,
}

impl ScheduledTask {
    /// A cron expression of five fields is due every minute.
    pub fn is_due_every_minute(&self) -> (r: bool)
        ensures
            r == (words(self.cron@).len() == 5),
    {
        let cs = chars_of(self.cron.as_str());
        let parts = words_chars(cs.as_slice());
        parts.len() == 5
    }
}

} // verus!
