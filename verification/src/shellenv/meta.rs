//! What the shell keeps about itself.

use vstd::prelude::*;

verus! {

/// How long the last command took, and which commands there are. Times are in
/// nanoseconds of a clock that does not go back.
pub struct MetaTab {
    pub timer_start: u64,
    pub last_runtime: Option<u64>,
    pub path_cmds: Vec<String>,
}

impl MetaTab {
    pub fn new(now: u64, path_cmds: Vec<String>) -> (r: Self)
        ensures
            r == (MetaTab { timer_start: now, last_runtime: None, path_cmds }),
    {
        MetaTab { timer_start: now, last_runtime: None, path_cmds }
    }

    pub fn start_timer(&mut self, now: u64)
        ensures
            *final(self) == (MetaTab { timer_start: now, ..*old(self) }),
    {
        self.timer_start = now;
    }

    /// Keeps the time since the timer was started; none where it was started
    /// later.
    pub fn stop_timer(&mut self, now: u64)
        ensures
            *final(self) == (MetaTab {
                last_runtime: Some(
                    if now >= old(self).timer_start {
                        (now - old(self).timer_start) as u64
                    } else {
                        0
                    },
                ),
                ..*old(self)
            }),
    {
        self.last_runtime = Some(now.saturating_sub(self.timer_start));
    }

    pub fn get_runtime(&self) -> (r: Option<u64>)
        ensures
            r == self.last_runtime,
    {
        self.last_runtime
    }

    pub fn path_cmds(&self) -> (r: &[String])
        ensures
            r@ == self.path_cmds@,
    {
        self.path_cmds.as_slice()
    }
}

} // verus!
