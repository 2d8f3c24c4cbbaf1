//! What the shell knows: variables, aliases, redirections and the terminal.

pub mod exec_ctx;
pub mod input;
pub mod logic;
pub mod meta;
pub mod shenv;
pub mod vars;

use crate::shopt;
use crate::shopt::to_lower;
use crate::text::same_str;
use vstd::prelude::*;

verus! {

/// What became of a process.
#[derive(Debug, Clone, Copy, PartialEq, Eq, Structural)]
pub enum WtStat {
    Exited(i32),
    /// Stopped by a signal.
    Stopped(u8),
    /// Ended by a signal, and whether it is the one that stops from the terminal.
    Signaled(u8, bool),
    Other,
}

impl WtStat {
    /// The status code that it leaves, if any.
    pub open spec fn code(self, offset: int) -> Option<int> {
        match self {
            WtStat::Exited(c) => Some(c as int),
            WtStat::Stopped(s) => Some(offset + s),
            WtStat::Signaled(s, _) => Some(offset + s),
            WtStat::Other => None,
        }
    }

    /// Whether the job goes to the background.
    pub open spec fn to_background(self) -> bool {
        self is Stopped || self matches WtStat::Signaled(_, true)
    }
}

/// The last status code among the first `n`, zero where there is none.
pub open spec fn last_code(statuses: Seq<WtStat>, offset: int, n: int) -> int
    decreases n,
{
    if n <= 0 {
        0
    } else {
        match statuses[n - 1].code(offset) {
            Some(c) => c,
            None => last_code(statuses, offset, n - 1),
        }
    }
}

/// Which of the first `n` send the job to the background.
pub open spec fn stopping(statuses: Seq<WtStat>, n: int) -> Seq<usize>
    decreases n,
{
    if n <= 0 {
        Seq::empty()
    } else if statuses[n - 1].to_background() {
        stopping(statuses, n - 1).push((n - 1) as usize)
    } else {
        stopping(statuses, n - 1)
    }
}

/// The status code of a job in the foreground, and which of its processes send
/// it to the background. Signals are counted from `offset`.
pub fn wait_fg(statuses: &[WtStat], offset: i32) -> (r: (i32, Vec<usize>))
    requires
        0 <= offset <= 0x7fff_ff00,
    ensures
        r.0 == last_code(statuses@, offset as int, statuses@.len() as int),
        r.1@ == stopping(statuses@, statuses@.len() as int),
{
    let mut code: i32 = 0;
    let mut back: Vec<usize> = Vec::new();
    let mut i: usize = 0;
    while i < statuses.len()
        invariant
            i <= statuses@.len(),
            0 <= offset <= 0x7fff_ff00,
            code == last_code(statuses@, offset as int, i as int),
            back@ == stopping(statuses@, i as int),
        decreases statuses@.len() - i,
    {
        match statuses[i] {
            WtStat::Exited(c) => {
                code = c;
            },
            WtStat::Stopped(s) => {
                back.push(i);
                code = offset + s as i32;
            },
            WtStat::Signaled(s, stops) => {
                if stops {
                    back.push(i);
                }
                code = offset + s as i32;
            },
            WtStat::Other => {},
        }
        i = i + 1;
    }
    (code, back)
}

/// How much is logged.
#[derive(Debug, Clone, Copy, PartialEq, Eq, Structural)]
pub enum LogLevel {
    Error,
    Warn,
    Info,
    Debug,
    Trace,
    Null,
}

/// How much a word asks to log; nothing where it is none of the words.
pub open spec fn level_named(word: Seq<char>) -> LogLevel {
    let w = shopt::lower_ascii(word);
    if w == "error"@ {
        LogLevel::Error
    } else if w == "warn"@ {
        LogLevel::Warn
    } else if w == "info"@ {
        LogLevel::Info
    } else if w == "debug"@ {
        LogLevel::Debug
    } else if w == "trace"@ {
        LogLevel::Trace
    } else {
        LogLevel::Null
    }
}

/// How much to log; case does not matter.
pub fn log_level(level: &str) -> (r: LogLevel)
    ensures
        r == level_named(level@),
{
    let w = to_lower(level);
    if same_str(w.as_str(), "error") {
        LogLevel::Error
    } else if same_str(w.as_str(), "warn") {
        LogLevel::Warn
    } else if same_str(w.as_str(), "info") {
        LogLevel::Info
    } else if same_str(w.as_str(), "debug") {
        LogLevel::Debug
    } else if same_str(w.as_str(), "trace") {
        LogLevel::Trace
    } else {
        LogLevel::Null
    }
}

/// What to do to give the terminal to a process group.
#[derive(Debug, Clone, Copy, PartialEq, Eq, Structural)]
pub enum TtyPlan {
    /// There is no terminal, or the group has it.
    Keep,
    /// Give it the terminal, after telling the group that has it where the flag
    /// says so.
    Switch(bool),
}

/// What to do to give the terminal to a group, where the shell's own group and
/// the group that has the terminal are these.
pub open spec fn tty_plan(is_tty: bool, pgid: i32, own: i32, holder: i32) -> TtyPlan {
    if !is_tty || pgid == holder {
        TtyPlan::Keep
    } else {
        TtyPlan::Switch(pgid == own)
    }
}

/// What to do to give the terminal to a process group.
pub fn attach_tty(is_tty: bool, pgid: i32, own: i32, holder: i32) -> (r: TtyPlan)
    ensures
        r == tty_plan(is_tty, pgid, own, holder),
{
    if !is_tty || pgid == holder {
        TtyPlan::Keep
    } else {
        TtyPlan::Switch(pgid == own && holder != own)
    }
}

/// What to do to take the terminal back.
pub fn take_term(is_tty: bool, own: i32, holder: i32) -> (r: TtyPlan)
    ensures
        r == tty_plan(is_tty, own, own, holder),
{
    attach_tty(is_tty, own, own, holder)
}

} // verus!
