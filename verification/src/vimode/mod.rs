//! The keys of the vi modes.

use crate::editcmd::CmdFlags;
use crate::editcmd::EditCmd;
use crate::editcmd::Motion;
use crate::editcmd::MotionCmd;
use crate::editcmd::RegisterName;
use crate::editcmd::To;
use crate::editcmd::Verb;
use crate::editcmd::VerbCmd;
use crate::editmode;
use crate::editmode::clone_cmds;
use crate::editmode::CmdReplay;
use crate::editmode::ModeReport;
use crate::keys::KeyCode;
use crate::keys::KeyEvent;
use crate::keys::ModKeys;
use crate::text::owned;
use vstd::prelude::*;

pub mod ex;

verus! {

/// What the keys do that the vi modes share.
pub open spec fn common_parts(key: KeyEvent) -> Option<(Option<Verb>, Option<Motion>)> {
    let none = ModKeys::of(false, false, false);
    let ctrl = ModKeys::of(true, false, false);
    if key.1 == none {
        match key.0 {
            KeyCode::Home => Some((None, Some(Motion::StartOfLine))),
            KeyCode::End => Some((None, Some(Motion::EndOfLine))),
            KeyCode::Left => Some((None, Some(Motion::BackwardChar))),
            KeyCode::Right => Some((None, Some(Motion::ForwardChar))),
            KeyCode::Up => Some((None, Some(Motion::LineUp))),
            KeyCode::Down => Some((None, Some(Motion::LineDown))),
            KeyCode::Enter => Some((Some(Verb::AcceptLineOrNewline), None)),
            KeyCode::Delete => Some((Some(Verb::Delete), Some(Motion::ForwardChar))),
            KeyCode::Backspace => Some((Some(Verb::Delete), Some(Motion::BackwardChar))),
            _ => None,
        }
    } else if key.1 == ctrl {
        match key.0 {
            KeyCode::Char('D') => Some((Some(Verb::EndOfFile), None)),
            KeyCode::Char('H') => Some((Some(Verb::Delete), Some(Motion::BackwardChar))),
            _ => None,
        }
    } else {
        None
    }
}

fn read_common(key: &KeyEvent) -> (r: Option<(Option<Verb>, Option<Motion>)>)
    ensures
        r == common_parts(*key),
{
    if key.1 == ModKeys::empty() {
        match &key.0 {
            KeyCode::Home => Some((None, Some(Motion::StartOfLine))),
            KeyCode::End => Some((None, Some(Motion::EndOfLine))),
            KeyCode::Left => Some((None, Some(Motion::BackwardChar))),
            KeyCode::Right => Some((None, Some(Motion::ForwardChar))),
            KeyCode::Up => Some((None, Some(Motion::LineUp))),
            KeyCode::Down => Some((None, Some(Motion::LineDown))),
            KeyCode::Enter => Some((Some(Verb::AcceptLineOrNewline), None)),
            KeyCode::Delete => Some((Some(Verb::Delete), Some(Motion::ForwardChar))),
            KeyCode::Backspace => Some((Some(Verb::Delete), Some(Motion::BackwardChar))),
            _ => None,
        }
    } else if key.1 == ModKeys::ctrl() {
        match &key.0 {
            KeyCode::Char('D') => Some((Some(Verb::EndOfFile), None)),
            KeyCode::Char('H') => Some((Some(Verb::Delete), Some(Motion::BackwardChar))),
            _ => None,
        }
    } else {
        None
    }
}

/// The command of a key that the vi modes share.
pub fn common_cmds(key: KeyEvent) -> (r: Option<EditCmd>)
    ensures
        match common_parts(key) {
            Some(p) => r is Some && editmode::made(r->0, p.0, p.1, editmode::no_flags()),
            None => r is None,
        },
{
    match read_common(&key) {
        None => None,
        Some((verb, motion)) => {
            let mut cmd = EditCmd::new();
            if let Some(v) = verb {
                cmd.set_verb(VerbCmd(1, v));
            }
            if let Some(m) = motion {
                cmd.set_motion(MotionCmd(1, m));
            }
            Some(cmd)
        },
    }
}

/// Whether a command inserts text as it is and then leaves the mode.
pub open spec fn inserts(c: EditCmd, s: Seq<char>) -> bool {
    &&& c.verb matches Some(VerbCmd(1, Verb::Insert(t))) && t@ == s
    &&& c.motion is None
    &&& c.raw_seq@ == s
    &&& c.flags == (CmdFlags { exit_cur_mode: true, ..CmdFlags::none() })
    &&& c.register.named() == None::<char>
    &&& c.register.counted() == 1
    &&& !c.register.appends()
}

/// Takes the next text as it is.
#[derive(Debug)]
pub struct ViVerbatim {
    pub sent_cmd: Vec<EditCmd>,
    pub repeat_count: u16,
}

impl ViVerbatim {
    pub fn new() -> (r: Self)
        ensures
            r.sent_cmd@.len() == 0,
            r.repeat_count == 0,
    {
        ViVerbatim { sent_cmd: Vec::new(), repeat_count: 0 }
    }

    pub fn with_count(self, repeat_count: u16) -> (r: Self)
        ensures
            r == (ViVerbatim { repeat_count, ..self }),
    {
        let mut v = self;
        v.repeat_count = repeat_count;
        v
    }

    /// The command of a key: text is inserted as it is, and noted for a
    /// repetition.
    pub fn handle_key(&mut self, key: KeyEvent) -> (r: Option<EditCmd>)
        ensures
            final(self).repeat_count == old(self).repeat_count,
            match key.0 {
                KeyCode::Verbatim(s) => {
                    &&& r is Some
                    &&& inserts(r->0, s@)
                    &&& final(self).sent_cmd@.len() == old(self).sent_cmd@.len() + 1
                    &&& final(self).sent_cmd@.drop_last() == old(self).sent_cmd@
                    &&& inserts(final(self).sent_cmd@.last(), s@)
                },
                _ => {
                    &&& *final(self) == *old(self)
                    &&& match common_parts(key) {
                        Some(p) => r is Some && editmode::made(
                            r->0,
                            p.0,
                            p.1,
                            editmode::no_flags(),
                        ),
                        None => r is None,
                    }
                },
            },
    {
        match &key.0 {
            KeyCode::Verbatim(s) => {
                let mut flags = CmdFlags::empty();
                flags.exit_cur_mode = true;
                let cmd = EditCmd {
                    register: RegisterName::default(),
                    verb: Some(VerbCmd(1, Verb::Insert(s.clone()))),
                    motion: None,
                    raw_seq: s.clone(),
                    flags,
                };
                self.sent_cmd.push(cmd.clone());
                assert(self.sent_cmd@.drop_last() =~= old(self).sent_cmd@);
                return Some(cmd);
            },
            _ => {},
        }
        common_cmds(key)
    }

    pub fn is_repeatable(&self) -> (r: bool)
        ensures
            r,
    {
        true
    }

    /// What is done again: the commands that were sent.
    pub fn as_replay(&self) -> (r: Option<CmdReplay>)
        ensures
            r matches Some(CmdReplay::ModeReplay { cmds, repeat }) && repeat == self.repeat_count
                && editmode::same_cmds(cmds@, self.sent_cmd@),
    {
        let cmds = clone_cmds(&self.sent_cmd);
        Some(CmdReplay::mode(cmds, self.repeat_count))
    }

    pub fn cursor_style(&self) -> (r: String)
        ensures
            r@ == "\x1b[6 q"@,
    {
        owned("\x1b[6 q")
    }

    pub fn pending_seq(&self) -> (r: Option<String>)
        ensures
            r is None,
    {
        None
    }

    pub fn move_cursor_on_undo(&self) -> (r: bool)
        ensures
            r,
    {
        true
    }

    pub fn clamp_cursor(&self) -> (r: bool)
        ensures
            !r,
    {
        false
    }

    pub fn hist_scroll_start_pos(&self) -> (r: Option<To>)
        ensures
            r == Some(To::End),
    {
        Some(To::End)
    }

    pub fn report_mode(&self) -> (r: ModeReport)
        ensures
            r == ModeReport::Verbatim,
    {
        ModeReport::Verbatim
    }
}

} // verus!
