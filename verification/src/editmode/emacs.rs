//! The emacs keys.

use crate::editcmd::Direction;
use crate::editcmd::EditCmd;
use crate::editcmd::Motion;
use crate::editcmd::MotionCmd;
use crate::editcmd::To;
use crate::editcmd::Verb;
use crate::editcmd::VerbCmd;
use crate::editcmd::Word;
use crate::editmode;
use crate::editmode::common_cmds;
use crate::editmode::CmdReplay;
use crate::editmode::ModeReport;
use crate::keys::KeyCode;
use crate::keys::KeyEvent;
use crate::keys::ModKeys;
use crate::text::owned;
use vstd::prelude::*;

verus! {

/// What the letters do with control.
pub open spec fn ctrl_parts(c: char) -> Option<(Option<Verb>, Option<Motion>)> {
    match c {
        'a' => Some((None, Some(Motion::StartOfLine))),
        'e' => Some((None, Some(Motion::EndOfLine))),
        'f' => Some((None, Some(Motion::ForwardCharForced))),
        'b' => Some((None, Some(Motion::BackwardCharForced))),
        'i' => Some((Some(Verb::Complete), None)),
        'w' => Some((Some(Verb::Kill), Some(Motion::WordMotion(To::Start, Word::Normal, Direction::Backward)))),
        'd' => Some((Some(Verb::DeleteOrEof), Some(Motion::ForwardCharForced))),
        'k' => Some((Some(Verb::Kill), Some(Motion::EndOfLine))),
        'u' => Some((Some(Verb::Kill), Some(Motion::StartOfLine))),
        'y' => Some((Some(Verb::KillPut), None)),
        't' => Some((Some(Verb::TransposeChar), None)),
        '/' => Some((Some(Verb::Undo), None)),
        _ => None,
    }
}

/// What the letters do with alt.
pub open spec fn alt_parts(c: char) -> Option<(Option<Verb>, Option<Motion>)> {
    match c {
        'f' => Some((None, Some(Motion::WordMotion(To::End, Word::Normal, Direction::Forward)))),
        'b' => Some((None, Some(Motion::WordMotion(To::Start, Word::Normal, Direction::Backward)))),
        ';' => Some((Some(Verb::ExMode), None)),
        'd' => Some((Some(Verb::Kill), Some(Motion::WordMotion(To::End, Word::Normal, Direction::Forward)))),
        'y' => Some((Some(Verb::KillCycle), None)),
        't' => Some((Some(Verb::TransposeWord), None)),
        'u' => Some((Some(Verb::ToUpper), Some(Motion::WordMotion(To::End, Word::Normal, Direction::Forward)))),
        'l' => Some((Some(Verb::ToLower), Some(Motion::WordMotion(To::End, Word::Normal, Direction::Forward)))),
        '/' => Some((Some(Verb::Redo), None)),
        'c' => Some((Some(Verb::Capitalize), Some(Motion::WordMotion(To::End, Word::Normal, Direction::Forward)))),
        _ => None,
    }
}

/// What a key does in emacs mode, if it does something of its own there.
pub open spec fn emacs_parts(key: KeyEvent) -> Option<(Option<Verb>, Option<Motion>)> {
    let none = ModKeys::of(false, false, false);
    let ctrl = ModKeys::of(true, false, false);
    let alt = ModKeys::of(false, true, false);
    match key.0 {
        KeyCode::Char(c) => if key.1 == none {
            Some((Some(Verb::InsertChar(c)), Some(Motion::ForwardChar)))
        } else if key.1 == ctrl {
            ctrl_parts(c)
        } else if key.1 == alt {
            alt_parts(c)
        } else {
            None
        },
        KeyCode::ExMode => Some((Some(Verb::ExMode), None)),
        KeyCode::Verbatim(s) => Some((Some(Verb::Insert(s)), None)),
        KeyCode::Backspace => if key.1 == none {
            Some((Some(Verb::Delete), Some(Motion::BackwardCharForced)))
        } else if key.1 == alt {
            Some(
                (
                    Some(Verb::Kill),
                    Some(Motion::WordMotion(To::Start, Word::Normal, Direction::Backward)),
                ),
            )
        } else {
            None
        },
        KeyCode::BackTab => if key.1 == none {
            Some((Some(Verb::CompleteBackward), None))
        } else {
            None
        },
        KeyCode::Tab => if key.1 == none {
            Some((Some(Verb::Complete), None))
        } else {
            None
        },
        _ => None,
    }
}

fn read_ctrl(c: char) -> (r: Option<(Option<Verb>, Option<Motion>)>)
    ensures
        r == ctrl_parts(c),
{
    match c {
        'a' => Some((None, Some(Motion::StartOfLine))),
        'e' => Some((None, Some(Motion::EndOfLine))),
        'f' => Some((None, Some(Motion::ForwardCharForced))),
        'b' => Some((None, Some(Motion::BackwardCharForced))),
        'i' => Some((Some(Verb::Complete), None)),
        'w' => Some((Some(Verb::Kill), Some(Motion::WordMotion(To::Start, Word::Normal, Direction::Backward)))),
        'd' => Some((Some(Verb::DeleteOrEof), Some(Motion::ForwardCharForced))),
        'k' => Some((Some(Verb::Kill), Some(Motion::EndOfLine))),
        'u' => Some((Some(Verb::Kill), Some(Motion::StartOfLine))),
        'y' => Some((Some(Verb::KillPut), None)),
        't' => Some((Some(Verb::TransposeChar), None)),
        '/' => Some((Some(Verb::Undo), None)),
        _ => None,
    }
}

fn read_alt(c: char) -> (r: Option<(Option<Verb>, Option<Motion>)>)
    ensures
        r == alt_parts(c),
{
    match c {
        'f' => Some((None, Some(Motion::WordMotion(To::End, Word::Normal, Direction::Forward)))),
        'b' => Some((None, Some(Motion::WordMotion(To::Start, Word::Normal, Direction::Backward)))),
        ';' => Some((Some(Verb::ExMode), None)),
        'd' => Some((Some(Verb::Kill), Some(Motion::WordMotion(To::End, Word::Normal, Direction::Forward)))),
        'y' => Some((Some(Verb::KillCycle), None)),
        't' => Some((Some(Verb::TransposeWord), None)),
        'u' => Some((Some(Verb::ToUpper), Some(Motion::WordMotion(To::End, Word::Normal, Direction::Forward)))),
        'l' => Some((Some(Verb::ToLower), Some(Motion::WordMotion(To::End, Word::Normal, Direction::Forward)))),
        '/' => Some((Some(Verb::Redo), None)),
        'c' => Some((Some(Verb::Capitalize), Some(Motion::WordMotion(To::End, Word::Normal, Direction::Forward)))),
        _ => None,
    }
}

fn read_emacs(key: &KeyEvent) -> (r: Option<(Option<Verb>, Option<Motion>)>)
    ensures
        r == emacs_parts(*key),
{
    let plain: bool = key.1 == ModKeys::empty();
    let alt: bool = key.1 == ModKeys::alt();
    match &key.0 {
        KeyCode::Char(c) => if plain {
            Some((Some(Verb::InsertChar(*c)), Some(Motion::ForwardChar)))
        } else if key.1 == ModKeys::ctrl() {
            read_ctrl(*c)
        } else if alt {
            read_alt(*c)
        } else {
            None
        },
        KeyCode::ExMode => Some((Some(Verb::ExMode), None)),
        KeyCode::Verbatim(s) => Some((Some(Verb::Insert(s.clone())), None)),
        KeyCode::Backspace => if plain {
            Some((Some(Verb::Delete), Some(Motion::BackwardCharForced)))
        } else if alt {
            Some(
                (
                    Some(Verb::Kill),
                    Some(Motion::WordMotion(To::Start, Word::Normal, Direction::Backward)),
                ),
            )
        } else {
            None
        },
        KeyCode::BackTab => if plain {
            Some((Some(Verb::CompleteBackward), None))
        } else {
            None
        },
        KeyCode::Tab => if plain {
            Some((Some(Verb::Complete), None))
        } else {
            None
        },
        _ => None,
    }
}

/// Whether a command is the one of a key: one of the emacs keys, or one that all
/// modes share.
pub open spec fn reads(key: KeyEvent, r: Option<EditCmd>) -> bool {
    match emacs_parts(key) {
        Some(p) => r is Some && editmode::made(r->0, p.0, p.1, editmode::no_flags()),
        None => match editmode::common_parts(key) {
            Some(p) => r is Some && editmode::made(r->0, p.0, p.1, p.2),
            None => r is None,
        },
    }
}

/// Reads the emacs keys.
#[derive(Debug)]
pub struct Emacs {
    pending_cmd: Option<EditCmd>,
}

impl Emacs {
    /// The command that is not complete yet.
    pub closed spec fn pending(self) -> Option<EditCmd> {
        self.pending_cmd
    }

    /// Between keys no command is incomplete.
    pub open spec fn wf(self) -> bool {
        self.pending() is None
    }

    pub fn new() -> (r: Self)
        ensures
            r.wf(),
    {
        Emacs { pending_cmd: None }
    }

    fn set_verb(&mut self, verb: VerbCmd)
        ensures
            final(self).pending_cmd is Some,
            match old(self).pending_cmd {
                Some(c) => final(self).pending_cmd->0 == (EditCmd { verb: Some(verb), ..c }),
                None => {
                    let n = final(self).pending_cmd->0;
                    n.verb == Some(verb) && (EditCmd { verb: None, ..n }).is_blank()
                },
            },
    {
        let mut cmd = match self.pending_cmd.take() {
            Some(c) => c,
            None => EditCmd::new(),
        };
        cmd.set_verb(verb);
        self.pending_cmd = Some(cmd);
    }

    fn set_motion(&mut self, motion: MotionCmd)
        ensures
            final(self).pending_cmd is Some,
            match old(self).pending_cmd {
                Some(c) => final(self).pending_cmd->0 == (EditCmd { motion: Some(motion), ..c }),
                None => {
                    let n = final(self).pending_cmd->0;
                    n.motion == Some(motion) && (EditCmd { motion: None, ..n }).is_blank()
                },
            },
    {
        let mut cmd = match self.pending_cmd.take() {
            Some(c) => c,
            None => EditCmd::new(),
        };
        cmd.set_motion(motion);
        self.pending_cmd = Some(cmd);
    }

    /// Takes the command that is not complete yet.
    pub fn take_cmd(&mut self) -> (r: Option<EditCmd>)
        ensures
            r == old(self).pending(),
            final(self).wf(),
    {
        self.pending_cmd.take()
    }

    /// The command of a key: one of the emacs keys, or one that all modes
    /// share.
    pub fn handle_key(&mut self, key: KeyEvent) -> (r: Option<EditCmd>)
        requires
            old(self).wf(),
        ensures
            final(self).wf(),
            reads(key, r),
    {
        match read_emacs(&key) {
            Some((verb, motion)) => {
                if let Some(v) = verb {
                    self.set_verb(VerbCmd(1, v));
                }
                if let Some(m) = motion {
                    self.set_motion(MotionCmd(1, m));
                }
                self.take_cmd()
            },
            None => common_cmds(key),
        }
    }

    pub fn is_repeatable(&self) -> (r: bool)
        ensures
            r,
    {
        true
    }

    pub fn as_replay(&self) -> (r: Option<CmdReplay>)
        ensures
            r is None,
    {
        None
    }

    pub fn cursor_style(&self) -> (r: String)
        ensures
            r@ == "\x1b[6 q"@,
    {
        owned("\x1b[6 q")
    }

    pub fn pending_seq(&self) -> (r: Option<String>)
        ensures
            r is None,
    {
        None
    }

    pub fn move_cursor_on_undo(&self) -> (r: bool)
        ensures
            r,
    {
        true
    }

    pub fn clamp_cursor(&self) -> (r: bool)
        ensures
            !r,
    {
        false
    }

    pub fn hist_scroll_start_pos(&self) -> (r: Option<To>)
        ensures
            r == Some(To::End),
    {
        Some(To::End)
    }

    pub fn report_mode(&self) -> (r: ModeReport)
        ensures
            r == ModeReport::Emacs,
    {
        ModeReport::Emacs
    }
}

} // verus!
