//! How keys become commands.

use crate::editcmd;
use crate::editcmd::CmdFlags;
use crate::editcmd::Direction;
use crate::editcmd::EditCmd;
use crate::editcmd::Motion;
use crate::editcmd::MotionCmd;
use crate::editcmd::To;
use crate::editcmd::Verb;
use crate::editcmd::VerbCmd;
use crate::editcmd::Word;
use crate::keys::KeyCode;
use crate::keys::KeyEvent;
use crate::keys::ModKeys;
use crate::text::owned;
use vstd::prelude::*;

pub mod cmdline;
pub mod emacs;
pub mod ex;
pub mod ex_laws;

verus! {

/// The mode that the editor is in.
#[derive(Debug, Clone, Copy, PartialEq, Eq, Structural)]
pub enum ModeReport {
    Insert,
    Normal,
    Ex,
    Visual,
    Replace,
    Verbatim,
    Emacs,
    Remote,
    Search,
    RevSearch,
    Unknown,
}

impl ModeReport {
    /// The name of the mode as it is shown.
    pub open spec fn shown(self) -> Seq<char> {
        match self {
            ModeReport::Insert => "INSERT"@,
            ModeReport::Normal => "NORMAL"@,
            ModeReport::Ex => "COMMAND"@,
            ModeReport::Visual => "VISUAL"@,
            ModeReport::Replace => "REPLACE"@,
            ModeReport::Verbatim => "VERBATIM"@,
            ModeReport::Emacs => "EMACS"@,
            ModeReport::Remote => "REMOTE"@,
            ModeReport::Search => "SEARCH"@,
            ModeReport::RevSearch => "REVERSE SEARCH"@,
            ModeReport::Unknown => "UNKNOWN"@,
        }
    }

    /// The name of the mode as it is shown.
    pub fn to_string(&self) -> (r: String)
        ensures
            r@ == self.shown(),
    {
        owned(
            match self {
                ModeReport::Insert => "INSERT",
                ModeReport::Normal => "NORMAL",
                ModeReport::Ex => "COMMAND",
                ModeReport::Visual => "VISUAL",
                ModeReport::Replace => "REPLACE",
                ModeReport::Verbatim => "VERBATIM",
                ModeReport::Emacs => "EMACS",
                ModeReport::Remote => "REMOTE",
                ModeReport::Search => "SEARCH",
                ModeReport::RevSearch => "REVERSE SEARCH",
                ModeReport::Unknown => "UNKNOWN",
            },
        )
    }
}

/// What is done again when a command is repeated.
#[derive(Debug)]
pub enum CmdReplay {
    ModeReplay { cmds: Vec<EditCmd>, repeat: u16 },
    Single(EditCmd),
    Motion(Motion),
}

impl CmdReplay {
    pub fn mode(cmds: Vec<EditCmd>, repeat: u16) -> (r: Self)
        ensures
            r == (CmdReplay::ModeReplay { cmds, repeat }),
    {
        CmdReplay::ModeReplay { cmds, repeat }
    }

    pub fn single(cmd: EditCmd) -> (r: Self)
        ensures
            r == CmdReplay::Single(cmd),
    {
        CmdReplay::Single(cmd)
    }

    pub fn motion(motion: Motion) -> (r: Self)
        ensures
            r == CmdReplay::Motion(motion),
    {
        CmdReplay::Motion(motion)
    }
}

/// Whether two lists hold the same commands.
pub open spec fn same_cmds(a: Seq<EditCmd>, b: Seq<EditCmd>) -> bool {
    a.len() == b.len() && forall|i: int|
        0 <= i < a.len() ==> editcmd::same_cmd(#[trigger] a[i], b[i])
}

/// Copies commands.
pub fn clone_cmds(v: &Vec<EditCmd>) -> (r: Vec<EditCmd>)
    ensures
        same_cmds(r@, v@),
{
    let mut out: Vec<EditCmd> = Vec::new();
    let mut i: usize = 0;
    while i < v.len()
        invariant
            i <= v@.len(),
            out@.len() == i,
            forall|k: int| 0 <= k < i ==> editcmd::same_cmd(#[trigger] out@[k], v@[k]),
        decreases v@.len() - i,
    {
        out.push(v[i].clone());
        i = i + 1;
    }
    out
}

/// Whether a command is complete.
#[derive(Debug, Clone, Copy, PartialEq, Eq, Structural)]
pub enum CmdState {
    Pending,
    Complete,
    Invalid,
}

/// No flag set.
pub open spec fn no_flags() -> CmdFlags {
    CmdFlags::none()
}

/// The flags of a motion over lines, by the modifiers of its key.
pub open spec fn line_flags(m: ModKeys) -> CmdFlags {
    CmdFlags { has_shift: m.shift, has_ctrl: !m.shift && m.ctrl, ..CmdFlags::none() }
}

/// A verb done once.
pub open spec fn once_verb(v: Option<Verb>) -> Option<VerbCmd> {
    match v {
        Some(x) => Some(VerbCmd(1, x)),
        None => None,
    }
}

/// A motion made once.
pub open spec fn once_motion(m: Option<Motion>) -> Option<MotionCmd> {
    match m {
        Some(x) => Some(MotionCmd(1, x)),
        None => None,
    }
}

/// Whether a command is made of a verb, a motion and flags, and nothing else.
pub open spec fn made(c: EditCmd, v: Option<Verb>, m: Option<Motion>, f: CmdFlags) -> bool {
    &&& c.verb == once_verb(v)
    &&& c.motion == once_motion(m)
    &&& c.flags == f
    &&& (EditCmd { verb: None, motion: None, flags: CmdFlags::none(), ..c }).is_blank()
}

/// What the keys do that all modes share.
pub open spec fn common_parts(key: KeyEvent) -> Option<(Option<Verb>, Option<Motion>, CmdFlags)> {
    let none = ModKeys::of(false, false, false);
    let ctrl = ModKeys::of(true, false, false);
    match key.0 {
        KeyCode::Home => if key.1 == none {
            Some((None, Some(Motion::StartOfLine), no_flags()))
        } else {
            None
        },
        KeyCode::End => if key.1 == none {
            Some((None, Some(Motion::EndOfLine), no_flags()))
        } else {
            None
        },
        KeyCode::Enter => if key.1 == ModKeys::of(false, false, true) {
            Some((Some(Verb::InsertChar('\n')), None, no_flags()))
        } else if key.1 == none {
            Some((Some(Verb::AcceptLineOrNewline), None, no_flags()))
        } else {
            None
        },
        KeyCode::Left => if key.1 == none {
            Some((None, Some(Motion::BackwardChar), no_flags()))
        } else if key.1 == ctrl {
            Some((None, Some(Motion::WordMotion(To::Start, Word::Normal, Direction::Backward)), no_flags()))
        } else {
            None
        },
        KeyCode::Right => if key.1 == none {
            Some((None, Some(Motion::ForwardChar), no_flags()))
        } else if key.1 == ctrl {
            Some((None, Some(Motion::WordMotion(To::Start, Word::Normal, Direction::Forward)), no_flags()))
        } else {
            None
        },
        KeyCode::Up => Some((None, Some(Motion::LineUp), line_flags(key.1))),
        KeyCode::Down => Some((None, Some(Motion::LineDown), line_flags(key.1))),
        KeyCode::Delete => if key.1 == none {
            Some((Some(Verb::Delete), Some(Motion::ForwardCharForced), no_flags()))
        } else {
            None
        },
        KeyCode::Backspace => if key.1 == none {
            Some((Some(Verb::Delete), Some(Motion::BackwardCharForced), no_flags()))
        } else {
            None
        },
        KeyCode::Char(c) => if key.1 == ctrl {
            match c {
                'H' => Some((Some(Verb::Delete), Some(Motion::BackwardCharForced), no_flags())),
                'D' => Some((Some(Verb::EndOfFile), None, no_flags())),
                'P' => Some((Some(Verb::HistoryUp), None, no_flags())),
                'N' => Some((Some(Verb::HistoryDown), None, no_flags())),
                'L' => Some((Some(Verb::ClearScreen), None, no_flags())),
                _ => None,
            }
        } else {
            None
        },
        _ => None,
    }
}

fn flags_of(m: ModKeys) -> (r: CmdFlags)
    ensures
        r == line_flags(m),
{
    let mut f = CmdFlags::empty();
    f.has_shift = m.shift;
    f.has_ctrl = !m.shift && m.ctrl;
    f
}

fn read_common(key: &KeyEvent) -> (r: Option<(Option<Verb>, Option<Motion>, CmdFlags)>)
    ensures
        r == common_parts(*key),
{
    let plain: bool = key.1 == ModKeys::empty();
    let ctrl: bool = key.1 == ModKeys::ctrl();
    match &key.0 {
        KeyCode::Home => if plain {
            Some((None, Some(Motion::StartOfLine), CmdFlags::empty()))
        } else {
            None
        },
        KeyCode::End => if plain {
            Some((None, Some(Motion::EndOfLine), CmdFlags::empty()))
        } else {
            None
        },
        KeyCode::Enter => if key.1 == ModKeys::shift() {
            Some((Some(Verb::InsertChar('\n')), None, CmdFlags::empty()))
        } else if plain {
            Some((Some(Verb::AcceptLineOrNewline), None, CmdFlags::empty()))
        } else {
            None
        },
        KeyCode::Left => if plain {
            Some((None, Some(Motion::BackwardChar), CmdFlags::empty()))
        } else if ctrl {
            Some((None, Some(Motion::WordMotion(To::Start, Word::Normal, Direction::Backward)), CmdFlags::empty()))
        } else {
            None
        },
        KeyCode::Right => if plain {
            Some((None, Some(Motion::ForwardChar), CmdFlags::empty()))
        } else if ctrl {
            Some((None, Some(Motion::WordMotion(To::Start, Word::Normal, Direction::Forward)), CmdFlags::empty()))
        } else {
            None
        },
        KeyCode::Up => Some((None, Some(Motion::LineUp), flags_of(key.1))),
        KeyCode::Down => Some((None, Some(Motion::LineDown), flags_of(key.1))),
        KeyCode::Delete => if plain {
            Some((Some(Verb::Delete), Some(Motion::ForwardCharForced), CmdFlags::empty()))
        } else {
            None
        },
        KeyCode::Backspace => if plain {
            Some((Some(Verb::Delete), Some(Motion::BackwardCharForced), CmdFlags::empty()))
        } else {
            None
        },
        KeyCode::Char(c) => if ctrl {
            match *c {
                'H' => Some((Some(Verb::Delete), Some(Motion::BackwardCharForced), CmdFlags::empty())),
                'D' => Some((Some(Verb::EndOfFile), None, CmdFlags::empty())),
                'P' => Some((Some(Verb::HistoryUp), None, CmdFlags::empty())),
                'N' => Some((Some(Verb::HistoryDown), None, CmdFlags::empty())),
                'L' => Some((Some(Verb::ClearScreen), None, CmdFlags::empty())),
                _ => None,
            }
        } else {
            None
        },
        _ => None,
    }
}

/// The command of a key that all modes share.
pub fn common_cmds(key: KeyEvent) -> (r: Option<EditCmd>)
    ensures
        match common_parts(key) {
            Some(p) => r is Some && made(r->0, p.0, p.1, p.2),
            None => r is None,
        },
{
    match read_common(&key) {
        None => None,
        Some((verb, motion, flags)) => {
            let mut cmd = EditCmd::new();
            if let Some(v) = verb {
                cmd.set_verb(VerbCmd(1, v));
            }
            if let Some(m) = motion {
                cmd.set_motion(MotionCmd(1, m));
            }
            cmd.flags = flags;
            Some(cmd)
        },
    }
}

/// A mode in which another program gets the keys.
#[derive(Debug, Clone, Copy, PartialEq, Eq, Structural)]
pub struct RemoteMode;

impl RemoteMode {
    pub fn is_repeatable(&self) -> (r: bool)
        ensures
            !r,
    {
        false
    }

    pub fn as_replay(&self) -> (r: Option<CmdReplay>)
        ensures
            r is None,
    {
        None
    }

    pub fn cursor_style(&self) -> (r: String)
        ensures
            r@ == "\x1b[6 q"@,
    {
        owned("\x1b[6 q")
    }

    pub fn pending_seq(&self) -> (r: Option<String>)
        ensures
            r is None,
    {
        None
    }

    pub fn move_cursor_on_undo(&self) -> (r: bool)
        ensures
            r,
    {
        true
    }

    pub fn clamp_cursor(&self) -> (r: bool)
        ensures
            !r,
    {
        false
    }

    pub fn hist_scroll_start_pos(&self) -> (r: Option<To>)
        ensures
            r == Some(To::End),
    {
        Some(To::End)
    }

    pub fn report_mode(&self) -> (r: ModeReport)
        ensures
            r == ModeReport::Remote,
    {
        ModeReport::Remote
    }
}

} // verus!
