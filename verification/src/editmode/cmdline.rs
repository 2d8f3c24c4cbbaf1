//! The command line of the editor.

use crate::browse;
use crate::browse::browse;
use crate::editcmd::CmdFlags;
use crate::editcmd::EditCmd;
use crate::editcmd::Motion;
use crate::editcmd::MotionCmd;
use crate::editcmd::RegisterName;
use crate::editcmd::To;
use crate::editcmd::Verb;
use crate::editcmd::VerbCmd;
use crate::editmode::ex;
use crate::editmode::ex::failure_message;
use crate::editmode::ex::parse_ex_input;
use crate::editmode::ex::Expansion;
use crate::editmode::ex::ExCmd;
use crate::editmode::CmdReplay;
use crate::editmode::ModeReport;
use crate::history::History;
use crate::keys::KeyCode;
use crate::keys::KeyEvent;
use crate::keys::ModKeys;
use crate::linebuf::buffer;
use crate::linebuf::buffer::LineBuf;
use crate::linebuf::buffer::Viewport;
use crate::linebuf::exec;
use crate::linebuf::lines;
use crate::linebuf::pos;
use crate::linebuf::pos::Cursor;
use crate::linebuf::pos::Pos;
use crate::linebuf::verbs::Effect;
use crate::text::owned;
use vstd::prelude::*;

verus! {

/// What is typed on the command line, and what was typed there before.
pub struct ExEditor {
    pub buf: LineBuf,
    pub history: History,
}

/// Whether a command goes through the history: up from the first line, or down
/// from the last.
pub open spec fn grabs_history(cmd: EditCmd, b: LineBuf) -> bool {
    ||| cmd.verb is None && cmd.motion_is(|m: Motion| m is LineUp) && b.cursor.pos.row == 0
    ||| cmd.motion_is(|m: Motion| m is LineDown) && b.cursor.pos.row == pos::last_index(
        b.text().len(),
    )
}

/// By how many entries a command goes through the history.
pub open spec fn history_offset(cmd: EditCmd) -> int {
    let n = (cmd.motion->0).0 as int;
    if (cmd.motion->0).1 is LineUp {
        -n
    } else {
        n
    }
}

/// Whether a command goes through the history.
pub fn should_grab(cmd: &EditCmd, buf: &LineBuf) -> (r: bool)
    ensures
        r == grabs_history(*cmd, *buf),
{
    match &cmd.motion {
        Some(MotionCmd(_, Motion::LineUp)) => cmd.verb.is_none() && buf.cursor.pos.row == 0,
        Some(MotionCmd(_, Motion::LineDown)) => buf.on_last_line(),
        _ => false,
    }
}

impl ExEditor {
    pub open spec fn wf(self) -> bool {
        self.buf.wf() && self.history.wf()
    }

    /// An empty command line; with a selection it begins with the lines of it.
    pub fn new(history: History, has_select: bool, view: Viewport) -> (r: Self)
        requires
            history.wf(),
        ensures
            r.wf(),
            r.history == history,
            has_select ==> {
                &&& r.buf.text() == lines::lines_of("'<,'>"@)
                &&& r.buf.cursor == (Cursor { pos: Pos { row: 0, col: 5 }, exclusive: false })
                &&& r.buf.hint is None && r.buf.select_mode is None
                &&& r.buf.undo_stack@.len() == 0 && r.buf.redo_stack@.len() == 0
                &&& r.buf.kill_ring@.len() == 0
            },
            !has_select ==> r.buf.fresh(),
    {
        let buf = LineBuf::new();
        assert(buf.text().len() == buf.lines@.len());
        if has_select {
            proof {
                reveal_strlit("'<,'>");
                assert(vstd::utf8::is_ascii_chars("'<,'>"@));
                vstd::utf8::is_ascii_chars_encode_utf8("'<,'>"@);
            }
            ExEditor { buf: buf.with_initial("'<,'>", 6, view), history }
        } else {
            ExEditor { buf, history }
        }
    }

    /// Empties the command line, and takes its history anew.
    pub fn clear(&mut self, history: History)
        requires
            history.wf(),
        ensures
            final(self).wf(),
            final(self).buf.fresh(),
            final(self).history == history,
    {
        self.buf = LineBuf::new();
        assert(self.buf.text().len() == self.buf.lines@.len());
        self.history = history;
    }

    pub fn should_grab_history(&self, cmd: &EditCmd) -> (r: bool)
        ensures
            r == grabs_history(*cmd, self.buf),
    {
        should_grab(cmd, &self.buf)
    }

    /// Whether the command line went through its history by a command.
    pub open spec fn browsed(a: ExEditor, b: ExEditor, offset: isize, view: Viewport) -> bool {
        exists|h: History|
            #![trigger History::scrolled(a.history, h, offset)]
            History::scrolled(a.history, h, offset) && browse::swapped(
                a.buf,
                h,
                h.current(),
                b.buf,
                b.history,
                view,
            )
    }

    /// Goes through the history by a command that goes up or down. One that goes
    /// further than can be counted goes as far as can be.
    pub fn scroll_history(&mut self, cmd: &EditCmd, view: Viewport)
        requires
            old(self).wf(),
            cmd.motion_is(|m: Motion| m is LineUp || m is LineDown),
        ensures
            final(self).wf(),
            ExEditor::browsed(
                *old(self),
                *final(self),
                capped_offset(history_offset(*cmd)),
                view,
            ),
    {
        let offset: isize = offset_of(cmd);
        let _ = browse(&mut self.buf, &mut self.history, offset, view);
    }

    /// Does what the mode made of a key: goes through the history, or carries it out
    /// on the command line.
    pub fn handle_key(
        &mut self,
        cmd: Option<EditCmd>,
        view: Viewport,
        levels: &[(usize, usize)],
    ) -> (r: Option<Effect>)
        requires
            old(self).wf(),
        ensures
            final(self).wf(),
            ExEditor::handled(*old(self), *final(self), cmd, view, levels@, r),
    {
        let c = match cmd {
            None => {
                return None;
            },
            Some(c) => c,
        };
        if self.should_grab_history(&c) {
            self.scroll_history(&c, view);
            return None;
        }
        self.buf.try_exec_cmd(c, view, levels, None)
    }

    /// Whether a command was done.
    pub open spec fn handled(
        a: ExEditor,
        b: ExEditor,
        cmd: Option<EditCmd>,
        view: Viewport,
        levels: Seq<(usize, usize)>,
        r: Option<Effect>,
    ) -> bool {
        match cmd {
            None => b == a && r is None,
            Some(c) => if grabs_history(c, a.buf) {
                r is None && ExEditor::browsed(a, b, capped_offset(history_offset(c)), view)
            } else if exec::roomy(a.buf, c, levels, None) {
                b.history == a.history && r is Some && exec::cmd_done(
                    a.buf,
                    b.buf,
                    c,
                    view,
                    levels,
                    None,
                    r->0,
                )
            } else {
                b == a && r is None
            },
        }
    }
}

/// An offset as far as it can be counted.
pub open spec fn capped_offset(n: int) -> isize {
    if n > isize::MAX {
        isize::MAX
    } else if n < -isize::MAX {
        (-isize::MAX) as isize
    } else {
        n as isize
    }
}

/// By how many entries a command goes through the history.
pub fn offset_of(cmd: &EditCmd) -> (r: isize)
    requires
        cmd.motion is Some,
    ensures
        r == capped_offset(history_offset(*cmd)),
{
    match &cmd.motion {
        Some(m) => {
            let n: isize = if m.0 > isize::MAX as usize {
                isize::MAX
            } else {
                m.0 as isize
            };
            match m.1 {
                Motion::LineUp => -n,
                _ => n,
            }
        },
        None => 0,
    }
}

/// What became of a key on the command line.
pub enum ExOut {
    /// A command was read. What was typed is for the history.
    Command(Option<ExCmd>, String),
    /// What was typed is no command: why, and what was typed, for the history.
    Failed(String, String),
    /// The command line is to be emptied.
    Clear,
    /// The command line is left.
    Leave(EditCmd),
    /// It was done on the command line.
    Typed(Option<Effect>),
}

/// The mode of the command line.
pub struct ViEx {
    pub pending_cmd: ExEditor,
}

impl ViEx {
    pub fn new(history: History, has_select: bool, view: Viewport) -> (r: Self)
        requires
            history.wf(),
        ensures
            r.pending_cmd.wf(),
            r.pending_cmd.history == history,
            has_select ==> r.pending_cmd.buf.text() == lines::lines_of("'<,'>"@),
            !has_select ==> r.pending_cmd.buf.fresh(),
    {
        ViEx { pending_cmd: ExEditor::new(history, has_select, view) }
    }

    /// What a key is answered, where the insert mode makes a command of it.
    pub open spec fn answers(
        a: ViEx,
        b: ViEx,
        key: KeyEvent,
        cmd: Option<EditCmd>,
        view: Viewport,
        levels: Seq<(usize, usize)>,
        x: ex::Expansion,
        r: ExOut,
    ) -> bool {
        let plain = key.1 == ModKeys::of(false, false, false);
        let typed = lines::text_chars(a.pending_cmd.buf.text());
        if plain && (key.0 == KeyCode::Char('\r') || key.0 is Enter) {
            &&& b == a
            &&& match r {
                ExOut::Command(Some(c), input) => input@ == typed && ex::ex_input(typed, x)
                    == ex::Out::Found(ex::cmd_model(c)),
                ExOut::Command(None, input) => input@ == typed && ex::ex_input(typed, x) is Nothing,
                ExOut::Failed(why, input) => {
                    &&& input@ == typed
                    &&& ex::ex_input(typed, x) is Bad || ex::ex_input(typed, x) is Message
                    &&& why@ == (match ex::ex_input(typed, x) {
                        ex::Out::Message(m) => m,
                        _ => ex::failure_text(typed, None),
                    })
                },
                _ => false,
            }
        } else if key.0 == KeyCode::Char('C') && key.1 == ModKeys::of(true, false, false) {
            b == a && r is Clear
        } else if plain && key.0 is Esc {
            &&& b == a
            &&& r matches ExOut::Leave(c) && c.verb == Some(VerbCmd(1, Verb::NormalMode))
                && c.motion is None && c.flags == CmdFlags::none()
        } else {
            r matches ExOut::Typed(e) && ExEditor::handled(
                a.pending_cmd,
                b.pending_cmd,
                cmd,
                view,
                levels,
                e,
            )
        }
    }

    /// Handles a key. `cmd` is what the insert mode makes of it, and `x` what the
    /// shell makes of the path that was typed.
    pub fn handle_key_fallible(
        &mut self,
        key: KeyEvent,
        cmd: Option<EditCmd>,
        view: Viewport,
        levels: &[(usize, usize)],
        x: &Expansion,
    ) -> (r: ExOut)
        requires
            old(self).pending_cmd.wf(),
        ensures
            final(self).pending_cmd.wf(),
            ViEx::answers(*old(self), *final(self), key, cmd, view, levels@, *x, r),
    {
        let plain: bool = key.1.is_empty();
        match key.0 {
            KeyCode::Char('\r') if plain => self.submit(x),
            KeyCode::Enter if plain => self.submit(x),
            KeyCode::Char('C') if key.1 == ModKeys::ctrl() => ExOut::Clear,
            KeyCode::Esc if plain => ExOut::Leave(
                EditCmd {
                    register: RegisterName::default(),
                    verb: Some(VerbCmd(1, Verb::NormalMode)),
                    motion: None,
                    raw_seq: String::new(),
                    flags: CmdFlags::empty(),
                },
            ),
            _ => ExOut::Typed(self.pending_cmd.handle_key(cmd, view, levels)),
        }
    }

    fn submit(&self, x: &Expansion) -> (r: ExOut)
        ensures
            ({
                let typed = lines::text_chars(self.pending_cmd.buf.text());
                match r {
                    ExOut::Command(Some(c), input) => input@ == typed && ex::ex_input(typed, *x)
                        == ex::Out::Found(ex::cmd_model(c)),
                    ExOut::Command(None, input) => input@ == typed && ex::ex_input(
                        typed,
                        *x,
                    ) is Nothing,
                    ExOut::Failed(why, input) => {
                        &&& input@ == typed
                        &&& ex::ex_input(typed, *x) is Bad || ex::ex_input(typed, *x) is Message
                        &&& why@ == (match ex::ex_input(typed, *x) {
                            ex::Out::Message(m) => m,
                            _ => ex::failure_text(typed, None),
                        })
                    },
                    _ => false,
                }
            }),
    {
        let input = self.pending_cmd.buf.joined();
        match parse_ex_input(input.as_str(), x) {
            Ok(c) => ExOut::Command(c, input),
            Err(e) => {
                let why = failure_message(input.as_str(), e);
                ExOut::Failed(why, input)
            },
        }
    }

    pub fn is_repeatable(&self) -> (r: bool)
        ensures
            !r,
    {
        false
    }

    pub fn as_replay(&self) -> (r: Option<CmdReplay>)
        ensures
            r is None,
    {
        None
    }

    pub fn cursor_style(&self) -> (r: String)
        ensures
            r@ == "\x1b[3 q"@,
    {
        owned("\x1b[3 q")
    }

    pub fn pending_seq(&self) -> (r: Option<String>)
        ensures
            r is Some && r->0@ == lines::text_chars(self.pending_cmd.buf.text()),
    {
        Some(self.pending_cmd.buf.joined())
    }

    /// The place of the cursor on the command line.
    pub fn pending_cursor(&self) -> (r: Option<usize>)
        requires
            self.pending_cmd.wf(),
        ensures
            r == Some(
                buffer::flat_capped(
                    self.pending_cmd.buf.text(),
                    self.pending_cmd.buf.cursor.pos,
                ),
            ),
    {
        Some(self.pending_cmd.buf.cursor_to_flat())
    }

    pub fn hist_scroll_start_pos(&self) -> (r: Option<To>)
        ensures
            r is None,
    {
        None
    }

    pub fn report_mode(&self) -> (r: ModeReport)
        ensures
            r == ModeReport::Ex,
    {
        ModeReport::Ex
    }
}

} // verus!
