//! Commands: the verb, the undo history and the kill ring together.

use crate::editcmd::EditCmd;
use crate::editcmd::ReadSrc;
use crate::editcmd::Verb;
use crate::linebuf::buffer;
use crate::linebuf::buffer::count_of;
use crate::linebuf::buffer::Edit;
use crate::linebuf::buffer::KillRing;
use crate::linebuf::buffer::LineBuf;
use crate::linebuf::buffer::Viewport;
use crate::linebuf::line;
use crate::linebuf::line::Line;
use crate::linebuf::lines;
use crate::linebuf::lines::clone_lines;
use crate::linebuf::lines::same_lines;
use crate::linebuf::lines::split_lines;
use crate::linebuf::lines::split_rows;
use crate::linebuf::lines::Text;
use crate::linebuf::ops;
use crate::linebuf::ops::get_level;
use crate::linebuf::ops::Recase;
use crate::linebuf::pos::Cursor;
use crate::linebuf::pos::Pos;
use crate::linebuf::verbs;
use crate::linebuf::verbs::Effect;
use crate::linebuf::verbs::Taking;
use crate::register;
use crate::register::RegisterContent;
use crate::unicode;
use vstd::prelude::*;

verus! {

/// What a command with its register and its indentation levels asks of the
/// machine's word size.
pub open spec fn roomy(
    b: LineBuf,
    cmd: EditCmd,
    levels: Seq<(usize, usize)>,
    reg: Option<RegisterContent>,
) -> bool {
    &&& verbs::countable(b, cmd)
    &&& ops::level_at(levels, 0).1 <= isize::MAX as int / 4 - 1
    &&& reg is Some ==> b.lines@.len() + register::rows(reg->0@).len() < usize::MAX
    &&& verbs::verb_of(cmd) matches Some(Verb::Insert(s)) ==> b.lines@.len() + lines::rows_of(
        s@,
    ).len() <= usize::MAX
}

/// The buffer after a verb that changes the text of a span.
pub open spec fn span_changed(
    v: Verb,
    a: LineBuf,
    b: LineBuf,
    cmd: EditCmd,
    height: usize,
    levels: Seq<(usize, usize)>,
    effect: Effect,
) -> bool {
    match v {
        Verb::Delete => verbs::took(a, b, cmd, Taking::Delete, height, levels, effect),
        Verb::Change => verbs::took(a, b, cmd, Taking::Change, height, levels, effect),
        Verb::Yank => verbs::took(a, b, cmd, Taking::Yank, height, levels, effect),
        Verb::Kill => verbs::killed(a, b, cmd, height) && effect is Nothing,
        Verb::Rot13 => verbs::recased(a, b, cmd, Recase::Rot13, height) && effect is Nothing,
        Verb::ReplaceChar(ch) => verbs::recased(a, b, cmd, Recase::Replace(ch), height)
            && effect is Nothing,
        Verb::ToggleCaseRange => verbs::recased(a, b, cmd, Recase::Toggle, height)
            && effect is Nothing,
        Verb::ToLower => verbs::recased(a, b, cmd, Recase::Lower, height) && effect is Nothing,
        Verb::ToUpper => verbs::recased(a, b, cmd, Recase::Upper, height) && effect is Nothing,
        Verb::Capitalize => verbs::capitalizes(a, b, cmd, height) && effect is Nothing,
        Verb::Indent => verbs::rows_indented(a, b, cmd, height, true) && effect is Nothing,
        Verb::Dedent => verbs::rows_indented(a, b, cmd, height, false) && effect is Nothing,
        Verb::Equalize => verbs::rows_equalized(a, b, cmd, height, levels) && effect is Nothing,
        Verb::JoinLines => verbs::rows_joined(a, b, cmd, height) && effect is Nothing,
        _ => b == a && effect is Nothing,
    }
}

/// Whether a verb changes the text of a span.
pub open spec fn on_span(v: Verb) -> bool {
    ||| v is Delete || v is Change || v is Yank || v is Kill || v is Rot13 || v is ReplaceChar
    ||| v is ToggleCaseRange || v is ToLower || v is ToUpper || v is Capitalize
    ||| v is Indent || v is Dedent || v is Equalize || v is JoinLines
}

/// The buffer after a verb that works at the cursor.
pub open spec fn cursor_changed(
    v: Verb,
    a: LineBuf,
    b: LineBuf,
    cmd: EditCmd,
    height: usize,
    levels: Seq<(usize, usize)>,
    reg: Option<RegisterContent>,
) -> bool {
    let t = a.text();
    let lv = ops::level_at(levels, 0);
    match v {
        Verb::ReplaceCharInplace(ch, n) => {
            let (t1, p) = verbs::changed_along(t, a.cursor, Recase::Replace(ch), n as nat);
            verbs::edited(a, b, t1, p)
        },
        Verb::ToggleCaseInplace(n) => {
            let (t1, p) = verbs::changed_along(t, a.cursor, Recase::Toggle, n as nat);
            verbs::edited(a, b, t1, verbs::past(p))
        },
        Verb::IncrementNumber(n) => verbs::number_adjusted(a, b, n as int, levels),
        Verb::DecrementNumber(n) => verbs::number_adjusted(a, b, -(n as int), levels),
        Verb::Undo => verbs::undone(a, b),
        Verb::Redo => verbs::redone(a, b),
        Verb::KillPut => verbs::kill_put(a, b),
        Verb::KillCycle => verbs::kill_cycled(a, b),
        Verb::Put(anchor) => {
            let (t1, p) = verbs::put_result(
                t,
                a.cursor,
                a.saved_col,
                anchor,
                verbs::held_of(reg),
            );
            verbs::edited(a, b, t1, p)
        },
        Verb::InsertModeLineBreak(anchor) => {
            let (t1, p) = verbs::line_opened(t, a.cursor.pos.row as int, anchor, lv.0);
            verbs::edited(a, b, t1, p)
        },
        Verb::SwapVisualAnchor => verbs::anchor_swapped(a, b),
        Verb::InsertChar(ch) => verbs::char_typed(a, b, ch, cmd, height, levels),
        Verb::Insert(s) => {
            let gs = unicode::clusters(s@);
            let (t1, p) = ops::typed_all(t, a.cursor.pos, gs, levels, gs.len());
            verbs::edited(a, b, t1, p)
        },
        Verb::AcceptLineOrNewline => {
            let (t1, p) = ops::broken(t, a.cursor.pos, lv.1);
            verbs::edited(a, b, t1, p)
        },
        Verb::EndOfFile => verbs::edited(a, b, Seq::empty(), a.cursor.pos),
        Verb::TransposeChar => {
            let (t1, p) = verbs::chars_transposed(t, a.cursor.pos, lv);
            verbs::edited(a, b, t1, p)
        },
        Verb::TransposeWord => match verbs::words_transposed(t, a.cursor) {
            None => b == a,
            Some((t1, p)) => verbs::edited(a, b, t1, p),
        },
        _ => b == a,
    }
}

/// Whether a verb works at the cursor.
pub open spec fn at_cursor(v: Verb) -> bool {
    ||| v is ReplaceCharInplace || v is ToggleCaseInplace || v is IncrementNumber
    ||| v is DecrementNumber || v is Undo || v is Redo || v is KillPut || v is KillCycle
    ||| v is Put || v is InsertModeLineBreak || v is SwapVisualAnchor || v is InsertChar
    ||| v is Insert || v is AcceptLineOrNewline || v is EndOfFile || v is TransposeChar
    ||| v is TransposeWord
}

/// Whether a verb only follows its motion.
pub open spec fn only_moves(v: Verb) -> bool {
    ||| v is Complete || v is CompleteBackward || v is ExMode || v is InsertMode
    ||| v is NormalMode || v is VisualMode || v is VerbatimMode || v is ReplaceMode
    ||| v is VisualModeLine || v is VisualModeBlock || v is VisualModeSelectLast
}

/// What a verb asks of the world, other than to store what it took.
pub open spec fn asks(v: Verb, b: LineBuf) -> Effect {
    match v {
        Verb::ShellCmd(c) => Effect::Shell(c),
        Verb::Read(ReadSrc::File(p)) => Effect::ReadFile(p),
        Verb::Read(ReadSrc::Cmd(c)) => Effect::ReadCmd(c),
        Verb::Write(d) => Effect::Write(d),
        Verb::Edit(p) => Effect::EditFile(p),
        Verb::PrintPosition => Effect::ShowPosition(
            line::capped((b.cursor.pos.row + 1) as nat) as usize,
            b.lines@.len() as usize,
            line::capped((b.cursor.pos.col + 1) as nat) as usize,
            line::capped(lines::count(lines::before(b.text(), b.cursor.pos))) as usize,
            line::capped(lines::count(b.text())) as usize,
        ),
        _ => Effect::Nothing,
    }
}

/// The buffer after the verb of a command, and what the verb asks of the
/// world. A command without a verb follows its motion and accepts the hint; so
/// do the verbs that change the mode. Verbs that are carried out elsewhere
/// leave the buffer as it is.
pub open spec fn verb_done(
    a: LineBuf,
    b: LineBuf,
    cmd: EditCmd,
    height: usize,
    levels: Seq<(usize, usize)>,
    reg: Option<RegisterContent>,
    effect: Effect,
) -> bool {
    match verbs::verb_of(cmd) {
        None => verbs::moved(a, b, cmd, height) && effect is Nothing,
        Some(v) => if only_moves(v) {
            verbs::moved(a, b, cmd, height) && effect is Nothing
        } else if on_span(v) {
            span_changed(v, a, b, cmd, height, levels, effect)
        } else if at_cursor(v) {
            cursor_changed(v, a, b, cmd, height, levels, reg) && effect is Nothing
        } else {
            b == a && effect == asks(v, a)
        },
    }
}

/// A step of the undo history.
pub struct Step {
    pub old_cursor: Pos,
    pub new_cursor: Pos,
    pub old: Text,
    pub new: Text,
    pub merging: bool,
}

/// The step that an edit records.
pub open spec fn step(e: Edit) -> Step {
    Step {
        old_cursor: e.old_cursor,
        new_cursor: e.new_cursor,
        old: lines::text(e.old@),
        new: lines::text(e.new@),
        merging: e.merging,
    }
}

/// The steps that a stack of edits records.
pub open spec fn steps(s: Seq<Edit>) -> Seq<Step> {
    Seq::new(s.len(), |i: int| step(s[i]))
}

/// The last step, open to later typing or not.
pub open spec fn with_merging(s: Seq<Step>, merging: bool) -> Seq<Step> {
    if s.len() == 0 {
        s
    } else {
        s.drop_last().push(Step { merging, ..s.last() })
    }
}

/// The history after a change. It goes into the last step where that is open.
pub open spec fn recorded(
    s: Seq<Step>,
    before: Text,
    after: Text,
    old_cursor: Pos,
    new_cursor: Pos,
) -> Seq<Step> {
    if s.len() > 0 && s.last().merging {
        s.drop_last().push(Step { new: after, ..s.last() })
    } else {
        s.push(Step { old_cursor, new_cursor, old: before, new: after, merging: false })
    }
}

/// The history after a character was typed. A run of them is one step.
pub open spec fn recorded_typing(
    s: Seq<Step>,
    before: Text,
    after: Text,
    old_cursor: Pos,
    new_cursor: Pos,
) -> Seq<Step> {
    if s.len() > 0 && s.last().merging {
        s.drop_last().push(Step { new: after, new_cursor, ..s.last() })
    } else {
        s.push(Step { old_cursor, new_cursor, old: before, new: after, merging: true })
    }
}

/// The command types or replaces a character.
pub open spec fn types_char(cmd: EditCmd) -> bool {
    cmd.verb_is(|v: Verb| v is InsertChar || v is ReplaceChar)
}

/// The command goes through the undo history.
pub open spec fn is_undo(cmd: EditCmd) -> bool {
    cmd.verb_is(|v: Verb| v is Undo || v is Redo)
}

/// The history after a command.
pub open spec fn history_after(
    s: Seq<Step>,
    cmd: EditCmd,
    before: Text,
    after: Text,
    old_cursor: Pos,
    new_cursor: Pos,
) -> Seq<Step> {
    let s1 = if !types_char(cmd) && !is_undo(cmd) {
        with_merging(s, false)
    } else {
        s
    };
    if before == after || is_undo(cmd) {
        s1
    } else if types_char(cmd) {
        recorded_typing(s1, before, after, old_cursor, new_cursor)
    } else {
        let s2 = recorded(s1, before, after, old_cursor, new_cursor);
        if cmd.verb_is(|v: Verb| v is Change) {
            with_merging(s2, true)
        } else {
            s2
        }
    }
}

/// A text without any grapheme, in at most one line.
pub open spec fn blank(t: Text) -> bool {
    t.len() == 0 || (t.len() == 1 && t[0].len() == 0)
}

/// The buffer before the verb of a command: the remembered column is forgotten
/// unless the motion is vertical.
pub open spec fn prepared(a: LineBuf, cmd: EditCmd) -> LineBuf {
    if cmd.motion_is(|m: crate::editcmd::Motion| m is LineUp || m is LineDown) {
        a
    } else {
        LineBuf { saved_col: None, ..a }
    }
}

/// What is done after the verb of a command: `a` is the buffer before it, `m`
/// the buffer after it, and `b` the outcome.
pub open spec fn finished(a: LineBuf, m: LineBuf, b: LineBuf, cmd: EditCmd, view: Viewport) -> bool {
    &&& b.hinted() == (if blank(m.text()) {
        None
    } else {
        m.hinted()
    })
    &&& steps(b.undo_stack@) == history_after(
        steps(m.undo_stack@),
        cmd,
        a.text(),
        m.text(),
        a.cursor.pos,
        m.cursor.pos,
    )
    &&& steps(b.redo_stack@) == (if a.text() != m.text() && !is_undo(cmd) {
        Seq::empty()
    } else {
        steps(m.redo_stack@)
    })
    &&& b.text() == buffer::fixed_text(m.text())
    &&& b.cursor == (Cursor {
        pos: buffer::fixed_pos(b.text(), m.cursor),
        exclusive: m.cursor.exclusive,
    })
    &&& b.scroll_offset == buffer::scrolled(
        m.scroll_offset as int,
        b.cursor.pos.row as int,
        b.lines@.len() as int,
        buffer::shown_height(b.text(), b.hinted(), view.height),
        view.scroll_offset as int,
    )
    &&& b.kill_ring == (KillRing {
        merging: m.kill_ring.merging && cmd.verb_is(|v: Verb| v is Kill),
        selected: if cmd.verb_is(|v: Verb| v is KillCycle || v is KillPut) {
            m.kill_ring.selected
        } else {
            None
        },
        kill_cycle_span: if cmd.verb_is(|v: Verb| v is KillCycle || v is KillPut) {
            m.kill_ring.kill_cycle_span
        } else {
            None
        },
        ..m.kill_ring
    })
    &&& b == (LineBuf {
        lines: b.lines,
        hint: b.hint,
        cursor: b.cursor,
        scroll_offset: b.scroll_offset,
        undo_stack: b.undo_stack,
        redo_stack: b.redo_stack,
        kill_ring: b.kill_ring,
        ..m
    })
}

/// The buffer after a command, and what the command asks of the world.
pub open spec fn cmd_done(
    a: LineBuf,
    b: LineBuf,
    cmd: EditCmd,
    view: Viewport,
    levels: Seq<(usize, usize)>,
    reg: Option<RegisterContent>,
    effect: Effect,
) -> bool {
    exists|m: LineBuf|
        #![trigger finished(a, m, b, cmd, view)]
        verb_done(prepared(a, cmd), m, cmd, view.height, levels, reg, effect) && finished(
            a,
            m,
            b,
            cmd,
            view,
        )
}

/// A command that changed the text, and that does not go on with an open step,
/// left a step that leads back to the text and the cursor before it.
pub proof fn change_can_be_undone(
    s: Seq<Step>,
    cmd: EditCmd,
    before: Text,
    after: Text,
    old_cursor: Pos,
    new_cursor: Pos,
)
    requires
        before != after,
        !is_undo(cmd),
        types_char(cmd) ==> s.len() == 0 || !s.last().merging,
    ensures
        ({
            let h = history_after(s, cmd, before, after, old_cursor, new_cursor);
            &&& h.len() == s.len() + 1
            &&& h.last().old == before
            &&& h.last().new == after
            &&& h.last().old_cursor == old_cursor
            &&& h.last().new_cursor == new_cursor
        }),
{
}

/// Two characters typed in a row are undone together.
pub proof fn typed_run_is_one_step(
    s: Seq<Step>,
    first: EditCmd,
    second: EditCmd,
    t0: Text,
    t1: Text,
    t2: Text,
    p0: Pos,
    p1: Pos,
    p2: Pos,
)
    requires
        types_char(first),
        types_char(second),
        t0 != t1,
        t1 != t2,
    ensures
        ({
            let h1 = history_after(s, first, t0, t1, p0, p1);
            let h2 = history_after(h1, second, t1, t2, p1, p2);
            &&& h2.len() == h1.len()
            &&& h2.last().old == h1.last().old
            &&& h2.last().old_cursor == h1.last().old_cursor
            &&& h2.last().new == t2
            &&& h2.last().new_cursor == p2
        }),
{
}

/// After a change of text there is nothing to redo.
pub proof fn change_ends_redo(a: LineBuf, m: LineBuf, b: LineBuf, cmd: EditCmd, view: Viewport)
    requires
        finished(a, m, b, cmd, view),
        a.text() != m.text(),
        !is_undo(cmd),
    ensures
        b.redo_stack@.len() == 0,
{
    assert(steps(b.redo_stack@).len() == b.redo_stack@.len());
}

/// After every command the buffer has a line and the cursor is on the text,
/// before the end of its line if it is exclusive.
pub proof fn cursor_stays_on_text(a: LineBuf, m: LineBuf, b: LineBuf, cmd: EditCmd, view: Viewport)
    requires
        finished(a, m, b, cmd, view),
    ensures
        b.wf(),
        b.cursor.pos.col <= b.text()[b.cursor.pos.row as int].len(),
        b.cursor.exclusive && b.cursor.pos.col > 0 ==> b.cursor.pos.col
            < b.text()[b.cursor.pos.row as int].len(),
{
    assert(b.text().len() == b.lines@.len());
    assert(b.text()[b.cursor.pos.row as int] == b.lines@[b.cursor.pos.row as int]@);
    b.lines@[b.cursor.pos.row as int].lemma_len_fits();
}

/// No command starts to select by itself.
pub proof fn commands_start_no_selection(
    a: LineBuf,
    b: LineBuf,
    cmd: EditCmd,
    view: Viewport,
    levels: Seq<(usize, usize)>,
    reg: Option<RegisterContent>,
    effect: Effect,
)
    requires
        cmd_done(a, b, cmd, view, levels, reg, effect),
        a.select_mode is None,
    ensures
        b.select_mode is None,
{
    let m = choose|m: LineBuf|
        #![trigger finished(a, m, b, cmd, view)]
        verb_done(prepared(a, cmd), m, cmd, view.height, levels, reg, effect) && finished(
            a,
            m,
            b,
            cmd,
            view,
        );
    assert(m.select_mode is None);
}

impl LineBuf {
    fn exec_span_verb(
        &mut self,
        v: &Verb,
        cmd: &EditCmd,
        height: usize,
        levels: &[(usize, usize)],
    ) -> (r: Effect)
        requires
            verbs::countable(*old(self), *cmd),
        ensures
            span_changed(*v, *old(self), *final(self), *cmd, height, levels@, r),
    {
        match v {
            Verb::Delete => return self.verb_take(cmd, Taking::Delete, height, levels),
            Verb::Change => return self.verb_take(cmd, Taking::Change, height, levels),
            Verb::Yank => return self.verb_take(cmd, Taking::Yank, height, levels),
            Verb::Kill => self.verb_kill(cmd, height),
            Verb::Rot13 => self.verb_recase(cmd, Recase::Rot13, height),
            Verb::ReplaceChar(ch) => self.verb_recase(cmd, Recase::Replace(*ch), height),
            Verb::ToggleCaseRange => self.verb_recase(cmd, Recase::Toggle, height),
            Verb::ToLower => self.verb_recase(cmd, Recase::Lower, height),
            Verb::ToUpper => self.verb_recase(cmd, Recase::Upper, height),
            Verb::Capitalize => self.verb_capitalize(cmd, height),
            Verb::Indent => self.verb_indent(cmd, height, true),
            Verb::Dedent => self.verb_indent(cmd, height, false),
            Verb::Equalize => self.verb_equalize(cmd, height, levels),
            Verb::JoinLines => self.verb_join(cmd, height),
            _ => {},
        }
        Effect::Nothing
    }

    fn exec_cursor_verb(
        &mut self,
        v: &Verb,
        cmd: &EditCmd,
        height: usize,
        levels: &[(usize, usize)],
        reg: Option<RegisterContent>,
    )
        requires
            roomy(*old(self), *cmd, levels@, reg),
            verbs::verb_of(*cmd) == Some(*v),
        ensures
            cursor_changed(*v, *old(self), *final(self), *cmd, height, levels@, reg),
    {
        assert(self.text().len() == self.lines@.len());
        match v {
            Verb::ReplaceCharInplace(ch, n) => self.inplace_mutation(*n, Recase::Replace(*ch)),
            Verb::ToggleCaseInplace(n) => {
                self.inplace_mutation(*n, Recase::Toggle);
                self.cursor.pos = self.cursor.pos.row_col_add(0, 1);
            },
            Verb::IncrementNumber(n) => self.adjust_number(*n as i64, levels),
            Verb::DecrementNumber(n) => self.adjust_number(-(*n as i64), levels),
            Verb::Undo => self.undo(),
            Verb::Redo => self.redo(),
            Verb::KillPut => self.verb_kill_put(),
            Verb::KillCycle => self.verb_kill_cycle(),
            Verb::Put(anchor) => self.verb_put(*anchor, reg),
            Verb::InsertModeLineBreak(anchor) => self.open_line(*anchor, get_level(levels, 0).0),
            Verb::SwapVisualAnchor => self.swap_anchor(),
            Verb::InsertChar(ch) => self.type_char(*ch, cmd, height, levels),
            Verb::Insert(s) => self.type_str(s.as_str(), levels),
            Verb::AcceptLineOrNewline => self.break_line(get_level(levels, 0).1),
            Verb::EndOfFile => {
                self.lines.clear();
                assert(self.text() =~= Seq::empty());
            },
            Verb::TransposeChar => self.transpose_char(levels),
            Verb::TransposeWord => self.transpose_word(),
            _ => {},
        }
    }

    fn verb_effect(&self, v: &Verb) -> (r: Effect)
        requires
            self.wf(),
        ensures
            r == asks(*v, *self),
    {
        match v {
            Verb::ShellCmd(c) => Effect::Shell(c.clone()),
            Verb::Read(ReadSrc::File(p)) => Effect::ReadFile(p.clone()),
            Verb::Read(ReadSrc::Cmd(c)) => Effect::ReadCmd(c.clone()),
            Verb::Write(d) => Effect::Write(d.clone()),
            Verb::Edit(p) => Effect::EditFile(p.clone()),
            Verb::PrintPosition => {
                let (left, _) = split_lines(clone_lines(&self.lines), self.cursor.pos);
                Effect::ShowPosition(
                    self.cursor.pos.row.saturating_add(1),
                    self.lines.len(),
                    self.cursor.pos.col.saturating_add(1),
                    count_of(&left),
                    count_of(&self.lines),
                )
            },
            _ => Effect::Nothing,
        }
    }

    /// Carries out the verb of a command. `levels` are the shell's indentation
    /// levels where they are asked for, `reg` is what the command's register
    /// holds.
    pub fn exec_verb(
        &mut self,
        cmd: &EditCmd,
        height: usize,
        levels: &[(usize, usize)],
        reg: Option<RegisterContent>,
    ) -> (r: Effect)
        requires
            roomy(*old(self), *cmd, levels@, reg),
        ensures
            verb_done(*old(self), *final(self), *cmd, height, levels@, reg, r),
    {
        let v = match &cmd.verb {
            Some(v) => &v.1,
            None => {
                self.verb_move(cmd, height);
                return Effect::Nothing;
            },
        };
        match v {
            Verb::Complete
            | Verb::CompleteBackward
            | Verb::ExMode
            | Verb::InsertMode
            | Verb::NormalMode
            | Verb::VisualMode
            | Verb::VerbatimMode
            | Verb::ReplaceMode
            | Verb::VisualModeLine
            | Verb::VisualModeBlock
            | Verb::VisualModeSelectLast => {
                self.verb_move(cmd, height);
                Effect::Nothing
            },
            Verb::Delete
            | Verb::Change
            | Verb::Yank
            | Verb::Kill
            | Verb::Rot13
            | Verb::ReplaceChar(_)
            | Verb::ToggleCaseRange
            | Verb::ToLower
            | Verb::ToUpper
            | Verb::Capitalize
            | Verb::Indent
            | Verb::Dedent
            | Verb::Equalize
            | Verb::JoinLines => self.exec_span_verb(v, cmd, height, levels),
            Verb::ReplaceCharInplace(_, _)
            | Verb::ToggleCaseInplace(_)
            | Verb::IncrementNumber(_)
            | Verb::DecrementNumber(_)
            | Verb::Undo
            | Verb::Redo
            | Verb::KillPut
            | Verb::KillCycle
            | Verb::Put(_)
            | Verb::InsertModeLineBreak(_)
            | Verb::SwapVisualAnchor
            | Verb::InsertChar(_)
            | Verb::Insert(_)
            | Verb::AcceptLineOrNewline
            | Verb::EndOfFile
            | Verb::TransposeChar
            | Verb::TransposeWord => {
                self.exec_cursor_verb(v, cmd, height, levels, reg);
                Effect::Nothing
            },
            _ => self.verb_effect(v),
        }
    }

    /// Opens the last step of the undo history to later changes, or closes it.
    pub fn set_merging(&mut self, merging: bool)
        ensures
            steps(final(self).undo_stack@) == with_merging(steps(old(self).undo_stack@), merging),
            *final(self) == (LineBuf { undo_stack: final(self).undo_stack, ..*old(self) }),
    {
        let ghost s = steps(self.undo_stack@);
        if let Some(mut e) = self.undo_stack.pop() {
            e.merging = merging;
            self.undo_stack.push(e);
        }
        assert(steps(self.undo_stack@) =~= with_merging(s, merging));
    }

    /// Records a change of the text in the undo history.
    pub fn handle_edit(&mut self, before: Vec<Line>, new_cursor: Pos, old_cursor: Pos)
        ensures
            steps(final(self).undo_stack@) == recorded(
                steps(old(self).undo_stack@),
                lines::text(before@),
                old(self).text(),
                old_cursor,
                new_cursor,
            ),
            *final(self) == (LineBuf { undo_stack: final(self).undo_stack, ..*old(self) }),
    {
        let ghost s = steps(self.undo_stack@);
        let now = clone_lines(&self.lines);
        match self.undo_stack.pop() {
            Some(mut e) => {
                if e.merging {
                    e.new = now;
                    self.undo_stack.push(e);
                } else {
                    self.undo_stack.push(e);
                    self.undo_stack.push(
                        Edit { old_cursor, new_cursor, old: before, new: now, merging: false },
                    );
                }
            },
            None => {
                self.undo_stack.push(
                    Edit { old_cursor, new_cursor, old: before, new: now, merging: false },
                );
            },
        }
        assert(steps(self.undo_stack@) =~= recorded(
            s,
            lines::text(before@),
            self.text(),
            old_cursor,
            new_cursor,
        ));
    }

    fn handle_typing(&mut self, before: Vec<Line>, new_cursor: Pos, old_cursor: Pos)
        ensures
            steps(final(self).undo_stack@) == recorded_typing(
                steps(old(self).undo_stack@),
                lines::text(before@),
                old(self).text(),
                old_cursor,
                new_cursor,
            ),
            *final(self) == (LineBuf { undo_stack: final(self).undo_stack, ..*old(self) }),
    {
        let ghost s = steps(self.undo_stack@);
        let now = clone_lines(&self.lines);
        match self.undo_stack.pop() {
            Some(mut e) => {
                if e.merging {
                    e.new = now;
                    e.new_cursor = new_cursor;
                    self.undo_stack.push(e);
                } else {
                    self.undo_stack.push(e);
                    self.undo_stack.push(
                        Edit { old_cursor, new_cursor, old: before, new: now, merging: true },
                    );
                }
            },
            None => {
                self.undo_stack.push(
                    Edit { old_cursor, new_cursor, old: before, new: now, merging: true },
                );
            },
        }
        assert(steps(self.undo_stack@) =~= recorded_typing(
            s,
            lines::text(before@),
            self.text(),
            old_cursor,
            new_cursor,
        ));
    }

    fn record_cmd(&mut self, before: Vec<Line>, old_cursor: Pos, cmd: &EditCmd)
        ensures
            steps(final(self).undo_stack@) == history_after(
                steps(old(self).undo_stack@),
                *cmd,
                lines::text(before@),
                old(self).text(),
                old_cursor,
                old(self).cursor.pos,
            ),
            steps(final(self).redo_stack@) == (if lines::text(before@) != old(self).text()
                && !is_undo(*cmd) {
                Seq::empty()
            } else {
                steps(old(self).redo_stack@)
            }),
            *final(self) == (LineBuf {
                undo_stack: final(self).undo_stack,
                redo_stack: final(self).redo_stack,
                ..*old(self)
            }),
    {
        let is_char_insert: bool = match &cmd.verb {
            Some(v) => v.1.is_char_insert(),
            None => false,
        };
        let starts_merge: bool = match &cmd.verb {
            Some(v) => match &v.1 {
                Verb::Change => true,
                _ => false,
            },
            None => false,
        };
        let is_undo_op = cmd.is_undo_op();
        let new_cursor: Pos = self.cursor.pos;
        if !is_char_insert && !is_undo_op {
            self.set_merging(false);
        }
        if !same_lines(&self.lines, &before) && !is_undo_op {
            self.redo_stack.clear();
            assert(steps(self.redo_stack@) =~= Seq::empty());
            if is_char_insert {
                self.handle_typing(before, new_cursor, old_cursor);
            } else {
                self.handle_edit(before, new_cursor, old_cursor);
                if starts_merge {
                    self.set_merging(true);
                }
            }
        }
    }

    /// Carries out a command: its verb, and what keeps the undo history, the
    /// kill ring, the hint and the cursor in order.
    pub fn exec_cmd(
        &mut self,
        cmd: EditCmd,
        view: Viewport,
        levels: &[(usize, usize)],
        reg: Option<RegisterContent>,
    ) -> (r: Effect)
        requires
            roomy(*old(self), cmd, levels@, reg),
        ensures
            cmd_done(*old(self), *final(self), cmd, view, levels@, reg, r),
            final(self).wf(),
    {
        let ghost a = *self;
        let is_kill: bool = match &cmd.verb {
            Some(v) => match &v.1 {
                Verb::Kill => true,
                _ => false,
            },
            None => false,
        };
        let is_killring_op: bool = match &cmd.verb {
            Some(v) => match &v.1 {
                Verb::KillCycle => true,
                Verb::KillPut => true,
                _ => false,
            },
            None => false,
        };
        if !cmd.is_line_motion() {
            self.saved_col = None;
        }
        let before = clone_lines(&self.lines);
        let old_cursor: Pos = self.cursor.pos;
        let effect = self.exec_verb(&cmd, view.height, levels, reg);
        let ghost m = *self;
        if self.is_empty() {
            self.hint = None;
        }
        self.record_cmd(before, old_cursor, &cmd);
        self.fix_cursor(view);
        if !is_kill {
            self.kill_ring.merging = false;
        }
        if !is_killring_op {
            self.kill_ring.reset();
        }
        assert(finished(a, m, *self, cmd, view));
        effect
    }

    /// Ends a change of the text that began with these lines and this cursor: it is
    /// recorded, and an empty buffer has no hint.
    pub fn end_edit(&mut self, before: Vec<Line>, old_cursor: Pos)
        ensures
            steps(final(self).undo_stack@) == recorded(
                steps(old(self).undo_stack@),
                lines::text(before@),
                old(self).text(),
                old_cursor,
                old(self).cursor.pos,
            ),
            *final(self) == (LineBuf {
                hint: if blank(old(self).text()) {
                    None
                } else {
                    old(self).hint
                },
                undo_stack: final(self).undo_stack,
                ..*old(self)
            }),
    {
        if self.is_empty() {
            self.hint = None;
        }
        let new_cursor: Pos = self.cursor.pos;
        self.handle_edit(before, new_cursor, old_cursor);
    }

    /// Whether the buffer and a command are of sizes that the machine can count.
    pub fn is_roomy(
        &self,
        cmd: &EditCmd,
        levels: &[(usize, usize)],
        reg: &Option<RegisterContent>,
    ) -> (r: bool)
        ensures
            r == roomy(*self, *cmd, levels@, *reg),
    {
        let most: usize = usize::MAX / 4;
        let wide: usize = isize::MAX as usize / 4;
        assert(self.text().len() == self.lines@.len());
        if self.lines.len() == 0 || self.cursor.pos.row >= self.lines.len() {
            return false;
        }
        if !within(&self.lines, most, wide) {
            return false;
        }
        if let Some(h) = &self.hint {
            if !within(h, most, wide) {
                return false;
            }
        }
        if let Some(m) = &cmd.motion {
            if m.0 > isize::MAX as usize || m.0 > usize::MAX - most {
                return false;
            }
        }
        if get_level(levels, 0).1 > wide - 1 {
            return false;
        }
        if let Some(c) = reg {
            let n: usize = match c {
                RegisterContent::Span(v) => v.len(),
                RegisterContent::Line(v) => v.len(),
                RegisterContent::Block(v) => v.len(),
                RegisterContent::Macro(_) => 0,
                RegisterContent::Empty => 0,
            };
            assert(n == register::rows(c@).len());
            if n >= usize::MAX - self.lines.len() {
                return false;
            }
        }
        if let Some(v) = &cmd.verb {
            if let Verb::Insert(s) = &v.1 {
                let rows = split_rows(s.as_str());
                if rows.len() > usize::MAX - self.lines.len() {
                    return false;
                }
            }
        }
        true
    }

    /// Carries out a command, unless the sizes are beyond what the machine can
    /// count.
    pub fn try_exec_cmd(
        &mut self,
        cmd: EditCmd,
        view: Viewport,
        levels: &[(usize, usize)],
        reg: Option<RegisterContent>,
    ) -> (r: Option<Effect>)
        ensures
            !roomy(*old(self), cmd, levels@, reg) ==> r is None && *final(self) == *old(self),
            roomy(*old(self), cmd, levels@, reg) ==> r is Some && final(self).wf() && cmd_done(
                *old(self),
                *final(self),
                cmd,
                view,
                levels@,
                reg,
                r->0,
            ),
    {
        if self.is_roomy(&cmd, levels, &reg) {
            Some(self.exec_cmd(cmd, view, levels, reg))
        } else {
            None
        }
    }
}

/// Whether there are at most so many lines, none longer than this.
fn within(v: &Vec<Line>, rows: usize, cols: usize) -> (r: bool)
    ensures
        r == (v@.len() <= rows && verbs::rows_within(lines::text(v@), cols as int)),
{
    let ghost t = lines::text(v@);
    assert(t.len() == v@.len());
    if v.len() > rows {
        return false;
    }
    let mut i: usize = 0;
    while i < v.len()
        invariant
            i <= v@.len(),
            t == lines::text(v@),
            t.len() == v@.len(),
            forall|k: int| 0 <= k < i ==> (#[trigger] t[k]).len() <= cols,
        decreases v@.len() - i,
    {
        assert(t[i as int] == v@[i as int]@);
        if v[i].len() > cols {
            return false;
        }
        i = i + 1;
    }
    true
}

} // verus!
