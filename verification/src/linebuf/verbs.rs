//! Verbs: what a command does to the buffer.

use crate::editcmd::Anchor;
use crate::editcmd::Bound;
use crate::editcmd::Direction;
use crate::editcmd::EditCmd;
use crate::editcmd::Motion;
use crate::editcmd::MotionCmd;
use crate::editcmd::To;
use crate::editcmd::Verb;
use crate::editcmd::Word;
use crate::editcmd::WriteDest;
use crate::linebuf::buffer;
use crate::linebuf::buffer::count_of;
use crate::linebuf::buffer::KillRing;
use crate::linebuf::buffer::LineBuf;
use crate::linebuf::line;
use crate::linebuf::line::Grapheme;
use crate::linebuf::line::Line;
use crate::linebuf::lines;
use crate::linebuf::lines::clone_lines;
use crate::linebuf::lines::extract_range_contiguous;
use crate::linebuf::lines::insert_line;
use crate::linebuf::lines::insert_lines;
use crate::linebuf::lines::join_lines;
use crate::linebuf::lines::replace_line;
use crate::linebuf::lines::Text;
use crate::linebuf::motion;
use crate::linebuf::motion::cursor_by;
use crate::linebuf::motion::cursor_by_wrapping;
use crate::linebuf::motion::eval_span;
use crate::linebuf::numbers;
use crate::linebuf::numbers::add_to_number;
use crate::linebuf::ops;
use crate::linebuf::ops::break_line_at;
use crate::linebuf::ops::capitalize;
use crate::linebuf::ops::dedent_rows;
use crate::linebuf::ops::equalize;
use crate::linebuf::ops::extract_range;
use crate::linebuf::ops::get_level;
use crate::linebuf::ops::indent_line;
use crate::linebuf::ops::indent_rows;
use crate::linebuf::ops::insert_at;
use crate::linebuf::ops::insert_str;
use crate::linebuf::ops::join_rows;
use crate::linebuf::ops::motion_mutation;
use crate::linebuf::ops::recast_gr;
use crate::linebuf::ops::yank_range;
use crate::linebuf::ops::Recase;
use crate::linebuf::pos;
use crate::linebuf::pos::lesser;
use crate::linebuf::pos::ordered_pos;
use crate::linebuf::pos::ordered_rows;
use crate::linebuf::pos::Cursor;
use crate::linebuf::pos::MotionKind;
use crate::linebuf::pos::Pos;
use crate::linebuf::pos::SelectMode;
use crate::linebuf::scan;
use crate::linebuf::scan::number_at;
use crate::linebuf::words;
use crate::linebuf::words::bound_pos;
use crate::linebuf::words::eval_word_motion;
use crate::linebuf::words::text_obj_word;
use crate::register;
use crate::register::RegisterContent;
use crate::text;
use crate::text::chars_of;
use crate::text::string_of;
use crate::unicode;
use vstd::prelude::*;

verus! {

/// What a verb asks of the world around the buffer.
#[derive(Debug)]
pub enum Effect {
    Nothing,
    /// Write this to the command's register.
    Store(RegisterContent),
    /// Run a shell command that may change the buffer.
    Shell(String),
    /// Type the contents of a file at the cursor.
    ReadFile(String),
    /// Type the output of a shell command at the cursor.
    ReadCmd(String),
    /// Write the buffer somewhere.
    Write(WriteDest),
    /// Open a file in the user's editor.
    EditFile(String),
    /// Show where the cursor is: row, number of rows, column, graphemes before
    /// the cursor, graphemes in all.
    ShowPosition(usize, usize, usize, usize, usize),
}

/// How a span is taken.
#[derive(Debug, Clone, Copy, PartialEq, Eq, Structural)]
pub enum Taking {
    Delete,
    Change,
    Yank,
}

/// The motion of a command is a bracket motion.
pub open spec fn is_bracket(m: Option<MotionCmd>) -> bool {
    m is Some && motion::bracket_pair((m->0).1) is Some
}

/// The text after a motion was evaluated: looking for a bracket takes the hint
/// into the buffer.
pub open spec fn text_seen(t: Text, h: Option<Text>, cmd: EditCmd) -> Text {
    if is_bracket(cmd.motion) {
        buffer::with_hint(t, h)
    } else {
        t
    }
}

/// The verb of a command.
pub open spec fn verb_of(cmd: EditCmd) -> Option<Verb> {
    match cmd.verb {
        Some(v) => Some(v.1),
        None => None,
    }
}

/// Half the height of the view.
pub open spec fn half_height(t: Text, h: Option<Text>, height: usize) -> isize {
    (buffer::shown_height(buffer::with_hint(t, h), h, height) / 2) as isize
}

/// The span of a command's motion, on the text with the hint behind it.
pub open spec fn span_for(
    t: Text,
    h: Option<Text>,
    c: Cursor,
    saved: Option<usize>,
    cmd: EditCmd,
    height: usize,
) -> Option<MotionKind> {
    match cmd.motion {
        None => None,
        Some(m) => motion::motion_span(
            buffer::with_hint(t, h),
            c,
            saved,
            half_height(t, h, height),
            verb_of(cmd),
            m.0,
            m.1,
        ),
    }
}

/// The span of a command's motion in a buffer.
pub open spec fn motion_of(b: LineBuf, cmd: EditCmd, height: usize) -> Option<MotionKind> {
    span_for(b.text(), b.hinted(), b.cursor, b.saved_col, cmd, height)
}

/// The column that vertical motions keep to, after a command's motion.
pub open spec fn column_kept(saved: Option<usize>, col: usize, cmd: EditCmd) -> Option<usize> {
    if saved is None && cmd.verb is None && cmd.motion_is(|m: Motion| m is LineUp || m is LineDown) {
        Some(col)
    } else {
        saved
    }
}

/// No line is longer than this.
pub open spec fn rows_within(t: Text, n: int) -> bool {
    forall|i: int| 0 <= i < t.len() ==> (#[trigger] t[i]).len() <= n
}

/// What the machine's word size asks of a text with a hint and a command.
pub open spec fn sized(t: Text, h: Option<Text>, cmd: EditCmd, rows: int, cols: int) -> bool {
    &&& t.len() <= rows
    &&& rows_within(t, cols)
    &&& h is Some ==> (h->0).len() <= rows && rows_within(h->0, cols)
    &&& cmd.motion is Some ==> (cmd.motion->0).0 <= isize::MAX && (cmd.motion->0).0 + rows
        <= usize::MAX
}

/// The buffer and the command are of sizes that the machine can count.
pub open spec fn countable(b: LineBuf, cmd: EditCmd) -> bool {
    b.wf() && sized(
        b.text(),
        b.hinted(),
        cmd,
        usize::MAX as int / 4,
        isize::MAX as int / 4,
    )
}

/// The cursor at a place.
pub open spec fn at(c: Cursor, p: Pos) -> Cursor {
    Cursor { pos: p, exclusive: c.exclusive }
}

/// The buffer has this text and its cursor is here; nothing else changed.
pub open spec fn edited(a: LineBuf, b: LineBuf, t: Text, p: Pos) -> bool {
    &&& b.text() == t
    &&& b.cursor == at(a.cursor, p)
    &&& b == (LineBuf { lines: b.lines, cursor: b.cursor, ..a })
}

/// The buffer has this text and its cursor is here, after the command's motion
/// was evaluated; nothing else changed.
pub open spec fn settled(a: LineBuf, b: LineBuf, cmd: EditCmd, t: Text, p: Pos) -> bool {
    &&& b.text() == t
    &&& b.cursor == at(a.cursor, p)
    &&& b.saved_col == column_kept(a.saved_col, a.cursor.pos.col, cmd)
    &&& b == (LineBuf { lines: b.lines, cursor: b.cursor, saved_col: b.saved_col, ..a })
}

/// Only the motion was evaluated.
pub open spec fn only_seen(a: LineBuf, b: LineBuf, cmd: EditCmd) -> bool {
    settled(a, b, cmd, text_seen(a.text(), a.hinted(), cmd), a.cursor.pos)
}

/// What following a motion makes of the text, the hint and the cursor. The
/// cursor goes to the end of the span, or to the first line of a span of
/// lines. If the hint may be accepted, a motion that goes to the end of the
/// text or beyond takes the hint in as far as it goes.
pub open spec fn follow(
    t: Text,
    h: Option<Text>,
    cur: Pos,
    saved: Option<usize>,
    m: MotionKind,
    accept: bool,
) -> (Text, Option<Text>, Pos) {
    match m {
        MotionKind::Char { start, end, inclusive } => {
            let last = words::bounded(t, Pos { row: usize::MAX, col: usize::MAX }, false);
            if accept && h is Some && buffer::any_row(h->0) && !pos::pos_lt(end, last) {
                let (t1, h1) = buffer::accepted(t, h, end);
                (t1, h1, words::bounded(t1, end, false))
            } else {
                (t, h, words::bounded(t, end, false))
            }
        },
        MotionKind::Line { start, end, inclusive } => (
            t,
            h,
            words::bounded(t, Pos { row: start, col: buffer::kept_col(saved, cur.col) }, false),
        ),
        MotionKind::Block { start, end } => (t, h, cur),
    }
}

/// The buffer after following a motion.
pub open spec fn followed(
    a: LineBuf,
    b: LineBuf,
    t: Text,
    cur: Pos,
    saved: Option<usize>,
    m: MotionKind,
    accept: bool,
) -> bool {
    let (t1, h1, p) = follow(t, a.hinted(), cur, saved, m, accept);
    &&& b.text() == t1
    &&& b.hinted() == h1
    &&& !accept ==> b.hint == a.hint
    &&& b.cursor == at(a.cursor, p)
    &&& b.saved_col == saved
    &&& b == (LineBuf {
        lines: b.lines,
        hint: b.hint,
        cursor: b.cursor,
        saved_col: b.saved_col,
        ..a
    })
}

/// The buffer after its command's motion was followed.
pub open spec fn moved(a: LineBuf, b: LineBuf, cmd: EditCmd, height: usize) -> bool {
    match motion_of(a, cmd, height) {
        None => only_seen(a, b, cmd),
        Some(m) => followed(
            a,
            b,
            text_seen(a.text(), a.hinted(), cmd),
            a.cursor.pos,
            column_kept(a.saved_col, a.cursor.pos.col, cmd),
            m,
            true,
        ),
    }
}

/// The first place of a span.
pub open spec fn span_start(m: MotionKind, cur: Pos) -> Pos {
    match m {
        MotionKind::Char { start, end, inclusive } => pos::pos_min(start, end),
        MotionKind::Line { start, end, inclusive } => Pos {
            row: if start > end {
                end
            } else {
                start
            },
            col: 0,
        },
        MotionKind::Block { start, end } => cur,
    }
}

/// Where the cursor goes to be at the start of a span.
pub open spec fn start_pos(t: Text, m: MotionKind, cur: Pos) -> Pos {
    if m is Block {
        cur
    } else {
        words::bounded(t, span_start(m, cur), false)
    }
}

/// The rows of a span.
pub open spec fn span_rows(m: MotionKind) -> Option<(usize, usize)> {
    match m {
        MotionKind::Char { start, end, inclusive } => Some(
            if start.row > end.row {
                (end.row, start.row)
            } else {
                (start.row, end.row)
            },
        ),
        MotionKind::Line { start, end, inclusive } => Some(
            if start > end {
                (end, start)
            } else {
                (start, end)
            },
        ),
        MotionKind::Block { start, end } => None,
    }
}

/// How many places a stretch takes, as far as a signed distance goes.
pub open spec fn stretch_len(k: Text) -> int {
    line::least(lines::count(k) + pos::last_index(k.len()), isize::MAX as int)
}

/// The buffer after a kill. The kills of commands in a row are kept together.
pub open spec fn killed(a: LineBuf, b: LineBuf, cmd: EditCmd, height: usize) -> bool {
    match motion_of(a, cmd, height) {
        None => only_seen(a, b, cmd),
        Some(m) => {
            let (rest, k) = ops::taken(text_seen(a.text(), a.hinted(), cmd), m);
            &&& b.text() == rest
            &&& b.cursor == a.cursor
            &&& b.saved_col == column_kept(a.saved_col, a.cursor.pos.col, cmd)
            &&& b.kill_ring@ == (if a.kill_ring.merging && a.kill_ring@.len() > 0 {
                a.kill_ring@.drop_last().push(a.kill_ring@.last() + k)
            } else {
                buffer::kill_added(a.kill_ring@, k)
            })
            &&& b.kill_ring == (KillRing {
                kills: b.kill_ring.kills,
                merging: true,
                ..a.kill_ring
            })
            &&& b == (LineBuf {
                lines: b.lines,
                saved_col: b.saved_col,
                kill_ring: b.kill_ring,
                ..a
            })
        },
    }
}

/// The text after a span was taken. Changing whole lines leaves an empty one
/// where the cursor was, unless there was only one.
pub open spec fn text_taken(t: Text, m: MotionKind, how: Taking, row: int) -> Text {
    let rest = ops::taken(t, m).0;
    match how {
        Taking::Yank => t,
        Taking::Delete => rest,
        Taking::Change => if m is Line && t.len() > 1 {
            rest.insert(line::least(row, rest.len() as int), Seq::<Seq<char>>::empty())
        } else {
            rest
        },
    }
}

/// The text and the cursor when a span has left the text: the cursor goes to
/// its start. A line to be changed is indented as the shell has it.
pub open spec fn settle_taken(
    t: Text,
    c: Cursor,
    saved: Option<usize>,
    m: MotionKind,
    how: Taking,
    level: usize,
) -> (Text, Pos) {
    match m {
        MotionKind::Char { start, end, inclusive } => (
            t,
            words::bounded(t, pos::pos_min(start, end), false),
        ),
        MotionKind::Line { start, end, inclusive } => {
            let e = if inclusive {
                end
            } else {
                pos::one_less(end)
            };
            let row = if start > e {
                e
            } else {
                start
            };
            let p = words::bounded(
                t,
                Pos { row, col: buffer::kept_col(saved, c.pos.col) },
                false,
            );
            if how == Taking::Change {
                let t2 = t.update(p.row as int, ops::tabs(level as nat) + t[p.row as int]);
                (t2, motion::offset_cursor(t2, at(c, p), 0, level as isize))
            } else {
                (t, p)
            }
        },
        MotionKind::Block { start, end } => (
            t,
            words::bounded(t, pos::pos_min(c.pos, start), false),
        ),
    }
}

/// The text and the cursor after a span was taken.
pub open spec fn take_result(
    t: Text,
    c: Cursor,
    saved: Option<usize>,
    m: MotionKind,
    how: Taking,
    level: usize,
) -> (Text, Pos) {
    settle_taken(text_taken(t, m, how, c.pos.row as int), c, saved, m, how, level)
}

/// The buffer after a span was taken, and what goes to the register.
pub open spec fn took(
    a: LineBuf,
    b: LineBuf,
    cmd: EditCmd,
    how: Taking,
    height: usize,
    levels: Seq<(usize, usize)>,
    effect: Effect,
) -> bool {
    match motion_of(a, cmd, height) {
        None => only_seen(a, b, cmd) && effect is Nothing,
        Some(m) => {
            let t = text_seen(a.text(), a.hinted(), cmd);
            let (t1, p) = take_result(
                t,
                a.cursor,
                column_kept(a.saved_col, a.cursor.pos.col, cmd),
                m,
                how,
                ops::level_at(levels, 0).0,
            );
            &&& settled(a, b, cmd, t1, p)
            &&& effect matches Effect::Store(c) && c@ == register::yanked(ops::taken(t, m).1, m)
        },
    }
}

/// The buffer after the graphemes of a span were changed.
pub open spec fn recased(a: LineBuf, b: LineBuf, cmd: EditCmd, how: Recase, height: usize) -> bool {
    match motion_of(a, cmd, height) {
        None => only_seen(a, b, cmd),
        Some(m) => {
            let t = ops::recast_text(text_seen(a.text(), a.hinted(), cmd), m, how);
            settled(a, b, cmd, t, start_pos(t, m, a.cursor.pos))
        },
    }
}

/// A text with the grapheme at a place changed.
pub open spec fn changed_at(t: Text, p: Pos, how: Recase) -> Text {
    let row = t[p.row as int];
    if p.col < row.len() {
        t.update(p.row as int, row.update(p.col as int, ops::recast(row[p.col as int], how)))
    } else {
        t
    }
}

/// The text and the cursor after `n` graphemes from the cursor on were
/// changed. The cursor stops at the end of its line, where the last grapheme
/// is then changed again.
pub open spec fn changed_along(t: Text, c: Cursor, how: Recase, n: nat) -> (Text, Pos)
    decreases n,
{
    if n == 0 {
        (t, c.pos)
    } else if n == 1 {
        (changed_at(t, c.pos, how), c.pos)
    } else {
        let (t1, p1) = changed_along(t, c, how, (n - 1) as nat);
        let p = motion::offset_cursor(t1, at(c, p1), 0, 1);
        (changed_at(t1, p, how), p)
    }
}

/// A place one column further, as the editor counts on.
pub open spec fn past(p: Pos) -> Pos {
    p.moved(0, 1)
}

/// The buffer after a span was capitalized.
pub open spec fn capitalizes(a: LineBuf, b: LineBuf, cmd: EditCmd, height: usize) -> bool {
    match motion_of(a, cmd, height) {
        None => only_seen(a, b, cmd),
        Some(m) => {
            let t = ops::capitalized(text_seen(a.text(), a.hinted(), cmd), m);
            let saved = column_kept(a.saved_col, a.cursor.pos.col, cmd);
            settled(
                a,
                b,
                cmd,
                t,
                past(follow(t, a.hinted(), a.cursor.pos, saved, m, false).2),
            )
        },
    }
}

/// The span of the number that is selected, or at the cursor.
pub open spec fn number_of(b: LineBuf) -> Option<(Pos, Pos)> {
    match b.select_mode {
        Some(SelectMode::Char(p)) => Some(
            (pos::pos_min(b.cursor.pos, p), pos::pos_max(b.cursor.pos, p)),
        ),
        Some(_) => None,
        None => scan::number_span(b.text(), b.cursor.pos),
    }
}

/// The buffer after a number was added to: the number is typed anew where it
/// was, and the cursor stands on its last digit.
pub open spec fn number_adjusted(
    a: LineBuf,
    b: LineBuf,
    inc: int,
    levels: Seq<(usize, usize)>,
) -> bool {
    match number_of(a) {
        None => b == a,
        Some((s, e)) => {
            let m = MotionKind::Char { start: s, end: e, inclusive: true };
            let (rest, word) = ops::taken(a.text(), m);
            match numbers::added(lines::text_chars(word), inc) {
                None => b == a,
                Some(new) => {
                    let gs = unicode::clusters(new);
                    let (t, p) = ops::typed_all(
                        rest,
                        words::bounded(rest, s, false),
                        gs,
                        levels,
                        gs.len(),
                    );
                    edited(a, b, t, Pos { row: p.row, col: pos::one_less(p.col) })
                },
            }
        },
    }
}

/// The buffer after a step back in the undo history.
pub open spec fn undone(a: LineBuf, b: LineBuf) -> bool {
    if a.undo_stack@.len() == 0 {
        b == a
    } else {
        let e = a.undo_stack@.last();
        &&& b.text() == lines::text(e.old@)
        &&& b.cursor == at(a.cursor, e.old_cursor)
        &&& b.undo_stack@ == a.undo_stack@.drop_last()
        &&& b.redo_stack@ == a.redo_stack@.push(e)
        &&& b == (LineBuf {
            lines: b.lines,
            cursor: b.cursor,
            undo_stack: b.undo_stack,
            redo_stack: b.redo_stack,
            ..a
        })
    }
}

/// The buffer after a step forward in the undo history.
pub open spec fn redone(a: LineBuf, b: LineBuf) -> bool {
    if a.redo_stack@.len() == 0 {
        b == a
    } else {
        let e = a.redo_stack@.last();
        &&& b.text() == lines::text(e.new@)
        &&& b.cursor == at(a.cursor, e.new_cursor)
        &&& b.redo_stack@ == a.redo_stack@.drop_last()
        &&& b.undo_stack@ == a.undo_stack@.push(e)
        &&& b == (LineBuf {
            lines: b.lines,
            cursor: b.cursor,
            undo_stack: b.undo_stack,
            redo_stack: b.redo_stack,
            ..a
        })
    }
}

/// Going back and forward again in the undo history gives the text, the cursor
/// and the history as they were, where the last step led here.
pub proof fn redo_undoes_undo(a: LineBuf, b: LineBuf, c: LineBuf)
    requires
        a.undo_stack@.len() > 0,
        a.text() == lines::text(a.undo_stack@.last().new@),
        a.cursor.pos == a.undo_stack@.last().new_cursor,
        undone(a, b),
        redone(b, c),
    ensures
        c.text() == a.text(),
        c.cursor == a.cursor,
        c.undo_stack@ == a.undo_stack@,
        c.redo_stack@ == a.redo_stack@,
{
    assert(a.undo_stack@.drop_last().push(a.undo_stack@.last()) =~= a.undo_stack@);
    assert(a.redo_stack@.push(a.undo_stack@.last()).drop_last() =~= a.redo_stack@);
}

/// Going forward and back again in the undo history gives the text, the cursor
/// and the history as they were, where the next step leads on from here.
pub proof fn undo_undoes_redo(a: LineBuf, b: LineBuf, c: LineBuf)
    requires
        a.redo_stack@.len() > 0,
        a.text() == lines::text(a.redo_stack@.last().old@),
        a.cursor.pos == a.redo_stack@.last().old_cursor,
        redone(a, b),
        undone(b, c),
    ensures
        c.text() == a.text(),
        c.cursor == a.cursor,
        c.undo_stack@ == a.undo_stack@,
        c.redo_stack@ == a.redo_stack@,
{
    assert(a.redo_stack@.drop_last().push(a.redo_stack@.last()) =~= a.redo_stack@);
    assert(a.undo_stack@.push(a.redo_stack@.last()).drop_last() =~= a.undo_stack@);
}

/// The text and the cursor after a stretch was put in: the cursor goes behind
/// it.
pub open spec fn stretch_put(t: Text, c: Cursor, at_pos: Pos, k: Text) -> (Text, Pos) {
    let t1 = lines::inserted(t, at_pos, k);
    (t1, motion::offset_wrapping(t1, c, stretch_len(k)))
}

/// The kill ring after it was asked for the next kill.
pub open spec fn ring_asked(r: KillRing) -> KillRing {
    KillRing { selected: Some(buffer::next_kill(r@.len(), r.selected)), ..r }
}

/// The buffer after the newest kill was put at the cursor.
pub open spec fn kill_put(a: LineBuf, b: LineBuf) -> bool {
    let i = buffer::next_kill(a.kill_ring@.len(), a.kill_ring.selected);
    if i >= a.kill_ring@.len() {
        b == (LineBuf { kill_ring: ring_asked(a.kill_ring), ..a })
    } else {
        let (t, p) = stretch_put(a.text(), a.cursor, a.cursor.pos, a.kill_ring@[i as int]);
        &&& b.text() == t
        &&& b.cursor == at(a.cursor, p)
        &&& b == (LineBuf {
            lines: b.lines,
            cursor: b.cursor,
            kill_ring: KillRing {
                kill_cycle_span: Some((a.cursor.pos, p)),
                ..ring_asked(a.kill_ring)
            },
            ..a
        })
    }
}

/// The buffer after the kill that was put last gave way to the next.
pub open spec fn kill_cycled(a: LineBuf, b: LineBuf) -> bool {
    let i = buffer::next_kill(a.kill_ring@.len(), a.kill_ring.selected);
    if i >= a.kill_ring@.len() || a.kill_ring.kill_cycle_span is None {
        b == (LineBuf { kill_ring: ring_asked(a.kill_ring), ..a })
    } else {
        let span = a.kill_ring.kill_cycle_span->0;
        let s = pos::pos_min(span.0, span.1);
        let e = pos::pos_max(span.0, span.1);
        let rest = lines::without(a.text(), s, e);
        let (t, p) = stretch_put(
            rest,
            at(a.cursor, words::bounded(rest, s, false)),
            s,
            a.kill_ring@[i as int],
        );
        &&& b.text() == t
        &&& b.cursor == at(a.cursor, p)
        &&& b == (LineBuf {
            lines: b.lines,
            cursor: b.cursor,
            kill_ring: KillRing { kill_cycle_span: Some((s, p)), ..ring_asked(a.kill_ring) },
            ..a
        })
    }
}

/// The text and the cursor after a stretch of a register was put before or
/// after the cursor.
pub open spec fn span_put(t: Text, c: Cursor, anchor: Anchor, k: Text) -> (Text, Pos) {
    let row = c.pos.row as int;
    let len = t[row].len() as int;
    let col = if anchor == Anchor::After {
        line::least(c.pos.col + 1, len) as usize
    } else {
        c.pos.col
    };
    let t1 = lines::inserted(t, Pos { row: c.pos.row, col }, k);
    let grown = ops::greatest(
        t1[row].len() - len - (if anchor == Anchor::Before {
            1int
        } else {
            0
        }),
        0,
    );
    (
        t1,
        if k.len() == 1 && k[0].len() > 1 {
            motion::offset_cursor(t1, c, 0, grown as usize as isize)
        } else if lines::count(k) > 1 || anchor == Anchor::After {
            motion::offset_cursor(t1, c, 0, 1)
        } else {
            c.pos
        },
    )
}

/// The text and the cursor after the first `n` lines of a register were put in
/// from a row on: the cursor goes to the last of them.
pub open spec fn lines_put(
    t: Text,
    c: Pos,
    saved: Option<usize>,
    row: int,
    k: Text,
    n: nat,
) -> (Text, Pos)
    decreases n,
{
    if n == 0 {
        (t, c)
    } else {
        let (t1, p1) = lines_put(t, c, saved, row, k, (n - 1) as nat);
        let t2 = t1.insert(row + n - 1, k[n - 1]);
        (
            t2,
            words::bounded(
                t2,
                Pos { row: (row + n - 1) as usize, col: buffer::kept_col(saved, p1.col) },
                false,
            ),
        )
    }
}

/// The text and the cursor after a register's content was put.
pub open spec fn put_result(
    t: Text,
    c: Cursor,
    saved: Option<usize>,
    anchor: Anchor,
    held: Option<register::Held>,
) -> (Text, Pos) {
    match held {
        Some(register::Held::Span(k)) => span_put(t, c, anchor, k),
        Some(register::Held::Line(k)) => lines_put(
            t,
            c.pos,
            saved,
            if anchor == Anchor::After {
                c.pos.row + 1
            } else {
                c.pos.row as int
            },
            k,
            k.len(),
        ),
        _ => (t, c.pos),
    }
}

/// What a register gave.
pub open spec fn held_of(reg: Option<RegisterContent>) -> Option<register::Held> {
    match reg {
        Some(c) => Some(c@),
        None => None,
    }
}

/// The text and the cursor after a new line was opened above or below the
/// cursor's.
pub open spec fn line_opened(t: Text, row: int, anchor: Anchor, level: usize) -> (Text, Pos) {
    let target = if anchor == Anchor::After {
        row + 1
    } else {
        row
    };
    (
        t.insert(target, ops::tabs(level as nat)),
        Pos { row: target as usize, col: level },
    )
}

/// The buffer after the cursor and the anchor of the selection changed places.
pub open spec fn anchor_swapped(a: LineBuf, b: LineBuf) -> bool {
    match a.select_mode {
        None => b == a,
        Some(m) => {
            &&& b.text() == a.text()
            &&& b.cursor == at(
                a.cursor,
                words::bounded(a.text(), buffer::anchor_of(m), false),
            )
            &&& b == (LineBuf {
                cursor: b.cursor,
                select_mode: Some(
                    match m {
                        SelectMode::Char(_) => SelectMode::Char(a.cursor.pos),
                        SelectMode::Line(_) => SelectMode::Line(a.cursor.pos),
                        SelectMode::Block(_) => SelectMode::Block(a.cursor.pos),
                    },
                ),
                ..a
            })
        },
    }
}

/// The first row to join and how many times, from the selected lines or the
/// command's count.
pub open spec fn join_range(a: LineBuf, cmd: EditCmd, height: usize) -> (int, nat) {
    let count = match cmd.motion {
        Some(m) => m.0 as nat,
        None => 1,
    };
    match (a.select_mode, motion_of(a, cmd, height)) {
        (Some(_), Some(MotionKind::Line { start, end, inclusive })) => {
            let s = if start > end {
                end
            } else {
                start
            };
            let e = if start > end {
                start
            } else {
                end
            };
            (
                s as int,
                line::least(
                    e - s + (if inclusive {
                        1int
                    } else {
                        0
                    }),
                    usize::MAX as int,
                ) as nat,
            )
        },
        _ => (a.cursor.pos.row as int, count),
    }
}

/// The buffer after lines were joined.
pub open spec fn rows_joined(a: LineBuf, b: LineBuf, cmd: EditCmd, height: usize) -> bool {
    let (row, n) = join_range(a, cmd, height);
    let t = if a.select_mode is Some {
        text_seen(a.text(), a.hinted(), cmd)
    } else {
        a.text()
    };
    let (t1, p) = ops::joined_rows(t, a.cursor.pos, row, n);
    &&& b.text() == t1
    &&& b.cursor == at(a.cursor, p)
    &&& b.saved_col == (if a.select_mode is Some {
        column_kept(a.saved_col, a.cursor.pos.col, cmd)
    } else {
        a.saved_col
    })
    &&& b == (LineBuf { lines: b.lines, cursor: b.cursor, saved_col: b.saved_col, ..a })
}

/// The buffer after a character was typed and the command's motion followed.
pub open spec fn char_typed(
    a: LineBuf,
    b: LineBuf,
    ch: char,
    cmd: EditCmd,
    height: usize,
    levels: Seq<(usize, usize)>,
) -> bool {
    let (t1, p1) = ops::put_in(
        a.text(),
        a.cursor.pos,
        a.cursor.pos,
        seq![ch],
        ops::level_at(levels, 0),
    );
    let t2 = text_seen(t1, a.hinted(), cmd);
    let saved = column_kept(a.saved_col, p1.col, cmd);
    match span_for(t1, a.hinted(), at(a.cursor, p1), a.saved_col, cmd, height) {
        None => {
            &&& b.text() == t2
            &&& b.cursor == at(a.cursor, p1)
            &&& b.saved_col == saved
            &&& b == (LineBuf { lines: b.lines, cursor: b.cursor, saved_col: b.saved_col, ..a })
        },
        Some(m) => followed(a, b, t2, p1, saved, m, false),
    }
}

/// The buffer after lines were indented or dedented: the cursor moves by as
/// many columns as lines changed.
pub open spec fn rows_indented(
    a: LineBuf,
    b: LineBuf,
    cmd: EditCmd,
    height: usize,
    deeper: bool,
) -> bool {
    let t = text_seen(a.text(), a.hinted(), cmd);
    match motion_of(a, cmd, height) {
        None => only_seen(a, b, cmd),
        Some(m) => match span_rows(m) {
            None => only_seen(a, b, cmd),
            Some((s, e)) => if deeper {
                settled(
                    a,
                    b,
                    cmd,
                    ops::indented(t, s as int, e as int),
                    a.cursor.pos.moved(
                        0,
                        ops::rows_among(s as int, e as int, t.len() as int) as isize,
                    ),
                )
            } else {
                settled(
                    a,
                    b,
                    cmd,
                    ops::dedented(t, s as int, e as int),
                    a.cursor.pos.moved(
                        0,
                        (-ops::tabbed_rows(t, s as int, e as int, t.len() as int)) as isize,
                    ),
                )
            },
        },
    }
}

/// The buffer after lines were indented as the shell has it.
pub open spec fn rows_equalized(
    a: LineBuf,
    b: LineBuf,
    cmd: EditCmd,
    height: usize,
    levels: Seq<(usize, usize)>,
) -> bool {
    let t = text_seen(a.text(), a.hinted(), cmd);
    match motion_of(a, cmd, height) {
        None => only_seen(a, b, cmd),
        Some(m) => match span_rows(m) {
            None => only_seen(a, b, cmd),
            Some((s, e)) => settled(
                a,
                b,
                cmd,
                ops::equalized(t, s as int, e as int, levels),
                a.cursor.pos,
            ),
        },
    }
}

/// The text and the cursor after the grapheme before the cursor changed places
/// with the one at it.
pub open spec fn chars_transposed(t: Text, c: Pos, lv: (usize, usize)) -> (Text, Pos) {
    let col = pos::one_less(c.col) as int;
    let row = t[c.row as int];
    if col < row.len() {
        let t1 = t.update(c.row as int, row.remove(col));
        let (t2, p) = ops::put_in(t1, c, c, row[col], lv);
        (t2, past(p))
    } else {
        (t, c)
    }
}

/// Whether a place holds whitespace.
pub open spec fn on_space(t: Text, p: Pos) -> bool {
    p.row < t.len() && p.col < t[p.row as int].len() && line::is_space(
        t[p.row as int][p.col as int],
    )
}

/// Where a normal-word motion from the cursor lands.
pub open spec fn word_target(t: Text, c: Cursor, count: nat, dir: Direction) -> Pos {
    match words::word_span(
        t,
        c.pos,
        c.exclusive,
        count,
        To::Start,
        Word::Normal,
        dir,
        false,
        false,
    ) {
        MotionKind::Char { start, end, inclusive } => end,
        _ => c.pos,
    }
}

/// The span of the word at a place, its end outside.
pub open spec fn word_at(t: Text, p: Pos) -> Option<(Pos, Pos)> {
    match words::word_object(t, p, Word::Normal, Bound::Inside) {
        Some(MotionKind::Char { start, end, inclusive }) => Some(
            (
                start,
                if inclusive {
                    past(end)
                } else {
                    end
                },
            ),
        ),
        _ => None,
    }
}

/// The text and the cursor after the word at the cursor, or the next one,
/// changed places with the word before; `None` where there are no two such
/// words.
pub open spec fn words_transposed(t: Text, c: Cursor) -> Option<(Text, Pos)> {
    let space = on_space(t, c.pos);
    let this_pos = if space {
        word_target(t, c, 1, Direction::Forward)
    } else {
        c.pos
    };
    let prev_pos = word_target(
        t,
        c,
        if space {
            1
        } else {
            2
        },
        Direction::Backward,
    );
    match (word_at(t, this_pos), word_at(t, prev_pos)) {
        (Some((s1, e1)), Some((s2, e2))) => if !pos::pos_lt(s2, s1) {
            None
        } else {
            let a1 = pos::pos_min(s1, e1);
            let b1 = pos::pos_max(s1, e1);
            let a2 = pos::pos_min(s2, e2);
            let b2 = pos::pos_max(s2, e2);
            let this = lines::between(t, a1, b1);
            let prev = lines::between(t, a2, b2);
            let t1 = lines::inserted(lines::without(t, a1, b1), s1, prev);
            let t2 = lines::inserted(lines::without(t1, a2, b2), s2, this);
            let col = s1.col + stretch_len(this) - stretch_len(prev);
            let start = words::bounded(
                t2,
                Pos {
                    row: s1.row,
                    col: if col < 0 || col > usize::MAX {
                        usize::MAX
                    } else {
                        col as usize
                    },
                },
                false,
            );
            Some((t2, motion::offset_wrapping(t2, at(c, start), stretch_len(prev))))
        },
        _ => None,
    }
}

proof fn lemma_hint_sizes(t: Text, h: Option<Text>, rows: int, cols: int)
    requires
        t.len() > 0,
        t.len() <= rows,
        rows_within(t, cols),
        cols >= 0,
        h is Some ==> (h->0).len() <= rows && rows_within(h->0, cols),
    ensures
        buffer::with_hint(t, h).len() >= t.len(),
        buffer::with_hint(t, h).len() <= 2 * rows,
        rows_within(buffer::with_hint(t, h), 2 * cols),
{
    if h is Some {
        let x = h->0;
        let all = lines::attached(t, x);
        if x.len() > 0 {
            assert forall|i: int| 0 <= i < all.len() implies (#[trigger] all[i]).len() <= 2
                * cols by {
                if i < t.len() - 1 {
                    assert(all[i] == t[i]);
                } else if i == t.len() - 1 {
                    assert(all[i] == t.last() + x[0]);
                } else {
                    assert(all[i] == x[i - t.len() + 1]);
                }
            }
        }
    }
}

impl LineBuf {
    /// The span of a command's motion. The motion sees the hint behind the
    /// text.
    pub fn eval_motion(&mut self, cmd: &EditCmd, height: usize) -> (r: Option<MotionKind>)
        requires
            old(self).wf(),
            sized(
                old(self).text(),
                old(self).hinted(),
                *cmd,
                usize::MAX as int / 4 + 1,
                isize::MAX as int / 2,
            ),
        ensures
            r == motion_of(*old(self), *cmd, height),
            only_seen(*old(self), *final(self), *cmd),
            final(self).wf(),
            final(self).lines@.len() <= usize::MAX as int / 2 + 2,
    {
        let ghost a = *self;
        assert(a.text().len() == a.lines@.len());
        let m = match &cmd.motion {
            Some(m) => m,
            None => return None,
        };
        let merged = self.merged();
        proof {
            lemma_hint_sizes(a.text(), a.hinted(), usize::MAX as int / 4 + 1, isize::MAX as int / 2);
            assert(lines::text(merged@).len() == merged@.len());
        }
        let shown: usize = match &self.hint {
            Some(h) => {
                let mut twice = clone_lines(&merged);
                let mut hh = clone_lines(h);
                lines::attach_lines(&mut twice, &mut hh);
                assert(lines::text(twice@).len() == twice@.len());
                lesser(lesser(height, 100), twice.len())
            },
            None => lesser(lesser(height, 100), merged.len()),
        };
        let half: isize = (shown / 2) as isize;
        let verb: Option<&Verb> = match &cmd.verb {
            Some(v) => Some(&v.1),
            None => None,
        };
        let r = eval_span(&merged, self.cursor, self.saved_col, half, verb, m.0, &m.1);
        if self.saved_col.is_none() && cmd.verb.is_none() && cmd.is_line_motion() {
            self.saved_col = Some(self.cursor.pos.col);
        }
        match &m.1 {
            Motion::ToBracket(_) | Motion::ToParen(_) | Motion::ToBrace(_) => {
                self.lines = merged;
            },
            _ => {},
        }
        r
    }

    /// Follows a motion.
    pub fn apply_motion(&mut self, m: MotionKind, accept_hint: bool)
        requires
            old(self).wf(),
        ensures
            followed(
                *old(self),
                *final(self),
                old(self).text(),
                old(self).cursor.pos,
                old(self).saved_col,
                m,
                accept_hint,
            ),
            final(self).wf(),
    {
        match m {
            MotionKind::Char { start: _, end, inclusive: _ } => {
                let last = bound_pos(&self.lines, Pos::max(), false);
                if accept_hint && self.has_hint() && !(end < last) {
                    self.accept_hint_to(end);
                } else {
                    self.set_cursor(end);
                }
            },
            MotionKind::Line { start, end: _, inclusive: _ } => {
                self.set_row(start);
            },
            MotionKind::Block { start: _, end: _ } => {},
        }
    }

    fn move_to_start(&mut self, m: MotionKind)
        requires
            old(self).lines@.len() > 0,
        ensures
            edited(
                *old(self),
                *final(self),
                old(self).text(),
                start_pos(old(self).text(), m, old(self).cursor.pos),
            ),
    {
        match m {
            MotionKind::Char { start, end, inclusive: _ } => {
                let (s, _) = ordered_pos(start, end);
                self.set_cursor(s);
            },
            MotionKind::Line { start, end, inclusive: _ } => {
                let (s, _) = ordered_rows(start, end);
                self.set_cursor(Pos { row: s, col: 0 });
            },
            MotionKind::Block { start: _, end: _ } => {},
        }
    }

    /// Follows the command's motion, if it has one, accepting the hint.
    pub fn verb_move(&mut self, cmd: &EditCmd, height: usize)
        requires
            countable(*old(self), *cmd),
        ensures
            moved(*old(self), *final(self), *cmd, height),
            final(self).wf(),
    {
        if let Some(m) = self.eval_motion(cmd, height) {
            self.apply_motion(m, true);
        }
    }

    /// Kills the span of the command's motion: takes it out and keeps it in
    /// the kill ring.
    pub fn verb_kill(&mut self, cmd: &EditCmd, height: usize)
        requires
            countable(*old(self), *cmd),
        ensures
            killed(*old(self), *final(self), *cmd, height),
            final(self).lines@.len() > 0,
    {
        let m = match self.eval_motion(cmd, height) {
            Some(m) => m,
            None => return,
        };
        let content = extract_range(&mut self.lines, &m);
        let ghost ring = self.kill_ring@;
        let ghost k = lines::text(content@);
        if self.kill_ring.merging && self.kill_ring.kills.len() > 0 {
            let mut content = content;
            let mut last = match self.kill_ring.kills.pop_back() {
                Some(l) => l,
                None => Vec::new(),
            };
            let ghost l = lines::text(last@);
            assert(l == ring.last());
            last.append(&mut content);
            assert(lines::text(last@) =~= l + k);
            self.kill_ring.kills.push_back(last);
            assert(self.kill_ring@ =~= ring.drop_last().push(ring.last() + k));
        } else {
            self.kill_ring.push_back(content);
        }
        self.kill_ring.merging = true;
    }

    fn take_text(&mut self, m: &MotionKind, how: Taking) -> (r: Vec<Line>)
        requires
            old(self).lines@.len() > 0,
            old(self).lines@.len() < usize::MAX,
        ensures
            lines::text(r@) == ops::taken(old(self).text(), *m).1,
            edited(
                *old(self),
                *final(self),
                text_taken(old(self).text(), *m, how, old(self).cursor.pos.row as int),
                old(self).cursor.pos,
            ),
            final(self).lines@.len() > 0,
    {
        assert(self.text().len() == self.lines@.len());
        match how {
            Taking::Yank => yank_range(&self.lines, m),
            Taking::Delete => extract_range(&mut self.lines, m),
            Taking::Change => {
                let n: usize = self.lines.len();
                let k = extract_range(&mut self.lines, m);
                assert(self.text().len() == self.lines@.len());
                let line_span: bool = match m {
                    MotionKind::Line { .. } => true,
                    _ => false,
                };
                if line_span && n > 1 {
                    let row: usize = lesser(self.cursor.pos.row, self.lines.len());
                    insert_line(&mut self.lines, row, Line::default());
                }
                k
            },
        }
    }

    fn indent_changed(&mut self, level: usize)
        requires
            old(self).wf(),
        ensures
            ({
                let t = old(self).text();
                let p = old(self).cursor.pos;
                let t2 = t.update(p.row as int, ops::tabs(level as nat) + t[p.row as int]);
                edited(
                    *old(self),
                    *final(self),
                    t2,
                    motion::offset_cursor(t2, old(self).cursor, 0, level as isize),
                )
            }),
            final(self).lines@.len() > 0,
    {
        let row: usize = self.cursor.pos.row;
        assert(self.text()[row as int] == self.lines@[row as int]@);
        let mut l = self.lines[row].clone();
        indent_line(&mut l, level);
        replace_line(&mut self.lines, row, l);
        self.cursor.pos = cursor_by(&self.lines, self.cursor, 0, level as isize);
    }

    fn after_taking(&mut self, m: &MotionKind, how: Taking, level: usize)
        requires
            old(self).lines@.len() > 0,
        ensures
            ({
                let (t, p) = settle_taken(
                    old(self).text(),
                    old(self).cursor,
                    old(self).saved_col,
                    *m,
                    how,
                    level,
                );
                edited(*old(self), *final(self), t, p)
            }),
            final(self).lines@.len() > 0,
    {
        match m {
            MotionKind::Char { start, end, inclusive: _ } => {
                let (s, _) = ordered_pos(*start, *end);
                self.set_cursor(s);
            },
            MotionKind::Line { start, end, inclusive } => {
                let end: usize = if *inclusive {
                    *end
                } else {
                    (*end).saturating_sub(1)
                };
                let (s, _) = ordered_rows(*start, end);
                self.set_row(s);
                if let Taking::Change = how {
                    self.indent_changed(level);
                }
            },
            MotionKind::Block { start, end: _ } => {
                let (s, _) = ordered_pos(self.cursor.pos, *start);
                self.set_cursor(s);
            },
        }
    }

    /// Deletes, changes or yanks the span of the command's motion and hands it
    /// out for the register.
    pub fn verb_take(
        &mut self,
        cmd: &EditCmd,
        how: Taking,
        height: usize,
        levels: &[(usize, usize)],
    ) -> (r: Effect)
        requires
            countable(*old(self), *cmd),
        ensures
            took(*old(self), *final(self), *cmd, how, height, levels@, r),
            final(self).lines@.len() > 0,
    {
        let m = match self.eval_motion(cmd, height) {
            Some(m) => m,
            None => return Effect::Nothing,
        };
        let content = self.take_text(&m, how);
        let level: usize = get_level(levels, 0).0;
        self.after_taking(&m, how, level);
        Effect::Store(RegisterContent::from_extracted(content, &m))
    }

    /// Changes the graphemes of the command's motion and goes to its start.
    pub fn verb_recase(&mut self, cmd: &EditCmd, how: Recase, height: usize)
        requires
            countable(*old(self), *cmd),
        ensures
            recased(*old(self), *final(self), *cmd, how, height),
            final(self).lines@.len() > 0,
    {
        let m = match self.eval_motion(cmd, height) {
            Some(m) => m,
            None => return,
        };
        motion_mutation(&mut self.lines, &m, how);
        self.move_to_start(m);
    }

    /// Changes the graphemes from the cursor on, one after the other.
    pub fn inplace_mutation(&mut self, count: u16, how: Recase)
        requires
            old(self).wf(),
        ensures
            ({
                let (t, p) = changed_along(old(self).text(), old(self).cursor, how, count as nat);
                edited(*old(self), *final(self), t, p)
            }),
            final(self).wf(),
    {
        let ghost a = *self;
        let mut i: u16 = 0;
        while i < count
            invariant
                i <= count,
                self.wf(),
                ({
                    let (t, p) = changed_along(a.text(), a.cursor, how, i as nat);
                    edited(a, *self, t, p)
                }),
            decreases count - i,
        {
            let ghost t = self.text();
            assert(t.len() == self.lines@.len());
            if i > 0 {
                self.cursor.pos = cursor_by(&self.lines, self.cursor, 0, 1);
            }
            let p: Pos = self.cursor.pos;
            assert(t[p.row as int] == self.lines@[p.row as int]@);
            if p.col < self.lines[p.row].len() {
                let g = recast_gr(self.lines[p.row].at(p.col), how);
                let mut l = self.lines[p.row].clone();
                l.replace_at(p.col, g);
                replace_line(&mut self.lines, p.row, l);
            }
            i = i + 1;
        }
    }

    #[verifier::rlimit(40)]
    /// Capitalizes the span of the command's motion and goes behind its end.
    pub fn verb_capitalize(&mut self, cmd: &EditCmd, height: usize)
        requires
            countable(*old(self), *cmd),
        ensures
            capitalizes(*old(self), *final(self), *cmd, height),
            final(self).lines@.len() > 0,
    {
        let m = match self.eval_motion(cmd, height) {
            Some(m) => m,
            None => return,
        };
        capitalize(&mut self.lines, &m);
        self.apply_motion(m, false);
        self.cursor.pos = self.cursor.pos.row_col_add(0, 1);
    }

    /// Adds to the number in the selection, or at the cursor.
    pub fn adjust_number(&mut self, inc: i64, levels: &[(usize, usize)])
        requires
            old(self).wf(),
            old(self).lines@.len() < usize::MAX,
        ensures
            number_adjusted(*old(self), *final(self), inc as int, levels@),
            final(self).lines@.len() > 0,
    {
        let ghost a = *self;
        let ghost t = self.text();
        assert(t.len() == self.lines@.len());
        let (s, e) = match self.select_mode {
            Some(SelectMode::Char(p)) => ordered_pos(self.cursor.pos, p),
            Some(_) => return,
            None => match number_at(&self.lines, self.cursor.pos) {
                Some(x) => x,
                None => return,
            },
        };
        let m = MotionKind::Char { start: s, end: e, inclusive: true };
        let word = yank_range(&self.lines, &m);
        let joined = join_lines(word.as_slice());
        let v = chars_of(joined.as_str());
        let new = match add_to_number(v.as_slice(), inc) {
            Some(n) => n,
            None => return,
        };
        let new = string_of(new.as_slice());
        proof {
            numbers::lemma_added_one_row(v@, inc as int);
            assert(new@ == numbers::added(v@, inc as int)->0);
            lines::lemma_one_row(new@);
            lemma_rest_no_longer(t, s, e);
        }
        extract_range(&mut self.lines, &m);
        assert(self.text().len() == self.lines@.len());
        self.set_cursor(s);
        let p = insert_str(&mut self.lines, self.cursor.pos, new.as_str(), levels);
        self.cursor.pos = Pos { row: p.row, col: p.col.saturating_sub(1) };
    }

    /// Goes one step back in the undo history.
    pub fn undo(&mut self)
        ensures
            undone(*old(self), *final(self)),
    {
        if self.undo_stack.len() == 0 {
            return;
        }
        if let Some(e) = self.undo_stack.pop() {
            self.lines = clone_lines(&e.old);
            self.cursor.pos = e.old_cursor;
            self.redo_stack.push(e);
        }
    }

    /// Goes one step forward in the undo history.
    pub fn redo(&mut self)
        ensures
            redone(*old(self), *final(self)),
    {
        if self.redo_stack.len() == 0 {
            return;
        }
        if let Some(e) = self.redo_stack.pop() {
            self.lines = clone_lines(&e.new);
            self.cursor.pos = e.new_cursor;
            self.undo_stack.push(e);
        }
    }

    /// Puts the next kill at the cursor.
    pub fn verb_kill_put(&mut self)
        requires
            old(self).wf(),
        ensures
            kill_put(*old(self), *final(self)),
            final(self).lines@.len() > 0,
    {
        let content = match self.kill_ring.next() {
            Some(k) => k,
            None => return,
        };
        let at_pos: Pos = self.cursor.pos;
        let len = distance_over(&content);
        insert_lines(&mut self.lines, at_pos, content);
        proof {
            lemma_inserted_nonempty(old(self).text(), at_pos, lines::text(content@));
            assert(self.text().len() == self.lines@.len());
        }
        self.cursor.pos = cursor_by_wrapping(&self.lines, self.cursor, len);
        self.kill_ring.kill_cycle_span = Some((at_pos, self.cursor.pos));
    }

    /// Puts the next kill in the place of the one put last.
    pub fn verb_kill_cycle(&mut self)
        requires
            old(self).wf(),
        ensures
            kill_cycled(*old(self), *final(self)),
            final(self).lines@.len() > 0,
    {
        let content = match self.kill_ring.next() {
            Some(k) => k,
            None => return,
        };
        let span = match self.kill_ring.kill_cycle_span {
            Some(s) => s,
            None => return,
        };
        let len = distance_over(&content);
        let (s, e) = ordered_pos(span.0, span.1);
        extract_range_contiguous(&mut self.lines, s, e);
        self.set_cursor(s);
        let ghost rest = self.text();
        assert(rest.len() == self.lines@.len());
        insert_lines(&mut self.lines, s, content);
        proof {
            lemma_inserted_nonempty(rest, s, lines::text(content@));
            assert(self.text().len() == self.lines@.len());
        }
        self.cursor.pos = cursor_by_wrapping(&self.lines, self.cursor, len);
        self.kill_ring.kill_cycle_span = Some((s, self.cursor.pos));
    }

    /// Puts what a register holds before or after the cursor.
    pub fn verb_put(&mut self, anchor: Anchor, reg: Option<RegisterContent>)
        requires
            old(self).wf(),
            reg is Some ==> old(self).lines@.len() + register::rows(reg->0@).len() < usize::MAX,
        ensures
            ({
                let (t, p) = put_result(
                    old(self).text(),
                    old(self).cursor,
                    old(self).saved_col,
                    anchor,
                    held_of(reg),
                );
                edited(*old(self), *final(self), t, p)
            }),
            final(self).lines@.len() > 0,
    {
        let ghost a = *self;
        let ghost t = self.text();
        assert(t.len() == self.lines@.len());
        match reg {
            Some(RegisterContent::Span(k)) => {
                let ghost kt = lines::text(k@);
                let row: usize = self.cursor.pos.row;
                assert(t[row as int] == self.lines@[row as int]@);
                let start_len: usize = self.lines[row].len();
                let single: bool = if k.len() == 1 {
                    assert(kt[0] == k@[0]@);
                    k[0].len() > 1
                } else {
                    false
                };
                let many: bool = count_of(&k) > 1;
                let col: usize = match anchor {
                    Anchor::After => if self.cursor.pos.col < start_len {
                        self.cursor.pos.col + 1
                    } else {
                        start_len
                    },
                    Anchor::Before => self.cursor.pos.col,
                };
                let p = Pos { row, col };
                insert_lines(&mut self.lines, p, k);
                proof {
                    lemma_inserted_rows(t, p, kt);
                    assert(self.text().len() == self.lines@.len());
                    assert(self.text()[row as int] == self.lines@[row as int]@);
                }
                let end_len: usize = self.lines[row].len();
                let mut delta: usize = end_len.saturating_sub(start_len);
                if let Anchor::Before = anchor {
                    delta = delta.saturating_sub(1);
                }
                if single {
                    self.cursor.pos = cursor_by(&self.lines, self.cursor, 0, delta as isize);
                } else if many || anchor == Anchor::After {
                    self.cursor.pos = cursor_by(&self.lines, self.cursor, 0, 1);
                }
            },
            Some(RegisterContent::Line(k)) => {
                let ghost kt = lines::text(k@);
                assert(kt.len() == k@.len());
                let row: usize = match anchor {
                    Anchor::After => self.cursor.pos.row + 1,
                    Anchor::Before => self.cursor.pos.row,
                };
                let mut i: usize = 0;
                while i < k.len()
                    invariant
                        i <= k@.len(),
                        kt == lines::text(k@),
                        row <= a.lines@.len(),
                        a.lines@.len() + k@.len() < usize::MAX,
                        self.lines@.len() == a.lines@.len() + i,
                        self.lines@.len() > 0,
                        ({
                            let (t2, p2) = lines_put(
                                t,
                                a.cursor.pos,
                                a.saved_col,
                                row as int,
                                kt,
                                i as nat,
                            );
                            edited(a, *self, t2, p2)
                        }),
                    decreases k@.len() - i,
                {
                    assert(kt[i as int] == k@[i as int]@);
                    insert_line(&mut self.lines, row + i, k[i].clone());
                    self.set_row(row + i);
                    i = i + 1;
                }
            },
            _ => {},
        }
    }

    /// Opens a new line above or below the cursor's, indented as the shell has
    /// it.
    pub fn open_line(&mut self, anchor: Anchor, level: usize)
        requires
            old(self).wf(),
            old(self).lines@.len() < usize::MAX,
        ensures
            ({
                let (t, p) = line_opened(
                    old(self).text(),
                    old(self).cursor.pos.row as int,
                    anchor,
                    level,
                );
                edited(*old(self), *final(self), t, p)
            }),
            final(self).wf(),
    {
        let target: usize = match anchor {
            Anchor::After => self.cursor.pos.row + 1,
            Anchor::Before => self.cursor.pos.row,
        };
        let mut l = Line::default();
        indent_line(&mut l, level);
        assert(l@ =~= ops::tabs(level as nat));
        insert_line(&mut self.lines, target, l);
        self.cursor.pos = Pos { row: target, col: level };
    }

    /// Lets the cursor and the anchor of the selection change places.
    pub fn swap_anchor(&mut self)
        requires
            old(self).lines@.len() > 0,
        ensures
            anchor_swapped(*old(self), *final(self)),
            final(self).lines@.len() > 0,
    {
        let cur: Pos = self.cursor.pos;
        let anchor = match self.select_mode {
            None => return,
            Some(SelectMode::Char(p)) => {
                self.select_mode = Some(SelectMode::Char(cur));
                p
            },
            Some(SelectMode::Line(p)) => {
                self.select_mode = Some(SelectMode::Line(cur));
                p
            },
            Some(SelectMode::Block(p)) => {
                self.select_mode = Some(SelectMode::Block(cur));
                p
            },
        };
        self.set_cursor(anchor);
    }

    /// Joins the selected lines, or the cursor's line with those below.
    pub fn verb_join(&mut self, cmd: &EditCmd, height: usize)
        requires
            countable(*old(self), *cmd),
        ensures
            rows_joined(*old(self), *final(self), *cmd, height),
            final(self).lines@.len() > 0,
    {
        let mut row: usize = self.cursor.pos.row;
        let mut count: usize = match &cmd.motion {
            Some(m) => m.0,
            None => 1,
        };
        if self.select_mode.is_some() {
            if let Some(MotionKind::Line { start, end, inclusive }) = self.eval_motion(
                cmd,
                height,
            ) {
                let (s, e) = ordered_rows(start, end);
                row = s;
                count = if inclusive {
                    (e - s).saturating_add(1)
                } else {
                    e - s
                };
            }
        }
        self.cursor.pos = join_rows(&mut self.lines, self.cursor.pos, row, count);
    }

    /// Types a character and follows the command's motion.
    pub fn type_char(&mut self, ch: char, cmd: &EditCmd, height: usize, levels: &[(usize, usize)])
        requires
            countable(*old(self), *cmd),
            ops::level_at(levels@, 0).1 <= isize::MAX as int / 4 - 1,
        ensures
            char_typed(*old(self), *final(self), ch, *cmd, height, levels@),
            final(self).lines@.len() > 0,
    {
        let ghost a = *self;
        let ghost t = self.text();
        assert(t.len() == self.lines@.len());
        let lv = get_level(levels, 0);
        let p = insert_at(
            &mut self.lines,
            self.cursor.pos,
            self.cursor.pos,
            Grapheme::from_char(ch),
            lv,
        );
        self.cursor.pos = p;
        let ghost t1 = self.text();
        proof {
            assert(t1.len() == self.lines@.len());
            lemma_put_in_rows(t, a.cursor.pos, a.cursor.pos, seq![ch], lv, isize::MAX as int / 4);
            assert(isize::MAX as int / 4 + isize::MAX as int / 4 <= isize::MAX as int / 2);
        }
        if let Some(m) = self.eval_motion(cmd, height) {
            self.apply_motion(m, false);
        }
    }

    /// Types a string at the cursor.
    pub fn type_str(&mut self, s: &str, levels: &[(usize, usize)])
        requires
            old(self).wf(),
            old(self).lines@.len() + lines::rows_of(s@).len() <= usize::MAX,
        ensures
            ({
                let gs = unicode::clusters(s@);
                let (t, p) = ops::typed_all(
                    old(self).text(),
                    old(self).cursor.pos,
                    gs,
                    levels@,
                    gs.len(),
                );
                edited(*old(self), *final(self), t, p)
            }),
            final(self).wf(),
    {
        self.cursor.pos = insert_str(&mut self.lines, self.cursor.pos, s, levels);
    }

    /// Indents or dedents the lines of the command's motion.
    pub fn verb_indent(&mut self, cmd: &EditCmd, height: usize, deeper: bool)
        requires
            countable(*old(self), *cmd),
        ensures
            rows_indented(*old(self), *final(self), *cmd, height, deeper),
            final(self).lines@.len() > 0,
    {
        let m = match self.eval_motion(cmd, height) {
            Some(m) => m,
            None => return,
        };
        let (s, e) = match rows_of_span(&m) {
            Some(x) => x,
            None => return,
        };
        let ghost t = self.text();
        assert(t.len() == self.lines@.len());
        if deeper {
            let n = indent_rows(&mut self.lines, s, e);
            self.cursor.pos = self.cursor.pos.row_col_add(0, n as isize);
        } else {
            let n = dedent_rows(&mut self.lines, s, e);
            proof {
                lemma_tabbed_bound(t, s as int, e as int, t.len() as int);
            }
            self.cursor.pos = self.cursor.pos.row_col_add(0, -(n as isize));
        }
    }

    /// Indents the lines of the command's motion as the shell has it.
    pub fn verb_equalize(&mut self, cmd: &EditCmd, height: usize, levels: &[(usize, usize)])
        requires
            countable(*old(self), *cmd),
        ensures
            rows_equalized(*old(self), *final(self), *cmd, height, levels@),
            final(self).lines@.len() > 0,
    {
        let m = match self.eval_motion(cmd, height) {
            Some(m) => m,
            None => return,
        };
        let (s, e) = match rows_of_span(&m) {
            Some(x) => x,
            None => return,
        };
        equalize(&mut self.lines, s, e, levels);
    }

    /// Breaks the line at the cursor.
    pub fn break_line(&mut self, level: usize)
        requires
            old(self).wf(),
            old(self).lines@.len() < usize::MAX,
        ensures
            ({
                let (t, p) = ops::broken(old(self).text(), old(self).cursor.pos, level);
                edited(*old(self), *final(self), t, p)
            }),
            final(self).lines@.len() > 0,
    {
        self.cursor.pos = break_line_at(&mut self.lines, self.cursor.pos, level);
    }

    /// Lets the grapheme before the cursor and the one at it change places.
    pub fn transpose_char(&mut self, levels: &[(usize, usize)])
        requires
            old(self).wf(),
            old(self).lines@.len() < usize::MAX,
        ensures
            ({
                let (t, p) = chars_transposed(
                    old(self).text(),
                    old(self).cursor.pos,
                    ops::level_at(levels@, 0),
                );
                edited(*old(self), *final(self), t, p)
            }),
            final(self).lines@.len() > 0,
    {
        let cur: Pos = self.cursor.pos;
        let col: usize = cur.col.saturating_sub(1);
        assert(self.text()[cur.row as int] == self.lines@[cur.row as int]@);
        if col >= self.lines[cur.row].len() {
            return;
        }
        let mut l = self.lines[cur.row].clone();
        let g = l.remove(col);
        replace_line(&mut self.lines, cur.row, l);
        let p = insert_at(&mut self.lines, cur, cur, g, get_level(levels, 0));
        self.cursor.pos = p.row_col_add(0, 1);
    }

    /// Lets the word at the cursor, or the next one, and the word before
    /// change places.
    pub fn transpose_word(&mut self)
        requires
            old(self).wf(),
        ensures
            match words_transposed(old(self).text(), old(self).cursor) {
                None => *final(self) == *old(self),
                Some((t, p)) => edited(*old(self), *final(self), t, p),
            },
            final(self).lines@.len() > 0,
    {
        let ghost t = self.text();
        let c: Cursor = self.cursor;
        assert(t.len() == self.lines@.len());
        assert(t[c.pos.row as int] == self.lines@[c.pos.row as int]@);
        let space: bool = c.pos.col < self.lines[c.pos.row].len() && self.lines[c.pos.row].at(
            c.pos.col,
        ).is_ws();
        let this_pos = if space {
            normal_word_target(&self.lines, c, 1, Direction::Forward)
        } else {
            c.pos
        };
        let (s1, e1) = match normal_word_at(&self.lines, this_pos) {
            Some(x) => x,
            None => return,
        };
        let back: usize = if space {
            1
        } else {
            2
        };
        let prev_pos = normal_word_target(&self.lines, c, back, Direction::Backward);
        let (s2, e2) = match normal_word_at(&self.lines, prev_pos) {
            Some(x) => x,
            None => return,
        };
        if !(s2 < s1) {
            return;
        }
        let (a1, b1) = ordered_pos(s1, e1);
        let (a2, b2) = ordered_pos(s2, e2);
        let mut copy = clone_lines(&self.lines);
        assert(lines::text(copy@).len() == copy@.len());
        let prev = extract_range_contiguous(&mut copy, a2, b2);
        let prev_len = distance_over(&prev);
        let this = extract_range_contiguous(&mut self.lines, a1, b1);
        let this_len = distance_over(&this);
        let ghost rest1 = self.text();
        assert(rest1.len() == self.lines@.len());
        insert_lines(&mut self.lines, s1, prev);
        proof {
            lemma_inserted_nonempty(rest1, s1, lines::text(prev@));
            assert(self.text().len() == self.lines@.len());
        }
        extract_range_contiguous(&mut self.lines, a2, b2);
        let ghost rest2 = self.text();
        assert(rest2.len() == self.lines@.len());
        insert_lines(&mut self.lines, s2, this);
        proof {
            lemma_inserted_nonempty(rest2, s2, lines::text(this@));
            assert(self.text().len() == self.lines@.len());
        }
        let col: i128 = s1.col as i128 + this_len as i128 - prev_len as i128;
        let col: usize = if col < 0 || col > usize::MAX as i128 {
            usize::MAX
        } else {
            col as usize
        };
        self.set_cursor(Pos { row: s1.row, col });
        self.cursor.pos = cursor_by_wrapping(&self.lines, self.cursor, prev_len);
    }
}

fn normal_word_target(lines: &Vec<Line>, c: Cursor, count: usize, dir: Direction) -> (r: Pos)
    ensures
        r == word_target(lines::text(lines@), c, count as nat, dir),
{
    match eval_word_motion(
        lines,
        c.pos,
        c.exclusive,
        count,
        To::Start,
        Word::Normal,
        dir,
        false,
        false,
    ) {
        MotionKind::Char { start: _, end, inclusive: _ } => end,
        _ => c.pos,
    }
}

fn normal_word_at(lines: &Vec<Line>, p: Pos) -> (r: Option<(Pos, Pos)>)
    ensures
        r == word_at(lines::text(lines@), p),
{
    match text_obj_word(lines, p, Word::Normal, Bound::Inside) {
        Some(MotionKind::Char { start, end, inclusive }) => {
            let end = if inclusive {
                end.row_col_add(0, 1)
            } else {
                end
            };
            Some((start, end))
        },
        _ => None,
    }
}

fn rows_of_span(m: &MotionKind) -> (r: Option<(usize, usize)>)
    ensures
        r == span_rows(*m),
{
    match m {
        MotionKind::Char { start, end, inclusive: _ } => Some(ordered_rows(start.row, end.row)),
        MotionKind::Line { start, end, inclusive: _ } => Some(ordered_rows(*start, *end)),
        MotionKind::Block { start: _, end: _ } => None,
    }
}

/// How many places a stretch takes, as far as a signed distance goes.
fn distance_over(k: &Vec<Line>) -> (r: isize)
    ensures
        r == stretch_len(lines::text(k@)),
{
    assert(lines::text(k@).len() == k@.len());
    let n: usize = count_of(k).saturating_add(k.len().saturating_sub(1));
    if n > isize::MAX as usize {
        isize::MAX
    } else {
        n as isize
    }
}

pub proof fn lemma_rest_no_longer(t: Text, s: Pos, e: Pos)
    requires
        t.len() > 0,
    ensures
        ops::taken(t, MotionKind::Char { start: s, end: e, inclusive: true }).0.len() <= t.len(),
{
    let a = pos::pos_min(s, e);
    let b = scan::next_col(pos::pos_max(s, e));
    let p = lines::inside(t, a);
    let q = lines::inside(t, b);
    assert(lines::before(t, a).len() == p.row + 1);
    assert(lines::after(t, b).len() == t.len() - q.row);
    assert(p.row <= q.row);
}

proof fn lemma_inserted_nonempty(t: Text, p: Pos, k: Text)
    requires
        t.len() > 0,
    ensures
        lines::inserted(t, p, k).len() > 0,
{
}

proof fn lemma_inserted_rows(t: Text, p: Pos, k: Text)
    requires
        t.len() > 0,
        p.row < t.len(),
    ensures
        lines::inserted(t, p, k).len() > p.row,
{
    let b = lines::before(t, p);
    assert(b.len() == p.row + 1);
}

proof fn lemma_tabbed_bound(t: Text, s: int, e: int, n: int)
    ensures
        0 <= ops::tabbed_rows(t, s, e, n),
        n >= 0 ==> ops::tabbed_rows(t, s, e, n) <= n,
    decreases n,
{
    if n > 0 {
        lemma_tabbed_bound(t, s, e, n - 1);
    }
}

proof fn lemma_untabbed_shorter(row: Seq<Seq<char>>, n: nat)
    ensures
        ops::untabbed(row, n).len() <= row.len(),
    decreases n,
{
    if n > 0 && row.len() > 0 && row[0] == seq!['\t'] {
        lemma_untabbed_shorter(row.skip(1), (n - 1) as nat);
    }
}

proof fn lemma_put_in_rows(
    t: Text,
    cur: Pos,
    p: Pos,
    g: Seq<char>,
    lv: (usize, usize),
    n: int,
)
    requires
        t.len() > 0,
        t.len() < usize::MAX,
        cur.row < t.len(),
        rows_within(t, n),
        lv.1 <= n - 1,
    ensures
        rows_within(ops::put_in(t, cur, p, g, lv).0, n + n),
{
    let r = ops::put_in(t, cur, p, g, lv).0;
    let q = lines::inside(t, p);
    assert(t[q.row as int].len() <= n);
    if g == seq!['\n'] {
        let t1 = ops::broken(t, p, lv.1).0;
        let row = t[q.row as int];
        assert forall|i: int| 0 <= i < t1.len() implies (#[trigger] t1[i]).len() <= n + n by {
            if i < q.row {
                assert(t1[i] == t[i]);
            } else if i == q.row {
                assert(t1[i] == row.take(q.col as int));
            } else if i == q.row + 1 {
                assert(t1[i] == ops::tabs(lv.1 as nat) + row.skip(q.col as int));
            } else {
                assert(t1[i] == t[i - 1]);
            }
        }
        if lv.1 < lv.0 {
            lemma_untabbed_shorter(t1[q.row + 1], (lv.0 - lv.1) as nat);
            assert(r == t1.update(
                q.row + 1,
                ops::untabbed(t1[q.row + 1], (lv.0 - lv.1) as nat),
            ));
        } else {
            assert(r == t1);
        }
    } else {
        let t1 = t.update(q.row as int, t[q.row as int].insert(q.col as int, g));
        assert forall|i: int| 0 <= i < t1.len() implies (#[trigger] t1[i]).len() <= n + n by {
            if i != q.row {
                assert(t1[i] == t[i]);
            }
        }
        if lv.1 < lv.0 {
            lemma_untabbed_shorter(t1[cur.row as int], (lv.0 - lv.1) as nat);
            assert(r == t1.update(
                cur.row as int,
                ops::untabbed(t1[cur.row as int], (lv.0 - lv.1) as nat),
            ));
        } else {
            assert(r == t1);
        }
    }
}

} // verus!
