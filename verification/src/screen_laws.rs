//! Where things stand on the screen, and what the terminal is told.

use crate::complete::boxed;
use crate::editmode::ModeReport;
use crate::linebuf::lines;
use crate::screen::ScreenState;
use crate::screen;
use crate::screen::Frame;
use crate::screen::Op;
use crate::term::layout;
use crate::term::layout::Layout;
use crate::term::layout::Pos;
use crate::term::layout::TAB_STOP;
use crate::term::width::EscState;
use crate::term::width::WidthCalculator;
use crate::term::width;
use crate::text;
use crate::unicode;
use vstd::prelude::*;

verus! {

/// A linefeed goes to the next row, to the margin; a grapheme goes on in its row by the
/// columns that it takes, and to the start of the next row where it does not fit.
pub proof fn graphemes_take_their_columns(
    w: WidthCalculator,
    p: Pos,
    st: EscState,
    g: Seq<char>,
    width: u16,
    margin: u16,
    n: u16,
)
    requires
        g != seq!['\n'],
        layout::step_width(w, p.col, st, g, false).1 == n,
        p.row < u16::MAX,
        p.col + n <= u16::MAX,
    ensures
        ({
            let q = layout::step_pos(w, p, st, g, width, margin, false).0;
            &&& p.col + n <= width ==> q == (Pos { row: p.row, col: (p.col + n) as u16 })
            &&& p.col + n > width ==> q == (Pos { row: (p.row + 1) as u16, col: n })
        }),
{
}

/// A linefeed goes to the margin of the next row, where it takes no columns itself.
pub proof fn linefeeds_go_to_the_next_row(w: WidthCalculator, p: Pos, st: EscState, width: u16, margin: u16)
    requires
        p.row < u16::MAX,
        margin <= width,
        layout::step_width(w, margin, st, seq!['\n'], false).1 == 0,
    ensures
        layout::step_pos(w, p, st, seq!['\n'], width, margin, false).0 == (Pos {
            row: (p.row + 1) as u16,
            col: margin,
        }),
{
}

/// A tab goes to the next tab stop: a column that the width of tabs divides, beyond the one
/// that it is at and by no more than that width.
pub proof fn tabs_go_to_the_next_stop(w: WidthCalculator, col: u16, st: EscState, raw: bool)
    ensures
        ({
            let n = layout::step_width(w, col, st, seq!['\t'], raw).1;
            &&& 0 < n <= TAB_STOP
            &&& (col + n) % (TAB_STOP as int) == 0
        }),
{
    let t = TAB_STOP as int;
    let c = col as int;
    assert(c == (c / t) * t + c % t) by (nonlinear_arith)
        requires
            t > 0,
    ;
    let k = c / t;
    assert(((k + 1) * t) % t == 0) by (nonlinear_arith)
        requires
            t > 0,
    ;
    assert((k + 1) * t == k * t + t) by (nonlinear_arith);
}

/// Control characters show as two characters, but for line breaks and tabs.
pub proof fn control_characters_take_two_columns(w: WidthCalculator, col: u16, st: EscState, c: char)
    requires
        c as u32 <= 0x1f,
        c != '\n' && c != '\t' && c != '\r',
    ensures
        layout::step_width(w, col, st, seq![c], true).1 == 2,
{
    let g = seq![c];
    assert(g[0] == c);
    assert(seq!['\n'][0] == '\n' && seq!['\t'][0] == '\t' && seq!['\r'][0] == '\r');
}

/// What comes at the right edge is at the start of the next row.
pub proof fn the_edge_is_in_the_next_row(
    w: WidthCalculator,
    width: u16,
    s: Seq<char>,
    orig: Pos,
    margin: u16,
    raw: bool,
)
    requires
        width > 0,
    ensures
        layout::pos_after(w, width, s, orig, margin, raw).col < width,
{
}

/// The cursor goes down, up, right and left by as much as its places differ.
pub proof fn movements_are_told(p: Pos, n: u16)
    requires
        n > 1,
        p.row + n <= u16::MAX,
        p.col + n <= u16::MAX,
    ensures
        ({
            let esc = seq!['\u{1b}', '['];
            let below = Pos { row: (p.row + n) as u16, col: p.col };
            let right = Pos { row: p.row, col: (p.col + n) as u16 };
            &&& layout::movement(p, below) == esc + text::decimal(n as nat) + seq!['B']
            &&& layout::movement(below, p) == esc + text::decimal(n as nat) + seq!['A']
            &&& layout::movement(p, right) == esc + text::decimal(n as nat) + seq!['C']
            &&& layout::movement(right, p) == esc + text::decimal(n as nat) + seq!['D']
            &&& layout::movement(p, p) == Seq::<char>::empty()
        }),
{
    reveal_strlit("\x1b[");
    let esc = seq!['\u{1b}', '['];
    assert("\x1b["@ =~= esc);
    let d = text::decimal(n as nat);
    let e = Seq::<char>::empty();
    assert((esc + d).push('B') + e =~= esc + d + seq!['B']);
    assert((esc + d).push('A') + e =~= esc + d + seq!['A']);
    assert(e + (esc + d).push('C') =~= esc + d + seq!['C']);
    assert(e + (esc + d).push('D') =~= esc + d + seq!['D']);
    assert(e + e =~= e);
}

/// By one place the cursor goes without a number.
pub proof fn single_steps_are_told(p: Pos)
    requires
        p.row < u16::MAX,
        p.col < u16::MAX,
    ensures
        ({
            let below = Pos { row: (p.row + 1) as u16, col: p.col };
            let right = Pos { row: p.row, col: (p.col + 1) as u16 };
            &&& layout::movement(p, below) == seq!['\u{1b}', '[', 'B']
            &&& layout::movement(below, p) == seq!['\u{1b}', '[', 'A']
            &&& layout::movement(p, right) == seq!['\u{1b}', '[', 'C']
            &&& layout::movement(right, p) == seq!['\u{1b}', '[', 'D']
        }),
{
    reveal_strlit("\x1b[");
    assert("\x1b["@.push('B') + Seq::<char>::empty() =~= seq!['\u{1b}', '[', 'B']);
    assert("\x1b["@.push('A') + Seq::<char>::empty() =~= seq!['\u{1b}', '[', 'A']);
    assert(Seq::<char>::empty() + "\x1b["@.push('C') =~= seq!['\u{1b}', '[', 'C']);
    assert(Seq::<char>::empty() + "\x1b["@.push('D') =~= seq!['\u{1b}', '[', 'D']);
}

proof fn lemma_line_end(l: Seq<char>, rest: Seq<char>, i: int)
    requires
        !l.contains('\n'),
        0 <= i <= l.len(),
        rest.len() > 0 ==> rest[0] == '\n',
    ensures
        screen::line_end(l + rest, i) == l.len(),
    decreases l.len() - i,
{
    let s = l + rest;
    if i < l.len() {
        assert(s[i] == l[i]);
        assert(l.contains(l[i]));
        lemma_line_end(l, rest, i + 1);
    } else if rest.len() > 0 {
        assert(s[i] == rest[0]);
    }
}

/// The first line of a text goes up to its first line break, without it.
pub proof fn first_lines_end_at_the_break(l: Seq<char>, rest: Seq<char>)
    requires
        !l.contains('\n'),
        !l.contains('\r'),
    ensures
        screen::first_line(l + seq!['\n'] + rest) == l,
        screen::first_line(l + seq!['\r', '\n'] + rest) == l,
        screen::first_line(l) == l,
        rest.len() > 0 ==> screen::cut_to_line(l + seq!['\n'] + rest) == l,
        screen::cut_to_line(l) == l,
{
    let a = l + seq!['\n'] + rest;
    let t = seq!['\n'] + rest;
    assert(a =~= l + t);
    lemma_line_end(l, t, 0);
    assert(a.take(l.len() as int) =~= l);
    if l.len() > 0 {
        assert(a[l.len() - 1] == l[l.len() - 1]);
        assert(l.contains(l[l.len() - 1]));
    }
    let m = l.push('\r');
    let b = l + seq!['\r', '\n'] + rest;
    assert(b =~= m + t);
    assert(!m.contains('\n')) by {
        if m.contains('\n') {
            let i = choose|i: int| 0 <= i < m.len() && m[i] == '\n';
            assert(i < l.len() ==> l.contains(l[i]));
        }
    }
    lemma_line_end(m, t, 0);
    assert(b[l.len() as int] == '\r');
    assert(b.take(l.len() as int) =~= l);
    let e = Seq::<char>::empty();
    assert(l + e =~= l);
    lemma_line_end(l, e, 0);
    assert(l.take(l.len() as int) =~= l);
}

/// The text has the rows that the rest of the screen leaves it, and never none.
pub proof fn the_text_has_the_rows_that_are_left(t_rows: usize, prompt: int, reserved: int, overlay: int)
    ensures
        t_rows - prompt - reserved - overlay >= 1 ==> screen::rows_for_text(
            t_rows,
            prompt,
            reserved,
            overlay,
        ) == t_rows - prompt - reserved - overlay,
        screen::rows_for_text(t_rows, prompt, reserved, overlay) >= 1,
{
}

/// A message shows for five seconds, by its first line.
pub proof fn messages_show_for_five_seconds(m: Seq<char>, rest: Seq<char>, age: u64)
    requires
        !m.contains('\n'),
        !m.contains('\r'),
    ensures
        age < 5000 ==> screen::shown_message(Some((m + seq!['\n'] + rest, age))) == Some(
            (m, (5000 - age) as u64),
        ),
        age >= 5000 ==> screen::shown_message(Some((m, age))) is None,
        screen::shown_message(None) is None,
{
    first_lines_end_at_the_break(m, rest);
}

/// The text that a mode reads stands behind the sign of the mode, below the line.
pub proof fn modes_have_their_sign()
    ensures
        screen::sub_prefix(ModeReport::Ex) == seq![':', ' '],
        screen::sub_prefix(ModeReport::Search) == seq!['/'],
        screen::sub_prefix(ModeReport::RevSearch) == seq!['?'],
        screen::has_sub_editor(ModeReport::Ex) && screen::has_sub_editor(ModeReport::Search)
            && screen::has_sub_editor(ModeReport::RevSearch),
        !screen::has_sub_editor(ModeReport::Insert) && !screen::has_sub_editor(ModeReport::Normal)
            && !screen::has_sub_editor(ModeReport::Visual) && !screen::has_sub_editor(
            ModeReport::Emacs,
        ),
{
    reveal_strlit(": ");
    reveal_strlit("?");
    reveal_strlit("/");
    assert(": "@ =~= seq![':', ' ']);
    assert("?"@ =~= seq!['?']);
    assert("/"@ =~= seq!['/']);
}

/// Each message is on a line of its own, in order.
pub proof fn messages_have_their_lines(m: Seq<String>, s: String)
    ensures
        layout::message_rows(m.push(s)) == layout::message_rows(m) + s@ + seq!['\n'],
        layout::message_rows(Seq::empty()) == Seq::<char>::empty(),
{
    assert(m.push(s).drop_last() =~= m);
    assert((layout::message_rows(m) + s@).push('\n') =~= layout::message_rows(m) + s@
        + seq!['\n']);
}

proof fn lemma_params(p: Seq<char>, d: Seq<char>, j: int)
    requires
        text::all_digits(d),
        p.len() > 0,
        !unicode::ascii_digit(p.last()) && p.last() != ';',
        p.len() <= j <= p.len() + d.len(),
    ensures
        layout::params_start(p + d + seq!['m'], j) == p.len(),
    decreases j,
{
    let s = p + d + seq!['m'];
    if j > p.len() {
        assert(s[j - 1] == d[j - 1 - p.len()]);
        assert(unicode::ascii_digit(d[j - 1 - p.len()]));
        lemma_params(p, d, j - 1);
    } else {
        assert(s[j - 1] == p.last());
    }
}

/// A style at the end of a text does not hide that the text ends in a line break.
pub proof fn styles_do_not_hide_line_breaks(s: Seq<char>, n: nat)
    ensures
        layout::ends_in_newline(s.push('\n') + seq!['\u{1b}', '['] + text::decimal(n) + seq!['m']),
        layout::ends_in_newline(s.push('\n')),
        !layout::ends_in_newline(s.push(' ')),
{
    let d = text::decimal(n);
    text::decimal_reads_back(n);
    let p = s.push('\n') + seq!['\u{1b}', '['];
    let t = p + d + seq!['m'];
    assert(t =~= s.push('\n') + seq!['\u{1b}', '['] + d + seq!['m']);
    lemma_params(p, d, t.len() - 1);
    assert(t.last() == 'm');
    assert(t[p.len() - 1] == '[' && t[p.len() - 2] == '\u{1b}');
    assert(t.take(p.len() - 2) =~= s.push('\n'));
    reveal_with_fuel(layout::without_escapes, 2);
    assert(s.push('\n').last() == '\n');
    assert(s.push(' ').last() == ' ');
}

/// A status line that is gone is cleared where it was: on the last row of the screen, and
/// the cursor comes back.
pub proof fn the_status_line_is_cleared(f: Frame)
    ensures
        f.had_statline && !f.statline ==> ({
            let o = screen::statline_gone(f);
            &&& o.len() > 3 && o[0] == Op::SavePos && o[1] == Op::At(f.t_rows, 1)
            &&& o[2] == Op::ClearLine && o[3] == Op::RestorePos
        }),
        !f.had_statline || f.statline ==> screen::statline_gone(f).len() == 0,
{
}

/// The rows that a layout takes are those up to its end, and more where the terminal
/// became narrower than the right prompt reaches.
pub proof fn layouts_take_rows(l: Layout, t_cols: u16)
    ensures
        l.psr_end is None ==> layout::rows_taken(l, t_cols) == l.end.row,
        l.t_cols <= t_cols ==> layout::rows_taken(l, t_cols) == l.end.row,
        layout::rows_taken(l, t_cols) >= l.end.row,
{
    if l.psr_end is Some && l.t_cols > t_cols && t_cols > 0 {
        let a = (l.t_cols - 1) as int;
        let b = t_cols as int;
        assert(a / b >= 0) by (nonlinear_arith)
            requires
                a >= 0,
                b > 0,
        ;
    }
}

/// What is done again and again is done as often as asked.
pub proof fn steps_are_repeated(o: Op, n: nat, i: int)
    ensures
        screen::again(seq![o], n).len() == n,
        0 <= i < n ==> screen::again(seq![o], n)[i] == o,
    decreases n,
{
    if n > 0 {
        steps_are_repeated(o, (n - 1) as nat, i);
    }
}

/// With a status line a message is on its row. Without one it is on a row of its own below
/// the text, from where the cursor goes up by as many rows as it went down, to its column.
pub proof fn messages_leave_the_cursor(l: Layout, mode: ModeReport, content: Seq<char>)
    requires
        content.len() > 0,
        l.cursor.row <= l.end.row < u16::MAX - 2,
        l.cursor.col < u16::MAX,
    ensures
        screen::status_ops(l, mode, true, content) == seq![Op::StatusMessage(content)],
        screen::status_ops(l, mode, true, Seq::empty()) == Seq::<Op>::empty(),
        screen::status_ops(l, mode, false, Seq::empty()) == Seq::<Op>::empty(),
        ({
            let gap = l.end.row - l.cursor.row + (if screen::has_sub_editor(mode) {
                1int
            } else {
                2
            });
            let s = screen::status_ops(l, mode, false, content);
            &&& s.len() == gap + 5
            &&& forall|i: int| 0 <= i < gap ==> #[trigger] s[i] == Op::Newline
            &&& s[gap + 2] == Op::Text(content)
            &&& s[gap + 3] == Op::Up(gap as u16)
            &&& s[gap + 4] == Op::Col((l.cursor.col + 1) as u16)
        }),
{
    let gap = l.end.row - l.cursor.row + (if screen::has_sub_editor(mode) {
        1int
    } else {
        2
    });
    let s = screen::status_ops(l, mode, false, content);
    steps_are_repeated(Op::Newline, gap as nat, 0);
    assert forall|i: int| 0 <= i < gap implies #[trigger] s[i] == Op::Newline by {
        steps_are_repeated(Op::Newline, gap as nat, i);
    }
}

/// The rows below what is shown are filled down to the status line, and the cursor comes
/// back from there.
pub proof fn rows_are_filled(l: Layout, overlay: u16, t_rows: u16, input_row: u16)
    requires
        l.cursor.row <= l.end.row,
        input_row + (l.end.row - l.cursor.row) + overlay <= u16::MAX,
    ensures
        ({
            let bottom = input_row + (l.end.row - l.cursor.row) + overlay;
            let s = screen::fill_ops(l, overlay, t_rows, input_row);
            &&& bottom >= t_rows - 2 ==> s.len() == 0
            &&& bottom < t_rows - 2 ==> {
                &&& s.len() == 4 + 4 * (t_rows - 2 - bottom)
                &&& s[0] == Op::SavePos
                &&& s.last() == Op::RestorePos
                &&& s[1] == Op::Down((l.end.row - l.cursor.row + overlay) as u16)
            }
        }),
{
    let bottom = input_row + (l.end.row - l.cursor.row) + overlay;
    if bottom < t_rows - 2 {
        lemma_again_len(
            seq![Op::Down(1), Op::Col(1), Op::ClearLine, Op::Text("\x1b[90m~\x1b[0m"@)],
            (t_rows - 2 - bottom) as nat,
        );
    }
}

proof fn lemma_again_len(piece: Seq<Op>, n: nat)
    requires
        piece.len() == 4,
    ensures
        screen::again(piece, n).len() == 4 * n,
    decreases n,
{
    if n > 0 {
        lemma_again_len(piece, (n - 1) as nat);
    }
}

/// The right prompt ends at the right edge, on the last row of the text, and the cursor
/// comes back; it shows where it does not reach the text, and not once a line is done with.
pub proof fn the_right_prompt_is_at_the_edge(f: Frame, l: Layout, p: Seq<char>)
    requires
        f.pending is None,
        f.prompt_right is Some,
        f.prompt_right->0@ == p,
        !p.contains('\n'),
        !p.contains('\r'),
        l.cursor.row <= l.end.row,
        screen::columns(f.w, p) <= f.t_cols,
        unicode::str_columns(p) <= f.t_cols,
    ensures
        f.final_draw ==> screen::corner_ops(f, l).len() == 0,
        !f.final_draw && l.end.col + 1 < f.t_cols - unicode::str_columns(p) ==> screen::corner_ops(
            f,
            l,
        ) == seq![
            Op::SavePos,
            Op::Down((l.end.row - l.cursor.row) as u16),
            Op::Col((f.t_cols - screen::columns(f.w, p)) as u16),
            Op::Text(p),
            Op::RestorePos,
        ],
        l.end.col + 1 >= f.t_cols - unicode::str_columns(p) ==> screen::corner_ops(f, l).len() == 0,
{
    reveal(screen::corner);
    first_lines_end_at_the_break(p, Seq::empty());
}

/// The text that a mode reads is on the row below the line, behind the sign of the mode.
pub proof fn modes_read_below_the_line(f: Frame, l: Layout)
    requires
        l.cursor.row <= l.end.row < u16::MAX,
    ensures
        screen::has_sub_editor(f.mode) ==> {
            let s = screen::sub_ops(f, l);
            &&& s.len() == 5
            &&& s[0] == Op::Down((l.end.row - l.cursor.row) as u16)
            &&& s[2] == Op::Newline
            &&& s[3] == Op::Text(screen::sub_prefix(f.mode) + f.sub_text@)
            &&& screen::with_sub(f, l).end.row == l.end.row + 1
            &&& screen::with_sub(f, l).cursor.row == l.end.row + 1
        },
        !screen::has_sub_editor(f.mode) ==> screen::sub_ops(f, l).len() == 0 && screen::with_sub(
            f,
            l,
        ) == l,
{
}

/// A line on its own is drawn behind the prompt, on a screen that is cleared from there,
/// and the cursor goes back from the end of the text to its place.
pub proof fn a_plain_frame_is_the_line(f: Frame, st: ScreenState, l: Layout)
    requires
        st.old_layout is None,
        st.overlay_cursor_offset == 0,
        !f.had_statline,
        f.completer_clear is None,
        f.finder_clear is None,
        f.messages@.len() == 0,
        f.pending is None,
        f.prompt_right is None,
        !screen::has_sub_editor(f.mode),
        lines::rows_of(f.line@).len() == 1,
        layout::pos_after(f.w, f.t_cols, f.prompt@, Pos { col: 0, row: 0 }, 0, false).col > 0,
        l.end.col > 0,
    ensures
        screen::frame_ops(f, st, l) == seq![
            Op::Text(
                seq!['\u{1b}', '[', 'J'] + f.prompt@ + f.line@ + layout::movement(l.end, l.cursor),
            ),
            Op::Style(f.cursor_style@),
        ],
        screen::frame_layout(f, l) == l,
{
    reveal(screen::corner);
    reveal_strlit("\x1b[J");
    let e = Seq::<char>::empty();
    let j = seq!['\u{1b}', '[', 'J'];
    assert("\x1b[J"@ =~= j);
    assert(layout::message_rows(Seq::empty()) =~= e);
    assert(f.messages@ =~= Seq::empty());
    assert(j + e + f.prompt@ + f.line@ =~= j + f.prompt@ + f.line@);
    let s = screen::frame_ops(f, st, l);
    assert(s =~= seq![
        Op::Text(j + f.prompt@ + f.line@ + layout::movement(l.end, l.cursor)),
        Op::Style(f.cursor_style@),
    ]);
}

/// What an overlay took of the screen is given back before anything else is drawn: the
/// cursor goes up as far as it went into it.
pub proof fn overlays_are_left_first(f: Frame, st: ScreenState, l: Layout, s: String)
    requires
        !f.had_statline,
        st.overlay_cursor_offset > 0,
        f.completer_clear == Some(s),
    ensures
        screen::frame_ops(f, st, l).len() >= 3,
        screen::frame_ops(f, st, l).take(3) == seq![
            Op::Up(st.overlay_cursor_offset),
            Op::Col(1),
            Op::Text(s@),
        ],
{
    let o = screen::frame_ops(f, st, l);
    let head = screen::statline_gone(f) + screen::homed(st) + screen::overlays_gone(f);
    assert(o[0] == head[0] && o[1] == head[1] && o[2] == head[2]);
    assert(o.take(3) =~= seq![Op::Up(st.overlay_cursor_offset), Op::Col(1), Op::Text(s@)]);
}

/// The rows that are freed are those that were taken and are not any more.
pub proof fn freed_rows_are_the_difference(f: Frame, st: ScreenState, l: Layout, o: Layout, m: u16)
    requires
        st.old_layout == Some(o),
        !screen::has_sub_editor(f.mode),
    ensures
        o.end.row + st.overlay_displacement >= l.end.row + f.overlay + m ==> screen::freed_rows(
            f,
            st,
            l,
            m,
        ) == o.end.row + st.overlay_displacement - l.end.row - f.overlay - m,
        o.end.row + st.overlay_displacement < l.end.row + f.overlay + m ==> screen::freed_rows(
            f,
            st,
            l,
            m,
        ) == 0,
{
}

proof fn lemma_params_walked(w: WidthCalculator, gs: Seq<Seq<char>>, params: Seq<Seq<char>>)
    requires
        width::esc_walk(w, gs).0 == EscState::Params,
        forall|i: int| 0 <= i < params.len() ==> width::is_param(#[trigger] params[i]),
    ensures
        width::esc_walk(w, gs + params) == width::esc_walk(w, gs),
    decreases params.len(),
{
    if params.len() == 0 {
        assert(gs + params =~= gs);
    } else {
        lemma_params_walked(w, gs, params.drop_last());
        assert((gs + params).drop_last() =~= gs + params.drop_last());
        assert(width::is_param(params[params.len() - 1]));
    }
}

/// An escape sequence takes no columns, whatever its parameters are, and what comes behind
/// it takes its own again.
pub proof fn escapes_take_no_columns(
    w: WidthCalculator,
    gs: Seq<Seq<char>>,
    params: Seq<Seq<char>>,
    last: Seq<char>,
    g: Seq<char>,
)
    requires
        width::esc_walk(w, gs).0 == EscState::Outside,
        forall|i: int| 0 <= i < params.len() ==> width::is_param(#[trigger] params[i]),
        !width::is_param(last),
        g != seq!['\u{1b}'] && g != seq!['\n'],
    ensures
        ({
            let s = gs + seq![seq!['\u{1b}'], seq!['[']] + params + seq![last];
            &&& width::esc_walk(w, s) == width::esc_walk(w, gs)
            &&& width::esc_walk(w, s.push(g)).1 == width::esc_walk(w, gs).1 + width::columns(w, g)
        }),
        width::esc_walk(w, gs.push(g)).1 == width::esc_walk(w, gs).1 + width::columns(w, g),
{
    let n = width::esc_walk(w, gs).1;
    let a = gs.push(seq!['\u{1b}']);
    assert(a.drop_last() =~= gs);
    assert(a.last() =~= seq!['\x1b']);
    assert(width::esc_walk(w, a) == (EscState::Escape, n));
    let b = a.push(seq!['[']);
    assert(b.drop_last() =~= a);
    assert(b.last() =~= seq!['[']);
    assert(width::esc_walk(w, b) == (EscState::Params, n));
    let s = gs + seq![seq!['\u{1b}'], seq!['[']] + params + seq![last];
    assert(b =~= gs + seq![seq!['\u{1b}'], seq!['[']]);
    lemma_params_walked(w, b, params);
    assert(s.drop_last() =~= b + params);
    assert(s.last() == last);
    assert(width::esc_walk(w, s) == (EscState::Outside, n));
    assert(s.push(g).drop_last() =~= s);
    assert(gs.push(g).drop_last() =~= gs);
}

/// With numbers each row behind the first has its own before it, on a line of its own, right
/// aligned in the columns of the widest.
pub proof fn rows_have_their_numbers(rows: Seq<Seq<char>>, n: int, left_pad: nat, offset: nat, wide: nat)
    requires
        2 <= n <= rows.len(),
        wide == text::decimal(offset + rows.len()).len(),
        text::decimal((offset + n) as nat).len() <= wide,
        left_pad >= wide + 3,
    ensures
        layout::numbered(rows, n, left_pad, true, offset) == layout::numbered(
            rows,
            n - 1,
            left_pad,
            true,
            offset,
        ) + seq!['\n'] + "\x1b[0m\x1b[90m"@ + text::repeated(
            ' ',
            (wide - text::decimal((offset + n) as nat).len()) as nat,
        ) + text::decimal((offset + n) as nat) + " |\x1b[0m "@ + text::repeated(
            ' ',
            (left_pad - wide - 3) as nat,
        ) + rows[n - 1],
        layout::numbered(rows, 1, left_pad, true, offset) == rows[0],
{
    let init = layout::numbered(rows, n - 1, left_pad, true, offset);
    let d = text::decimal((offset + n) as nat);
    let p = text::repeated(' ', (wide - d.len()) as nat);
    let q = text::repeated(' ', (left_pad - wide - 3) as nat);
    let e = "\x1b[0m\x1b[90m"@;
    let f = " |\x1b[0m "@;
    assert(layout::numbered(rows, n, left_pad, true, offset) == init.push('\n') + (e + p + d + f + q)
        + rows[n - 1]);
    assert(init.push('\n') + (e + p + d + f + q) + rows[n - 1] =~= init + seq!['\n'] + e + p + d + f
        + q + rows[n - 1]);
    assert(layout::numbered(rows, 0, left_pad, true, offset) =~= Seq::empty());
    assert(Seq::<char>::empty() + rows[0] =~= rows[0]);
    assert(layout::numbered(rows, 1, left_pad, true, offset) =~= rows[0]);
}

/// Rows that are cleared are as many as a text of some columns takes: no fewer, and no more
/// than it needs.
pub proof fn quotients_are_rounded_up(a: int, b: int)
    requires
        a >= 0,
        b > 0,
    ensures
        boxed::ceiling(a, b) * b >= a,
        a > 0 ==> (boxed::ceiling(a, b) - 1) * b < a,
{
    let q = a / b;
    assert(a == q * b + a % b && 0 <= a % b < b) by (nonlinear_arith)
        requires
            b > 0,
            q == a / b,
    ;
    assert((q + 1) * b == q * b + b) by (nonlinear_arith);
    assert((q - 1) * b == q * b - b) by (nonlinear_arith);
}

} // verus!
