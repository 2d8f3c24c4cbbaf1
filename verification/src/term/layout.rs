//! Where a text ends up on the screen, and what to send to put it there.

use crate::linebuf::lines;
use crate::linebuf::lines::split_rows;
use crate::term::width;
use crate::term::width::grapheme_width;
use crate::term::width::EscState;
use crate::term::width::WidthCalculator;
use crate::text;
use crate::text::chars_of;
use crate::text::decimal_string;
use crate::text::owned;
use crate::text::push_repeated;
use crate::unicode;
use crate::unicode::graphemes_of;
use vstd::prelude::*;

verus! {

/// A place on the screen.
#[derive(Debug, Clone, Copy, PartialEq, Eq, Structural)]
pub struct Pos {
    pub col: u16,
    pub row: u16,
}

/// The columns between tab stops.
pub const TAB_STOP: u16 = 8;

/// A sum as far as a terminal counts.
pub open spec fn sum16(a: u16, n: int) -> u16 {
    if a + n <= u16::MAX {
        (a + n) as u16
    } else {
        u16::MAX
    }
}

/// Whether a grapheme begins with a control character that is shown as two
/// characters.
pub open spec fn is_ctl(g: Seq<char>) -> bool {
    g.len() > 0 && (g[0] as u32) <= 0x1f && g != seq!['\n'] && g != seq!['\t'] && g != seq!['\r']
}

/// The columns that a grapheme takes at a column, and the state behind it.
pub open spec fn step_width(
    w: WidthCalculator,
    col: u16,
    st: EscState,
    g: Seq<char>,
    raw: bool,
) -> (EscState, u16) {
    if g == seq!['\t'] {
        (st, (TAB_STOP - col % TAB_STOP) as u16)
    } else if raw && is_ctl(g) {
        (st, 2)
    } else {
        let (s, n) = width::esc_step(w, st, g);
        (s, sum16(0, n as int))
    }
}

/// The place after a grapheme. A linefeed goes to the next row, at the margin;
/// what does not fit goes to the start of the next row.
pub open spec fn step_pos(
    w: WidthCalculator,
    p: Pos,
    st: EscState,
    g: Seq<char>,
    term_width: u16,
    margin: u16,
    raw: bool,
) -> (Pos, EscState) {
    let p1 = if g == seq!['\n'] {
        Pos { row: sum16(p.row, 1), col: margin }
    } else {
        p
    };
    let (s, n) = step_width(w, p1.col, st, g, raw);
    let col = sum16(p1.col, n as int);
    if col > term_width {
        (Pos { row: sum16(p1.row, 1), col: n }, s)
    } else {
        (Pos { row: p1.row, col }, s)
    }
}

/// The place after some graphemes.
pub open spec fn walk_pos(
    w: WidthCalculator,
    gs: Seq<Seq<char>>,
    orig: Pos,
    term_width: u16,
    margin: u16,
    raw: bool,
) -> (Pos, EscState)
    decreases gs.len(),
{
    if gs.len() == 0 {
        (orig, EscState::Outside)
    } else {
        let (p, st) = walk_pos(w, gs.drop_last(), orig, term_width, margin, raw);
        step_pos(w, p, st, gs.last(), term_width, margin, raw)
    }
}

/// The place after a text. At the right edge the next place is in the next row.
pub open spec fn pos_after(
    w: WidthCalculator,
    term_width: u16,
    s: Seq<char>,
    orig: Pos,
    margin: u16,
    raw: bool,
) -> Pos {
    let p = walk_pos(w, unicode::clusters(s), orig, term_width, margin, raw).0;
    if p.col >= term_width {
        Pos { row: sum16(p.row, 1), col: 0 }
    } else {
        p
    }
}

/// Within a terminal of some width every place has a column below it.
pub proof fn places_are_on_screen(
    w: WidthCalculator,
    term_width: u16,
    s: Seq<char>,
    orig: Pos,
    margin: u16,
    raw: bool,
)
    requires
        term_width > 0,
    ensures
        pos_after(w, term_width, s, orig, margin, raw).col < term_width,
{
}

/// Where the parts of a command line are on the screen.
#[derive(Debug, Clone, Copy, PartialEq, Eq, Structural)]
pub struct Layout {
    pub prompt_end: Pos,
    pub cursor: Pos,
    pub end: Pos,
    pub psr_end: Option<Pos>,
    pub t_cols: u16,
}

impl Layout {
    pub fn new() -> (r: Self)
        ensures
            r == ({
                let o = Pos { col: 0, row: 0 };
                Layout { prompt_end: o, cursor: o, end: o, psr_end: None, t_cols: 0 }
            }),
    {
        let o = Pos { col: 0, row: 0 };
        Layout { prompt_end: o, cursor: o, end: o, psr_end: None, t_cols: 0 }
    }

    /// Lays out a prompt and the text behind it, up to the cursor and up to
    /// the end.
    pub fn from_parts(
        w: WidthCalculator,
        term_width: u16,
        prompt: &str,
        to_cursor: &str,
        to_end: &str,
    ) -> (r: Self)
        ensures
            r.prompt_end == pos_after(w, term_width, prompt@, Pos { col: 0, row: 0 }, 0, false),
            r.cursor == pos_after(
                w,
                term_width,
                to_cursor@,
                r.prompt_end,
                r.prompt_end.col,
                true,
            ),
            r.end == pos_after(w, term_width, to_end@, r.prompt_end, r.prompt_end.col, false),
            r.psr_end is None,
            r.t_cols == term_width,
    {
        let prompt_end = Layout::calc_pos(
            w,
            term_width,
            prompt,
            Pos { col: 0, row: 0 },
            0,
            false,
        );
        let cursor = Layout::calc_pos(
            w,
            term_width,
            to_cursor,
            prompt_end,
            prompt_end.col,
            true,
        );
        let end = Layout::calc_pos(w, term_width, to_end, prompt_end, prompt_end.col, false);
        Layout { prompt_end, cursor, end, psr_end: None, t_cols: term_width }
    }

    fn is_ctl_char(g: &str) -> (r: bool)
        ensures
            r == is_ctl(g@),
    {
        let v = chars_of(g);
        if v.len() == 0 || v[0] as u32 > 0x1f {
            return false;
        }
        if v.len() == 1 && (v[0] == '\n' || v[0] == '\t' || v[0] == '\r') {
            assert(v@ =~= seq![v@[0]]);
            return false;
        }
        true
    }

    /// The place after a text.
    pub fn calc_pos(
        w: WidthCalculator,
        term_width: u16,
        s: &str,
        orig: Pos,
        left_margin: u16,
        raw_calc: bool,
    ) -> (r: Pos)
        ensures
            r == pos_after(w, term_width, s@, orig, left_margin, raw_calc),
    {
        let gs = graphemes_of(s);
        let ghost cl = unicode::clusters(s@);
        let mut p: Pos = orig;
        let mut st = EscState::Outside;
        let mut i: usize = 0;
        assert(cl.take(0) =~= Seq::<Seq<char>>::empty());
        while i < gs.len()
            invariant
                i <= gs@.len(),
                gs@.len() == cl.len(),
                forall|k: int| 0 <= k < cl.len() ==> (#[trigger] gs@[k])@ == cl[k],
                (p, st) == walk_pos(
                    w,
                    cl.take(i as int),
                    orig,
                    term_width,
                    left_margin,
                    raw_calc,
                ),
            decreases gs@.len() - i,
        {
            assert(cl.take(i + 1).drop_last() =~= cl.take(i as int));
            assert(cl.take(i + 1).last() == cl[i as int]);
            let g = gs[i].as_str();
            let v = chars_of(g);
            let one: bool = v.len() == 1;
            proof {
                if one {
                    assert(v@ =~= seq![v@[0]]);
                }
            }
            if one && v[0] == '\n' {
                p = Pos { row: p.row.saturating_add(1), col: left_margin };
            }
            let n: u16 = if one && v[0] == '\t' {
                TAB_STOP - p.col % TAB_STOP
            } else if raw_calc && Layout::is_ctl_char(g) {
                2
            } else {
                let k: usize = grapheme_width(w, &mut st, g);
                if k <= u16::MAX as usize {
                    k as u16
                } else {
                    u16::MAX
                }
            };
            let col: u16 = p.col.saturating_add(n);
            p = if col > term_width {
                Pos { row: p.row.saturating_add(1), col: n }
            } else {
                Pos { row: p.row, col }
            };
            i = i + 1;
        }
        assert(cl.take(i as int) =~= cl);
        if p.col >= term_width {
            Pos { row: p.row.saturating_add(1), col: 0 }
        } else {
            p
        }
    }
}

/// The escape sequence that moves the cursor by some places, named by a
/// letter.
pub open spec fn move_by(n: nat, letter: char) -> Seq<char> {
    if n == 0 {
        Seq::empty()
    } else if n == 1 {
        "\x1b["@.push(letter)
    } else {
        ("\x1b["@ + text::decimal(n)).push(letter)
    }
}

/// What moves the cursor from one place to another: first the rows, then the
/// columns.
pub open spec fn movement(old: Pos, new: Pos) -> Seq<char> {
    (if new.row >= old.row {
        move_by((new.row - old.row) as nat, 'B')
    } else {
        move_by((old.row - new.row) as nat, 'A')
    }) + (if new.col >= old.col {
        move_by((new.col - old.col) as nat, 'C')
    } else {
        move_by((old.col - new.col) as nat, 'D')
    })
}

/// Staying in place takes nothing.
pub proof fn staying_sends_nothing(p: Pos)
    ensures
        movement(p, p) == Seq::<char>::empty(),
{
    assert(movement(p, p) =~= Seq::<char>::empty());
}

/// Writes the escape sequence that moves the cursor.
pub fn push_move(out: &mut String, n: usize, letter: char)
    ensures
        final(out)@ == old(out)@ + move_by(n as nat, letter),
{
    let ghost was = out@;
    if n == 0 {
        assert(was + move_by(0, letter) =~= was);
        return;
    }
    out.push_str("\x1b[");
    if n > 1 {
        let d = decimal_string(n);
        out.push_str(d.as_str());
    }
    out.push(letter);
    assert(out@ =~= was + move_by(n as nat, letter));
}

/// What moves the cursor from one place to another.
pub fn get_cursor_movement(old: Pos, new: Pos) -> (r: String)
    ensures
        r@ == movement(old, new),
{
    let mut out: String = String::new();
    if new.row >= old.row {
        push_move(&mut out, (new.row - old.row) as usize, 'B');
    } else {
        push_move(&mut out, (old.row - new.row) as usize, 'A');
    }
    let ghost first = out@;
    if new.col >= old.col {
        push_move(&mut out, (new.col - old.col) as usize, 'C');
    } else {
        push_move(&mut out, (old.col - new.col) as usize, 'D');
    }
    assert(out@ =~= movement(old, new));
    out
}

/// The text between the margin and a line: its number, or room for it.
pub open spec fn line_prefix(num: nat, width: nat, left_pad: nat, show: bool) -> Seq<char> {
    let n = text::decimal(num);
    let head = if show {
        "\x1b[0m\x1b[90m"@ + text::repeated(
            ' ',
            if width >= n.len() {
                (width - n.len()) as nat
            } else {
                0
            },
        ) + n + " |\x1b[0m "@
    } else {
        text::repeated(' ', width + 4)
    };
    head + text::repeated(
        ' ',
        if left_pad >= width + 3 {
            (left_pad - width - 3) as nat
        } else {
            0
        },
    )
}

/// The first `n` lines with their numbers. The first has none where the prompt
/// is before it.
pub open spec fn numbered(
    rows: Seq<Seq<char>>,
    n: int,
    left_pad: nat,
    show: bool,
    offset: nat,
) -> Seq<char>
    decreases n,
{
    if n <= 0 {
        Seq::empty()
    } else {
        let width = text::decimal(offset + rows.len()).len();
        let init = numbered(rows, n - 1, left_pad, show, offset);
        let sep = if n > 1 {
            init.push('\n')
        } else {
            init
        };
        if n == 1 && left_pad > 0 {
            sep + rows[0]
        } else {
            sep + line_prefix((offset + n) as nat, width, left_pad, show) + rows[n - 1]
        }
    }
}

fn push_line_prefix(out: &mut String, num: usize, width: usize, left_pad: usize, show: bool)
    requires
        width <= usize::MAX - 4,
    ensures
        final(out)@ == old(out)@ + line_prefix(
            num as nat,
            width as nat,
            left_pad as nat,
            show,
        ),
{
    let ghost was = out@;
    if show {
        out.push_str("\x1b[0m\x1b[90m");
        let d = decimal_string(num);
        let dv = chars_of(d.as_str());
        push_repeated(out, ' ', width.saturating_sub(dv.len()));
        out.push_str(d.as_str());
        out.push_str(" |\x1b[0m ");
    } else {
        push_repeated(out, ' ', width + 4);
    }
    push_repeated(out, ' ', left_pad.saturating_sub(width + 3));
    assert(out@ =~= was + line_prefix(num as nat, width as nat, left_pad as nat, show));
}

proof fn lemma_decimal_len(n: nat)
    ensures
        text::decimal(n).len() <= n + 1,
    decreases n,
{
    if n >= 10 {
        lemma_decimal_len(n / 10);
    }
}

/// Puts numbers before the lines of a text.
pub fn enumerate_lines(
    s: &str,
    left_pad: usize,
    show_numbers: bool,
    offset: usize,
    _total_buf_lines: usize,
) -> (r: String)
    requires
        offset + lines::rows_of(s@).len() <= usize::MAX - 8,
    ensures
        r@ == numbered(
            lines::rows_of(s@),
            lines::rows_of(s@).len() as int,
            left_pad as nat,
            show_numbers,
            offset as nat,
        ),
{
    let rows = split_rows(s);
    let ghost rg = lines::rows_of(s@);
    let total = decimal_string(offset + rows.len());
    let tv = chars_of(total.as_str());
    let width: usize = tv.len();
    proof {
        lemma_decimal_len((offset + rows@.len()) as nat);
    }
    let mut out: String = String::new();
    let mut i: usize = 0;
    assert(out@ =~= Seq::empty());
    while i < rows.len()
        invariant
            i <= rows@.len(),
            rows@.len() == rg.len(),
            offset + rg.len() <= usize::MAX - 8,
            width <= usize::MAX - 4,
            width == text::decimal((offset + rg.len()) as nat).len(),
            forall|k: int| 0 <= k < rows@.len() ==> (#[trigger] rows@[k])@ == rg[k],
            out@ == numbered(rg, i as int, left_pad as nat, show_numbers, offset as nat),
        decreases rows@.len() - i,
    {
        if i > 0 {
            out.push('\n');
        }
        if i == 0 && left_pad > 0 {
            out.push_str(rows[i].as_str());
        } else {
            push_line_prefix(&mut out, i + offset + 1, width, left_pad, show_numbers);
            out.push_str(rows[i].as_str());
        }
        i = i + 1;
    }
    out
}

/// Where the parameters of an escape sequence begin that end at a place.
pub open spec fn params_start(s: Seq<char>, j: int) -> int
    decreases j,
{
    if j <= 0 || j > s.len() || !(unicode::ascii_digit(s[j - 1]) || s[j - 1] == ';') {
        j
    } else {
        params_start(s, j - 1)
    }
}

/// A text without the escape sequences at its end.
pub open spec fn without_escapes(s: Seq<char>) -> Seq<char>
    decreases s.len(),
{
    if s.len() > 0 && unicode::ascii_alpha(s.last()) {
        let j = params_start(s, s.len() - 1);
        if 2 <= j <= s.len() - 1 && s[j - 1] == '[' && s[j - 2] == '\x1b' {
            without_escapes(s.take(j - 2))
        } else {
            s
        }
    } else {
        s
    }
}

/// Whether a text ends with a linefeed, escape sequences behind it aside.
pub open spec fn ends_in_newline(s: Seq<char>) -> bool {
    let t = without_escapes(s);
    t.len() > 0 && t.last() == '\n'
}

/// Whether a text ends with a linefeed, escape sequences behind it aside.
pub fn ends_with_newline(s: &str) -> (r: bool)
    ensures
        r == ends_in_newline(s@),
{
    let v = chars_of(s);
    let mut i: usize = v.len();
    assert(v@.take(i as int) =~= v@);
    while i > 0
        invariant
            i <= v@.len(),
            without_escapes(v@) == without_escapes(v@.take(i as int)),
        ensures
            i <= v@.len(),
            without_escapes(v@) == v@.take(i as int),
        decreases i,
    {
        let ghost t = v@.take(i as int);
        assert(t.last() == v@[i - 1]);
        if !unicode::is_ascii_alpha(v[i - 1]) {
            break;
        }
        let mut j: usize = i - 1;
        while j > 0 && (unicode::is_ascii_digit(v[j - 1]) || v[j - 1] == ';')
            invariant
                j <= i - 1,
                0 < i <= v@.len(),
                t == v@.take(i as int),
                params_start(t, i - 1) == params_start(t, j as int),
            decreases j,
        {
            j = j - 1;
        }
        if j >= 2 && v[j - 1] == '[' && v[j - 2] == '\x1b' {
            assert(t.take(j - 2) =~= v@.take(j - 2));
            i = j - 2;
        } else {
            break;
        }
    }
    i > 0 && v[i - 1] == '\n'
}

/// A decimal number with one more digit, as far as it goes.
pub fn append_digit(left: u32, right: u32) -> (r: u32)
    ensures
        r == ({
            let t = if left * 10 <= u32::MAX {
                left * 10
            } else {
                u32::MAX as int
            };
            if t + right <= u32::MAX {
                t + right
            } else {
                u32::MAX as int
            }
        }),
{
    let tens: u32 = match left.checked_mul(10) {
        Some(t) => t,
        None => u32::MAX,
    };
    tens.saturating_add(right)
}

/// The rows that a layout takes after the terminal became narrower.
pub open spec fn rows_taken(l: Layout, t_cols: u16) -> u16 {
    if l.psr_end is Some && l.t_cols > t_cols && t_cols > 0 {
        sum16(l.end.row, (l.t_cols - 1) / (t_cols as int))
    } else {
        l.end.row
    }
}

fn count_rows(l: &Layout, t_cols: u16) -> (r: u16)
    ensures
        r == rows_taken(*l, t_cols),
{
    if l.psr_end.is_some() && l.t_cols > t_cols && t_cols > 0 {
        l.end.row.saturating_add(l.t_cols.saturating_sub(1) / t_cols)
    } else {
        l.end.row
    }
}

/// What goes down from the cursor to the last row of a layout.
pub open spec fn down_to_end(l: Layout, t_cols: u16) -> Seq<char> {
    let rows = rows_taken(l, t_cols);
    if rows > l.cursor.row {
        ("\x1b["@ + text::decimal((rows - l.cursor.row) as nat)).push('B')
    } else {
        Seq::empty()
    }
}

/// Some text, several times.
pub open spec fn times(s: Seq<char>, n: nat) -> Seq<char>
    decreases n,
{
    if n == 0 {
        Seq::empty()
    } else {
        times(s, (n - 1) as nat) + s
    }
}

/// Writes some text several times.
pub fn push_times(out: &mut String, s: &str, n: usize)
    ensures
        final(out)@ == old(out)@ + times(s@, n as nat),
{
    let ghost was = out@;
    let mut i: usize = 0;
    assert(was + times(s@, 0) =~= was);
    while i < n
        invariant
            i <= n,
            out@ == was + times(s@, i as nat),
        decreases n - i,
    {
        out.push_str(s);
        i = i + 1;
        assert(out@ =~= was + times(s@, i as nat));
    }
}

/// What goes down from the cursor to the last row.
pub fn move_cursor_to_end(l: &Layout, t_cols: u16) -> (r: String)
    ensures
        r@ == down_to_end(*l, t_cols),
{
    let mut out: String = String::new();
    let rows = count_rows(l, t_cols);
    if rows > l.cursor.row {
        out.push_str("\x1b[");
        let d = decimal_string((rows - l.cursor.row) as usize);
        out.push_str(d.as_str());
        out.push('B');
        assert(out@ =~= down_to_end(*l, t_cols));
    } else {
        assert(out@ =~= Seq::empty());
    }
    out
}

/// What erases the rows of a layout, from the last up to the first.
pub fn clear_rows(l: &Layout, t_cols: u16) -> (r: String)
    ensures
        r@ == down_to_end(*l, t_cols) + times(
            "\x1b[2K\x1b[A"@,
            rows_taken(*l, t_cols) as nat,
        ) + "\x1b[2K\r"@,
{
    let mut out = move_cursor_to_end(l, t_cols);
    let rows = count_rows(l, t_cols);
    push_times(&mut out, "\x1b[2K\x1b[A", rows as usize);
    out.push_str("\x1b[2K\r");
    out
}

/// What erases the screen.
pub fn clear_screen() -> (r: String)
    ensures
        r@ == "\x1b[2J\x1b[H"@,
{
    owned("\x1b[2J\x1b[H")
}

/// Messages, each on a line of its own.
pub open spec fn message_rows(m: Seq<String>) -> Seq<char>
    decreases m.len(),
{
    if m.len() == 0 {
        Seq::empty()
    } else {
        (message_rows(m.drop_last()) + m.last()@).push('\n')
    }
}

/// What is sent before the cursor goes to its place: messages, the prompt and
/// the text, with numbers where the text has several lines or begins at the
/// margin.
pub open spec fn drawn(
    w: WidthCalculator,
    t_cols: u16,
    messages: Seq<String>,
    prompt: Seq<char>,
    body: Seq<char>,
    show: bool,
    offset: usize,
) -> Seq<char> {
    let pe = pos_after(w, t_cols, prompt, Pos { col: 0, row: 0 }, 0, false);
    let rows = lines::rows_of(body);
    "\x1b[J"@ + message_rows(messages) + prompt + (if rows.len() > 1 || pe.col == 0 {
        numbered(rows, rows.len() as int, pe.col as nat, show, offset as nat)
    } else {
        body
    })
}

/// What is sent to draw a command line. A line break is sent where the text
/// ends at the right edge.
pub open spec fn redrawn(
    w: WidthCalculator,
    t_cols: u16,
    messages: Seq<String>,
    prompt: Seq<char>,
    body: Seq<char>,
    show: bool,
    offset: usize,
    l: Layout,
) -> Seq<char> {
    let pe = pos_after(w, t_cols, prompt, Pos { col: 0, row: 0 }, 0, false);
    let d = drawn(w, t_cols, messages, prompt, body, show, offset);
    (if l.end.col == 0 && l.end.row > pe.row && !ends_in_newline(d) {
        d.push('\n')
    } else {
        d
    }) + movement(l.end, l.cursor)
}

/// What is sent to draw a command line.
pub fn redraw(
    w: WidthCalculator,
    t_cols: u16,
    messages: &Vec<String>,
    prompt: &str,
    body: &str,
    l: &Layout,
    offset: usize,
    total_buf_lines: usize,
    show_numbers: bool,
) -> (r: String)
    requires
        offset + lines::rows_of(body@).len() <= usize::MAX - 8,
    ensures
        r@ == redrawn(w, t_cols, messages@, prompt@, body@, show_numbers, offset, *l),
{
    let mut out: String = String::new();
    out.push_str("\x1b[J");
    let mut i: usize = 0;
    let ghost head = out@;
    assert(messages@.take(0) =~= Seq::<String>::empty());
    assert(head + message_rows(messages@.take(0)) =~= head);
    while i < messages.len()
        invariant
            i <= messages@.len(),
            out@ == head + message_rows(messages@.take(i as int)),
        decreases messages@.len() - i,
    {
        out.push_str(messages[i].as_str());
        out.push('\n');
        i = i + 1;
        assert(messages@.take(i as int).drop_last() =~= messages@.take(i - 1));
        assert(out@ =~= head + message_rows(messages@.take(i as int)));
    }
    assert(messages@.take(i as int) =~= messages@);
    out.push_str(prompt);
    let pe = Layout::calc_pos(w, t_cols, prompt, Pos { col: 0, row: 0 }, 0, false);
    let rows = split_rows(body);
    if rows.len() > 1 || pe.col == 0 {
        let t = enumerate_lines(body, pe.col as usize, show_numbers, offset, total_buf_lines);
        out.push_str(t.as_str());
    } else {
        out.push_str(body);
    }
    assert(head =~= "\x1b[J"@);
    let ghost d = drawn(w, t_cols, messages@, prompt@, body@, show_numbers, offset);
    assert(out@ =~= d);
    if l.end.col == 0 && l.end.row > pe.row && !ends_with_newline(out.as_str()) {
        out.push('\n');
    }
    let m = get_cursor_movement(l.end, l.cursor);
    out.push_str(m.as_str());
    out
}

/// Whether to ring the bell: where it is enabled, and the last ring is longer
/// ago than the cooldown.
pub fn should_ring(enabled: bool, since_last: Option<u64>, cooldown: u64) -> (r: bool)
    ensures
        r == (enabled && (since_last is None || since_last->0 > cooldown)),
{
    enabled && match since_last {
        None => true,
        Some(t) => t > cooldown,
    }
}

/// The shortest rest of the bell, in milliseconds.
pub const BELL_REST_MIN: u64 = 50;

/// What every rest of the bell stays below, in milliseconds.
pub const BELL_REST_MAX: u64 = 150;

/// `rand::random_range` picks a number in a range, the upper end outside. Which one it
/// is depends on chance.
#[verifier::external_body]
fn random_in(low: u64, high: u64) -> (r: u64)
    requires
        low < high,
    ensures
        low <= r < high,
{
    rand::random_range(low..high)
}

/// What is sent to ring the bell, where that is due: it rests for a while after each
/// ring, and for how long depends on chance.
pub fn send_bell(enabled: bool, since_last: Option<u64>) -> (r: Option<&'static str>)
    ensures
        r is Some ==> r->0@ == "\x07"@,
        !enabled ==> r is None,
        enabled && since_last is None ==> r is Some,
        enabled && since_last is Some && since_last->0 >= BELL_REST_MAX ==> r is Some,
        since_last is Some && since_last->0 <= BELL_REST_MIN ==> r is None,
{
    let cooldown: u64 = random_in(BELL_REST_MIN, BELL_REST_MAX);
    if should_ring(enabled, since_last, cooldown) {
        Some("\x07")
    } else {
        None
    }
}

/// The size of a terminal that reports none counts as eighty columns and as
/// many rows as there can be.
pub fn win_size_or_default(reported: Option<(u16, u16)>) -> (r: (u16, u16))
    ensures
        r == (match reported {
            None => (80u16, 24u16),
            Some(s) => (
                if s.0 == 0 {
                    80u16
                } else {
                    s.0
                },
                if s.1 == 0 {
                    u16::MAX
                } else {
                    s.1
                },
            ),
        }),
{
    match reported {
        None => (80, 24),
        Some(s) => (
            if s.0 == 0 {
                80
            } else {
                s.0
            },
            if s.1 == 0 {
                u16::MAX
            } else {
                s.1
            },
        ),
    }
}

} // verus!
