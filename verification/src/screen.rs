//! What is sent to the terminal to show the command line and what is around it.

use crate::editmode::ModeReport;
use crate::linebuf::lines;
use crate::term::layout;
use crate::term::layout::clear_rows;
use crate::term::layout::redraw;
use crate::term::layout::Layout;
use crate::term::layout::Pos;
use crate::term::width;
use crate::term::width::calc_str_width;
use crate::term::width::WidthCalculator;
use crate::text;
use crate::text::chars_of;
use crate::text::owned;
use crate::text::string_of;
use crate::text::sub_chars;
use crate::unicode;
use crate::unicode::graphemes_of;
use crate::unicode::width_of_str;
use vstd::prelude::*;

verus! {

/// Something that the terminal is told.
#[derive(Debug)]
pub enum Ctl {
    SavePos,
    RestorePos,
    Up(u16),
    Down(u16),
    /// To a column, counted from one.
    Col(u16),
    /// To a row and a column, counted from one.
    At(u16, u16),
    ClearLine,
    ClearBelow,
    ResetRegion,
    Newline,
    Return,
    /// How the cursor looks.
    Style(String),
    /// The cursor as a blinking beam.
    Beam,
    Text(String),
    StatusLine(String),
    StatusMessage(String),
}

/// Something that the terminal is told, with its text in characters.
pub enum Op {
    SavePos,
    RestorePos,
    Up(u16),
    Down(u16),
    Col(u16),
    At(u16, u16),
    ClearLine,
    ClearBelow,
    ResetRegion,
    Newline,
    Return,
    Style(Seq<char>),
    Beam,
    Text(Seq<char>),
    StatusLine(Seq<char>),
    StatusMessage(Seq<char>),
}

impl Ctl {
    pub open spec fn op(self) -> Op {
        match self {
            Ctl::SavePos => Op::SavePos,
            Ctl::RestorePos => Op::RestorePos,
            Ctl::Up(n) => Op::Up(n),
            Ctl::Down(n) => Op::Down(n),
            Ctl::Col(n) => Op::Col(n),
            Ctl::At(r, c) => Op::At(r, c),
            Ctl::ClearLine => Op::ClearLine,
            Ctl::ClearBelow => Op::ClearBelow,
            Ctl::ResetRegion => Op::ResetRegion,
            Ctl::Newline => Op::Newline,
            Ctl::Return => Op::Return,
            Ctl::Style(s) => Op::Style(s@),
            Ctl::Beam => Op::Beam,
            Ctl::Text(s) => Op::Text(s@),
            Ctl::StatusLine(s) => Op::StatusLine(s@),
            Ctl::StatusMessage(s) => Op::StatusMessage(s@),
        }
    }
}

/// What the terminal is told, in order.
#[derive(Debug)]
pub struct Screen {
    pub ops: Vec<Ctl>,
}

impl View for Screen {
    type V = Seq<Op>;

    open spec fn view(&self) -> Seq<Op> {
        Seq::new(self.ops@.len(), |i: int| self.ops@[i].op())
    }
}

impl Screen {
    pub fn new() -> (r: Self)
        ensures
            r@ == Seq::<Op>::empty(),
    {
        let r = Screen { ops: Vec::new() };
        assert(r@ =~= Seq::<Op>::empty());
        r
    }

    pub fn put(&mut self, c: Ctl)
        ensures
            final(self)@ == old(self)@.push(c.op()),
    {
        self.ops.push(c);
        assert(self@ =~= old(self)@.push(c.op()));
    }

    pub fn put_text(&mut self, s: &str)
        ensures
            final(self)@ == old(self)@.push(Op::Text(s@)),
    {
        self.put(Ctl::Text(owned(s)));
    }
}

/// The first line of a text, without its end.
pub open spec fn first_line(s: Seq<char>) -> Seq<char> {
    let n = line_end(s, 0);
    if n < s.len() && n > 0 && s[n - 1] == '\r' {
        s.take(n - 1)
    } else {
        s.take(n)
    }
}

/// Where a line ends, from `i` on.
pub open spec fn line_end(s: Seq<char>, i: int) -> int
    decreases s.len() - i,
{
    if i < 0 || i >= s.len() || s[i] == '\n' {
        i
    } else {
        line_end(s, i + 1)
    }
}

/// The first line of a text.
pub fn take_first_line(s: &str) -> (r: String)
    ensures
        r@ == first_line(s@),
{
    let v = chars_of(s);
    let mut i: usize = 0;
    while i < v.len() && v[i] != '\n'
        invariant
            i <= v@.len(),
            v@ == s@,
            line_end(s@, 0) == line_end(s@, i as int),
        decreases v@.len() - i,
    {
        i = i + 1;
    }
    let n: usize = if i < v.len() && i > 0 && v[i - 1] == '\r' {
        i - 1
    } else {
        i
    };
    let t = sub_chars(v.as_slice(), 0, n);
    assert(t@ =~= s@.take(n as int));
    string_of(t.as_slice())
}

/// A text of more than one line is cut to the first; one of a single line stays
/// as it is, with its end.
pub open spec fn cut_to_line(s: Seq<char>) -> Seq<char> {
    if line_end(s, 0) + 1 < s.len() {
        first_line(s)
    } else {
        s
    }
}

/// A text of more than one line is cut to the first.
pub fn take_one_line(s: &str) -> (r: String)
    ensures
        r@ == cut_to_line(s@),
{
    let v = chars_of(s);
    let mut i: usize = 0;
    while i < v.len() && v[i] != '\n'
        invariant
            i <= v@.len(),
            v@ == s@,
            line_end(s@, 0) == line_end(s@, i as int),
        decreases v@.len() - i,
    {
        i = i + 1;
    }
    if i < v.len() && i + 1 < v.len() {
        take_first_line(s)
    } else {
        owned(s)
    }
}

/// How many rows of the buffer are shown at most: what the prompt, the rows that
/// are reserved and an overlay leave, but at least one.
pub open spec fn rows_for_text(t_rows: usize, prompt_rows: int, reserved: int, overlay: int) -> int {
    let left = t_rows - (prompt_rows + reserved + overlay);
    if left < 1 {
        1
    } else {
        left
    }
}

/// How many rows of the buffer are shown at most.
pub fn viewport_cap(t_rows: usize, prompt_rows: u16, reserved: usize, overlay: u16) -> (r: usize)
    ensures
        r == rows_for_text(t_rows, prompt_rows as int, reserved as int, overlay as int),
{
    let left = t_rows.saturating_sub(prompt_rows as usize).saturating_sub(reserved).saturating_sub(
        overlay as usize,
    );
    if left < 1 {
        1
    } else {
        left
    }
}

/// Where there is room for it, a full view leaves the prompt, the reserved rows
/// and the overlay on the screen.
pub proof fn prompt_stays_on_screen(t_rows: usize, prompt_rows: nat, reserved: nat, overlay: nat)
    requires
        prompt_rows + reserved + overlay < t_rows,
    ensures
        prompt_rows + reserved + overlay + rows_for_text(
            t_rows,
            prompt_rows as int,
            reserved as int,
            overlay as int,
        ) == t_rows,
{
}

/// The rows that overlays are going to take, as far as a terminal counts.
pub fn overlay_rows(completer: Option<usize>, finder: Option<usize>) -> (r: u16)
    ensures
        r == ({
            let c = match completer {
                Some(n) => n as int,
                None => 0,
            };
            let f = match finder {
                Some(n) => n as int,
                None => 0,
            };
            if c + f <= u16::MAX {
                c + f
            } else {
                u16::MAX as int
            }
        }),
{
    let c: usize = match completer {
        Some(n) => n,
        None => 0,
    };
    let f: usize = match finder {
        Some(n) => n,
        None => 0,
    };
    let n: usize = c.saturating_add(f);
    if n <= u16::MAX as usize {
        n as u16
    } else {
        u16::MAX
    }
}

/// What is to be shown.
pub struct Frame {
    pub w: WidthCalculator,
    pub t_rows: u16,
    pub t_cols: u16,
    /// Whether the line is shown for the last time before it is run.
    pub final_draw: bool,
    /// Whether there was a status line, and whether there is to be one.
    pub had_statline: bool,
    pub statline: bool,
    pub prompt: String,
    /// What stands at the right edge.
    pub prompt_right: Option<String>,
    /// The rows of the buffer that are shown, and what of them is before the cursor.
    pub line: String,
    pub to_cursor: String,
    pub scroll_offset: usize,
    pub total_lines: usize,
    pub line_numbers: bool,
    pub mode: ModeReport,
    /// Whether the mode reads a text of its own.
    pub input_mode: bool,
    /// The keys that the mode waits with, or the macro that is recorded.
    pub pending: Option<String>,
    /// The text that the mode reads, as it shows, and the place in it.
    pub sub_text: String,
    pub sub_cursor: Option<usize>,
    pub cursor_style: String,
    pub messages: Vec<String>,
    /// What takes the overlays away, where there are any.
    pub completer_clear: Option<String>,
    pub finder_clear: Option<String>,
    /// The rows that overlays are going to take.
    pub overlay: u16,
}

/// What is known of the screen from drawing it before.
#[derive(Debug, Clone, Copy, PartialEq, Eq, Structural)]
pub struct ScreenState {
    pub old_layout: Option<Layout>,
    pub blank_rows_above: u16,
    pub overlay_displacement: u16,
    pub overlay_cursor_offset: u16,
}

/// A number as far as a terminal counts.
pub open spec fn cap16(n: nat) -> u16 {
    if n <= u16::MAX {
        n as u16
    } else {
        u16::MAX
    }
}

fn to_u16(n: usize) -> (r: u16)
    ensures
        r == cap16(n as nat),
{
    if n <= u16::MAX as usize {
        n as u16
    } else {
        u16::MAX
    }
}

/// What is left of a number.
pub open spec fn less(a: int, b: int) -> int {
    if a >= b {
        a - b
    } else {
        0
    }
}

/// The columns of a text on the screen, as far as a terminal counts.
pub open spec fn columns(w: WidthCalculator, s: Seq<char>) -> u16 {
    cap16(width::shown_columns(w, s))
}

/// The same thing several times.
pub open spec fn again(piece: Seq<Op>, n: nat) -> Seq<Op>
    decreases n,
{
    if n == 0 {
        Seq::empty()
    } else {
        again(piece, (n - 1) as nat) + piece
    }
}

/// What takes the status line away, where there is to be none any more.
pub open spec fn statline_gone(f: Frame) -> Seq<Op> {
    if f.had_statline && !f.statline {
        seq![Op::SavePos, Op::At(f.t_rows, 1), Op::ClearLine, Op::RestorePos, Op::ResetRegion]
    } else {
        Seq::empty()
    }
}

fn drop_statline(f: &Frame, out: &mut Screen)
    ensures
        final(out)@ == old(out)@ + statline_gone(*f),
{
    if f.had_statline && !f.statline {
        out.put(Ctl::SavePos);
        out.put(Ctl::At(f.t_rows, 1));
        out.put(Ctl::ClearLine);
        out.put(Ctl::RestorePos);
        out.put(Ctl::ResetRegion);
    }
    assert(out@ =~= old(out)@ + statline_gone(*f));
}

/// What brings the cursor back from an overlay.
pub open spec fn homed(st: ScreenState) -> Seq<Op> {
    if st.overlay_cursor_offset > 0 {
        seq![Op::Up(st.overlay_cursor_offset), Op::Col(1)]
    } else {
        Seq::empty()
    }
}

/// What takes the overlays away.
pub open spec fn overlays_gone(f: Frame) -> Seq<Op> {
    (match f.completer_clear {
        Some(s) => seq![Op::Text(s@)],
        None => Seq::empty(),
    }) + (match f.finder_clear {
        Some(s) => seq![Op::Text(s@)],
        None => Seq::empty(),
    })
}

fn clear_overlays(f: &Frame, st: &ScreenState, out: &mut Screen)
    ensures
        final(out)@ == old(out)@ + homed(*st) + overlays_gone(*f),
{
    if st.overlay_cursor_offset > 0 {
        out.put(Ctl::Up(st.overlay_cursor_offset));
        out.put(Ctl::Col(1));
    }
    assert(out@ =~= old(out)@ + homed(*st));
    let ghost base = out@;
    if let Some(s) = &f.completer_clear {
        out.put_text(s.as_str());
    }
    if let Some(s) = &f.finder_clear {
        out.put_text(s.as_str());
    }
    assert(out@ =~= base + overlays_gone(*f));
}

/// Whether the mode reads a text of its own below the line.
pub open spec fn has_sub_editor(m: ModeReport) -> bool {
    m == ModeReport::Ex || m == ModeReport::RevSearch || m == ModeReport::Search
}

/// How much fewer rows are taken than before.
pub open spec fn freed_rows(f: Frame, st: ScreenState, l: Layout, msg_rows: u16) -> int {
    match st.old_layout {
        Some(o) => {
            let before = o.end.row + st.overlay_displacement;
            let now = l.end.row + f.overlay + msg_rows + (if has_sub_editor(f.mode) {
                1int
            } else {
                0
            });
            less(before, now)
        },
        None => 0,
    }
}

/// What takes the line away that was shown before. Rows that are not needed any
/// more are cleared where there is a status line.
pub open spec fn line_gone(f: Frame, st: ScreenState, l: Layout, msg_rows: u16) -> Seq<Op> {
    match st.old_layout {
        Some(o) => {
            let rows = seq![
                Op::Text(
                    layout::down_to_end(o, f.t_cols) + layout::times(
                        "\x1b[2K\x1b[A"@,
                        layout::rows_taken(o, f.t_cols) as nat,
                    ) + "\x1b[2K\r"@,
                ),
            ];
            let freed = freed_rows(f, st, l, msg_rows);
            if f.statline && freed > 0 {
                rows.push(Op::SavePos) + again(
                    seq![Op::Text("\x1b[1B\x1b[2K"@)],
                    cap16(freed as nat) as nat,
                ) + seq![Op::RestorePos]
            } else {
                rows
            }
        },
        None => Seq::empty(),
    }
}

/// What is known of the screen once the line of before is gone.
pub open spec fn state_cleared(f: Frame, st: ScreenState, l: Layout, msg_rows: u16) -> ScreenState {
    let freed = freed_rows(f, st, l, msg_rows);
    ScreenState {
        overlay_cursor_offset: 0,
        overlay_displacement: if st.old_layout is Some {
            0
        } else {
            st.overlay_displacement
        },
        blank_rows_above: if f.statline && freed > 0 {
            layout::sum16(st.blank_rows_above, cap16(freed as nat) as int)
        } else {
            st.blank_rows_above
        },
        ..st
    }
}

fn clear_line(f: &Frame, st: &mut ScreenState, l: &Layout, msg_rows: u16, out: &mut Screen)
    ensures
        final(out)@ == old(out)@ + line_gone(*f, *old(st), *l, msg_rows),
        *final(st) == state_cleared(*f, *old(st), *l, msg_rows),
{
    let ghost base = out@;
    let ghost st0 = *st;
    st.overlay_cursor_offset = 0;
    if let Some(o) = st.old_layout {
        let t = clear_rows(&o, f.t_cols);
        out.put(Ctl::Text(t));
        let before: u32 = o.end.row as u32 + st.overlay_displacement as u32;
        let mut now: u32 = l.end.row as u32 + f.overlay as u32 + msg_rows as u32;
        if f.mode == ModeReport::Ex || f.mode == ModeReport::RevSearch || f.mode
            == ModeReport::Search {
            now = now + 1;
        }
        st.overlay_displacement = 0;
        let freed: u32 = before.saturating_sub(now);
        assert(freed == freed_rows(*f, st0, *l, msg_rows));
        if f.statline && freed > 0 {
            let n: u16 = to_u16(freed as usize);
            out.put(Ctl::SavePos);
            let ghost mid = out@;
            let mut i: u16 = 0;
            assert(mid + again(seq![Op::Text("\x1b[1B\x1b[2K"@)], 0) =~= mid);
            while i < n
                invariant
                    i <= n,
                    out@ == mid + again(seq![Op::Text("\x1b[1B\x1b[2K"@)], i as nat),
                decreases n - i,
            {
                out.put_text("\x1b[1B\x1b[2K");
                i = i + 1;
                assert(out@ =~= mid + again(seq![Op::Text("\x1b[1B\x1b[2K"@)], i as nat));
            }
            out.put(Ctl::RestorePos);
            st.blank_rows_above = st.blank_rows_above.saturating_add(n);
        }
        assert(out@ =~= base + line_gone(*f, st0, *l, msg_rows));
    } else {
        assert(out@ =~= base + line_gone(*f, st0, *l, msg_rows));
    }
}

/// What stands at the right edge: the keys that are waited with, or the right
/// prompt.
pub enum Corner {
    Keys(Seq<char>),
    Right(Seq<char>),
    Nothing,
}

/// What stands at the right edge, if there is room.
#[verifier::opaque]
pub open spec fn corner(f: Frame, l: Layout) -> Corner {
    let used = layout::pos_after(
        f.w,
        f.t_cols,
        first_line(f.prompt@),
        Pos { col: 0, row: 0 },
        0,
        false,
    ).col;
    let right = match f.prompt_right {
        Some(s) => Some(cut_to_line(s@)),
        None => None,
    };
    if !f.final_draw && f.pending is Some && f.pending->0@.len() > 0 && !(right is Some && l.end.row
        == 0) && used + 1 < less(f.t_cols as int, unicode::str_columns(f.pending->0@) as int)
        && !f.input_mode {
        Corner::Keys(f.pending->0@)
    } else if !f.final_draw && right is Some && l.end.col + 1 < less(
        f.t_cols as int,
        unicode::str_columns(right->0) as int,
    ) {
        Corner::Right(right->0)
    } else {
        Corner::Nothing
    }
}

/// What shows it.
pub open spec fn corner_ops(f: Frame, l: Layout) -> Seq<Op> {
    match corner(f, l) {
        Corner::Keys(s) => seq![
            Op::SavePos,
            Op::Up(l.cursor.row),
            Op::Col(less(f.t_cols as int, columns(f.w, s) as int) as u16),
            Op::Text(s),
            Op::RestorePos,
        ],
        Corner::Right(s) => seq![
            Op::SavePos,
            Op::Down(less(l.end.row as int, l.cursor.row as int) as u16),
            Op::Col(less(f.t_cols as int, columns(f.w, s) as int) as u16),
            Op::Text(s),
            Op::RestorePos,
        ],
        Corner::Nothing => Seq::empty(),
    }
}

/// The layout with the end of the right prompt.
pub open spec fn with_corner(f: Frame, l: Layout) -> Layout {
    match corner(f, l) {
        Corner::Right(s) => Layout {
            psr_end: Some(
                layout::pos_after(
                    f.w,
                    f.t_cols,
                    s,
                    Pos {
                        row: l.end.row,
                        col: less(f.t_cols as int, columns(f.w, s) as int) as u16,
                    },
                    0,
                    false,
                ),
            ),
            ..l
        },
        _ => l,
    }
}

fn draw_corner(f: &Frame, l: &mut Layout, out: &mut Screen)
    ensures
        final(out)@ == old(out)@ + corner_ops(*f, *old(l)),
        *final(l) == with_corner(*f, *old(l)),
{
    reveal(corner);
    let ghost base = out@;
    let ghost l0 = *l;
    let top = take_first_line(f.prompt.as_str());
    let used: u16 = Layout::calc_pos(
        f.w,
        f.t_cols,
        top.as_str(),
        Pos { col: 0, row: 0 },
        0,
        false,
    ).col;
    let right = match &f.prompt_right {
        Some(s) => Some(take_one_line(s.as_str())),
        None => None,
    };
    if !f.final_draw {
        if let Some(s) = &f.pending {
            let v = chars_of(s.as_str());
            let room: usize = (f.t_cols as usize).saturating_sub(width_of_str(s.as_str()));
            if v.len() > 0 && !(right.is_some() && l.end.row == 0) && (used as usize) + 1 < room
                && !f.input_mode {
                let to: u16 = f.t_cols.saturating_sub(calc_str_width(f.w, s.as_str()));
                out.put(Ctl::SavePos);
                out.put(Ctl::Up(l.cursor.row));
                out.put(Ctl::Col(to));
                out.put_text(s.as_str());
                out.put(Ctl::RestorePos);
                assert(corner(*f, l0) == Corner::Keys(s@));
                assert(out@ =~= base + corner_ops(*f, l0));
                return;
            }
        }
        if let Some(s) = &right {
            let room: usize = (f.t_cols as usize).saturating_sub(width_of_str(s.as_str()));
            if (l.end.col as usize) + 1 < room {
                let to: u16 = f.t_cols.saturating_sub(calc_str_width(f.w, s.as_str()));
                out.put(Ctl::SavePos);
                out.put(Ctl::Down(l.end.row.saturating_sub(l.cursor.row)));
                out.put(Ctl::Col(to));
                out.put_text(s.as_str());
                out.put(Ctl::RestorePos);
                assert(corner(*f, l0) == Corner::Right(s@));
                assert(out@ =~= base + corner_ops(*f, l0));
                let start = Pos { row: l.end.row, col: to };
                l.psr_end = Some(
                    Layout::calc_pos(f.w, f.t_cols, s.as_str(), start, 0, false),
                );
                return;
            }
        }
    }
    assert(corner(*f, l0) is Nothing);
    assert(out@ =~= base + corner_ops(*f, l0));
}

/// What goes down to the end of the text, where an overlay comes below it.
pub open spec fn down_ops(f: Frame, l: Layout) -> Seq<Op> {
    if (f.completer_clear is Some || f.finder_clear is Some) && l.end.row > l.cursor.row {
        seq![Op::Down((l.end.row - l.cursor.row) as u16)]
    } else {
        Seq::empty()
    }
}

/// The layout with the cursor at the end of the text, where an overlay comes below
/// it.
pub open spec fn at_end(f: Frame, l: Layout) -> Layout {
    if (f.completer_clear is Some || f.finder_clear is Some) && l.end.row > l.cursor.row {
        Layout { cursor: Pos { row: l.end.row, ..l.cursor }, ..l }
    } else {
        l
    }
}

/// What stands before the text that a mode reads.
pub open spec fn sub_prefix(m: ModeReport) -> Seq<char> {
    if m == ModeReport::Ex {
        ": "@
    } else if m == ModeReport::RevSearch {
        "?"@
    } else {
        "/"@
    }
}

/// The first graphemes of a text.
pub open spec fn first_clusters(s: Seq<char>, n: int) -> Seq<char> {
    let c = unicode::clusters(s);
    unicode::joined(
        if n <= c.len() {
            c.take(n)
        } else {
            c
        },
    )
}

/// The column of the cursor in the text that a mode reads.
pub open spec fn sub_col(f: Frame) -> u16 {
    let at = match f.sub_cursor {
        Some(n) => n as int,
        None => text::byte_len(f.sub_text@) as int,
    };
    cap16(
        unicode::str_columns(sub_prefix(f.mode)) as nat + unicode::str_columns(
            first_clusters(f.sub_text@, at),
        ) as nat,
    )
}

/// What shows the text that a mode reads, below the line.
pub open spec fn sub_ops(f: Frame, l: Layout) -> Seq<Op> {
    if has_sub_editor(f.mode) {
        seq![
            Op::Down(less(l.end.row as int, l.cursor.row as int) as u16),
            Op::Col(1),
            Op::Newline,
            Op::Text(sub_prefix(f.mode) + f.sub_text@),
            Op::Col(layout::sum16(sub_col(f), 1)),
        ]
    } else {
        Seq::empty()
    }
}

/// The layout with the text that a mode reads.
pub open spec fn with_sub(f: Frame, l: Layout) -> Layout {
    if has_sub_editor(f.mode) {
        let row = layout::sum16(l.end.row, 1);
        Layout { end: Pos { row, ..l.end }, cursor: Pos { row, col: sub_col(f) }, ..l }
    } else {
        l
    }
}

fn join_first(gs: &Vec<String>, n: usize, Ghost(s): Ghost<Seq<char>>) -> (r: String)
    requires
        gs@.len() == unicode::clusters(s).len(),
        forall|k: int|
            0 <= k < gs@.len() ==> (#[trigger] gs@[k])@ == unicode::clusters(s)[k],
    ensures
        r@ == first_clusters(s, n as int),
{
    let ghost c = unicode::clusters(s);
    let mut out: String = String::new();
    let mut i: usize = 0;
    assert(c.take(0) =~= Seq::<Seq<char>>::empty());
    assert(out@ =~= unicode::joined(c.take(0)));
    while i < gs.len() && i < n
        invariant
            i <= gs@.len(),
            i <= n,
            c == unicode::clusters(s),
            gs@.len() == c.len(),
            forall|k: int| 0 <= k < gs@.len() ==> (#[trigger] gs@[k])@ == c[k],
            out@ == unicode::joined(c.take(i as int)),
        decreases gs@.len() - i,
    {
        out.push_str(gs[i].as_str());
        i = i + 1;
        assert(c.take(i as int).drop_last() =~= c.take(i - 1));
    }
    proof {
        if n <= c.len() {
        } else {
            assert(c.take(i as int) =~= c);
        }
    }
    out
}

fn draw_sub(f: &Frame, l: &mut Layout, out: &mut Screen)
    ensures
        final(out)@ == old(out)@ + sub_ops(*f, *old(l)),
        *final(l) == with_sub(*f, *old(l)),
{
    let ghost base = out@;
    let ghost l0 = *l;
    let prefix = if f.mode == ModeReport::Ex {
        ": "
    } else if f.mode == ModeReport::RevSearch {
        "?"
    } else if f.mode == ModeReport::Search {
        "/"
    } else {
        assert(out@ =~= base + sub_ops(*f, l0));
        return;
    };
    out.put(Ctl::Down(l.end.row.saturating_sub(l.cursor.row)));
    out.put(Ctl::Col(1));
    out.put(Ctl::Newline);
    let mut t = owned(prefix);
    t.push_str(f.sub_text.as_str());
    out.put(Ctl::Text(t));
    let at: usize = match f.sub_cursor {
        Some(n) => n,
        None => {
            let v = chars_of(f.sub_text.as_str());
            assert(v@.take(v@.len() as int) =~= v@);
            text::bytes_up_to(v.as_slice(), v.len())
        },
    };
    let gs = graphemes_of(f.sub_text.as_str());
    let before = join_first(&gs, at, Ghost(f.sub_text@));
    let count: usize = gs.len();
    assert(first_clusters(f.sub_text@, at as int) == first_clusters(
        f.sub_text@,
        match f.sub_cursor {
            Some(n) => n as int,
            None => text::byte_len(f.sub_text@) as int,
        },
    )) by {
        let c = unicode::clusters(f.sub_text@);
        assert(c.len() == count);
        assert(c.take(c.len() as int) =~= c);
    }
    let n: usize = width_of_str(prefix).saturating_add(width_of_str(before.as_str()));
    let col: u16 = to_u16(n);
    assert(col == sub_col(*f));
    out.put(Ctl::Col(col.saturating_add(1)));
    let row: u16 = l.end.row.saturating_add(1);
    l.end = Pos { row, col: l.end.col };
    l.cursor = Pos { row, col };
    assert(out@ =~= base + sub_ops(*f, l0));
}

/// The layout of the line before anything is put around it.
pub open spec fn line_layout(f: Frame, l: Layout) -> bool {
    &&& l.prompt_end == layout::pos_after(
        f.w,
        f.t_cols,
        f.prompt@,
        Pos { col: 0, row: 0 },
        0,
        false,
    )
    &&& l.cursor == layout::pos_after(
        f.w,
        f.t_cols,
        f.to_cursor@,
        l.prompt_end,
        l.prompt_end.col,
        true,
    )
    &&& l.end == layout::pos_after(
        f.w,
        f.t_cols,
        f.line@,
        l.prompt_end,
        l.prompt_end.col,
        false,
    )
    &&& l.psr_end is None
    &&& l.t_cols == f.t_cols
}

/// The messages, each on a line of its own, and the rows that they take.
pub open spec fn message_row(f: Frame) -> u16 {
    layout::pos_after(
        f.w,
        f.t_cols,
        layout::message_rows(f.messages@),
        layout::pos_after(f.w, f.t_cols, ""@, Pos { col: 0, row: 0 }, 0, false),
        layout::pos_after(f.w, f.t_cols, ""@, Pos { col: 0, row: 0 }, 0, false).col,
        false,
    ).row
}

/// What shows the messages.
pub open spec fn message_ops(f: Frame) -> Seq<Op> {
    if layout::message_rows(f.messages@).len() > 0 {
        seq![Op::ClearBelow, Op::Text(layout::message_rows(f.messages@))]
    } else {
        Seq::empty()
    }
}

/// What shows the prompt and the line.
pub open spec fn line_ops(f: Frame, l: Layout) -> Seq<Op> {
    seq![
        Op::Text(
            layout::redrawn(
                f.w,
                f.t_cols,
                Seq::empty(),
                f.prompt@,
                f.line@,
                f.line_numbers,
                f.scroll_offset,
                l,
            ),
        ),
    ]
}

/// What the terminal is told to show a line: first what was there goes, then come
/// the messages, the prompt with the line, what stands at the right edge, and the
/// text that the mode reads.
pub open spec fn frame_ops(f: Frame, st: ScreenState, l: Layout) -> Seq<Op> {
    let a = with_corner(f, l);
    Seq::empty() + statline_gone(f) + homed(st) + overlays_gone(f) + line_gone(
        f,
        st,
        l,
        message_row(f),
    ) + message_ops(f) + line_ops(f, l) + corner_ops(f, l) + seq![Op::Style(f.cursor_style@)]
        + down_ops(f, a) + sub_ops(f, at_end(f, a))
}

/// The layout of what is shown.
pub open spec fn frame_layout(f: Frame, l: Layout) -> Layout {
    with_sub(f, at_end(f, with_corner(f, l)))
}

/// The columns that the row above an overlay takes.
pub open spec fn row_above(f: Frame, l: Layout) -> u16 {
    if l.psr_end is Some {
        f.t_cols
    } else if l.end.col >= l.cursor.col {
        layout::sum16(l.end.col, 1)
    } else {
        layout::sum16(l.cursor.col, 1)
    }
}

fn join_messages(m: &Vec<String>) -> (r: String)
    ensures
        r@ == layout::message_rows(m@),
{
    let mut out: String = String::new();
    let mut i: usize = 0;
    assert(m@.take(0) =~= Seq::<String>::empty());
    assert(out@ =~= Seq::empty());
    while i < m.len()
        invariant
            i <= m@.len(),
            out@ == layout::message_rows(m@.take(i as int)),
        decreases m@.len() - i,
    {
        out.push_str(m[i].as_str());
        out.push('\n');
        i = i + 1;
        assert(m@.take(i as int).drop_last() =~= m@.take(i - 1));
    }
    assert(m@.take(i as int) =~= m@);
    out
}

/// What was shown: what the terminal is told, the layout, and the columns that
/// the row above an overlay takes.
pub struct Drawn {
    pub screen: Screen,
    pub layout: Layout,
    pub row_above: u16,
}

/// Shows the line and what is around it. What is known of the screen is kept up;
/// the layout is to be handed to `finish` once overlays are drawn.
#[verifier::rlimit(30)]
pub fn print_line(f: &Frame, st: &mut ScreenState) -> (r: Drawn)
    requires
        f.scroll_offset + lines::rows_of(f.line@).len() <= usize::MAX - 8,
    ensures
        exists|l: Layout| #[trigger]
            line_layout(*f, l) && r.screen@ == frame_ops(*f, *old(st), l) && r.layout
                == frame_layout(*f, l) && r.row_above == row_above(*f, r.layout) && *final(st)
                == state_cleared(*f, *old(st), l, message_row(*f)),
{
    let mut out = Screen::new();
    let mut l = Layout::from_parts(
        f.w,
        f.t_cols,
        f.prompt.as_str(),
        f.to_cursor.as_str(),
        f.line.as_str(),
    );
    let ghost l0 = l;
    assert(line_layout(*f, l0));
    let ghost st0 = *st;
    drop_statline(f, &mut out);
    clear_overlays(f, st, &mut out);
    let msg = join_messages(&f.messages);
    let msg_layout = Layout::from_parts(f.w, f.t_cols, "", msg.as_str(), msg.as_str());
    clear_line(f, st, &l, msg_layout.end.row, &mut out);
    let ghost before_msg = out@;
    let mv = chars_of(msg.as_str());
    if mv.len() > 0 {
        out.put(Ctl::ClearBelow);
        out.put_text(msg.as_str());
    }
    assert(out@ =~= before_msg + message_ops(*f));
    let none: Vec<String> = Vec::new();
    let t = redraw(
        f.w,
        f.t_cols,
        &none,
        f.prompt.as_str(),
        f.line.as_str(),
        &l,
        f.scroll_offset,
        f.total_lines,
        f.line_numbers,
    );
    let ghost before_line = out@;
    assert(none@ =~= Seq::<String>::empty());
    out.put(Ctl::Text(t));
    assert(out@ =~= before_line + line_ops(*f, l0));
    draw_corner(f, &mut l, &mut out);
    let ghost before_style = out@;
    out.put(Ctl::Style(f.cursor_style.clone()));
    assert(out@ =~= before_style + seq![Op::Style(f.cursor_style@)]);
    let ghost before_down = out@;
    let ghost l1 = l;
    if (f.completer_clear.is_some() || f.finder_clear.is_some()) && l.end.row > l.cursor.row {
        out.put(Ctl::Down(l.end.row - l.cursor.row));
        l.cursor = Pos { row: l.end.row, col: l.cursor.col };
    }
    assert(out@ =~= before_down + down_ops(*f, l1));
    draw_sub(f, &mut l, &mut out);
    let above: u16 = if l.psr_end.is_some() {
        f.t_cols
    } else if l.end.col >= l.cursor.col {
        l.end.col.saturating_add(1)
    } else {
        l.cursor.col.saturating_add(1)
    };
    Drawn { screen: out, layout: l, row_above: above }
}

/// The message that is shown, and after how many milliseconds it goes: a message
/// stays for five seconds, and its first line shows.
pub open spec fn shown_message(message: Option<(Seq<char>, u64)>) -> Option<(Seq<char>, u64)> {
    match message {
        Some((m, age)) => if age / 1000 < 5 {
            Some((first_line(m), (5000 - age) as u64))
        } else {
            None
        },
        None => None,
    }
}

/// The message that is shown, and after how many milliseconds it goes.
pub fn status_content(message: Option<(&str, u64)>) -> (r: Option<(String, u64)>)
    ensures
        match shown_message(
            match message {
                Some((m, age)) => Some((m@, age)),
                None => None,
            },
        ) {
            Some((m, t)) => r is Some && (r->0).0@ == m && (r->0).1 == t,
            None => r is None,
        },
{
    match message {
        Some((m, age)) => if age / 1000 < 5 {
            Some((take_first_line(m), 5000 - age))
        } else {
            None
        },
        None => None,
    }
}

/// What shows a message: on its row of the screen where there is a status line,
/// else below the line.
pub open spec fn status_ops(l: Layout, mode: ModeReport, statline: bool, content: Seq<char>) -> Seq<
    Op,
> {
    if content.len() == 0 {
        Seq::empty()
    } else if statline {
        seq![Op::StatusMessage(content)]
    } else {
        let gap = layout::sum16(
            less(l.end.row as int, l.cursor.row as int) as u16,
            if has_sub_editor(mode) {
                1
            } else {
                2
            },
        );
        again(seq![Op::Newline], gap as nat) + seq![
            Op::Return,
            Op::ClearLine,
            Op::Text(content),
            Op::Up(gap),
            Op::Col(layout::sum16(l.cursor.col, 1)),
        ]
    }
}

/// Shows the status line and a message.
pub fn draw_status(
    l: &Layout,
    mode: ModeReport,
    statline: Option<&str>,
    statline_enabled: bool,
    content: &str,
    final_draw: bool,
) -> (r: Screen)
    ensures
        r@ == (if final_draw {
            Seq::empty()
        } else {
            (match statline {
                Some(s) => seq![Op::StatusLine(s@)],
                None => Seq::empty(),
            }) + status_ops(*l, mode, statline_enabled, content@)
        }),
{
    let mut out = Screen::new();
    if final_draw {
        return out;
    }
    if let Some(s) = statline {
        out.put(Ctl::StatusLine(owned(s)));
    }
    let ghost base = out@;
    assert(base =~= match statline {
        Some(s) => seq![Op::StatusLine(s@)],
        None => Seq::empty(),
    });
    let v = chars_of(content);
    if v.len() > 0 {
        if statline_enabled {
            out.put(Ctl::StatusMessage(owned(content)));
        } else {
            let extra: u16 = if mode == ModeReport::Ex || mode == ModeReport::RevSearch || mode
                == ModeReport::Search {
                1
            } else {
                2
            };
            let gap: u16 = l.end.row.saturating_sub(l.cursor.row).saturating_add(extra);
            let mut i: u16 = 0;
            assert(base + again(seq![Op::Newline], 0) =~= base);
            while i < gap
                invariant
                    i <= gap,
                    out@ == base + again(seq![Op::Newline], i as nat),
                decreases gap - i,
            {
                out.put(Ctl::Newline);
                i = i + 1;
                assert(out@ =~= base + again(seq![Op::Newline], i as nat));
            }
            out.put(Ctl::Return);
            out.put(Ctl::ClearLine);
            out.put_text(content);
            out.put(Ctl::Up(gap));
            out.put(Ctl::Col(l.cursor.col.saturating_add(1)));
        }
    }
    assert(out@ =~= base + status_ops(*l, mode, statline_enabled, content@));
    out
}

/// What fills the rows between the line and the status line with tildes, where the
/// cursor is in a row of the screen.
pub open spec fn fill_ops(l: Layout, overlay: u16, t_rows: u16, input_row: u16) -> Seq<Op> {
    let below = layout::sum16(less(l.end.row as int, l.cursor.row as int) as u16, overlay as int);
    let bottom = layout::sum16(input_row, below as int);
    let gap = less(less(t_rows as int, 2), bottom as int);
    if gap > 0 {
        seq![Op::SavePos, Op::Down(below), Op::Col(1)] + again(
            seq![Op::Down(1), Op::Col(1), Op::ClearLine, Op::Text("\x1b[90m~\x1b[0m"@)],
            gap as nat,
        ) + seq![Op::RestorePos]
    } else {
        Seq::empty()
    }
}

/// Fills the rows between the line and the status line with tildes.
pub fn fill_below(l: &Layout, overlay: u16, t_rows: u16, input_row: u16) -> (r: Screen)
    ensures
        r@ == fill_ops(*l, overlay, t_rows, input_row),
{
    let mut out = Screen::new();
    let below: u16 = l.end.row.saturating_sub(l.cursor.row).saturating_add(overlay);
    let bottom: u16 = input_row.saturating_add(below);
    let gap: u16 = t_rows.saturating_sub(2).saturating_sub(bottom);
    if gap > 0 {
        out.put(Ctl::SavePos);
        out.put(Ctl::Down(below));
        out.put(Ctl::Col(1));
        let ghost base = out@;
        let ghost piece = seq![
            Op::Down(1),
            Op::Col(1),
            Op::ClearLine,
            Op::Text("\x1b[90m~\x1b[0m"@),
        ];
        assert(base =~= seq![Op::SavePos, Op::Down(below), Op::Col(1)]);
        let mut i: u16 = 0;
        assert(base + again(piece, 0) =~= base);
        while i < gap
            invariant
                i <= gap,
                piece == seq![
                    Op::Down(1),
                    Op::Col(1),
                    Op::ClearLine,
                    Op::Text("\x1b[90m~\x1b[0m"@),
                ],
                out@ == base + again(piece, i as nat),
            decreases gap - i,
        {
            out.put(Ctl::Down(1));
            out.put(Ctl::Col(1));
            out.put(Ctl::ClearLine);
            out.put_text("\x1b[90m~\x1b[0m");
            i = i + 1;
            assert(out@ =~= base + again(piece, i as nat));
        }
        out.put(Ctl::RestorePos);
    }
    assert(out@ =~= fill_ops(*l, overlay, t_rows, input_row));
    out
}

/// Ends the drawing: the layout is kept for the next time, and the cursor goes to
/// the query of an overlay, where one is shown.
pub fn finish(st: &mut ScreenState, l: Layout, overlay: u16, query_col: Option<usize>) -> (r:
    Screen)
    ensures
        *final(st) == (ScreenState {
            old_layout: Some(l),
            overlay_displacement: overlay,
            overlay_cursor_offset: if query_col is Some {
                1
            } else {
                old(st).overlay_cursor_offset
            },
            ..*old(st)
        }),
        r@ == match query_col {
            Some(c) => seq![
                Op::Down(1),
                Op::Col(layout::sum16(cap16(c as nat), 1)),
                Op::Beam,
            ],
            None => Seq::empty(),
        },
{
    let mut out = Screen::new();
    st.old_layout = Some(l);
    st.overlay_displacement = overlay;
    if let Some(c) = query_col {
        out.put(Ctl::Down(1));
        out.put(Ctl::Col(to_u16(c).saturating_add(1)));
        out.put(Ctl::Beam);
        st.overlay_cursor_offset = 1;
    }
    assert(out@ =~= match query_col {
        Some(c) => seq![Op::Down(1), Op::Col(layout::sum16(cap16(c as nat), 1)), Op::Beam],
        None => Seq::empty(),
    });
    out
}

/// What scrolls the prompt to the top of the screen: by how many rows, where the
/// cursor is in a row of the screen.
pub fn clear_screen_scroll(cursor_row: u16, st: &ScreenState) -> (r: u16)
    ensures
        r == less(
            less(
                cursor_row as int,
                match st.old_layout {
                    Some(l) => l.cursor.row as int,
                    None => 0,
                },
            ),
            1,
        ),
{
    let up: u16 = match st.old_layout {
        Some(l) => l.cursor.row,
        None => 0,
    };
    cursor_row.saturating_sub(up).saturating_sub(1)
}

} // verus!
