//! The buffer: its lines, cursor, hint, selection, history of edits and kills.

use crate::editcmd::Motion;
use crate::linebuf::line;
use crate::linebuf::line::Line;
use crate::linebuf::lines;
use crate::linebuf::lines::attach_lines;
use crate::linebuf::lines::clone_lines;
use crate::linebuf::lines::join_lines;
use crate::linebuf::lines::push_line;
use crate::linebuf::lines::split_lines_at;
use crate::linebuf::lines::to_lines;
use crate::linebuf::lines::Text;
use crate::linebuf::pos;
use crate::linebuf::pos::lesser;
use crate::linebuf::pos::ordered_pos;
use crate::linebuf::pos::ordered_rows;
use crate::linebuf::pos::Cursor;
use crate::linebuf::pos::Pos;
use crate::linebuf::pos::SelectMode;
use crate::linebuf::words;
use crate::linebuf::words::bound_pos;
use crate::text;
use crate::text::chars_of;
use crate::text::parse_usize;
use crate::text::string_of;
use crate::text::sub_chars;
use std::collections::VecDeque;
use vstd::prelude::*;

verus! {

/// One step of the undo history: the text and the cursor before and after.
#[derive(Debug)]
pub struct Edit {
    pub old_cursor: Pos,
    pub new_cursor: Pos,
    pub old: Vec<Line>,
    pub new: Vec<Line>,
    pub merging: bool,
}

impl Edit {
    pub fn start_merge(&mut self)
        ensures
            *final(self) == (Edit { merging: true, ..*old(self) }),
    {
        self.merging = true;
    }

    pub fn stop_merge(&mut self)
        ensures
            *final(self) == (Edit { merging: false, ..*old(self) }),
    {
        self.merging = false;
    }

    /// Whether the edit changes nothing.
    pub fn is_empty(&self) -> (r: bool)
        ensures
            r == (lines::text(self.old@) == lines::text(self.new@)),
    {
        lines::same_lines(&self.old, &self.new)
    }
}

/// The most kills that are kept.
pub const MAX_KILL_RING: usize = 60;

/// The stretches of text that were killed, oldest first.
#[derive(Debug)]
pub struct KillRing {
    pub kills: VecDeque<Vec<Line>>,
    pub merging: bool,
    pub selected: Option<usize>,
    pub kill_cycle_span: Option<(Pos, Pos)>,
}

/// Whether there is nothing in a kill.
pub open spec fn blank_kill(k: Text) -> bool {
    k.len() == 0 || (k.len() == 1 && k[0].len() == 0)
}

/// The kills with one more, the oldest forgotten where there are too many.
pub open spec fn kill_added(ring: Seq<Text>, k: Text) -> Seq<Text> {
    if blank_kill(k) {
        ring
    } else if ring.len() + 1 > MAX_KILL_RING {
        ring.push(k).skip(1)
    } else {
        ring.push(k)
    }
}

/// The kills with one more in front, the newest forgotten where there are too
/// many.
pub open spec fn kill_added_front(ring: Seq<Text>, k: Text) -> Seq<Text> {
    if blank_kill(k) {
        ring
    } else if ring.len() + 1 > MAX_KILL_RING {
        (seq![k] + ring).drop_last()
    } else {
        seq![k] + ring
    }
}

/// The index of the kill to offer next: the newest first, then older ones,
/// and round again.
pub open spec fn next_kill(len: nat, selected: Option<usize>) -> usize {
    match selected {
        Some(i) if i > 0 => (i - 1) as usize,
        _ => if len > 0 {
            (len - 1) as usize
        } else {
            0
        },
    }
}

/// Whether a text is blank as a kill.
fn is_blank_kill(k: &Vec<Line>) -> (r: bool)
    ensures
        r == blank_kill(lines::text(k@)),
{
    assert(k@.len() == 1 ==> lines::text(k@)[0] == k@[0]@);
    k.len() == 0 || (k.len() == 1 && k[0].is_empty())
}

impl View for KillRing {
    type V = Seq<Text>;

    open spec fn view(&self) -> Seq<Text> {
        Seq::new(self.kills@.len(), |i: int| lines::text(self.kills@[i]@))
    }
}

impl KillRing {
    pub fn new() -> (r: Self)
        ensures
            r@ == Seq::<Text>::empty(),
            !r.merging,
            r.selected is None,
            r.kill_cycle_span is None,
    {
        let r = KillRing {
            kills: VecDeque::new(),
            merging: false,
            selected: None,
            kill_cycle_span: None,
        };
        assert(r@ =~= Seq::<Text>::empty());
        r
    }

    pub fn push_back(&mut self, kill: Vec<Line>)
        ensures
            final(self)@ == kill_added(old(self)@, lines::text(kill@)),
            *final(self) == (KillRing { kills: final(self).kills, ..*old(self) }),
    {
        let ghost was = self@;
        if is_blank_kill(&kill) {
            return;
        }
        let n: usize = self.kills.len();
        self.kills.push_back(kill);
        assert(self@ =~= was.push(lines::text(kill@)));
        if self.kills.len() > MAX_KILL_RING {
            let ghost mid = self@;
            self.kills.pop_front();
            assert(self@ =~= mid.skip(1));
        }
    }

    pub fn push_front(&mut self, kill: Vec<Line>)
        ensures
            final(self)@ == kill_added_front(old(self)@, lines::text(kill@)),
            *final(self) == (KillRing { kills: final(self).kills, ..*old(self) }),
    {
        let ghost was = self@;
        if is_blank_kill(&kill) {
            return;
        }
        self.kills.push_front(kill);
        assert(self@ =~= seq![lines::text(kill@)] + was);
        if self.kills.len() > MAX_KILL_RING {
            let ghost mid = self@;
            self.kills.pop_back();
            assert(self@ =~= mid.drop_last());
        }
    }

    pub fn pop_back(&mut self) -> (r: Option<Vec<Line>>)
        ensures
            *final(self) == (KillRing { kills: final(self).kills, ..*old(self) }),
            match r {
                Some(k) => old(self)@.len() > 0 && lines::text(k@) == old(self)@.last()
                    && final(self)@ == old(self)@.drop_last(),
                None => old(self)@.len() == 0 && final(self)@ == old(self)@,
            },
    {
        let ghost was = self@;
        let r = self.kills.pop_back();
        proof {
            if r is Some {
                assert(self@ =~= was.drop_last());
            } else {
                assert(self@ =~= was);
            }
        }
        r
    }

    pub fn pop_front(&mut self) -> (r: Option<Vec<Line>>)
        ensures
            *final(self) == (KillRing { kills: final(self).kills, ..*old(self) }),
            match r {
                Some(k) => old(self)@.len() > 0 && lines::text(k@) == old(self)@[0]
                    && final(self)@ == old(self)@.skip(1),
                None => old(self)@.len() == 0 && final(self)@ == old(self)@,
            },
    {
        let ghost was = self@;
        let r = self.kills.pop_front();
        proof {
            if r is Some {
                assert(self@ =~= was.skip(1));
            } else {
                assert(self@ =~= was);
            }
        }
        r
    }

    pub fn len(&self) -> (r: usize)
        ensures
            r == self@.len(),
    {
        self.kills.len()
    }

    pub fn is_empty(&self) -> (r: bool)
        ensures
            r == (self@.len() == 0),
    {
        self.kills.len() == 0
    }

    /// Selects the kill to offer next.
    pub fn next_idx(&mut self) -> (r: usize)
        ensures
            r == next_kill(old(self)@.len(), old(self).selected),
            *final(self) == (KillRing { selected: Some(r), ..*old(self) }),
    {
        let idx: usize = match self.selected {
            Some(i) => if i > 0 {
                i - 1
            } else {
                self.kills.len().saturating_sub(1)
            },
            None => self.kills.len().saturating_sub(1),
        };
        self.selected = Some(idx);
        idx
    }

    /// Selects the kill to offer next and gives a copy of it.
    pub fn next(&mut self) -> (r: Option<Vec<Line>>)
        ensures
            *final(self) == (KillRing {
                selected: Some(next_kill(old(self)@.len(), old(self).selected)),
                ..*old(self)
            }),
            ({
                let i = next_kill(old(self)@.len(), old(self).selected);
                match r {
                    Some(k) => i < old(self)@.len() && lines::text(k@) == old(self)@[i as int],
                    None => i >= old(self)@.len(),
                }
            }),
    {
        let i = self.next_idx();
        if i < self.kills.len() {
            Some(clone_lines(&self.kills[i]))
        } else {
            None
        }
    }

    pub fn reset(&mut self)
        ensures
            *final(self) == (KillRing { selected: None, kill_cycle_span: None, ..*old(self) }),
    {
        self.selected = None;
        self.kill_cycle_span = None;
    }
}

/// However often something is killed, the ring keeps within its bound.
pub proof fn kill_ring_stays_bounded(ring: Seq<Text>, k: Text)
    requires
        ring.len() <= MAX_KILL_RING,
    ensures
        kill_added(ring, k).len() <= MAX_KILL_RING,
        kill_added_front(ring, k).len() <= MAX_KILL_RING,
{
}

/// What was killed last is offered first.
pub proof fn last_kill_comes_first(ring: Seq<Text>, k: Text)
    requires
        ring.len() <= MAX_KILL_RING,
        !blank_kill(k),
    ensures
        kill_added(ring, k)[next_kill(kill_added(ring, k).len(), None) as int] == k,
{
}

/// The edit buffer.
#[derive(Debug)]
pub struct LineBuf {
    pub lines: Vec<Line>,
    pub hint: Option<Vec<Line>>,
    pub cursor: Cursor,
    pub select_mode: Option<SelectMode>,
    pub last_selection: Option<(SelectMode, Pos)>,
    pub insert_mode_start_pos: Option<Pos>,
    pub saved_col: Option<usize>,
    pub scroll_offset: usize,
    pub undo_stack: Vec<Edit>,
    pub redo_stack: Vec<Edit>,
    pub kill_ring: KillRing,
    pub concat_points: VecDeque<Pos>,
}

/// How much of the buffer is shown: the height asked for, and how many lines
/// to keep around the cursor.
#[derive(Debug, Clone, Copy, PartialEq, Eq, Structural)]
pub struct Viewport {
    pub height: usize,
    pub scroll_offset: usize,
}

/// How high the view is asked to be.
#[derive(Debug, Clone, Copy, PartialEq, Eq, Structural)]
pub enum HeightSetting {
    Rows(usize),
    /// So many percent of the rows of the terminal.
    Percent(usize),
}

/// What a setting asks for: a number of rows, or a number of percent. Anything else
/// counts as half of the rows.
pub open spec fn height_asked(s: Seq<char>) -> HeightSetting {
    match text::parsed_usize(s) {
        Some(n) => HeightSetting::Rows(n),
        None => if s.len() > 0 && s.last() == '%' && text::parsed_usize(s.drop_last()) is Some {
            HeightSetting::Percent(text::parsed_usize(s.drop_last())->0)
        } else {
            HeightSetting::Percent(50)
        },
    }
}

/// What a setting asks for.
pub fn height_setting(s: &str) -> (r: HeightSetting)
    ensures
        r == height_asked(s@),
{
    match parse_usize(s) {
        Some(n) => HeightSetting::Rows(n),
        None => {
            let v = chars_of(s);
            if v.len() > 0 && v[v.len() - 1] == '%' {
                let pre = sub_chars(v.as_slice(), 0, v.len() - 1);
                assert(pre@ =~= v@.drop_last());
                let t = string_of(pre.as_slice());
                if let Some(n) = parse_usize(t.as_str()) {
                    return HeightSetting::Percent(n);
                }
            }
            HeightSetting::Percent(50)
        },
    }
}

/// The text that a hint holds.
pub open spec fn hint_text(h: Option<Vec<Line>>) -> Option<Text> {
    match h {
        Some(v) => Some(lines::text(v@)),
        None => None,
    }
}

/// A text with a hint behind it.
pub open spec fn with_hint(t: Text, h: Option<Text>) -> Text {
    match h {
        Some(x) => lines::attached(t, x),
        None => t,
    }
}

/// Whether a text has any grapheme.
pub open spec fn any_row(t: Text) -> bool {
    exists|i: int| 0 <= i < t.len() && (#[trigger] t[i]).len() > 0
}

/// The number of lines shown: at most a hundred, and no more than there are,
/// the hint's included.
pub open spec fn shown_height(t: Text, h: Option<Text>, height: usize) -> int {
    line::least(line::least(height as int, 100), with_hint(t, h).len() as int)
}

/// The first line shown. It moves as little as keeps the cursor and the lines
/// around it in view, and never past what is needed to show the last line.
pub open spec fn scrolled(offset: int, row: int, len: int, height: int, keep: int) -> int {
    let a = if row < offset + keep {
        if row >= keep {
            row - keep
        } else {
            0
        }
    } else {
        offset
    };
    let b = if row + keep >= a + height {
        row + keep + 1 - height
    } else {
        a
    };
    let max = if len >= height {
        len - height
    } else {
        0
    };
    line::least(b, max)
}

/// The first line shown of a text when the cursor is on a row.
pub open spec fn rescrolled(
    offset: usize,
    row: usize,
    t: Text,
    h: Option<Text>,
    view: Viewport,
) -> int {
    scrolled(
        offset as int,
        row as int,
        t.len() as int,
        shown_height(t, h, view.height),
        view.scroll_offset as int,
    )
}

/// The first line shown once a buffer has another text, and the cursor is then put on
/// a row of it.
pub open spec fn rescrolled_to(a: LineBuf, t: Text, row: usize, view: Viewport) -> int {
    let first = rescrolled(a.scroll_offset, fixed_pos(t, a.cursor).row, t, a.hinted(), view);
    rescrolled(first as usize, row, t, a.hinted(), view)
}

/// The position `n` places after the start of the text, or its end.
pub open spec fn unflat(t: Text, n: int) -> Pos {
    if t.len() == 0 {
        Pos { row: 0, col: 0 }
    } else {
        unflat_from(t, 0, n)
    }
}

/// The position `n` places after the start of a row, or the end of the text.
pub open spec fn unflat_from(t: Text, row: int, n: int) -> Pos
    decreases t.len() - row,
{
    if row >= t.len() || row < 0 {
        Pos { row: pos::last_index(t.len()) as usize, col: t.last().len() as usize }
    } else if n <= t[row].len() {
        Pos { row: row as usize, col: n as usize }
    } else {
        unflat_from(t, row + 1, n - t[row].len() - 1)
    }
}

/// The position reached from the start of a row by `n` places forward, or
/// backward if negative, stopping at the ends of the text.
pub open spec fn walked(t: Text, row: int, n: int) -> Pos {
    let from = lines::places(t.take(row)) + n;
    unflat(
        t,
        if from < 0 {
            0
        } else {
            from
        },
    )
}

/// How many places stand before a position, as far as a `usize` goes.
pub open spec fn flat_capped(t: Text, p: Pos) -> usize {
    let q = words::bounded(t, p, false);
    line::capped((lines::places(t.take(q.row as int)) + q.col) as nat)
}

pub proof fn lemma_places_step(t: Text, row: int)
    requires
        0 <= row < t.len(),
    ensures
        lines::places(t.take(row + 1)) == lines::places(t.take(row)) + t[row].len() + 1,
{
    assert(t.take(row + 1).drop_last() =~= t.take(row));
    assert(t.take(row + 1).last() == t[row]);
}

pub proof fn lemma_unflat_skips(t: Text, row: int, n: int)
    requires
        0 <= row <= t.len(),
        n >= 0,
    ensures
        unflat_from(t, 0, lines::places(t.take(row)) + n) == unflat_from(t, row, n),
    decreases row,
{
    if row > 0 {
        lemma_places_step(t, row - 1);
        lemma_unflat_skips(t, row - 1, t[row - 1].len() + 1 + n);
    } else {
        assert(t.take(0) =~= Seq::<Seq<Seq<char>>>::empty());
    }
}

pub proof fn lemma_places_bound(t: Text, row: int)
    requires
        0 <= row <= t.len(),
    ensures
        lines::places(t.take(row)) <= lines::places(t),
    decreases t.len() - row,
{
    if row < t.len() {
        lemma_places_step(t, row);
        lemma_places_bound(t, row + 1);
    } else {
        assert(t.take(row) =~= t);
    }
}

/// Counting the places before a position and going that far from the start
/// comes back to the position.
pub proof fn flat_then_back(t: Text, p: Pos)
    requires
        lines::valid(t, p),
    ensures
        unflat(t, lines::flat(t, p) as int) == p,
{
    assert(lines::inside(t, p) == p);
    lemma_unflat_skips(t, p.row as int, p.col as int);
}

/// Going some places from the start and counting the places before where one
/// is gives the number back, where the text is that long.
pub proof fn back_then_flat(t: Text, n: int)
    requires
        t.len() > 0,
        lines::fits(t),
        0 <= n < lines::places(t),
    ensures
        lines::flat(t, unflat(t, n)) == n,
        lines::valid(t, unflat(t, n)),
{
    lemma_unflat_flat(t, 0, n);
    assert(t.take(0) =~= Seq::<Seq<Seq<char>>>::empty());
}

proof fn lemma_unflat_flat(t: Text, row: int, n: int)
    requires
        t.len() > 0,
        lines::fits(t),
        0 <= row < t.len(),
        0 <= n,
        n + lines::places(t.take(row)) < lines::places(t),
    ensures
        lines::flat(t, unflat_from(t, row, n)) == n + lines::places(t.take(row)),
        lines::valid(t, unflat_from(t, row, n)),
    decreases t.len() - row,
{
    assert(t[row].len() <= usize::MAX);
    if n > t[row].len() {
        lemma_places_step(t, row);
        if row + 1 < t.len() {
            lemma_unflat_flat(t, row + 1, n - t[row].len() - 1);
        } else {
            assert(t.take(row + 1) =~= t);
        }
    }
}

impl Default for LineBuf {
    fn default() -> (r: Self)
        ensures
            r.fresh(),
    {
        let mut l: Vec<Line> = Vec::new();
        l.push(Line::default());
        let r = LineBuf {
            lines: l,
            hint: None,
            cursor: Cursor::default(),
            select_mode: None,
            last_selection: None,
            insert_mode_start_pos: None,
            saved_col: None,
            scroll_offset: 0,
            undo_stack: Vec::new(),
            redo_stack: Vec::new(),
            kill_ring: KillRing::new(),
            concat_points: VecDeque::new(),
        };
        assert(r.text() =~= seq![Seq::<Seq<char>>::empty()]);
        r
    }
}

impl LineBuf {
    /// The text of the buffer.
    pub open spec fn text(self) -> Text {
        lines::text(self.lines@)
    }

    /// The buffer has a line, and the cursor is on one.
    pub open spec fn wf(self) -> bool {
        self.lines@.len() > 0 && self.cursor.pos.row < self.lines@.len()
    }

    /// The text of the hint.
    pub open spec fn hinted(self) -> Option<Text> {
        hint_text(self.hint)
    }

    /// An empty buffer.
    pub open spec fn fresh(self) -> bool {
        &&& self.text() == seq![Seq::<Seq<char>>::empty()]
        &&& self.hint is None
        &&& self.cursor == (Cursor { pos: Pos { row: 0, col: 0 }, exclusive: false })
        &&& self.select_mode is None
        &&& self.last_selection is None
        &&& self.insert_mode_start_pos is None
        &&& self.saved_col is None
        &&& self.scroll_offset == 0
        &&& self.undo_stack@.len() == 0
        &&& self.redo_stack@.len() == 0
        &&& self.kill_ring@.len() == 0
        &&& !self.kill_ring.merging
        &&& self.kill_ring.selected is None
        &&& self.kill_ring.kill_cycle_span is None
        &&& self.concat_points@.len() == 0
    }

    pub fn new() -> (r: Self)
        ensures
            r.fresh(),
    {
        LineBuf::default()
    }

    /// The lines with those of the hint behind them.
    pub fn merged(&self) -> (r: Vec<Line>)
        ensures
            lines::text(r@) == with_hint(self.text(), self.hinted()),
    {
        let mut l = clone_lines(&self.lines);
        if let Some(h) = &self.hint {
            let mut hh = clone_lines(h);
            attach_lines(&mut l, &mut hh);
        }
        l
    }

    /// How many lines are shown, of a height that was asked for.
    pub fn get_viewport_height(&self, height: usize) -> (r: usize)
        ensures
            r == shown_height(self.text(), self.hinted(), height),
    {
        let m = self.merged();
        assert(lines::text(m@).len() == m@.len());
        lesser(lesser(height, 100), m.len())
    }

    /// Moves the window so that the cursor is in view.
    pub fn update_scroll_offset(&mut self, view: Viewport)
        ensures
            *final(self) == (LineBuf { scroll_offset: final(self).scroll_offset, ..*old(self) }),
            final(self).scroll_offset == scrolled(
                old(self).scroll_offset as int,
                old(self).cursor.pos.row as int,
                old(self).lines@.len() as int,
                shown_height(old(self).text(), old(self).hinted(), view.height),
                view.scroll_offset as int,
            ),
    {
        let height: i128 = self.get_viewport_height(view.height) as i128;
        let keep: i128 = view.scroll_offset as i128;
        let row: i128 = self.cursor.pos.row as i128;
        let mut offset: i128 = self.scroll_offset as i128;
        if row < offset + keep {
            offset = if row >= keep {
                row - keep
            } else {
                0
            };
        }
        if row + keep >= offset + height {
            offset = row + keep + 1 - height;
        }
        let len: i128 = self.lines.len() as i128;
        let max: i128 = if len >= height {
            len - height
        } else {
            0
        };
        self.scroll_offset = if offset <= max {
            offset as usize
        } else {
            max as usize
        };
    }

    /// The lines in view.
    pub fn get_window(&self, height: usize) -> (r: Vec<Line>)
        ensures
            lines::text(r@) == ({
                let t = self.text();
                let from = line::least(self.scroll_offset as int, t.len() as int);
                let to = line::least(
                    from + shown_height(t, self.hinted(), height),
                    t.len() as int,
                );
                t.subrange(from, to)
            }),
    {
        let h = self.get_viewport_height(height);
        let ghost t = self.text();
        let from: usize = lesser(self.scroll_offset, self.lines.len());
        let room: usize = self.lines.len() - from;
        let to: usize = from + lesser(h, room);
        let mut out: Vec<Line> = Vec::new();
        let mut i: usize = from;
        assert(lines::text(out@) =~= t.subrange(from as int, from as int));
        while i < to
            invariant
                from <= i <= to <= self.lines@.len(),
                t == self.text(),
                lines::text(out@) == t.subrange(from as int, i as int),
            decreases to - i,
        {
            push_line(&mut out, self.lines[i].clone());
            i = i + 1;
            assert(lines::text(out@) =~= t.subrange(from as int, i as int));
        }
        out
    }

    /// The text in view.
    pub fn window_joined(&self, height: usize) -> (r: String)
        ensures
            r@ == ({
                let t = self.text();
                let from = line::least(self.scroll_offset as int, t.len() as int);
                let to = line::least(
                    from + shown_height(t, self.hinted(), height),
                    t.len() as int,
                );
                lines::text_chars(t.subrange(from, to))
            }),
    {
        let w = self.get_window(height);
        join_lines(w.as_slice())
    }

    /// Whether the buffer holds no grapheme, in at most one line.
    pub fn is_empty(&self) -> (r: bool)
        ensures
            r == (self.text().len() == 0 || (self.text().len() == 1 && self.text()[0].len() == 0)),
    {
        if self.lines.len() == 0 {
            return true;
        }
        if self.lines.len() == 1 {
            assert(self.text()[0] == self.lines@[0]@);
            return self.lines[0].is_empty();
        }
        false
    }

    /// How many graphemes the buffer holds.
    pub fn count_graphemes(&self) -> (r: usize)
        ensures
            r == line::capped(lines::count(self.text())),
    {
        count_of(&self.lines)
    }

    /// Moves the cursor, keeping it on the text.
    pub fn set_cursor(&mut self, p: Pos)
        requires
            old(self).lines@.len() > 0,
        ensures
            *final(self) == (LineBuf {
                cursor: Cursor {
                    pos: words::bounded(old(self).text(), p, false),
                    exclusive: old(self).cursor.exclusive,
                },
                ..*old(self)
            }),
            final(self).wf(),
    {
        self.cursor.pos = bound_pos(&self.lines, p, false);
    }

    /// Moves the cursor to a row, in the remembered column if there is one.
    pub fn set_row(&mut self, row: usize)
        requires
            old(self).lines@.len() > 0,
        ensures
            *final(self) == (LineBuf {
                cursor: Cursor {
                    pos: words::bounded(
                        old(self).text(),
                        Pos { row, col: kept_col(old(self).saved_col, old(self).cursor.pos.col) },
                        false,
                    ),
                    exclusive: old(self).cursor.exclusive,
                },
                ..*old(self)
            }),
            final(self).wf(),
    {
        let col: usize = match self.saved_col {
            Some(c) => c,
            None => self.cursor.pos.col,
        };
        self.set_cursor(Pos { row, col });
    }

    /// Keeps the buffer's invariants after a command: at least one line, and
    /// the cursor on the text, before its end if it is exclusive.
    pub fn fix_cursor(&mut self, view: Viewport)
        ensures
            final(self).text() == fixed_text(old(self).text()),
            final(self).cursor == (Cursor {
                pos: fixed_pos(fixed_text(old(self).text()), old(self).cursor),
                exclusive: old(self).cursor.exclusive,
            }),
            final(self).scroll_offset == scrolled(
                old(self).scroll_offset as int,
                final(self).cursor.pos.row as int,
                final(self).lines@.len() as int,
                shown_height(final(self).text(), old(self).hinted(), view.height),
                view.scroll_offset as int,
            ),
            *final(self) == (LineBuf {
                lines: final(self).lines,
                cursor: final(self).cursor,
                scroll_offset: final(self).scroll_offset,
                ..*old(self)
            }),
            final(self).wf(),
    {
        let ghost t0 = self.text();
        if self.lines.len() == 0 {
            self.lines.push(Line::default());
            assert(self.text() =~= fixed_text(t0));
        }
        let ghost t = self.text();
        assert(t.len() == self.lines@.len());
        if self.cursor.pos.row >= self.lines.len() {
            self.cursor.pos.row = self.lines.len() - 1;
        }
        let row: usize = self.cursor.pos.row;
        assert(t[row as int] == self.lines@[row as int]@);
        let n: usize = self.lines[row].len();
        let col: usize = self.cursor.pos.col;
        if self.cursor.exclusive {
            if col > 0 && col >= n {
                self.cursor.pos.col = n.saturating_sub(1);
            }
        } else if col > 0 && col > n {
            self.cursor.pos.col = n;
        }
        self.update_scroll_offset(view);
    }

    /// The text of the buffer as a string.
    pub fn joined(&self) -> (r: String)
        ensures
            r@ == lines::text_chars(self.text()),
    {
        join_lines(self.lines.as_slice())
    }

    /// Replaces the contents of the buffer.
    pub fn set_buffer(&mut self, s: &str, view: Viewport)
        ensures
            final(self).text() == lines::lines_of(s@),
            lines::text_chars(final(self).text()) == s@,
            final(self).cursor == (Cursor {
                pos: fixed_pos(final(self).text(), old(self).cursor),
                exclusive: old(self).cursor.exclusive,
            }),
            final(self).concat_points@.len() == 0,
            final(self).scroll_offset == rescrolled(
                old(self).scroll_offset,
                final(self).cursor.pos.row,
                final(self).text(),
                old(self).hinted(),
                view,
            ),
            *final(self) == (LineBuf {
                lines: final(self).lines,
                cursor: final(self).cursor,
                scroll_offset: final(self).scroll_offset,
                concat_points: final(self).concat_points,
                ..*old(self)
            }),
            final(self).wf(),
    {
        self.lines = to_lines(s);
        assert(self.text().len() == self.lines@.len());
        self.clear_concats();
        self.fix_cursor(view);
    }

    /// Empties the buffer.
    pub fn clear_buffer(&mut self, view: Viewport)
        ensures
            final(self).text() == seq![Seq::<Seq<char>>::empty()],
            final(self).cursor == (Cursor {
                pos: Pos { row: 0, col: 0 },
                exclusive: old(self).cursor.exclusive,
            }),
            final(self).concat_points@.len() == 0,
            final(self).scroll_offset == rescrolled(
                old(self).scroll_offset,
                final(self).cursor.pos.row,
                final(self).text(),
                old(self).hinted(),
                view,
            ),
            *final(self) == (LineBuf {
                lines: final(self).lines,
                cursor: final(self).cursor,
                scroll_offset: final(self).scroll_offset,
                concat_points: final(self).concat_points,
                ..*old(self)
            }),
            final(self).wf(),
    {
        let mut l: Vec<Line> = Vec::new();
        l.push(Line::default());
        self.lines = l;
        assert(self.text() =~= seq![Seq::<Seq<char>>::empty()]);
        self.clear_concats();
        self.fix_cursor(view);
    }

    pub fn clear_concats(&mut self)
        ensures
            final(self).concat_points@.len() == 0,
            *final(self) == (LineBuf { concat_points: final(self).concat_points, ..*old(self) }),
    {
        self.concat_points.clear();
    }

    /// Offers a hint: what a longer text has beyond the buffer. `None`, or a
    /// text that does not continue the buffer, takes the hint away.
    pub fn set_hint(&mut self, hint: Option<&str>)
        ensures
            final(self).hinted() == offered(
                lines::text_chars(old(self).text()),
                match hint {
                    Some(s) => Some(s@),
                    None => None,
                },
            ),
            *final(self) == (LineBuf { hint: final(self).hint, ..*old(self) }),
    {
        self.hint = None;
        if let Some(h) = hint {
            let joined = self.joined();
            if text::str_starts_with(h, joined.as_str()) {
                let hc = text::chars_of(h);
                let jc = text::chars_of(joined.as_str());
                if hc.len() > jc.len() {
                    let rest = text::sub_chars(hc.as_slice(), jc.len(), hc.len());
                    assert(rest@ =~= h@.skip(joined@.len() as int));
                    let s = text::string_of(rest.as_slice());
                    self.hint = Some(to_lines(s.as_str()));
                }
            }
        }
    }

    /// Whether there is a hint that shows anything.
    pub fn has_hint(&self) -> (r: bool)
        ensures
            r == (self.hinted() is Some && any_row(self.hinted()->0)),
    {
        match &self.hint {
            Some(h) => any_line(h),
            None => false,
        }
    }

    /// The hint as a string.
    pub fn join_hint(&self) -> (r: String)
        ensures
            r@ == (match self.hinted() {
                Some(h) => lines::text_chars(h),
                None => Seq::empty(),
            }),
    {
        match &self.hint {
            Some(h) => join_lines(h.as_slice()),
            None => String::new(),
        }
    }

    /// Moves the cursor into the hint: what stands before the place behind the
    /// target becomes part of the buffer, the rest stays the hint.
    pub fn accept_hint_to(&mut self, target: Pos)
        requires
            old(self).lines@.len() > 0,
        ensures
            final(self).text() == accepted(old(self).text(), old(self).hinted(), target).0,
            final(self).hinted() == accepted(old(self).text(), old(self).hinted(), target).1,
            final(self).cursor == (Cursor {
                pos: words::bounded(final(self).text(), target, false),
                exclusive: old(self).cursor.exclusive,
            }),
            *final(self) == (LineBuf {
                lines: final(self).lines,
                hint: final(self).hint,
                cursor: final(self).cursor,
                ..*old(self)
            }),
            final(self).wf(),
    {
        if self.hint.is_none() {
            self.set_cursor(target);
            return;
        }
        let ghost t = self.text();
        let ghost h = self.hinted();
        let mut all = self.merged();
        assert(lines::text(all@).len() == all@.len());
        proof {
            assert(lines::text(all@).len() > 0) by {
                assert(t.len() > 0);
            }
        }
        let split = bound_pos(&all, crate::linebuf::scan::step_right(target), false);
        let rest = split_lines_at(&mut all, split);
        assert(lines::text(all@).len() == all@.len());
        let keep = any_line(&rest);
        self.lines = all;
        self.hint = if keep {
            Some(rest)
        } else {
            None
        };
        self.set_cursor(target);
    }

    /// Takes the whole hint into the buffer and goes to its end.
    pub fn accept_hint(&mut self, view: Viewport)
        requires
            old(self).lines@.len() > 0,
        ensures
            old(self).hinted() is None || lines::text_chars(old(self).hinted()->0).len() == 0
                ==> *final(self) == *old(self),
            old(self).hinted() is Some && lines::text_chars(old(self).hinted()->0).len() > 0 ==> {
                let h = lines::lines_of(lines::text_chars(old(self).hinted()->0));
                let t = lines::attached(old(self).text(), h);
                &&& final(self).text() == t
                &&& final(self).hint is None
                &&& final(self).cursor == (Cursor {
                    pos: fixed_pos(
                        t,
                        Cursor {
                            pos: words::bounded(
                                t,
                                Pos { row: usize::MAX, col: usize::MAX },
                                false,
                            ),
                            exclusive: old(self).cursor.exclusive,
                        },
                    ),
                    exclusive: old(self).cursor.exclusive,
                })
                &&& final(self).scroll_offset == rescrolled(
                    old(self).scroll_offset,
                    final(self).cursor.pos.row,
                    t,
                    old(self).hinted(),
                    view,
                )
            },
            *final(self) == (LineBuf {
                lines: final(self).lines,
                hint: final(self).hint,
                cursor: final(self).cursor,
                scroll_offset: final(self).scroll_offset,
                ..*old(self)
            }),
            old(self).wf() ==> final(self).wf(),
    {
        let s = self.join_hint();
        let v = text::chars_of(s.as_str());
        if v.len() == 0 {
            return;
        }
        let mut new = to_lines(s.as_str());
        proof {
            assert(lines::text(new@).len() == new@.len());
        }
        attach_lines(&mut self.lines, &mut new);
        assert(self.text().len() == self.lines@.len());
        self.set_cursor(Pos::max());
        self.fix_cursor(view);
        self.hint = None;
    }

    /// Starts with some contents and a cursor in the first line.
    pub fn with_initial(self, s: &str, cursor_pos: usize, view: Viewport) -> (r: Self)
        ensures
            r.text() == lines::lines_of(s@),
            lines::text_chars(r.text()) == s@,
            r.cursor == (Cursor {
                pos: Pos { row: 0, col: line::least(cursor_pos as int, s.len() as int) as usize },
                exclusive: self.cursor.exclusive,
            }),
            r.concat_points@.len() == 0,
            r.scroll_offset == rescrolled(
                self.scroll_offset,
                fixed_pos(r.text(), self.cursor).row,
                r.text(),
                self.hinted(),
                view,
            ),
            r == (LineBuf {
                lines: r.lines,
                cursor: r.cursor,
                scroll_offset: r.scroll_offset,
                concat_points: r.concat_points,
                ..self
            }),
            r.wf(),
    {
        let mut b = self;
        b.set_buffer(s, view);
        b.cursor.pos = Pos { row: 0, col: lesser(cursor_pos, s.len()) };
        b
    }

    /// Moves the cursor to the end of the buffer.
    pub fn move_cursor_to_end(&mut self)
        requires
            old(self).lines@.len() > 0,
        ensures
            *final(self) == (LineBuf {
                cursor: Cursor {
                    pos: words::bounded(
                        old(self).text(),
                        Pos { row: usize::MAX, col: usize::MAX },
                        false,
                    ),
                    exclusive: old(self).cursor.exclusive,
                },
                ..*old(self)
            }),
            final(self).wf(),
    {
        self.set_cursor(Pos::max());
    }

    /// The largest cursor offset: the length of a single line, the number of
    /// graphemes of several.
    pub fn cursor_max(&self) -> (r: usize)
        ensures
            r == if self.text().len() == 1 {
                self.text()[0].len() as usize
            } else {
                line::capped(lines::count(self.text()))
            },
    {
        if self.lines.len() == 1 {
            assert(self.text()[0] == self.lines@[0]@);
            self.lines[0].len()
        } else {
            self.count_graphemes()
        }
    }

    /// Whether the cursor is at the end of the buffer.
    pub fn cursor_at_max(&self) -> (r: bool)
        requires
            self.lines@.len() > 0,
        ensures
            r == ({
                let t = self.text();
                let last = t.len() - 1;
                let max = if self.cursor.exclusive {
                    words::last_col(t, last)
                } else {
                    t[last].len() as int
                };
                self.cursor.pos.row == last && self.cursor.pos.col >= max
            }),
    {
        let last: usize = self.lines.len() - 1;
        assert(self.text()[last as int] == self.lines@[last as int]@);
        let n: usize = self.lines[last].len();
        let max: usize = if self.cursor.exclusive {
            n.saturating_sub(1)
        } else {
            n
        };
        self.cursor.pos.row == last && self.cursor.pos.col >= max
    }

    /// Sets whether the cursor has to stand on a grapheme.
    pub fn set_cursor_clamp(&mut self, exclusive: bool)
        ensures
            *final(self) == (LineBuf {
                cursor: Cursor { pos: old(self).cursor.pos, exclusive },
                ..*old(self)
            }),
    {
        self.cursor.exclusive = exclusive;
    }

    /// The flat offset of the start of the cursor's line.
    pub fn start_of_line(&self) -> (r: usize)
        requires
            self.wf(),
            lines::places(self.text()) <= usize::MAX,
        ensures
            r == lines::places(self.text().take(self.cursor.pos.row as int)),
    {
        self.row_start(self.cursor.pos.row)
    }

    fn row_start(&self, row: usize) -> (r: usize)
        requires
            row < self.lines@.len(),
            lines::places(self.text()) <= usize::MAX,
        ensures
            r == lines::places(self.text().take(row as int)),
    {
        let ghost t = self.text();
        let mut off: usize = 0;
        let mut i: usize = 0;
        assert(t.take(0) =~= Seq::<Seq<Seq<char>>>::empty());
        while i < row
            invariant
                i <= row < self.lines@.len(),
                t == self.text(),
                lines::places(t) <= usize::MAX,
                off == lines::places(t.take(i as int)),
            decreases row - i,
        {
            assert(t[i as int] == self.lines@[i as int]@);
            proof {
                lemma_places_step(t, i as int);
                lemma_places_bound(t, i + 1);
            }
            off = off + self.lines[i].len() + 1;
            i = i + 1;
        }
        off
    }

    /// Whether the cursor is on the last line.
    pub fn on_last_line(&self) -> (r: bool)
        ensures
            r == (self.cursor.pos.row == pos::last_index(self.text().len())),
    {
        assert(self.text().len() == self.lines@.len());
        self.cursor.pos.row == self.lines.len().saturating_sub(1)
    }

    /// The text before the cursor.
    pub fn slice_to_cursor(&self) -> (r: String)
        requires
            self.wf(),
        ensures
            r@ == lines::text_chars(lines::before(self.text(), self.cursor.pos)),
    {
        let mut l = clone_lines(&self.lines);
        assert(lines::text(l@).len() == l@.len());
        assert(self.text().len() == self.lines@.len());
        split_lines_at(&mut l, self.cursor.pos);
        join_lines(l.as_slice())
    }

    /// The text in view before the cursor.
    pub fn window_slice_to_cursor(&self) -> (r: String)
        requires
            self.wf(),
            self.scroll_offset <= self.cursor.pos.row,
        ensures
            r@ == lines::text_chars(
                lines::before(self.text(), self.cursor.pos).skip(self.scroll_offset as int),
            ),
    {
        let mut l = clone_lines(&self.lines);
        assert(lines::text(l@).len() == l@.len());
        assert(self.text().len() == self.lines@.len());
        split_lines_at(&mut l, self.cursor.pos);
        let ghost b = lines::text(l@);
        assert(b.len() == l@.len());
        assert(b == lines::before(self.text(), self.cursor.pos));
        let w = l.split_off(self.scroll_offset);
        assert(lines::text(w@) =~= b.skip(self.scroll_offset as int));
        join_lines(w.as_slice())
    }

    pub fn start_char_select(&mut self)
        ensures
            *final(self) == (LineBuf {
                select_mode: Some(SelectMode::Char(old(self).cursor.pos)),
                ..*old(self)
            }),
    {
        self.select_mode = Some(SelectMode::Char(self.cursor.pos));
    }

    pub fn start_line_select(&mut self)
        ensures
            *final(self) == (LineBuf {
                select_mode: Some(SelectMode::Line(old(self).cursor.pos)),
                ..*old(self)
            }),
    {
        self.select_mode = Some(SelectMode::Line(self.cursor.pos));
    }

    pub fn start_block_select(&mut self)
        ensures
            *final(self) == (LineBuf {
                select_mode: Some(SelectMode::Block(old(self).cursor.pos)),
                ..*old(self)
            }),
    {
        self.select_mode = Some(SelectMode::Block(self.cursor.pos));
    }

    /// Stops selecting and remembers the selection.
    pub fn stop_selecting(&mut self)
        ensures
            *final(self) == (LineBuf {
                select_mode: None,
                last_selection: match old(self).select_mode {
                    Some(m) => Some((m, anchor_of(m))),
                    None => old(self).last_selection,
                },
                ..*old(self)
            }),
    {
        if let Some(m) = self.select_mode {
            let a = match m {
                SelectMode::Char(p) => p,
                SelectMode::Line(p) => p,
                SelectMode::Block(p) => p,
            };
            self.last_selection = Some((m, a));
        }
        self.select_mode = None;
    }

    /// The range that is selected.
    pub fn select_range(&self) -> (r: Option<Motion>)
        ensures
            r == selected_range(self.select_mode, self.cursor.pos),
    {
        match self.select_mode {
            None => None,
            Some(SelectMode::Char(p)) => {
                let (s, e) = ordered_pos(self.cursor.pos, p);
                Some(Motion::CharRange(s, e))
            },
            Some(SelectMode::Line(p)) => {
                let (s, e) = ordered_rows(self.cursor.pos.row, p.row);
                Some(Motion::LineRange(s, e))
            },
            Some(SelectMode::Block(p)) => {
                let (s, e) = ordered_pos(self.cursor.pos, p);
                Some(Motion::BlockRange(s, e))
            },
        }
    }

    /// How many places stand before a position. A row past the last counts as
    /// the last.
    pub fn pos_to_flat(&self, p: Pos) -> (r: usize)
        requires
            self.lines@.len() > 0,
            lines::places(self.text()) <= usize::MAX,
        ensures
            r == ({
                let q = words::bounded(self.text(), p, false);
                lines::places(self.text().take(q.row as int)) + q.col
            }),
    {
        let ghost t = self.text();
        let q = bound_pos(&self.lines, p, false);
        let start = self.row_start(q.row);
        proof {
            assert(t[q.row as int] == self.lines@[q.row as int]@);
            lemma_places_step(t, q.row as int);
            lemma_places_bound(t, q.row + 1);
        }
        start + q.col
    }

    /// The position that many places from the start, or the end of the text.
    pub fn pos_from_flat(&self, flat: usize) -> (r: Pos)
        requires
            self.lines@.len() > 0,
        ensures
            r == unflat(self.text(), flat as int),
    {
        let ghost t = self.text();
        let mut n: usize = flat;
        let mut i: usize = 0;
        while i < self.lines.len()
            invariant
                i <= self.lines@.len(),
                t == self.text(),
                t.len() > 0,
                unflat_from(t, 0, flat as int) == unflat_from(t, i as int, n as int),
            decreases self.lines@.len() - i,
        {
            assert(t[i as int] == self.lines@[i as int]@);
            let len: usize = self.lines[i].len();
            if n <= len {
                return Pos { row: i, col: n };
            }
            n = n - len - 1;
            i = i + 1;
        }
        let last: usize = self.lines.len() - 1;
        assert(t.last() == self.lines@[last as int]@);
        Pos { row: last, col: self.lines[last].len() }
    }

    /// How many places stand before the cursor, as far as a `usize` goes.
    pub fn cursor_to_flat(&self) -> (r: usize)
        requires
            self.lines@.len() > 0,
        ensures
            r == flat_capped(self.text(), self.cursor.pos),
    {
        self.flat_of(self.cursor.pos)
    }

    /// How many places stand before a position, as far as a `usize` goes.
    pub fn flat_of(&self, p: Pos) -> (r: usize)
        requires
            self.lines@.len() > 0,
        ensures
            r == flat_capped(self.text(), p),
    {
        let ghost t = self.text();
        assert(t.len() == self.lines@.len());
        let q = bound_pos(&self.lines, p, false);
        let mut n: usize = 0;
        let mut i: usize = 0;
        assert(t.take(0) =~= Seq::<Seq<Seq<char>>>::empty());
        while i < q.row
            invariant
                i <= q.row < self.lines@.len(),
                t == self.text(),
                t.len() == self.lines@.len(),
                n == line::capped(lines::places(t.take(i as int))),
            decreases q.row - i,
        {
            proof {
                lemma_places_step(t, i as int);
                assert(t[i as int] == self.lines@[i as int]@);
            }
            n = n.saturating_add(self.lines[i].len()).saturating_add(1);
            i = i + 1;
        }
        n.saturating_add(q.col)
    }

    /// Moves the cursor that many places from the start.
    pub fn set_cursor_from_flat(&mut self, flat: usize, view: Viewport)
        requires
            old(self).lines@.len() > 0,
        ensures
            final(self).text() == old(self).text(),
            final(self).cursor == (Cursor {
                pos: fixed_pos(
                    old(self).text(),
                    Cursor {
                        pos: unflat(old(self).text(), flat as int),
                        exclusive: old(self).cursor.exclusive,
                    },
                ),
                exclusive: old(self).cursor.exclusive,
            }),
            final(self).scroll_offset == rescrolled(
                old(self).scroll_offset,
                final(self).cursor.pos.row,
                final(self).text(),
                old(self).hinted(),
                view,
            ),
            *final(self) == (LineBuf {
                lines: final(self).lines,
                cursor: final(self).cursor,
                scroll_offset: final(self).scroll_offset,
                ..*old(self)
            }),
            final(self).wf(),
    {
        assert(self.text().len() == self.lines@.len());
        self.cursor.pos = self.pos_from_flat(flat);
        self.fix_cursor(view);
    }

    /// Whether a backslash stands before the cursor.
    pub fn cursor_is_escaped(&self) -> (r: bool)
        requires
            self.wf(),
        ensures
            r == ({
                let row = self.text()[self.cursor.pos.row as int];
                0 < self.cursor.pos.col <= row.len() && row[self.cursor.pos.col - 1] == seq!['\\']
            }),
    {
        let row: usize = self.cursor.pos.row;
        let col: usize = self.cursor.pos.col;
        assert(self.text()[row as int] == self.lines@[row as int]@);
        if col == 0 || col > self.lines[row].len() {
            return false;
        }
        self.lines[row].at(col - 1).is_char('\\')
    }

    /// Takes the text out of the buffer.
    pub fn take_buf(&mut self) -> (r: String)
        ensures
            r@ == lines::text_chars(old(self).text()),
            final(self).text() == seq![Seq::<Seq<char>>::empty()],
            final(self).cursor == (Cursor {
                pos: Pos { row: 0, col: 0 },
                exclusive: old(self).cursor.exclusive,
            }),
            *final(self) == (LineBuf {
                lines: final(self).lines,
                cursor: final(self).cursor,
                ..*old(self)
            }),
            final(self).wf(),
    {
        let s = self.joined();
        let mut l: Vec<Line> = Vec::new();
        l.push(Line::default());
        self.lines = l;
        assert(self.text() =~= seq![Seq::<Seq<char>>::empty()]);
        self.cursor.pos = Pos { row: 0, col: 0 };
        s
    }

    pub fn mark_insert_mode_start_pos(&mut self)
        ensures
            *final(self) == (LineBuf {
                insert_mode_start_pos: Some(old(self).cursor.pos),
                ..*old(self)
            }),
    {
        self.insert_mode_start_pos = Some(self.cursor.pos);
    }

    pub fn clear_insert_mode_start_pos(&mut self)
        ensures
            *final(self) == (LineBuf { insert_mode_start_pos: None, ..*old(self) }),
    {
        self.insert_mode_start_pos = None;
    }
}

/// The remembered column, or the one given.
pub open spec fn kept_col(saved: Option<usize>, col: usize) -> usize {
    match saved {
        Some(c) => c,
        None => col,
    }
}

/// The anchor of a selection.
pub open spec fn anchor_of(m: SelectMode) -> Pos {
    match m {
        SelectMode::Char(p) => p,
        SelectMode::Line(p) => p,
        SelectMode::Block(p) => p,
    }
}

/// The range of a selection whose other end is the cursor.
pub open spec fn selected_range(m: Option<SelectMode>, cursor: Pos) -> Option<Motion> {
    match m {
        None => None,
        Some(SelectMode::Char(p)) => Some(
            Motion::CharRange(pos::pos_min(cursor, p), pos::pos_max(cursor, p)),
        ),
        Some(SelectMode::Line(p)) => Some(
            if cursor.row > p.row {
                Motion::LineRange(p.row, cursor.row)
            } else {
                Motion::LineRange(cursor.row, p.row)
            },
        ),
        Some(SelectMode::Block(p)) => Some(
            Motion::BlockRange(pos::pos_min(cursor, p), pos::pos_max(cursor, p)),
        ),
    }
}

/// A text with at least one line.
pub open spec fn fixed_text(t: Text) -> Text {
    if t.len() == 0 {
        seq![Seq::<Seq<char>>::empty()]
    } else {
        t
    }
}

/// A cursor that stands on the text, before its end if it is exclusive.
pub open spec fn fixed_pos(t: Text, c: Cursor) -> Pos {
    words::bounded(t, c.pos, c.exclusive)
}

/// The hint that a longer text gives.
pub open spec fn offered(have: Seq<char>, longer: Option<Seq<char>>) -> Option<Text> {
    match longer {
        Some(s) if text::has_prefix(s, have) && s.len() > have.len() => Some(
            lines::lines_of(s.skip(have.len() as int)),
        ),
        _ => None,
    }
}

/// What becomes of the text and the hint when the hint is accepted up to and
/// with a position.
pub open spec fn accepted(t: Text, h: Option<Text>, target: Pos) -> (Text, Option<Text>) {
    match h {
        None => (t, None),
        Some(x) => {
            let all = lines::attached(t, x);
            let p = words::bounded(all, crate::linebuf::scan::next_col(target), false);
            let rest = lines::after(all, p);
            (
                lines::before(all, p),
                if any_row(rest) {
                    Some(rest)
                } else {
                    None
                },
            )
        },
    }
}

/// Whether some line holds a grapheme.
pub fn any_line(v: &Vec<Line>) -> (r: bool)
    ensures
        r == any_row(lines::text(v@)),
{
    let ghost t = lines::text(v@);
    let mut i: usize = 0;
    while i < v.len()
        invariant
            i <= v@.len(),
            t == lines::text(v@),
            forall|j: int| 0 <= j < i ==> (#[trigger] t[j]).len() == 0,
        decreases v@.len() - i,
    {
        assert(t[i as int] == v@[i as int]@);
        if !v[i].is_empty() {
            assert(t[i as int].len() > 0);
            return true;
        }
        i = i + 1;
    }
    false
}

/// How many graphemes some lines hold.
pub fn count_of(v: &Vec<Line>) -> (r: usize)
    ensures
        r == line::capped(lines::count(lines::text(v@))),
{
    let ghost t = lines::text(v@);
    let mut n: usize = 0;
    let mut i: usize = 0;
    while i < v.len()
        invariant
            i <= v@.len(),
            t == lines::text(v@),
            n == line::capped(lines::count(t.take(i as int))),
        decreases v@.len() - i,
    {
        assert(t[i as int] == v@[i as int]@);
        assert(t.take(i + 1).drop_last() =~= t.take(i as int));
        n = n.saturating_add(v[i].len());
        i = i + 1;
    }
    assert(t.take(i as int) =~= t);
    n
}

} // verus!
