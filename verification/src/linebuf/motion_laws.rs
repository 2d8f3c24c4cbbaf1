//! Where the motions lead, said of the rows and columns of the text.

use crate::editcmd::Bound;
use crate::editcmd::Dest;
use crate::editcmd::Direction;
use crate::editcmd::Motion;
use crate::editcmd::TextObj;
use crate::editcmd::To;
use crate::editcmd::Verb;
use crate::editcmd::Word;
use crate::linebuf::buffer;
use crate::linebuf::line;
use crate::linebuf::line::Grapheme;
use crate::linebuf::lines::Text;
use crate::linebuf::motion;
use crate::linebuf::pos::Cursor;
use crate::linebuf::pos::MotionKind;
use crate::linebuf::pos::Pos;
use crate::linebuf::scan;
use crate::linebuf::scan::Glyphs;
use crate::linebuf::word_laws;
use crate::linebuf::words;
use crate::unicode;
use vstd::prelude::*;

verus! {

/// Whether the cursor stands on a row of the text, no further than it may.
pub open spec fn placed(t: Text, c: Cursor) -> bool {
    &&& word_laws::countable(t)
    &&& motion::measurable(t)
    &&& t.len() <= isize::MAX
    &&& c.pos.row < t.len()
    &&& c.pos.col <= t[c.pos.row as int].len()
    &&& c.exclusive && t[c.pos.row as int].len() > 0 ==> c.pos.col < t[c.pos.row as int].len()
}

proof fn lemma_first_gr(row: Seq<Seq<char>>, i: int, g: Seq<char>)
    requires
        0 <= i,
    ensures
        ({
            let k = motion::gr_from(row, i, g);
            &&& i <= row.len() ==> i <= k <= row.len()
            &&& i > row.len() ==> k == row.len()
            &&& k < row.len() ==> row[k] == g
            &&& forall|x: int| i <= x < k ==> #[trigger] row[x] != g
        }),
    decreases row.len() - i,
{
    if i < row.len() && row[i] != g {
        lemma_first_gr(row, i + 1, g);
    }
}

proof fn lemma_last_gr(row: Seq<Seq<char>>, i: int, g: Seq<char>)
    requires
        0 <= i <= row.len(),
    ensures
        ({
            let k = motion::gr_before(row, i, g);
            &&& -1 <= k < i || (k == -1 && i == 0)
            &&& k >= 0 ==> row[k] == g
            &&& forall|x: int| k < x < i ==> #[trigger] row[x] != g
        }),
    decreases i,
{
    if i > 0 && row[i - 1] != g {
        lemma_last_gr(row, i - 1, g);
    }
}

/// `f` goes to the next grapheme of its kind in the row and `F` to the one before, and
/// they find nothing only where there is none. The place belongs to the span.
pub proof fn f_goes_to_the_nearest(
    t: Text,
    c: Cursor,
    kept: Option<usize>,
    half: isize,
    verb: Option<Verb>,
    count: usize,
    dir: Direction,
    g: Grapheme,
)
    requires
        placed(t, c),
        c.pos.col < t[c.pos.row as int].len(),
    ensures
        ({
            let row = t[c.pos.row as int];
            let col = c.pos.col as int;
            match motion::motion_span(
                t,
                c,
                kept,
                half,
                verb,
                count,
                Motion::CharSearch(dir, Dest::On, g),
            ) {
                Some(m) => {
                    &&& m matches MotionKind::Char { start, end, inclusive }
                    &&& inclusive && start == c.pos && end.row == c.pos.row
                    &&& end.col < row.len() && row[end.col as int] == g@
                    &&& if dir == Direction::Forward {
                        col < end.col && forall|x: int|
                            col < x < end.col ==> #[trigger] row[x] != g@
                    } else {
                        end.col < col && forall|x: int|
                            end.col < x < col ==> #[trigger] row[x] != g@
                    }
                },
                None => forall|x: int|
                    0 <= x < row.len() && #[trigger] row[x] == g@ ==> if dir
                        == Direction::Forward {
                        x <= col
                    } else {
                        x >= col
                    },
            }
        }),
{
    let row = t[c.pos.row as int];
    lemma_first_gr(row, c.pos.col + 1, g@);
    lemma_last_gr(row, c.pos.col as int, g@);
}

/// `t` goes right before the next grapheme of its kind in the row and `T` right behind the
/// one before. They find nothing only where there is none, or where they are there
/// already.
pub proof fn t_goes_next_to_the_nearest(
    t: Text,
    c: Cursor,
    kept: Option<usize>,
    half: isize,
    verb: Option<Verb>,
    count: usize,
    dir: Direction,
    g: Grapheme,
)
    requires
        placed(t, c),
        c.pos.col < t[c.pos.row as int].len(),
    ensures
        ({
            let row = t[c.pos.row as int];
            let col = c.pos.col as int;
            match motion::motion_span(
                t,
                c,
                kept,
                half,
                verb,
                count,
                Motion::CharSearch(dir, Dest::Before, g),
            ) {
                Some(m) => {
                    &&& m matches MotionKind::Char { start, end, inclusive }
                    &&& inclusive && start == c.pos && end.row == c.pos.row
                    &&& if dir == Direction::Forward {
                        &&& col < end.col && end.col + 1 < row.len() && row[end.col + 1] == g@
                        &&& forall|x: int| col < x <= end.col ==> #[trigger] row[x] != g@
                    } else {
                        &&& 0 < end.col < col && row[end.col - 1] == g@
                        &&& forall|x: int| end.col <= x < col ==> #[trigger] row[x] != g@
                    }
                },
                None => if dir == Direction::Forward {
                    (col + 1 < row.len() && row[col + 1] == g@) || forall|x: int|
                        col < x < row.len() ==> #[trigger] row[x] != g@
                } else {
                    (col > 0 && row[col - 1] == g@) || forall|x: int|
                        0 <= x < col ==> #[trigger] row[x] != g@
                },
            }
        }),
{
    let row = t[c.pos.row as int];
    lemma_first_gr(row, c.pos.col + 1, g@);
    lemma_last_gr(row, c.pos.col as int, g@);
}

/// What a motion of the cursor alone leads to: the end of its span, or where it was.
pub open spec fn led_to(c: Cursor, m: Option<MotionKind>) -> Option<Pos> {
    match m {
        None => Some(c.pos),
        Some(MotionKind::Char { start, end, inclusive }) => if start == c.pos {
            Some(end)
        } else {
            None
        },
        Some(_) => None,
    }
}

/// The furthest column of a row that the cursor may take.
pub open spec fn furthest(t: Text, c: Cursor, row: int) -> int {
    if c.exclusive && t[row].len() > 0 {
        t[row].len() - 1
    } else {
        t[row].len() as int
    }
}

/// `0` leads to the first column of the row and `$` to the last that the cursor may take.
/// What `0` goes over ends before the cursor, and what `$` goes over includes its end.
pub proof fn line_ends_are_reached(
    t: Text,
    c: Cursor,
    kept: Option<usize>,
    half: isize,
    verb: Option<Verb>,
    count: usize,
)
    requires
        placed(t, c),
    ensures
        ({
            let row = c.pos.row;
            let home = motion::motion_span(t, c, kept, half, verb, count, Motion::StartOfLine);
            let end = motion::motion_span(t, c, kept, half, verb, count, Motion::EndOfLine);
            &&& led_to(c, home) == Some(Pos { row, col: 0 })
            &&& home matches Some(MotionKind::Char { start, end, inclusive }) ==> !inclusive
            &&& led_to(c, end) == Some(
                Pos { row, col: furthest(t, c, row as int) as usize },
            )
            &&& end matches Some(MotionKind::Char { start, end, inclusive }) ==> inclusive
        }),
{
}

/// `h` and `l` lead by their count along the row, no further than the cursor may go.
pub proof fn h_and_l_stay_in_the_row(
    t: Text,
    c: Cursor,
    kept: Option<usize>,
    half: isize,
    verb: Option<Verb>,
    count: usize,
)
    requires
        placed(t, c),
        count <= isize::MAX,
    ensures
        ({
            let row = c.pos.row;
            let left = motion::motion_span(t, c, kept, half, verb, count, Motion::BackwardChar);
            let right = motion::motion_span(t, c, kept, half, verb, count, Motion::ForwardChar);
            let max = furthest(t, c, row as int);
            &&& led_to(c, left) == Some(
                Pos {
                    row,
                    col: (if count <= c.pos.col {
                        c.pos.col - count
                    } else {
                        0
                    }) as usize,
                },
            )
            &&& led_to(c, right) == Some(
                Pos {
                    row,
                    col: (if c.pos.col + count <= max {
                        c.pos.col + count
                    } else {
                        max
                    }) as usize,
                },
            )
            &&& left matches Some(MotionKind::Char { start, end, inclusive }) ==> !inclusive
            &&& right matches Some(MotionKind::Char { start, end, inclusive }) ==> !inclusive
        }),
{
}

/// `j` leads down and `k` up by their count, no further than the text goes, to the column
/// that is kept, as far as the row has it. For a verb they go over whole rows, from the
/// first to the last.
pub proof fn j_and_k_go_by_rows(
    t: Text,
    c: Cursor,
    kept: Option<usize>,
    half: isize,
    verb: Verb,
    count: usize,
)
    requires
        placed(t, c),
        count <= isize::MAX,
    ensures
        ({
            let up = (if count <= c.pos.row {
                c.pos.row - count
            } else {
                0
            }) as usize;
            let down = (if c.pos.row + count < t.len() {
                c.pos.row + count
            } else {
                t.len() - 1
            }) as usize;
            let want = match kept {
                Some(k) => k,
                None => c.pos.col,
            };
            let col_in = |r: usize|
                (if want <= furthest(t, c, r as int) {
                    want as int
                } else {
                    furthest(t, c, r as int)
                }) as usize;
            &&& led_to(c, motion::motion_span(t, c, kept, half, None, count, Motion::LineUp))
                == Some(Pos { row: up, col: col_in(up) })
            &&& led_to(c, motion::motion_span(t, c, kept, half, None, count, Motion::LineDown))
                == Some(Pos { row: down, col: col_in(down) })
            &&& motion::motion_span(t, c, kept, half, Some(verb), count, Motion::LineUp) == Some(
                MotionKind::Line { start: up, end: c.pos.row, inclusive: true },
            )
            &&& motion::motion_span(t, c, kept, half, Some(verb), count, Motion::LineDown)
                == Some(MotionKind::Line { start: c.pos.row, end: down, inclusive: true })
        }),
{
}

/// The start of the buffer is its first row and the end its last.
pub proof fn buffer_ends_are_reached(t: Text, c: Cursor, kept: Option<usize>, half: isize, count: usize)
    requires
        placed(t, c),
    ensures
        ({
            let home = led_to(
                c,
                motion::motion_span(t, c, kept, half, None, count, Motion::StartOfBuffer),
            );
            let end = led_to(
                c,
                motion::motion_span(t, c, kept, half, None, count, Motion::EndOfBuffer),
            );
            let col_in = |r: int|
                if c.pos.col <= furthest(t, c, r) {
                    c.pos.col as int
                } else {
                    furthest(t, c, r)
                };
            &&& home == Some(Pos { row: 0, col: col_in(0) as usize })
            &&& end == Some(
                Pos { row: (t.len() - 1) as usize, col: col_in(t.len() - 1) as usize },
            )
        }),
{
}

/// A doubled verb goes over as many whole rows as its count says, from the cursor's on.
pub proof fn whole_lines_are_counted(
    t: Text,
    c: Cursor,
    kept: Option<usize>,
    half: isize,
    verb: Option<Verb>,
    count: usize,
)
    requires
        placed(t, c),
        count > 0,
    ensures
        motion::motion_span(t, c, kept, half, verb, count, Motion::WholeLine) matches Some(
            MotionKind::Line { start, end, inclusive },
        ) && inclusive && start == c.pos.row && end == (if c.pos.row + count <= t.len() {
            c.pos.row + count - 1
        } else {
            t.len() - 1
        }),
{
}

/// A column counts from one, and is in the span where it is ahead.
pub proof fn columns_count_from_one(
    t: Text,
    c: Cursor,
    kept: Option<usize>,
    half: isize,
    verb: Option<Verb>,
    count: usize,
)
    requires
        count > 0,
    ensures
        motion::motion_span(t, c, kept, half, verb, count, Motion::ToColumn) matches Some(
            MotionKind::Char { start, end, inclusive },
        ) && start == c.pos && end.row == c.pos.row && end.col + 1 == count && inclusive == (
        c.pos.col < end.col),
{
}

proof fn lemma_first_solid(row: Seq<Seq<char>>, i: int)
    requires
        0 <= i < row.len(),
    ensures
        ({
            let k = motion::first_solid(row, i);
            &&& i <= k < row.len()
            &&& forall|x: int| i <= x < k ==> line::is_space(#[trigger] row[x])
            &&& line::is_space(row[k]) ==> k + 1 == row.len()
        }),
    decreases row.len() - i,
{
    if i + 1 < row.len() && line::is_space(row[i]) {
        lemma_first_solid(row, i + 1);
    }
}

proof fn lemma_last_solid(row: Seq<Seq<char>>)
    ensures
        ({
            let k = motion::last_solid(row);
            &&& 0 <= k && (row.len() > 0 ==> k < row.len())
            &&& forall|x: int| k < x < row.len() ==> line::is_space(#[trigger] row[x])
            &&& row.len() > 0 && line::is_space(row[k]) ==> k == 0
        }),
    decreases row.len(),
{
    if row.len() > 0 && line::is_space(row.last()) {
        let d = row.drop_last();
        lemma_last_solid(d);
        let k = motion::last_solid(row);
        assert forall|x: int| k < x < row.len() implies line::is_space(#[trigger] row[x]) by {
            if x < d.len() {
                assert(d[x] == row[x]);
            }
        }
        if d.len() > 0 {
            assert(d[k] == row[k]);
        }
    }
}

/// `^` leads to the first grapheme of the row that is no whitespace, and `g_` to the last.
pub proof fn solid_ends_are_reached(
    t: Text,
    c: Cursor,
    kept: Option<usize>,
    half: isize,
    verb: Option<Verb>,
)
    requires
        placed(t, c),
        exists|x: int|
            0 <= x < t[c.pos.row as int].len() && !line::is_space(
                #[trigger] t[c.pos.row as int][x],
            ),
    ensures
        ({
            let row = t[c.pos.row as int];
            let first = led_to(
                c,
                motion::motion_span(t, c, kept, half, verb, 1, Motion::StartOfFirstWord),
            );
            let last = led_to(
                c,
                motion::motion_span(t, c, kept, half, verb, 1, Motion::EndOfLastWord),
            );
            &&& first is Some && (first->0).row == c.pos.row && (first->0).col < row.len()
            &&& !line::is_space(row[(first->0).col as int])
            &&& forall|x: int| 0 <= x < (first->0).col ==> line::is_space(#[trigger] row[x])
            &&& last is Some && (last->0).row == c.pos.row && (last->0).col < row.len()
            &&& !line::is_space(row[(last->0).col as int])
            &&& forall|x: int|
                (last->0).col < x < row.len() ==> line::is_space(#[trigger] row[x])
        }),
{
    let row = t[c.pos.row as int];
    let y = choose|x: int| 0 <= x < row.len() && !line::is_space(#[trigger] row[x]);
    lemma_first_solid(row, 0);
    lemma_last_solid(row);
}

/// A word motion goes over the text from the cursor to the place that it finds. For a verb
/// it leaves that place out, unless it goes to the end of a word.
pub proof fn words_are_gone_over(
    t: Text,
    c: Cursor,
    kept: Option<usize>,
    half: isize,
    verb: Option<Verb>,
    to: To,
    word: Word,
    dir: Direction,
    p: Pos,
)
    requires
        placed(t, c),
        word_laws::found_by(t, to, word, dir, c.pos) == Some(p),
        word_laws::inked(t, p),
        to == To::Start && dir == Direction::Forward ==> !(verb is Some && verb->0 is Change),
    ensures
        motion::motion_span(t, c, kept, half, verb, 1, Motion::WordMotion(to, word, dir)) == Some(
            MotionKind::Char {
                start: c.pos,
                end: p,
                inclusive: verb is None || to == To::End,
            },
        ),
{
    reveal_with_fuel(words::word_steps, 2);
}

/// A change of a word from a place on it leaves the whitespace behind the word alone.
pub proof fn a_change_leaves_the_whitespace(
    t: Text,
    c: Cursor,
    kept: Option<usize>,
    half: isize,
)
    requires
        placed(t, c),
        word_laws::inked(t, c.pos),
    ensures
        ({
            let row = t[c.pos.row as int];
            let k = word_laws::class_in(t, c.pos.row as int, c.pos.col as int);
            motion::motion_span(
                t,
                c,
                kept,
                half,
                Some(Verb::Change),
                1,
                Motion::WordMotion(To::Start, Word::Normal, Direction::Forward),
            ) matches Some(MotionKind::Char { start, end, inclusive }) && {
                &&& start == c.pos && end.row == c.pos.row && c.pos.col <= end.col
                &&& forall|x: int|
                    c.pos.col <= x < end.col && x < row.len() ==> #[trigger] word_laws::class_in(
                        t,
                        c.pos.row as int,
                        x,
                    ) == k
                &&& inclusive && end.col < row.len() ==> word_laws::class_in(
                    t,
                    c.pos.row as int,
                    end.col as int,
                ) == k
                &&& !inclusive ==> end.col < row.len() && word_laws::class_in(
                    t,
                    c.pos.row as int,
                    end.col as int,
                ) != k
            }
        }),
{
    reveal_with_fuel(words::word_steps, 2);
    word_laws::a_change_takes_the_word_alone(t, c.pos);
}

/// The single character at a place, if there is one.
pub open spec fn mark_at(t: Text, p: Pos, ch: char) -> bool {
    word_laws::on(t, p) && t[p.row as int][p.col as int] == seq![ch]
}

spec fn glyphs_to(t: Text, row: int, col: int, q: Pos) -> int
    decreases q.row - row,
{
    if q.row <= row {
        q.col - col
    } else {
        (if col < t[row].len() {
            t[row].len() - col
        } else {
            0
        }) + glyphs_to(t, row + 1, 0, q)
    }
}

proof fn lemma_seen(t: Text, row: int, col: int, q: Pos)
    requires
        word_laws::countable(t),
        0 <= row <= q.row,
        0 <= col,
        word_laws::on(t, q),
        q.row == row ==> col <= q.col,
    ensures
        0 <= glyphs_to(t, row, col, q) < scan::glyphs(t, row, col).len(),
        scan::glyphs(t, row, col)[glyphs_to(t, row, col, q)] == (
            q,
            line::single(t[q.row as int][q.col as int]),
        ),
    decreases q.row - row,
{
    if q.row > row {
        lemma_seen(t, row + 1, 0, q);
    }
}

proof fn lemma_glyph(t: Text, row: int, col: int, i: int)
    requires
        word_laws::countable(t),
        0 <= row,
        0 <= col,
        0 <= i < scan::glyphs(t, row, col).len(),
    ensures
        ({
            let e = scan::glyphs(t, row, col)[i];
            &&& word_laws::on(t, e.0)
            &&& e.1 == line::single(t[e.0.row as int][e.0.col as int])
            &&& row <= e.0.row
            &&& e.0.row == row ==> col <= e.0.col
            &&& glyphs_to(t, row, col, e.0) == i
        }),
    decreases t.len() - row,
{
    let w = scan::row_glyphs(t, row, col);
    if i >= w.len() {
        lemma_glyph(t, row + 1, 0, i - w.len());
    }
}

proof fn lemma_seen_later(t: Text, row: int, col: int, a: Pos, b: Pos)
    requires
        word_laws::countable(t),
        0 <= row <= a.row,
        0 <= col,
        word_laws::on(t, a),
        word_laws::on(t, b),
        a.row == row ==> col <= a.col,
        word_laws::prior(a, b),
    ensures
        glyphs_to(t, row, col, a) < glyphs_to(t, row, col, b),
    decreases a.row - row,
{
    if a.row > row {
        lemma_seen_later(t, row + 1, 0, a, b);
    } else if b.row > row {
        lemma_seen(t, row + 1, 0, b);
    }
}

spec fn glyphs_back_to(t: Text, row: int, n: int, q: Pos) -> int
    decreases row - q.row,
{
    if q.row >= row {
        n - 1 - q.col
    } else {
        n + glyphs_back_to(t, row - 1, t[row - 1].len() as int, q)
    }
}

proof fn lemma_seen_back(t: Text, row: int, n: int, q: Pos)
    requires
        word_laws::countable(t),
        q.row <= row < t.len(),
        0 <= n <= t[row].len(),
        word_laws::on(t, q),
        q.row == row ==> q.col < n,
    ensures
        0 <= glyphs_back_to(t, row, n, q) < scan::glyphs_back(t, row, n).len(),
        scan::glyphs_back(t, row, n)[glyphs_back_to(t, row, n, q)] == (
            q,
            line::single(t[q.row as int][q.col as int]),
        ),
    decreases row - q.row,
{
    if q.row < row {
        lemma_seen_back(t, row - 1, t[row - 1].len() as int, q);
    }
}

proof fn lemma_glyph_back(t: Text, row: int, n: int, i: int)
    requires
        word_laws::countable(t),
        0 <= row < t.len(),
        0 <= n <= t[row].len(),
        0 <= i < scan::glyphs_back(t, row, n).len(),
    ensures
        ({
            let e = scan::glyphs_back(t, row, n)[i];
            &&& word_laws::on(t, e.0)
            &&& e.1 == line::single(t[e.0.row as int][e.0.col as int])
            &&& e.0.row <= row
            &&& e.0.row == row ==> e.0.col < n
            &&& glyphs_back_to(t, row, n, e.0) == i
        }),
    decreases row,
{
    let w = scan::row_glyphs_back(t, row, n);
    if i >= w.len() {
        lemma_glyph_back(t, row - 1, t[row - 1].len() as int, i - w.len());
    }
}

proof fn lemma_seen_earlier(t: Text, row: int, n: int, a: Pos, b: Pos)
    requires
        word_laws::countable(t),
        b.row <= row < t.len(),
        0 <= n <= t[row].len(),
        word_laws::on(t, a),
        word_laws::on(t, b),
        b.row == row ==> b.col < n,
        word_laws::prior(a, b),
    ensures
        glyphs_back_to(t, row, n, b) < glyphs_back_to(t, row, n, a),
    decreases row - b.row,
{
    if b.row < row {
        lemma_seen_earlier(t, row - 1, t[row - 1].len() as int, a, b);
    } else if a.row < row {
        lemma_seen_back(t, row - 1, t[row - 1].len() as int, a);
    }
}

proof fn lemma_first_char(s: Glyphs, i: int, ch: char)
    requires
        0 <= i <= s.len(),
    ensures
        ({
            let k = scan::first_char(s, i, ch);
            &&& i <= k <= s.len()
            &&& k < s.len() ==> s[k].1 == Some(ch)
            &&& forall|x: int| i <= x < k ==> (#[trigger] s[x]).1 != Some(ch)
        }),
    decreases s.len() - i,
{
    if i < s.len() && s[i].1 != Some(ch) {
        lemma_first_char(s, i + 1, ch);
    }
}

/// The first place from a position on that holds a character.
proof fn lemma_char_ahead(t: Text, p: Pos, ch: char)
    requires
        word_laws::countable(t),
        p.row < t.len(),
        p.col <= t[p.row as int].len(),
    ensures
        ({
            let s = scan::ahead(t, p);
            match scan::spot(s, scan::first_char(s, 0, ch)) {
                Some(q) => {
                    &&& mark_at(t, q, ch) && !word_laws::prior(q, p)
                    &&& forall|x: Pos| #[trigger]
                        mark_at(t, x, ch) && !word_laws::prior(x, p) ==> !word_laws::prior(x, q)
                },
                None => forall|x: Pos| #[trigger] mark_at(t, x, ch) ==> word_laws::prior(x, p),
            }
        }),
{
    let s = scan::ahead(t, p);
    let row = p.row as int;
    let col = p.col as int;
    assert(words::bounded(t, p, false) == p);
    lemma_first_char(s, 0, ch);
    let i = scan::first_char(s, 0, ch);
    if i < s.len() {
        lemma_glyph(t, row, col, i);
        let q = s[i].0;
        assert(t[q.row as int][q.col as int] =~= seq![ch]);
        assert forall|x: Pos| #[trigger]
            mark_at(t, x, ch) && !word_laws::prior(x, p) implies !word_laws::prior(x, q) by {
            lemma_seen(t, row, col, x);
            if word_laws::prior(x, q) {
                lemma_seen_later(t, row, col, x, q);
                assert(s[glyphs_to(t, row, col, x)].1 == Some(ch));
            }
        }
    } else {
        assert forall|x: Pos| #[trigger] mark_at(t, x, ch) implies word_laws::prior(x, p) by {
            if !word_laws::prior(x, p) {
                lemma_seen(t, row, col, x);
                assert(s[glyphs_to(t, row, col, x)].1 == Some(ch));
            }
        }
    }
}

/// The last place up to a position that holds a character.
proof fn lemma_char_behind(t: Text, p: Pos, ch: char)
    requires
        word_laws::countable(t),
        p.row < t.len(),
        p.col <= t[p.row as int].len(),
    ensures
        ({
            let s = scan::behind(t, p);
            match scan::spot(s, scan::first_char(s, 0, ch)) {
                Some(q) => {
                    &&& mark_at(t, q, ch) && !word_laws::prior(p, q)
                    &&& forall|x: Pos| #[trigger]
                        mark_at(t, x, ch) && !word_laws::prior(p, x) ==> !word_laws::prior(q, x)
                },
                None => forall|x: Pos| #[trigger] mark_at(t, x, ch) ==> word_laws::prior(p, x),
            }
        }),
{
    let s = scan::behind(t, p);
    let row = p.row as int;
    assert(words::bounded(t, p, false) == p);
    let n = line::least(p.col + 1, t[row].len() as int);
    lemma_first_char(s, 0, ch);
    let i = scan::first_char(s, 0, ch);
    if i < s.len() {
        lemma_glyph_back(t, row, n, i);
        let q = s[i].0;
        assert(t[q.row as int][q.col as int] =~= seq![ch]);
        assert forall|x: Pos| #[trigger]
            mark_at(t, x, ch) && !word_laws::prior(p, x) implies !word_laws::prior(q, x) by {
            lemma_seen_back(t, row, n, x);
            if word_laws::prior(q, x) {
                lemma_seen_earlier(t, row, n, q, x);
                assert(s[glyphs_back_to(t, row, n, x)].1 == Some(ch));
            }
        }
    } else {
        assert forall|x: Pos| #[trigger] mark_at(t, x, ch) implies word_laws::prior(p, x) by {
            if !word_laws::prior(p, x) {
                lemma_seen_back(t, row, n, x);
                assert(s[glyphs_back_to(t, row, n, x)].1 == Some(ch));
            }
        }
    }
}

/// Whether a quote is the one that a quoted object at a place begins with: the last up to
/// the place, or the first behind it where there is none.
pub open spec fn opens_at(t: Text, p: Pos, ch: char, o: Pos) -> bool {
    &&& mark_at(t, o, ch)
    &&& if word_laws::prior(p, o) {
        forall|x: Pos| #[trigger] mark_at(t, x, ch) ==> !word_laws::prior(x, o)
    } else {
        forall|x: Pos| #[trigger]
            mark_at(t, x, ch) && word_laws::prior(o, x) ==> word_laws::prior(p, x)
    }
}

/// A quoted object goes from the quote that it begins with to the next one: inside it are
/// all places between the two; around it are the quotes too, and the whitespace behind.
pub proof fn quotes_enclose(t: Text, p: Pos, ch: char)
    requires
        word_laws::countable(t),
        p.row < t.len(),
        p.col <= t[p.row as int].len(),
        forall|r: int| 0 <= r < t.len() ==> (#[trigger] t[r]).len() < usize::MAX,
    ensures
        match scan::quote_object(t, p, ch, Bound::Inside) {
            Some(m) => {
                &&& m matches MotionKind::Char { start, end, inclusive }
                &&& !inclusive && start.col > 0
                &&& opens_at(t, p, ch, Pos { row: start.row, col: (start.col - 1) as usize })
                &&& mark_at(t, end, ch) && !word_laws::prior(end, start)
                &&& forall|x: Pos| #[trigger]
                    mark_at(t, x, ch) && !word_laws::prior(x, start) ==> !word_laws::prior(x, end)
                &&& scan::quote_object(t, p, ch, Bound::Around) matches Some(
                    MotionKind::Char { start: s2, end: e2, inclusive: i2 },
                )
                &&& !i2
                &&& s2 == (Pos { row: start.row, col: (start.col - 1) as usize })
                &&& word_laws::prior(end, e2)
                &&& forall|x: Pos| #[trigger]
                    word_laws::inked(t, x) && word_laws::prior(end, x) ==> !word_laws::prior(x, e2)
                &&& word_laws::inked(t, e2) || forall|x: Pos| #[trigger]
                    word_laws::inked(t, x) ==> !word_laws::prior(end, x)
            },
            None => {
                &&& scan::quote_object(t, p, ch, Bound::Around) is None
                &&& forall|o: Pos, e: Pos|
                    #![trigger mark_at(t, o, ch), mark_at(t, e, ch)]
                    opens_at(t, p, ch, o) && mark_at(t, e, ch) ==> !word_laws::prior(o, e)
            },
        },
{
    lemma_char_ahead(t, p, ch);
    lemma_char_behind(t, p, ch);
    let b = scan::behind(t, p);
    let f = scan::ahead(t, p);
    let x = scan::either(
        scan::spot(b, scan::first_char(b, 0, ch)),
        scan::spot(f, scan::first_char(f, 0, ch)),
    );
    if x is Some {
        let o = x->0;
        assert(opens_at(t, p, ch, o));
        let s = scan::next_col(o);
        assert(s.col == o.col + 1);
        lemma_char_ahead(t, s, ch);
        let rest = scan::ahead(t, s);
        let y = scan::spot(rest, scan::first_char(rest, 0, ch));
        if y is Some {
            let e = y->0;
            let n = scan::next_col(e);
            assert(n.col == e.col + 1);
            word_laws::whitespace_is_left(t, n);
        } else {
            assert forall|o2: Pos, e: Pos|
                #![trigger mark_at(t, o2, ch), mark_at(t, e, ch)]
                opens_at(t, p, ch, o2) && mark_at(t, e, ch) implies !word_laws::prior(o2, e) by {
                if word_laws::prior(o2, e) {
                    assert(mark_at(t, o, ch));
                    assert(o2 == o);
                }
            }
        }
    }
}

/// How deep the first `k` graphemes nest.
pub open spec fn nesting(s: Glyphs, k: int, opener: char, closer: char) -> int
    decreases k,
{
    if k <= 0 {
        0
    } else {
        nesting(s, k - 1, opener, closer) + (if s[k - 1].1 == Some(opener) {
            1int
        } else if s[k - 1].1 == Some(closer) {
            -1
        } else {
            0
        })
    }
}

proof fn lemma_closing(s: Glyphs, i: int, d: int, opener: char, closer: char)
    requires
        0 <= i <= s.len(),
        opener != closer,
        d == nesting(s, i, opener, closer),
    ensures
        ({
            let k = scan::closing(s, i, d, opener, closer);
            &&& i <= k <= s.len()
            &&& k < s.len() ==> nesting(s, k + 1, opener, closer) == 0
            &&& forall|x: int| i < x <= k ==> #[trigger] nesting(s, x, opener, closer) != 0
        }),
    decreases s.len() - i,
{
    if i < s.len() {
        let e = scan::nested(d, s[i].1, opener, closer);
        assert(nesting(s, i + 1, opener, closer) == e);
        if e != 0 {
            lemma_closing(s, i + 1, e, opener, closer);
        }
    }
}

/// A bracketed object goes from an opener to the closer that ends the nesting which begins
/// with it, both of them around it and neither inside it.
pub proof fn brackets_enclose(t: Text, p: Pos, opener: char, closer: char)
    requires
        word_laws::countable(t),
        opener != closer,
        p.row < t.len(),
        p.col <= t[p.row as int].len(),
        forall|r: int| 0 <= r < t.len() ==> (#[trigger] t[r]).len() < usize::MAX,
    ensures
        match scan::delim_object(t, p, opener, closer, Bound::Around) {
            Some(m) => {
                &&& m matches MotionKind::Char { start, end, inclusive }
                &&& inclusive
                &&& mark_at(t, start, opener) && mark_at(t, end, closer)
                &&& word_laws::prior(start, end)
                &&& closes_at(t, start, opener, closer, end)
                &&& scan::delim_object(t, p, opener, closer, Bound::Inside) == Some(
                    MotionKind::Char {
                        start: Pos { row: start.row, col: (start.col + 1) as usize },
                        end,
                        inclusive: false,
                    },
                )
            },
            None => scan::delim_object(t, p, opener, closer, Bound::Inside) is None,
        },
{
    let b = scan::behind(t, p);
    let f = scan::ahead(t, p);
    assert(words::bounded(t, p, false) == p);
    let n = line::least(p.col + 1, t[p.row as int].len() as int);
    lemma_enclosing(b, 0, 0, opener, closer);
    lemma_first_char(f, 0, opener);
    let k = scan::enclosing(b, 0, 0, opener, closer);
    let j = scan::first_char(f, 0, opener);
    let x = scan::either(scan::spot(b, k), scan::spot(f, j));
    if x is Some {
        let o = x->0;
        if k < b.len() {
            lemma_glyph_back(t, p.row as int, n, k);
        } else {
            lemma_glyph(t, p.row as int, p.col as int, j);
        }
        assert(t[o.row as int][o.col as int] =~= seq![opener]);
        assert(words::bounded(t, o, false) == o);
        let s = scan::ahead(t, o);
        lemma_seen(t, o.row as int, o.col as int, o);
        lemma_closing(s, 0, 0, opener, closer);
        let e = scan::closing(s, 0, 0, opener, closer);
        if e < s.len() {
            lemma_glyph(t, o.row as int, o.col as int, e);
            reveal_with_fuel(nesting, 2);
            assert(nesting(s, 1, opener, closer) == 1);
            assert(e > 0);
            lemma_nesting_positive(s, e, opener, closer);
            assert(s[e].1 == Some(closer));
            let q = s[e].0;
            assert(t[q.row as int][q.col as int] =~= seq![closer]);
            assert(word_laws::prior(o, q)) by {
                if q == o {
                    assert(glyphs_to(t, o.row as int, o.col as int, q) == 0);
                }
            }
            assert(scan::next_col(o).col == o.col + 1);
        }
    }
}

/// Whether a closer is the first place from an opener on at which the nesting that begins
/// with the opener is over.
pub open spec fn closes_at(t: Text, o: Pos, opener: char, closer: char, e: Pos) -> bool {
    let s = scan::glyphs(t, o.row as int, o.col as int);
    exists|k: int| #[trigger]
        closes_after(s, k, opener, closer) && s[k].0 == e
}

/// Whether the nesting is over with the `k`-th grapheme, and not before.
pub open spec fn closes_after(s: Glyphs, k: int, opener: char, closer: char) -> bool {
    &&& 0 < k < s.len()
    &&& nesting(s, k + 1, opener, closer) == 0
    &&& forall|x: int| 0 < x <= k ==> #[trigger] nesting(s, x, opener, closer) > 0
}

proof fn lemma_nesting_positive(s: Glyphs, e: int, opener: char, closer: char)
    requires
        0 < e < s.len(),
        nesting(s, 1, opener, closer) == 1,
        nesting(s, e + 1, opener, closer) == 0,
        forall|x: int| 0 < x <= e ==> #[trigger] nesting(s, x, opener, closer) != 0,
    ensures
        closes_after(s, e, opener, closer),
        s[e].1 == Some(closer),
{
    assert forall|x: int| 0 < x <= e implies #[trigger] nesting(s, x, opener, closer) > 0 by {
        lemma_stays_positive(s, x, e, opener, closer);
    }
    assert(nesting(s, e, opener, closer) > 0);
}

proof fn lemma_stays_positive(s: Glyphs, x: int, e: int, opener: char, closer: char)
    requires
        0 < x <= e < s.len(),
        nesting(s, 1, opener, closer) == 1,
        forall|y: int| 0 < y <= e ==> #[trigger] nesting(s, y, opener, closer) != 0,
    ensures
        nesting(s, x, opener, closer) > 0,
    decreases x,
{
    if x > 1 {
        lemma_stays_positive(s, x - 1, e, opener, closer);
        assert(nesting(s, x, opener, closer) != 0);
    }
}

proof fn lemma_enclosing(s: Glyphs, i: int, d: nat, opener: char, closer: char)
    requires
        0 <= i <= s.len(),
        opener != closer,
        d == nesting(s, i, closer, opener),
    ensures
        ({
            let k = scan::enclosing(s, i, d, opener, closer);
            &&& i <= k <= s.len()
            &&& k < s.len() ==> s[k].1 == Some(opener) && nesting(s, k, closer, opener) == 0
            &&& forall|x: int|
                i <= x < k && (#[trigger] s[x]).1 == Some(opener) ==> nesting(s, x, closer, opener)
                    > 0
        }),
    decreases s.len() - i,
{
    if i < s.len() {
        let e = if s[i].1 == Some(closer) {
            d + 1
        } else {
            d
        };
        if s[i].1 == Some(opener) {
            if e > 0 {
                lemma_enclosing(s, i + 1, (e - 1) as nat, opener, closer);
            }
        } else {
            lemma_enclosing(s, i + 1, e, opener, closer);
        }
    }
}

/// Whether an opener is the nearest, going back, that no closer on the way matches.
pub open spec fn encloses(b: Glyphs, k: int, opener: char, closer: char) -> bool {
    &&& 0 <= k < b.len()
    &&& b[k].1 == Some(opener)
    &&& nesting(b, k, closer, opener) == 0
    &&& forall|x: int|
        0 <= x < k && (#[trigger] b[x]).1 == Some(opener) ==> nesting(b, x, closer, opener) > 0
}

/// A bracketed object begins with the nearest opener, going back from its place, that no
/// closer on the way matches; where there is none it begins with the first opener from the
/// place on.
pub proof fn the_nearest_opener_encloses(t: Text, p: Pos, opener: char, closer: char)
    requires
        word_laws::countable(t),
        opener != closer,
        p.row < t.len(),
        p.col <= t[p.row as int].len(),
    ensures
        ({
            let b = scan::behind(t, p);
            scan::delim_object(t, p, opener, closer, Bound::Around) matches Some(
                MotionKind::Char { start, end, inclusive },
            ) ==> {
                ||| exists|k: int| #[trigger] encloses(b, k, opener, closer) && b[k].0 == start
                ||| {
                    &&& forall|k: int| !#[trigger] encloses(b, k, opener, closer)
                    &&& !word_laws::prior(start, p)
                    &&& mark_at(t, start, opener)
                    &&& forall|x: Pos| #[trigger]
                        mark_at(t, x, opener) && !word_laws::prior(x, p) ==> !word_laws::prior(
                            x,
                            start,
                        )
                }
            }
        }),
{
    let b = scan::behind(t, p);
    lemma_enclosing(b, 0, 0, opener, closer);
    lemma_char_ahead(t, p, opener);
    let k = scan::enclosing(b, 0, 0, opener, closer);
    if k < b.len() {
        assert(encloses(b, k, opener, closer));
    }
}

/// `%` looks for the first delimiter from the cursor on and goes to its partner: ahead to
/// the nearest closer of an opener, back to the nearest opener of a closer.
pub proof fn delimiters_lead_to_their_partner(t: Text, p: Pos, d: Pos, ch: char)
    requires
        word_laws::countable(t),
        p.row < t.len(),
        p.col <= t[p.row as int].len(),
        scan::partner(ch) is Some,
        mark_at(t, d, ch),
        !word_laws::prior(d, p),
        forall|x: Pos, y: char| #[trigger]
            mark_at(t, x, y) && scan::partner(y) is Some && !word_laws::prior(x, p)
                ==> !word_laws::prior(x, d),
    ensures
        ({
            let (other, opens) = scan::partner(ch)->0;
            match scan::delim_match(t, p) {
                Some(m) => {
                    &&& m matches MotionKind::Char { start, end, inclusive }
                    &&& inclusive && start == p && mark_at(t, end, other)
                    &&& if opens {
                        word_laws::prior(d, end) && forall|x: Pos| #[trigger]
                            mark_at(t, x, other) && word_laws::prior(d, x) ==> !word_laws::prior(
                                x,
                                end,
                            )
                    } else {
                        word_laws::prior(end, d) && forall|x: Pos| #[trigger]
                            mark_at(t, x, other) && word_laws::prior(x, d) ==> !word_laws::prior(
                                end,
                                x,
                            )
                    }
                },
                None => forall|x: Pos| #[trigger]
                    mark_at(t, x, other) ==> if opens {
                        !word_laws::prior(d, x)
                    } else {
                        !word_laws::prior(x, d)
                    },
            }
        }),
{
    partners_pair_up(ch);
    let f = scan::ahead(t, p);
    let row = p.row as int;
    let col = p.col as int;
    assert(words::bounded(t, p, false) == p);
    lemma_first_delim(f, 0);
    lemma_seen(t, row, col, d);
    let k = glyphs_to(t, row, col, d);
    assert(f[k].1 == Some(ch));
    let i = scan::first_delim(f, 0);
    assert(i <= k);
    lemma_glyph(t, row, col, i);
    let e = f[i].0;
    let y = f[i].1->0;
    assert(t[e.row as int][e.col as int] =~= seq![y]);
    assert(mark_at(t, e, y));
    assert(e == d) by {
        if word_laws::prior(d, e) {
            lemma_seen_later(t, row, col, d, e);
        }
    }
    assert(seq![y][0] == seq![ch][0]);
    let (other, opens) = scan::partner(ch)->0;
    assert(!mark_at(t, d, other)) by {
        assert(seq![ch][0] != seq![other][0]);
    }
    lemma_char_ahead(t, d, other);
    lemma_char_behind(t, d, other);
}

proof fn lemma_first_delim(s: Glyphs, i: int)
    requires
        0 <= i <= s.len(),
    ensures
        ({
            let k = scan::first_delim(s, i);
            &&& i <= k <= s.len()
            &&& k < s.len() ==> scan::pairs_with(s[k].1) is Some
            &&& forall|x: int| i <= x < k ==> scan::pairs_with((#[trigger] s[x]).1) is None
        }),
    decreases s.len() - i,
{
    if i < s.len() && scan::pairs_with(s[i].1) is None {
        lemma_first_delim(s, i + 1);
    }
}

/// Delimiters come in pairs: the partner of a partner is the delimiter itself, and one of
/// the two opens.
pub proof fn partners_pair_up(c: char)
    ensures
        scan::partner(c) matches Some((d, opens)) ==> d != c && scan::partner(d) == Some(
            (c, !opens),
        ),
        scan::partner(c) is Some <==> "()[]{}<>"@.contains(c),
        scan::partner('(') == Some((')', true)),
        scan::partner('[') == Some((']', true)),
        scan::partner('{') == Some(('}', true)),
        scan::partner('<') == Some(('>', true)),
{
    reveal_strlit("()[]{}<>");
    let s = "()[]{}<>"@;
    assert(s.len() == 8);
    assert(s[0] == '(' && s[1] == ')' && s[2] == '[' && s[3] == ']' && s[4] == '{' && s[5] == '}'
        && s[6] == '<' && s[7] == '>');
    if s.contains(c) {
        let i = s.index_of(c);
        assert(s[i] == c);
    }
}

/// A grapheme of one character is of a word, whitespace, or a symbol, as the character is.
pub proof fn single_characters_have_their_class(c: char)
    ensures
        line::class_of(seq![c]) == line::CharClass::Alphanum <==> unicode::alphanumeric(c) || c
            == '_',
        line::class_of(seq![c]) == line::CharClass::Whitespace <==> unicode::whitespace(c)
            && !unicode::alphanumeric(c),
        line::class_of(seq![c]) == line::CharClass::Symbol <==> !unicode::whitespace(c)
            && !unicode::alphanumeric(c) && c != '_',
        line::is_space(seq![c]) <==> unicode::whitespace(c) && !unicode::alphanumeric(c),
{
    let g = seq![c];
    assert(g.len() == 1 && g[0] == c);
}

/// Whether a grapheme is a decimal digit.
pub open spec fn numeral(g: Seq<char>) -> bool {
    g.len() == 1 && '0' <= g[0] <= '9'
}

proof fn lemma_first_non_digit(s: Glyphs, i: int, k: int)
    requires
        0 <= i <= k <= s.len(),
        forall|x: int| i <= x < k ==> scan::digit((#[trigger] s[x]).1),
        k < s.len() ==> !scan::digit(s[k].1),
    ensures
        scan::first_non_digit(s, i) == k,
    decreases k - i,
{
    if i < k {
        lemma_first_non_digit(s, i + 1, k);
    }
}

/// The number at a place is the whole run of digits around it, with a minus sign before
/// it. The run ends in its row, or with the text.
pub proof fn numbers_are_whole(t: Text, r: int, i: int, j: int, col: int)
    requires
        word_laws::countable(t),
        0 <= r < t.len(),
        0 <= i <= col < j <= t[r].len() < usize::MAX,
        forall|x: int| i <= x < j ==> numeral(#[trigger] t[r][x]),
        if i > 0 {
            !numeral(t[r][i - 1])
        } else {
            r == 0
        },
        if j < t[r].len() {
            !numeral(t[r][j])
        } else {
            r == t.len() - 1
        },
    ensures
        scan::number_span(t, Pos { row: r as usize, col: col as usize }) == Some(
            (
                Pos {
                    row: r as usize,
                    col: (if i > 0 && t[r][i - 1] == seq!['-'] {
                        i - 1
                    } else {
                        i
                    }) as usize,
                },
                Pos { row: r as usize, col: (j - 1) as usize },
            ),
        ),
{
    let p = Pos { row: r as usize, col: col as usize };
    assert(words::bounded(t, p, false) == p);
    assert(numeral(t[r][col]));
    let b = scan::behind(t, p);
    let f = scan::ahead(t, p);
    let n = t[r].len() as int;
    let rb = scan::row_glyphs_back(t, r, col + 1);
    let rf = scan::row_glyphs(t, r, col);
    assert(b.len() >= rb.len() && b.take(rb.len() as int) =~= rb) by {
        if r == 0 {
            assert(b =~= rb);
        }
    }
    assert(f =~= rf + scan::glyphs(t, r + 1, 0));
    assert forall|x: int| 0 <= x < col + 1 - i implies scan::digit((#[trigger] b[x]).1) by {
        assert(b[x] == rb[x]);
        assert(numeral(t[r][col - x]));
    }
    assert forall|x: int| 0 <= x < j - col implies scan::digit((#[trigger] f[x]).1) by {
        assert(f[x] == rf[x]);
        assert(numeral(t[r][col + x]));
    }
    if i > 0 {
        assert(b[col + 1 - i] == rb[col + 1 - i]);
        lemma_first_non_digit(b, 0, col + 1 - i);
        if t[r][i - 1] == seq!['-'] {
            assert(line::single(t[r][i - 1]) == Some('-'));
        } else if line::single(t[r][i - 1]) == Some('-') {
            assert(t[r][i - 1] =~= seq!['-']);
        }
    } else {
        assert(b =~= rb);
        lemma_first_non_digit(b, 0, col + 1);
    }
    if j < n {
        assert(f[j - col] == rf[j - col]);
        lemma_first_non_digit(f, 0, j - col);
    } else {
        assert(scan::glyphs(t, r + 1, 0) =~= Seq::empty());
        assert(f =~= rf);
        lemma_first_non_digit(f, 0, j - col);
    }
}

/// The objects of brackets and quotes have the brackets and quotes of their names at their
/// ends.
pub proof fn objects_have_their_delimiters(t: Text, p: Pos)
    requires
        word_laws::countable(t),
        p.row < t.len(),
        p.col <= t[p.row as int].len(),
        forall|r: int| 0 <= r < t.len() ==> (#[trigger] t[r]).len() < usize::MAX,
    ensures
        motion::object_span(t, p, TextObj::Paren(Bound::Around)) matches Some(
            MotionKind::Char { start, end, inclusive },
        ) ==> mark_at(t, start, '(') && mark_at(t, end, ')') && inclusive,
        motion::object_span(t, p, TextObj::Bracket(Bound::Around)) matches Some(
            MotionKind::Char { start, end, inclusive },
        ) ==> mark_at(t, start, '[') && mark_at(t, end, ']') && inclusive,
        motion::object_span(t, p, TextObj::Brace(Bound::Around)) matches Some(
            MotionKind::Char { start, end, inclusive },
        ) ==> mark_at(t, start, '{') && mark_at(t, end, '}') && inclusive,
        motion::object_span(t, p, TextObj::Angle(Bound::Around)) matches Some(
            MotionKind::Char { start, end, inclusive },
        ) ==> mark_at(t, start, '<') && mark_at(t, end, '>') && inclusive,
        motion::object_span(t, p, TextObj::DoubleQuote(Bound::Inside)) matches Some(
            MotionKind::Char { start, end, inclusive },
        ) ==> mark_at(t, end, '"') && !inclusive,
        motion::object_span(t, p, TextObj::SingleQuote(Bound::Inside)) matches Some(
            MotionKind::Char { start, end, inclusive },
        ) ==> mark_at(t, end, '\'') && !inclusive,
        motion::object_span(t, p, TextObj::BacktickQuote(Bound::Inside)) matches Some(
            MotionKind::Char { start, end, inclusive },
        ) ==> mark_at(t, end, '`') && !inclusive,
{
    brackets_enclose(t, p, '(', ')');
    brackets_enclose(t, p, '[', ']');
    brackets_enclose(t, p, '{', '}');
    brackets_enclose(t, p, '<', '>');
    quotes_enclose(t, p, '"');
    quotes_enclose(t, p, '\'');
    quotes_enclose(t, p, '`');
}

/// The motions that go over row ends take one place for a grapheme and one for the end of
/// a row: a step forward from the end of a row leads to the start of the next, a step back
/// from a start to the end before it.
pub proof fn forced_steps_cross_row_ends(t: Text, c: Cursor)
    requires
        word_laws::countable(t),
        c.pos.row < t.len(),
        c.pos.col <= t[c.pos.row as int].len() < usize::MAX,
        forall|r: int| 0 <= r < t.len() ==> (#[trigger] t[r]).len() < usize::MAX,
    ensures
        ({
            let row = c.pos.row as int;
            let len = t[row].len();
            &&& c.pos.col < len ==> motion::offset_wrapping(t, c, 1) == (Pos {
                row: c.pos.row,
                col: (c.pos.col + 1) as usize,
            })
            &&& c.pos.col == len && row + 1 < t.len() ==> motion::offset_wrapping(t, c, 1) == (
            Pos { row: (row + 1) as usize, col: 0 })
            &&& c.pos.col > 0 ==> motion::offset_wrapping(t, c, -1) == (Pos {
                row: c.pos.row,
                col: (c.pos.col - 1) as usize,
            })
            &&& c.pos.col == 0 && row > 0 ==> motion::offset_wrapping(t, c, -1) == (Pos {
                row: (row - 1) as usize,
                col: t[row - 1].len() as usize,
            })
        }),
{
    let row = c.pos.row as int;
    let col = c.pos.col as int;
    let len = t[row].len() as int;
    buffer::lemma_unflat_skips(t, row, col + 1);
    if col > 0 {
        buffer::lemma_unflat_skips(t, row, col - 1);
    } else if row > 0 {
        buffer::lemma_places_step(t, row - 1);
        buffer::lemma_unflat_skips(t, row - 1, t[row - 1].len() as int);
    }
    reveal_with_fuel(buffer::unflat_from, 2);
}

/// Half a screen up and down goes by that many rows, and stops at the first and the last.
pub proof fn half_screens_go_by_rows(t: Text, c: Cursor, kept: Option<usize>, half: isize, verb: Option<Verb>, count: usize)
    requires
        c.pos.row < t.len() <= isize::MAX,
        0 <= half,
    ensures
        ({
            let up = if c.pos.row >= half {
                c.pos.row - half
            } else {
                0
            };
            let down = if c.pos.row + half < t.len() {
                c.pos.row + half
            } else {
                t.len() - 1
            };
            &&& motion::motion_span(t, c, kept, half, verb, count, Motion::HalfScreenUp) matches Some(
                MotionKind::Line { start, end, inclusive },
            ) && start == up
            &&& motion::motion_span(t, c, kept, half, verb, count, Motion::HalfScreenDown) matches Some(
                MotionKind::Line { start, end, inclusive },
            ) && start == down
        }),
{
}

} // verus!
