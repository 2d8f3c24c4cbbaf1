//! Motions: from a command to the span of text that it goes over.

use crate::editcmd::Dest;
use crate::editcmd::Direction;
use crate::editcmd::Motion;
use crate::editcmd::TextObj;
use crate::editcmd::To;
use crate::editcmd::Verb;
use crate::linebuf::buffer;
use crate::linebuf::line;
use crate::linebuf::line::same_grapheme;
use crate::linebuf::line::Grapheme;
use crate::linebuf::line::Line;
use crate::linebuf::lines;
use crate::linebuf::lines::Text;
use crate::linebuf::pos;
use crate::linebuf::pos::lesser;
use crate::linebuf::pos::ordered_pos;
use crate::linebuf::pos::ordered_rows;
use crate::linebuf::pos::shift;
use crate::linebuf::pos::Cursor;
use crate::linebuf::pos::MotionKind;
use crate::linebuf::pos::Pos;
use crate::linebuf::scan;
use crate::linebuf::scan::find_delim_match;
use crate::linebuf::scan::text_obj_delim;
use crate::linebuf::scan::text_obj_quote;
use crate::linebuf::scan::to_bracket;
use crate::linebuf::words;
use crate::linebuf::words::eval_word_motion;
use crate::linebuf::words::text_obj_word;
use vstd::prelude::*;

verus! {

/// The cursor's row moved, staying on the text.
pub open spec fn offset_row(t: Text, c: Cursor, by: isize) -> int {
    line::least(pos::shifted(c.pos.row, by) as int, pos::last_index(t.len()))
}

/// The furthest column of a row that the cursor may take.
pub open spec fn col_limit(t: Text, c: Cursor, row: int) -> int {
    if c.exclusive {
        words::last_col(t, row)
    } else {
        t[row].len() as int
    }
}

/// The cursor's column moved, staying on a row.
pub open spec fn offset_col(t: Text, c: Cursor, row: int, by: isize) -> int {
    line::least(pos::shifted(c.pos.col, by) as int, col_limit(t, c, row))
}

/// The cursor moved, staying on the text.
pub open spec fn offset_cursor(t: Text, c: Cursor, rows: isize, cols: isize) -> Pos {
    let row = offset_row(t, c, rows);
    Pos { row: row as usize, col: offset_col(t, c, row, cols) as usize }
}

/// The cursor moved by a number of places, across line boundaries.
pub open spec fn offset_wrapping(t: Text, c: Cursor, by: int) -> Pos {
    buffer::walked(t, offset_row(t, c, 0), c.pos.col + by)
}

/// Moves the cursor's row, staying on the text.
pub fn row_by(lines: &Vec<Line>, c: Cursor, by: isize) -> (r: usize)
    ensures
        r == offset_row(lines::text(lines@), c, by),
        lines@.len() > 0 ==> r < lines@.len(),
{
    assert(lines::text(lines@).len() == lines@.len());
    lesser(shift(c.pos.row, by), lines.len().saturating_sub(1))
}

/// Moves the cursor's column, staying on a row.
pub fn col_by(lines: &Vec<Line>, c: Cursor, row: usize, by: isize) -> (r: usize)
    requires
        row < lines@.len(),
    ensures
        r == offset_col(lines::text(lines@), c, row as int, by),
        r <= lines@[row as int]@.len(),
{
    assert(lines::text(lines@)[row as int] == lines@[row as int]@);
    let n: usize = lines[row].len();
    let max: usize = if c.exclusive {
        n.saturating_sub(1)
    } else {
        n
    };
    lesser(shift(c.pos.col, by), max)
}

/// Moves the cursor, staying on the text.
pub fn cursor_by(lines: &Vec<Line>, c: Cursor, rows: isize, cols: isize) -> (r: Pos)
    requires
        lines@.len() > 0,
    ensures
        r == offset_cursor(lines::text(lines@), c, rows, cols),
        r.row < lines@.len(),
        r.col <= lines@[r.row as int]@.len(),
{
    let row = row_by(lines, c, rows);
    Pos { row, col: col_by(lines, c, row, cols) }
}

/// Moves the cursor by a number of places, across line boundaries.
pub fn cursor_by_wrapping(lines: &Vec<Line>, c: Cursor, by: isize) -> (r: Pos)
    requires
        lines@.len() > 0,
    ensures
        r == offset_wrapping(lines::text(lines@), c, by as int),
        r.row < lines@.len(),
        r.col <= lines@[r.row as int]@.len(),
{
    let row = row_by(lines, c, 0);
    walk(lines, row, c.pos.col as i128 + by as i128)
}

/// Walks from the start of a row by a number of places, across line
/// boundaries.
pub fn walk(lines: &Vec<Line>, start: usize, n: i128) -> (r: Pos)
    requires
        start < lines@.len(),
        -0x1_0000_0000_0000_0000 <= n <= 0x2_0000_0000_0000_0000,
    ensures
        r == buffer::walked(lines::text(lines@), start as int, n as int),
        r.row < lines@.len(),
        r.col <= lines@[r.row as int]@.len(),
{
    let ghost t = lines::text(lines@);
    let mut row: usize = start;
    let mut col: i128 = n;
    while col < 0 && row > 0
        invariant
            row <= start < lines@.len(),
            t == lines::text(lines@),
            -0x1_0000_0000_0000_0000 <= col <= 0x2_0000_0000_0000_0000,
            lines::places(t.take(row as int)) + col == lines::places(t.take(start as int)) + n,
        decreases row,
    {
        row = row - 1;
        assert(t[row as int] == lines@[row as int]@);
        proof {
            buffer::lemma_places_step(t, row as int);
        }
        col = col + lines[row].len() as i128 + 1;
    }
    if col < 0 {
        assert(t.take(0) =~= Seq::<Seq<Seq<char>>>::empty());
        assert(t[0] == lines@[0]@);
        return Pos { row: 0, col: 0 };
    }
    proof {
        buffer::lemma_unflat_skips(t, row as int, col as int);
    }
    let ghost row0 = row as int;
    let ghost col0 = col as int;
    while row < lines.len() - 1 && col > lines[row].len() as i128
        invariant
            row < lines@.len(),
            t == lines::text(lines@),
            0 <= col <= 0x2_0000_0000_0000_0000,
            buffer::unflat_from(t, row as int, col as int) == buffer::unflat_from(t, row0, col0),
        decreases lines@.len() - row,
    {
        assert(t[row as int] == lines@[row as int]@);
        col = col - lines[row].len() as i128 - 1;
        row = row + 1;
    }
    assert(t[row as int] == lines@[row as int]@);
    let len: usize = lines[row].len();
    if col > len as i128 {
        assert(row == lines@.len() - 1);
        assert(t.last() == t[row as int]);
        assert(buffer::unflat_from(t, row as int, col as int) == buffer::unflat_from(
            t,
            row + 1,
            col - len - 1,
        ));
        Pos { row, col: len }
    } else {
        Pos { row, col: col as usize }
    }
}

/// The first place from `i` on that holds a grapheme.
pub open spec fn gr_from(row: Seq<Seq<char>>, i: int, g: Seq<char>) -> int
    decreases row.len() - i,
{
    if i >= row.len() {
        row.len() as int
    } else if row[i] == g {
        i
    } else {
        gr_from(row, i + 1, g)
    }
}

/// The last place before `i` that holds a grapheme, -1 where there is none.
pub open spec fn gr_before(row: Seq<Seq<char>>, i: int, g: Seq<char>) -> int
    decreases i,
{
    if i <= 0 {
        -1
    } else if row[i - 1] == g {
        i - 1
    } else {
        gr_before(row, i - 1, g)
    }
}

/// How far a character search on a line moves from a column: to the next
/// grapheme of that kind, or just before it; nowhere if there is none.
pub open spec fn search_offset(
    row: Seq<Seq<char>>,
    col: int,
    dir: Direction,
    dest: Dest,
    g: Seq<char>,
) -> int {
    let c = line::least(col, row.len() as int);
    match dir {
        Direction::Forward => {
            let i = gr_from(row, c + 1, g);
            if i >= row.len() || dest == Dest::After {
                0
            } else if dest == Dest::On {
                i - c
            } else {
                i - c - 1
            }
        },
        Direction::Backward => {
            let i = gr_before(row, c, g);
            if i < 0 || dest == Dest::After {
                0
            } else if dest == Dest::On {
                i - c
            } else {
                i - c + 1
            }
        },
    }
}

/// How far a character search moves.
pub fn search_char(l: &Line, col: usize, dir: Direction, dest: Dest, g: &Grapheme) -> (r: isize)
    requires
        l@.len() <= isize::MAX,
    ensures
        r == search_offset(l@, col as int, dir, dest, g@),
{
    let c: usize = lesser(col, l.len());
    match dir {
        Direction::Forward => {
            if c >= l.len() {
                return 0;
            }
            let mut i: usize = c + 1;
            while i < l.len()
                invariant
                    c < i <= l@.len() <= isize::MAX,
                    dir == Direction::Forward,
                    c == line::least(col as int, l@.len() as int),
                    gr_from(l@, c + 1, g@) == gr_from(l@, i as int, g@),
                decreases l@.len() - i,
            {
                if same_grapheme(l.at(i), g) {
                    return match dest {
                        Dest::On => (i - c) as isize,
                        Dest::Before => (i - c - 1) as isize,
                        Dest::After => 0,
                    };
                }
                i = i + 1;
            }
            0
        },
        Direction::Backward => {
            let mut i: usize = c;
            while i > 0
                invariant
                    i <= c <= l@.len() <= isize::MAX,
                    dir == Direction::Backward,
                    c == line::least(col as int, l@.len() as int),
                    gr_before(l@, c as int, g@) == gr_before(l@, i as int, g@),
                decreases i,
            {
                i = i - 1;
                if same_grapheme(l.at(i), g) {
                    return match dest {
                        Dest::On => i as isize - c as isize,
                        Dest::Before => i as isize - c as isize + 1,
                        Dest::After => 0,
                    };
                }
            }
            0
        },
    }
}

/// The span from the cursor to another place.
pub open spec fn span_to(c: Cursor, target: Pos, inclusive: bool) -> Option<MotionKind> {
    if target == c.pos {
        None
    } else {
        Some(MotionKind::Char { start: c.pos, end: target, inclusive })
    }
}

fn make_span(c: Cursor, target: Pos, inclusive: bool) -> (r: Option<MotionKind>)
    ensures
        r == span_to(c, target, inclusive),
{
    if target == c.pos {
        None
    } else {
        Some(MotionKind::Char { start: c.pos, end: target, inclusive })
    }
}

/// The last column of a line that holds no whitespace, 0 where there is none.
pub open spec fn last_solid(row: Seq<Seq<char>>) -> int
    decreases row.len(),
{
    if row.len() == 0 {
        0
    } else if !line::is_space(row.last()) {
        row.len() - 1
    } else {
        last_solid(row.drop_last())
    }
}

/// The first column from `i` on that holds no whitespace, or the last column.
pub open spec fn first_solid(row: Seq<Seq<char>>, i: int) -> int
    decreases row.len() - i,
{
    if i + 1 >= row.len() {
        if row.len() > 0 {
            row.len() - 1
        } else {
            0
        }
    } else if !line::is_space(row[i]) {
        i
    } else {
        first_solid(row, i + 1)
    }
}

/// The span of a text object.
pub open spec fn object_span(t: Text, cursor: Pos, obj: TextObj) -> Option<MotionKind> {
    match obj {
        TextObj::Word(w, b) => words::word_object(t, cursor, w, b),
        TextObj::DoubleQuote(b) => scan::quote_object(t, cursor, '"', b),
        TextObj::SingleQuote(b) => scan::quote_object(t, cursor, '\'', b),
        TextObj::BacktickQuote(b) => scan::quote_object(t, cursor, '`', b),
        TextObj::Paren(b) => scan::delim_object(t, cursor, '(', ')', b),
        TextObj::Bracket(b) => scan::delim_object(t, cursor, '[', ']', b),
        TextObj::Brace(b) => scan::delim_object(t, cursor, '{', '}', b),
        TextObj::Angle(b) => scan::delim_object(t, cursor, '<', '>', b),
        _ => None,
    }
}

/// The span of a text object. Sentences, paragraphs, tags and custom objects
/// have none.
pub fn dispatch_text_obj(lines: &Vec<Line>, cursor: Pos, obj: TextObj) -> (r: Option<MotionKind>)
    ensures
        r == object_span(lines::text(lines@), cursor, obj),
{
    match obj {
        TextObj::Word(w, b) => text_obj_word(lines, cursor, w, b),
        TextObj::DoubleQuote(b) => text_obj_quote(lines, cursor, '"', b),
        TextObj::SingleQuote(b) => text_obj_quote(lines, cursor, '\'', b),
        TextObj::BacktickQuote(b) => text_obj_quote(lines, cursor, '`', b),
        TextObj::Paren(b) => text_obj_delim(lines, cursor, '(', ')', b),
        TextObj::Bracket(b) => text_obj_delim(lines, cursor, '[', ']', b),
        TextObj::Brace(b) => text_obj_delim(lines, cursor, '{', '}', b),
        TextObj::Angle(b) => text_obj_delim(lines, cursor, '<', '>', b),
        _ => None,
    }
}

/// The rows between the cursor and another, as a span of whole lines.
pub open spec fn line_span(a: int, b: int, inclusive: bool) -> MotionKind {
    if a > b {
        MotionKind::Line { start: b as usize, end: a as usize, inclusive }
    } else {
        MotionKind::Line { start: a as usize, end: b as usize, inclusive }
    }
}

fn make_line_span(a: usize, b: usize, inclusive: bool) -> (r: MotionKind)
    ensures
        r == line_span(a as int, b as int, inclusive),
{
    let (s, e) = ordered_rows(a, b);
    MotionKind::Line { start: s, end: e, inclusive }
}

/// The delimiters of the bracket motions.
pub open spec fn bracket_pair(m: Motion) -> Option<(char, char, Direction)> {
    match m {
        Motion::ToBracket(d) => Some(('[', ']', d)),
        Motion::ToParen(d) => Some(('(', ')', d)),
        Motion::ToBrace(d) => Some(('{', '}', d)),
        _ => None,
    }
}

/// The signed distance of a count.
pub open spec fn ahead_by(count: usize) -> isize {
    count as isize
}

/// The signed distance of a count, backward.
pub open spec fn back_by(count: usize) -> isize {
    (-(count as isize)) as isize
}

/// The span of a motion made `count` times on a text. `verb` is the verb that
/// it serves, `kept` the column that vertical motions keep to, `half` half the
/// height of the view.
pub open spec fn motion_span(
    t: Text,
    c: Cursor,
    kept: Option<usize>,
    half: isize,
    verb: Option<Verb>,
    count: usize,
    m: Motion,
) -> Option<MotionKind> {
    let last = pos::last_index(t.len());
    match m {
        Motion::WholeLine => Some(
            MotionKind::Line {
                start: c.pos.row,
                end: line::least(c.pos.row + pos::one_less(count), last) as usize,
                inclusive: true,
            },
        ),
        Motion::TextObj(obj) => object_span(t, c.pos, obj),
        Motion::EndOfLastWord => {
            let row = c.pos.row + pos::one_less(count);
            span_to(
                c,
                Pos {
                    row: row as usize,
                    col: (if row < t.len() {
                        last_solid(t[row])
                    } else {
                        0
                    }) as usize,
                },
                true,
            )
        },
        Motion::StartOfFirstWord => span_to(
            c,
            Pos { row: c.pos.row, col: first_solid(t[c.pos.row as int], 0) as usize },
            true,
        ),
        Motion::StartOfLine => span_to(c, offset_cursor(t, c, 0, isize::MIN), false),
        Motion::EndOfLine => span_to(c, offset_cursor(t, c, 0, isize::MAX), true),
        Motion::WordMotion(to, word, dir) => Some(
            words::word_span(
                t,
                c.pos,
                c.exclusive,
                count as nat,
                to,
                word,
                dir,
                verb is Some && verb->0 is Change && to == To::Start && dir == Direction::Forward,
                verb is None,
            ),
        ),
        Motion::CharSearch(dir, dest, g) => span_to(
            c,
            offset_cursor(
                t,
                c,
                0,
                search_offset(t[c.pos.row as int], c.pos.col as int, dir, dest, g@) as isize,
            ),
            true,
        ),
        Motion::BackwardChar => span_to(c, offset_cursor(t, c, 0, back_by(count)), false),
        Motion::ForwardChar => span_to(c, offset_cursor(t, c, 0, ahead_by(count)), false),
        Motion::BackwardCharForced => span_to(c, offset_wrapping(t, c, -count), false),
        Motion::ForwardCharForced => span_to(c, offset_wrapping(t, c, count as int), false),
        Motion::LineUp => vertical_span(t, c, kept, verb, back_by(count)),
        Motion::LineDown => vertical_span(t, c, kept, verb, ahead_by(count)),
        Motion::StartOfBuffer => buffer_end_span(t, c, verb, isize::MIN),
        Motion::EndOfBuffer => buffer_end_span(t, c, verb, isize::MAX),
        Motion::WholeBuffer => Some(
            MotionKind::Line { start: 0, end: last as usize, inclusive: false },
        ),
        Motion::ToColumn => {
            let end = Pos { row: c.pos.row, col: pos::one_less(count) };
            Some(
                MotionKind::Char { start: c.pos, end, inclusive: pos::pos_lt(c.pos, end) },
            )
        },
        Motion::ToDelimMatch => scan::delim_match(t, c.pos),
        Motion::ToBracket(_) | Motion::ToParen(_) | Motion::ToBrace(_) => {
            let (o, k, d) = bracket_pair(m)->0;
            match scan::bracket_target(t, c.pos, o, k, d) {
                Some(p) => Some(MotionKind::Char { start: c.pos, end: p, inclusive: true }),
                None => None,
            }
        },
        Motion::CharRange(a, b) => Some(
            MotionKind::Char {
                start: pos::pos_min(a, b),
                end: pos::pos_max(a, b),
                inclusive: true,
            },
        ),
        Motion::LineRange(a, b) => Some(line_span(a as int, b as int, true)),
        Motion::BlockRange(a, b) => Some(
            MotionKind::Block { start: pos::pos_min(a, b), end: pos::pos_max(a, b) },
        ),
        Motion::HalfScreenUp => Some(
            MotionKind::Line {
                start: offset_row(t, c, (-half) as isize) as usize,
                end: c.pos.row,
                inclusive: false,
            },
        ),
        Motion::HalfScreenDown => Some(
            MotionKind::Line {
                start: offset_row(t, c, half) as usize,
                end: c.pos.row,
                inclusive: false,
            },
        ),
        Motion::RepeatMotion
        | Motion::RepeatMotionRev
        | Motion::Null
        | Motion::Global(_)
        | Motion::NotGlobal(_) => None,
    }
}

/// The span of a vertical motion: whole lines for a verb, otherwise to the
/// same column, as far as the line goes.
pub open spec fn vertical_span(
    t: Text,
    c: Cursor,
    kept: Option<usize>,
    verb: Option<Verb>,
    by: isize,
) -> Option<MotionKind> {
    let row = offset_row(t, c, by);
    if verb is Some {
        Some(line_span(c.pos.row as int, row, true))
    } else {
        span_to(
            c,
            Pos {
                row: row as usize,
                col: line::least(
                    buffer::kept_col(kept, c.pos.col) as int,
                    col_limit(t, c, row),
                ) as usize,
            },
            true,
        )
    }
}

/// The span to the start or the end of the buffer.
pub open spec fn buffer_end_span(t: Text, c: Cursor, verb: Option<Verb>, by: isize) -> Option<
    MotionKind,
> {
    if verb is Some {
        Some(line_span(c.pos.row as int, offset_row(t, c, by), false))
    } else {
        span_to(c, offset_cursor(t, c, by, 0), true)
    }
}

fn eval_vertical(lines: &Vec<Line>, c: Cursor, kept: Option<usize>, verb: bool, by: isize) -> (r:
    Option<MotionKind>)
    requires
        lines@.len() > 0,
    ensures
        forall|v: Option<Verb>|
            (v is Some) == verb ==> r == #[trigger] vertical_span(
                lines::text(lines@),
                c,
                kept,
                v,
                by,
            ),
{
    let row = row_by(lines, c, by);
    if verb {
        Some(make_line_span(c.pos.row, row, true))
    } else {
        assert(lines::text(lines@)[row as int] == lines@[row as int]@);
        let n: usize = lines[row].len();
        let limit: usize = if c.exclusive {
            n.saturating_sub(1)
        } else {
            n
        };
        let want: usize = match kept {
            Some(k) => k,
            None => c.pos.col,
        };
        make_span(c, Pos { row, col: lesser(want, limit) }, true)
    }
}

fn eval_buffer_end(lines: &Vec<Line>, c: Cursor, verb: bool, by: isize) -> (r: Option<MotionKind>)
    requires
        lines@.len() > 0,
    ensures
        forall|v: Option<Verb>|
            (v is Some) == verb ==> r == #[trigger] buffer_end_span(
                lines::text(lines@),
                c,
                v,
                by,
            ),
{
    if verb {
        let row = row_by(lines, c, by);
        Some(make_line_span(c.pos.row, row, false))
    } else {
        let target = cursor_by(lines, c, by, 0);
        make_span(c, target, true)
    }
}

fn find_last_solid(l: &Line) -> (r: usize)
    ensures
        r == last_solid(l@),
{
    let mut n: usize = l.len();
    assert(l@.take(n as int) =~= l@);
    while n > 0
        invariant
            n <= l@.len(),
            last_solid(l@) == last_solid(l@.take(n as int)),
        decreases n,
    {
        if !l.at(n - 1).is_ws() {
            return n - 1;
        }
        assert(l@.take(n as int).drop_last() =~= l@.take(n - 1));
        n = n - 1;
    }
    0
}

fn find_first_solid(l: &Line) -> (r: usize)
    ensures
        r == first_solid(l@, 0),
{
    let mut i: usize = 0;
    while i < l.len()
        invariant
            i <= l@.len(),
            i < l@.len() ==> first_solid(l@, 0) == first_solid(l@, i as int),
            i == l@.len() ==> first_solid(l@, 0) == (if l@.len() > 0 {
                l@.len() - 1
            } else {
                0
            }),
        decreases l@.len() - i,
    {
        if !l.at(i).is_ws() {
            return i;
        }
        i = i + 1;
    }
    l.len().saturating_sub(1)
}

/// The lengths of lines are those that signed distances can express.
pub open spec fn measurable(t: Text) -> bool {
    forall|i: int| 0 <= i < t.len() ==> (#[trigger] t[i]).len() <= isize::MAX
}

/// The span of a motion made `count` times on a text.
#[verifier::rlimit(40)]
pub fn eval_span(
    lines: &Vec<Line>,
    c: Cursor,
    kept: Option<usize>,
    half: isize,
    verb: Option<&Verb>,
    count: usize,
    m: &Motion,
) -> (r: Option<MotionKind>)
    requires
        lines@.len() > 0,
        c.pos.row < lines@.len(),
        count <= isize::MAX,
        c.pos.row + count <= usize::MAX,
        0 <= half,
        measurable(lines::text(lines@)),
    ensures
        r == motion_span(
            lines::text(lines@),
            c,
            kept,
            half,
            match verb {
                Some(v) => Some(*v),
                None => None,
            },
            count,
            *m,
        ),
{
    let ghost t = lines::text(lines@);
    let ghost v: Option<Verb> = match verb {
        Some(v) => Some(*v),
        None => None,
    };
    assert(t.len() == lines@.len());
    let last: usize = lines.len() - 1;
    let back: isize = -(count as isize);
    match m {
        Motion::WholeLine => Some(
            MotionKind::Line {
                start: c.pos.row,
                end: lesser(c.pos.row + count.saturating_sub(1), last),
                inclusive: true,
            },
        ),
        Motion::TextObj(obj) => dispatch_text_obj(lines, c.pos, *obj),
        Motion::EndOfLastWord => {
            let row: usize = c.pos.row + count.saturating_sub(1);
            let col: usize = if row < lines.len() {
                assert(t[row as int] == lines@[row as int]@);
                find_last_solid(&lines[row])
            } else {
                0
            };
            make_span(c, Pos { row, col }, true)
        },
        Motion::StartOfFirstWord => {
            assert(t[c.pos.row as int] == lines@[c.pos.row as int]@);
            let col = find_first_solid(&lines[c.pos.row]);
            make_span(c, Pos { row: c.pos.row, col }, true)
        },
        Motion::StartOfLine => {
            let target = cursor_by(lines, c, 0, isize::MIN);
            make_span(c, target, false)
        },
        Motion::EndOfLine => {
            let target = cursor_by(lines, c, 0, isize::MAX);
            make_span(c, target, true)
        },
        Motion::WordMotion(to, word, dir) => {
            let change: bool = match verb {
                Some(Verb::Change) => true,
                _ => false,
            };
            let ignore: bool = change && *to == To::Start && *dir == Direction::Forward;
            Some(
                eval_word_motion(
                    lines,
                    c.pos,
                    c.exclusive,
                    count,
                    *to,
                    *word,
                    *dir,
                    ignore,
                    verb.is_none(),
                ),
            )
        },
        Motion::CharSearch(dir, dest, g) => {
            assert(t[c.pos.row as int] == lines@[c.pos.row as int]@);
            let off = search_char(&lines[c.pos.row], c.pos.col, *dir, *dest, g);
            let target = cursor_by(lines, c, 0, off);
            make_span(c, target, true)
        },
        Motion::BackwardChar => {
            let target = cursor_by(lines, c, 0, back);
            make_span(c, target, false)
        },
        Motion::ForwardChar => {
            let target = cursor_by(lines, c, 0, count as isize);
            make_span(c, target, false)
        },
        Motion::BackwardCharForced => {
            let target = cursor_by_wrapping(lines, c, back);
            make_span(c, target, false)
        },
        Motion::ForwardCharForced => {
            let target = cursor_by_wrapping(lines, c, count as isize);
            make_span(c, target, false)
        },
        Motion::LineUp => {
            let r = eval_vertical(lines, c, kept, verb.is_some(), back);
            assert(r == vertical_span(t, c, kept, v, back));
            r
        },
        Motion::LineDown => {
            let r = eval_vertical(lines, c, kept, verb.is_some(), count as isize);
            assert(r == vertical_span(t, c, kept, v, count as isize));
            r
        },
        Motion::StartOfBuffer => {
            let r = eval_buffer_end(lines, c, verb.is_some(), isize::MIN);
            assert(r == buffer_end_span(t, c, v, isize::MIN));
            r
        },
        Motion::EndOfBuffer => {
            let r = eval_buffer_end(lines, c, verb.is_some(), isize::MAX);
            assert(r == buffer_end_span(t, c, v, isize::MAX));
            r
        },
        Motion::WholeBuffer => Some(MotionKind::Line { start: 0, end: last, inclusive: false }),
        Motion::ToColumn => {
            let end = Pos { row: c.pos.row, col: count.saturating_sub(1) };
            Some(MotionKind::Char { start: c.pos, end, inclusive: c.pos < end })
        },
        Motion::ToDelimMatch => find_delim_match(lines, c.pos),
        Motion::ToBracket(d) => eval_bracket(lines, c, '[', ']', *d),
        Motion::ToParen(d) => eval_bracket(lines, c, '(', ')', *d),
        Motion::ToBrace(d) => eval_bracket(lines, c, '{', '}', *d),
        Motion::CharRange(a, b) => {
            let (s, e) = ordered_pos(*a, *b);
            Some(MotionKind::Char { start: s, end: e, inclusive: true })
        },
        Motion::LineRange(a, b) => Some(make_line_span(*a, *b, true)),
        Motion::BlockRange(a, b) => {
            let (s, e) = ordered_pos(*a, *b);
            Some(MotionKind::Block { start: s, end: e })
        },
        Motion::HalfScreenUp => {
            let target = row_by(lines, c, -half);
            Some(MotionKind::Line { start: target, end: c.pos.row, inclusive: false })
        },
        Motion::HalfScreenDown => {
            let target = row_by(lines, c, half);
            Some(MotionKind::Line { start: target, end: c.pos.row, inclusive: false })
        },
        Motion::RepeatMotion
        | Motion::RepeatMotionRev
        | Motion::Null
        | Motion::Global(_)
        | Motion::NotGlobal(_) => None,
    }
}

fn eval_bracket(lines: &Vec<Line>, c: Cursor, o: char, k: char, d: Direction) -> (r: Option<
    MotionKind,
>)
    ensures
        r == (match scan::bracket_target(lines::text(lines@), c.pos, o, k, d) {
            Some(p) => Some(MotionKind::Char { start: c.pos, end: p, inclusive: true }),
            None => None,
        }),
{
    match to_bracket(lines, c.pos, o, k, d) {
        Some(p) => Some(MotionKind::Char { start: c.pos, end: p, inclusive: true }),
        None => None,
    }
}

} // verus!
