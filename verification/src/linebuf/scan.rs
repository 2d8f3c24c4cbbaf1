//! Scans over the graphemes of a text: quoted and bracketed objects, matching
//! delimiters, and numbers.

use crate::editcmd::Bound;
use crate::editcmd::Direction;
use crate::linebuf::line;
use crate::linebuf::line::Line;
use crate::linebuf::lines;
use crate::linebuf::lines::Text;
use crate::linebuf::pos;
use crate::linebuf::pos::MotionKind;
use crate::linebuf::pos::Pos;
use crate::linebuf::words;
use crate::linebuf::words::bound_pos;
use crate::linebuf::words::char_classes_forward_from;
use crate::unicode;
use crate::unicode::is_ascii_digit;
use vstd::prelude::*;

verus! {

/// The graphemes met on a scan, each with its position; of a grapheme only the
/// character matters, where it is a single one.
pub type Glyphs = Seq<(Pos, Option<char>)>;

/// The graphemes of a line from a column on.
pub open spec fn row_glyphs(t: Text, row: int, col: int) -> Glyphs {
    let n = t[row].len();
    Seq::new(
        (if col < n {
            n - col
        } else {
            0
        }) as nat,
        |i: int|
            (Pos { row: row as usize, col: (col + i) as usize }, line::single(t[row][col + i])),
    )
}

/// The graphemes of a text from a position on.
pub open spec fn glyphs(t: Text, row: int, col: int) -> Glyphs
    decreases t.len() - row,
{
    if row < 0 || row >= t.len() {
        Seq::empty()
    } else {
        row_glyphs(t, row, col) + glyphs(t, row + 1, 0)
    }
}

/// The first `n` graphemes of a line, last first.
pub open spec fn row_glyphs_back(t: Text, row: int, n: int) -> Glyphs {
    Seq::new(
        n as nat,
        |i: int|
            (
                Pos { row: row as usize, col: (n - 1 - i) as usize },
                line::single(t[row][n - 1 - i]),
            ),
    )
}

/// The first `n` graphemes of a line and all those of the lines before, last
/// first.
pub open spec fn glyphs_back(t: Text, row: int, n: int) -> Glyphs
    decreases row,
{
    if row < 0 || row >= t.len() {
        Seq::empty()
    } else if row == 0 {
        row_glyphs_back(t, row, n)
    } else {
        row_glyphs_back(t, row, n) + glyphs_back(t, row - 1, t[row - 1].len() as int)
    }
}

/// The graphemes that a forward scan from a position meets, the one at the
/// position first.
pub open spec fn ahead(t: Text, p: Pos) -> Glyphs {
    let q = words::bounded(t, p, false);
    glyphs(t, q.row as int, q.col as int)
}

/// The graphemes that a backward scan from a position meets, the one at the
/// position first.
pub open spec fn behind(t: Text, p: Pos) -> Glyphs {
    if t.len() == 0 {
        Seq::empty()
    } else {
        let q = words::bounded(t, p, false);
        glyphs_back(t, q.row as int, line::least(q.col + 1, t[q.row as int].len() as int))
    }
}

fn scan_ahead(lines: &Vec<Line>, p: Pos) -> (r: Vec<(Pos, Option<char>)>)
    ensures
        r@ == ahead(lines::text(lines@), p),
{
    let ghost t = lines::text(lines@);
    let q = bound_pos(lines, p, false);
    let mut out: Vec<(Pos, Option<char>)> = Vec::new();
    let mut row: usize = q.row;
    let mut col: usize = q.col;
    assert(out@ + glyphs(t, row as int, col as int) =~= ahead(t, p));
    while row < lines.len()
        invariant
            t == lines::text(lines@),
            out@ + glyphs(t, row as int, col as int) == ahead(t, p),
        decreases lines@.len() - row,
    {
        let n: usize = lines[row].len();
        let ghost start = out@;
        let ghost c0 = col as int;
        let mut c: usize = col;
        assert(t[row as int] == lines@[row as int]@);
        assert(out@ =~= start + row_glyphs(t, row as int, c0).take(0));
        while c < n
            invariant
                row < lines@.len(),
                t == lines::text(lines@),
                n == lines@[row as int]@.len(),
                c0 <= c,
                c0 < n ==> c <= n,
                c0 >= n ==> c == c0,
                out@ == start + row_glyphs(t, row as int, c0).take(c - c0),
            decreases n - c,
        {
            let ch = lines[row].at(c).as_char();
            assert(t[row as int] == lines@[row as int]@);
            out.push((Pos { row, col: c }, ch));
            c = c + 1;
            assert(out@ =~= start + row_glyphs(t, row as int, c0).take(c - c0));
        }
        assert(row_glyphs(t, row as int, c0).take(c - c0) =~= row_glyphs(t, row as int, c0));
        assert(out@ + glyphs(t, row + 1, 0) =~= start + glyphs(t, row as int, c0));
        row = row + 1;
        col = 0;
    }
    assert(out@ + glyphs(t, row as int, col as int) =~= out@);
    out
}

fn scan_behind(lines: &Vec<Line>, p: Pos) -> (r: Vec<(Pos, Option<char>)>)
    ensures
        r@ == behind(lines::text(lines@), p),
{
    let ghost t = lines::text(lines@);
    let mut out: Vec<(Pos, Option<char>)> = Vec::new();
    if lines.len() == 0 {
        assert(out@ =~= behind(t, p));
        return out;
    }
    let q = bound_pos(lines, p, false);
    let mut row: usize = q.row;
    assert(t[row as int] == lines@[row as int]@);
    let mut n: usize = if q.col < lines[row].len() {
        q.col + 1
    } else {
        lines[row].len()
    };
    assert(out@ + glyphs_back(t, row as int, n as int) =~= behind(t, p));
    loop
        invariant_except_break
            out@ + glyphs_back(t, row as int, n as int) == behind(t, p),
        invariant
            t == lines::text(lines@),
            row < lines@.len(),
            n <= lines@[row as int]@.len(),
        ensures
            out@ == behind(t, p),
        decreases row,
    {
        let ghost start = out@;
        let ghost n0 = n as int;
        assert(out@ =~= start + row_glyphs_back(t, row as int, n0).take(0));
        while n > 0
            invariant
                row < lines@.len(),
                t == lines::text(lines@),
                n <= n0 <= lines@[row as int]@.len(),
                out@ == start + row_glyphs_back(t, row as int, n0).take(n0 - n),
            decreases n,
        {
            n = n - 1;
            let ch = lines[row].at(n).as_char();
            assert(t[row as int] == lines@[row as int]@);
            out.push((Pos { row, col: n }, ch));
            assert(out@ =~= start + row_glyphs_back(t, row as int, n0).take(n0 - n));
        }
        assert(row_glyphs_back(t, row as int, n0).take(n0) =~= row_glyphs_back(t, row as int, n0));
        if row == 0 {
            assert(out@ =~= start + glyphs_back(t, 0, n0));
            break;
        }
        row = row - 1;
        n = lines[row].len();
        assert(t[row as int] == lines@[row as int]@);
        assert(out@ + glyphs_back(t, row as int, n as int) =~= start + glyphs_back(t, row + 1, n0));
    }
    out
}

/// The first place from `i` on with the character `c`.
pub open spec fn first_char(s: Glyphs, i: int, c: char) -> int
    decreases s.len() - i,
{
    if i >= s.len() {
        s.len() as int
    } else if s[i].1 == Some(c) {
        i
    } else {
        first_char(s, i + 1, c)
    }
}

/// The position at a place of a scan.
pub open spec fn spot(s: Glyphs, i: int) -> Option<Pos> {
    if 0 <= i < s.len() {
        Some(s[i].0)
    } else {
        None
    }
}

fn is_glyph(g: &(Pos, Option<char>), c: char) -> (r: bool)
    ensures
        r == (g.1 == Some(c)),
{
    match g.1 {
        Some(d) => d == c,
        None => false,
    }
}

fn find_char(v: &Vec<(Pos, Option<char>)>, c: char) -> (r: Option<Pos>)
    ensures
        r == spot(v@, first_char(v@, 0, c)),
{
    let mut i: usize = 0;
    while i < v.len()
        invariant
            first_char(v@, 0, c) == first_char(v@, i as int, c),
            i <= v@.len(),
        decreases v@.len() - i,
    {
        if is_glyph(&v[i], c) {
            return Some(v[i].0);
        }
        i = i + 1;
    }
    None
}

/// The first of the two that is there.
pub open spec fn either(a: Option<Pos>, b: Option<Pos>) -> Option<Pos> {
    match a {
        Some(p) => Some(p),
        None => b,
    }
}

/// A position one column further.
pub open spec fn next_col(p: Pos) -> Pos {
    Pos { row: p.row, col: line::capped((p.col + 1) as nat) }
}

/// One column further.
pub fn step_right(p: Pos) -> (r: Pos)
    ensures
        r == next_col(p),
{
    Pos { row: p.row, col: p.col.saturating_add(1) }
}

/// A span whose end does not belong to it, where it runs forward.
pub open spec fn open_span(start: Pos, end: Pos) -> Option<MotionKind> {
    if pos::pos_lt(end, start) {
        None
    } else {
        Some(MotionKind::Char { start, end, inclusive: false })
    }
}

fn make_open_span(start: Pos, end: Pos) -> (r: Option<MotionKind>)
    ensures
        r == open_span(start, end),
{
    if end < start {
        None
    } else {
        Some(MotionKind::Char { start, end, inclusive: false })
    }
}

/// The quoted object at the cursor: from the quote at or before it, or else
/// the next one, to the quote that follows. Around a quoted object is the
/// whitespace behind it too.
pub open spec fn quote_object(t: Text, cursor: Pos, q: char, bound: Bound) -> Option<MotionKind> {
    let b = behind(t, cursor);
    let f = ahead(t, cursor);
    match either(spot(b, first_char(b, 0, q)), spot(f, first_char(f, 0, q))) {
        None => None,
        Some(start) => {
            let rest = ahead(t, next_col(start));
            match spot(rest, first_char(rest, 0, q)) {
                None => None,
                Some(end) => match bound {
                    Bound::Inside => open_span(next_col(start), end),
                    Bound::Around => {
                        let s = words::forward_from(t, next_col(end));
                        open_span(
                            start,
                            match words::place(s, words::first_ws(s, 0, false)) {
                                Some(p) => p,
                                None => words::bounded(
                                    t,
                                    Pos { row: usize::MAX, col: usize::MAX },
                                    false,
                                ),
                            },
                        )
                    },
                },
            }
        },
    }
}

/// The quoted object at the cursor.
pub fn text_obj_quote(lines: &Vec<Line>, cursor: Pos, q: char, bound: Bound) -> (r: Option<
    MotionKind,
>)
    ensures
        r == quote_object(lines::text(lines@), cursor, q, bound),
{
    let b = scan_behind(lines, cursor);
    let start = match find_char(&b, q) {
        Some(p) => p,
        None => {
            let f = scan_ahead(lines, cursor);
            match find_char(&f, q) {
                Some(p) => p,
                None => return None,
            }
        },
    };
    let rest = scan_ahead(lines, step_right(start));
    let end = match find_char(&rest, q) {
        Some(p) => p,
        None => return None,
    };
    match bound {
        Bound::Inside => make_open_span(step_right(start), end),
        Bound::Around => {
            let s = char_classes_forward_from(lines, step_right(end));
            let mut i: usize = 0;
            while i < s.len() && s[i].1.is_ws()
                invariant
                    i <= s@.len(),
                    words::first_ws(s@, 0, false) == words::first_ws(s@, i as int, false),
                decreases s@.len() - i,
            {
                i = i + 1;
            }
            let stop = if i < s.len() {
                s[i].0
            } else {
                bound_pos(lines, Pos::max(), false)
            };
            make_open_span(start, stop)
        },
    }
}

/// The first opener from `i` on that `depth` closers before it do not match.
pub open spec fn enclosing(s: Glyphs, i: int, depth: nat, opener: char, closer: char) -> int
    decreases s.len() - i,
{
    if i >= s.len() {
        s.len() as int
    } else {
        let d = if s[i].1 == Some(closer) {
            depth + 1
        } else {
            depth
        };
        if s[i].1 == Some(opener) {
            if d == 0 {
                i
            } else {
                enclosing(s, i + 1, (d - 1) as nat, opener, closer)
            }
        } else {
            enclosing(s, i + 1, d, opener, closer)
        }
    }
}

/// The nesting after one grapheme.
pub open spec fn nested(depth: int, g: Option<char>, opener: char, closer: char) -> int {
    depth + (if g == Some(opener) {
        1int
    } else {
        0
    }) - (if g == Some(closer) {
        1int
    } else {
        0
    })
}

/// The first place from `i` on where the nesting is back to nothing.
pub open spec fn closing(s: Glyphs, i: int, depth: int, opener: char, closer: char) -> int
    decreases s.len() - i,
{
    if i >= s.len() {
        s.len() as int
    } else {
        let d = nested(depth, s[i].1, opener, closer);
        if d == 0 {
            i
        } else {
            closing(s, i + 1, d, opener, closer)
        }
    }
}

/// The first closer from `i` on at which the nesting is at most nothing.
pub open spec fn leaving(s: Glyphs, i: int, depth: int, opener: char, closer: char) -> int
    decreases s.len() - i,
{
    if i >= s.len() {
        s.len() as int
    } else {
        let d = nested(depth, s[i].1, opener, closer);
        if s[i].1 == Some(closer) && d <= 0 {
            i
        } else {
            leaving(s, i + 1, d, opener, closer)
        }
    }
}

/// The bracketed object at the cursor: from the opener around it, or else the
/// next one, to its closer.
pub open spec fn delim_object(
    t: Text,
    cursor: Pos,
    opener: char,
    closer: char,
    bound: Bound,
) -> Option<MotionKind> {
    let b = behind(t, cursor);
    let f = ahead(t, cursor);
    match either(spot(b, enclosing(b, 0, 0, opener, closer)), spot(f, first_char(f, 0, opener))) {
        None => None,
        Some(start) => {
            let s = ahead(t, start);
            match spot(s, closing(s, 0, 0, opener, closer)) {
                None => None,
                Some(end) => match bound {
                    Bound::Around => Some(MotionKind::Char { start, end, inclusive: true }),
                    Bound::Inside => open_span(next_col(start), end),
                },
            }
        },
    }
}

fn find_enclosing(v: &Vec<(Pos, Option<char>)>, opener: char, closer: char) -> (r: Option<Pos>)
    ensures
        r == spot(v@, enclosing(v@, 0, 0, opener, closer)),
{
    let mut i: usize = 0;
    let mut depth: usize = 0;
    while i < v.len()
        invariant
            i <= v@.len(),
            depth <= i,
            enclosing(v@, 0, 0, opener, closer) == enclosing(
                v@,
                i as int,
                depth as nat,
                opener,
                closer,
            ),
        decreases v@.len() - i,
    {
        if is_glyph(&v[i], closer) {
            depth = depth + 1;
        }
        if is_glyph(&v[i], opener) {
            if depth == 0 {
                return Some(v[i].0);
            }
            depth = depth - 1;
        }
        i = i + 1;
    }
    None
}

fn find_closing(v: &Vec<(Pos, Option<char>)>, opener: char, closer: char) -> (r: Option<Pos>)
    ensures
        r == spot(v@, closing(v@, 0, 0, opener, closer)),
{
    let mut i: usize = 0;
    let mut depth: i128 = 0;
    while i < v.len()
        invariant
            i <= v@.len(),
            -i <= depth <= i,
            closing(v@, 0, 0, opener, closer) == closing(v@, i as int, depth as int, opener, closer),
        decreases v@.len() - i,
    {
        if is_glyph(&v[i], opener) {
            depth = depth + 1;
        }
        if is_glyph(&v[i], closer) {
            depth = depth - 1;
        }
        if depth == 0 {
            return Some(v[i].0);
        }
        i = i + 1;
    }
    None
}

fn find_leaving(v: &Vec<(Pos, Option<char>)>, opener: char, closer: char) -> (r: Option<Pos>)
    ensures
        r == spot(v@, leaving(v@, 0, 0, opener, closer)),
{
    let mut i: usize = 0;
    let mut depth: i128 = 0;
    while i < v.len()
        invariant
            i <= v@.len(),
            -i <= depth <= i,
            leaving(v@, 0, 0, opener, closer) == leaving(v@, i as int, depth as int, opener, closer),
        decreases v@.len() - i,
    {
        if is_glyph(&v[i], opener) {
            depth = depth + 1;
        }
        if is_glyph(&v[i], closer) {
            depth = depth - 1;
            if depth <= 0 {
                return Some(v[i].0);
            }
        }
        i = i + 1;
    }
    None
}

/// The bracketed object at the cursor.
pub fn text_obj_delim(
    lines: &Vec<Line>,
    cursor: Pos,
    opener: char,
    closer: char,
    bound: Bound,
) -> (r: Option<MotionKind>)
    ensures
        r == delim_object(lines::text(lines@), cursor, opener, closer, bound),
{
    let b = scan_behind(lines, cursor);
    let start = match find_enclosing(&b, opener, closer) {
        Some(p) => p,
        None => {
            let f = scan_ahead(lines, cursor);
            match find_char(&f, opener) {
                Some(p) => p,
                None => return None,
            }
        },
    };
    let s = scan_ahead(lines, start);
    let end = match find_closing(&s, opener, closer) {
        Some(p) => p,
        None => return None,
    };
    match bound {
        Bound::Around => Some(MotionKind::Char { start, end, inclusive: true }),
        Bound::Inside => make_open_span(step_right(start), end),
    }
}

/// Where `]` and its like land: the closer that leaves the nesting ahead of
/// the cursor, or the opener that leaves it behind.
pub open spec fn bracket_target(
    t: Text,
    cursor: Pos,
    opener: char,
    closer: char,
    dir: Direction,
) -> Option<Pos> {
    match dir {
        Direction::Forward => {
            let s = ahead(t, cursor);
            spot(s, leaving(s, 0, 0, opener, closer))
        },
        Direction::Backward => {
            let s = behind(t, cursor);
            spot(s, leaving(s, 0, 0, closer, opener))
        },
    }
}

/// Where `]` and its like land.
pub fn to_bracket(
    lines: &Vec<Line>,
    cursor: Pos,
    opener: char,
    closer: char,
    dir: Direction,
) -> (r: Option<Pos>)
    ensures
        r == bracket_target(lines::text(lines@), cursor, opener, closer, dir),
{
    match dir {
        Direction::Forward => {
            let s = scan_ahead(lines, cursor);
            find_leaving(&s, opener, closer)
        },
        Direction::Backward => {
            let s = scan_behind(lines, cursor);
            find_leaving(&s, closer, opener)
        },
    }
}

/// The other delimiter of a pair, and whether the given one opens it.
pub open spec fn partner(c: char) -> Option<(char, bool)> {
    if c == '(' {
        Some((')', true))
    } else if c == '[' {
        Some((']', true))
    } else if c == '{' {
        Some(('}', true))
    } else if c == '<' {
        Some(('>', true))
    } else if c == ')' {
        Some(('(', false))
    } else if c == ']' {
        Some(('[', false))
    } else if c == '}' {
        Some(('{', false))
    } else if c == '>' {
        Some(('<', false))
    } else {
        None
    }
}

/// The other delimiter of a pair, and whether the given one opens it.
pub fn partner_of(c: char) -> (r: Option<(char, bool)>)
    ensures
        r == partner(c),
{
    if c == '(' {
        Some((')', true))
    } else if c == '[' {
        Some((']', true))
    } else if c == '{' {
        Some(('}', true))
    } else if c == '<' {
        Some(('>', true))
    } else if c == ')' {
        Some(('(', false))
    } else if c == ']' {
        Some(('[', false))
    } else if c == '}' {
        Some(('{', false))
    } else if c == '>' {
        Some(('<', false))
    } else {
        None
    }
}

/// What a grapheme pairs with, where it is a delimiter.
pub open spec fn pairs_with(g: Option<char>) -> Option<(char, bool)> {
    match g {
        Some(c) => partner(c),
        None => None,
    }
}

/// The first place from `i` on that holds a delimiter.
pub open spec fn first_delim(s: Glyphs, i: int) -> int
    decreases s.len() - i,
{
    if i >= s.len() {
        s.len() as int
    } else if pairs_with(s[i].1) is Some {
        i
    } else {
        first_delim(s, i + 1)
    }
}

/// The span from the cursor to the partner of the first delimiter at or after
/// it: the next closer for an opener, the previous opener for a closer.
pub open spec fn delim_match(t: Text, cursor: Pos) -> Option<MotionKind> {
    let f = ahead(t, cursor);
    let i = first_delim(f, 0);
    if i >= f.len() {
        None
    } else {
        let (c, opens) = pairs_with(f[i].1)->0;
        let s = if opens {
            ahead(t, f[i].0)
        } else {
            behind(t, f[i].0)
        };
        match spot(s, first_char(s, 0, c)) {
            Some(end) => Some(MotionKind::Char { start: cursor, end, inclusive: true }),
            None => None,
        }
    }
}

/// The span from the cursor to the partner of the first delimiter at or after
/// it.
pub fn find_delim_match(lines: &Vec<Line>, cursor: Pos) -> (r: Option<MotionKind>)
    ensures
        r == delim_match(lines::text(lines@), cursor),
{
    let f = scan_ahead(lines, cursor);
    let mut i: usize = 0;
    while i < f.len()
        invariant
            i <= f@.len(),
            f@ == ahead(lines::text(lines@), cursor),
            first_delim(f@, 0) == first_delim(f@, i as int),
        decreases f@.len() - i,
    {
        if let Some(c) = f[i].1 {
            if let Some((other, opens)) = partner_of(c) {
                let s = if opens {
                    scan_ahead(lines, f[i].0)
                } else {
                    scan_behind(lines, f[i].0)
                };
                return match find_char(&s, other) {
                    Some(end) => Some(MotionKind::Char { start: cursor, end, inclusive: true }),
                    None => None,
                };
            }
        }
        i = i + 1;
    }
    None
}

/// Whether a grapheme is a decimal digit.
pub open spec fn digit(g: Option<char>) -> bool {
    g matches Some(c) && unicode::ascii_digit(c)
}

/// The first place from `i` on that holds no digit.
pub open spec fn first_non_digit(s: Glyphs, i: int) -> int
    decreases s.len() - i,
{
    if i >= s.len() {
        s.len() as int
    } else if !digit(s[i].1) {
        i
    } else {
        first_non_digit(s, i + 1)
    }
}

/// The grapheme at a position, where it is a single character.
pub open spec fn glyph_at(t: Text, p: Pos) -> Option<char> {
    if p.row < t.len() && p.col < t[p.row as int].len() {
        line::single(t[p.row as int][p.col as int])
    } else {
        None
    }
}

/// The span of the number at a position: the run of digits around it, with a
/// minus sign before it.
pub open spec fn number_span(t: Text, at: Pos) -> Option<(Pos, Pos)> {
    let p = words::bounded(t, at, false);
    match glyph_at(t, p) {
        None => None,
        Some(c) => if !(c == '.' || c == '-' || unicode::ascii_digit(c)) {
            None
        } else {
            let from = if c == '-' {
                next_col(p)
            } else {
                p
            };
            let b = behind(t, from);
            let f = ahead(t, from);
            let start = match spot(b, first_non_digit(b, 0)) {
                Some(q) => next_col(q),
                None => Pos { row: 0, col: 0 },
            };
            let end = match spot(f, first_non_digit(f, 0)) {
                Some(q) => Pos { row: q.row, col: pos::one_less(q.col) },
                None => Pos { row: from.row, col: words::last_col(t, from.row as int) as usize },
            };
            let signed = start.col > 0 && glyph_at(
                t,
                Pos { row: start.row, col: (start.col - 1) as usize },
            ) == Some('-');
            Some(
                (
                    if signed {
                        Pos { row: start.row, col: (start.col - 1) as usize }
                    } else {
                        start
                    },
                    end,
                ),
            )
        },
    }
}

fn find_non_digit(v: &Vec<(Pos, Option<char>)>) -> (r: Option<Pos>)
    ensures
        r == spot(v@, first_non_digit(v@, 0)),
{
    let mut i: usize = 0;
    while i < v.len()
        invariant
            i <= v@.len(),
            first_non_digit(v@, 0) == first_non_digit(v@, i as int),
        decreases v@.len() - i,
    {
        let d: bool = match v[i].1 {
            Some(c) => is_ascii_digit(c),
            None => false,
        };
        if !d {
            return Some(v[i].0);
        }
        i = i + 1;
    }
    None
}

/// The grapheme at a position, where it is a single character.
pub fn char_at(lines: &Vec<Line>, p: Pos) -> (r: Option<char>)
    ensures
        r == glyph_at(lines::text(lines@), p),
{
    if p.row < lines.len() {
        assert(lines::text(lines@)[p.row as int] == lines@[p.row as int]@);
        if p.col < lines[p.row].len() {
            return lines[p.row].at(p.col).as_char();
        }
    }
    None
}

/// The span of the number at a position, if any.
pub fn number_at(lines: &Vec<Line>, at: Pos) -> (r: Option<(Pos, Pos)>)
    ensures
        r == number_span(lines::text(lines@), at),
{
    let ghost t = lines::text(lines@);
    let p = bound_pos(lines, at, false);
    let c = match char_at(lines, p) {
        Some(c) => c,
        None => return None,
    };
    if !(c == '.' || c == '-' || is_ascii_digit(c)) {
        return None;
    }
    let from = if c == '-' {
        step_right(p)
    } else {
        p
    };
    let b = scan_behind(lines, from);
    let f = scan_ahead(lines, from);
    let start = match find_non_digit(&b) {
        Some(q) => step_right(q),
        None => Pos { row: 0, col: 0 },
    };
    let end = match find_non_digit(&f) {
        Some(q) => Pos { row: q.row, col: q.col.saturating_sub(1) },
        None => {
            assert(t[from.row as int] == lines@[from.row as int]@);
            Pos { row: from.row, col: lines[from.row].len().saturating_sub(1) }
        },
    };
    if start.col > 0 {
        let sign = Pos { row: start.row, col: start.col - 1 };
        if let Some('-') = char_at(lines, sign) {
            return Some((sign, end));
        }
    }
    Some((start, end))
}

} // verus!
