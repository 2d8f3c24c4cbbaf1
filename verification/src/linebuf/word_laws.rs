//! What the word motions and the word objects find, said of the text itself: by
//! its places and their classes, not by how the text is walked over.

use crate::editcmd::Bound;
use crate::editcmd::Direction;
use crate::editcmd::To;
use crate::editcmd::Word;
use crate::linebuf::line;
use crate::linebuf::line::CharClass;
use crate::linebuf::lines::Text;
use crate::linebuf::pos::MotionKind;
use crate::linebuf::pos::Pos;
use crate::linebuf::words;
use crate::linebuf::words::Walk;
use vstd::prelude::*;

verus! {

/// Whether a grapheme stands at a place.
pub open spec fn on(t: Text, p: Pos) -> bool {
    p.row < t.len() && p.col < t[p.row as int].len()
}

/// The class of the grapheme at a column of a row.
pub open spec fn class_in(t: Text, row: int, col: int) -> CharClass {
    line::class_of(t[row][col])
}

/// Whether a grapheme that is no whitespace stands at a place.
pub open spec fn inked(t: Text, p: Pos) -> bool {
    on(t, p) && class_in(t, p.row as int, p.col as int) != CharClass::Whitespace
}

/// Whether a place comes before another.
pub open spec fn prior(a: Pos, b: Pos) -> bool {
    a.row < b.row || (a.row == b.row && a.col < b.col)
}

/// Whether a class ends a word whose graphemes have the class `c`.
pub open spec fn breaks(word: Word, c: CharClass, d: CharClass) -> bool {
    match word {
        Word::Big => d == CharClass::Whitespace,
        Word::Normal => d != c,
    }
}

/// Whether the word of a place has ended once a later place is reached.
pub open spec fn parted(t: Text, word: Word, a: Pos, b: Pos) -> bool {
    a.row != b.row || exists|col: int|
        a.col < col <= b.col && breaks(
            word,
            class_in(t, a.row as int, a.col as int),
            #[trigger] class_in(t, a.row as int, col),
        )
}

/// Whether the word of a place has ended once an earlier place is reached.
pub open spec fn parted_back(t: Text, word: Word, b: Pos, a: Pos) -> bool {
    a.row != b.row || exists|col: int|
        b.col <= col < a.col && breaks(
            word,
            class_in(t, a.row as int, a.col as int),
            #[trigger] class_in(t, a.row as int, col),
        )
}

/// Whether a word begins at a place.
pub open spec fn begins(t: Text, word: Word, p: Pos) -> bool {
    p.col == 0 || breaks(
        word,
        class_in(t, p.row as int, p.col as int),
        class_in(t, p.row as int, p.col - 1),
    )
}

/// Whether a word ends at a place.
pub open spec fn ends(t: Text, word: Word, p: Pos) -> bool {
    p.col + 1 >= t[p.row as int].len() || breaks(
        word,
        class_in(t, p.row as int, p.col as int),
        class_in(t, p.row as int, p.col + 1),
    )
}

/// Whether a machine can count the rows and the columns of a text.
pub open spec fn countable(t: Text) -> bool {
    t.len() <= usize::MAX && forall|r: int| 0 <= r < t.len() ==> (#[trigger] t[r]).len()
        <= usize::MAX
}

/// How many steps a walk forward takes to a place.
spec fn steps_to(t: Text, row: int, col: int, q: Pos) -> int
    decreases q.row - row,
{
    if q.row <= row {
        q.col - col
    } else {
        (if t[row].len() == 0 {
            1
        } else if col < t[row].len() {
            t[row].len() - col + 1
        } else {
            1
        }) + steps_to(t, row + 1, 0, q)
    }
}

proof fn lemma_met(t: Text, row: int, col: int, q: Pos)
    requires
        countable(t),
        0 <= row <= q.row,
        0 <= col,
        on(t, q),
        q.row == row ==> col <= q.col,
    ensures
        0 <= steps_to(t, row, col, q) < words::forward(t, row, col).len(),
        words::forward(t, row, col)[steps_to(t, row, col, q)] == (
            q,
            class_in(t, q.row as int, q.col as int),
        ),
    decreases q.row - row,
{
    if q.row > row {
        lemma_met(t, row + 1, 0, q);
    }
}

proof fn lemma_entry(t: Text, row: int, col: int, i: int)
    requires
        countable(t),
        0 <= row,
        0 <= col,
        0 <= i < words::forward(t, row, col).len(),
        words::forward(t, row, col)[i].1 != CharClass::Whitespace,
    ensures
        ({
            let e = words::forward(t, row, col)[i];
            &&& inked(t, e.0)
            &&& e.1 == class_in(t, e.0.row as int, e.0.col as int)
            &&& row <= e.0.row
            &&& e.0.row == row ==> col <= e.0.col
            &&& steps_to(t, row, col, e.0) == i
        }),
    decreases t.len() - row,
{
    let n = t[row].len() as int;
    let w = words::row_walk(t, row, col);
    if n == 0 {
        lemma_entry(t, row + 1, 0, i - 1);
    } else if i >= w.len() {
        lemma_entry(t, row + 1, 0, i - w.len() - 1);
    }
}

proof fn lemma_later(t: Text, row: int, col: int, a: Pos, b: Pos)
    requires
        countable(t),
        0 <= row <= a.row,
        0 <= col,
        on(t, a),
        on(t, b),
        a.row == row ==> col <= a.col,
        prior(a, b),
    ensures
        steps_to(t, row, col, a) < steps_to(t, row, col, b),
        a.row == b.row ==> steps_to(t, row, col, b) - steps_to(t, row, col, a) == b.col - a.col,
    decreases a.row - row,
{
    if a.row > row {
        lemma_later(t, row + 1, 0, a, b);
    } else if b.row > row {
        lemma_met(t, row + 1, 0, b);
    }
}

/// What stands right behind a place on a walk: the next grapheme of the row, or the
/// end of the row, which counts as whitespace.
proof fn lemma_next(t: Text, row: int, col: int, q: Pos)
    requires
        countable(t),
        0 <= row <= q.row,
        0 <= col,
        on(t, q),
        q.row == row ==> col <= q.col,
    ensures
        ({
            let s = words::forward(t, row, col);
            let k = steps_to(t, row, col, q) + 1;
            &&& q.col + 1 < t[q.row as int].len() ==> k < s.len() && s[k] == (
                Pos { row: q.row, col: (q.col + 1) as usize },
                class_in(t, q.row as int, q.col + 1),
            )
            &&& q.col + 1 == t[q.row as int].len() && q.row + 1 < t.len() ==> k < s.len() && s[k].1
                == CharClass::Whitespace && s[k].0 == (Pos { row: (q.row + 1) as usize, col: 0 })
            &&& q.col + 1 == t[q.row as int].len() && q.row + 1 == t.len() ==> k == s.len()
        }),
    decreases q.row - row,
{
    lemma_met(t, row, col, q);
    if q.row > row {
        lemma_next(t, row + 1, 0, q);
    }
}

proof fn lemma_first_ws(s: Walk, i: int, ws: bool)
    requires
        0 <= i,
    ensures
        ({
            let e = words::first_ws(s, i, ws);
            &&& i <= s.len() ==> i <= e <= s.len()
            &&& i > s.len() ==> e == s.len()
            &&& e < s.len() ==> (s[e].1 == CharClass::Whitespace) == ws
            &&& forall|k: int|
                i <= k < e ==> ((#[trigger] s[k]).1 == CharClass::Whitespace) != ws
        }),
    decreases s.len() - i,
{
    if i < s.len() && (s[i].1 == CharClass::Whitespace) != ws {
        lemma_first_ws(s, i + 1, ws);
    }
}

proof fn lemma_first_other(s: Walk, i: int, c: CharClass)
    requires
        0 <= i,
    ensures
        ({
            let e = words::first_other(s, i, c);
            &&& i <= s.len() ==> i <= e <= s.len()
            &&& i > s.len() ==> e == s.len()
            &&& e < s.len() ==> s[e].1 != c
            &&& forall|k: int| i <= k < e ==> (#[trigger] s[k]).1 == c
        }),
    decreases s.len() - i,
{
    if i < s.len() && s[i].1 == c {
        lemma_first_other(s, i + 1, c);
    }
}

proof fn lemma_word_end(s: Walk, i: int, word: Word, c: CharClass)
    requires
        0 <= i,
    ensures
        ({
            let e = words::word_end(s, i, word, c);
            &&& i <= s.len() ==> i <= e <= s.len()
            &&& i > s.len() ==> e == s.len()
            &&& e < s.len() ==> breaks(word, c, s[e].1)
            &&& forall|k: int| i <= k < e ==> !breaks(word, c, (#[trigger] s[k]).1)
        }),
{
    lemma_first_ws(s, i, true);
    lemma_first_other(s, i, c);
}

/// A place that is parted from the start of a walk has a break before it or at it.
proof fn lemma_parted(t: Text, a: Pos, q: Pos, word: Word)
    requires
        countable(t),
        inked(t, a),
        inked(t, q),
        prior(a, q),
    ensures
        ({
            let s = words::forward_from(t, a);
            let j = steps_to(t, a.row as int, a.col as int, q);
            &&& 0 < j < s.len()
            &&& s[j] == (q, class_in(t, q.row as int, q.col as int))
            &&& parted(t, word, a, q) <==> exists|k: int|
                0 < k <= j && breaks(word, s[0].1, (#[trigger] s[k]).1)
        }),
{
    let s = words::forward_from(t, a);
    let row = a.row as int;
    let col = a.col as int;
    let j = steps_to(t, row, col, q);
    lemma_met(t, row, col, a);
    lemma_met(t, row, col, q);
    lemma_later(t, row, col, a, q);
    let c = class_in(t, row, col);
    assert(s[0] == (a, c));
    if a.row == q.row {
        assert forall|k: int| 0 < k <= j implies (#[trigger] s[k]).1 == class_in(
            t,
            row,
            col + k,
        ) by {
            lemma_met(t, row, col, Pos { row: a.row, col: (col + k) as usize });
        }
        if parted(t, word, a, q) {
            let x = choose|x: int|
                a.col < x <= q.col && breaks(word, c, #[trigger] class_in(t, row, x));
            assert(s[x - col].1 == class_in(t, row, x));
        }
        if exists|k: int| 0 < k <= j && breaks(word, s[0].1, (#[trigger] s[k]).1) {
            let k = choose|k: int| 0 < k <= j && breaks(word, s[0].1, (#[trigger] s[k]).1);
            assert(s[k].1 == class_in(t, row, col + k));
        }
    } else {
        let last = Pos { row: a.row, col: (t[row].len() - 1) as usize };
        lemma_met(t, row, col, last);
        lemma_next(t, row, col, last);
        if a != last {
            lemma_later(t, row, col, a, last);
        }
        lemma_later(t, row, col, last, q);
        let k = steps_to(t, row, col, last) + 1;
        assert(breaks(word, s[0].1, s[k].1));
    }
}

/// From a word, `w` and `W` go to the first grapheme behind it that is no whitespace:
/// `W` to the first with whitespace or the end of a row in between, `w` also to the
/// first of another class. They find nothing only where there is no such grapheme.
pub proof fn w_goes_to_the_next_word(t: Text, a: Pos, word: Word)
    requires
        countable(t),
        inked(t, a),
    ensures
        match words::w_target(words::forward_from(t, a), word, false) {
            Some(p) => {
                &&& inked(t, p)
                &&& prior(a, p)
                &&& parted(t, word, a, p)
                &&& forall|q: Pos| #[trigger]
                    inked(t, q) && prior(a, q) && prior(q, p) ==> !parted(t, word, a, q)
            },
            None => forall|q: Pos| #[trigger]
                inked(t, q) && prior(a, q) ==> !parted(t, word, a, q),
        },
        !words::w_stops_short(words::forward_from(t, a), word, false),
{
    let s = words::forward_from(t, a);
    let row = a.row as int;
    let col = a.col as int;
    lemma_met(t, row, col, a);
    let c = s[0].1;
    let e = match word {
        Word::Big => words::first_ws(s, 0, true),
        Word::Normal => words::first_other(s, 1, c),
    };
    lemma_first_ws(s, 0, true);
    lemma_first_other(s, 1, c);
    assert(forall|k: int| 0 < k < e ==> !breaks(word, c, (#[trigger] s[k]).1));
    lemma_first_ws(s, e + 1, false);
    lemma_first_ws(s, e, false);
    let i = words::first_ws(s, e, false);
    match words::w_target(s, word, false) {
        Some(p) => {
            assert(e < s.len() && e <= i < s.len() && p == s[i].0);
            lemma_entry(t, row, col, i);
            lemma_parted_start(t, a, p);
            lemma_parted(t, a, p, word);
            assert(breaks(word, c, s[e].1));
            assert forall|q: Pos| #[trigger]
                inked(t, q) && prior(a, q) && prior(q, p) implies !parted(t, word, a, q) by {
                lemma_parted(t, a, q, word);
                lemma_later(t, row, col, q, p);
            }
        },
        None => {
            assert forall|q: Pos| #[trigger] inked(t, q) && prior(a, q) implies !parted(
                t,
                word,
                a,
                q,
            ) by {
                lemma_parted(t, a, q, word);
            }
        },
    }
}

proof fn lemma_parted_start(t: Text, a: Pos, p: Pos)
    requires
        countable(t),
        on(t, a),
        on(t, p),
        a.row <= p.row,
        a.row == p.row ==> a.col <= p.col,
        steps_to(t, a.row as int, a.col as int, p) > 0,
    ensures
        prior(a, p),
{
    if a.row == p.row && a.col == p.col {
        assert(steps_to(t, a.row as int, a.col as int, p) == 0);
    }
}

/// From whitespace, or from behind a row, every `w` goes to the first grapheme that is
/// no whitespace, and finds nothing only where there is none.
pub proof fn w_leaves_whitespace(t: Text, a: Pos, word: Word, ignore_ws: bool)
    requires
        countable(t),
        !inked(t, a),
    ensures
        match words::w_target(words::forward_from(t, a), word, ignore_ws) {
            Some(p) => {
                &&& inked(t, p)
                &&& !prior(p, a)
                &&& forall|q: Pos| #[trigger] inked(t, q) && !prior(q, a) ==> !prior(q, p)
            },
            None => forall|q: Pos| #[trigger] inked(t, q) ==> prior(q, a),
        },
{
    let s = words::forward_from(t, a);
    let row = a.row as int;
    let col = a.col as int;
    assert forall|q: Pos| #[trigger] inked(t, q) && !prior(q, a) implies ({
        let j = steps_to(t, row, col, q);
        0 <= j < s.len() && s[j] == (q, class_in(t, q.row as int, q.col as int))
    }) by {
        lemma_met(t, row, col, q);
    }
    if s.len() > 0 {
        if s[0].1 != CharClass::Whitespace {
            lemma_entry(t, row, col, 0);
            let p = s[0].0;
            if p.row > a.row {
                lemma_met(t, row + 1, 0, p);
            }
            assert(p == a);
        }
        lemma_first_ws(s, 0, false);
        let i = words::first_ws(s, 0, false);
        if i < s.len() {
            lemma_entry(t, row, col, i);
            let p = s[i].0;
            assert forall|q: Pos| #[trigger] inked(t, q) && !prior(q, a) implies !prior(q, p) by {
                if prior(q, p) {
                    lemma_met(t, row, col, q);
                    lemma_later(t, row, col, q, p);
                }
            }
        }
    }
}

/// A change to the next word goes over the word alone: where whitespace or the end of a
/// row follows, it stops on the last grapheme of the word, which belongs to it; where
/// another class follows, it stops before that.
pub proof fn a_change_takes_the_word_alone(t: Text, a: Pos)
    requires
        countable(t),
        inked(t, a),
    ensures
        ({
            let s = words::forward_from(t, a);
            let row = a.row as int;
            let c = class_in(t, row, a.col as int);
            match words::w_target(s, Word::Normal, true) {
                Some(p) => {
                    &&& p.row == a.row && on(t, p) && a.col <= p.col
                    &&& forall|x: int|
                        a.col <= x < p.col ==> #[trigger] class_in(t, row, x) == c
                    &&& if words::w_stops_short(s, Word::Normal, true) {
                        &&& class_in(t, row, p.col as int) == c
                        &&& p.col + 1 < t[row].len() ==> class_in(t, row, p.col + 1)
                            == CharClass::Whitespace
                        &&& p.col + 1 == t[row].len() ==> row + 1 < t.len()
                    } else {
                        inked(t, p) && class_in(t, row, p.col as int) != c
                    }
                },
                None => row + 1 == t.len() && forall|x: int|
                    a.col <= x < t[row].len() ==> #[trigger] class_in(t, row, x) == c,
            }
        }),
{
    let s = words::forward_from(t, a);
    let row = a.row as int;
    let col = a.col as int;
    lemma_met(t, row, col, a);
    let c = s[0].1;
    lemma_first_other(s, 1, c);
    let e = words::first_other(s, 1, c);
    lemma_row(t, a);
    let n = t[row].len() - col;
    assert forall|x: int| col <= x < t[row].len() && x - col < e implies #[trigger] class_in(
        t,
        row,
        x,
    ) == c by {
        assert(s[x - col].1 == class_in(t, row, x));
    }
    if e < n {
        assert(s[e] == (Pos { row: a.row, col: (col + e) as usize }, class_in(t, row, col + e)));
    }
    assert(s[e - 1] == (
        Pos { row: a.row, col: (col + e - 1) as usize },
        class_in(t, row, col + e - 1),
    ));
}

/// The walk from a grapheme begins with the rest of its row, and the end of a row that
/// is not the last counts as whitespace at the start of the next.
proof fn lemma_row(t: Text, a: Pos)
    requires
        countable(t),
        on(t, a),
    ensures
        ({
            let s = words::forward_from(t, a);
            let n = t[a.row as int].len() - a.col;
            &&& n <= s.len()
            &&& forall|k: int|
                0 <= k < n ==> (#[trigger] s[k]) == (
                    Pos { row: a.row, col: (a.col + k) as usize },
                    class_in(t, a.row as int, a.col + k),
                )
            &&& a.row + 1 < t.len() ==> n < s.len() && s[n] == (
                Pos { row: (a.row + 1) as usize, col: 0 },
                CharClass::Whitespace,
            )
            &&& a.row + 1 == t.len() ==> n == s.len()
        }),
{
    let row = a.row as int;
    let col = a.col as int;
    let n = t[row].len() - col;
    let s = words::forward_from(t, a);
    assert forall|k: int| 0 <= k < n implies (#[trigger] s[k]) == (
        Pos { row: a.row, col: (col + k) as usize },
        class_in(t, row, col + k),
    ) by {
        lemma_met(t, row, col, Pos { row: a.row, col: (col + k) as usize });
    }
    let last = Pos { row: a.row, col: (t[row].len() - 1) as usize };
    lemma_met(t, row, col, last);
    lemma_next(t, row, col, last);
}

/// A change to the next big word goes up to the first whitespace of the row, or to the
/// end of the row.
pub proof fn a_change_takes_the_big_word_alone(t: Text, a: Pos)
    requires
        countable(t),
        inked(t, a),
    ensures
        ({
            let s = words::forward_from(t, a);
            let row = a.row as int;
            &&& !words::w_stops_short(s, Word::Big, true)
            &&& match words::w_target(s, Word::Big, true) {
                Some(p) => if p.row == a.row {
                    &&& on(t, p) && a.col < p.col && !inked(t, p)
                    &&& forall|x: int|
                        a.col <= x < p.col ==> #[trigger] class_in(t, row, x)
                            != CharClass::Whitespace
                } else {
                    &&& p.row == a.row + 1 && p.col == 0 && p.row < t.len()
                    &&& forall|x: int|
                        a.col <= x < t[row].len() ==> #[trigger] class_in(t, row, x)
                            != CharClass::Whitespace
                },
                None => row + 1 == t.len() && forall|x: int|
                    a.col <= x < t[row].len() ==> #[trigger] class_in(t, row, x)
                        != CharClass::Whitespace,
            }
        }),
{
    let s = words::forward_from(t, a);
    let row = a.row as int;
    let col = a.col as int;
    lemma_first_ws(s, 0, true);
    let e = words::first_ws(s, 0, true);
    lemma_row(t, a);
    let n = t[row].len() - col;
    assert forall|x: int| col <= x < t[row].len() && x - col < e implies #[trigger] class_in(
        t,
        row,
        x,
    ) != CharClass::Whitespace by {
        assert(s[x - col].1 == class_in(t, row, x));
    }
    if e < n {
        assert(s[e] == (Pos { row: a.row, col: (col + e) as usize }, class_in(t, row, col + e)));
    }
}

proof fn lemma_word_from(s: Walk)
    ensures
        ({
            let f = words::word_from(s);
            &&& s.len() > 0 ==> 1 <= f
            &&& f < s.len() ==> s[f].1 != CharClass::Whitespace
            &&& forall|k: int|
                1 <= k < f && k < s.len() ==> (#[trigger] s[k]).1 == CharClass::Whitespace
        }),
{
    if s.len() > 1 && s[1].1 == CharClass::Whitespace {
        lemma_first_ws(s, 1, false);
    }
}

/// `e` and `E` go to the nearest end of a word behind their start. They find nothing
/// only where there is none but at the very end of the text.
pub proof fn e_goes_to_the_nearest_end(t: Text, a: Pos, word: Word)
    requires
        countable(t),
    ensures
        match words::e_target(words::forward_from(t, a), word) {
            Some(p) => {
                &&& inked(t, p) && prior(a, p) && ends(t, word, p)
                &&& forall|q: Pos| #[trigger]
                    inked(t, q) && prior(a, q) && prior(q, p) ==> !ends(t, word, q)
            },
            None => forall|q: Pos| #[trigger]
                inked(t, q) && prior(a, q) && ends(t, word, q) ==> q.row + 1 == t.len() && q.col + 1
                    == t[q.row as int].len(),
        },
{
    let s = words::forward_from(t, a);
    let row = a.row as int;
    let col = a.col as int;
    lemma_word_from(s);
    let f = words::word_from(s);
    // Every place behind the start is met, and not first.
    assert forall|q: Pos| #[trigger] inked(t, q) && prior(a, q) implies ({
        let j = steps_to(t, row, col, q);
        1 <= j < s.len() && s[j] == (q, class_in(t, q.row as int, q.col as int))
    }) by {
        lemma_met(t, row, col, q);
        if a.row < q.row {
            lemma_met(t, row + 1, 0, q);
        }
    }
    if f < s.len() {
        let c = s[f].1;
        let e = words::word_end(s, f + 1, word, c);
        lemma_word_end(s, f + 1, word, c);
        // No place before the last of the word is the end of one.
        assert forall|q: Pos| #[trigger] inked(t, q) && prior(a, q) && steps_to(t, row, col, q)
            < e - 1 implies !ends(t, word, q) by {
            let j = steps_to(t, row, col, q);
            assert(s[j] == (q, class_in(t, q.row as int, q.col as int)));
            assert(j >= f) by {
                if j < f {
                    assert(s[j].1 == CharClass::Whitespace);
                }
            }
            assert(!breaks(word, c, s[j + 1].1));
            assert(!breaks(word, c, s[j].1) || j == f);
            lemma_next(t, row, col, q);
        }
        if e < s.len() {
            lemma_entry_in_word(s, f, e, word, c);
            lemma_entry(t, row, col, e - 1);
            let p = s[e - 1].0;
            assert(prior(a, p)) by {
                if p == a {
                    assert(steps_to(t, row, col, p) == 0);
                }
            }
            lemma_next(t, row, col, p);
            assert forall|q: Pos| #[trigger]
                inked(t, q) && prior(a, q) && prior(q, p) implies !ends(t, word, q) by {
                lemma_later(t, row, col, q, p);
            }
        } else {
            assert forall|q: Pos| #[trigger]
                inked(t, q) && prior(a, q) && ends(t, word, q) implies q.row + 1 == t.len() && q.col
                + 1 == t[q.row as int].len() by {
                lemma_next(t, row, col, q);
                assert(steps_to(t, row, col, q) == e - 1);
            }
        }
    } else {
        assert forall|q: Pos| !(#[trigger] inked(t, q) && prior(a, q)) by {
            if inked(t, q) && prior(a, q) {
                let j = steps_to(t, row, col, q);
                assert(s[j].1 == CharClass::Whitespace);
            }
        }
    }
}

proof fn lemma_entry_in_word(s: Walk, f: int, e: int, word: Word, c: CharClass)
    requires
        0 <= f < e <= s.len(),
        s[f].1 == c,
        c != CharClass::Whitespace,
        forall|k: int| f + 1 <= k < e ==> !breaks(word, c, (#[trigger] s[k]).1),
    ensures
        s[e - 1].1 != CharClass::Whitespace,
        word == Word::Normal ==> s[e - 1].1 == c,
{
    if e - 1 > f {
        assert(!breaks(word, c, s[e - 1].1));
    }
}

/// The first grapheme from a place on that is no whitespace.
pub proof fn whitespace_is_left(t: Text, a: Pos)
    requires
        countable(t),
    ensures
        ({
            let s = words::forward_from(t, a);
            match words::place(s, words::first_ws(s, 0, false)) {
                Some(p) => {
                    &&& inked(t, p) && !prior(p, a)
                    &&& forall|q: Pos| #[trigger] inked(t, q) && !prior(q, a) ==> !prior(q, p)
                },
                None => forall|q: Pos| #[trigger] inked(t, q) ==> prior(q, a),
            }
        }),
{
    let s = words::forward_from(t, a);
    let row = a.row as int;
    let col = a.col as int;
    lemma_first_ws(s, 0, false);
    let i = words::first_ws(s, 0, false);
    if i < s.len() {
        lemma_entry(t, row, col, i);
        let p = s[i].0;
        assert forall|q: Pos| #[trigger] inked(t, q) && !prior(q, a) implies !prior(q, p) by {
            if prior(q, p) {
                lemma_met(t, row, col, q);
                lemma_later(t, row, col, q, p);
            }
        }
    } else {
        assert forall|q: Pos| #[trigger] inked(t, q) implies prior(q, a) by {
            if !prior(q, a) {
                lemma_met(t, row, col, q);
                assert(s[steps_to(t, row, col, q)].1 == CharClass::Whitespace);
            }
        }
    }
}

/// How many steps a walk backward takes to a place.
spec fn steps_back(t: Text, row: int, col: int, q: Pos) -> int
    decreases row - q.row,
{
    if q.row >= row {
        col - q.col
    } else {
        (if t[row].len() == 0 {
            1
        } else {
            col + 2
        }) + steps_back(t, row - 1, words::last_col(t, row - 1), q)
    }
}

proof fn lemma_met_back(t: Text, row: int, col: int, q: Pos)
    requires
        countable(t),
        q.row <= row < t.len(),
        0 <= col <= words::last_col(t, row),
        on(t, q),
        q.row == row ==> q.col <= col,
    ensures
        0 <= steps_back(t, row, col, q) < words::backward(t, row, col).len(),
        words::backward(t, row, col)[steps_back(t, row, col, q)] == (
            q,
            class_in(t, q.row as int, q.col as int),
        ),
    decreases row - q.row,
{
    if q.row < row {
        lemma_met_back(t, row - 1, words::last_col(t, row - 1), q);
    }
}

proof fn lemma_entry_back(t: Text, row: int, col: int, i: int)
    requires
        countable(t),
        0 <= row < t.len(),
        0 <= col <= words::last_col(t, row),
        0 <= i < words::backward(t, row, col).len(),
        words::backward(t, row, col)[i].1 != CharClass::Whitespace,
    ensures
        ({
            let e = words::backward(t, row, col)[i];
            &&& inked(t, e.0)
            &&& e.1 == class_in(t, e.0.row as int, e.0.col as int)
            &&& e.0.row <= row
            &&& e.0.row == row ==> e.0.col <= col
            &&& steps_back(t, row, col, e.0) == i
        }),
    decreases row,
{
    let n = t[row].len() as int;
    let w = words::row_walk_back(t, row, col);
    if n == 0 {
        lemma_entry_back(t, row - 1, words::last_col(t, row - 1), i - 1);
    } else if i >= w.len() {
        lemma_entry_back(t, row - 1, words::last_col(t, row - 1), i - w.len() - 1);
    }
}

proof fn lemma_earlier(t: Text, row: int, col: int, a: Pos, b: Pos)
    requires
        countable(t),
        b.row <= row < t.len(),
        0 <= col <= words::last_col(t, row),
        on(t, a),
        on(t, b),
        b.row == row ==> b.col <= col,
        prior(a, b),
    ensures
        steps_back(t, row, col, b) < steps_back(t, row, col, a),
        a.row == b.row ==> steps_back(t, row, col, a) - steps_back(t, row, col, b) == b.col - a.col,
    decreases row - b.row,
{
    if b.row < row {
        lemma_earlier(t, row - 1, words::last_col(t, row - 1), a, b);
    } else if a.row < row {
        lemma_met_back(t, row - 1, words::last_col(t, row - 1), a);
    }
}

/// What stands right before a place on a walk back.
proof fn lemma_next_back(t: Text, row: int, col: int, q: Pos)
    requires
        countable(t),
        q.row <= row < t.len(),
        0 <= col <= words::last_col(t, row),
        on(t, q),
        q.row == row ==> q.col <= col,
    ensures
        ({
            let s = words::backward(t, row, col);
            let k = steps_back(t, row, col, q) + 1;
            &&& q.col > 0 ==> k < s.len() && s[k] == (
                Pos { row: q.row, col: (q.col - 1) as usize },
                class_in(t, q.row as int, q.col - 1),
            )
            &&& q.col == 0 && q.row > 0 ==> k < s.len() && s[k].1 == CharClass::Whitespace
            &&& q.col == 0 && q.row == 0 ==> k == s.len()
        }),
    decreases row - q.row,
{
    lemma_met_back(t, row, col, q);
    if q.row < row {
        lemma_next_back(t, row - 1, words::last_col(t, row - 1), q);
    }
}

/// The place of the text that a walk back begins with.
pub open spec fn drawn_in(t: Text, p: Pos) -> Pos {
    let row = if p.row < t.len() {
        p.row as int
    } else {
        t.len() - 1
    };
    let n = t[row].len() as int;
    Pos {
        row: row as usize,
        col: if p.col < n {
            p.col
        } else if n > 0 {
            (n - 1) as usize
        } else {
            0
        },
    }
}

proof fn lemma_drawn_in(t: Text, p: Pos)
    requires
        countable(t),
        t.len() > 0,
    ensures
        ({
            let c = drawn_in(t, p);
            &&& c.row < t.len()
            &&& c.col <= words::last_col(t, c.row as int)
            &&& words::backward_from(t, p) == words::backward(t, c.row as int, c.col as int)
            &&& words::backward_from(t, p).len() > 0
        }),
{
}

/// `b` and `B` go to the nearest begin of a word before their start, and find nothing
/// only where there is none.
pub proof fn b_goes_to_the_nearest_begin(t: Text, a: Pos, word: Word)
    requires
        countable(t),
        t.len() > 0,
    ensures
        ({
            let c = drawn_in(t, a);
            match words::b_target(words::backward_from(t, a), word) {
                Some(p) => {
                    &&& inked(t, p) && prior(p, c) && begins(t, word, p)
                    &&& forall|q: Pos| #[trigger]
                        inked(t, q) && prior(q, c) && prior(p, q) ==> !begins(t, word, q)
                },
                None => forall|q: Pos| #[trigger] inked(t, q) ==> !prior(q, c),
            }
        }),
{
    lemma_drawn_in(t, a);
    let a = drawn_in(t, a);
    let row = a.row as int;
    let col = a.col as int;
    let s = words::backward(t, row, col);
    lemma_word_from(s);
    let f = words::word_from(s);
    assert forall|q: Pos| #[trigger] inked(t, q) && prior(q, a) implies ({
        let j = steps_back(t, row, col, q);
        1 <= j < s.len() && s[j] == (q, class_in(t, q.row as int, q.col as int))
    }) by {
        lemma_met_back(t, row, col, q);
        if q.row < a.row {
            lemma_met_back(t, row - 1, words::last_col(t, row - 1), q);
        }
    }
    if f < s.len() {
        let c = s[f].1;
        let e = words::word_end(s, f + 1, word, c);
        lemma_word_end(s, f + 1, word, c);
        lemma_entry_in_word(s, f, e, word, c);
        lemma_entry_back(t, row, col, e - 1);
        let p = s[e - 1].0;
        assert(prior(p, a)) by {
            if p == a {
                assert(steps_back(t, row, col, p) == 0);
            }
        }
        lemma_next_back(t, row, col, p);
        assert forall|q: Pos| #[trigger]
            inked(t, q) && prior(q, a) && prior(p, q) implies !begins(t, word, q) by {
            let j = steps_back(t, row, col, q);
            lemma_earlier(t, row, col, p, q);
            assert(s[j] == (q, class_in(t, q.row as int, q.col as int)));
            assert(j >= f) by {
                if j < f {
                    assert(s[j].1 == CharClass::Whitespace);
                }
            }
            assert(!breaks(word, c, s[j + 1].1));
            assert(!breaks(word, c, s[j].1) || j == f);
            lemma_next_back(t, row, col, q);
        }
    } else {
        assert forall|q: Pos| #[trigger] inked(t, q) implies !prior(q, a) by {
            if prior(q, a) {
                let j = steps_back(t, row, col, q);
                assert(s[j].1 == CharClass::Whitespace);
            }
        }
    }
}

proof fn lemma_parted_back(t: Text, a: Pos, d: Pos, q: Pos, word: Word)
    requires
        countable(t),
        a.row < t.len(),
        a.col <= words::last_col(t, a.row as int),
        inked(t, d),
        prior(d, a),
        steps_back(t, a.row as int, a.col as int, d) == 1,
        inked(t, q),
        prior(q, d),
    ensures
        ({
            let s = words::backward(t, a.row as int, a.col as int);
            let j = steps_back(t, a.row as int, a.col as int, q);
            &&& 1 < j < s.len()
            &&& s[j] == (q, class_in(t, q.row as int, q.col as int))
            &&& s[1] == (d, class_in(t, d.row as int, d.col as int))
            &&& parted_back(t, word, q, d) <==> exists|k: int|
                1 < k <= j && breaks(word, s[1].1, (#[trigger] s[k]).1)
        }),
{
    let row = a.row as int;
    let col = a.col as int;
    let s = words::backward(t, row, col);
    let j = steps_back(t, row, col, q);
    lemma_met_back(t, row, col, d);
    lemma_met_back(t, row, col, q);
    lemma_earlier(t, row, col, q, d);
    let dr = d.row as int;
    let c = class_in(t, dr, d.col as int);
    if q.row == d.row {
        assert forall|k: int| 1 <= k <= j implies (#[trigger] s[k]).1 == class_in(
            t,
            dr,
            d.col - (k - 1),
        ) by {
            let x = Pos { row: d.row, col: (d.col - (k - 1)) as usize };
            lemma_met_back(t, row, col, x);
            if k > 1 {
                lemma_earlier(t, row, col, x, d);
            }
        }
        if parted_back(t, word, q, d) {
            let x = choose|x: int|
                q.col <= x < d.col && breaks(word, c, #[trigger] class_in(t, dr, x));
            assert(s[d.col - x + 1].1 == class_in(t, dr, x));
        }
        if exists|k: int| 1 < k <= j && breaks(word, s[1].1, (#[trigger] s[k]).1) {
            let k = choose|k: int| 1 < k <= j && breaks(word, s[1].1, (#[trigger] s[k]).1);
            assert(s[k].1 == class_in(t, dr, d.col - (k - 1)));
        }
    } else {
        let home = Pos { row: d.row, col: 0 };
        lemma_met_back(t, row, col, home);
        lemma_next_back(t, row, col, home);
        lemma_earlier(t, row, col, q, home);
        if home != d {
            lemma_earlier(t, row, col, home, d);
        }
        let k = steps_back(t, row, col, home) + 1;
        assert(k > 1);
        assert(breaks(word, s[1].1, s[k].1));
    }
}

/// The grapheme that is met right before a place when going back: the one before it in
/// its row, or from an empty row the last one of the row before.
pub open spec fn met_before(t: Text, c: Pos) -> Option<Pos> {
    if c.col > 0 {
        Some(Pos { row: c.row, col: (c.col - 1) as usize })
    } else if c.row > 0 && t[c.row as int].len() == 0 && t[c.row - 1].len() > 0 {
        Some(Pos { row: (c.row - 1) as usize, col: (t[c.row - 1].len() - 1) as usize })
    } else {
        None
    }
}

/// `ge` and `gE` go back to the last grapheme that is no whitespace. Where the one that
/// is met first is none, its word is left first.
pub proof fn ge_goes_back_behind_a_word(t: Text, a: Pos, word: Word)
    requires
        countable(t),
        t.len() > 0,
    ensures
        ({
            let c = drawn_in(t, a);
            let m = met_before(t, c);
            let d = m->0;
            let r = words::ge_target(words::backward_from(t, a), word);
            if m is Some && inked(t, d) {
                match r {
                    Some(p) => {
                        &&& inked(t, p) && prior(p, d) && parted_back(t, word, p, d)
                        &&& forall|q: Pos| #[trigger]
                            inked(t, q) && prior(q, d) && prior(p, q) ==> !parted_back(
                                t,
                                word,
                                q,
                                d,
                            )
                    },
                    None => forall|q: Pos| #[trigger]
                        inked(t, q) && prior(q, d) ==> !parted_back(t, word, q, d),
                }
            } else {
                match r {
                    Some(p) => {
                        &&& inked(t, p) && prior(p, c)
                        &&& forall|q: Pos| #[trigger] inked(t, q) && prior(q, c) ==> !prior(p, q)
                    },
                    None => forall|q: Pos| #[trigger] inked(t, q) ==> !prior(q, c),
                }
            }
        }),
{
    lemma_drawn_in(t, a);
    let a = drawn_in(t, a);
    let row = a.row as int;
    let col = a.col as int;
    let s = words::backward(t, row, col);
    let m = met_before(t, a);
    let d = m->0;
    assert forall|q: Pos| #[trigger] inked(t, q) && prior(q, a) implies ({
        let j = steps_back(t, row, col, q);
        1 <= j < s.len() && s[j] == (q, class_in(t, q.row as int, q.col as int))
    }) by {
        lemma_met_back(t, row, col, q);
        if q.row < a.row {
            lemma_met_back(t, row - 1, words::last_col(t, row - 1), q);
        }
    }
    if m is Some && inked(t, d) {
        reveal_with_fuel(steps_back, 3);
        lemma_met_back(t, row, col, d);
        assert(steps_back(t, row, col, d) == 1);
        let c = s[1].1;
        let e = match word {
            Word::Big => words::first_ws(s, 1, true),
            Word::Normal => words::first_other(s, 1, c),
        };
        lemma_first_ws(s, 1, true);
        lemma_first_other(s, 1, c);
        lemma_first_ws(s, e + 1, false);
        lemma_first_ws(s, e, false);
        let i = words::first_ws(s, e, false);
        assert(forall|k: int| 1 < k < e ==> !breaks(word, c, (#[trigger] s[k]).1));
        match words::ge_target(s, word) {
            Some(p) => {
                assert(e < s.len() && e <= i < s.len() && p == s[i].0);
                lemma_entry_back(t, row, col, i);
                assert(prior(p, d)) by {
                    if !prior(p, d) {
                        if p != d && on(t, a) {
                            if p != a {
                                lemma_earlier(t, row, col, d, p);
                            }
                        }
                    }
                }
                lemma_parted_back(t, a, d, p, word);
                assert(breaks(word, c, s[e].1));
                assert forall|q: Pos| #[trigger]
                    inked(t, q) && prior(q, d) && prior(p, q) implies !parted_back(
                    t,
                    word,
                    q,
                    d,
                ) by {
                    lemma_parted_back(t, a, d, q, word);
                    lemma_earlier(t, row, col, p, q);
                }
            },
            None => {
                assert forall|q: Pos| #[trigger]
                    inked(t, q) && prior(q, d) implies !parted_back(t, word, q, d) by {
                    lemma_parted_back(t, a, d, q, word);
                }
            },
        }
    } else if s.len() > 1 {
        assert(s[1].1 == CharClass::Whitespace) by {
            if s[1].1 != CharClass::Whitespace {
                lemma_entry_back(t, row, col, 1);
                let p = s[1].0;
                if p.row < a.row {
                    lemma_met_back(t, row - 1, words::last_col(t, row - 1), p);
                    if t[row].len() == 0 {
                        let b = words::backward(t, row - 1, words::last_col(t, row - 1));
                        assert(s[1] == b[0]);
                        if t[row - 1].len() > 0 {
                            lemma_met_back(t, row - 1, words::last_col(t, row - 1), m->0);
                        }
                    }
                }
            }
        }
        lemma_first_ws(s, 1, false);
        let i = words::first_ws(s, 1, false);
        if i < s.len() {
            lemma_entry_back(t, row, col, i);
            let p = s[i].0;
            assert(prior(p, a)) by {
                if p == a {
                    assert(steps_back(t, row, col, p) == 0);
                }
            }
            assert forall|q: Pos| #[trigger] inked(t, q) && prior(q, a) implies !prior(p, q) by {
                if prior(p, q) {
                    lemma_earlier(t, row, col, p, q);
                }
            }
        } else {
            assert forall|q: Pos| #[trigger] inked(t, q) implies !prior(q, a) by {
                if prior(q, a) {
                    let j = steps_back(t, row, col, q);
                    assert(s[j].1 == CharClass::Whitespace);
                }
            }
        }
    }
}

/// The walk back from a grapheme begins with the start of its row, and a start of a row
/// that is not the first counts as whitespace.
proof fn lemma_row_back(t: Text, a: Pos)
    requires
        countable(t),
        on(t, a),
    ensures
        ({
            let s = words::backward_from(t, a);
            &&& a.col < s.len()
            &&& forall|k: int|
                0 <= k <= a.col ==> (#[trigger] s[k]) == (
                    Pos { row: a.row, col: (a.col - k) as usize },
                    class_in(t, a.row as int, a.col - k),
                )
            &&& a.row > 0 ==> a.col + 1 < s.len() && s[a.col + 1].1 == CharClass::Whitespace
            &&& a.row == 0 ==> a.col + 1 == s.len()
        }),
{
    let row = a.row as int;
    let col = a.col as int;
    lemma_drawn_in(t, a);
    let s = words::backward_from(t, a);
    assert forall|k: int| 0 <= k <= col implies (#[trigger] s[k]) == (
        Pos { row: a.row, col: (col - k) as usize },
        class_in(t, row, col - k),
    ) by {
        lemma_met_back(t, row, col, Pos { row: a.row, col: (col - k) as usize });
    }
    let home = Pos { row: a.row, col: 0 };
    lemma_met_back(t, row, col, home);
    lemma_next_back(t, row, col, home);
}

/// Whether a stretch of a row is a whole word: none of its graphemes breaks the word, and
/// what stands before it and behind it does.
pub open spec fn whole_word(t: Text, word: Word, row: int, from: int, to: int) -> bool {
    let c = class_in(t, row, from);
    &&& 0 <= from <= to < t[row].len()
    &&& c != CharClass::Whitespace
    &&& forall|x: int| from <= x <= to ==> !breaks(word, c, #[trigger] class_in(t, row, x))
    &&& from > 0 ==> breaks(word, c, class_in(t, row, from - 1))
    &&& to + 1 < t[row].len() ==> breaks(word, c, class_in(t, row, to + 1))
}

/// Whether a stretch of a row is whitespace.
pub open spec fn white(t: Text, row: int, from: int, to: int) -> bool {
    forall|x: int| from <= x <= to ==> #[trigger] class_in(t, row, x) == CharClass::Whitespace
}

/// A word object on a word is the word, whole and alone; around it is the word and the
/// whitespace up to the next grapheme of the row that is none.
pub proof fn a_word_object_is_the_word(t: Text, p: Pos, word: Word)
    requires
        countable(t),
        inked(t, p),
    ensures
        ({
            let row = p.row as int;
            &&& words::word_object(t, p, word, Bound::Inside) matches Some(
                MotionKind::Char { start, end, inclusive },
            )
            &&& inclusive
            &&& start.row == p.row && end.row == p.row
            &&& start.col <= p.col <= end.col
            &&& whole_word(t, word, row, start.col as int, end.col as int)
            &&& words::word_object(t, p, word, Bound::Around) matches Some(
                MotionKind::Char { start: s2, end: e2, inclusive: i2 },
            )
            &&& i2
            &&& s2 == start
            &&& end.col + 1 == t[row].len() && row + 1 == t.len() ==> e2 == end
            &&& end.col + 1 < t[row].len() && class_in(t, row, end.col + 1)
                != CharClass::Whitespace ==> e2 == end
            &&& forall|x: int|
                end.col < x < t[row].len() && #[trigger] class_in(t, row, x)
                    != CharClass::Whitespace ==> {
                    &&& e2.row == p.row
                    &&& end.col <= e2.col < x
                    &&& white(t, row, end.col + 1, e2.col as int)
                    &&& class_in(t, row, e2.col + 1) != CharClass::Whitespace
                }
        }),
{
    let row = p.row as int;
    let col = p.col as int;
    let n = t[row].len() as int;
    let c = class_in(t, row, col);
    let f = words::forward_from(t, p);
    let b = words::backward_from(t, p);
    lemma_row(t, p);
    lemma_row_back(t, p);
    let eb = words::word_end(b, 0, word, c);
    let ef = words::word_end(f, 0, word, c);
    lemma_word_end(b, 0, word, c);
    lemma_word_end(f, 0, word, c);
    assert(b[0].1 == c && f[0].1 == c);
    assert(0 < eb && 0 < ef);
    assert(eb <= col + 1) by {
        if eb > col + 1 {
            assert(!breaks(word, c, b[col + 1].1));
        }
    }
    assert(ef <= n - col) by {
        if ef > n - col {
            assert(!breaks(word, c, f[n - col].1));
        }
    }
    let from = col - (eb - 1);
    let to = col + ef - 1;
    assert(b[eb - 1] == (Pos { row: p.row, col: from as usize }, class_in(t, row, from)));
    assert(f[ef - 1] == (Pos { row: p.row, col: to as usize }, class_in(t, row, to)));
    assert forall|x: int| from <= x <= to implies !breaks(
        word,
        c,
        #[trigger] class_in(t, row, x),
    ) by {
        if x <= col {
            assert(b[col - x].1 == class_in(t, row, x));
        } else {
            assert(f[x - col].1 == class_in(t, row, x));
        }
    }
    let d = class_in(t, row, from);
    assert(!breaks(word, c, d));
    assert(d != CharClass::Whitespace && (word == Word::Normal ==> d == c));
    assert forall|x: int| from <= x <= to implies !breaks(
        word,
        d,
        #[trigger] class_in(t, row, x),
    ) by {
        assert(!breaks(word, c, class_in(t, row, x)));
    }
    if from > 0 {
        assert(b[eb] == (
            Pos { row: p.row, col: (from - 1) as usize },
            class_in(t, row, from - 1),
        ));
    }
    if to + 1 < n {
        assert(f[ef] == (Pos { row: p.row, col: (to + 1) as usize }, class_in(t, row, to + 1)));
    }
    assert(whole_word(t, word, row, from, to));
    let g = words::first_ws(f, ef, false);
    lemma_first_ws(f, ef, false);
    assert forall|x: int|
        to < x < n && #[trigger] class_in(t, row, x) != CharClass::Whitespace implies ({
        let e2 = words::stretch_end(f, ef, g, f[ef - 1].0);
        &&& e2.row == p.row
        &&& to <= e2.col < x
        &&& white(t, row, to + 1, e2.col as int)
        &&& class_in(t, row, e2.col + 1) != CharClass::Whitespace
    }) by {
        assert(f[x - col].1 == class_in(t, row, x));
        assert(g <= x - col);
        assert(f[g] == (Pos { row: p.row, col: (col + g) as usize }, class_in(t, row, col + g)));
        assert(f[g - 1] == (
            Pos { row: p.row, col: (col + g - 1) as usize },
            class_in(t, row, col + g - 1),
        ));
        assert forall|y: int| to + 1 <= y <= col + g - 1 implies #[trigger] class_in(t, row, y)
            == CharClass::Whitespace by {
            assert(f[y - col].1 == class_in(t, row, y));
        }
    }
    if to + 1 < n && class_in(t, row, to + 1) != CharClass::Whitespace {
        assert(g == ef);
    }
}

/// A word object on whitespace is the whitespace up to the graphemes of the row that are
/// none; around it is also the word that follows, where that has more than one grapheme.
pub proof fn a_word_object_may_be_whitespace(t: Text, p: Pos, word: Word)
    requires
        countable(t),
        on(t, p),
        !inked(t, p),
    ensures
        ({
            let row = p.row as int;
            let n = t[row].len() as int;
            &&& words::word_object(t, p, word, Bound::Inside) matches Some(
                MotionKind::Char { start, end, inclusive },
            )
            &&& inclusive
            &&& forall|x: int|
                0 <= x < p.col && #[trigger] class_in(t, row, x) != CharClass::Whitespace ==> {
                    &&& start.row == p.row && x < start.col <= p.col
                    &&& white(t, row, start.col as int, p.col as int)
                    &&& class_in(t, row, start.col - 1) != CharClass::Whitespace
                }
            &&& forall|x: int|
                p.col < x < n && #[trigger] class_in(t, row, x) != CharClass::Whitespace ==> {
                    &&& end.row == p.row && p.col <= end.col < x
                    &&& white(t, row, p.col as int, end.col as int)
                    &&& class_in(t, row, end.col + 1) != CharClass::Whitespace
                    &&& words::word_object(t, p, word, Bound::Around) matches Some(
                        MotionKind::Char { start: s2, end: e2, inclusive: i2 },
                    )
                    &&& i2
                    &&& s2 == start
                    &&& end.col + 2 < n && !breaks(
                        word,
                        class_in(t, row, end.col + 1),
                        class_in(t, row, end.col + 2),
                    ) ==> e2.row == p.row && whole_word_from(
                        t,
                        word,
                        row,
                        end.col + 1,
                        e2.col as int,
                    )
                }
            &&& words::word_object(t, p, word, Bound::Around) is None <==> forall|q: Pos|
                #[trigger] inked(t, q) ==> prior(q, p)
        }),
{
    let row = p.row as int;
    let col = p.col as int;
    let n = t[row].len() as int;
    let f = words::forward_from(t, p);
    let b = words::backward_from(t, p);
    lemma_row(t, p);
    lemma_row_back(t, p);
    assert(f[0] == (p, class_in(t, row, col)));
    let eb = words::first_ws(b, 0, false);
    let ef = words::first_ws(f, 0, false);
    lemma_first_ws(b, 0, false);
    lemma_first_ws(f, 0, false);
    let start = words::stretch_end(b, 0, eb, p);
    let end = words::stretch_end(f, 0, ef, p);
    assert forall|x: int|
        0 <= x < col && #[trigger] class_in(t, row, x) != CharClass::Whitespace implies ({
        &&& start.row == p.row && x < start.col <= p.col
        &&& white(t, row, start.col as int, p.col as int)
        &&& class_in(t, row, start.col - 1) != CharClass::Whitespace
    }) by {
        assert(b[col - x].1 == class_in(t, row, x));
        assert(0 < eb <= col - x);
        assert(b[eb] == (Pos { row: p.row, col: (col - eb) as usize }, class_in(t, row, col - eb)));
        assert(b[eb - 1] == (
            Pos { row: p.row, col: (col - (eb - 1)) as usize },
            class_in(t, row, col - (eb - 1)),
        ));
        assert forall|y: int| start.col <= y <= col implies #[trigger] class_in(t, row, y)
            == CharClass::Whitespace by {
            assert(b[col - y].1 == class_in(t, row, y));
        }
    }
    assert forall|x: int|
        col < x < n && #[trigger] class_in(t, row, x) != CharClass::Whitespace implies ({
        &&& end.row == p.row && p.col <= end.col < x
        &&& white(t, row, p.col as int, end.col as int)
        &&& class_in(t, row, end.col + 1) != CharClass::Whitespace
        &&& words::word_object(t, p, word, Bound::Around) matches Some(
            MotionKind::Char { start: s2, end: e2, inclusive: i2 },
        )
        &&& i2
        &&& s2 == start
        &&& end.col + 2 < n && !breaks(
            word,
            class_in(t, row, end.col + 1),
            class_in(t, row, end.col + 2),
        ) ==> e2.row == p.row && whole_word_from(t, word, row, end.col + 1, e2.col as int)
    }) by {
        assert(f[x - col].1 == class_in(t, row, x));
        assert(0 < ef <= x - col);
        assert(f[ef] == (Pos { row: p.row, col: (col + ef) as usize }, class_in(t, row, col + ef)));
        assert(f[ef - 1] == (
            Pos { row: p.row, col: (col + ef - 1) as usize },
            class_in(t, row, col + ef - 1),
        ));
        assert forall|y: int| col <= y <= end.col implies #[trigger] class_in(t, row, y)
            == CharClass::Whitespace by {
            assert(f[y - col].1 == class_in(t, row, y));
        }
        let c = f[ef].1;
        let e = words::word_end(f, ef + 1, word, c);
        lemma_word_end(f, ef + 1, word, c);
        if end.col + 2 < n && !breaks(word, c, class_in(t, row, end.col + 2)) {
            assert(f[ef + 1].1 == class_in(t, row, col + ef + 1));
            assert(e > ef + 1) by {
                if e == ef + 1 {
                    assert(breaks(word, c, f[e].1));
                }
            }
            assert(e <= n - col) by {
                if e > n - col {
                    assert(!breaks(word, c, f[n - col].1));
                }
            }
            let to = col + e - 1;
            assert(f[e - 1] == (Pos { row: p.row, col: to as usize }, class_in(t, row, to)));
            assert forall|y: int| col + ef <= y <= to implies !breaks(
                word,
                c,
                #[trigger] class_in(t, row, y),
            ) by {
                assert(f[y - col].1 == class_in(t, row, y));
            }
            if to + 1 < n {
                assert(f[e] == (
                    Pos { row: p.row, col: (to + 1) as usize },
                    class_in(t, row, to + 1),
                ));
            }
        }
    }
    if ef < f.len() {
        lemma_entry(t, row, col, ef);
        assert(!prior(f[ef].0, p));
    } else {
        assert forall|q: Pos| #[trigger] inked(t, q) implies prior(q, p) by {
            if !prior(q, p) {
                lemma_met(t, row, col, q);
                assert(f[steps_to(t, row, col, q)].1 == CharClass::Whitespace);
            }
        }
    }
}

/// Whether a stretch of a row goes from a place to the end of the word there.
pub open spec fn whole_word_from(t: Text, word: Word, row: int, from: int, to: int) -> bool {
    let c = class_in(t, row, from);
    &&& 0 <= from <= to < t[row].len()
    &&& forall|x: int| from <= x <= to ==> !breaks(word, c, #[trigger] class_in(t, row, x))
    &&& to + 1 < t[row].len() ==> breaks(word, c, class_in(t, row, to + 1))
}

/// The place that one step of a word motion goes to, where there is one.
pub open spec fn found_by(t: Text, to: To, word: Word, dir: Direction, a: Pos) -> Option<Pos> {
    match (to, dir) {
        (To::Start, Direction::Forward) => words::w_target(words::forward_from(t, a), word, false),
        (To::End, Direction::Forward) => words::e_target(words::forward_from(t, a), word),
        (To::Start, Direction::Backward) => words::b_target(words::backward_from(t, a), word),
        (To::End, Direction::Backward) => words::ge_target(words::backward_from(t, a), word),
    }
}

/// A word motion goes from its start to the place that it finds, and includes that place
/// where it goes to the end of a word. Where it finds none it goes to the end of the text
/// when going forward, and to its start when going back.
pub proof fn word_motions_reach(
    t: Text,
    a: Pos,
    exclusive: bool,
    to: To,
    word: Word,
    dir: Direction,
)
    requires
        countable(t),
        t.len() > 0,
    ensures
        ({
            let rows = t.len() - 1;
            let len = t[rows].len() as int;
            &&& words::word_span(t, a, exclusive, 1, to, word, dir, false, false) matches MotionKind::Char {
                start,
                end,
                inclusive,
            }
            &&& start == a
            &&& match found_by(t, to, word, dir, a) {
                Some(p) => inked(t, p) ==> end == p && inclusive == (to == To::End),
                None => if dir == Direction::Forward {
                    &&& inclusive
                    &&& end.row == rows
                    &&& end.col == (if exclusive && len > 0 {
                        len - 1
                    } else {
                        len
                    })
                } else {
                    end == (Pos { row: 0, col: 0 }) && inclusive == (to == To::End)
                },
            }
        }),
{
    reveal_with_fuel(words::word_steps, 2);
}

/// A count repeats a word motion: one more is one step more from where the others led.
pub proof fn counts_repeat_word_motions(
    t: Text,
    a: Pos,
    n: nat,
    to: To,
    word: Word,
    dir: Direction,
)
    ensures
        words::word_steps(t, n + 1, n + 1, to, word, dir, false, (a, false)) == words::word_step(
            t,
            to,
            word,
            dir,
            false,
            words::word_steps(t, n, n, to, word, dir, false, (a, false)),
        ),
{
    lemma_count(t, a, n, n + 1, n, to, word, dir);
}

proof fn lemma_count(
    t: Text,
    a: Pos,
    n: nat,
    m: nat,
    k: nat,
    to: To,
    word: Word,
    dir: Direction,
)
    ensures
        words::word_steps(t, n, k, to, word, dir, false, (a, false)) == words::word_steps(
            t,
            m,
            k,
            to,
            word,
            dir,
            false,
            (a, false),
        ),
    decreases k,
{
    if k > 0 {
        lemma_count(t, a, n, m, (k - 1) as nat, to, word, dir);
    }
}

} // verus!
