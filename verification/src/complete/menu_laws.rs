//! How the menus of candidates are gone through, and how they show.

use crate::complete::candidate::Candidate;
use crate::complete::cells;
use crate::complete::cells::Cell;
use crate::complete::cells::EMPH_OFF;
use crate::complete::candidate::SelectorResponse;
use crate::complete::fuzzy;
use crate::complete::fuzzy::FuzzyKey;
use crate::complete::fuzzy::FuzzySelector;
use crate::complete::grid;
use crate::complete::grid::GridKey;
use crate::complete::grid::GridSelector;
use crate::complete::line_laws;
use crate::complete::listwin;
use crate::keys::KeyCode;
use crate::keys::KeyEvent;
use crate::keys::ModKeys;
use crate::linebuf::buffer::Viewport;
use crate::term::width::WidthCalculator;
use crate::text;
use crate::unicode;
use vstd::prelude::*;

verus! {

/// The two menus have the same keys: Tab and the arrow down go on, the arrow up back, Enter
/// takes and Escape leaves; with control F and B go by pages.
pub proof fn menus_have_the_same_keys()
    ensures
        ({
            let none = ModKeys::of(false, false, false);
            let ctrl = ModKeys::of(true, false, false);
            let shift = ModKeys::of(false, false, true);
            &&& grid::grid_key(KeyEvent(KeyCode::Tab, none)) == GridKey::Next
            &&& fuzzy::fuzzy_key(KeyEvent(KeyCode::Tab, none)) == FuzzyKey::Next
            &&& grid::grid_key(KeyEvent(KeyCode::Tab, shift)) == GridKey::Prev
            &&& fuzzy::fuzzy_key(KeyEvent(KeyCode::Tab, shift)) == FuzzyKey::Prev
            &&& grid::grid_key(KeyEvent(KeyCode::Down, none)) == GridKey::Next
            &&& fuzzy::fuzzy_key(KeyEvent(KeyCode::Down, none)) == FuzzyKey::Next
            &&& grid::grid_key(KeyEvent(KeyCode::Up, none)) == GridKey::Prev
            &&& fuzzy::fuzzy_key(KeyEvent(KeyCode::Up, none)) == FuzzyKey::Prev
            &&& grid::grid_key(KeyEvent(KeyCode::Right, none)) == GridKey::Right
            &&& fuzzy::fuzzy_key(KeyEvent(KeyCode::Right, none)) == FuzzyKey::Right
            &&& grid::grid_key(KeyEvent(KeyCode::Left, none)) == GridKey::Left
            &&& fuzzy::fuzzy_key(KeyEvent(KeyCode::Left, none)) == FuzzyKey::Left
            &&& grid::grid_key(KeyEvent(KeyCode::Enter, none)) == GridKey::Accept
            &&& fuzzy::fuzzy_key(KeyEvent(KeyCode::Enter, none)) == FuzzyKey::Accept
            &&& grid::grid_key(KeyEvent(KeyCode::Esc, none)) == GridKey::Dismiss
            &&& fuzzy::fuzzy_key(KeyEvent(KeyCode::Esc, none)) == FuzzyKey::Dismiss
            &&& grid::grid_key(KeyEvent(KeyCode::PageDown, none)) == grid::grid_key(
                KeyEvent(KeyCode::Char('f'), ctrl),
            )
            &&& fuzzy::fuzzy_key(KeyEvent(KeyCode::PageDown, none)) == fuzzy::fuzzy_key(
                KeyEvent(KeyCode::Char('f'), ctrl),
            )
            &&& grid::grid_key(KeyEvent(KeyCode::PageUp, none)) == grid::grid_key(
                KeyEvent(KeyCode::Char('b'), ctrl),
            )
            &&& fuzzy::fuzzy_key(KeyEvent(KeyCode::PageUp, none)) == fuzzy::fuzzy_key(
                KeyEvent(KeyCode::Char('b'), ctrl),
            )
            &&& grid::grid_key(KeyEvent(KeyCode::PageDown, none)) == GridKey::NextPage
            &&& grid::grid_key(KeyEvent(KeyCode::PageUp, none)) == GridKey::PrevPage
            &&& fuzzy::fuzzy_key(KeyEvent(KeyCode::PageDown, none)) == FuzzyKey::NextPage
            &&& fuzzy::fuzzy_key(KeyEvent(KeyCode::PageUp, none)) == FuzzyKey::PrevPage
        }),
{
}

/// In the grid the first step selects where the cursor is, and each further one goes on by
/// one, from the last to the first; steps back go the other way.
pub proof fn the_grid_is_gone_through(s: GridSelector, w: WidthCalculator, t_cols: u16, n: usize)
    requires
        s.cursor.max == n,
        s.cursor.val < n,
        s.cursor.wrap,
    ensures
        ({
            let next = grid::selector_after(s, GridKey::Next, w, t_cols);
            let prev = grid::selector_after(s, GridKey::Prev, w, t_cols);
            &&& next.has_selection && prev.has_selection
            &&& !s.has_selection ==> next.cursor.val == s.cursor.val
            &&& s.has_selection && s.cursor.val + 1 < n ==> next.cursor.val == s.cursor.val + 1
            &&& s.has_selection && s.cursor.val + 1 == n ==> next.cursor.val == 0
            &&& s.cursor.val > 0 ==> prev.cursor.val == s.cursor.val - 1
            &&& s.cursor.val == 0 ==> prev.cursor.val == n - 1
            &&& next.candidates == s.candidates && prev.candidates == s.candidates
        }),
{
    if n > 1 {
        line_laws::counting_stays_below_its_bound(s.cursor, 1);
    } else {
        vstd::arithmetic::div_mod::lemma_mod_self_0(1);
        assert((0int + 1) % 1 == 0);
        assert(1usize % 1usize == 0);
        assert((0int + 1 - 0) % 1 == 0);
    }
}

/// A step to the side keeps to the row: it goes by the rows of a column, and from the last
/// column to the first.
pub proof fn steps_to_the_side_go_by_columns(cursor: int, n: int, rows: int)
    requires
        0 <= cursor < n,
        rows > 0,
    ensures
        cursor + rows < n ==> grid::stepped(cursor, n, rows, true, true) == cursor + rows,
        cursor + rows >= n ==> {
            let x = grid::stepped(cursor, n, rows, true, true);
            &&& 0 <= x < rows && x <= cursor
            &&& (cursor - x) % rows == 0
        },
        cursor + rows >= n ==> grid::stepped(cursor, n, rows, true, false) == cursor,
        cursor >= rows ==> grid::stepped(cursor, n, rows, false, true) == cursor - rows,
        cursor < rows ==> grid::stepped(cursor, n, rows, false, false) == cursor,
        grid::stepped(0, 0, rows, true, true) == 0,
{
    assert(0 <= cursor % rows < rows && cursor % rows <= cursor && (cursor - cursor % rows) % rows
        == 0) by (nonlinear_arith)
        requires
            0 <= cursor,
            rows > 0,
    {
        vstd::arithmetic::div_mod::lemma_fundamental_div_mod(cursor, rows);
        vstd::arithmetic::div_mod::lemma_mod_multiples_basic(cursor / rows, rows);
        vstd::arithmetic::mul::lemma_mul_is_commutative(cursor / rows, rows);
    }
}

/// Among what is found, on goes round and back stops at the first; by pages both stop at
/// the ends.
pub proof fn what_is_found_is_gone_through(s: FuzzySelector, w: WidthCalculator, t_cols: u16)
    requires
        s.cursor.val < s.cursor.max,
        s.cursor.wrap,
        s.cursor.max > 1,
        s.page(w, t_cols) > 0,
    ensures
        ({
            let c = s.cursor;
            &&& s.moved(FuzzyKey::Next, w, t_cols) == (if c.val + 1 < c.max {
                c.val + 1
            } else {
                0
            })
            &&& s.moved(FuzzyKey::Prev, w, t_cols) == (if c.val > 0 {
                c.val - 1
            } else {
                0
            })
            &&& s.moved(FuzzyKey::Down, w, t_cols) == (if c.val + 1 < c.max {
                c.val + 1
            } else {
                c.max - 1
            })
            &&& s.moved(FuzzyKey::NextPage, w, t_cols) > c.val || s.moved(
                FuzzyKey::NextPage,
                w,
                t_cols,
            ) == c.max - 1
            &&& s.moved(FuzzyKey::PrevPage, w, t_cols) < c.val || s.moved(
                FuzzyKey::PrevPage,
                w,
                t_cols,
            ) == 0
        }),
{
    line_laws::counting_stays_below_its_bound(s.cursor, 1);
}

/// What is selected is the candidate that the cursor is on.
pub proof fn the_cursor_selects(s: FuzzySelector, g: GridSelector)
    ensures
        s.cursor.val < s.filtered@.len() ==> s.selected() == Some(
            s.filtered@[s.cursor.val as int].candidate,
        ),
        s.filtered@.len() == 0 ==> s.selected() is None,
        g.has_selection && g.cursor.val < g.candidates@.len() ==> g.selected() == Some(
            g.candidates@[g.cursor.val as int],
        ),
        !g.has_selection ==> g.selected() is None,
{
}

/// Control characters show with a caret before their letter, and everything else as it
/// is.
pub proof fn control_characters_show_with_a_caret(s: Seq<char>, c: char)
    ensures
        c as u32 >= 0x20 && c != '\x7f' ==> cells::careted(s.push(c)) == cells::careted(s).push(c),
        1 <= c as u32 <= 26 ==> cells::careted(s.push(c)) == cells::careted(s) + seq![
            '^',
            (('A' as u32) + (c as u32) - 1) as char,
        ],
        c == '\x7f' ==> cells::careted(s.push(c)) == cells::careted(s) + seq!['^', '?'],
        cells::careted(Seq::empty()) == Seq::<char>::empty(),
{
    assert(s.push(c).drop_last() =~= s);
    assert(cells::careted(s) + seq![c] =~= cells::careted(s).push(c));
}

/// On a single row line breaks show by a sign and tabs as four spaces; other controls do
/// not show, and text stays.
pub proof fn texts_show_on_one_row(s: Seq<char>, c: char)
    ensures
        c == '\n' || c == '\r' ==> cells::one_lined(s.push(c)) == cells::one_lined(s).push(
            '\u{2424}',
        ),
        c == '\t' ==> cells::one_lined(s.push(c)) == cells::one_lined(s) + text::repeated(' ', 4),
        !unicode::control(c) && c != '\n' && c != '\r' && c != '\t' ==> cells::one_lined(s.push(c))
            == cells::one_lined(s).push(c),
        unicode::control(c) && c != '\n' && c != '\r' && c != '\t' ==> cells::one_lined(s.push(c))
            == cells::one_lined(s),
        cells::one_lined(Seq::empty()) == Seq::<char>::empty(),
{
    assert(s.push(c).drop_last() =~= s);
    let o = cells::one_lined(s);
    assert(o + seq![c] =~= o.push(c));
    assert(o + seq!['\u{2424}'] =~= o.push('\u{2424}'));
    assert(seq![' ', ' ', ' ', ' '] =~= text::repeated(' ', 4));
    assert(o + Seq::<char>::empty() =~= o);
}

/// Marks for one run of characters.
pub open spec fn run_marked(n: nat, a: int, b: int) -> Seq<bool> {
    Seq::new(n, |i: int| a <= i < b)
}

proof fn lemma_emphasized(s: Seq<char>, a: int, b: int, on: Seq<char>, n: int)
    requires
        0 <= a < b <= s.len(),
        0 <= n <= s.len(),
    ensures
        cells::emphasized_to(s, run_marked(s.len(), a, b), on, n) == (if n <= a {
            s.take(n)
        } else if n <= b {
            s.take(a) + on + s.subrange(a, n)
        } else {
            s.take(a) + on + s.subrange(a, b) + EMPH_OFF@ + s.subrange(b, n)
        }),
    decreases n,
{
    let hl = run_marked(s.len(), a, b);
    if n > 0 {
        lemma_emphasized(s, a, b, on, n - 1);
        let i = cells::emphasized_to(s, hl, on, n - 1);
        if n <= a {
            assert(i.push(s[n - 1]) =~= s.take(n));
        } else if n == a + 1 {
            assert((i + on).push(s[n - 1]) =~= s.take(a) + on + s.subrange(a, n));
        } else if n <= b {
            assert(i.push(s[n - 1]) =~= s.take(a) + on + s.subrange(a, n));
        } else if n == b + 1 {
            assert((i + EMPH_OFF@).push(s[n - 1]) =~= s.take(a) + on + s.subrange(a, b) + EMPH_OFF@
                + s.subrange(b, n));
        } else {
            assert(i.push(s[n - 1]) =~= s.take(a) + on + s.subrange(a, b) + EMPH_OFF@
                + s.subrange(b, n));
        }
    } else {
        assert(s.take(0) =~= Seq::<char>::empty());
    }
}

/// A run of characters that is marked stands between the code that begins the emphasis and
/// the one that ends it; the rest is as it is.
pub proof fn marked_runs_are_emphasized(s: Seq<char>, a: int, b: int, on: Seq<char>)
    requires
        0 <= a < b <= s.len(),
    ensures
        cells::emphasized(s, run_marked(s.len(), a, b), on) == s.take(a) + on + s.subrange(a, b)
            + EMPH_OFF@ + s.skip(b),
{
    let n = s.len() as int;
    lemma_emphasized(s, a, b, on, n);
    if b == n {
        assert(s.take(a) + on + s.subrange(a, n) + EMPH_OFF@ =~= s.take(a) + on + s.subrange(a, b)
            + EMPH_OFF@ + s.skip(b));
    } else {
        assert(s.subrange(b, n) =~= s.skip(b));
    }
}

/// A column is as wide as its widest name and its widest description.
pub proof fn columns_are_as_wide_as_the_widest(w: WidthCalculator, c: Seq<Cell>, from: int, to: int, i: int)
    requires
        0 <= from <= i < to <= c.len(),
    ensures
        cells::widest_name(w, c, from, to) >= cells::wid(w, c[i].name),
        cells::widest_desc(w, c, from, to) >= cells::desc_wid(w, c[i].desc),
        exists|k: int|
            from <= k < to && cells::widest_name(w, c, from, to) == cells::wid(
                w,
                (#[trigger] c[k]).name,
            ),
        cells::column_wid(w, c, from, to, 0) >= cells::wid(w, c[i].name),
    decreases to - from,
{
    if i < to - 1 {
        columns_are_as_wide_as_the_widest(w, c, from, to - 1, i);
        let k = choose|k: int|
            from <= k < to - 1 && cells::widest_name(w, c, from, to - 1) == cells::wid(
                w,
                (#[trigger] c[k]).name,
            );
        assert(c[k].name == c[k].name);
        assert(c[to - 1].name == c[to - 1].name);
    } else if from < to - 1 {
        columns_are_as_wide_as_the_widest(w, c, from, to - 1, from);
        let k = choose|k: int|
            from <= k < to - 1 && cells::widest_name(w, c, from, to - 1) == cells::wid(
                w,
                (#[trigger] c[k]).name,
            );
        assert(c[k].name == c[k].name);
        assert(c[to - 1].name == c[to - 1].name);
    } else {
        assert(cells::widest_name(w, c, from, to - 1) == 0);
        assert(c[to - 1].name == c[to - 1].name);
    }
}

/// A candidate shows by its text on one row, and by what is told of it.
pub proof fn candidates_show_by_their_text(c: Candidate)
    ensures
        cells::cell_of(c).name == cells::one_lined(c.content@),
        c.desc matches Some(d) ==> cells::cell_of(c).desc == d@,
        c.desc is None ==> cells::cell_of(c).desc.len() == 0,
{
}

/// What two texts share at their start is where their letters are the same, and no
/// further.
pub proof fn shared_starts_end_where_letters_differ(a: Seq<char>, b: Seq<char>, i: int)
    requires
        0 <= i <= a.len(),
        i <= b.len(),
    ensures
        ({
            let k = grid::shared_start(a, b, i);
            &&& i <= k <= a.len() && k <= b.len()
            &&& forall|j: int| i <= j < k ==> unicode::same_letter(#[trigger] a[j], b[j])
            &&& k < a.len() && k < b.len() ==> !unicode::same_letter(a[k], b[k])
        }),
    decreases a.len() - i,
{
    if i < a.len() && i < b.len() && unicode::same_letter(a[i], b[i]) {
        shared_starts_end_where_letters_differ(a, b, i + 1);
    }
}

/// A candidate takes a row for each line of its text.
pub proof fn candidates_take_rows(s: Seq<char>, n: int)
    requires
        0 <= n < s.len(),
    ensures
        listwin::breaks(s, 0) == 0,
        s[n] == '\n' ==> listwin::breaks(s, n + 1) == listwin::breaks(s, n) + 1,
        s[n] != '\n' ==> listwin::breaks(s, n + 1) == listwin::breaks(s, n),
        listwin::rows_of(Seq::empty()) == 1,
{
    reveal_with_fuel(listwin::breaks, 2);
}

/// The part of a line between two places gives way to a text, and the rest stays.
pub proof fn parts_give_way(before: Seq<char>, part: Seq<char>, after: Seq<char>, with: Seq<char>)
    requires
        text::byte_len(before + part) <= usize::MAX,
    ensures
        grid::replaced(
            before + part + after,
            (text::byte_len(before) as usize, text::byte_len(before + part) as usize),
            with,
        ) == before + with + after,
{
    text::lemma_byte_len_add(before, part);
    let s = before + part + after;
    assert(s.take(before.len() as int) =~= before);
    text::lemma_fitting_reach(s, before.len() as int, 0);
    let bp = before + part;
    assert(s.take(bp.len() as int) =~= bp);
    text::lemma_fitting_reach(s, bp.len() as int, 0);
    assert(s.skip(bp.len() as int) =~= after);
}

/// Enter takes what is selected and leaves where nothing is; Escape leaves; a key that
/// moves changes the selection and nothing else.
pub proof fn keys_take_and_leave(
    a: FuzzySelector,
    b: FuzzySelector,
    key: KeyEvent,
    view: Viewport,
    w: WidthCalculator,
    t_cols: u16,
    r: SelectorResponse,
    score: spec_fn(Seq<char>, Seq<char>, bool) -> i32,
)
    requires
        FuzzySelector::keyed(a, b, key, view, w, t_cols, r, score),
        key.1 == ModKeys::of(false, false, false),
    ensures
        key.0 is Enter && a.selected() is Some ==> r == SelectorResponse::Accept(a.selected()->0)
            && b == a,
        key.0 is Enter && a.selected() is None ==> r is Dismiss,
        key.0 is Esc ==> r is Dismiss,
        key.0 is Down || key.0 is Up || key.0 is Tab || key.0 is PageDown ==> b.filtered
            == a.filtered && b.candidates == a.candidates && b.query == a.query && (
        b.selected() matches Some(c) ==> r == SelectorResponse::Preview(c)),
{
}

/// What is looked up for a query that goes on from the last is looked up in what that one
/// found; for any other query, and where none came before, among all candidates.
pub proof fn queries_are_looked_up(
    s: FuzzySelector,
    score: spec_fn(Seq<char>, Seq<char>, bool) -> i32,
    more: Seq<char>,
)
    ensures
        s.last_query@.len() > 0 && s.query.typed() == s.last_query@ + more ==> s.rescored(
            score,
            None,
        ) == fuzzy::found_by(s.filtered@, s.query.typed(), score),
        s.last_query@.len() == 0 ==> s.rescored(score, None) == fuzzy::found_by(
            fuzzy::unscored(s.candidates@),
            s.query.typed(),
            score,
        ),
        s.rescored(score, Some(more)) == fuzzy::found_by(
            fuzzy::unscored(s.candidates@),
            more,
            score,
        ),
{
    let l = s.last_query@;
    assert((l + more).take(l.len() as int) =~= l);
}

/// After something was looked up the best is selected.
pub proof fn the_best_is_selected(
    a: FuzzySelector,
    b: FuzzySelector,
    score: spec_fn(Seq<char>, Seq<char>, bool) -> i32,
)
    requires
        FuzzySelector::scored_by(a, b, score),
        b.filtered@.len() <= usize::MAX,
    ensures
        b.cursor.val == 0,
        b.cursor.max == b.filtered@.len(),
        b.filtered@.len() > 0 ==> b.selected() == Some(b.filtered@[0].candidate),
        b.candidates == a.candidates,
        b.last_query@ == a.query.typed(),
{
}

/// A cell without a description is its name, filled up to the width; with one that fits, the
/// description stands behind the widest name, in brackets and dimmed.
pub proof fn cells_are_filled_up(
    w: WidthCalculator,
    name: Seq<char>,
    name_w: nat,
    desc: Seq<char>,
    widest: nat,
    avail: nat,
)
    requires
        name_w <= widest,
        widest + 2 + cells::wid(w, desc) + 2 <= avail,
    ensures
        cells::cell_body(w, name, name_w, Seq::empty(), widest, avail, false) == name
            + text::repeated(' ', (avail - name_w) as nat),
        desc.len() > 0 ==> cells::placed_desc(w, desc, name_w, widest, avail) == (
            (widest - name_w) as nat,
            seq!['('] + desc + seq![')'],
        ),
        desc.len() > 0 ==> name.is_prefix_of(
            cells::cell_body(w, name, name_w, desc, widest, avail, false),
        ),
{
    reveal(cells::cell_body);
}

/// The menu tells which items it shows only where it does not show all.
pub proof fn menus_tell_where_they_are(b: cells::BoardModel)
    requires
        b.scroll_col == 0,
        b.widths.len() > 0,
    ensures
        b.cells.len() <= b.widths.len() * cells::ROWS ==> !b.scrolls(),
        b.cells.len() > b.widths.len() * cells::ROWS ==> b.scrolls() && b.shown_end()
            == b.widths.len() * cells::ROWS,
        b.cells.len() < cells::ROWS ==> b.shown_rows() == b.cells.len(),
        b.cells.len() >= cells::ROWS ==> b.shown_rows() == cells::ROWS,
{
}

} // verus!
