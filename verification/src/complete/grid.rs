//! A grid of candidates below the prompt.

use crate::complete::candidate;
use crate::complete::candidate::Candidate;
use crate::complete::candidate::CompResponse;
use crate::complete::candidate::CompResult;
use crate::complete::cells;
use crate::complete::cells::col_width;
use crate::complete::cells::show_candidates;
use crate::complete::cells::Board;
use crate::complete::cells::BoardModel;
use crate::complete::cells::Cell;
use crate::complete::cells::Look;
use crate::complete::cells::ShownCell;
use crate::complete::cells::GAP;
use crate::complete::cells::ROWS;
use crate::complete::clamped;
use crate::complete::clamped::ClampedUsize;
use crate::complete::simple::SimpleCompleter;
use crate::keys::KeyCode;
use crate::keys::KeyEvent;
use crate::keys::ModKeys;
use crate::term::layout;
use crate::term::layout::push_times;
use crate::term::width::WidthCalculator;
use crate::text;
use crate::text::chars_of;
use crate::text::decimal_string;
use crate::text::owned;
use crate::text::slice_bytes;
use crate::text::skip_bytes;
use crate::text::string_of;
use crate::text::take_bytes;
use crate::unicode;
use crate::unicode::is_same_letter;
use vstd::prelude::*;

verus! {

/// How many rows were drawn below the prompt.
#[derive(Debug, Clone, Copy, PartialEq, Eq, Structural)]
pub struct GridLayout {
    pub rows: usize,
}

/// The widths of the columns that are shown, from a cell on: as many as fit
/// after `used` columns, and at least one.
pub open spec fn packed_from(
    w: WidthCalculator,
    c: Seq<Cell>,
    start: int,
    t_cols: u16,
    leader: nat,
    used: nat,
    first: bool,
) -> Seq<nat>
    decreases c.len() - start + ROWS,
{
    if start < 0 || start >= c.len() {
        Seq::empty()
    } else {
        let end = if start + ROWS <= c.len() {
            start + ROWS
        } else {
            c.len() as int
        };
        let full = cells::column_wid(w, c, start, end, leader);
        let width = if full <= t_cols {
            full
        } else {
            t_cols as nat
        };
        let next = if first {
            used + width
        } else {
            used + GAP as nat + width
        };
        if !first && next > t_cols {
            Seq::empty()
        } else {
            seq![width] + packed_from(w, c, start + ROWS, t_cols, leader, next, false)
        }
    }
}

/// The widths of the columns that are shown.
pub open spec fn packed(
    w: WidthCalculator,
    c: Seq<Cell>,
    scroll_col: int,
    t_cols: u16,
    leader: nat,
) -> Seq<nat> {
    packed_from(w, c, scroll_col * ROWS, t_cols, leader, 0, true)
}

proof fn lemma_packed(
    w: WidthCalculator,
    c: Seq<Cell>,
    start: int,
    t_cols: u16,
    leader: nat,
    used: nat,
    first: bool,
)
    requires
        0 <= start,
    ensures
        ({
            let p = packed_from(w, c, start, t_cols, leader, used, first);
            &&& p.len() > 0 ==> start + (p.len() - 1) * ROWS < c.len()
            &&& first && start < c.len() ==> p.len() > 0
        }),
    decreases c.len() - start + ROWS,
{
    let p = packed_from(w, c, start, t_cols, leader, used, first);
    if start < c.len() && p.len() > 0 {
        let end = if start + ROWS <= c.len() {
            start + ROWS
        } else {
            c.len() as int
        };
        let full = cells::column_wid(w, c, start, end, leader);
        let width = if full <= t_cols {
            full
        } else {
            t_cols as nat
        };
        let next = if first {
            used + width
        } else {
            used + GAP as nat + width
        };
        lemma_packed(w, c, start + ROWS, t_cols, leader, next, false);
        let q = packed_from(w, c, start + ROWS, t_cols, leader, next, false);
        assert(p.len() == q.len() + 1);
    }
}

/// The columns and the gaps between them.
pub open spec fn total_wid(p: Seq<nat>) -> nat
    decreases p.len(),
{
    if p.len() == 0 {
        0
    } else if p.len() == 1 {
        p[0]
    } else {
        total_wid(p.drop_last()) + GAP as nat + p.last()
    }
}

proof fn lemma_total_push(x: nat, q: Seq<nat>)
    ensures
        total_wid(seq![x] + q) == x + (if q.len() == 0 {
            0
        } else {
            GAP as nat + total_wid(q)
        }),
    decreases q.len(),
{
    let p = seq![x] + q;
    if q.len() > 0 {
        assert(p.drop_last() =~= seq![x] + q.drop_last());
        lemma_total_push(x, q.drop_last());
        assert(p.last() == q.last());
    }
}

proof fn lemma_fits(
    w: WidthCalculator,
    c: Seq<Cell>,
    start: int,
    t_cols: u16,
    leader: nat,
    used: nat,
    first: bool,
)
    requires
        first ==> used == 0,
        used <= t_cols,
    ensures
        ({
            let p = packed_from(w, c, start, t_cols, leader, used, first);
            p.len() > 0 ==> used + total_wid(p) + (if first {
                0
            } else {
                GAP as nat
            }) <= t_cols
        }),
    decreases c.len() - start + ROWS,
{
    let p = packed_from(w, c, start, t_cols, leader, used, first);
    if p.len() > 0 {
        let end = if start + ROWS <= c.len() {
            start + ROWS
        } else {
            c.len() as int
        };
        let full = cells::column_wid(w, c, start, end, leader);
        let width = if full <= t_cols {
            full
        } else {
            t_cols as nat
        };
        let next = if first {
            used + width
        } else {
            used + GAP as nat + width
        };
        let q = packed_from(w, c, start + ROWS, t_cols, leader, next, false);
        lemma_fits(w, c, start + ROWS, t_cols, leader, next, false);
        lemma_total_push(width, q);
    }
}

/// The columns that are shown fit in the terminal.
pub proof fn columns_fit(
    w: WidthCalculator,
    c: Seq<Cell>,
    scroll_col: int,
    t_cols: u16,
    leader: nat,
)
    ensures
        total_wid(packed(w, c, scroll_col, t_cols, leader)) <= t_cols,
{
    lemma_fits(w, c, scroll_col * ROWS, t_cols, leader, 0, true);
}

/// The widths of columns of some height that are shown, from an item on: as many
/// as fit after `used`, and at least one. `wid` measures the items between two
/// places.
pub open spec fn fill(
    n: int,
    start: int,
    rows: int,
    t_cols: nat,
    wid: spec_fn(int, int) -> nat,
    used: nat,
    first: bool,
) -> Seq<nat>
    decreases n - start + rows,
{
    if rows <= 0 || start < 0 || start >= n {
        Seq::empty()
    } else {
        let width = col_share(n, start, rows, t_cols, wid);
        let next = if first {
            used + width
        } else {
            used + GAP as nat + width
        };
        if !first && next > t_cols {
            Seq::empty()
        } else {
            seq![width] + fill(n, start + rows, rows, t_cols, wid, next, false)
        }
    }
}

/// The width of the column that begins with an item, which is never wider than
/// the terminal.
pub open spec fn col_share(
    n: int,
    start: int,
    rows: int,
    t_cols: nat,
    wid: spec_fn(int, int) -> nat,
) -> nat {
    let end = if start + rows <= n {
        start + rows
    } else {
        n
    };
    let full = wid(start, end);
    if full <= t_cols {
        full
    } else {
        t_cols
    }
}

/// Whether a function gives the width of the items between two places.
pub open spec fn measures<F: Fn(usize, usize) -> usize>(
    f: F,
    n: usize,
    wid: spec_fn(int, int) -> nat,
) -> bool {
    forall|s: usize, e: usize, x: usize|
        s < e <= n && #[trigger] call_ensures(f, (s, e), x) ==> x == wid(s as int, e as int)
}

/// Numbers without their type.
pub open spec fn nats(v: Seq<usize>) -> Seq<nat> {
    Seq::new(v.len(), |i: int| v[i] as nat)
}

/// What `fill` gives: each column has its own width; there are none exactly
/// where the first would begin beyond the end; more than one only where all fit;
/// and one more would not fit, or there is none.
pub proof fn columns_are_packed(
    n: int,
    scroll_col: int,
    rows: int,
    t_cols: nat,
    wid: spec_fn(int, int) -> nat,
)
    requires
        rows > 0,
        scroll_col >= 0,
    ensures
        ({
            let p = fill(n, scroll_col * rows, rows, t_cols, wid, 0, true);
            let k = p.len();
            &&& forall|i: int|
                0 <= i < k ==> (#[trigger] p[i]) == col_share(
                    n,
                    (scroll_col + i) * rows,
                    rows,
                    t_cols,
                    wid,
                )
            &&& k == 0 <==> scroll_col * rows >= n
            &&& total_wid(p) <= t_cols
            &&& k > 0 && (scroll_col + k) * rows < n ==> total_wid(p) + GAP + col_share(
                n,
                (scroll_col + k) * rows,
                rows,
                t_cols,
                wid,
            ) > t_cols
        }),
{
    assert(scroll_col * rows >= 0) by (nonlinear_arith)
        requires
            scroll_col >= 0,
            rows > 0,
    ;
    lemma_fill(n, scroll_col, rows, t_cols, wid, 0, true);
}

proof fn lemma_fill(
    n: int,
    col: int,
    rows: int,
    t_cols: nat,
    wid: spec_fn(int, int) -> nat,
    used: nat,
    first: bool,
)
    requires
        rows > 0,
        col >= 0,
        col * rows >= 0,
        first ==> used == 0,
        used <= t_cols,
    ensures
        ({
            let p = fill(n, col * rows, rows, t_cols, wid, used, first);
            let k = p.len();
            let all = if k == 0 {
                used
            } else if first {
                total_wid(p)
            } else {
                used + GAP as nat + total_wid(p)
            };
            &&& forall|i: int|
                0 <= i < k ==> (#[trigger] p[i]) == col_share(n, (col + i) * rows, rows, t_cols, wid)
            &&& first ==> (k == 0 <==> col * rows >= n)
            &&& all <= t_cols
            &&& !(first && k == 0) && (col + k) * rows < n ==> all + GAP + col_share(
                n,
                (col + k) * rows,
                rows,
                t_cols,
                wid,
            ) > t_cols
        }),
    decreases n - col * rows + rows,
{
    let start = col * rows;
    let p = fill(n, start, rows, t_cols, wid, used, first);
    if start < n {
        let width = col_share(n, start, rows, t_cols, wid);
        let next = if first {
            used + width
        } else {
            used + GAP as nat + width
        };
        if first || next <= t_cols {
            assert((col + 1) * rows == start + rows) by (nonlinear_arith)
                requires
                    start == col * rows,
            ;
            lemma_fill(n, col + 1, rows, t_cols, wid, next, false);
            let q = fill(n, start + rows, rows, t_cols, wid, next, false);
            assert(p == seq![width] + q);
            lemma_total_push(width, q);
            assert forall|i: int| 0 <= i < p.len() implies (#[trigger] p[i]) == col_share(
                n,
                (col + i) * rows,
                rows,
                t_cols,
                wid,
            ) by {
                if i > 0 {
                    assert(p[i] == q[i - 1]);
                    assert(col + 1 + (i - 1) == col + i);
                }
            }
            assert(col + 1 + q.len() == col + p.len());
        }
    }
}

/// Takes as many columns of some height as fit, from a column on. The first is
/// taken even where it is too wide. `col_width` measures the items between two
/// places.
pub fn pack_columns<F: Fn(usize, usize) -> usize>(
    n: usize,
    scroll_col: usize,
    rows: usize,
    t_cols: usize,
    col_width: F,
) -> (r: Vec<usize>)
    requires
        rows > 0,
        forall|s: usize, e: usize| s < e <= n ==> #[trigger] call_requires(col_width, (s, e)),
    ensures
        forall|wid: spec_fn(int, int) -> nat| #[trigger]
            measures(col_width, n, wid) ==> nats(r@) == fill(
                n as int,
                scroll_col * rows,
                rows as int,
                t_cols as nat,
                wid,
                0,
                true,
            ),
        r@.len() == 0 <==> scroll_col * rows >= n,
        r@.len() > 0 ==> (scroll_col + r@.len() - 1) * rows < n,
{
    pack_by(n, scroll_col, rows, t_cols, &col_width)
}

fn pack_by<F: Fn(usize, usize) -> usize>(
    n: usize,
    scroll_col: usize,
    rows: usize,
    t_cols: usize,
    col_width: &F,
) -> (r: Vec<usize>)
    requires
        rows > 0,
        forall|s: usize, e: usize| s < e <= n ==> #[trigger] call_requires(*col_width, (s, e)),
    ensures
        forall|wid: spec_fn(int, int) -> nat| #[trigger]
            measures(*col_width, n, wid) ==> nats(r@) == fill(
                n as int,
                scroll_col * rows,
                rows as int,
                t_cols as nat,
                wid,
                0,
                true,
            ),
        r@.len() == 0 <==> scroll_col * rows >= n,
        r@.len() > 0 ==> (scroll_col + r@.len() - 1) * rows < n,
{
    let mut widths: Vec<usize> = Vec::new();
    let ghost from: int = scroll_col * rows;
    assert(from >= 0) by (nonlinear_arith)
        requires
            from == scroll_col * rows,
            scroll_col >= 0,
            rows >= 0,
    ;
    let mut start: usize = match scroll_col.checked_mul(rows) {
        Some(x) => x,
        None => {
            return widths;
        },
    };
    let mut used: usize = 0;
    let ghost mut col: int = scroll_col as int;
    while start < n
        invariant
            rows > 0,
            forall|s: usize, e: usize| s < e <= n ==> #[trigger] call_requires(*col_width, (s, e)),
            used <= t_cols,
            widths@.len() == 0 ==> used == 0,
            from == scroll_col * rows,
            0 <= from,
            col == scroll_col + widths@.len(),
            start == (if col * rows <= n {
                col * rows
            } else {
                n as int
            }) || widths@.len() == 0 && start == from,
            widths@.len() > 0 ==> (col - 1) * rows < n,
            widths@.len() > 0 ==> from < n,
            forall|wid: spec_fn(int, int) -> nat| #[trigger]
                measures(*col_width, n, wid) ==> nats(widths@) + fill(
                    n as int,
                    start as int,
                    rows as int,
                    t_cols as nat,
                    wid,
                    used as nat,
                    widths@.len() == 0,
                ) == fill(n as int, from, rows as int, t_cols as nat, wid, 0, true),
        ensures
            widths@.len() == 0 <==> from >= n,
            widths@.len() > 0 ==> (scroll_col + widths@.len() - 1) * rows < n,
            forall|wid: spec_fn(int, int) -> nat| #[trigger]
                measures(*col_width, n, wid) ==> nats(widths@) == fill(
                    n as int,
                    from,
                    rows as int,
                    t_cols as nat,
                    wid,
                    0,
                    true,
                ),
        decreases n - start,
    {
        let end: usize = if rows <= n - start {
            start + rows
        } else {
            n
        };
        let full: usize = col_width(start, end);
        let width: usize = if full <= t_cols {
            full
        } else {
            t_cols
        };
        let first: bool = widths.len() == 0;
        if !first && (width > t_cols - used || GAP > t_cols - used - width) {
            proof {
                assert forall|wid: spec_fn(int, int) -> nat| #[trigger]
                    measures(*col_width, n, wid) implies nats(widths@) == fill(
                    n as int,
                    from,
                    rows as int,
                    t_cols as nat,
                    wid,
                    0,
                    true,
                ) by {
                    assert(full == wid(start as int, end as int));
                    let rest = fill(
                        n as int,
                        start as int,
                        rows as int,
                        t_cols as nat,
                        wid,
                        used as nat,
                        false,
                    );
                    assert(rest =~= Seq::empty());
                    assert(nats(widths@) + rest =~= nats(widths@));
                }
            }
            break;
        }
        let ghost was = widths@;
        let ghost before = used;
        used = if first {
            width
        } else {
            used + GAP + width
        };
        widths.push(width);
        proof {
            assert forall|wid: spec_fn(int, int) -> nat| #[trigger]
                measures(*col_width, n, wid) implies nats(widths@) + fill(
                n as int,
                end as int,
                rows as int,
                t_cols as nat,
                wid,
                used as nat,
                false,
            ) == fill(n as int, from, rows as int, t_cols as nat, wid, 0, true) by {
                assert(full == wid(start as int, end as int));
                let rest = fill(
                    n as int,
                    start + rows,
                    rows as int,
                    t_cols as nat,
                    wid,
                    used as nat,
                    false,
                );
                assert(rest == fill(
                    n as int,
                    end as int,
                    rows as int,
                    t_cols as nat,
                    wid,
                    used as nat,
                    false,
                ));
                assert(nats(widths@) + rest =~= nats(was) + (seq![width as nat] + rest));
            }
            assert((col + 1) * rows == col * rows + rows) by (nonlinear_arith);
            col = col + 1;
        }
        start = end;
    }
    widths
}

/// How the cells between two places are measured.
pub open spec fn cells_wid(w: WidthCalculator, c: Seq<Cell>, leader: nat) -> spec_fn(
    int,
    int,
) -> nat {
    |s: int, e: int| cells::column_wid(w, c, s, e, leader)
}

proof fn lemma_packed_fill(
    w: WidthCalculator,
    c: Seq<Cell>,
    start: int,
    t_cols: u16,
    leader: nat,
    used: nat,
    first: bool,
)
    ensures
        packed_from(w, c, start, t_cols, leader, used, first) == fill(
            c.len() as int,
            start,
            ROWS as int,
            t_cols as nat,
            cells_wid(w, c, leader),
            used,
            first,
        ),
    decreases c.len() - start + ROWS,
{
    if 0 <= start < c.len() {
        let width = col_share(
            c.len() as int,
            start,
            ROWS as int,
            t_cols as nat,
            cells_wid(w, c, leader),
        );
        let next = if first {
            used + width
        } else {
            used + GAP as nat + width
        };
        if first || next <= t_cols {
            lemma_packed_fill(w, c, start + ROWS, t_cols, leader, next, false);
        }
    }
}

/// Takes as many columns of cells as fit, from a column on.
pub fn pack_cells(
    w: WidthCalculator,
    c: &[ShownCell],
    scroll_col: usize,
    t_cols: u16,
    leader: usize,
) -> (r: Vec<usize>)
    requires
        leader <= 2,
    ensures
        r@.len() == packed(w, cells::model(c@), scroll_col as int, t_cols, leader as nat).len(),
        forall|i: int|
            0 <= i < r@.len() ==> (#[trigger] r@[i]) == packed(
                w,
                cells::model(c@),
                scroll_col as int,
                t_cols,
                leader as nat,
            )[i],
        r@.len() > 0 ==> (scroll_col + r@.len() - 1) * ROWS < c@.len(),
        scroll_col * ROWS < c@.len() ==> r@.len() > 0,
{
    let measure = |s: usize, e: usize| -> (x: usize)
        requires
            s <= e <= c@.len(),
        ensures
            x == cells::column_wid(w, cells::model(c@), s as int, e as int, leader as nat),
        { col_width(w, c, s, e, leader) };
    let r = pack_columns(c.len(), scroll_col, ROWS, t_cols as usize, measure);
    proof {
        let wid = cells_wid(w, cells::model(c@), leader as nat);
        assert(measures(measure, c@.len() as usize, wid));
        lemma_packed_fill(
            w,
            cells::model(c@),
            scroll_col * ROWS,
            t_cols,
            leader as nat,
            0,
            true,
        );
        let p = packed(w, cells::model(c@), scroll_col as int, t_cols, leader as nat);
        assert(nats(r@) == p);
        assert forall|i: int| 0 <= i < r@.len() implies (#[trigger] r@[i]) == p[i] by {
            assert(nats(r@)[i] == p[i]);
        }
    }
    r
}

/// The first column to show so that a column of items is shown: the same as
/// before where it can be.
pub open spec fn scrolled_to(
    n: int,
    scroll_col: int,
    col: int,
    rows: int,
    t_cols: nat,
    wid: spec_fn(int, int) -> nat,
) -> int
    decreases col - scroll_col,
{
    if col <= scroll_col {
        col
    } else if col < scroll_col + fill(n, scroll_col * rows, rows, t_cols, wid, 0, true).len() {
        scroll_col
    } else {
        scrolled_to(n, scroll_col + 1, col, rows, t_cols, wid)
    }
}

/// After scrolling a column that has items is shown, and nothing is scrolled where
/// it was shown before.
pub proof fn column_is_shown(
    n: int,
    scroll_col: int,
    col: int,
    rows: int,
    t_cols: nat,
    wid: spec_fn(int, int) -> nat,
)
    requires
        0 <= scroll_col,
        0 <= col,
        0 < rows,
        col * rows < n,
    ensures
        ({
            let s = scrolled_to(n, scroll_col, col, rows, t_cols, wid);
            &&& 0 <= s <= col < s + fill(n, s * rows, rows, t_cols, wid, 0, true).len()
            &&& scroll_col <= col < scroll_col + fill(
                n,
                scroll_col * rows,
                rows,
                t_cols,
                wid,
                0,
                true,
            ).len() ==> s == scroll_col
        }),
    decreases col - scroll_col,
{
    if col <= scroll_col {
        assert(0 <= col * rows) by (nonlinear_arith)
            requires
                0 <= col,
                0 < rows,
        ;
        assert(fill(n, col * rows, rows, t_cols, wid, 0, true).len() > 0);
    } else if col < scroll_col + fill(n, scroll_col * rows, rows, t_cols, wid, 0, true).len() {
    } else {
        column_is_shown(n, scroll_col + 1, col, rows, t_cols, wid);
    }
}

/// Scrolls so that the column of the cursor is shown. `col_width` measures the
/// items between two places.
pub fn scroll_into_view<F: Fn(usize, usize) -> usize>(
    cursor: usize,
    scroll_col: &mut usize,
    n: usize,
    rows: usize,
    t_cols: usize,
    col_width: F,
)
    requires
        rows > 0,
        forall|s: usize, e: usize| s < e <= n ==> #[trigger] call_requires(col_width, (s, e)),
    ensures
        n == 0 ==> *final(scroll_col) == 0,
        n > 0 ==> *final(scroll_col) <= cursor / rows,
        n > 0 && *old(scroll_col) <= cursor / rows ==> *old(scroll_col) <= *final(scroll_col),
        n > 0 && *old(scroll_col) > cursor / rows ==> *final(scroll_col) == cursor / rows,
        forall|wid: spec_fn(int, int) -> nat| #[trigger]
            measures(col_width, n, wid) && n > 0 ==> *final(scroll_col) == scrolled_to(
                n as int,
                *old(scroll_col) as int,
                (cursor / rows) as int,
                rows as int,
                t_cols as nat,
                wid,
            ),
{
    if n == 0 {
        *scroll_col = 0;
        return;
    }
    let col: usize = cursor / rows;
    if col <= *scroll_col {
        *scroll_col = col;
        return;
    }
    let ghost from = *scroll_col;
    let mut s: usize = *scroll_col;
    while s < col
        invariant
            from <= s <= col,
            from == *old(scroll_col),
            from < col,
            col == cursor / rows,
            n > 0,
            rows > 0,
            forall|s: usize, e: usize| s < e <= n ==> #[trigger] call_requires(col_width, (s, e)),
            forall|wid: spec_fn(int, int) -> nat| #[trigger]
                measures(col_width, n, wid) ==> scrolled_to(
                    n as int,
                    from as int,
                    col as int,
                    rows as int,
                    t_cols as nat,
                    wid,
                ) == scrolled_to(n as int, s as int, col as int, rows as int, t_cols as nat, wid),
        decreases col - s,
    {
        let p = pack_by(n, s, rows, t_cols, &col_width);
        proof {
            assert forall|wid: spec_fn(int, int) -> nat| #[trigger]
                measures(col_width, n, wid) implies fill(
                n as int,
                s * rows,
                rows as int,
                t_cols as nat,
                wid,
                0,
                true,
            ).len() == p@.len() by {
                assert(nats(p@).len() == p@.len());
            }
        }
        if col - s < p.len() {
            *scroll_col = s;
            return;
        }
        s = s + 1;
    }
    *scroll_col = s;
}

/// The first column of cells to show so that a column is shown: the same as before
/// where it can be.
pub open spec fn scrolled(
    w: WidthCalculator,
    c: Seq<Cell>,
    scroll_col: int,
    col: int,
    t_cols: u16,
    leader: nat,
) -> int {
    scrolled_to(
        c.len() as int,
        scroll_col,
        col,
        ROWS as int,
        t_cols as nat,
        cells_wid(w, c, leader),
    )
}

/// After scrolling the column of the cursor is shown.
pub proof fn cursor_column_is_shown(
    w: WidthCalculator,
    c: Seq<Cell>,
    scroll_col: int,
    col: int,
    t_cols: u16,
    leader: nat,
)
    requires
        0 <= scroll_col,
        0 <= col,
        col * ROWS < c.len(),
    ensures
        ({
            let s = scrolled(w, c, scroll_col, col, t_cols, leader);
            0 <= s <= col < s + packed(w, c, s, t_cols, leader).len()
        }),
{
    let wid = cells_wid(w, c, leader);
    column_is_shown(c.len() as int, scroll_col, col, ROWS as int, t_cols as nat, wid);
    let s = scrolled(w, c, scroll_col, col, t_cols, leader);
    lemma_packed_fill(w, c, s * ROWS, t_cols, leader, 0, true);
}

/// Scrolls so that the column of the cursor is shown.
pub fn scroll_cells(
    w: WidthCalculator,
    c: &[ShownCell],
    cursor: usize,
    scroll_col: usize,
    t_cols: u16,
    leader: usize,
) -> (r: usize)
    requires
        leader <= 2,
    ensures
        c@.len() == 0 ==> r == 0,
        c@.len() > 0 ==> r == scrolled(
            w,
            cells::model(c@),
            scroll_col as int,
            (cursor / ROWS) as int,
            t_cols,
            leader as nat,
        ) && r <= cursor / ROWS,
{
    let measure = |s: usize, e: usize| -> (x: usize)
        requires
            s <= e <= c@.len(),
        ensures
            x == cells::column_wid(w, cells::model(c@), s as int, e as int, leader as nat),
        { col_width(w, c, s, e, leader) };
    let mut r: usize = scroll_col;
    assert(measures(measure, c@.len() as usize, cells_wid(w, cells::model(c@), leader as nat)));
    scroll_into_view(cursor, &mut r, c.len(), ROWS, t_cols as usize, measure);
    r
}

/// One column to the right or the left, in the same row. At the ends it wraps
/// around, or stays.
pub open spec fn stepped(cursor: int, n: int, rows: int, right: bool, wrap: bool) -> int {
    if n == 0 {
        0
    } else if right {
        if cursor + rows < n {
            cursor + rows
        } else if wrap {
            cursor % rows
        } else {
            cursor
        }
    } else if cursor >= rows {
        cursor - rows
    } else if wrap {
        cursor + ((n - 1 - cursor) / rows) * rows
    } else {
        cursor
    }
}

/// Moving by a column stays in the row, and on a candidate.
pub proof fn steps_stay_in_the_row(cursor: int, n: int, rows: int, right: bool, wrap: bool)
    requires
        0 <= cursor < n,
        rows > 0,
    ensures
        0 <= stepped(cursor, n, rows, right, wrap) < n,
        stepped(cursor, n, rows, right, wrap) % rows == cursor % rows,
{
    vstd::arithmetic::div_mod::lemma_fundamental_div_mod(cursor, rows);
    vstd::arithmetic::div_mod::lemma_mod_multiples_vanish(1, cursor, rows);
    vstd::arithmetic::div_mod::lemma_mod_multiples_vanish(-1, cursor, rows);
    vstd::arithmetic::div_mod::lemma_mod_twice(cursor, rows);
    assert(cursor % rows <= cursor) by (nonlinear_arith)
        requires
            0 <= cursor,
            rows > 0,
            cursor == rows * (cursor / rows) + cursor % rows,
    ;
    if cursor < rows {
        let q = (n - 1 - cursor) / rows;
        vstd::arithmetic::div_mod::lemma_fundamental_div_mod(n - 1 - cursor, rows);
        vstd::arithmetic::div_mod::lemma_mod_multiples_vanish(q, cursor, rows);
        assert(0 <= q * rows <= n - 1 - cursor) by (nonlinear_arith)
            requires
                n - 1 - cursor == rows * q + (n - 1 - cursor) % rows,
                0 <= (n - 1 - cursor) % rows,
                n - 1 - cursor >= 0,
                (n - 1 - cursor) % rows < rows,
                rows > 0,
        ;
        assert(rows * q + cursor == cursor + q * rows) by (nonlinear_arith);
    }
}

/// Where the columns wrap around, a step to the left undoes one to the right.
pub proof fn left_undoes_right(cursor: int, n: int, rows: int)
    requires
        0 <= cursor < n,
        rows > 0,
    ensures
        stepped(stepped(cursor, n, rows, true, true), n, rows, false, true) == cursor,
{
    vstd::arithmetic::div_mod::lemma_fundamental_div_mod(cursor, rows);
    let k = cursor / rows;
    let m = cursor % rows;
    if cursor + rows >= n {
        let x = n - 1 - m;
        let j = x - k * rows;
        assert(cursor == k * rows + m) by (nonlinear_arith)
            requires
                cursor == rows * k + m,
        ;
        vstd::arithmetic::div_mod::lemma_fundamental_div_mod_converse(x, rows, k, j);
    }
}

/// Where the columns wrap around, a step to the right undoes one to the left.
pub proof fn right_undoes_left(cursor: int, n: int, rows: int)
    requires
        0 <= cursor < n,
        rows > 0,
    ensures
        stepped(stepped(cursor, n, rows, false, true), n, rows, true, true) == cursor,
{
    steps_stay_in_the_row(cursor, n, rows, false, true);
    if cursor < rows {
        let x = n - 1 - cursor;
        let q = x / rows;
        vstd::arithmetic::div_mod::lemma_fundamental_div_mod(x, rows);
        assert(rows * q == q * rows) by (nonlinear_arith);
        vstd::arithmetic::div_mod::lemma_small_mod(cursor as nat, rows as nat);
    }
}

/// Moves by a column.
pub fn step_column(cursor: usize, n: usize, rows: usize, right: bool, wrap: bool) -> (r: usize)
    requires
        rows > 0,
        n > 0 ==> cursor < n,
    ensures
        r == stepped(cursor as int, n as int, rows as int, right, wrap),
        n > 0 ==> r < n,
{
    if n == 0 {
        return 0;
    }
    proof {
        steps_stay_in_the_row(cursor as int, n as int, rows as int, right, wrap);
    }
    if right {
        if rows < n - cursor {
            cursor + rows
        } else if wrap {
            cursor % rows
        } else {
            cursor
        }
    } else if cursor >= rows {
        cursor - rows
    } else if wrap {
        let q: usize = (n - 1 - cursor) / rows;
        assert(q * rows >= 0) by (nonlinear_arith)
            requires
                q >= 0,
                rows >= 0,
        ;
        cursor + q * rows
    } else {
        cursor
    }
}

/// How many characters two texts share at their start, from a place on, where
/// case does not matter.
pub open spec fn shared_start(a: Seq<char>, b: Seq<char>, i: int) -> int
    decreases a.len() - i,
{
    if 0 <= i < a.len() && i < b.len() && unicode::same_letter(a[i], b[i]) {
        shared_start(a, b, i + 1)
    } else {
        i
    }
}

/// How many characters two texts share at their start, where case does not
/// matter.
pub fn common_prefix_len(a: &str, b: &str) -> (r: usize)
    ensures
        r == shared_start(a@, b@, 0),
{
    let x = chars_of(a);
    let y = chars_of(b);
    let mut i: usize = 0;
    while i < x.len() && i < y.len() && is_same_letter(x[i], y[i])
        invariant
            i <= x@.len(),
            x@ == a@,
            y@ == b@,
            shared_start(a@, b@, 0) == shared_start(a@, b@, i as int),
        decreases x@.len() - i,
    {
        i = i + 1;
    }
    i
}

/// Which characters of a name are those that were typed.
pub open spec fn typed_marks(prefix: Seq<char>, name: Seq<char>) -> Seq<bool> {
    Seq::new(shared_start(prefix, name, 0) as nat, |i: int| true)
}

/// A grid of candidates, one of which may be selected.
#[derive(Debug)]
pub struct GridSelector {
    pub candidates: Vec<Candidate>,
    pub cursor: ClampedUsize,
    pub old_layout: Option<GridLayout>,
    /// The first column that is shown.
    pub scroll_col: usize,
    /// Where the cursor goes after drawing.
    pub prompt_cursor_col: usize,
    pub has_selection: bool,
    /// What was typed of the candidates.
    pub prefix: String,
}

/// What takes the cursor back to its column.
pub open spec fn to_column(col: usize) -> Seq<char> {
    if col > 0 {
        ("\x1b["@ + text::decimal(col as nat)).push('C')
    } else {
        Seq::empty()
    }
}

/// What takes the cursor up by some rows.
pub open spec fn up_by(rows: nat) -> Seq<char> {
    ("\x1b["@ + text::decimal(rows)).push('A')
}

/// What takes the cursor back to its column.
pub fn column_escape(col: usize) -> (r: String)
    ensures
        r@ == to_column(col),
{
    if col == 0 {
        let s: String = String::new();
        assert(s@ =~= Seq::empty());
        return s;
    }
    let mut s = owned("\x1b[");
    let d = decimal_string(col);
    s.push_str(d.as_str());
    s.push('C');
    s
}

/// What takes the cursor up by some rows.
pub fn up_escape(rows: usize) -> (r: String)
    ensures
        r@ == up_by(rows as nat),
{
    let mut s = owned("\x1b[");
    let d = decimal_string(rows);
    s.push_str(d.as_str());
    s.push('A');
    s
}

/// What erases a drawn overlay below the prompt.
pub open spec fn overlay_cleared(rows: nat, col: usize) -> Seq<char> {
    layout::times("\x1b[1B\x1b[2K"@, rows) + up_by(rows) + to_column(col)
}

/// What is drawn of a board below the prompt: its rows, which cells are shown
/// where that is not all of them, and the way back.
pub open spec fn board_drawn(b: BoardModel, w: WidthCalculator, col: usize) -> Seq<char> {
    let rows = b.shown_rows();
    let body = "\n"@ + b.rows_text(w, rows);
    let counted = if b.scrolls() {
        body + b.counter_text()
    } else {
        body
    };
    (counted + up_by(
        (rows + if b.scrolls() {
            1int
        } else {
            0
        }) as nat,
    )).push('\r') + to_column(col)
}

impl GridSelector {
    pub open spec fn idle(self) -> bool {
        &&& self.candidates@.len() == 0
        &&& self.cursor == (ClampedUsize { val: 0, max: 0, wrap: false })
        &&& self.old_layout is None
        &&& self.scroll_col == 0
        &&& self.prompt_cursor_col == 0
        &&& !self.has_selection
        &&& self.prefix@ == Seq::<char>::empty()
    }

    /// The cursor is on a candidate, and the first column shown begins with
    /// one.
    pub open spec fn wf(self) -> bool {
        &&& self.candidates@.len() <= usize::MAX / 4
        &&& self.cursor.max == self.candidates@.len()
        &&& self.cursor.wf()
        &&& self.scroll_col * ROWS <= self.candidates@.len()
    }

    pub fn new() -> (r: Self)
        ensures
            r.idle(),
            r.wf(),
    {
        let prefix: String = String::new();
        assert(prefix@ =~= Seq::empty());
        GridSelector {
            candidates: Vec::new(),
            cursor: ClampedUsize::new(0, 0, false),
            old_layout: None,
            scroll_col: 0,
            prompt_cursor_col: 0,
            has_selection: false,
            prefix,
        }
    }

    pub fn reset(&mut self)
        ensures
            final(self).idle(),
            final(self).wf(),
    {
        *self = GridSelector::new();
    }

    /// Shows candidates, none of them selected.
    pub fn activate(&mut self, candidates: Vec<Candidate>)
        requires
            candidates@.len() <= usize::MAX / 4,
        ensures
            *final(self) == (GridSelector {
                candidates,
                cursor: ClampedUsize { val: 0, max: candidates@.len() as usize, wrap: true },
                old_layout: None,
                scroll_col: 0,
                has_selection: false,
                ..*old(self)
            }),
            final(self).wf(),
    {
        self.cursor = ClampedUsize::new(0, candidates.len(), true);
        self.candidates = candidates;
        self.old_layout = None;
        self.scroll_col = 0;
        self.has_selection = false;
    }

    pub open spec fn selected(self) -> Option<Candidate> {
        if self.has_selection && self.cursor.val < self.candidates@.len() {
            Some(self.candidates@[self.cursor.val as int])
        } else {
            None
        }
    }

    pub fn selected_candidate(&self) -> (r: Option<Candidate>)
        ensures
            r == self.selected(),
    {
        if self.has_selection && self.cursor.get() < self.candidates.len() {
            Some(self.candidates[self.cursor.get()].clone())
        } else {
            None
        }
    }

    /// Goes to the next candidate; the first time it selects the first.
    pub fn next_candidate(&mut self)
        ensures
            *final(self) == (GridSelector {
                cursor: if old(self).has_selection {
                    ClampedUsize {
                        val: clamped::wrapped_sum(old(self).cursor, 1),
                        ..old(self).cursor
                    }
                } else {
                    old(self).cursor
                },
                has_selection: true,
                ..*old(self)
            }),
            old(self).wf() ==> final(self).wf(),
    {
        if self.has_selection {
            self.cursor.wrap_add(1);
        } else {
            self.has_selection = true;
        }
    }

    /// Goes to the previous candidate.
    pub fn prev_candidate(&mut self)
        requires
            old(self).wf(),
        ensures
            *final(self) == (GridSelector {
                cursor: ClampedUsize {
                    val: clamped::wrapped_difference(old(self).cursor, 1),
                    ..old(self).cursor
                },
                has_selection: true,
                ..*old(self)
            }),
            final(self).wf(),
    {
        self.has_selection = true;
        self.cursor.wrap_sub(1);
    }

    /// Goes to the candidate beside; the first time it selects the first.
    pub fn move_col(&mut self, right: bool)
        requires
            old(self).wf(),
        ensures
            *final(self) == (GridSelector {
                cursor: if old(self).has_selection {
                    ClampedUsize {
                        val: stepped(
                            old(self).cursor.val as int,
                            old(self).candidates@.len() as int,
                            ROWS as int,
                            right,
                            true,
                        ) as usize,
                        ..old(self).cursor
                    }
                } else {
                    old(self).cursor
                },
                has_selection: true,
                ..*old(self)
            }),
            final(self).wf(),
    {
        if !self.has_selection {
            self.has_selection = true;
            return;
        }
        let next = step_column(self.cursor.get(), self.candidates.len(), ROWS, right, true);
        self.cursor.set(next);
    }

    pub fn set_prompt_line_context(&mut self, _line_width: usize, cursor_col: usize)
        ensures
            *final(self) == (GridSelector { prompt_cursor_col: cursor_col, ..*old(self) }),
    {
        self.prompt_cursor_col = cursor_col;
    }

    pub fn set_prefix(&mut self, prefix: String)
        ensures
            *final(self) == (GridSelector { prefix, ..*old(self) }),
    {
        self.prefix = prefix;
    }

    /// What erases the rows that were drawn.
    pub fn clear(&mut self) -> (r: String)
        ensures
            *final(self) == (GridSelector { old_layout: None, ..*old(self) }),
            r@ == (match old(self).old_layout {
                Some(l) => overlay_cleared(l.rows as nat, old(self).prompt_cursor_col),
                None => Seq::empty(),
            }),
    {
        let mut out: String = String::new();
        assert(out@ =~= Seq::empty());
        if let Some(l) = self.old_layout {
            push_times(&mut out, "\x1b[1B\x1b[2K", l.rows);
            assert(out@ =~= layout::times("\x1b[1B\x1b[2K"@, l.rows as nat));
            let up = up_escape(l.rows);
            out.push_str(up.as_str());
            let col = column_escape(self.prompt_cursor_col);
            out.push_str(col.as_str());
        }
        self.old_layout = None;
        out
    }

    fn shown(&self) -> (r: Vec<ShownCell>)
        ensures
            cells::model(r@) == cells::cells_of(self.candidates@),
            r@.len() == self.candidates@.len(),
    {
        let r = show_candidates(self.candidates.as_slice());
        assert(cells::model(r@).len() == cells::cells_of(self.candidates@).len());
        r
    }

    /// The widths of the columns that are shown.
    pub open spec fn window(self, w: WidthCalculator, t_cols: u16) -> Seq<nat> {
        packed(w, cells::cells_of(self.candidates@), self.scroll_col as int, t_cols, 0)
    }

    /// The widths of the columns that are shown.
    pub fn visible_window(&self, w: WidthCalculator, t_cols: u16) -> (r: Vec<usize>)
        requires
            self.wf(),
        ensures
            r@.len() == self.window(w, t_cols).len(),
            forall|i: int|
                0 <= i < r@.len() ==> (#[trigger] r@[i]) == self.window(w, t_cols)[i],
            r@.len() > 0 ==> (self.scroll_col + r@.len() - 1) * ROWS < self.candidates@.len(),
            self.scroll_col * ROWS < self.candidates@.len() ==> r@.len() > 0,
    {
        let c = self.shown();
        pack_cells(w, c.as_slice(), self.scroll_col, t_cols, 0)
    }

    /// The first column that is shown once the cursor is.
    pub open spec fn scrolled_col(self, w: WidthCalculator, t_cols: u16) -> int {
        if self.candidates@.len() == 0 {
            0
        } else {
            scrolled(
                w,
                cells::cells_of(self.candidates@),
                self.scroll_col as int,
                (self.cursor.val / ROWS) as int,
                t_cols,
                0,
            )
        }
    }

    /// Scrolls so that the selected candidate is shown.
    pub fn ensure_cursor_visible(&mut self, w: WidthCalculator, t_cols: u16)
        requires
            old(self).wf(),
        ensures
            *final(self) == (GridSelector {
                scroll_col: old(self).scrolled_col(w, t_cols) as usize,
                ..*old(self)
            }),
            final(self).wf(),
            final(self).scroll_col == old(self).scrolled_col(w, t_cols),
            final(self).candidates@.len() > 0 ==> final(self).scroll_col * ROWS < final(
                self).candidates@.len(),
    {
        let c = self.shown();
        let s = scroll_cells(
            w,
            c.as_slice(),
            self.cursor.get(),
            self.scroll_col,
            t_cols,
            0,
        );
        self.scroll_col = s;
    }

    /// The candidates of a screenful of columns.
    pub open spec fn page(self, w: WidthCalculator, t_cols: u16) -> int {
        let n = self.window(w, t_cols).len() as int;
        (if n == 0 {
            1
        } else {
            n
        }) * ROWS
    }

    fn page_size(&self, w: WidthCalculator, t_cols: u16) -> (r: usize)
        requires
            self.wf(),
        ensures
            r == self.page(w, t_cols),
    {
        let n: usize = self.visible_window(w, t_cols).len();
        if n == 0 {
            ROWS
        } else {
            (n - 1) * ROWS + ROWS
        }
    }

    /// Goes on by a screenful of columns.
    pub fn next_page(&mut self, w: WidthCalculator, t_cols: u16)
        requires
            old(self).wf(),
        ensures
            *final(self) == (GridSelector {
                cursor: ClampedUsize {
                    val: clamped::wrapped_sum(
                        old(self).cursor,
                        old(self).page(w, t_cols) as usize,
                    ),
                    ..old(self).cursor
                },
                has_selection: true,
                ..*old(self)
            }),
            final(self).wf(),
    {
        self.has_selection = true;
        if self.candidates.len() == 0 {
            return;
        }
        let step = self.page_size(w, t_cols);
        self.cursor.wrap_add(step);
    }

    /// Goes back by a screenful of columns.
    pub fn prev_page(&mut self, w: WidthCalculator, t_cols: u16)
        requires
            old(self).wf(),
        ensures
            *final(self) == (GridSelector {
                cursor: ClampedUsize {
                    val: clamped::wrapped_difference(
                        old(self).cursor,
                        old(self).page(w, t_cols) as usize,
                    ),
                    ..old(self).cursor
                },
                has_selection: true,
                ..*old(self)
            }),
            final(self).wf(),
    {
        self.has_selection = true;
        if self.candidates.len() == 0 {
            return;
        }
        let step = self.page_size(w, t_cols);
        self.cursor.wrap_sub(step);
    }

    fn marks(&self, c: &Vec<ShownCell>) -> (r: Vec<Vec<bool>>)
        ensures
            r@.len() == c@.len(),
            forall|i: int|
                0 <= i < r@.len() ==> (#[trigger] r@[i])@ == typed_marks(
                    self.prefix@,
                    c@[i].name@,
                ),
    {
        let mut out: Vec<Vec<bool>> = Vec::new();
        let mut i: usize = 0;
        while i < c.len()
            invariant
                i <= c@.len(),
                out@.len() == i,
                forall|k: int|
                    0 <= k < i ==> (#[trigger] out@[k])@ == typed_marks(
                        self.prefix@,
                        c@[k].name@,
                    ),
            decreases c@.len() - i,
        {
            let n = common_prefix_len(self.prefix.as_str(), c[i].name.as_str());
            let mut v: Vec<bool> = Vec::new();
            let mut k: usize = 0;
            while k < n
                invariant
                    k <= n,
                    v@.len() == k,
                    forall|j: int| 0 <= j < k ==> v@[j],
                decreases n - k,
            {
                v.push(true);
                k = k + 1;
            }
            assert(v@ =~= typed_marks(self.prefix@, c@[i as int].name@));
            out.push(v);
            i = i + 1;
        }
        out
    }

    /// What is shown of the candidates.
    pub open spec fn board(self, w: WidthCalculator, t_cols: u16) -> BoardModel {
        let c = cells::cells_of(self.candidates@);
        BoardModel {
            cells: c,
            marks: Seq::new(c.len(), |i: int| typed_marks(self.prefix@, c[i].name)),
            widths: self.window(w, t_cols),
            scroll_col: self.scroll_col as int,
            selected: if self.has_selection {
                Some(self.cursor.val as int)
            } else {
                None
            },
            look: Look::Grid,
        }
    }

    /// Draws the grid below the prompt: what is sent, and the rows that it
    /// takes.
    pub fn draw(&mut self, w: WidthCalculator, t_cols: u16) -> (r: (String, usize))
        requires
            old(self).wf(),
        ensures
            final(self).wf(),
            old(self).candidates@.len() == 0 ==> r.0@ == Seq::<char>::empty() && r.1 == 0
                && *final(self) == *old(self),
            old(self).candidates@.len() > 0 ==> {
                let s = GridSelector {
                    scroll_col: old(self).scrolled_col(w, t_cols) as usize,
                    ..*old(self)
                };
                let b = s.board(w, t_cols);
                &&& r.0@ == board_drawn(b, w, s.prompt_cursor_col)
                &&& r.1 == b.shown_rows() + (if b.scrolls() {
                    1int
                } else {
                    0
                })
                &&& *final(self) == (GridSelector {
                    old_layout: Some(GridLayout { rows: r.1 }),
                    ..s
                })
            },
    {
        if self.candidates.len() == 0 {
            let s: String = String::new();
            assert(s@ =~= Seq::empty());
            return (s, 0);
        }
        self.ensure_cursor_visible(w, t_cols);
        let c = self.shown();
        let widths = pack_cells(w, c.as_slice(), self.scroll_col, t_cols, 0);
        let marks = self.marks(&c);
        let board = Board {
            cells: c.as_slice(),
            marks: marks.as_slice(),
            widths: widths.as_slice(),
            scroll_col: self.scroll_col,
            selected: if self.has_selection {
                Some(self.cursor.get())
            } else {
                None
            },
            look: Look::Grid,
        };
        proof {
            let m = self.board(w, t_cols);
            assert(board@.cells =~= m.cells);
            assert forall|i: int| 0 <= i < c@.len() implies board@.marks[i] == m.marks[i] by {
                assert(cells::model(c@)[i].name == m.cells[i].name);
            }
            assert(board@.marks =~= m.marks);
            assert(board@.widths =~= m.widths);
            assert(board@ == m);
        }
        let mut out = owned("\n");
        let (text, rows) = board.draw_rows(w);
        out.push_str(text.as_str());
        let scrolls = board.is_scrolling();
        let drawn: usize = if scrolls {
            let counter = board.counter();
            out.push_str(counter.as_str());
            rows + 1
        } else {
            rows
        };
        let up = up_escape(drawn);
        out.push_str(up.as_str());
        out.push('\r');
        let col = column_escape(self.prompt_cursor_col);
        out.push_str(col.as_str());
        self.old_layout = Some(GridLayout { rows: drawn });
        (out, drawn)
    }
}

/// A completer that shows its candidates in a grid.
#[derive(Debug)]
pub struct GridCompleter {
    pub completer: SimpleCompleter,
    pub selector: GridSelector,
}

/// A part of a text, replaced.
pub open spec fn replaced(input: Seq<char>, span: (usize, usize), with: Seq<char>) -> Seq<char> {
    text::up_to_byte(input, span.0 as int) + with + text::from_byte(input, span.1 as int)
}

/// Replaces a part of a text.
pub fn replace_span(input: &str, span: (usize, usize), with: &str) -> (r: String)
    ensures
        r@ == replaced(input@, span, with@),
{
    let v = chars_of(input);
    let head = take_bytes(v.as_slice(), span.0);
    let tail = skip_bytes(v.as_slice(), span.1);
    let mut out = string_of(head.as_slice());
    out.push_str(with);
    let t = string_of(tail.as_slice());
    out.push_str(t.as_str());
    out
}

/// Which way a key leads in the grid.
#[derive(Debug, Clone, Copy, PartialEq, Eq, Structural)]
pub enum GridKey {
    Next,
    Prev,
    Right,
    Left,
    NextPage,
    PrevPage,
    Accept,
    Dismiss,
    Other,
}

/// Which way a key leads in the grid.
pub open spec fn grid_key(k: KeyEvent) -> GridKey {
    let none = ModKeys::of(false, false, false);
    let ctrl = ModKeys::of(true, false, false);
    let shift = ModKeys::of(false, false, true);
    if k.1 == none {
        match k.0 {
            KeyCode::Tab => GridKey::Next,
            KeyCode::Down => GridKey::Next,
            KeyCode::Up => GridKey::Prev,
            KeyCode::Right => GridKey::Right,
            KeyCode::Left => GridKey::Left,
            KeyCode::PageDown => GridKey::NextPage,
            KeyCode::PageUp => GridKey::PrevPage,
            KeyCode::Enter => GridKey::Accept,
            KeyCode::Esc => GridKey::Dismiss,
            _ => GridKey::Other,
        }
    } else if k.1 == ctrl {
        match k.0 {
            KeyCode::Char('f') => GridKey::NextPage,
            KeyCode::Char('b') => GridKey::PrevPage,
            KeyCode::Char('c') => GridKey::Dismiss,
            _ => GridKey::Other,
        }
    } else if k.1 == shift {
        match k.0 {
            KeyCode::Tab => GridKey::Prev,
            _ => GridKey::Other,
        }
    } else {
        GridKey::Other
    }
}

fn read_grid_key(k: &KeyEvent) -> (r: GridKey)
    ensures
        r == grid_key(*k),
{
    if k.1 == ModKeys::empty() {
        match &k.0 {
            KeyCode::Tab => GridKey::Next,
            KeyCode::Down => GridKey::Next,
            KeyCode::Up => GridKey::Prev,
            KeyCode::Right => GridKey::Right,
            KeyCode::Left => GridKey::Left,
            KeyCode::PageDown => GridKey::NextPage,
            KeyCode::PageUp => GridKey::PrevPage,
            KeyCode::Enter => GridKey::Accept,
            KeyCode::Esc => GridKey::Dismiss,
            _ => GridKey::Other,
        }
    } else if k.1 == ModKeys::ctrl() {
        match &k.0 {
            KeyCode::Char('f') => GridKey::NextPage,
            KeyCode::Char('b') => GridKey::PrevPage,
            KeyCode::Char('c') => GridKey::Dismiss,
            _ => GridKey::Other,
        }
    } else if k.1 == ModKeys::shift() {
        match &k.0 {
            KeyCode::Tab => GridKey::Prev,
            _ => GridKey::Other,
        }
    } else {
        GridKey::Other
    }
}

/// What a key makes of a selector.
pub open spec fn selector_after(
    s: GridSelector,
    k: GridKey,
    w: WidthCalculator,
    t_cols: u16,
) -> GridSelector {
    let c = s.cursor;
    match k {
        GridKey::Next => GridSelector {
            cursor: if s.has_selection {
                ClampedUsize { val: clamped::wrapped_sum(c, 1), ..c }
            } else {
                c
            },
            has_selection: true,
            ..s
        },
        GridKey::Prev => GridSelector {
            cursor: ClampedUsize { val: clamped::wrapped_difference(c, 1), ..c },
            has_selection: true,
            ..s
        },
        GridKey::Right | GridKey::Left => GridSelector {
            cursor: if s.has_selection {
                ClampedUsize {
                    val: stepped(
                        c.val as int,
                        s.candidates@.len() as int,
                        ROWS as int,
                        k == GridKey::Right,
                        true,
                    ) as usize,
                    ..c
                }
            } else {
                c
            },
            has_selection: true,
            ..s
        },
        GridKey::NextPage => GridSelector {
            cursor: ClampedUsize {
                val: clamped::wrapped_sum(c, s.page(w, t_cols) as usize),
                ..c
            },
            has_selection: true,
            ..s
        },
        GridKey::PrevPage => GridSelector {
            cursor: ClampedUsize {
                val: clamped::wrapped_difference(c, s.page(w, t_cols) as usize),
                ..c
            },
            has_selection: true,
            ..s
        },
        _ => s,
    }
}

impl GridCompleter {
    pub fn new() -> (r: Self)
        ensures
            r.completer.idle(),
            r.selector.idle(),
            r.selector.wf(),
    {
        GridCompleter { completer: SimpleCompleter::new(), selector: GridSelector::new() }
    }

    fn preview_response(&self) -> (r: CompResponse)
        ensures
            r == (match self.selector.selected() {
                Some(c) => CompResponse::Preview(c),
                None => CompResponse::Consumed,
            }),
    {
        match self.selector.selected_candidate() {
            Some(c) => CompResponse::Preview(c),
            None => CompResponse::Consumed,
        }
    }

    pub fn set_prompt_line_context(&mut self, line_width: usize, cursor_col: usize)
        ensures
            final(self).completer == old(self).completer,
            final(self).selector == (GridSelector {
                prompt_cursor_col: cursor_col,
                ..old(self).selector
            }),
    {
        self.selector.set_prompt_line_context(line_width, cursor_col);
    }

    /// The completer after its inner one went from `a` to `m` and returned `inner`. A
    /// single candidate completes the line at once; several are shown.
    pub open spec fn answered(
        a: GridCompleter,
        m: SimpleCompleter,
        inner: Option<Seq<char>>,
        b: GridCompleter,
        r: Option<Seq<char>>,
    ) -> bool {
        let n = m.candidates@.len();
        if n == 0 {
            r is None && b.completer.idle() && b.selector == a.selector
        } else {
            &&& b.completer == m
            &&& b.selector.candidates@ == m.candidates@
            &&& b.selector == (GridSelector {
                candidates: b.selector.candidates,
                cursor: ClampedUsize { val: 0, max: n as usize, wrap: true },
                old_layout: None,
                scroll_col: 0,
                has_selection: n == 1,
                prefix: b.selector.prefix,
                ..a.selector
            })
            &&& b.selector.wf()
            &&& n == 1 ==> b.selector.prefix == a.selector.prefix && r == (if inner is Some {
                Some(replaced(m.original_input@, m.token_span, m.candidates@[0].content@))
            } else {
                None
            })
            &&& n > 1 ==> r is None && b.selector.prefix@ == text::byte_slice(
                m.original_input@,
                m.token_span.0 as int,
                m.token_span.1 as int,
            )
        }
    }

    /// Starts a completion, or goes on with it. A single candidate completes the line
    /// at once; several are shown.
    pub fn complete(
        &mut self,
        line: String,
        cursor_pos: usize,
        direction: i32,
        result: CompResult,
        ignore_case: bool,
    ) -> (r: Option<String>)
        requires
            result.candidates().len() <= usize::MAX / 4,
            old(self).completer.candidates@.len() <= usize::MAX / 4,
            old(self).completer.active ==> old(self).completer.wf()
                && old(self).completer.candidates@.len() <= i32::MAX,
        ensures
            exists|m: SimpleCompleter, inner: Option<Seq<char>>|
                #![trigger GridCompleter::answered(*old(self), m, inner, *final(self), candidate::opt_chars(r))]
                SimpleCompleter::stepped(
                    old(self).completer,
                    m,
                    line@,
                    cursor_pos,
                    direction,
                    result,
                    ignore_case,
                    inner,
                ) && GridCompleter::answered(
                    *old(self),
                    m,
                    inner,
                    *final(self),
                    candidate::opt_chars(r),
                ),
    {
        let inner = self.completer.complete(line, cursor_pos, direction, result, ignore_case);
        let ghost m = self.completer;
        let ghost got = candidate::opt_chars(inner);
        let n = self.completer.candidates.len();
        if n == 0 {
            self.completer.reset();
            assert(GridCompleter::answered(*old(self), m, got, *self, None));
            return None;
        }
        let cands = clone_candidates(&self.completer.candidates);
        self.selector.activate(cands);
        if n == 1 {
            self.selector.has_selection = true;
            let r = match inner {
                None => None,
                Some(_) => Some(
                    self.get_completed_line(self.completer.candidates[0].content.as_str()),
                ),
            };
            assert(GridCompleter::answered(*old(self), m, got, *self, candidate::opt_chars(r)));
            return r;
        }
        let v = chars_of(self.completer.original_input.as_str());
        let (from, to) = self.completer.token_span;
        let typed = slice_bytes(v.as_slice(), from, to);
        self.selector.set_prefix(string_of(typed.as_slice()));
        assert(GridCompleter::answered(*old(self), m, got, *self, None));
        None
    }

    pub fn clear(&mut self) -> (r: String)
        ensures
            final(self).completer == old(self).completer,
            final(self).selector == (GridSelector { old_layout: None, ..old(self).selector }),
            r@ == (match old(self).selector.old_layout {
                Some(l) => overlay_cleared(l.rows as nat, old(self).selector.prompt_cursor_col),
                None => Seq::empty(),
            }),
    {
        self.selector.clear()
    }

    pub fn reset(&mut self)
        ensures
            final(self).completer.idle(),
            final(self).selector.idle(),
            final(self).selector.wf(),
    {
        self.completer.reset();
        self.selector.reset();
    }

    /// Goes back to the first candidate.
    pub fn reset_stay_active(&mut self)
        ensures
            final(self).completer == old(self).completer,
            final(self).selector == (GridSelector {
                cursor: ClampedUsize { val: 0, ..old(self).selector.cursor },
                ..old(self).selector
            }),
    {
        self.selector.cursor.set(0);
    }

    pub fn is_active(&self) -> (r: bool)
        ensures
            r == (self.selector.candidates@.len() > 0),
    {
        self.selector.candidates.len() > 0
    }

    pub fn selected_candidate(&self) -> (r: Option<Candidate>)
        ensures
            r == self.selector.selected(),
    {
        self.selector.selected_candidate()
    }

    pub fn token_span(&self) -> (r: (usize, usize))
        ensures
            r == self.completer.token_span,
    {
        self.completer.token_span()
    }

    pub fn original_input(&self) -> (r: &str)
        ensures
            r@ == self.completer.original_input@,
    {
        self.completer.original_input()
    }

    pub fn all_candidates(&self) -> (r: Vec<Candidate>)
        ensures
            r@ == self.completer.candidates@,
    {
        clone_candidates(&self.completer.candidates)
    }

    pub fn draw(&mut self, w: WidthCalculator, t_cols: u16) -> (r: (String, usize))
        requires
            old(self).selector.wf(),
        ensures
            final(self).completer == old(self).completer,
            final(self).selector.wf(),
            old(self).selector.candidates@.len() == 0 ==> r.0@ == Seq::<char>::empty() && r.1 == 0
                && *final(self) == *old(self),
            old(self).selector.candidates@.len() > 0 ==> {
                let s = GridSelector {
                    scroll_col: old(self).selector.scrolled_col(w, t_cols) as usize,
                    ..old(self).selector
                };
                let b = s.board(w, t_cols);
                &&& r.0@ == board_drawn(b, w, s.prompt_cursor_col)
                &&& r.1 == b.shown_rows() + (if b.scrolls() {
                    1int
                } else {
                    0
                })
                &&& final(self).selector == (GridSelector {
                    old_layout: Some(GridLayout { rows: r.1 }),
                    ..s
                })
            },
    {
        self.selector.draw(w, t_cols)
    }

    /// The rows that drawing would take without scrolling first.
    pub fn predicted_rows(&self, w: WidthCalculator, t_cols: u16) -> (r: Option<usize>)
        requires
            self.selector.wf(),
        ensures
            r is Some,
            self.selector.candidates@.len() == 0 ==> r == Some(0usize),
            self.selector.candidates@.len() > 0 && self.selector.scroll_col * ROWS
                < self.selector.candidates@.len() ==> {
                let b = self.selector.board(w, t_cols);
                r->0 == b.shown_rows() + (if b.scrolls() {
                    1int
                } else {
                    0
                })
            },
            self.selector.candidates@.len() > 0 && self.selector.scroll_col * ROWS
                == self.selector.candidates@.len() ==> r == Some(2usize),
    {
        let n: usize = self.selector.candidates.len();
        if n == 0 {
            return Some(0);
        }
        let first: usize = self.selector.scroll_col * ROWS;
        let left: usize = n - first;
        let rows: usize = if left >= ROWS {
            ROWS
        } else if left == 0 {
            1
        } else {
            left
        };
        let cols: usize = self.selector.visible_window(w, t_cols).len();
        let end: usize = if cols == 0 {
            first + ROWS
        } else {
            (self.selector.scroll_col + (cols - 1)) * ROWS + ROWS
        };
        if first > 0 || end < n {
            Some(rows + 1)
        } else {
            Some(rows)
        }
    }

    /// Answers a key: moves, accepts what is selected, or goes away.
    pub fn handle_key(&mut self, key: KeyEvent, w: WidthCalculator, t_cols: u16) -> (r:
        CompResponse)
        requires
            old(self).selector.wf(),
        ensures
            final(self).completer == old(self).completer,
            final(self).selector == selector_after(
                old(self).selector,
                grid_key(key),
                w,
                t_cols,
            ),
            final(self).selector.wf(),
            r == (match grid_key(key) {
                GridKey::Accept => match old(self).selector.selected() {
                    Some(c) => CompResponse::Accept(c),
                    None => CompResponse::Dismiss,
                },
                GridKey::Dismiss => CompResponse::Dismiss,
                GridKey::Other => CompResponse::DismissPassthrough,
                _ => match final(self).selector.selected() {
                    Some(c) => CompResponse::Preview(c),
                    None => CompResponse::Consumed,
                },
            }),
    {
        match read_grid_key(&key) {
            GridKey::Next => self.selector.next_candidate(),
            GridKey::Prev => self.selector.prev_candidate(),
            GridKey::Right => self.selector.move_col(true),
            GridKey::Left => self.selector.move_col(false),
            GridKey::NextPage => self.selector.next_page(w, t_cols),
            GridKey::PrevPage => self.selector.prev_page(w, t_cols),
            GridKey::Accept => {
                return match self.selector.selected_candidate() {
                    Some(c) => CompResponse::Accept(c),
                    None => CompResponse::Dismiss,
                };
            },
            GridKey::Dismiss => {
                return CompResponse::Dismiss;
            },
            GridKey::Other => {
                return CompResponse::DismissPassthrough;
            },
        }
        self.preview_response()
    }

    /// The line with a candidate in place of what was typed.
    pub fn get_completed_line(&self, candidate: &str) -> (r: String)
        ensures
            r@ == replaced(
                self.completer.original_input@,
                self.completer.token_span,
                candidate@,
            ),
    {
        replace_span(
            self.completer.original_input.as_str(),
            self.completer.token_span,
            candidate,
        )
    }
}

/// Copies candidates.
pub fn clone_candidates(v: &Vec<Candidate>) -> (r: Vec<Candidate>)
    ensures
        r@ == v@,
{
    let mut out: Vec<Candidate> = Vec::new();
    let mut i: usize = 0;
    while i < v.len()
        invariant
            i <= v@.len(),
            out@ == v@.take(i as int),
        decreases v@.len() - i,
    {
        out.push(v[i].clone());
        i = i + 1;
        assert(out@ =~= v@.take(i as int));
    }
    assert(out@ =~= v@);
    out
}

} // verus!
