//! How candidates are shown in columns.

use crate::complete::candidate::Candidate;
use crate::term::width;
use crate::term::width::calc_str_width;
use crate::term::width::WidthCalculator;
use crate::text;
use crate::text::chars_of;
use crate::text::decimal_string;
use crate::text::owned;
use crate::text::push_repeated;
use crate::text::string_of;
use crate::text::sub_chars;
use crate::unicode;
use vstd::prelude::*;

verus! {

/// What a character is on a single row.
pub open spec fn on_one_line(c: char) -> Seq<char> {
    if c == '\n' || c == '\r' {
        seq!['\u{2424}']
    } else if c == '\t' {
        seq![' ', ' ', ' ', ' ']
    } else if unicode::control(c) {
        Seq::empty()
    } else {
        seq![c]
    }
}

/// A text on a single row: line breaks are shown by a sign, tabs are spaces, and
/// other control characters are left out.
pub open spec fn one_lined(s: Seq<char>) -> Seq<char>
    decreases s.len(),
{
    if s.len() == 0 {
        Seq::empty()
    } else {
        one_lined(s.drop_last()) + on_one_line(s.last())
    }
}

/// Puts a text on a single row.
pub fn one_line(s: &str) -> (r: String)
    ensures
        r@ == one_lined(s@),
{
    let v = chars_of(s);
    let mut out: String = String::new();
    let mut i: usize = 0;
    assert(v@.take(0) =~= Seq::<char>::empty());
    assert(out@ =~= Seq::empty());
    while i < v.len()
        invariant
            i <= v@.len(),
            out@ == one_lined(v@.take(i as int)),
        decreases v@.len() - i,
    {
        let ghost was = out@;
        let c = v[i];
        assert(v@.take(i + 1).drop_last() =~= v@.take(i as int));
        if c == '\n' || c == '\r' {
            out.push('\u{2424}');
        } else if c == '\t' {
            push_repeated(&mut out, ' ', 4);
        } else if c.is_control() {
        } else {
            out.push(c);
        }
        assert(out@ =~= was + on_one_line(c));
        i = i + 1;
    }
    assert(v@.take(i as int) =~= v@);
    out
}

/// A text on a single row has no control characters.
pub proof fn one_line_has_no_controls(s: Seq<char>)
    ensures
        forall|i: int|
            0 <= i < one_lined(s).len() ==> !unicode::control(#[trigger] one_lined(s)[i]),
    decreases s.len(),
{
    if s.len() > 0 {
        one_line_has_no_controls(s.drop_last());
        let a = one_lined(s.drop_last());
        let b = on_one_line(s.last());
        assert forall|i: int| 0 <= i < one_lined(s).len() implies !unicode::control(
            #[trigger] one_lined(s)[i],
        ) by {
            if i < a.len() {
                assert(one_lined(s)[i] == a[i]);
            } else {
                assert(one_lined(s)[i] == b[i - a.len()]);
            }
        }
    }
}

/// What a character is in caret notation.
pub open spec fn careted_char(c: char) -> Seq<char> {
    if c == '\x7f' {
        seq!['^', '?']
    } else if (c as u32) < 0x20 {
        seq!['^', ((c as u32) + 64) as char]
    } else {
        seq![c]
    }
}

/// A text with its control characters in caret notation.
pub open spec fn careted(s: Seq<char>) -> Seq<char>
    decreases s.len(),
{
    if s.len() == 0 {
        Seq::empty()
    } else {
        careted(s.drop_last()) + careted_char(s.last())
    }
}

/// Shows the control characters of a text in caret notation.
pub fn caret_notation(s: &str) -> (r: String)
    ensures
        r@ == careted(s@),
{
    let v = chars_of(s);
    let mut out: String = String::new();
    let mut i: usize = 0;
    assert(v@.take(0) =~= Seq::<char>::empty());
    assert(out@ =~= Seq::empty());
    while i < v.len()
        invariant
            i <= v@.len(),
            out@ == careted(v@.take(i as int)),
        decreases v@.len() - i,
    {
        let ghost was = out@;
        let c = v[i];
        assert(v@.take(i + 1).drop_last() =~= v@.take(i as int));
        if c == '\x7f' {
            out.push('^');
            out.push('?');
        } else if (c as u32) < 0x20 {
            out.push('^');
            let n: u32 = c as u32;
            out.push((n as u8 + 64) as char);
        } else {
            out.push(c);
        }
        assert(out@ =~= was + careted_char(c));
        i = i + 1;
    }
    assert(v@.take(i as int) =~= v@);
    out
}

/// What ends an emphasis, leaving reverse video and dimming alone.
pub const EMPH_OFF: &'static str = "\x1b[22;24;39m";

/// Whether a place is marked.
pub open spec fn marked(hl: Seq<bool>, i: int) -> bool {
    0 <= i < hl.len() && hl[i]
}

/// The first `n` characters of a text, each run of marked ones emphasized; the
/// last run is still open.
pub open spec fn emphasized_to(s: Seq<char>, hl: Seq<bool>, on: Seq<char>, n: int) -> Seq<char>
    decreases n,
{
    if n <= 0 {
        Seq::empty()
    } else {
        let init = emphasized_to(s, hl, on, n - 1);
        (if marked(hl, n - 1) && !marked(hl, n - 2) {
            init + on
        } else if !marked(hl, n - 1) && marked(hl, n - 2) {
            init + EMPH_OFF@
        } else {
            init
        }).push(s[n - 1])
    }
}

/// A text with each run of marked characters emphasized.
pub open spec fn emphasized(s: Seq<char>, hl: Seq<bool>, on: Seq<char>) -> Seq<char> {
    let t = emphasized_to(s, hl, on, s.len() as int);
    if marked(hl, s.len() - 1) {
        t + EMPH_OFF@
    } else {
        t
    }
}

/// Without marks a text stays as it is.
pub proof fn unmarked_is_plain(s: Seq<char>, hl: Seq<bool>, on: Seq<char>)
    requires
        forall|i: int| 0 <= i < hl.len() ==> !hl[i],
    ensures
        emphasized(s, hl, on) == s,
{
    lemma_unmarked(s, hl, on, s.len() as int);
    assert(s.take(s.len() as int) =~= s);
}

proof fn lemma_unmarked(s: Seq<char>, hl: Seq<bool>, on: Seq<char>, n: int)
    requires
        forall|i: int| 0 <= i < hl.len() ==> !hl[i],
        0 <= n <= s.len(),
    ensures
        emphasized_to(s, hl, on, n) == s.take(n),
    decreases n,
{
    if n > 0 {
        lemma_unmarked(s, hl, on, n - 1);
        assert(s.take(n - 1).push(s[n - 1]) =~= s.take(n));
    } else {
        assert(s.take(n) =~= Seq::empty());
    }
}

fn is_marked(hl: &[bool], i: usize) -> (r: bool)
    ensures
        r == marked(hl@, i as int),
{
    i < hl.len() && hl[i]
}

/// Emphasizes each run of marked characters.
pub fn emphasize(s: &str, hl: &[bool], on: &str) -> (r: String)
    ensures
        r@ == emphasized(s@, hl@, on@),
{
    let v = chars_of(s);
    let mut out: String = String::new();
    let mut active: bool = false;
    let mut i: usize = 0;
    assert(out@ =~= Seq::empty());
    while i < v.len()
        invariant
            i <= v@.len(),
            v@ == s@,
            active == marked(hl@, i - 1),
            out@ == emphasized_to(s@, hl@, on@, i as int),
        decreases v@.len() - i,
    {
        let m = is_marked(hl, i);
        if m && !active {
            out.push_str(on);
        } else if !m && active {
            out.push_str(EMPH_OFF);
        }
        active = m;
        out.push(v[i]);
        i = i + 1;
    }
    if active {
        out.push_str(EMPH_OFF);
    }
    out
}

/// The columns of a text, as far as a terminal counts.
pub open spec fn wid(w: WidthCalculator, s: Seq<char>) -> nat {
    if width::shown_columns(w, s) <= u16::MAX {
        width::shown_columns(w, s)
    } else {
        u16::MAX as nat
    }
}

fn columns(w: WidthCalculator, s: &str) -> (r: usize)
    ensures
        r == wid(w, s@),
        r <= u16::MAX,
{
    calc_str_width(w, s) as usize
}

/// How many characters fit in some columns, going on at a place.
pub open spec fn fitting(w: WidthCalculator, s: Seq<char>, max: nat, i: int, used: nat) -> int
    decreases s.len() - i,
{
    if i < 0 || i >= s.len() || used + wid(w, seq![s[i]]) > max {
        i
    } else {
        fitting(w, s, max, i + 1, used + wid(w, seq![s[i]]))
    }
}

/// The start of a text that fits in some columns.
pub open spec fn truncated(w: WidthCalculator, s: Seq<char>, max: nat) -> Seq<char> {
    s.take(fitting(w, s, max, 0, 0))
}

proof fn lemma_fitting(w: WidthCalculator, s: Seq<char>, max: nat, i: int, used: nat)
    requires
        0 <= i <= s.len(),
    ensures
        i <= fitting(w, s, max, i, used) <= s.len(),
    decreases s.len() - i,
{
    if i < s.len() && used + wid(w, seq![s[i]]) <= max {
        lemma_fitting(w, s, max, i + 1, used + wid(w, seq![s[i]]));
    }
}

/// A truncated text is a start of the text.
pub proof fn truncated_is_a_start(w: WidthCalculator, s: Seq<char>, max: nat)
    ensures
        text::has_prefix(s, truncated(w, s, max)),
{
    lemma_fitting(w, s, max, 0, 0);
    let t = truncated(w, s, max);
    assert(s.take(t.len() as int) =~= t);
}

/// The start of a text that fits in some columns.
pub fn truncate_to_width(w: WidthCalculator, s: &str, max_width: usize) -> (r: String)
    ensures
        r@ == truncated(w, s@, max_width as nat),
{
    let v = chars_of(s);
    let mut used: usize = 0;
    let mut i: usize = 0;
    while i < v.len()
        invariant
            i <= v@.len(),
            v@ == s@,
            used <= max_width,
            fitting(w, s@, max_width as nat, 0, 0) == fitting(
                w,
                s@,
                max_width as nat,
                i as int,
                used as nat,
            ),
        ensures
            i <= v@.len(),
            fitting(w, s@, max_width as nat, 0, 0) == i,
        decreases v@.len() - i,
    {
        let one = sub_chars(v.as_slice(), i, i + 1);
        assert(one@ =~= seq![v@[i as int]]);
        let t = string_of(one.as_slice());
        let cw = columns(w, t.as_str());
        if cw > max_width - used {
            break;
        }
        used = used + cw;
        i = i + 1;
    }
    let head = sub_chars(v.as_slice(), 0, i);
    assert(head@ =~= s@.take(i as int));
    string_of(head.as_slice())
}

/// The name of a candidate on a single row, and its description.
#[derive(Debug)]
pub struct ShownCell {
    pub name: String,
    pub desc: String,
}

/// What a cell shows.
pub struct Cell {
    pub name: Seq<char>,
    pub desc: Seq<char>,
}

impl View for ShownCell {
    type V = Cell;

    open spec fn view(&self) -> Cell {
        Cell { name: self.name@, desc: self.desc@ }
    }
}

/// What cells show.
pub open spec fn model(c: Seq<ShownCell>) -> Seq<Cell> {
    Seq::new(c.len(), |i: int| c[i]@)
}

/// How a candidate is shown.
pub open spec fn cell_of(c: Candidate) -> Cell {
    Cell {
        name: one_lined(c.content@),
        desc: match c.desc {
            Some(d) => d@,
            None => Seq::<char>::empty(),
        },
    }
}

/// How candidates are shown.
pub open spec fn cells_of(c: Seq<Candidate>) -> Seq<Cell> {
    Seq::new(c.len(), |i: int| cell_of(c[i]))
}

/// How a candidate is shown.
pub fn show_candidate(c: &Candidate) -> (r: ShownCell)
    ensures
        r@ == cell_of(*c),
{
    ShownCell {
        name: one_line(c.content.as_str()),
        desc: match &c.desc {
            Some(d) => d.clone(),
            None => {
                let s: String = String::new();
                assert(s@ =~= Seq::empty());
                s
            },
        },
    }
}

/// How candidates are shown.
pub fn show_candidates(c: &[Candidate]) -> (r: Vec<ShownCell>)
    ensures
        model(r@) == cells_of(c@),
{
    let mut out: Vec<ShownCell> = Vec::new();
    let mut i: usize = 0;
    while i < c.len()
        invariant
            i <= c@.len(),
            out@.len() == i,
            forall|k: int| 0 <= k < i ==> (#[trigger] out@[k])@ == cell_of(c@[k]),
        decreases c@.len() - i,
    {
        out.push(show_candidate(&c[i]));
        i = i + 1;
    }
    assert(model(out@) =~= cells_of(c@));
    out
}

pub open spec fn larger_of(a: nat, b: nat) -> nat {
    if a >= b {
        a
    } else {
        b
    }
}

/// The columns of a description in parentheses.
pub open spec fn desc_wid(w: WidthCalculator, d: Seq<char>) -> nat {
    if d.len() == 0 {
        0
    } else {
        wid(w, d) + 2
    }
}

/// The columns of the widest name.
pub open spec fn widest_name(w: WidthCalculator, c: Seq<Cell>, from: int, to: int) -> nat
    decreases to - from,
{
    if to <= from {
        0
    } else {
        larger_of(widest_name(w, c, from, to - 1), wid(w, c[to - 1].name))
    }
}

/// The columns of the widest description.
pub open spec fn widest_desc(w: WidthCalculator, c: Seq<Cell>, from: int, to: int) -> nat
    decreases to - from,
{
    if to <= from {
        0
    } else {
        larger_of(widest_desc(w, c, from, to - 1), desc_wid(w, c[to - 1].desc))
    }
}

/// The columns of a column of cells.
pub open spec fn column_wid(
    w: WidthCalculator,
    c: Seq<Cell>,
    from: int,
    to: int,
    leader: nat,
) -> nat {
    let d = widest_desc(w, c, from, to);
    leader + widest_name(w, c, from, to) + (if d > 0 {
        2 + d
    } else {
        0
    })
}

/// The columns of the widest name and of the widest description.
pub fn col_dims(w: WidthCalculator, c: &[ShownCell], from: usize, to: usize) -> (r: (usize, usize))
    requires
        from <= to <= c@.len(),
    ensures
        r.0 == widest_name(w, model(c@), from as int, to as int),
        r.1 == widest_desc(w, model(c@), from as int, to as int),
        r.0 <= u16::MAX,
        r.1 <= u16::MAX + 2,
{
    let mut name: usize = 0;
    let mut desc: usize = 0;
    let mut i: usize = from;
    while i < to
        invariant
            from <= i <= to <= c@.len(),
            name == widest_name(w, model(c@), from as int, i as int),
            desc == widest_desc(w, model(c@), from as int, i as int),
            name <= u16::MAX,
            desc <= u16::MAX + 2,
        decreases to - i,
    {
        let n = columns(w, c[i].name.as_str());
        if n > name {
            name = n;
        }
        let dv = chars_of(c[i].desc.as_str());
        let d: usize = if dv.len() == 0 {
            0
        } else {
            columns(w, c[i].desc.as_str()) + 2
        };
        if d > desc {
            desc = d;
        }
        i = i + 1;
    }
    (name, desc)
}

/// The columns of a column of cells.
pub fn col_width(
    w: WidthCalculator,
    c: &[ShownCell],
    from: usize,
    to: usize,
    leader: usize,
) -> (r: usize)
    requires
        from <= to <= c@.len(),
        leader <= 2,
    ensures
        r == column_wid(w, model(c@), from as int, to as int, leader as nat),
{
    let (name, desc) = col_dims(w, c, from, to);
    if desc > 0 {
        leader + name + 2 + desc
    } else {
        leader + name
    }
}

pub open spec fn minus(a: nat, b: nat) -> nat {
    if a >= b {
        (a - b) as nat
    } else {
        0
    }
}

/// The spaces behind a name, and the text of a description: aligned where it
/// fits, moved to the left as far as it must be, or cut off.
pub open spec fn placed_desc(
    w: WidthCalculator,
    desc: Seq<char>,
    name_w: nat,
    widest: nat,
    avail: nat,
) -> (nat, Seq<char>) {
    let full = wid(w, desc) + 2;
    let aligned = minus(avail, widest + 2);
    let extended = minus(avail, name_w + 2);
    if full <= aligned {
        (minus(widest, name_w), seq!['('] + desc + seq![')'])
    } else if full <= extended {
        (minus(minus(widest, name_w), minus(full, aligned)), seq!['('] + desc + seq![')'])
    } else {
        (0, seq!['('] + truncated(w, desc, minus(extended, 3)) + seq!['\u{2026}', ')'])
    }
}

/// A cell without what marks the selected one: the name, spaces, the
/// description, dimmed where the cell is not selected, and spaces.
#[verifier::opaque]
pub open spec fn cell_body(
    w: WidthCalculator,
    name: Seq<char>,
    name_w: nat,
    desc: Seq<char>,
    widest: nat,
    avail: nat,
    selected: bool,
) -> Seq<char> {
    if desc.len() == 0 {
        name + text::repeated(' ', minus(avail, name_w))
    } else {
        let (pad, d) = placed_desc(w, desc, name_w, widest, avail);
        let trail = text::repeated(' ', minus(avail, name_w + pad + 2 + wid(w, d)));
        if selected {
            name + text::repeated(' ', pad) + text::repeated(' ', 2) + d + trail
        } else {
            name + text::repeated(' ', pad) + text::repeated(' ', 2) + "\x1b[2m"@ + d
                + "\x1b[22m"@ + trail
        }
    }
}

fn place_desc(w: WidthCalculator, desc: &str, name_w: usize, widest: usize, avail: usize) -> (r: (
    usize,
    String,
))
    requires
        name_w <= u16::MAX,
        widest <= u16::MAX,
    ensures
        (r.0 as nat, r.1@) == placed_desc(
            w,
            desc@,
            name_w as nat,
            widest as nat,
            avail as nat,
        ),
        r.0 <= u16::MAX,
{
    let full: usize = columns(w, desc) + 2;
    let aligned: usize = avail.saturating_sub(widest + 2);
    let extended: usize = avail.saturating_sub(name_w + 2);
    let mut out: String = String::new();
    out.push('(');
    if full <= extended || full <= aligned {
        out.push_str(desc);
        out.push(')');
        assert(out@ =~= seq!['('] + desc@ + seq![')']);
        if full <= aligned {
            (widest.saturating_sub(name_w), out)
        } else {
            (widest.saturating_sub(name_w).saturating_sub(full - aligned), out)
        }
    } else {
        let t = truncate_to_width(w, desc, extended.saturating_sub(3));
        out.push_str(t.as_str());
        out.push('\u{2026}');
        out.push(')');
        assert(out@ =~= seq!['('] + t@ + seq!['\u{2026}', ')']);
        (0, out)
    }
}

fn body_of_cell(
    w: WidthCalculator,
    name: String,
    name_w: usize,
    desc: &str,
    widest: usize,
    avail: usize,
    selected: bool,
) -> (r: String)
    requires
        name_w <= u16::MAX,
        widest <= u16::MAX,
    ensures
        r@ == cell_body(
            w,
            name@,
            name_w as nat,
            desc@,
            widest as nat,
            avail as nat,
            selected,
        ),
{
    reveal(cell_body);
    let dv = chars_of(desc);
    let mut out = name;
    if dv.len() == 0 {
        push_repeated(&mut out, ' ', avail.saturating_sub(name_w));
        return out;
    }
    let (pad, d) = place_desc(w, desc, name_w, widest, avail);
    push_repeated(&mut out, ' ', pad);
    push_repeated(&mut out, ' ', 2);
    if !selected {
        out.push_str("\x1b[2m");
    }
    out.push_str(d.as_str());
    if !selected {
        out.push_str("\x1b[22m");
    }
    let used: usize = name_w + pad + 2 + columns(w, d.as_str());
    push_repeated(&mut out, ' ', avail.saturating_sub(used));
    out
}

/// Whose cells they are.
#[derive(Debug, Clone, Copy, PartialEq, Eq, Structural)]
pub enum Look {
    /// The selected cell is in reverse video, and typed text is emphasized.
    Grid,
    /// Each cell has a leader, and found characters are emphasized.
    Fuzzy,
}

/// The columns before a cell's name.
pub open spec fn leader_of(look: Look) -> nat {
    match look {
        Look::Grid => 0,
        Look::Fuzzy => 2,
    }
}

/// The name in a cell: one that a leader leaves too little room for is cut off.
pub open spec fn name_in_cell(w: WidthCalculator, name: Seq<char>, avail: nat, look: Look) -> Seq<
    char,
> {
    if look == Look::Fuzzy && wid(w, name) > avail {
        truncated(w, name, minus(avail, 1)).push('\u{2026}')
    } else {
        name
    }
}

/// A cell of a column.
#[verifier::opaque]
pub open spec fn drawn_cell(
    w: WidthCalculator,
    look: Look,
    cell: Cell,
    hl: Seq<bool>,
    widest: nat,
    col_w: nat,
    selected: bool,
) -> Seq<char> {
    let avail = minus(col_w, leader_of(look));
    let name = name_in_cell(w, cell.name, avail, look);
    match look {
        Look::Grid => {
            let body = cell_body(
                w,
                emphasized(name, hl, "\x1b[1;4m"@),
                wid(w, name),
                cell.desc,
                widest,
                avail,
                selected,
            );
            if selected {
                "\x1b[7m"@ + body + "\x1b[27m"@
            } else {
                body
            }
        },
        Look::Fuzzy => {
            let body = cell_body(
                w,
                emphasized(name, hl, "\x1b[1;4;33m"@),
                wid(w, name),
                cell.desc,
                widest,
                avail,
                selected,
            );
            if selected {
                "\u{25ba} \x1b[7m"@ + body + "\x1b[27m"@
            } else {
                "\x1b[2m\u{b7}\x1b[22m "@ + body
            }
        },
    }
}

/// The name in a cell.
pub fn cell_name(w: WidthCalculator, name: &str, avail: usize, look: Look) -> (r: String)
    ensures
        r@ == name_in_cell(w, name@, avail as nat, look),
{
    if look == Look::Fuzzy && columns(w, name) > avail {
        let mut t = truncate_to_width(w, name, avail.saturating_sub(1));
        t.push('\u{2026}');
        t
    } else {
        owned(name)
    }
}

fn draw_cell(
    w: WidthCalculator,
    look: Look,
    cell: &ShownCell,
    hl: &[bool],
    widest: usize,
    col_w: usize,
    selected: bool,
) -> (r: String)
    requires
        widest <= u16::MAX,
    ensures
        r@ == drawn_cell(w, look, cell@, hl@, widest as nat, col_w as nat, selected),
{
    reveal(drawn_cell);
    let leader: usize = match look {
        Look::Grid => 0,
        Look::Fuzzy => 2,
    };
    let avail: usize = col_w.saturating_sub(leader);
    let name = cell_name(w, cell.name.as_str(), avail, look);
    let name_w = columns(w, name.as_str());
    let e = match look {
        Look::Grid => emphasize(name.as_str(), hl, "\x1b[1;4m"),
        Look::Fuzzy => emphasize(name.as_str(), hl, "\x1b[1;4;33m"),
    };
    let body = body_of_cell(w, e, name_w, cell.desc.as_str(), widest, avail, selected);
    let head: &str = match look {
        Look::Grid => if selected {
            "\x1b[7m"
        } else {
            return body;
        },
        Look::Fuzzy => if selected {
            "\u{25ba} \x1b[7m"
        } else {
            "\x1b[2m\u{b7}\x1b[22m "
        },
    };
    let mut out = owned(head);
    out.push_str(body.as_str());
    if selected {
        out.push_str("\x1b[27m");
    }
    out
}

/// The rows of a column.
pub const ROWS: usize = 10;

/// The spaces between columns.
pub const GAP: usize = 2;

/// Cells in columns, and what is shown of them.
pub struct Board<'a> {
    pub cells: &'a [ShownCell],
    /// Which characters of each name are marked.
    pub marks: &'a [Vec<bool>],
    /// The columns that are shown.
    pub widths: &'a [usize],
    pub scroll_col: usize,
    pub selected: Option<usize>,
    pub look: Look,
}

/// What a board shows.
pub struct BoardModel {
    pub cells: Seq<Cell>,
    pub marks: Seq<Seq<bool>>,
    pub widths: Seq<nat>,
    pub scroll_col: int,
    pub selected: Option<int>,
    pub look: Look,
}

impl<'a> View for Board<'a> {
    type V = BoardModel;

    open spec fn view(&self) -> BoardModel {
        BoardModel {
            cells: model(self.cells@),
            marks: Seq::new(self.marks@.len(), |i: int| self.marks@[i]@),
            widths: Seq::new(self.widths@.len(), |i: int| self.widths@[i] as nat),
            scroll_col: self.scroll_col as int,
            selected: match self.selected {
                Some(i) => Some(i as int),
                None => None,
            },
            look: self.look,
        }
    }
}

impl BoardModel {
    /// The columns that are shown begin with a cell.
    pub open spec fn wf(self) -> bool {
        &&& self.cells.len() <= usize::MAX / 4
        &&& self.widths.len() > 0 ==> (self.scroll_col + self.widths.len() - 1) * ROWS
            < self.cells.len()
        &&& 0 <= self.scroll_col * ROWS < self.cells.len()
    }

    /// The cell in a column and a row.
    pub open spec fn at(self, c: int, r: int) -> int {
        (self.scroll_col + c) * ROWS + r
    }

    pub open spec fn hl(self, i: int) -> Seq<bool> {
        if 0 <= i < self.marks.len() {
            self.marks[i]
        } else {
            Seq::empty()
        }
    }

    /// One past the last cell of a column.
    pub open spec fn column_end(self, c: int) -> int {
        if self.at(c, 0) + ROWS <= self.cells.len() {
            self.at(c, 0) + ROWS
        } else {
            self.cells.len() as int
        }
    }

    /// The first `k` cells of a row.
    pub open spec fn row_text(self, w: WidthCalculator, r: int, k: int) -> Seq<char>
        decreases k,
    {
        if k <= 0 {
            Seq::empty()
        } else {
            let i = self.at(k - 1, r);
            let init = self.row_text(w, r, k - 1);
            if i >= self.cells.len() {
                init
            } else {
                init + drawn_cell(
                    w,
                    self.look,
                    self.cells[i],
                    self.hl(i),
                    widest_name(w, self.cells, self.at(k - 1, 0), self.column_end(k - 1)),
                    self.widths[k - 1],
                    self.selected == Some(i),
                ) + (if k < self.widths.len() && self.at(k, r) < self.cells.len() {
                    text::repeated(' ', GAP as nat)
                } else {
                    Seq::empty()
                })
            }
        }
    }

    /// The rows that are shown: those of the first column.
    pub open spec fn shown_rows(self) -> int {
        let left = self.cells.len() - self.scroll_col * ROWS;
        if left < ROWS {
            left
        } else {
            ROWS as int
        }
    }

    /// The first `n` rows. In the grid line breaks are between them.
    pub open spec fn rows_text(self, w: WidthCalculator, n: int) -> Seq<char>
        decreases n,
    {
        if n <= 0 {
            Seq::empty()
        } else {
            let init = self.rows_text(w, n - 1);
            (if n > 1 || self.look == Look::Fuzzy {
                init.push('\n')
            } else {
                init
            }) + self.row_text(w, n - 1, self.widths.len() as int)
        }
    }

    /// One past the last cell that is shown.
    pub open spec fn shown_end(self) -> int {
        let cols = if self.widths.len() == 0 {
            1
        } else {
            self.widths.len() as int
        };
        if (self.scroll_col + cols) * ROWS < self.cells.len() {
            (self.scroll_col + cols) * ROWS
        } else {
            self.cells.len() as int
        }
    }

    /// Which cells are shown.
    pub open spec fn counter_text(self) -> Seq<char> {
        "\n\x1b[2mItems "@ + text::decimal((self.scroll_col * ROWS + 1) as nat) + " to "@
            + text::decimal(self.shown_end() as nat) + " of "@ + text::decimal(self.cells.len())
            + "\x1b[22m"@
    }

    /// Whether some cells are not shown.
    pub open spec fn scrolls(self) -> bool {
        self.scroll_col > 0 || self.shown_end() < self.cells.len()
    }

    proof fn lemma_columns(self, c: int)
        requires
            self.wf(),
            0 <= c < self.widths.len(),
        ensures
            0 <= (self.scroll_col + c) * ROWS < self.cells.len(),
    {
    }
}

impl<'a> Board<'a> {
    fn row_string(&self, w: WidthCalculator, r: usize) -> (out: String)
        requires
            self@.wf(),
            r < ROWS,
        ensures
            out@ == self@.row_text(w, r as int, self.widths@.len() as int),
    {
        let mut out: String = String::new();
        let n: usize = self.cells.len();
        let mut c: usize = 0;
        assert(out@ =~= Seq::empty());
        while c < self.widths.len()
            invariant
                self@.wf(),
                r < ROWS,
                n == self.cells@.len(),
                c <= self.widths@.len(),
                out@ == self@.row_text(w, r as int, c as int),
            decreases self.widths@.len() - c,
        {
            proof {
                self@.lemma_columns(c as int);
            }
            let start: usize = (self.scroll_col + c) * ROWS;
            let i: usize = start + r;
            if i < n {
                let cell = self.cell_string(w, c, start, i);
                out.push_str(cell.as_str());
                if c + 1 < self.widths.len() && start + ROWS + r < n {
                    push_repeated(&mut out, ' ', GAP);
                } else {
                    assert(out@ =~= out@ + Seq::<char>::empty());
                }
            }
            c = c + 1;
        }
        out
    }

    fn cell_string(&self, w: WidthCalculator, c: usize, start: usize, i: usize) -> (r: String)
        requires
            self@.wf(),
            c < self.widths@.len(),
            start == self@.at(c as int, 0),
            start <= i < start + ROWS,
            i < self.cells@.len(),
        ensures
            r@ == drawn_cell(
                w,
                self.look,
                self.cells@[i as int]@,
                self@.hl(i as int),
                widest_name(w, self@.cells, self@.at(c as int, 0), self@.column_end(c as int)),
                self.widths@[c as int] as nat,
                self.selected == Some(i),
            ),
    {
        let n: usize = self.cells.len();
        let end: usize = if start + ROWS <= n {
            start + ROWS
        } else {
            n
        };
        let (widest, _) = col_dims(w, self.cells, start, end);
        let selected: bool = match self.selected {
            Some(s) => s == i,
            None => false,
        };
        let cell = &self.cells[i];
        let col_w: usize = self.widths[c];
        if i < self.marks.len() {
            let hl = self.marks[i].as_slice();
            draw_cell(w, self.look, cell, hl, widest, col_w, selected)
        } else {
            let none: Vec<bool> = Vec::new();
            assert(none@ =~= Seq::empty());
            draw_cell(w, self.look, cell, none.as_slice(), widest, col_w, selected)
        }
    }

    /// The rows that are shown, and how many they are.
    pub fn draw_rows(&self, w: WidthCalculator) -> (r: (String, usize))
        requires
            self@.wf(),
        ensures
            r.1 == self@.shown_rows(),
            0 < r.1 <= ROWS,
            r.0@ == self@.rows_text(w, r.1 as int),
    {
        let mut out: String = String::new();
        let left: usize = self.cells.len() - self.scroll_col * ROWS;
        let rows: usize = if left < ROWS {
            left
        } else {
            ROWS
        };
        let mut r: usize = 0;
        assert(out@ =~= Seq::empty());
        while r < rows
            invariant
                self@.wf(),
                r <= rows <= ROWS,
                out@ == self@.rows_text(w, r as int),
            decreases rows - r,
        {
            if r > 0 || self.look == Look::Fuzzy {
                out.push('\n');
            }
            let line = self.row_string(w, r);
            out.push_str(line.as_str());
            r = r + 1;
        }
        (out, rows)
    }

    fn end_shown(&self) -> (r: usize)
        requires
            self@.wf(),
        ensures
            r == self@.shown_end(),
    {
        let cols: usize = if self.widths.len() == 0 {
            1
        } else {
            self.widths.len()
        };
        let n = self.cells.len();
        let end: usize = (self.scroll_col + (cols - 1)) * ROWS + ROWS;
        if end < n {
            end
        } else {
            n
        }
    }

    /// Whether some cells are not shown.
    pub fn is_scrolling(&self) -> (r: bool)
        requires
            self@.wf(),
        ensures
            r == self@.scrolls(),
    {
        self.scroll_col > 0 || self.end_shown() < self.cells.len()
    }

    /// Which cells are shown.
    pub fn counter(&self) -> (r: String)
        requires
            self@.wf(),
        ensures
            r@ == self@.counter_text(),
    {
        let mut out = owned("\n\x1b[2mItems ");
        let a = decimal_string(self.scroll_col * ROWS + 1);
        out.push_str(a.as_str());
        out.push_str(" to ");
        let b = decimal_string(self.end_shown());
        out.push_str(b.as_str());
        out.push_str(" of ");
        let c = decimal_string(self.cells.len());
        out.push_str(c.as_str());
        out.push_str("\x1b[22m");
        out
    }
}

} // verus!
