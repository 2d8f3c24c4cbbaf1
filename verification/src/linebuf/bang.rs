//! History expansion: `!!`, `!$` and `!word` in the buffer.

use crate::history;
use crate::history::resolve_hist_token;
use crate::linebuf::buffer::count_of;
use crate::linebuf::buffer::LineBuf;
use crate::linebuf::line;
use crate::linebuf::line::Grapheme;
use crate::linebuf::lines;
use crate::linebuf::lines::Text;
use crate::linebuf::motion;
use crate::linebuf::motion::cursor_by_wrapping;
use crate::linebuf::ops;
use crate::linebuf::ops::extract_range;
use crate::linebuf::ops::insert_str;
use crate::linebuf::pos;
use crate::linebuf::pos::Cursor;
use crate::linebuf::pos::MotionKind;
use crate::linebuf::pos::Pos;
use crate::linebuf::render;
use crate::linebuf::verbs;
use crate::linebuf::words;
use crate::text;
use crate::text::chars_of;
use crate::text::owned;
use crate::text::string_of;
use crate::text::sub_chars;
use crate::text::trim_right;
use crate::unicode;
use vstd::prelude::*;

verus! {

/// Whether a place is inside quotes.
#[derive(Debug, Clone, Copy, PartialEq, Eq, Structural)]
pub enum QuoteState {
    Outside,
    Single,
    Double,
}

impl QuoteState {
    /// The state after a single quote. In double quotes it is a plain
    /// character.
    pub open spec fn after_single(self) -> QuoteState {
        match self {
            QuoteState::Outside => QuoteState::Single,
            QuoteState::Single => QuoteState::Outside,
            QuoteState::Double => QuoteState::Double,
        }
    }

    /// The state after a double quote. In single quotes it is a plain
    /// character.
    pub open spec fn after_double(self) -> QuoteState {
        match self {
            QuoteState::Outside => QuoteState::Double,
            QuoteState::Double => QuoteState::Outside,
            QuoteState::Single => QuoteState::Single,
        }
    }

    pub fn toggle_single(&mut self)
        ensures
            *final(self) == old(self).after_single(),
    {
        *self = match *self {
            QuoteState::Outside => QuoteState::Single,
            QuoteState::Single => QuoteState::Outside,
            QuoteState::Double => QuoteState::Double,
        };
    }

    pub fn toggle_double(&mut self)
        ensures
            *final(self) == old(self).after_double(),
    {
        *self = match *self {
            QuoteState::Outside => QuoteState::Double,
            QuoteState::Double => QuoteState::Outside,
            QuoteState::Single => QuoteState::Single,
        };
    }

    pub fn in_single(&self) -> (r: bool)
        ensures
            r == (*self == QuoteState::Single),
    {
        *self == QuoteState::Single
    }
}

/// What a history expansion asks for: the last command, its last word, or what
/// a token stands for.
#[derive(Debug)]
pub enum Bang {
    Last,
    LastWord,
    Token(String),
}

/// A history expansion in the buffer, from its first grapheme to its last.
#[derive(Debug)]
pub struct BangSpan {
    pub start: Pos,
    pub end: Pos,
    pub what: Bang,
}

/// What a history expansion asks for.
pub enum Asked {
    Last,
    LastWord,
    Token(Seq<char>),
}

impl View for Bang {
    type V = Asked;

    open spec fn view(&self) -> Asked {
        match self {
            Bang::Last => Asked::Last,
            Bang::LastWord => Asked::LastWord,
            Bang::Token(s) => Asked::Token(s@),
        }
    }
}

/// A history expansion: where it starts and ends, and what it asks for.
pub type Wanted = (Pos, Pos, Asked);

/// The graphemes of a text with their positions.
pub type Spots = Seq<(Pos, Seq<char>)>;

/// Where a token ends that goes on at a place: at the end of its row, at
/// whitespace, or at a grapheme of several characters.
pub open spec fn token_end(s: Spots, i: int, row: usize) -> int
    decreases s.len() - i,
{
    if i < 0 || i >= s.len() {
        i
    } else if s[i].0.row > row {
        i
    } else {
        match line::single(s[i].1) {
            None => i,
            Some(c) => if unicode::whitespace(c) {
                i
            } else {
                token_end(s, i + 1, row)
            },
        }
    }
}

/// The characters of the graphemes from one place to another.
pub open spec fn spot_chars(s: Spots, from: int, to: int) -> Seq<char> {
    unicode::joined(Seq::new((to - from) as nat, |j: int| s[from + j].1))
}

/// The history expansions from a place on. A backslash or a dollar sign hides
/// what follows it, and single quotes hide everything.
pub open spec fn bangs_from(s: Spots, i: int, q: QuoteState) -> Seq<Wanted>
    decreases s.len() - i + 2,
{
    if i < 0 || i >= s.len() {
        Seq::empty()
    } else {
        match line::single(s[i].1) {
            None => bangs_from(s, i + 1, q),
            Some(c) => if c == '\\' || c == '$' {
                bangs_from(s, i + 2, q)
            } else if c == '\'' {
                bangs_from(s, i + 1, q.after_single())
            } else if c == '"' {
                bangs_from(s, i + 1, q.after_double())
            } else if c == '!' && q != QuoteState::Single {
                if i + 1 >= s.len() {
                    Seq::empty()
                } else {
                    bang_at(s, i) + bangs_from(s, bang_next(s, i), q)
                }
            } else {
                bangs_from(s, i + 1, q)
            },
        }
    }
}

/// What an exclamation mark at a place asks for.
pub open spec fn bang_at(s: Spots, i: int) -> Seq<Wanted> {
    let start = s[i].0;
    match line::single(s[i + 1].1) {
        None => Seq::empty(),
        Some(c) => if c == '!' {
            seq![(start, start.moved(0, 1), Asked::Last)]
        } else if c == '$' {
            seq![(start, start.moved(0, 1), Asked::LastWord)]
        } else if unicode::whitespace(c) {
            Seq::empty()
        } else {
            let k = token_end(s, i + 2, s[i + 1].0.row);
            seq![(start, s[k - 1].0, Asked::Token(spot_chars(s, i + 1, k)))]
        },
    }
}

/// Where the search goes on after an exclamation mark.
pub open spec fn bang_next(s: Spots, i: int) -> int {
    match line::single(s[i + 1].1) {
        None => i + 2,
        Some(c) => if c == '!' || c == '$' || unicode::whitespace(c) {
            i + 2
        } else {
            let k = token_end(s, i + 2, s[i + 1].0.row);
            if i + 2 <= k < s.len() {
                k + 1
            } else {
                s.len() as int
            }
        },
    }
}

/// What a list of history expansions asks for.
pub open spec fn wanted(v: Seq<BangSpan>) -> Seq<Wanted> {
    Seq::new(v.len(), |i: int| (v[i].start, v[i].end, v[i].what@))
}

/// The last word of a command: the last run of characters that are no
/// whitespace.
pub open spec fn last_word_of(s: Seq<char>) -> Option<Seq<char>> {
    let t = text::trimmed_right(s);
    if t.len() == 0 {
        None
    } else {
        Some(t.skip(word_start(t, t.len() as int)))
    }
}

/// Where the word begins that goes up to a place.
pub open spec fn word_start(s: Seq<char>, i: int) -> int
    decreases i,
{
    if i <= 0 || i > s.len() || unicode::whitespace(s[i - 1]) {
        i
    } else {
        word_start(s, i - 1)
    }
}

/// The last word of a command.
pub fn last_word(s: &str) -> (r: Option<String>)
    ensures
        match r {
            Some(w) => last_word_of(s@) == Some(w@),
            None => last_word_of(s@) is None,
        },
{
    let v = chars_of(s);
    let t = trim_right(v.as_slice());
    if t.len() == 0 {
        return None;
    }
    let mut i: usize = t.len();
    while i > 0 && !t[i - 1].is_whitespace()
        invariant
            i <= t@.len(),
            word_start(t@, t@.len() as int) == word_start(t@, i as int),
        decreases i,
    {
        i = i - 1;
    }
    let w = sub_chars(t.as_slice(), i, t.len());
    assert(w@ =~= t@.skip(i as int));
    Some(string_of(w.as_slice()))
}

/// What a history expansion is replaced by, if by anything. `last` is the last
/// command, `found` what the history has for the token.
pub open spec fn replacement(
    a: Asked,
    last: Option<Seq<char>>,
    found: Option<Seq<char>>,
) -> Option<Seq<char>> {
    match a {
        Asked::Last => last,
        Asked::LastWord => match last {
            Some(s) => last_word_of(s),
            None => None,
        },
        Asked::Token(t) => match found {
            Some(s) => Some(s),
            None => Some(t),
        },
    }
}

/// The view of an optional string.
pub open spec fn opt_chars(s: Option<String>) -> Option<Seq<char>> {
    match s {
        Some(x) => Some(x@),
        None => None,
    }
}

/// What a history expansion is replaced by.
pub fn resolve_bang(b: &Bang, last: &Option<String>, found: &Option<String>) -> (r: Option<String>)
    ensures
        opt_chars(r) == replacement(b@, opt_chars(*last), opt_chars(*found)),
{
    match b {
        Bang::Last => match last {
            Some(s) => Some(owned(s.as_str())),
            None => None,
        },
        Bang::LastWord => match last {
            Some(s) => last_word(s.as_str()),
            None => None,
        },
        Bang::Token(t) => match found {
            Some(s) => Some(owned(s.as_str())),
            None => Some(owned(t.as_str())),
        },
    }
}

/// A replacement in the buffer: from a first grapheme to a last, by a text.
#[derive(Debug)]
pub struct Change {
    pub start: Pos,
    pub end: Pos,
    pub text: String,
}

/// A replacement: from a first grapheme to a last, by a text.
pub type Replacing = (Pos, Pos, Seq<char>);

impl View for Change {
    type V = Replacing;

    open spec fn view(&self) -> Replacing {
        (self.start, self.end, self.text@)
    }
}

/// What a list of replacements does.
pub open spec fn replacing(v: Seq<Change>) -> Seq<Replacing> {
    Seq::new(v.len(), |i: int| v[i]@)
}

/// The rows that replacements may add.
pub open spec fn rows_added(v: Seq<Replacing>) -> nat
    decreases v.len(),
{
    if v.len() == 0 {
        0
    } else {
        rows_added(v.drop_last()) + lines::rows_of(v.last().2).len()
    }
}

/// The last of some commands.
pub open spec fn last_of(c: Seq<String>) -> Option<Seq<char>> {
    if c.len() == 0 {
        None
    } else {
        Some(c.last()@)
    }
}

/// What a history expansion is replaced by, with the commands of the history in the
/// order in which they came.
pub open spec fn answer(a: Asked, c: Seq<String>) -> Option<Seq<char>> {
    replacement(
        a,
        last_of(c),
        match a {
            Asked::Token(t) => history::named_command(t, c),
            _ => None,
        },
    )
}

/// The replacements that the first `n` history expansions lead to. One that asks for
/// something that is not there stays.
pub open spec fn answers(w: Seq<Wanted>, c: Seq<String>, n: int) -> Seq<Replacing>
    decreases n,
{
    if n <= 0 {
        Seq::empty()
    } else {
        match answer(w[n - 1].2, c) {
            Some(s) => answers(w, c, n - 1).push((w[n - 1].0, w[n - 1].1, s)),
            None => answers(w, c, n - 1),
        }
    }
}

/// The replacements of the history expansions in a text.
pub open spec fn expansions(t: Text, c: Seq<String>) -> Seq<Replacing> {
    let w = bangs_from(render::all_positions(t, t.len() as int), 0, QuoteState::Outside);
    answers(w, c, w.len() as int)
}

/// A distance as far as a signed number goes.
pub open spec fn signed(n: int) -> int {
    if n > isize::MAX {
        isize::MAX as int
    } else if n < isize::MIN {
        isize::MIN as int
    } else {
        n
    }
}

/// The text and the cursor after a replacement. The cursor goes behind the new
/// text, and on by as much as the text has grown.
pub open spec fn replaced(
    t: Text,
    c: Cursor,
    ch: Replacing,
    levels: Seq<(usize, usize)>,
) -> (Text, Pos) {
    let rest = ops::taken(
        t,
        MotionKind::Char { start: ch.0, end: ch.1, inclusive: true },
    ).0;
    let gs = unicode::clusters(ch.2);
    let (t1, p) = ops::typed_all(
        rest,
        words::bounded(rest, ch.0, false),
        gs,
        levels,
        gs.len(),
    );
    let grown = line::capped(lines::count(t1)) - line::capped(lines::count(t));
    (t1, motion::offset_wrapping(t1, verbs::at(c, p), signed(grown)))
}

/// The text and the cursor after the replacements from the `k`-th on, the last
/// first.
pub open spec fn all_replaced(
    t: Text,
    c: Cursor,
    v: Seq<Replacing>,
    levels: Seq<Vec<(usize, usize)>>,
    k: int,
) -> (Text, Pos)
    decreases v.len() - k,
{
    if k < 0 || k >= v.len() {
        (t, c.pos)
    } else {
        let (t1, p1) = all_replaced(t, c, v, levels, k + 1);
        replaced(
            t1,
            verbs::at(c, p1),
            v[k],
            if k < levels.len() {
                levels[k]@
            } else {
                Seq::empty()
            },
        )
    }
}

impl LineBuf {
    /// The history expansions in the buffer.
    pub fn find_bangs(&self) -> (r: Vec<BangSpan>)
        ensures
            wanted(r@) == bangs_from(
                render::all_positions(self.text(), self.text().len() as int),
                0,
                QuoteState::Outside,
            ),
    {
        let v = self.grapheme_positions();
        let ghost s = render::all_positions(self.text(), self.text().len() as int);
        let mut out: Vec<BangSpan> = Vec::new();
        let mut q = QuoteState::Outside;
        let mut i: usize = 0;
        let n: usize = v.len();
        assert(wanted(out@) + bangs_from(s, 0, q) =~= bangs_from(s, 0, q));
        while i < n
            invariant
                n == v@.len(),
                v@.len() == s.len(),
                forall|k: int|
                    0 <= k < v@.len() ==> (#[trigger] v@[k]).0 == s[k].0 && v@[k].1@ == s[k].1,
                bangs_from(s, 0, QuoteState::Outside) == wanted(out@) + bangs_from(
                    s,
                    i as int,
                    q,
                ),
            decreases n - i,
        {
            let c = match v[i].1.as_char() {
                Some(c) => c,
                None => {
                    i = i + 1;
                    continue;
                },
            };
            if c == '\\' || c == '$' {
                proof {
                    assert(bangs_from(s, n as int, q) =~= Seq::empty());
                    assert(bangs_from(s, n + 1, q) =~= Seq::empty());
                }
                i = if n - i >= 2 {
                    i + 2
                } else {
                    n
                };
            } else if c == '\'' {
                q.toggle_single();
                i = i + 1;
            } else if c == '"' {
                q.toggle_double();
                i = i + 1;
            } else if c == '!' && !q.in_single() {
                if i + 1 >= n {
                    proof {
                        assert(bangs_from(s, n as int, q) =~= Seq::empty());
                    }
                    i = n;
                    continue;
                }
                let ghost was = wanted(out@);
                let ghost i0 = i as int;
                let start: Pos = v[i].0;
                let next = match v[i + 1].1.as_char() {
                    None => i + 2,
                    Some(c2) => {
                        if c2 == '!' {
                            out.push(
                                BangSpan {
                                    start,
                                    end: start.row_col_add(0, 1),
                                    what: Bang::Last,
                                },
                            );
                            i + 2
                        } else if c2 == '$' {
                            out.push(
                                BangSpan {
                                    start,
                                    end: start.row_col_add(0, 1),
                                    what: Bang::LastWord,
                                },
                            );
                            i + 2
                        } else if c2.is_whitespace() {
                            i + 2
                        } else {
                            let row: usize = v[i + 1].0.row;
                            let k = scan_token(&v, i + 2, row, Ghost(s));
                            let token = spot_string(&v, i + 1, k, Ghost(s));
                            out.push(
                                BangSpan { start, end: v[k - 1].0, what: Bang::Token(token) },
                            );
                            if k < n {
                                k + 1
                            } else {
                                k
                            }
                        }
                    },
                };
                assert(wanted(out@) =~= was + bang_at(s, i0));
                assert(next == bang_next(s, i0));
                assert(was + (bang_at(s, i0) + bangs_from(s, next as int, q)) =~= was + bang_at(
                    s,
                    i0,
                ) + bangs_from(s, next as int, q));
                i = next;
            } else {
                i = i + 1;
            }
        }
        assert(bangs_from(s, i as int, q) =~= Seq::empty());
        assert(wanted(out@) + Seq::<Wanted>::empty() =~= wanted(out@));
        out
    }

    fn replace_range(&mut self, ch: &Change, levels: &[(usize, usize)])
        requires
            old(self).lines@.len() > 0,
            old(self).lines@.len() + lines::rows_of(ch.text@).len() <= usize::MAX,
        ensures
            ({
                let (t, p) = replaced(old(self).text(), old(self).cursor, ch@, levels@);
                verbs::edited(*old(self), *final(self), t, p)
            }),
            final(self).wf(),
            final(self).lines@.len() < old(self).lines@.len() + lines::rows_of(ch.text@).len(),
    {
        let ghost t = self.text();
        assert(t.len() == self.lines@.len());
        let old_len: usize = count_of(&self.lines);
        let m = MotionKind::Char { start: ch.start, end: ch.end, inclusive: true };
        proof {
            verbs::lemma_rest_no_longer(t, ch.start, ch.end);
        }
        extract_range(&mut self.lines, &m);
        assert(self.text().len() == self.lines@.len());
        self.set_cursor(ch.start);
        self.cursor.pos = insert_str(&mut self.lines, self.cursor.pos, ch.text.as_str(), levels);
        let new_len: usize = count_of(&self.lines);
        let d: i128 = new_len as i128 - old_len as i128;
        let by: isize = if d > isize::MAX as i128 {
            isize::MAX
        } else if d < isize::MIN as i128 {
            isize::MIN
        } else {
            d as isize
        };
        self.cursor.pos = cursor_by_wrapping(&self.lines, self.cursor, by);
    }

    /// Replaces stretches of the buffer, the last first. `levels` are the
    /// shell's indentation levels for each replacement.
    fn replace_all(&mut self, changes: &Vec<Change>, levels: &Vec<Vec<(usize, usize)>>)
        requires
            old(self).lines@.len() > 0,
            old(self).lines@.len() + rows_added(replacing(changes@)) <= usize::MAX,
        ensures
            ({
                let (t, p) = all_replaced(
                    old(self).text(),
                    old(self).cursor,
                    replacing(changes@),
                    levels@,
                    0,
                );
                verbs::edited(*old(self), *final(self), t, p)
            }),
            final(self).lines@.len() > 0,
            old(self).wf() ==> final(self).wf(),
    {
        let ghost a = *self;
        let ghost v = replacing(changes@);
        let mut k: usize = changes.len();
        let none: Vec<(usize, usize)> = Vec::new();
        assert(none@ =~= Seq::empty());
        assert(v.take(k as int) =~= v);
        while k > 0
            invariant
                k <= changes@.len(),
                v == replacing(changes@),
                none@ == Seq::<(usize, usize)>::empty(),
                self.lines@.len() > 0,
                a.wf() ==> self.wf(),
                self.lines@.len() + rows_added(v.take(k as int)) <= usize::MAX,
                ({
                    let (t, p) = all_replaced(a.text(), a.cursor, v, levels@, k as int);
                    verbs::edited(a, *self, t, p)
                }),
            decreases k,
        {
            assert(v.take(k as int).drop_last() =~= v.take(k - 1));
            k = k - 1;
            assert(v[k as int] == changes@[k as int]@);
            if k < levels.len() {
                self.replace_range(&changes[k], levels[k].as_slice());
            } else {
                self.replace_range(&changes[k], none.as_slice());
            }
        }
    }

    /// The replacements of the history expansions in the buffer.
    pub fn bang_changes(&self, commands: &[String]) -> (r: Vec<Change>)
        ensures
            replacing(r@) == expansions(self.text(), commands@),
    {
        let found = self.find_bangs();
        let ghost w = wanted(found@);
        let last: Option<String> = if commands.len() == 0 {
            None
        } else {
            Some(commands[commands.len() - 1].clone())
        };
        let mut out: Vec<Change> = Vec::new();
        let mut i: usize = 0;
        assert(replacing(out@) =~= Seq::empty());
        while i < found.len()
            invariant
                i <= found@.len(),
                w == wanted(found@),
                opt_chars(last) == last_of(commands@),
                replacing(out@) == answers(w, commands@, i as int),
            decreases found@.len() - i,
        {
            let b = &found[i];
            assert(w[i as int] == (b.start, b.end, b.what@));
            let named: Option<String> = match &b.what {
                Bang::Token(t) => resolve_hist_token(t.as_str(), commands),
                _ => None,
            };
            let ghost was = replacing(out@);
            if let Some(text) = resolve_bang(&b.what, &last, &named) {
                out.push(Change { start: b.start, end: b.end, text });
                assert(replacing(out@) =~= was.push((b.start, b.end, text@)));
            }
            i = i + 1;
        }
        out
    }

    /// Expands the references to the history, and returns whether there were any.
    /// `commands` are those of the history in the order in which they came, and
    /// `levels` the shell's indentation levels for each replacement.
    pub fn attempt_history_expansion(
        &mut self,
        commands: &[String],
        levels: &Vec<Vec<(usize, usize)>>,
    ) -> (r: bool)
        requires
            old(self).lines@.len() > 0,
            old(self).lines@.len() + rows_added(expansions(old(self).text(), commands@))
                <= usize::MAX,
        ensures
            r == (expansions(old(self).text(), commands@).len() > 0),
            !r ==> *final(self) == *old(self),
            ({
                let (t, p) = all_replaced(
                    old(self).text(),
                    old(self).cursor,
                    expansions(old(self).text(), commands@),
                    levels@,
                    0,
                );
                verbs::edited(*old(self), *final(self), t, p)
            }),
            final(self).lines@.len() > 0,
            old(self).wf() ==> final(self).wf(),
    {
        let changes = self.bang_changes(commands);
        assert(replacing(changes@).len() == changes@.len());
        if changes.len() == 0 {
            return false;
        }
        self.replace_all(&changes, levels);
        true
    }
}

fn scan_token(v: &Vec<(Pos, Grapheme)>, from: usize, row: usize, Ghost(s): Ghost<Spots>) -> (k: usize)
    requires
        v@.len() == s.len(),
        from <= v@.len(),
        forall|k: int| 0 <= k < v@.len() ==> (#[trigger] v@[k]).0 == s[k].0 && v@[k].1@ == s[k].1,
    ensures
        k == token_end(s, from as int, row),
        from <= k <= v@.len(),
{
    let mut i: usize = from;
    while i < v.len()
        invariant
            v@.len() == s.len(),
            from <= i <= v@.len(),
            forall|k: int|
                0 <= k < v@.len() ==> (#[trigger] v@[k]).0 == s[k].0 && v@[k].1@ == s[k].1,
            token_end(s, from as int, row) == token_end(s, i as int, row),
        decreases v@.len() - i,
    {
        if v[i].0.row > row {
            return i;
        }
        match v[i].1.as_char() {
            None => return i,
            Some(c) => {
                if c.is_whitespace() {
                    return i;
                }
            },
        }
        i = i + 1;
    }
    i
}

fn spot_string(v: &Vec<(Pos, Grapheme)>, from: usize, to: usize, Ghost(s): Ghost<Spots>) -> (r:
    String)
    requires
        v@.len() == s.len(),
        from <= to <= v@.len(),
        forall|k: int| 0 <= k < v@.len() ==> (#[trigger] v@[k]).0 == s[k].0 && v@[k].1@ == s[k].1,
    ensures
        r@ == spot_chars(s, from as int, to as int),
{
    let mut out: String = String::new();
    let mut i: usize = from;
    let ghost g = |n: int| Seq::new((n - from) as nat, |j: int| s[from + j].1);
    assert(g(from as int) =~= Seq::empty());
    while i < to
        invariant
            v@.len() == s.len(),
            from <= i <= to <= v@.len(),
            g == |n: int| Seq::new((n - from) as nat, |j: int| s[from + j].1),
            forall|k: int|
                0 <= k < v@.len() ==> (#[trigger] v@[k]).0 == s[k].0 && v@[k].1@ == s[k].1,
            out@ == unicode::joined(g(i as int)),
        decreases to - i,
    {
        let t = v[i].1.to_string();
        out.push_str(t.as_str());
        i = i + 1;
        assert(g(i as int).drop_last() =~= g(i - 1));
    }
    out
}

} // verus!
