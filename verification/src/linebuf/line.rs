//! Graphemes, their classes, and lines of graphemes.

use crate::text::same_chars;
use crate::text::string_of;
use crate::unicode;
use crate::unicode::graphemes_of;
use crate::unicode::is_ascii_punct;
use crate::unicode::width_of_char;
use crate::unicode::CharVec;
use vstd::prelude::*;

verus! {

/// A grapheme as the characters it is made of.
pub type Gr = Seq<char>;

/// A line as its graphemes.
pub type Row = Seq<Seq<char>>;

/// A single grapheme. Graphemes can be composed of several characters, but are
/// always treated as a single unit for display and editing.
#[derive(Debug)]
pub struct Grapheme(CharVec);

impl View for Grapheme {
    type V = Seq<char>;

    closed spec fn view(&self) -> Seq<char> {
        self.0@
    }
}

impl Clone for Grapheme {
    fn clone(&self) -> (r: Self)
        ensures
            r@ == self@,
    {
        let s = self.0.as_slice();
        let mut v = CharVec::new();
        let mut i: usize = 0;
        while i < s.len()
            invariant
                i <= s@.len(),
                s@ == self@,
                v@ == self@.take(i as int),
            decreases s@.len() - i,
        {
            v.push(s[i]);
            i = i + 1;
        }
        Grapheme(v)
    }
}

/// The columns of the characters of a grapheme, unprintable ones counting
/// nothing.
pub open spec fn columns(g: Seq<char>) -> nat
    decreases g.len(),
{
    if g.len() == 0 {
        0
    } else {
        columns(g.drop_last()) + (match unicode::char_columns(g.last()) {
            Some(w) => w as nat,
            None => 0nat,
        })
    }
}

/// A count that stops at the largest `usize`.
pub open spec fn capped(n: nat) -> usize {
    if n <= usize::MAX {
        n as usize
    } else {
        usize::MAX
    }
}

impl Grapheme {
    /// The grapheme of one character.
    pub fn from_char(c: char) -> (r: Grapheme)
        ensures
            r@ == seq![c],
    {
        let mut v = CharVec::new();
        v.push(c);
        assert(v@ =~= seq![c]);
        Grapheme(v)
    }

    /// The grapheme of all the characters of a string.
    pub fn from_cluster(s: &str) -> (r: Grapheme)
        ensures
            r@ == s@,
    {
        let mut v = CharVec::new();
        for c in it: s.chars()
            invariant
                v@ == s@.take(it.index() as int),
                it.seq() == s@,
        {
            v.push(c);
        }
        Grapheme(v)
    }

    /// The characters of the grapheme.
    pub fn chars(&self) -> (r: &[char])
        ensures
            r@ == self@,
    {
        self.0.as_slice()
    }

    /// The display width of the grapheme, treating unprintable characters as
    /// width 0.
    pub fn width(&self) -> (r: usize)
        ensures
            r == capped(columns(self@)),
    {
        let s = self.0.as_slice();
        let mut w: usize = 0;
        let mut i: usize = 0;
        while i < s.len()
            invariant
                i <= s@.len(),
                s@ == self@,
                w == capped(columns(s@.take(i as int))),
            decreases s@.len() - i,
        {
            let k: usize = match width_of_char(s[i]) {
                Some(n) => n,
                None => 0,
            };
            assert(s@.take(i + 1).drop_last() =~= s@.take(i as int));
            w = w.saturating_add(k);
            i = i + 1;
        }
        assert(s@.take(i as int) =~= s@);
        w
    }

    /// Whether the grapheme is a linefeed.
    pub fn is_lf(&self) -> (r: bool)
        ensures
            r == (self@ == seq!['\n']),
    {
        self.is_char('\n')
    }

    /// Whether the grapheme consists of exactly the character `c`.
    pub fn is_char(&self, c: char) -> (r: bool)
        ensures
            r == (self@ == seq![c]),
    {
        let s = self.0.as_slice();
        let r = s.len() == 1 && s[0] == c;
        proof {
            if r {
                assert(self@ =~= seq![c]);
            } else if self@ == seq![c] {
                assert(self@.len() == 1 && self@[0] == c);
            }
        }
        r
    }

    /// The class of the grapheme, which word motions go by.
    pub fn class(&self) -> (r: CharClass)
        ensures
            r == class_of(self@),
    {
        CharClass::of_grapheme(self)
    }

    /// The character, where the grapheme consists of exactly one.
    pub fn as_char(&self) -> (r: Option<char>)
        ensures
            r == single(self@),
    {
        let s = self.0.as_slice();
        if s.len() == 1 {
            Some(s[0])
        } else {
            None
        }
    }

    /// Whether the grapheme is classified as whitespace.
    pub fn is_ws(&self) -> (r: bool)
        ensures
            r == is_space(self@),
    {
        self.class().is_ws()
    }

    /// The grapheme as a string.
    pub fn to_string(&self) -> (r: String)
        ensures
            r@ == self@,
    {
        string_of(self.0.as_slice())
    }
}

/// The character of a grapheme that consists of exactly one.
pub open spec fn single(g: Seq<char>) -> Option<char> {
    if g.len() == 1 {
        Some(g[0])
    } else {
        None
    }
}

/// Whether a grapheme is classified as whitespace.
pub open spec fn is_space(g: Seq<char>) -> bool {
    class_of(g) == CharClass::Whitespace
}

/// Whether two graphemes are made of the same characters.
pub fn same_grapheme(a: &Grapheme, b: &Grapheme) -> (r: bool)
    ensures
        r == (a@ == b@),
{
    same_chars(a.chars(), b.chars())
}

#[derive(PartialEq, Eq, Debug, Clone, Copy, Structural)]
pub enum Delim {
    Paren,
    Brace,
    Bracket,
    Angle,
}

#[derive(PartialEq, Eq, Debug, Clone, Copy, Structural)]
pub enum CharClass {
    Alphanum,
    Symbol,
    Whitespace,
    Other,
}

impl Default for CharClass {
    fn default() -> (r: Self)
        ensures
            r == CharClass::Alphanum,
    {
        CharClass::Alphanum
    }
}

/// A mark that may follow a letter without changing its class: ASCII
/// punctuation and the two common combining diacritics.
pub open spec fn letter_mark(c: char) -> bool {
    unicode::ascii_punct(c) || c == '\u{301}' || c == '\u{308}'
}

/// The class of a grapheme. A letter or digit followed by marks only is a word
/// character; otherwise all characters have to agree.
pub open spec fn class_of(g: Seq<char>) -> CharClass {
    if g.len() == 0 {
        CharClass::Other
    } else if unicode::alphanumeric(g[0]) && (forall|i: int| 1 <= i < g.len() ==> letter_mark(#[trigger] g[i])) {
        CharClass::Alphanum
    } else if forall|i: int|
        0 <= i < g.len() ==> (unicode::alphanumeric(#[trigger] g[i]) || g[i] == '_') {
        CharClass::Alphanum
    } else if forall|i: int| 0 <= i < g.len() ==> unicode::whitespace(#[trigger] g[i]) {
        CharClass::Whitespace
    } else if forall|i: int| 0 <= i < g.len() ==> !unicode::alphanumeric(#[trigger] g[i]) {
        CharClass::Symbol
    } else {
        CharClass::Other
    }
}

impl CharClass {
    pub fn is_other_class(&self, other: &CharClass) -> (r: bool)
        ensures
            r == (*self != *other),
    {
        *self != *other
    }

    pub fn is_other_class_not_ws(&self, other: &CharClass) -> (r: bool)
        ensures
            r == (*self != CharClass::Whitespace && *other != CharClass::Whitespace && *self
                != *other),
    {
        if self.is_ws() || other.is_ws() {
            false
        } else {
            self.is_other_class(other)
        }
    }

    pub fn is_other_class_or_ws(&self, other: &CharClass) -> (r: bool)
        ensures
            r == (*self == CharClass::Whitespace || *other == CharClass::Whitespace || *self
                != *other),
    {
        if self.is_ws() || other.is_ws() {
            true
        } else {
            self.is_other_class(other)
        }
    }

    pub fn is_ws(&self) -> (r: bool)
        ensures
            r == (*self == CharClass::Whitespace),
    {
        *self == CharClass::Whitespace
    }

    /// The class of a grapheme.
    pub fn of_grapheme(g: &Grapheme) -> (r: CharClass)
        ensures
            r == class_of(g@),
    {
        let s = g.chars();
        if s.len() == 0 {
            return CharClass::Other;
        }
        let mut marks: bool = true;
        let mut word: bool = true;
        let mut white: bool = true;
        let mut plain: bool = true;
        let mut i: usize = 0;
        while i < s.len()
            invariant
                i <= s@.len(),
                s@ == g@,
                marks == forall|j: int| 1 <= j < i ==> letter_mark(#[trigger] s@[j]),
                word == forall|j: int|
                    0 <= j < i ==> (unicode::alphanumeric(#[trigger] s@[j]) || s@[j] == '_'),
                white == forall|j: int| 0 <= j < i ==> unicode::whitespace(#[trigger] s@[j]),
                plain == forall|j: int| 0 <= j < i ==> !unicode::alphanumeric(#[trigger] s@[j]),
            decreases s@.len() - i,
        {
            let c = s[i];
            marks = marks && (i == 0 || is_ascii_punct(c) || c == '\u{301}' || c == '\u{308}');
            word = word && (c.is_alphanumeric() || c == '_');
            white = white && c.is_whitespace();
            plain = plain && !c.is_alphanumeric();
            i = i + 1;
        }
        if s[0].is_alphanumeric() && marks {
            CharClass::Alphanum
        } else if word {
            CharClass::Alphanum
        } else if white {
            CharClass::Whitespace
        } else if plain {
            CharClass::Symbol
        } else {
            CharClass::Other
        }
    }
}

/// One line of the buffer.
#[derive(Debug)]
pub struct Line(Vec<Grapheme>);

impl View for Line {
    type V = Seq<Seq<char>>;

    closed spec fn view(&self) -> Seq<Seq<char>> {
        Seq::new(self.0@.len(), |i: int| self.0@[i]@)
    }
}

impl Default for Line {
    fn default() -> (r: Self)
        ensures
            r@ == Seq::<Seq<char>>::empty(),
    {
        let r = Line(Vec::new());
        assert(r@ =~= Seq::<Seq<char>>::empty());
        r
    }
}

impl Clone for Line {
    fn clone(&self) -> (r: Self)
        ensures
            r@ == self@,
    {
        let mut v: Vec<Grapheme> = Vec::new();
        let mut i: usize = 0;
        while i < self.0.len()
            invariant
                i <= self.0@.len(),
                v@.len() == i,
                forall|j: int| 0 <= j < i ==> (#[trigger] v@[j])@ == self.0@[j]@,
            decreases self.0@.len() - i,
        {
            v.push(self.0[i].clone());
            i = i + 1;
        }
        let r = Line(v);
        assert(r@ =~= self@);
        r
    }
}

/// The columns of a line.
pub open spec fn row_columns(row: Seq<Seq<char>>) -> nat
    decreases row.len(),
{
    if row.len() == 0 {
        0
    } else {
        row_columns(row.drop_last()) + columns(row.last())
    }
}

/// A line without its leading whitespace.
pub open spec fn trimmed_start(row: Seq<Seq<char>>) -> Seq<Seq<char>>
    decreases row.len(),
{
    if row.len() > 0 && is_space(row[0]) {
        trimmed_start(row.skip(1))
    } else {
        row
    }
}

/// A line without its trailing whitespace.
pub open spec fn trimmed_end(row: Seq<Seq<char>>) -> Seq<Seq<char>>
    decreases row.len(),
{
    if row.len() > 0 && is_space(row.last()) {
        trimmed_end(row.drop_last())
    } else {
        row
    }
}

/// The smaller of two indices.
pub open spec fn least(a: int, b: int) -> int {
    if a <= b {
        a
    } else {
        b
    }
}

impl Line {
    /// A line is no longer than memory allows.
    pub proof fn lemma_len_fits(&self)
        ensures
            self@.len() <= usize::MAX,
    {
        vstd::std_specs::vec::axiom_spec_len(&self.0);
    }

    pub fn graphemes(&self) -> (r: &[Grapheme])
        ensures
            r@.len() == self@.len(),
            forall|i: int| 0 <= i < r@.len() ==> (#[trigger] r@[i])@ == self@[i],
    {
        self.0.as_slice()
    }

    pub fn len(&self) -> (r: usize)
        ensures
            r == self@.len(),
    {
        self.0.len()
    }

    pub fn is_empty(&self) -> (r: bool)
        ensures
            r == (self@.len() == 0),
    {
        self.len() == 0
    }

    /// The grapheme at a column.
    pub fn at(&self, col: usize) -> (r: &Grapheme)
        requires
            col < self@.len(),
        ensures
            r@ == self@[col as int],
    {
        &self.0[col]
    }

    /// Puts a grapheme in the place of the one at a column.
    pub fn replace_at(&mut self, col: usize, g: Grapheme)
        requires
            col < old(self)@.len(),
        ensures
            final(self)@ == old(self)@.update(col as int, g@),
    {
        let ghost before = self@;
        self.0.set(col, g);
        assert(self@ =~= before.update(col as int, g@));
    }

    /// Takes out the grapheme at a column.
    pub fn remove(&mut self, col: usize) -> (r: Grapheme)
        requires
            col < old(self)@.len(),
        ensures
            r@ == old(self)@[col as int],
            final(self)@ == old(self)@.remove(col as int),
    {
        let ghost before = self@;
        let r = self.0.remove(col);
        assert(self@ =~= before.remove(col as int));
        r
    }

    /// Appends the graphemes of a string.
    pub fn push_str(&mut self, s: &str)
        ensures
            final(self)@ == old(self)@ + unicode::clusters(s@),
            unicode::joined(unicode::clusters(s@)) == s@,
    {
        let gs = graphemes_of(s);
        let ghost before = self@;
        let ghost cl = unicode::clusters(s@);
        assert(cl == gs@.map_values(|g: String| g@));
        assert(self@ =~= before + cl.take(0));
        let mut i: usize = 0;
        while i < gs.len()
            invariant
                i <= gs@.len(),
                cl == gs@.map_values(|g: String| g@),
                self@ == before + cl.take(i as int),
            decreases gs@.len() - i,
        {
            let g = Grapheme::from_cluster(gs[i].as_str());
            let ghost prev = self@;
            self.0.push(g);
            assert(self@ =~= prev.push(g@));
            i = i + 1;
            assert(self@ =~= before + cl.take(i as int));
        }
        assert(cl.take(i as int) =~= cl);
    }

    pub fn push_char(&mut self, c: char)
        ensures
            final(self)@ == old(self)@.push(seq![c]),
    {
        let ghost before = self@;
        self.0.push(Grapheme::from_char(c));
        assert(self@ =~= before.push(seq![c]));
    }

    pub fn push(&mut self, g: Grapheme)
        ensures
            final(self)@ == old(self)@.push(g@),
    {
        let ghost before = self@;
        self.0.push(g);
        assert(self@ =~= before.push(g@));
    }

    /// Cuts the line at a column and gives back the rest. Past the end of the
    /// line there is nothing to cut off.
    pub fn split_off(&mut self, at: usize) -> (r: Line)
        ensures
            final(self)@ == old(self)@.take(least(at as int, old(self)@.len() as int)),
            r@ == old(self)@.skip(least(at as int, old(self)@.len() as int)),
    {
        let ghost before = self@;
        if at > self.0.len() {
            let r = Line::default();
            assert(self@ =~= before.take(before.len() as int));
            assert(r@ =~= before.skip(before.len() as int));
            return r;
        }
        let r = Line(self.0.split_off(at));
        assert(self@ =~= before.take(at as int));
        assert(r@ =~= before.skip(at as int));
        r
    }

    /// Moves the graphemes of another line to the end of this one.
    pub fn append(&mut self, other: &mut Line)
        ensures
            final(self)@ == old(self)@ + old(other)@,
            final(other)@ == Seq::<Seq<char>>::empty(),
    {
        let ghost before = self@;
        let ghost rest = other@;
        self.0.append(&mut other.0);
        assert(self@ =~= before + rest);
        assert(other@ =~= Seq::<Seq<char>>::empty());
    }

    /// Inserts the graphemes of a string at a column.
    pub fn insert_str(&mut self, at: usize, other: &str)
        requires
            at <= old(self)@.len(),
        ensures
            final(self)@ == old(self)@.take(at as int) + unicode::clusters(other@) + old(self)@.skip(
                at as int,
            ),
    {
        let ghost before = self@;
        let mut rest = self.split_off(at);
        self.push_str(other);
        self.append(&mut rest);
    }

    pub fn insert_char(&mut self, at: usize, c: char)
        requires
            at <= old(self)@.len(),
        ensures
            final(self)@ == old(self)@.insert(at as int, seq![c]),
    {
        self.insert(at, Grapheme::from_char(c))
    }

    pub fn insert(&mut self, at: usize, g: Grapheme)
        requires
            at <= old(self)@.len(),
        ensures
            final(self)@ == old(self)@.insert(at as int, g@),
    {
        let ghost before = self@;
        self.0.insert(at, g);
        assert(self@ =~= before.insert(at as int, g@));
    }

    /// The display width of the line.
    pub fn width(&self) -> (r: usize)
        ensures
            r == capped(row_columns(self@)),
    {
        let mut w: usize = 0;
        let mut i: usize = 0;
        while i < self.0.len()
            invariant
                i <= self@.len(),
                self@.len() == self.0@.len(),
                w == capped(row_columns(self@.take(i as int))),
            decreases self@.len() - i,
        {
            assert(self@.take(i + 1).drop_last() =~= self@.take(i as int));
            assert(self@[i as int] == self.0@[i as int]@);
            let k = self.0[i].width();
            w = w.saturating_add(k);
            i = i + 1;
        }
        assert(self@.take(i as int) =~= self@);
        w
    }

    /// A copy of the line without its leading whitespace.
    pub fn trim_start(&self) -> (r: Line)
        ensures
            r@ == trimmed_start(self@),
    {
        let mut r = self.clone();
        while r.len() > 0 && r.at(0).is_ws()
            invariant
                trimmed_start(r@) == trimmed_start(self@),
            decreases r@.len(),
        {
            let ghost before = r@;
            r.remove(0);
            assert(r@ =~= before.skip(1));
        }
        r
    }

    /// The line as a string.
    pub fn to_string(&self) -> (r: String)
        ensures
            r@ == unicode::joined(self@),
    {
        let mut out: String = String::new();
        let mut i: usize = 0;
        while i < self.0.len()
            invariant
                i <= self@.len(),
                self@.len() == self.0@.len(),
                out@ == unicode::joined(self@.take(i as int)),
            decreases self@.len() - i,
        {
            assert(self@.take(i + 1).drop_last() =~= self@.take(i as int));
            assert(self@[i as int] == self.0@[i as int]@);
            let t = self.0[i].to_string();
            out.push_str(t.as_str());
            i = i + 1;
        }
        assert(self@.take(i as int) =~= self@);
        out
    }

    /// The line of a vector of graphemes.
    pub fn from_graphemes(v: Vec<Grapheme>) -> (r: Line)
        ensures
            r@ == Seq::new(v@.len(), |i: int| v@[i]@),
    {
        let r = Line(v);
        assert(r@ =~= Seq::new(v@.len(), |i: int| v@[i]@));
        r
    }

    /// The line of the graphemes of a string.
    pub fn from_text(s: &str) -> (r: Line)
        ensures
            r@ == unicode::clusters(s@),
            unicode::joined(r@) == s@,
    {
        let mut r = Line::default();
        r.push_str(s);
        assert(r@ =~= unicode::clusters(s@));
        r
    }
}

/// Whether two lines hold the same graphemes.
pub fn same_line(a: &Line, b: &Line) -> (r: bool)
    ensures
        r == (a@ == b@),
{
    if a.len() != b.len() {
        return false;
    }
    let mut i: usize = 0;
    while i < a.len()
        invariant
            i <= a@.len(),
            a@.len() == b@.len(),
            forall|j: int| 0 <= j < i ==> a@[j] == b@[j],
        decreases a@.len() - i,
    {
        if !same_grapheme(a.at(i), b.at(i)) {
            assert(a@[i as int] != b@[i as int]);
            return false;
        }
        i = i + 1;
    }
    assert(a@ =~= b@);
    true
}

/// The graphemes of a string.
pub fn to_graphemes(s: &str) -> (r: Vec<Grapheme>)
    ensures
        Seq::new(r@.len(), |i: int| r@[i]@) == unicode::clusters(s@),
{
    let line = Line::from_text(s);
    let r = line.0;
    assert(Seq::new(r@.len(), |i: int| r@[i]@) =~= line@);
    r
}

} // verus!
