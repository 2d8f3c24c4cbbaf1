//! The commands of the command line.

use crate::editcmd::Anchor;
use crate::editcmd::CmdFlags;
use crate::editcmd::ReadSrc;
use crate::editcmd::SubFlags;
use crate::editcmd::Verb;
use crate::editcmd::VerbCmd;
use crate::editcmd::WriteDest;
use crate::text;
use crate::text::bytes_up_to;
use crate::text::chars_of;
use crate::text::chars_start_with;
use crate::text::digits_to_usize;
use crate::text::owned;
use crate::text::same_chars;
use crate::text::space_words;
use crate::text::string_of;
use crate::text::sub_chars;
use crate::text::trim;
use crate::unicode;
use crate::unicode::is_ascii_digit;
use crate::unicode::is_ascii_lower;
use vstd::prelude::*;

verus! {

/// Reads a text one character at a time, and knows how many bytes were read.
#[derive(Debug)]
pub struct CharTracker {
    chars: Vec<char>,
    at: usize,
}

impl Clone for CharTracker {
    fn clone(&self) -> (r: Self)
        ensures
            r.all() == self.all(),
            r.read() == self.read(),
            self.wf() ==> r.wf(),
            r@ == self@,
    {
        let v = sub_chars(self.chars.as_slice(), 0, self.chars.len());
        assert(v@ =~= self.chars@);
        CharTracker { chars: v, at: self.at }
    }
}

impl View for CharTracker {
    type V = Seq<char>;

    /// What is not read yet.
    closed spec fn view(&self) -> Seq<char> {
        self.chars@.skip(self.at as int)
    }
}

impl CharTracker {
    /// The whole text.
    pub closed spec fn all(self) -> Seq<char> {
        self.chars@
    }

    /// How many characters were read.
    pub open spec fn read(self) -> int {
        self.all().len() - self@.len()
    }

    pub closed spec fn wf(self) -> bool {
        self.at <= self.chars@.len()
    }

    pub fn new(s: &str) -> (r: Self)
        ensures
            r.wf(),
            r.all() == s@,
            r.read() == 0,
            r@ == s@,
    {
        let chars = chars_of(s);
        assert(chars@.skip(0) =~= chars@);
        CharTracker { chars, at: 0 }
    }

    /// The next character, which is not read by this.
    pub fn peek(&self) -> (r: Option<char>)
        requires
            self.wf(),
        ensures
            r == (if self@.len() > 0 {
                Some(self@[0])
            } else {
                None
            }),
    {
        if self.at < self.chars.len() {
            Some(self.chars[self.at])
        } else {
            None
        }
    }

    /// How many bytes were read, as far as a `usize` goes.
    pub fn pos(&self) -> (r: usize)
        requires
            self.wf(),
        ensures
            r == (if text::byte_len(self.all().take(self.read())) <= usize::MAX {
                text::byte_len(self.all().take(self.read())) as usize
            } else {
                usize::MAX
            }),
    {
        bytes_up_to(self.chars.as_slice(), self.at)
    }

    /// Reads the next character.
    pub fn next(&mut self) -> (r: Option<char>)
        requires
            old(self).wf(),
        ensures
            final(self).wf(),
            final(self).all() == old(self).all(),
            old(self)@.len() == 0 ==> r is None && final(self)@ == old(self)@ && final(self).read()
                == old(self).read(),
            old(self)@.len() > 0 ==> r == Some(old(self)@[0]) && final(self)@ == old(self)@.skip(1)
                && final(self).read() == old(self).read() + 1,
    {
        if self.at < self.chars.len() {
            let c = self.chars[self.at];
            self.at = self.at + 1;
            assert(self@ =~= old(self)@.skip(1));
            Some(c)
        } else {
            None
        }
    }

    /// Reads everything that is left.
    pub fn rest(&mut self) -> (r: Vec<char>)
        requires
            old(self).wf(),
        ensures
            final(self).wf(),
            final(self).all() == old(self).all(),
            r@ == old(self)@,
            final(self)@ == Seq::<char>::empty(),
    {
        let n = self.chars.len();
        let v = sub_chars(self.chars.as_slice(), self.at, n);
        assert(v@ =~= old(self)@);
        self.at = n;
        assert(self@ =~= Seq::empty());
        v
    }

    /// Reads whitespace.
    pub fn skip_whitespace(&mut self)
        requires
            old(self).wf(),
        ensures
            final(self).wf(),
            final(self).all() == old(self).all(),
            final(self)@ == text::trimmed_left(old(self)@),
    {
        loop
            invariant
                self.wf(),
                self.all() == old(self).all(),
                text::trimmed_left(self@) == text::trimmed_left(old(self)@),
            ensures
                self.wf(),
                self.all() == old(self).all(),
                self@ == text::trimmed_left(old(self)@),
            decreases self@.len(),
        {
            match self.peek() {
                None => {
                    break;
                },
                Some(c) => {
                    if !c.is_whitespace() {
                        break;
                    }
                    let _ = self.next();
                },
            }
        }
    }
}

/// A line, as the command line names it.
#[derive(Debug)]
pub enum LineAddr {
    Number(usize),
    Mark(char),
    Offset(isize),
    Pattern(String),
    PatternRev(String),
    Current,
    Last,
}

/// What a line is named by.
pub enum AddrModel {
    Number(usize),
    Mark(char),
    Offset(isize),
    Pattern(Seq<char>),
    PatternRev(Seq<char>),
    Current,
    Last,
}

impl View for LineAddr {
    type V = AddrModel;

    open spec fn view(&self) -> AddrModel {
        match *self {
            LineAddr::Number(n) => AddrModel::Number(n),
            LineAddr::Mark(c) => AddrModel::Mark(c),
            LineAddr::Offset(n) => AddrModel::Offset(n),
            LineAddr::Pattern(s) => AddrModel::Pattern(s@),
            LineAddr::PatternRev(s) => AddrModel::PatternRev(s@),
            LineAddr::Current => AddrModel::Current,
            LineAddr::Last => AddrModel::Last,
        }
    }
}

impl Clone for LineAddr {
    fn clone(&self) -> (r: Self)
        ensures
            r@ == self@,
    {
        match self {
            LineAddr::Number(n) => LineAddr::Number(*n),
            LineAddr::Mark(c) => LineAddr::Mark(*c),
            LineAddr::Offset(n) => LineAddr::Offset(*n),
            LineAddr::Pattern(s) => LineAddr::Pattern(s.clone()),
            LineAddr::PatternRev(s) => LineAddr::PatternRev(s.clone()),
            LineAddr::Current => LineAddr::Current,
            LineAddr::Last => LineAddr::Last,
        }
    }
}

/// A line or a range of lines.
#[derive(Debug)]
pub enum LineSpan {
    Line(LineAddr),
    LineRange(LineAddr, LineAddr),
}

pub enum SpanModel {
    Line(AddrModel),
    LineRange(AddrModel, AddrModel),
}

impl View for LineSpan {
    type V = SpanModel;

    open spec fn view(&self) -> SpanModel {
        match *self {
            LineSpan::Line(a) => SpanModel::Line(a@),
            LineSpan::LineRange(a, b) => SpanModel::LineRange(a@, b@),
        }
    }
}

impl Clone for LineSpan {
    fn clone(&self) -> (r: Self)
        ensures
            r@ == self@,
    {
        match self {
            LineSpan::Line(a) => LineSpan::Line(a.clone()),
            LineSpan::LineRange(a, b) => LineSpan::LineRange(a.clone(), b.clone()),
        }
    }
}

/// The lines of a command.
#[derive(Debug)]
pub enum ExMotion {
    Lines(LineSpan),
    /// The lines of a range in which a pattern is found.
    Global(LineSpan, String),
    /// The lines of a range in which a pattern is not found.
    NotGlobal(LineSpan, String),
    Null,
}

pub enum MotionModel {
    Lines(SpanModel),
    Global(SpanModel, Seq<char>),
    NotGlobal(SpanModel, Seq<char>),
    Null,
}

impl View for ExMotion {
    type V = MotionModel;

    open spec fn view(&self) -> MotionModel {
        match *self {
            ExMotion::Lines(s) => MotionModel::Lines(s@),
            ExMotion::Global(s, p) => MotionModel::Global(s@, p@),
            ExMotion::NotGlobal(s, p) => MotionModel::NotGlobal(s@, p@),
            ExMotion::Null => MotionModel::Null,
        }
    }
}

/// What a command does.
pub enum VerbModel {
    Shell(Seq<char>),
    Normal(Seq<char>),
    Delete,
    Yank,
    Put,
    Quit,
    ReadCmd(Seq<char>),
    ReadFile(Seq<char>),
    WriteCmd(Seq<char>),
    WriteAppend(Seq<char>),
    WriteFile(Seq<char>),
    Edit(Seq<char>),
    Substitute(Seq<char>, Seq<char>, SubFlags),
    RepeatSubstitute,
    RepeatGlobal,
    Other,
}

/// What a verb does on the command line.
pub open spec fn verb_model(v: Verb) -> VerbModel {
    match v {
        Verb::ShellCmd(s) => VerbModel::Shell(s@),
        Verb::Normal(s) => VerbModel::Normal(s@),
        Verb::Delete => VerbModel::Delete,
        Verb::Yank => VerbModel::Yank,
        Verb::Put(Anchor::After) => VerbModel::Put,
        Verb::Quit => VerbModel::Quit,
        Verb::Read(ReadSrc::Cmd(s)) => VerbModel::ReadCmd(s@),
        Verb::Read(ReadSrc::File(s)) => VerbModel::ReadFile(s@),
        Verb::Write(WriteDest::Cmd(s)) => VerbModel::WriteCmd(s@),
        Verb::Write(WriteDest::FileAppend(s)) => VerbModel::WriteAppend(s@),
        Verb::Write(WriteDest::File(s)) => VerbModel::WriteFile(s@),
        Verb::Edit(s) => VerbModel::Edit(s@),
        Verb::Substitute(a, b, f) => VerbModel::Substitute(a@, b@, f),
        Verb::RepeatSubstitute => VerbModel::RepeatSubstitute,
        Verb::RepeatGlobal => VerbModel::RepeatGlobal,
        _ => VerbModel::Other,
    }
}

/// What reading a part of a command gives.
pub enum Out<A> {
    Found(A),
    Nothing,
    /// Not a command.
    Bad,
    /// Not a command, for a reason.
    Message(Seq<char>),
}

/// How a failure is told.
pub open spec fn told<A>(o: Out<A>, e: Option<String>) -> bool {
    match o {
        Out::Bad => e is None,
        Out::Message(m) => e is Some && e->0@ == m,
        _ => false,
    }
}

/// Whether a line was read as it should be.
pub open spec fn addr_told(o: Out<AddrModel>, r: Result<Option<LineAddr>, Option<String>>) -> bool {
    match r {
        Ok(Some(a)) => o == Out::Found(a@),
        Ok(None) => o is Nothing,
        Err(e) => told(o, e),
    }
}

pub open spec fn span_told(o: Out<SpanModel>, r: Result<Option<LineSpan>, Option<String>>) -> bool {
    match r {
        Ok(Some(a)) => o == Out::Found(a@),
        Ok(None) => o is Nothing,
        Err(e) => told(o, e),
    }
}

pub open spec fn verb_told(o: Out<VerbModel>, r: Result<Option<Verb>, Option<String>>) -> bool {
    match r {
        Ok(Some(v)) => o == Out::Found(verb_model(v)),
        Ok(None) => o is Nothing,
        Err(e) => told(o, e),
    }
}

/// A pattern up to a delimiter, and what is behind it. A backslash takes away
/// the meaning of the delimiter; another escaped character stays escaped.
pub open spec fn pattern_of(s: Seq<char>, d: char) -> Option<(Seq<char>, Seq<char>)>
    decreases s.len(),
{
    if s.len() == 0 {
        None
    } else if s[0] == '\\' {
        if s.len() == 1 {
            None
        } else {
            match pattern_of(s.skip(2), d) {
                None => None,
                Some(p) => if s[1] == d {
                    Some((seq![d] + p.0, p.1))
                } else {
                    Some((seq![s[0], s[1]] + p.0, p.1))
                },
            }
        }
    } else if s[0] == d {
        Some((Seq::empty(), s.skip(1)))
    } else {
        match pattern_of(s.skip(1), d) {
            None => None,
            Some(p) => Some((seq![s[0]] + p.0, p.1)),
        }
    }
}

pub open spec fn unclosed() -> Seq<char> {
    "Unclosed pattern in ex command"@
}

pub open spec fn headed(head: Seq<char>, p: Option<(Seq<char>, Seq<char>)>) -> Option<
    (Seq<char>, Seq<char>),
> {
    match p {
        None => None,
        Some(x) => Some((head + x.0, x.1)),
    }
}

proof fn lemma_headed(a: Seq<char>, b: Seq<char>, p: Option<(Seq<char>, Seq<char>)>)
    ensures
        headed(a, headed(b, p)) == headed(a + b, p),
{
    if p is Some {
        assert(a + (b + (p->0).0) =~= a + b + (p->0).0);
    }
}

/// Reads a pattern up to a delimiter.
pub fn parse_pattern(chars: &mut CharTracker, delimiter: char) -> (r: Result<
    String,
    Option<String>,
>)
    requires
        old(chars).wf(),
    ensures
        final(chars).wf(),
        final(chars).all() == old(chars).all(),
        match r {
            Ok(p) => pattern_of(old(chars)@, delimiter) == Some((p@, final(chars)@)),
            Err(e) => pattern_of(old(chars)@, delimiter) is None && e is Some && e->0@
                == unclosed() && final(chars)@.len() == 0,
        },
{
    let ghost s = chars@;
    let mut pat: String = String::new();
    let ghost d = delimiter;
    assert(pat@ =~= Seq::empty());
    proof {
        if pattern_of(s, d) is Some {
            assert(Seq::<char>::empty() + (pattern_of(s, d)->0).0 =~= (pattern_of(s, d)->0).0);
        }
    }
    loop
        invariant
            chars.wf(),
            chars.all() == old(chars).all(),
            d == delimiter,
            s == old(chars)@,
            pattern_of(s, d) == headed(pat@, pattern_of(chars@, d)),
        decreases chars@.len(),
    {
        let ghost was = chars@;
        let ghost p0 = pat@;
        match chars.next() {
            None => {
                return Err(Some(owned("Unclosed pattern in ex command")));
            },
            Some(ch) => {
                if ch == '\\' {
                    let escaped = chars.next();
                    match escaped {
                        None => {
                            assert(was.skip(1).len() == 0);
                            assert(pattern_of(was, d) is None);
                            return Err(Some(owned("Unclosed pattern in ex command")));
                        },
                        Some(e) => {
                            assert(was.skip(1).skip(1) =~= was.skip(2));
                            if e == delimiter {
                                pat.push(e);
                                proof {
                                    lemma_headed(p0, seq![d], pattern_of(chars@, d));
                                    assert(pat@ =~= p0 + seq![d]);
                                }
                            } else {
                                pat.push(ch);
                                pat.push(e);
                                proof {
                                    lemma_headed(p0, seq![ch, e], pattern_of(chars@, d));
                                    assert(pat@ =~= p0 + seq![ch, e]);
                                }
                            }
                        },
                    }
                } else if ch == delimiter {
                    assert(p0 + Seq::<char>::empty() =~= p0);
                    return Ok(pat);
                } else {
                    pat.push(ch);
                    proof {
                        lemma_headed(p0, seq![ch], pattern_of(chars@, d));
                        assert(pat@ =~= p0 + seq![ch]);
                    }
                }
            },
        }
    }
}

/// Where a run of digits ends that begins at a place.
pub open spec fn digit_run(s: Seq<char>, i: int) -> int
    decreases s.len() - i,
{
    if 0 <= i < s.len() && unicode::ascii_digit(s[i]) {
        digit_run(s, i + 1)
    } else {
        i
    }
}

proof fn lemma_digit_run(s: Seq<char>, i: int)
    requires
        0 <= i <= s.len(),
    ensures
        i <= digit_run(s, i) <= s.len(),
        text::all_digits(s.subrange(i, digit_run(s, i))),
    decreases s.len() - i,
{
    if i < s.len() && unicode::ascii_digit(s[i]) {
        lemma_digit_run(s, i + 1);
        let e = digit_run(s, i);
        let t = s.subrange(i, e);
        assert forall|k: int| 0 <= k < t.len() implies unicode::ascii_digit(#[trigger] t[k]) by {
            if k > 0 {
                assert(s.subrange(i + 1, e)[k - 1] == t[k]);
            }
        }
    } else {
        assert(s.subrange(i, i) =~= Seq::<char>::empty());
    }
}

/// Reads a run of digits.
fn take_digits(chars: &mut CharTracker) -> (r: Vec<char>)
    requires
        old(chars).wf(),
    ensures
        final(chars).wf(),
        final(chars).all() == old(chars).all(),
        r@ == old(chars)@.take(digit_run(old(chars)@, 0)),
        final(chars)@ == old(chars)@.skip(digit_run(old(chars)@, 0)),
        0 <= digit_run(old(chars)@, 0) <= old(chars)@.len(),
{
    let ghost s = chars@;
    let mut out: Vec<char> = Vec::new();
    let ghost mut n: int = 0;
    assert(s.skip(0) =~= s);
    assert(out@ =~= s.take(0));
    loop
        invariant
            chars.wf(),
            chars.all() == old(chars).all(),
            0 <= n <= s.len(),
            chars@ == s.skip(n),
            out@ == s.take(n),
            digit_run(s, 0) == digit_run(s, n),
        ensures
            chars.wf(),
            chars.all() == old(chars).all(),
            0 <= n <= s.len(),
            chars@ == s.skip(n),
            out@ == s.take(n),
            digit_run(s, 0) == n,
        decreases chars@.len(),
    {
        match chars.peek() {
            None => {
                break;
            },
            Some(c) => {
                assert(c == s[n]);
                if !is_ascii_digit(c) {
                    break;
                }
                let _ = chars.next();
                out.push(c);
                proof {
                    assert(s.skip(n).skip(1) =~= s.skip(n + 1));
                    assert(s.take(n).push(c) =~= s.take(n + 1));
                    n = n + 1;
                }
            },
        }
    }
    out
}

/// A signed number, where it can be held.
pub open spec fn offset_of(sign: char, d: Seq<char>) -> Option<isize> {
    let v = text::digits_value(d);
    if d.len() == 0 {
        None
    } else if sign == '-' {
        if v <= isize::MAX {
            Some((-v) as isize)
        } else if v == isize::MAX + 1 {
            Some(isize::MIN)
        } else {
            None
        }
    } else if v <= isize::MAX {
        Some(v as isize)
    } else {
        None
    }
}

fn read_offset(sign: char, d: &[char]) -> (r: Option<isize>)
    requires
        text::all_digits(d@),
    ensures
        r == offset_of(sign, d@),
{
    if d.len() == 0 {
        return None;
    }
    match digits_to_usize(d) {
        None => None,
        Some(v) => if v <= isize::MAX as usize {
            if sign == '-' {
                Some(-(v as isize))
            } else {
                Some(v as isize)
            }
        } else if sign == '-' && v == isize::MAX as usize + 1 {
            Some(isize::MIN)
        } else {
            None
        },
    }
}

/// A search pattern up to a delimiter or the end, and what is behind it. Escaped
/// characters stay escaped.
pub open spec fn search_of(s: Seq<char>, d: char) -> (Seq<char>, Seq<char>)
    decreases s.len(),
{
    if s.len() == 0 {
        (Seq::empty(), s)
    } else if s[0] == '\\' {
        if s.len() == 1 {
            (seq!['\\'], s.skip(1))
        } else {
            let p = search_of(s.skip(2), d);
            (seq![s[0], s[1]] + p.0, p.1)
        }
    } else if s[0] == d {
        (Seq::empty(), s.skip(1))
    } else {
        let p = search_of(s.skip(1), d);
        (seq![s[0]] + p.0, p.1)
    }
}

fn read_search(chars: &mut CharTracker, d: char) -> (r: String)
    requires
        old(chars).wf(),
    ensures
        final(chars).wf(),
        final(chars).all() == old(chars).all(),
        (r@, final(chars)@) == search_of(old(chars)@, d),
{
    let ghost s = chars@;
    let mut pat: String = String::new();
    assert(pat@ =~= Seq::empty());
    assert(Seq::<char>::empty() + search_of(s, d).0 =~= search_of(s, d).0);
    loop
        invariant_except_break
            search_of(s, d) == (pat@ + search_of(chars@, d).0, search_of(chars@, d).1),
        invariant
            chars.wf(),
            chars.all() == old(chars).all(),
        ensures
            search_of(s, d) == (pat@, chars@),
        decreases chars@.len(),
    {
        let ghost was = chars@;
        let ghost p0 = pat@;
        match chars.next() {
            None => {
                assert(p0 + Seq::<char>::empty() =~= p0);
                break;
            },
            Some(ch) => {
                if ch == '\\' {
                    pat.push('\\');
                    match chars.next() {
                        None => {
                            assert(chars@ =~= was.skip(1));
                            assert(was.len() == 1);
                            assert(pat@ =~= p0 + seq!['\\']);
                            break;
                        },
                        Some(e) => {
                            pat.push(e);
                            assert(was.skip(1).skip(1) =~= was.skip(2));
                            assert(pat@ + search_of(chars@, d).0 =~= p0 + (seq![ch, e] + search_of(
                                chars@,
                                d,
                            ).0));
                        },
                    }
                } else if ch == d {
                    assert(p0 + Seq::<char>::empty() =~= p0);
                    break;
                } else {
                    pat.push(ch);
                    assert(pat@ + search_of(chars@, d).0 =~= p0 + (seq![ch] + search_of(
                        chars@,
                        d,
                    ).0));
                }
            },
        }
    }
    pat
}

/// The marks that are not letters.
pub open spec fn special_mark(c: char) -> bool {
    c == '<' || c == '>' || c == '[' || c == ']' || c == '^' || c == '.' || c == '\'' || c == '`'
}

/// A line, and what is behind it.
pub open spec fn one_addr(s: Seq<char>) -> (Out<AddrModel>, Seq<char>) {
    if s.len() == 0 {
        (Out::Nothing, s)
    } else {
        let c = s[0];
        let t = s.skip(1);
        if unicode::ascii_digit(c) {
            let e = digit_run(t, 0);
            (
                match text::parsed_usize(seq![c] + t.take(e)) {
                    Some(n) => Out::Found(AddrModel::Number(n)),
                    None => Out::Bad,
                },
                t.skip(e),
            )
        } else if c == '\'' {
            if t.len() == 0 {
                (Out::Message("Expected mark name after ' in ex address"@), t)
            } else if !unicode::ascii_lower(t[0]) && !special_mark(t[0]) {
                (Out::Message("Invalid mark name in ex address: "@.push(t[0])), t.skip(1))
            } else {
                (Out::Found(AddrModel::Mark(t[0])), t.skip(1))
            }
        } else if c == '+' || c == '-' {
            let e = digit_run(t, 0);
            (
                match offset_of(c, t.take(e)) {
                    Some(n) => Out::Found(AddrModel::Offset(n)),
                    None => Out::Bad,
                },
                t.skip(e),
            )
        } else if c == '/' {
            let p = search_of(t, c);
            (Out::Found(AddrModel::Pattern(p.0)), p.1)
        } else if c == '?' {
            let p = search_of(t, c);
            (Out::Found(AddrModel::PatternRev(p.0)), p.1)
        } else if c == '.' {
            (Out::Found(AddrModel::Current), t)
        } else if c == '$' {
            (Out::Found(AddrModel::Last), t)
        } else {
            (Out::Nothing, t)
        }
    }
}

/// Reads a line.
pub fn parse_one_addr(chars: &mut CharTracker) -> (r: Result<Option<LineAddr>, Option<String>>)
    requires
        old(chars).wf(),
    ensures
        final(chars).wf(),
        final(chars).all() == old(chars).all(),
        addr_told(one_addr(old(chars)@).0, r),
        final(chars)@ == one_addr(old(chars)@).1,
{
    let first = match chars.next() {
        None => {
            return Ok(None);
        },
        Some(c) => c,
    };
    if is_ascii_digit(first) {
        let ghost t = chars@;
        let d = take_digits(chars);
        let mut digits: Vec<char> = Vec::new();
        digits.push(first);
        let mut i: usize = 0;
        assert(digits@ =~= seq![first] + d@.take(0));
        while i < d.len()
            invariant
                i <= d@.len(),
                digits@ == seq![first] + d@.take(i as int),
            decreases d@.len() - i,
        {
            digits.push(d[i]);
            i = i + 1;
            assert(digits@ =~= seq![first] + d@.take(i as int));
        }
        assert(d@.take(i as int) =~= d@);
        proof {
            lemma_digit_run(t, 0);
            assert(t.subrange(0, digit_run(t, 0)) =~= d@);
            assert(digits@[0] == first);
            assert forall|k: int| 0 <= k < digits@.len() implies unicode::ascii_digit(
                #[trigger] digits@[k],
            ) by {
                if k > 0 {
                    assert(digits@[k] == d@[k - 1]);
                }
            }
        }
        return match digits_to_usize(digits.as_slice()) {
            Some(n) => Ok(Some(LineAddr::Number(n))),
            None => Err(None),
        };
    }
    if first == '\'' {
        return match chars.next() {
            None => Err(Some(owned("Expected mark name after ' in ex address"))),
            Some(c) => {
                let special: bool = c == '<' || c == '>' || c == '[' || c == ']' || c == '^' || c
                    == '.' || c == '\'' || c == '`';
                if !is_ascii_lower(c) && !special {
                    let mut m = owned("Invalid mark name in ex address: ");
                    m.push(c);
                    Err(Some(m))
                } else {
                    Ok(Some(LineAddr::Mark(c)))
                }
            },
        };
    }
    if first == '+' || first == '-' {
        let ghost t = chars@;
        let d = take_digits(chars);
        proof {
            lemma_digit_run(t, 0);
            assert(t.subrange(0, digit_run(t, 0)) =~= d@);
        }
        return match read_offset(first, d.as_slice()) {
            Some(n) => Ok(Some(LineAddr::Offset(n))),
            None => Err(None),
        };
    }
    if first == '/' {
        return Ok(Some(LineAddr::Pattern(read_search(chars, first))));
    }
    if first == '?' {
        return Ok(Some(LineAddr::PatternRev(read_search(chars, first))));
    }
    if first == '.' {
        return Ok(Some(LineAddr::Current));
    }
    if first == '$' {
        return Ok(Some(LineAddr::Last));
    }
    Ok(None)
}

pub open spec fn whole_buffer() -> SpanModel {
    SpanModel::LineRange(AddrModel::Number(1), AddrModel::Last)
}

pub open spec fn failed<A, B>(o: Out<A>) -> Out<B> {
    match o {
        Out::Message(m) => Out::Message(m),
        _ => Out::Bad,
    }
}

/// The lines before a command, and what is behind them. Where none are named
/// nothing is read.
pub open spec fn address(s: Seq<char>) -> (Out<SpanModel>, Seq<char>) {
    if s.len() > 0 && s[0] == '%' {
        (Out::Found(whole_buffer()), s.skip(1))
    } else {
        let (a, r) = one_addr(s);
        match a {
            Out::Nothing => (Out::Nothing, s),
            Out::Found(x) => if r.len() > 0 && r[0] == ',' {
                let (b, q) = one_addr(r.skip(1));
                match b {
                    Out::Found(y) => (Out::Found(SpanModel::LineRange(x, y)), q),
                    Out::Nothing => (Out::Found(SpanModel::Line(x)), q),
                    _ => (failed::<AddrModel, SpanModel>(b), r),
                }
            } else {
                (Out::Found(SpanModel::Line(x)), r)
            },
            _ => (failed::<AddrModel, SpanModel>(a), s),
        }
    }
}

/// Reads the lines before a command.
pub fn parse_ex_address(chars: &mut CharTracker) -> (r: Result<Option<LineSpan>, Option<String>>)
    requires
        old(chars).wf(),
    ensures
        final(chars).wf(),
        final(chars).all() == old(chars).all(),
        span_told(address(old(chars)@).0, r),
        final(chars)@ == address(old(chars)@).1,
{
    if let Some(c) = chars.peek() {
        if c == '%' {
            let _ = chars.next();
            return Ok(Some(LineSpan::LineRange(LineAddr::Number(1), LineAddr::Last)));
        }
    }
    let mut ahead = chars.clone();
    let start = match parse_one_addr(&mut ahead) {
        Err(e) => {
            return Err(e);
        },
        Ok(None) => {
            return Ok(None);
        },
        Ok(Some(a)) => a,
    };
    *chars = ahead.clone();
    if let Some(c) = ahead.peek() {
        if c == ',' {
            let _ = ahead.next();
            match parse_one_addr(&mut ahead) {
                Err(e) => {
                    return Err(e);
                },
                Ok(Some(end)) => {
                    *chars = ahead;
                    return Ok(Some(LineSpan::LineRange(start, end)));
                },
                Ok(None) => {
                    *chars = ahead;
                    return Ok(Some(LineSpan::Line(start)));
                },
            }
        }
    }
    Ok(Some(LineSpan::Line(start)))
}

/// A shell command without one layer of escaping before double quotes.
pub open spec fn unescaped(s: Seq<char>) -> Seq<char>
    decreases s.len(),
{
    if s.len() == 0 {
        Seq::empty()
    } else if s.len() > 1 && s[0] == '\\' && s[1] == '"' {
        seq!['"'] + unescaped(s.skip(2))
    } else {
        seq![s[0]] + unescaped(s.skip(1))
    }
}

/// Takes away one layer of escaping before double quotes.
pub fn unescape_shell_cmd(v: &[char]) -> (r: String)
    ensures
        r@ == unescaped(v@),
{
    let mut out: String = String::new();
    let mut i: usize = 0;
    assert(v@.skip(0) =~= v@);
    assert(out@ + unescaped(v@) =~= unescaped(v@));
    while i < v.len()
        invariant
            i <= v@.len(),
            unescaped(v@) == out@ + unescaped(v@.skip(i as int)),
        decreases v@.len() - i,
    {
        let ghost s = v@.skip(i as int);
        let ghost o = out@;
        if v[i] == '\\' && i + 1 < v.len() && v[i + 1] == '"' {
            out.push('"');
            i = i + 2;
            assert(s.skip(2) =~= v@.skip(i as int));
            assert(out@ + unescaped(v@.skip(i as int)) =~= o + (seq!['"'] + unescaped(
                v@.skip(i as int),
            )));
        } else {
            let c = v[i];
            out.push(c);
            i = i + 1;
            assert(s.skip(1) =~= v@.skip(i as int));
            assert(out@ + unescaped(v@.skip(i as int)) =~= o + (seq![c] + unescaped(
                v@.skip(i as int),
            )));
        }
    }
    assert(out@ + unescaped(v@.skip(i as int)) =~= out@);
    out
}

/// Where a run of letters and digits ends.
pub open spec fn name_run(s: Seq<char>, i: int) -> int
    decreases s.len() - i,
{
    if 0 <= i < s.len() && unicode::alphanumeric(s[i]) {
        name_run(s, i + 1)
    } else {
        i
    }
}

/// How long the name of a command is. An exclamation mark is a name, or ends
/// that of the normal mode's commands.
pub open spec fn name_len(s: Seq<char>) -> int {
    let k = name_run(s, 0);
    if k < s.len() && s[k] == '!' && (k == 0 || s.take(k) == "normal"@) {
        k + 1
    } else {
        k
    }
}

/// Reads letters and digits.
fn take_name(chars: &mut CharTracker) -> (r: Vec<char>)
    requires
        old(chars).wf(),
    ensures
        final(chars).wf(),
        final(chars).all() == old(chars).all(),
        r@ == old(chars)@.take(name_run(old(chars)@, 0)),
        final(chars)@ == old(chars)@.skip(name_run(old(chars)@, 0)),
        0 <= name_run(old(chars)@, 0) <= old(chars)@.len(),
{
    let ghost s = chars@;
    let mut out: Vec<char> = Vec::new();
    let ghost mut n: int = 0;
    assert(s.skip(0) =~= s);
    assert(out@ =~= s.take(0));
    loop
        invariant
            chars.wf(),
            chars.all() == old(chars).all(),
            0 <= n <= s.len(),
            chars@ == s.skip(n),
            out@ == s.take(n),
            name_run(s, 0) == name_run(s, n),
        ensures
            chars.wf(),
            chars.all() == old(chars).all(),
            0 <= n <= s.len(),
            chars@ == s.skip(n),
            out@ == s.take(n),
            name_run(s, 0) == n,
        decreases chars@.len(),
    {
        match chars.peek() {
            None => {
                break;
            },
            Some(c) => {
                assert(c == s[n]);
                if !c.is_alphanumeric() {
                    break;
                }
                let _ = chars.next();
                out.push(c);
                proof {
                    assert(s.skip(n).skip(1) =~= s.skip(n + 1));
                    assert(s.take(n).push(c) =~= s.take(n + 1));
                    n = n + 1;
                }
            },
        }
    }
    out
}

/// Reads the name of a command.
pub fn parse_ex_command_name(chars: &mut CharTracker) -> (r: String)
    requires
        old(chars).wf(),
    ensures
        final(chars).wf(),
        final(chars).all() == old(chars).all(),
        0 <= name_len(old(chars)@) <= old(chars)@.len(),
        r@ == old(chars)@.take(name_len(old(chars)@)),
        final(chars)@ == old(chars)@.skip(name_len(old(chars)@)),
{
    let ghost s = chars@;
    let mut name = take_name(chars);
    let ghost k = name_run(s, 0);
    if let Some(c) = chars.peek() {
        assert(c == s[k]);
        if c == '!' {
            let normal = chars_of("normal");
            if name.len() == 0 || same_chars(name.as_slice(), normal.as_slice()) {
                let _ = chars.next();
                name.push('!');
                assert(s.skip(k).skip(1) =~= s.skip(k + 1));
                assert(name@ =~= s.take(k + 1));
            }
        }
    }
    string_of(name.as_slice())
}

/// Whether a word begins with a name.
pub open spec fn abbreviates(name: Seq<char>, word: Seq<char>) -> bool {
    text::has_prefix(word, name)
}

fn is_start_of(name: &[char], word: &str) -> (r: bool)
    ensures
        r == abbreviates(name@, word@),
{
    let w = chars_of(word);
    chars_start_with(w.as_slice(), name)
}

/// The names that a command may have.
pub open spec fn valid_name(n: Seq<char>) -> bool {
    n == "!"@ || abbreviates(n, "help"@) || text::has_prefix(n, "normal!"@) || abbreviates(
        n,
        "delete"@,
    ) || abbreviates(n, "yank"@) || abbreviates(n, "put"@) || abbreviates(n, "quit"@)
        || abbreviates(n, "read"@) || abbreviates(n, "write"@) || abbreviates(n, "edit"@)
        || abbreviates(n, "substitute"@) || abbreviates(n, "global"@)
}

/// Whether a command may have a name.
pub fn ex_command_name_is_valid(name: &str) -> (r: bool)
    ensures
        r == valid_name(name@),
{
    let n = chars_of(name);
    let v = n.as_slice();
    let bang = chars_of("!");
    let normal = chars_of("normal!");
    same_chars(v, bang.as_slice()) || is_start_of(v, "help") || chars_start_with(
        v,
        normal.as_slice(),
    ) || is_start_of(v, "delete") || is_start_of(v, "yank") || is_start_of(v, "put")
        || is_start_of(v, "quit") || is_start_of(v, "read") || is_start_of(v, "write")
        || is_start_of(v, "edit") || is_start_of(v, "substitute") || is_start_of(v, "global")
}

/// What the shell makes of the path of a command: the words that it stands for,
/// or why it stands for none. A path may also be taken as it was typed.
#[derive(Debug)]
pub enum Expansion {
    AsTyped,
    Words(Vec<String>),
    Failed(String),
}

/// The path that is meant, or what is told where it cannot be expanded.
pub open spec fn meant(x: Expansion, typed: Seq<char>) -> Result<Seq<char>, Seq<char>> {
    match x {
        Expansion::AsTyped => Ok(typed),
        Expansion::Words(w) => Ok(text::spaced(w@, w@.len() as int)),
        Expansion::Failed(why) => Err("Error expanding path: "@ + why@),
    }
}

/// The path that is meant.
pub fn get_path(typed: &[char], x: &Expansion) -> (r: Result<String, Option<String>>)
    ensures
        match meant(*x, typed@) {
            Ok(p) => r is Ok && r->Ok_0@ == p,
            Err(m) => r is Err && r->Err_0 is Some && (r->Err_0)->0@ == m,
        },
{
    match x {
        Expansion::AsTyped => Ok(string_of(typed)),
        Expansion::Words(w) => Ok(space_words(w.as_slice())),
        Expansion::Failed(why) => {
            let mut m = owned("Error expanding path: ");
            m.push_str(why.as_str());
            Err(Some(m))
        },
    }
}

/// What is read: a file, or what a shell command prints.
pub open spec fn read_cmd(s: Seq<char>, x: Expansion) -> Out<VerbModel> {
    let t = text::trimmed_left(s);
    let shell = t.len() > 0 && t[0] == '!';
    let arg = if shell {
        t.skip(1)
    } else {
        t
    };
    if text::trimmed(arg).len() == 0 {
        Out::Message("Expected file path or shell command after ':r'"@)
    } else if shell {
        Out::Found(VerbModel::ReadCmd(arg))
    } else {
        match meant(x, text::trimmed(arg)) {
            Ok(p) => Out::Found(VerbModel::ReadFile(p)),
            Err(m) => Out::Message(m),
        }
    }
}

/// Where the lines are written: a file, the end of a file, or a shell command.
pub open spec fn write_cmd(s: Seq<char>, x: Expansion) -> Out<VerbModel> {
    let t = text::trimmed_left(s);
    if t.len() > 0 && t[0] == '!' {
        Out::Found(VerbModel::WriteCmd(t.skip(1)))
    } else if t.len() > 1 && t[0] == '>' && t[1] == '>' {
        match meant(x, text::trimmed(t.skip(2))) {
            Ok(p) => Out::Found(VerbModel::WriteAppend(p)),
            Err(m) => Out::Message(m),
        }
    } else {
        match meant(x, text::trimmed(t)) {
            Ok(p) => Out::Found(VerbModel::WriteFile(p)),
            Err(m) => Out::Message(m),
        }
    }
}

/// The file to edit.
pub open spec fn edit_cmd(s: Seq<char>, x: Expansion) -> Out<VerbModel> {
    let a = text::trimmed(text::trimmed_left(s));
    if a.len() == 0 {
        Out::Message("Expected file path after ':edit'"@)
    } else {
        match meant(x, a) {
            Ok(p) => Out::Found(VerbModel::Edit(p)),
            Err(m) => Out::Message(m),
        }
    }
}

/// The flags of a substitution; none where another letter is among them.
pub open spec fn sub_flags(s: Seq<char>) -> Option<SubFlags>
    decreases s.len(),
{
    if s.len() == 0 {
        Some(SubFlags::none())
    } else {
        match sub_flags(s.drop_last()) {
            None => None,
            Some(f) => match s.last() {
                'g' => Some(SubFlags { global: true, ..f }),
                'i' => Some(SubFlags { ignore_case: true, ..f }),
                'I' => Some(SubFlags { no_ignore_case: true, ..f }),
                'n' => Some(SubFlags { show_count: true, ..f }),
                _ => None,
            },
        }
    }
}

/// What is behind the flags of a substitution: a letter that is none of them
/// is read, and nothing after it.
pub open spec fn behind_flags(s: Seq<char>) -> Seq<char>
    decreases s.len(),
{
    if s.len() == 0 {
        s
    } else if s[0] == 'g' || s[0] == 'i' || s[0] == 'I' || s[0] == 'n' {
        behind_flags(s.skip(1))
    } else {
        s.skip(1)
    }
}

/// What is left of a text once a substitution was read.
pub open spec fn behind_substitute(s: Seq<char>) -> Seq<char> {
    let t = text::trimmed_left(s);
    if t.len() == 0 {
        t
    } else if unicode::alphanumeric(t[0]) {
        t.skip(1)
    } else {
        match pattern_of(t.skip(1), t[0]) {
            None => Seq::empty(),
            Some(a) => match pattern_of(a.1, t[0]) {
                None => Seq::empty(),
                Some(b) => behind_flags(b.1),
            },
        }
    }
}

/// A substitution: a pattern, what is put in its place, and flags.
pub open spec fn substitute_cmd(s: Seq<char>) -> Out<VerbModel> {
    let t = text::trimmed_left(s);
    if t.len() == 0 {
        Out::Found(VerbModel::RepeatSubstitute)
    } else if unicode::alphanumeric(t[0]) {
        Out::Bad
    } else {
        match pattern_of(t.skip(1), t[0]) {
            None => Out::Message(unclosed()),
            Some(a) => match pattern_of(a.1, t[0]) {
                None => Out::Message(unclosed()),
                Some(b) => match sub_flags(b.1) {
                    None => Out::Bad,
                    Some(f) => Out::Found(VerbModel::Substitute(a.0, b.0, f)),
                },
            },
        }
    }
}

/// A command by its name, with what is behind the name.
pub open spec fn named_cmd(n: Seq<char>, s: Seq<char>, x: Expansion) -> Out<VerbModel> {
    if n.len() == 0 {
        Out::Nothing
    } else if n == "!"@ {
        Out::Found(VerbModel::Shell(unescaped(s)))
    } else if abbreviates(n, "help"@) {
        Out::Found(VerbModel::Shell("help "@ + text::trimmed(s)))
    } else if text::has_prefix(n, "normal!"@) {
        Out::Found(VerbModel::Normal(text::trimmed_left(s)))
    } else if abbreviates(n, "delete"@) {
        Out::Found(VerbModel::Delete)
    } else if abbreviates(n, "yank"@) {
        Out::Found(VerbModel::Yank)
    } else if abbreviates(n, "put"@) {
        Out::Found(VerbModel::Put)
    } else if abbreviates(n, "quit"@) {
        Out::Found(VerbModel::Quit)
    } else if abbreviates(n, "read"@) {
        read_cmd(s, x)
    } else if abbreviates(n, "write"@) {
        write_cmd(s, x)
    } else if abbreviates(n, "edit"@) {
        edit_cmd(s, x)
    } else if abbreviates(n, "substitute"@) {
        substitute_cmd(s)
    } else {
        Out::Bad
    }
}

/// A command.
pub open spec fn command(s: Seq<char>, x: Expansion) -> Out<VerbModel> {
    named_cmd(s.take(name_len(s)), s.skip(name_len(s)), x)
}

/// What is left of a text once a command was read, from behind its name on.
pub open spec fn behind_named(n: Seq<char>, s: Seq<char>) -> Seq<char> {
    if n.len() == 0 {
        s
    } else if n == "!"@ || abbreviates(n, "help"@) || text::has_prefix(n, "normal!"@) {
        Seq::empty()
    } else if abbreviates(n, "delete"@) || abbreviates(n, "yank"@) || abbreviates(n, "put"@)
        || abbreviates(n, "quit"@) {
        s
    } else if abbreviates(n, "read"@) || abbreviates(n, "write"@) || abbreviates(n, "edit"@) {
        Seq::empty()
    } else if abbreviates(n, "substitute"@) {
        behind_substitute(s)
    } else {
        s
    }
}

/// What is left of a text once a command was read.
#[verifier::opaque]
pub open spec fn behind_command(s: Seq<char>) -> Seq<char> {
    behind_named(s.take(name_len(s)), s.skip(name_len(s)))
}

/// Reads keys for the normal mode.
pub fn parse_normal(chars: &mut CharTracker) -> (r: Result<Option<Verb>, Option<String>>)
    requires
        old(chars).wf(),
    ensures
        final(chars).wf(),
        final(chars).all() == old(chars).all(),
        verb_told(Out::Found(VerbModel::Normal(text::trimmed_left(old(chars)@))), r),
        final(chars)@.len() == 0,
{
    chars.skip_whitespace();
    let rest = chars.rest();
    Ok(Some(Verb::Normal(string_of(rest.as_slice()))))
}

/// Reads which file to edit.
pub fn parse_edit(chars: &mut CharTracker, x: &Expansion) -> (r: Result<
    Option<Verb>,
    Option<String>,
>)
    requires
        old(chars).wf(),
    ensures
        final(chars).wf(),
        final(chars).all() == old(chars).all(),
        verb_told(edit_cmd(old(chars)@, *x), r),
        final(chars)@.len() == 0,
{
    chars.skip_whitespace();
    let rest = chars.rest();
    let arg = trim(rest.as_slice());
    if arg.len() == 0 {
        return Err(Some(owned("Expected file path after ':edit'")));
    }
    match get_path(arg.as_slice(), x) {
        Ok(p) => Ok(Some(Verb::Edit(p))),
        Err(e) => Err(e),
    }
}

/// Reads what to read.
pub fn parse_read(chars: &mut CharTracker, x: &Expansion) -> (r: Result<
    Option<Verb>,
    Option<String>,
>)
    requires
        old(chars).wf(),
    ensures
        final(chars).wf(),
        final(chars).all() == old(chars).all(),
        verb_told(read_cmd(old(chars)@, *x), r),
        final(chars)@.len() == 0,
{
    chars.skip_whitespace();
    let shell: bool = match chars.peek() {
        Some(c) => c == '!',
        None => false,
    };
    if shell {
        let _ = chars.next();
    }
    let arg = chars.rest();
    let trimmed = trim(arg.as_slice());
    if trimmed.len() == 0 {
        return Err(Some(owned("Expected file path or shell command after ':r'")));
    }
    if shell {
        Ok(Some(Verb::Read(ReadSrc::Cmd(string_of(arg.as_slice())))))
    } else {
        match get_path(trimmed.as_slice(), x) {
            Ok(p) => Ok(Some(Verb::Read(ReadSrc::File(p)))),
            Err(e) => Err(e),
        }
    }
}

/// Reads where to write.
pub fn parse_write(chars: &mut CharTracker, x: &Expansion) -> (r: Result<
    Option<Verb>,
    Option<String>,
>)
    requires
        old(chars).wf(),
    ensures
        final(chars).wf(),
        final(chars).all() == old(chars).all(),
        verb_told(write_cmd(old(chars)@, *x), r),
        final(chars)@.len() == 0,
{
    chars.skip_whitespace();
    let v = chars.rest();
    let n: usize = v.len();
    if n > 0 && v[0] == '!' {
        let arg = sub_chars(v.as_slice(), 1, n);
        assert(arg@ =~= v@.skip(1));
        return Ok(Some(Verb::Write(WriteDest::Cmd(string_of(arg.as_slice())))));
    }
    if n > 1 && v[0] == '>' && v[1] == '>' {
        let arg = sub_chars(v.as_slice(), 2, n);
        assert(arg@ =~= v@.skip(2));
        let path = trim(arg.as_slice());
        return match get_path(path.as_slice(), x) {
            Ok(p) => Ok(Some(Verb::Write(WriteDest::FileAppend(p)))),
            Err(e) => Err(e),
        };
    }
    let path = trim(v.as_slice());
    match get_path(path.as_slice(), x) {
        Ok(p) => Ok(Some(Verb::Write(WriteDest::File(p)))),
        Err(e) => Err(e),
    }
}

fn read_flags(chars: &mut CharTracker) -> (r: Option<SubFlags>)
    requires
        old(chars).wf(),
    ensures
        final(chars).wf(),
        final(chars).all() == old(chars).all(),
        r == sub_flags(old(chars)@),
        final(chars)@ == behind_flags(old(chars)@),
{
    let ghost s = chars@;
    let ghost mut i: int = 0;
    let mut f = SubFlags::empty();
    assert(s.take(0) =~= Seq::<char>::empty());
    assert(s.skip(0) =~= s);
    loop
        invariant
            chars.wf(),
            chars.all() == old(chars).all(),
            s == old(chars)@,
            0 <= i <= s.len(),
            chars@ == s.skip(i),
            behind_flags(s) == behind_flags(s.skip(i)),
            sub_flags(s.take(i)) == Some(f),
        decreases chars@.len(),
    {
        let c = match chars.next() {
            None => {
                assert(s.take(i) =~= s);
                return Some(f);
            },
            Some(c) => c,
        };
        proof {
            assert(s.take(i + 1).drop_last() =~= s.take(i));
            assert(s.skip(i).skip(1) =~= s.skip(i + 1));
        }
        if c == 'g' {
            f.global = true;
        } else if c == 'i' {
            f.ignore_case = true;
        } else if c == 'I' {
            f.no_ignore_case = true;
        } else if c == 'n' {
            f.show_count = true;
        } else {
            proof {
                lemma_bad_flag(s, i + 1);
                assert(s.take(s.len() as int) =~= s);
            }
            return None;
        }
        proof {
            i = i + 1;
        }
    }
}

proof fn lemma_bad_flag(s: Seq<char>, k: int)
    requires
        0 <= k <= s.len(),
        sub_flags(s.take(k)) is None,
    ensures
        sub_flags(s.take(s.len() as int)) is None,
    decreases s.len() - k,
{
    if k < s.len() {
        assert(s.take(k + 1).drop_last() =~= s.take(k));
        lemma_bad_flag(s, k + 1);
    }
}

/// Reads a substitution.
pub fn parse_substitute(chars: &mut CharTracker) -> (r: Result<Option<Verb>, Option<String>>)
    requires
        old(chars).wf(),
    ensures
        final(chars).wf(),
        final(chars).all() == old(chars).all(),
        verb_told(substitute_cmd(old(chars)@), r),
        final(chars)@ == behind_substitute(old(chars)@),
{
    chars.skip_whitespace();
    let delimiter = match chars.next() {
        None => {
            return Ok(Some(Verb::RepeatSubstitute));
        },
        Some(c) => c,
    };
    if delimiter.is_alphanumeric() {
        return Err(None);
    }
    let old_pat = match parse_pattern(chars, delimiter) {
        Ok(p) => p,
        Err(e) => {
            return Err(e);
        },
    };
    let new_pat = match parse_pattern(chars, delimiter) {
        Ok(p) => p,
        Err(e) => {
            return Err(e);
        },
    };
    match read_flags(chars) {
        Some(f) => Ok(Some(Verb::Substitute(old_pat, new_pat, f))),
        None => Err(None),
    }
}

fn help_cmd(rest: &[char]) -> (r: String)
    ensures
        r@ == "help "@ + text::trimmed(rest@),
{
    let mut cmd = owned("help ");
    let t = trim(rest);
    let t = string_of(t.as_slice());
    cmd.push_str(t.as_str());
    cmd
}

/// Reads a command.
pub fn parse_ex_command(chars: &mut CharTracker, x: &Expansion) -> (r: Result<
    Option<Verb>,
    Option<String>,
>)
    requires
        old(chars).wf(),
    ensures
        final(chars).wf(),
        final(chars).all() == old(chars).all(),
        verb_told(command(old(chars)@, *x), r),
        final(chars)@ == behind_command(old(chars)@),
{
    reveal(behind_command);
    let name = parse_ex_command_name(chars);
    let n = chars_of(name.as_str());
    let v = n.as_slice();
    let bang = chars_of("!");
    let normal = chars_of("normal!");
    if v.len() == 0 {
        return Ok(None);
    }
    if same_chars(v, bang.as_slice()) {
        let rest = chars.rest();
        return Ok(Some(Verb::ShellCmd(unescape_shell_cmd(rest.as_slice()))));
    }
    if is_start_of(v, "help") {
        let rest = chars.rest();
        return Ok(Some(Verb::ShellCmd(help_cmd(rest.as_slice()))));
    }
    if chars_start_with(v, normal.as_slice()) {
        return parse_normal(chars);
    }
    if is_start_of(v, "delete") {
        return Ok(Some(Verb::Delete));
    }
    if is_start_of(v, "yank") {
        return Ok(Some(Verb::Yank));
    }
    if is_start_of(v, "put") {
        return Ok(Some(Verb::Put(Anchor::After)));
    }
    if is_start_of(v, "quit") {
        return Ok(Some(Verb::Quit));
    }
    if is_start_of(v, "read") {
        return parse_read(chars, x);
    }
    if is_start_of(v, "write") {
        return parse_write(chars, x);
    }
    if is_start_of(v, "edit") {
        return parse_edit(chars, x);
    }
    if is_start_of(v, "substitute") {
        return parse_substitute(chars);
    }
    Err(None)
}

/// A command on the lines in which a pattern is found, or is not.
pub open spec fn global_cmd(s: Seq<char>, constraint: Option<SpanModel>, x: Expansion) -> Out<
    (MotionModel, VerbModel),
> {
    let negated = s.len() > 0 && s[0] == '!';
    let t = text::trimmed_left(
        if negated {
            s.skip(1)
        } else {
            s
        },
    );
    if t.len() == 0 {
        Out::Found((MotionModel::Null, VerbModel::RepeatGlobal))
    } else if unicode::alphanumeric(t[0]) {
        Out::Bad
    } else {
        match pattern_of(t.skip(1), t[0]) {
            None => Out::Message(unclosed()),
            Some(p) => {
                let lines = match constraint {
                    Some(c) => c,
                    None => whole_buffer(),
                };
                match command(p.1, x) {
                    Out::Found(v) => Out::Found(
                        (
                            if negated {
                                MotionModel::NotGlobal(lines, p.0)
                            } else {
                                MotionModel::Global(lines, p.0)
                            },
                            v,
                        ),
                    ),
                    Out::Nothing => Out::Message("Expected a command after global pattern"@),
                    o => failed::<VerbModel, (MotionModel, VerbModel)>(o),
                }
            },
        }
    }
}

/// What is left of a text once a command on such lines was read.
#[verifier::opaque]
pub open spec fn behind_global(s: Seq<char>) -> Seq<char> {
    let t = text::trimmed_left(
        if s.len() > 0 && s[0] == '!' {
            s.skip(1)
        } else {
            s
        },
    );
    if t.len() == 0 {
        t
    } else if unicode::alphanumeric(t[0]) {
        t.skip(1)
    } else {
        match pattern_of(t.skip(1), t[0]) {
            None => Seq::empty(),
            Some(p) => behind_command(p.1),
        }
    }
}

pub open spec fn global_told(
    o: Out<(MotionModel, VerbModel)>,
    r: Result<Option<(ExMotion, Verb)>, Option<String>>,
) -> bool {
    match r {
        Ok(Some(p)) => o == Out::Found((p.0@, verb_model(p.1))),
        Ok(None) => o is Nothing,
        Err(e) => told(o, e),
    }
}

pub open spec fn span_view(s: Option<&LineSpan>) -> Option<SpanModel> {
    match s {
        Some(x) => Some(x@),
        None => None,
    }
}

/// Reads a command on the lines in which a pattern is found, or is not.
pub fn parse_global(
    chars: &mut CharTracker,
    constraint: Option<&LineSpan>,
    x: &Expansion,
) -> (r: Result<Option<(ExMotion, Verb)>, Option<String>>)
    requires
        old(chars).wf(),
    ensures
        final(chars).wf(),
        final(chars).all() == old(chars).all(),
        global_told(global_cmd(old(chars)@, span_view(constraint), *x), r),
        final(chars)@ == behind_global(old(chars)@),
{
    reveal(behind_global);
    let negated: bool = match chars.peek() {
        Some(c) => c == '!',
        None => false,
    };
    if negated {
        let _ = chars.next();
    }
    chars.skip_whitespace();
    let delimiter = match chars.next() {
        None => {
            return Ok(Some((ExMotion::Null, Verb::RepeatGlobal)));
        },
        Some(c) => c,
    };
    if delimiter.is_alphanumeric() {
        return Err(None);
    }
    let pat = match parse_pattern(chars, delimiter) {
        Ok(p) => p,
        Err(e) => {
            return Err(e);
        },
    };
    let verb = match parse_ex_command(chars, x) {
        Ok(Some(v)) => v,
        Ok(None) => {
            return Err(Some(owned("Expected a command after global pattern")));
        },
        Err(e) => {
            return Err(e);
        },
    };
    let lines = match constraint {
        Some(c) => c.clone(),
        None => LineSpan::LineRange(LineAddr::Number(1), LineAddr::Last),
    };
    if negated {
        Ok(Some((ExMotion::NotGlobal(lines, pat), verb)))
    } else {
        Ok(Some((ExMotion::Global(lines, pat), verb)))
    }
}

/// A command of the command line, with the lines that it is for.
#[derive(Debug)]
pub struct ExCmd {
    pub verb: Option<VerbCmd>,
    pub motion: Option<ExMotion>,
    pub raw_seq: String,
    pub flags: CmdFlags,
}

/// The parts of a command.
pub struct CmdModel {
    pub verb: Option<VerbModel>,
    pub motion: Option<MotionModel>,
}

pub open spec fn is_write(v: VerbModel) -> bool {
    v is WriteCmd || v is WriteAppend || v is WriteFile
}

/// What is typed on the command line: lines, and a command for them. Where no
/// lines are named it is for the line of the cursor; only writing is then for
/// all of them.
pub open spec fn ex_input(raw: Seq<char>, x: Expansion) -> Out<CmdModel> {
    let s = text::trimmed(raw);
    if s.len() == 0 {
        Out::Nothing
    } else {
        let (a, r) = address(s);
        match a {
            Out::Bad | Out::Message(_) => failed::<SpanModel, CmdModel>(a),
            _ => {
                let lines = match a {
                    Out::Found(x) => Some(x),
                    _ => None,
                };
                if r.len() > 0 && r[0] == 'g' {
                    let k = name_run(r, 0);
                    if !abbreviates(r.take(k), "global"@) {
                        Out::Bad
                    } else {
                        match global_cmd(r.skip(k), lines, x) {
                            Out::Found(p) => Out::Found(
                                CmdModel { verb: Some(p.1), motion: Some(p.0) },
                            ),
                            Out::Nothing => Out::Nothing,
                            o => failed::<(MotionModel, VerbModel), CmdModel>(o),
                        }
                    }
                } else {
                    let here = MotionModel::Lines(SpanModel::Line(AddrModel::Current));
                    match command(r, x) {
                        Out::Found(v) => Out::Found(
                            CmdModel {
                                verb: Some(v),
                                motion: match lines {
                                    Some(l) => Some(MotionModel::Lines(l)),
                                    None => if is_write(v) {
                                        None
                                    } else {
                                        Some(here)
                                    },
                                },
                            },
                        ),
                        Out::Nothing => Out::Found(
                            CmdModel {
                                verb: None,
                                motion: match lines {
                                    Some(l) => Some(MotionModel::Lines(l)),
                                    None => Some(here),
                                },
                            },
                        ),
                        o => failed::<VerbModel, CmdModel>(o),
                    }
                }
            },
        }
    }
}

/// The parts of a command that was read.
pub open spec fn cmd_model(c: ExCmd) -> CmdModel {
    CmdModel {
        verb: match c.verb {
            Some(v) => Some(verb_model(v.1)),
            None => None,
        },
        motion: match c.motion {
            Some(m) => Some(m@),
            None => None,
        },
    }
}

/// The path of a command.
pub open spec fn path_of(v: Option<VerbModel>) -> Option<Seq<char>> {
    match v {
        Some(VerbModel::ReadFile(p)) => Some(p),
        Some(VerbModel::WriteFile(p)) => Some(p),
        Some(VerbModel::WriteAppend(p)) => Some(p),
        Some(VerbModel::Edit(p)) => Some(p),
        _ => None,
    }
}

/// The path that is to be expanded for what is typed on the command line.
pub open spec fn path_typed(raw: Seq<char>) -> Option<Seq<char>> {
    match ex_input(raw, Expansion::AsTyped) {
        Out::Found(c) => path_of(c.verb),
        _ => None,
    }
}

/// Finds the path that is to be expanded for what is typed on the command line.
pub fn path_to_expand(raw: &str) -> (r: Option<String>)
    ensures
        match path_typed(raw@) {
            Some(p) => r is Some && r->0@ == p,
            None => r is None,
        },
{
    match parse_ex_input(raw, &Expansion::AsTyped) {
        Ok(Some(c)) => match c.verb {
            Some(VerbCmd(_, Verb::Read(ReadSrc::File(p)))) => Some(p),
            Some(VerbCmd(_, Verb::Write(WriteDest::File(p)))) => Some(p),
            Some(VerbCmd(_, Verb::Write(WriteDest::FileAppend(p)))) => Some(p),
            Some(VerbCmd(_, Verb::Edit(p))) => Some(p),
            _ => None,
        },
        _ => None,
    }
}

/// Reads what is typed on the command line. `x` is what the shell makes of its
/// path.
#[verifier::rlimit(40)]
pub fn parse_ex_input(raw: &str, x: &Expansion) -> (r: Result<Option<ExCmd>, Option<String>>)
    ensures
        match r {
            Ok(Some(c)) => {
                &&& ex_input(raw@, *x) == Out::Found(cmd_model(c))
                &&& c.verb is Some ==> (c.verb->0).0 == 1
                &&& c.raw_seq@ == text::trimmed(raw@)
                &&& c.flags == (CmdFlags {
                    exit_cur_mode: true,
                    is_ex_cmd: true,
                    ..CmdFlags::none()
                })
            },
            Ok(None) => ex_input(raw@, *x) is Nothing,
            Err(e) => told(ex_input(raw@, *x), e),
        },
{
    let v = chars_of(raw);
    let t = trim(v.as_slice());
    if t.len() == 0 {
        return Ok(None);
    }
    let trimmed = string_of(t.as_slice());
    let mut chars = CharTracker::new(trimmed.as_str());
    let lines = match parse_ex_address(&mut chars) {
        Ok(l) => l,
        Err(e) => {
            return Err(e);
        },
    };
    let mut flags = CmdFlags::empty();
    flags.exit_cur_mode = true;
    flags.is_ex_cmd = true;
    let is_global: bool = match chars.peek() {
        Some(c) => c == 'g',
        None => false,
    };
    if is_global {
        let name = take_name(&mut chars);
        if !is_start_of(name.as_slice(), "global") {
            return Err(None);
        }
        let constraint = match &lines {
            Some(l) => Some(l),
            None => None,
        };
        return match parse_global(&mut chars, constraint, x) {
            Err(e) => Err(e),
            Ok(None) => Ok(None),
            Ok(Some((motion, verb))) => Ok(
                Some(
                    ExCmd {
                        verb: Some(VerbCmd(1, verb)),
                        motion: Some(motion),
                        raw_seq: trimmed,
                        flags,
                    },
                ),
            ),
        };
    }
    let verb = match parse_ex_command(&mut chars, x) {
        Err(e) => {
            return Err(e);
        },
        Ok(x) => x,
    };
    let motion = match lines {
        Some(l) => Some(ExMotion::Lines(l)),
        None => {
            let writes: bool = match &verb {
                Some(Verb::Write(_)) => true,
                _ => false,
            };
            if writes {
                None
            } else {
                Some(ExMotion::Lines(LineSpan::Line(LineAddr::Current)))
            }
        },
    };
    let verb = match verb {
        Some(x) => Some(VerbCmd(1, x)),
        None => None,
    };
    Ok(Some(ExCmd { verb, motion, raw_seq: trimmed, flags }))
}

/// What is told of a line that is no command.
pub open spec fn failure_text(input: Seq<char>, e: Option<Seq<char>>) -> Seq<char> {
    match e {
        Some(m) => m,
        None => "Not an editor command: "@ + input,
    }
}

/// What is told of a line that is no command.
pub fn failure_message(input: &str, e: Option<String>) -> (r: String)
    ensures
        r@ == failure_text(
            input@,
            match e {
                Some(m) => Some(m@),
                None => None,
            },
        ),
{
    match e {
        Some(m) => m,
        None => {
            let mut s = owned("Not an editor command: ");
            s.push_str(input);
            s
        },
    }
}

/// A pattern without backslashes and without its delimiter is read as it is.
pub proof fn plain_patterns_are_read(p: Seq<char>, d: char, rest: Seq<char>)
    requires
        d != '\\',
        forall|i: int| 0 <= i < p.len() ==> p[i] != d && p[i] != '\\',
    ensures
        pattern_of(p.push(d) + rest, d) == Some((p, rest)),
    decreases p.len(),
{
    let s = p.push(d) + rest;
    if p.len() == 0 {
        assert(s.skip(1) =~= rest);
        assert(p =~= Seq::empty());
    } else {
        let q = p.skip(1);
        plain_patterns_are_read(q, d, rest);
        assert(s.skip(1) =~= q.push(d) + rest);
        assert(s[0] == p[0]);
        assert(seq![p[0]] + q =~= p);
    }
}

} // verus!
