//! The commands that the edit modes hand to the buffer.

use crate::linebuf::line::Grapheme;
use crate::linebuf::pos::Pos;
use crate::unicode;
use crate::unicode::ascii_lowered;
use crate::unicode::ascii_uppered;
use vstd::prelude::*;

verus! {

#[derive(Debug, Clone, Copy, PartialEq, Eq, Structural)]
pub enum Anchor {
    After,
    Before,
}

#[derive(Debug, Clone, Copy, PartialEq, Eq, Structural)]
pub enum Word {
    Big,
    Normal,
}

#[derive(Debug, Clone, Copy, PartialEq, Eq, Structural)]
pub enum Bound {
    Inside,
    Around,
}

#[derive(Debug, Clone, Copy, PartialEq, Eq, Structural)]
pub enum Direction {
    Forward,
    Backward,
}

impl Default for Direction {
    fn default() -> (r: Self)
        ensures
            r == Direction::Forward,
    {
        Direction::Forward
    }
}

#[derive(Debug, Clone, Copy, PartialEq, Eq, Structural)]
pub enum Dest {
    On,
    Before,
    After,
}

#[derive(Debug, Clone, Copy, PartialEq, Eq, Structural)]
pub enum To {
    Start,
    End,
}

#[derive(Debug, Clone, Copy, PartialEq, Eq, Structural)]
pub enum TextObj {
    /// `iw`, `aw`: inner word, around word
    Word(Word, Bound),
    /// `)`, `(`: forward, backward
    Sentence(Direction),
    /// `}`, `{`: forward, backward
    Paragraph(Direction),
    WholeSentence(Bound),
    WholeParagraph(Bound),
    /// `i"`, `a"`: inner or around double quotes
    DoubleQuote(Bound),
    /// `i'`, `a'`
    SingleQuote(Bound),
    /// inner or around backticks
    BacktickQuote(Bound),
    /// `i)`, `a)`: round parens
    Paren(Bound),
    /// `i]`, `a]`
    Bracket(Bound),
    /// `i}`, `a}`
    Brace(Bound),
    /// `i<`, `a<`
    Angle(Bound),
    /// `it`, `at`: tags
    Tag(Bound),
    /// A user-defined object.
    Custom(char),
}

/// Where the `read` command takes its text from.
#[derive(Debug)]
pub enum ReadSrc {
    File(String),
    Cmd(String),
}

/// Where the `write` command puts the buffer.
#[derive(Debug)]
pub enum WriteDest {
    File(String),
    FileAppend(String),
    Cmd(String),
}

/// A pattern of a global command.
#[derive(Debug)]
pub enum Val {
    Str(String),
    Regex(String),
}

impl Val {
    pub fn new_str(s: String) -> (r: Self)
        ensures
            r == Val::Str(s),
    {
        Val::Str(s)
    }
}

impl Clone for ReadSrc {
    fn clone(&self) -> (r: Self)
        ensures
            r == *self,
    {
        match self {
            ReadSrc::File(s) => ReadSrc::File(s.clone()),
            ReadSrc::Cmd(s) => ReadSrc::Cmd(s.clone()),
        }
    }
}

impl Clone for WriteDest {
    fn clone(&self) -> (r: Self)
        ensures
            r == *self,
    {
        match self {
            WriteDest::File(s) => WriteDest::File(s.clone()),
            WriteDest::FileAppend(s) => WriteDest::FileAppend(s.clone()),
            WriteDest::Cmd(s) => WriteDest::Cmd(s.clone()),
        }
    }
}

impl Clone for Val {
    fn clone(&self) -> (r: Self)
        ensures
            r == *self,
    {
        match self {
            Val::Str(s) => Val::Str(s.clone()),
            Val::Regex(s) => Val::Regex(s.clone()),
        }
    }
}

/// The flags of a substitution.
#[derive(Debug, Clone, Copy, PartialEq, Eq, Structural)]
pub struct SubFlags {
    /// `g`
    pub global: bool,
    /// `c`
    pub confirm: bool,
    /// `i`
    pub ignore_case: bool,
    /// `I`
    pub no_ignore_case: bool,
    /// `n`
    pub show_count: bool,
    /// `p`
    pub print_result: bool,
    /// `#`
    pub print_numbered: bool,
    /// `l`
    pub print_left_align: bool,
}

impl SubFlags {
    /// No flag set.
    pub open spec fn none() -> SubFlags {
        SubFlags {
            global: false,
            confirm: false,
            ignore_case: false,
            no_ignore_case: false,
            show_count: false,
            print_result: false,
            print_numbered: false,
            print_left_align: false,
        }
    }

    pub fn empty() -> (r: Self)
        ensures
            r == SubFlags::none(),
    {
        SubFlags {
            global: false,
            confirm: false,
            ignore_case: false,
            no_ignore_case: false,
            show_count: false,
            print_result: false,
            print_numbered: false,
            print_left_align: false,
        }
    }
}

#[derive(Debug)]
pub enum Verb {
    Delete,
    Change,
    Yank,
    Kill,
    KillPut,
    KillCycle,
    Rot13,
    /// The character to replace with.
    ReplaceChar(char),
    /// The character to replace with and how many to replace.
    ReplaceCharInplace(char, u16),
    /// How many characters to toggle.
    ToggleCaseInplace(u16),
    ToggleCaseRange,
    IncrementNumber(u16),
    DecrementNumber(u16),
    ToLower,
    ToUpper,
    Capitalize,
    Complete,
    CompleteBackward,
    Undo,
    Redo,
    RepeatLast,
    Put(Anchor),
    ReplaceMode,
    VerbatimMode,
    InsertMode,
    InsertModeLineBreak(Anchor),
    NormalMode,
    VisualMode,
    VisualModeLine,
    VisualModeBlock,
    VisualModeSelectLast,
    SearchMode,
    RevSearchMode,
    SwapVisualAnchor,
    JoinLines,
    InsertChar(char),
    Insert(String),
    Indent,
    Dedent,
    Equalize,
    AcceptLineOrNewline,
    EndOfFile,
    DeleteOrEof,
    PrintPosition,
    TransposeChar,
    TransposeWord,
    HistoryUp,
    HistoryDown,
    ClearScreen,
    ExMode,
    ShellCmd(String),
    Normal(String),
    Read(ReadSrc),
    Write(WriteDest),
    Edit(String),
    Quit,
    Substitute(String, String, SubFlags),
    RepeatSubstitute,
    RepeatGlobal,
}

impl Clone for Verb {
    fn clone(&self) -> (r: Self)
        ensures
            r == *self,
    {
        match self {
            Verb::Delete => Verb::Delete,
            Verb::Change => Verb::Change,
            Verb::Yank => Verb::Yank,
            Verb::Kill => Verb::Kill,
            Verb::KillPut => Verb::KillPut,
            Verb::KillCycle => Verb::KillCycle,
            Verb::Rot13 => Verb::Rot13,
            Verb::ReplaceChar(c) => Verb::ReplaceChar(*c),
            Verb::ReplaceCharInplace(c, n) => Verb::ReplaceCharInplace(*c, *n),
            Verb::ToggleCaseInplace(n) => Verb::ToggleCaseInplace(*n),
            Verb::ToggleCaseRange => Verb::ToggleCaseRange,
            Verb::IncrementNumber(n) => Verb::IncrementNumber(*n),
            Verb::DecrementNumber(n) => Verb::DecrementNumber(*n),
            Verb::ToLower => Verb::ToLower,
            Verb::ToUpper => Verb::ToUpper,
            Verb::Capitalize => Verb::Capitalize,
            Verb::Complete => Verb::Complete,
            Verb::CompleteBackward => Verb::CompleteBackward,
            Verb::Undo => Verb::Undo,
            Verb::Redo => Verb::Redo,
            Verb::RepeatLast => Verb::RepeatLast,
            Verb::Put(a) => Verb::Put(*a),
            Verb::ReplaceMode => Verb::ReplaceMode,
            Verb::VerbatimMode => Verb::VerbatimMode,
            Verb::InsertMode => Verb::InsertMode,
            Verb::InsertModeLineBreak(a) => Verb::InsertModeLineBreak(*a),
            Verb::NormalMode => Verb::NormalMode,
            Verb::VisualMode => Verb::VisualMode,
            Verb::VisualModeLine => Verb::VisualModeLine,
            Verb::VisualModeBlock => Verb::VisualModeBlock,
            Verb::VisualModeSelectLast => Verb::VisualModeSelectLast,
            Verb::SearchMode => Verb::SearchMode,
            Verb::RevSearchMode => Verb::RevSearchMode,
            Verb::SwapVisualAnchor => Verb::SwapVisualAnchor,
            Verb::JoinLines => Verb::JoinLines,
            Verb::InsertChar(c) => Verb::InsertChar(*c),
            Verb::Insert(s) => Verb::Insert(s.clone()),
            Verb::Indent => Verb::Indent,
            Verb::Dedent => Verb::Dedent,
            Verb::Equalize => Verb::Equalize,
            Verb::AcceptLineOrNewline => Verb::AcceptLineOrNewline,
            Verb::EndOfFile => Verb::EndOfFile,
            Verb::DeleteOrEof => Verb::DeleteOrEof,
            Verb::PrintPosition => Verb::PrintPosition,
            Verb::TransposeChar => Verb::TransposeChar,
            Verb::TransposeWord => Verb::TransposeWord,
            Verb::HistoryUp => Verb::HistoryUp,
            Verb::HistoryDown => Verb::HistoryDown,
            Verb::ClearScreen => Verb::ClearScreen,
            Verb::ExMode => Verb::ExMode,
            Verb::ShellCmd(s) => Verb::ShellCmd(s.clone()),
            Verb::Normal(s) => Verb::Normal(s.clone()),
            Verb::Read(s) => Verb::Read(s.clone()),
            Verb::Write(d) => Verb::Write(d.clone()),
            Verb::Edit(s) => Verb::Edit(s.clone()),
            Verb::Quit => Verb::Quit,
            Verb::Substitute(a, b, f) => Verb::Substitute(a.clone(), b.clone(), *f),
            Verb::RepeatSubstitute => Verb::RepeatSubstitute,
            Verb::RepeatGlobal => Verb::RepeatGlobal,
        }
    }
}

/// The verbs that the repeat command can repeat.
pub open spec fn repeatable(v: Verb) -> bool {
    v is Delete || v is Change || v is ReplaceChar || v is ReplaceCharInplace || v is ToLower
        || v is ToUpper || v is ToggleCaseRange || v is ToggleCaseInplace || v is Put
        || v is ReplaceMode || v is InsertModeLineBreak || v is JoinLines || v is InsertChar
        || v is Insert || v is Indent || v is Dedent || v is Equalize
}

/// The verbs that edit the buffer.
pub open spec fn edits(v: Verb) -> bool {
    v is Delete || v is Change || v is ReplaceChar || v is ReplaceCharInplace
        || v is ToggleCaseRange || v is ToggleCaseInplace || v is ToLower || v is ToUpper
        || v is RepeatLast || v is Put || v is ReplaceMode || v is InsertModeLineBreak
        || v is JoinLines || v is InsertChar || v is Insert || v is Dedent || v is Indent
        || v is Equalize || v is Rot13 || v is EndOfFile || v is IncrementNumber
        || v is DecrementNumber
}

impl Verb {
    pub fn is_repeatable(&self) -> (r: bool)
        ensures
            r == repeatable(*self),
    {
        match self {
            Verb::Delete
            | Verb::Change
            | Verb::ReplaceChar(_)
            | Verb::ReplaceCharInplace(_, _)
            | Verb::ToLower
            | Verb::ToUpper
            | Verb::ToggleCaseRange
            | Verb::ToggleCaseInplace(_)
            | Verb::Put(_)
            | Verb::ReplaceMode
            | Verb::InsertModeLineBreak(_)
            | Verb::JoinLines
            | Verb::InsertChar(_)
            | Verb::Insert(_)
            | Verb::Indent
            | Verb::Dedent
            | Verb::Equalize => true,
            _ => false,
        }
    }

    pub fn is_edit(&self) -> (r: bool)
        ensures
            r == edits(*self),
    {
        match self {
            Verb::Delete
            | Verb::Change
            | Verb::ReplaceChar(_)
            | Verb::ReplaceCharInplace(_, _)
            | Verb::ToggleCaseRange
            | Verb::ToggleCaseInplace(_)
            | Verb::ToLower
            | Verb::ToUpper
            | Verb::RepeatLast
            | Verb::Put(_)
            | Verb::ReplaceMode
            | Verb::InsertModeLineBreak(_)
            | Verb::JoinLines
            | Verb::InsertChar(_)
            | Verb::Insert(_)
            | Verb::Dedent
            | Verb::Indent
            | Verb::Equalize
            | Verb::Rot13
            | Verb::EndOfFile
            | Verb::IncrementNumber(_)
            | Verb::DecrementNumber(_) => true,
            _ => false,
        }
    }

    pub fn is_char_insert(&self) -> (r: bool)
        ensures
            r == (*self is InsertChar || *self is ReplaceChar),
    {
        match self {
            Verb::InsertChar(_) | Verb::ReplaceChar(_) => true,
            _ => false,
        }
    }
}

#[derive(Debug)]
pub enum Motion {
    WholeLine,
    TextObj(TextObj),
    EndOfLastWord,
    StartOfFirstWord,
    StartOfLine,
    EndOfLine,
    WordMotion(To, Word, Direction),
    CharSearch(Direction, Dest, Grapheme),
    BackwardChar,
    ForwardChar,
    /// This motion and the next can cross line boundaries.
    BackwardCharForced,
    ForwardCharForced,
    LineUp,
    LineDown,
    WholeBuffer,
    StartOfBuffer,
    EndOfBuffer,
    ToColumn,
    ToDelimMatch,
    HalfScreenDown,
    HalfScreenUp,
    ToBrace(Direction),
    ToBracket(Direction),
    ToParen(Direction),
    CharRange(Pos, Pos),
    LineRange(usize, usize),
    BlockRange(Pos, Pos),
    RepeatMotion,
    RepeatMotionRev,
    Null,
    Global(Val),
    NotGlobal(Val),
}

/// Whether two motions are the same: the grapheme of a search counts by its
/// characters.
pub open spec fn same_motion(a: Motion, b: Motion) -> bool {
    match (a, b) {
        (Motion::CharSearch(d, e, g), Motion::CharSearch(f, h, k)) => d == f && e == h && g@ == k@,
        _ => a == b,
    }
}

impl Clone for Motion {
    fn clone(&self) -> (r: Self)
        ensures
            same_motion(r, *self),
    {
        match self {
            Motion::WholeLine => Motion::WholeLine,
            Motion::TextObj(o) => Motion::TextObj(*o),
            Motion::EndOfLastWord => Motion::EndOfLastWord,
            Motion::StartOfFirstWord => Motion::StartOfFirstWord,
            Motion::StartOfLine => Motion::StartOfLine,
            Motion::EndOfLine => Motion::EndOfLine,
            Motion::WordMotion(t, w, d) => Motion::WordMotion(*t, *w, *d),
            Motion::CharSearch(d, e, g) => Motion::CharSearch(*d, *e, g.clone()),
            Motion::BackwardChar => Motion::BackwardChar,
            Motion::ForwardChar => Motion::ForwardChar,
            Motion::BackwardCharForced => Motion::BackwardCharForced,
            Motion::ForwardCharForced => Motion::ForwardCharForced,
            Motion::LineUp => Motion::LineUp,
            Motion::LineDown => Motion::LineDown,
            Motion::WholeBuffer => Motion::WholeBuffer,
            Motion::StartOfBuffer => Motion::StartOfBuffer,
            Motion::EndOfBuffer => Motion::EndOfBuffer,
            Motion::ToColumn => Motion::ToColumn,
            Motion::ToDelimMatch => Motion::ToDelimMatch,
            Motion::HalfScreenDown => Motion::HalfScreenDown,
            Motion::HalfScreenUp => Motion::HalfScreenUp,
            Motion::ToBrace(d) => Motion::ToBrace(*d),
            Motion::ToBracket(d) => Motion::ToBracket(*d),
            Motion::ToParen(d) => Motion::ToParen(*d),
            Motion::CharRange(a, b) => Motion::CharRange(*a, *b),
            Motion::LineRange(a, b) => Motion::LineRange(*a, *b),
            Motion::BlockRange(a, b) => Motion::BlockRange(*a, *b),
            Motion::RepeatMotion => Motion::RepeatMotion,
            Motion::RepeatMotionRev => Motion::RepeatMotionRev,
            Motion::Null => Motion::Null,
            Motion::Global(v) => Motion::Global(v.clone()),
            Motion::NotGlobal(v) => Motion::NotGlobal(v.clone()),
        }
    }
}

#[derive(Debug, Clone, Copy, PartialEq, Eq, Structural)]
pub enum MotionBehavior {
    Exclusive,
    Inclusive,
    Linewise,
}

/// The motions that go over whole lines.
pub open spec fn linewise(m: Motion) -> bool {
    m is WholeLine || m is LineUp || m is LineDown
}

/// The motions whose end does not belong to the span.
pub open spec fn exclusive(m: Motion) -> bool {
    match m {
        Motion::StartOfLine => true,
        Motion::StartOfFirstWord => true,
        Motion::ToColumn => true,
        Motion::TextObj(o) => o is Sentence || o is Paragraph,
        Motion::CharSearch(d, _, _) => d == Direction::Backward,
        Motion::WordMotion(t, _, _) => t == To::Start,
        Motion::ToBrace(_) => true,
        Motion::ToBracket(_) => true,
        Motion::ToParen(_) => true,
        Motion::CharRange(_, _) => true,
        _ => false,
    }
}

impl Motion {
    pub fn behavior(&self) -> (r: MotionBehavior)
        ensures
            r == if linewise(*self) {
                MotionBehavior::Linewise
            } else if exclusive(*self) {
                MotionBehavior::Exclusive
            } else {
                MotionBehavior::Inclusive
            },
    {
        if self.is_linewise() {
            MotionBehavior::Linewise
        } else if self.is_exclusive() {
            MotionBehavior::Exclusive
        } else {
            MotionBehavior::Inclusive
        }
    }

    pub fn is_exclusive(&self) -> (r: bool)
        ensures
            r == exclusive(*self),
    {
        match self {
            Motion::StartOfLine | Motion::StartOfFirstWord | Motion::ToColumn => true,
            Motion::TextObj(TextObj::Sentence(_)) => true,
            Motion::TextObj(TextObj::Paragraph(_)) => true,
            Motion::CharSearch(Direction::Backward, _, _) => true,
            Motion::WordMotion(To::Start, _, _) => true,
            Motion::ToBrace(_) | Motion::ToBracket(_) | Motion::ToParen(_) => true,
            Motion::CharRange(_, _) => true,
            _ => false,
        }
    }

    pub fn is_linewise(&self) -> (r: bool)
        ensures
            r == linewise(*self),
    {
        match self {
            Motion::WholeLine | Motion::LineUp | Motion::LineDown => true,
            _ => false,
        }
    }
}

/// A verb and how often to apply it.
#[derive(Debug)]
pub struct VerbCmd(pub usize, pub Verb);

/// A motion and how often to make it.
#[derive(Debug)]
pub struct MotionCmd(pub usize, pub Motion);

impl Clone for VerbCmd {
    fn clone(&self) -> (r: Self)
        ensures
            r == *self,
    {
        VerbCmd(self.0, self.1.clone())
    }
}

impl Clone for MotionCmd {
    fn clone(&self) -> (r: Self)
        ensures
            r.0 == self.0,
            same_motion(r.1, self.1),
    {
        MotionCmd(self.0, self.1.clone())
    }
}

/// The other direction.
pub open spec fn opposite(d: Direction) -> Direction {
    match d {
        Direction::Forward => Direction::Backward,
        Direction::Backward => Direction::Forward,
    }
}

impl MotionCmd {
    /// A character search in the other direction.
    pub fn invert_char_motion(self) -> (r: Self)
        requires
            self.1 is CharSearch,
        ensures
            r.0 == self.0,
            self.1 matches Motion::CharSearch(d, e, g) && r.1 == Motion::CharSearch(
                opposite(d),
                e,
                g,
            ),
    {
        let MotionCmd(count, motion) = self;
        match motion {
            Motion::CharSearch(d, e, g) => {
                let n = match d {
                    Direction::Forward => Direction::Backward,
                    Direction::Backward => Direction::Forward,
                };
                MotionCmd(count, Motion::CharSearch(n, e, g))
            },
            m => MotionCmd(count, m),
        }
    }
}

/// Inverting a search twice gives the search back.
pub proof fn opposite_undoes_itself(d: Direction)
    ensures
        opposite(opposite(d)) == d,
{
}

/// The register that a command names, how often, and whether to append to it.
#[derive(Debug, Clone, Copy, PartialEq, Eq, Structural)]
pub struct RegisterName {
    name: Option<char>,
    count: usize,
    append: bool,
}

impl Default for RegisterName {
    fn default() -> (r: Self)
        ensures
            r.named() == None::<char>,
            r.counted() == 1,
            !r.appends(),
    {
        RegisterName { name: None, count: 1, append: false }
    }
}

impl RegisterName {
    /// The register's letter.
    pub closed spec fn named(self) -> Option<char> {
        self.name
    }

    /// How often.
    pub closed spec fn counted(self) -> usize {
        self.count
    }

    /// Whether to append.
    pub closed spec fn appends(self) -> bool {
        self.append
    }

    /// The register of a letter. An upper-case letter appends to the register
    /// of the lower-case one.
    pub fn new(name: Option<char>, count: Option<usize>) -> (r: Self)
        ensures
            match name {
                None => r.named() == None::<char> && r.counted() == 1 && !r.appends(),
                Some(c) => {
                    &&& r.named() == Some(unicode::to_lower_ascii(c))
                    &&& r.counted() == (match count {
                        Some(n) => n,
                        None => 1,
                    })
                    &&& r.appends() == unicode::uppercase(c)
                },
            },
    {
        let ch = match name {
            Some(c) => c,
            None => return RegisterName::default(),
        };
        let count: usize = match count {
            Some(n) => n,
            None => 1,
        };
        RegisterName { name: Some(ascii_lowered(ch)), count, append: ch.is_uppercase() }
    }

    pub fn name(&self) -> (r: Option<char>)
        ensures
            r == self.named(),
    {
        self.name
    }

    pub fn is_append(&self) -> (r: bool)
        ensures
            r == self.appends(),
    {
        self.append
    }

    pub fn count(&self) -> (r: usize)
        ensures
            r == self.counted(),
    {
        self.count
    }

    /// The letter as it was typed: upper case for appending.
    pub fn display(self) -> (r: Option<char>)
        ensures
            r == match self.named() {
                None => None,
                Some(c) => Some(if self.appends() {
                    unicode::to_upper_ascii(c)
                } else {
                    c
                }),
            },
    {
        match self.name {
            None => None,
            Some(c) => if self.append {
                Some(ascii_uppered(c))
            } else {
                Some(c)
            },
        }
    }

    pub fn is_none(self) -> (r: bool)
        ensures
            r == (self.named() is None),
    {
        self.name.is_none()
    }
}

/// How a command was given.
#[derive(Debug, Clone, Copy, PartialEq, Eq, Structural)]
pub struct CmdFlags {
    pub visual: bool,
    pub visual_line: bool,
    pub visual_block: bool,
    pub exit_cur_mode: bool,
    pub is_ex_cmd: bool,
    pub has_shift: bool,
    pub has_ctrl: bool,
}

impl CmdFlags {
    /// No flag set.
    pub open spec fn none() -> CmdFlags {
        CmdFlags {
            visual: false,
            visual_line: false,
            visual_block: false,
            exit_cur_mode: false,
            is_ex_cmd: false,
            has_shift: false,
            has_ctrl: false,
        }
    }

    pub fn empty() -> (r: Self)
        ensures
            r == CmdFlags::none(),
    {
        CmdFlags {
            visual: false,
            visual_line: false,
            visual_block: false,
            exit_cur_mode: false,
            is_ex_cmd: false,
            has_shift: false,
            has_ctrl: false,
        }
    }
}

/// A command for the buffer.
#[derive(Debug)]
pub struct EditCmd {
    pub register: RegisterName,
    pub verb: Option<VerbCmd>,
    pub motion: Option<MotionCmd>,
    pub raw_seq: String,
    pub flags: CmdFlags,
}

/// The command as the vi modes name it.
pub type ViCmd = EditCmd;

/// Whether two optional motions are the same.
pub open spec fn same_motion_cmd(a: Option<MotionCmd>, b: Option<MotionCmd>) -> bool {
    match (a, b) {
        (Some(x), Some(y)) => x.0 == y.0 && same_motion(x.1, y.1),
        (None, None) => true,
        _ => false,
    }
}

/// Whether two commands are the same.
pub open spec fn same_cmd(a: EditCmd, b: EditCmd) -> bool {
    &&& a.register == b.register
    &&& a.verb == b.verb
    &&& same_motion_cmd(a.motion, b.motion)
    &&& a.raw_seq == b.raw_seq
    &&& a.flags == b.flags
}

impl Clone for EditCmd {
    fn clone(&self) -> (r: Self)
        ensures
            same_cmd(r, *self),
    {
        let verb = match &self.verb {
            Some(v) => Some(v.clone()),
            None => None,
        };
        let motion = match &self.motion {
            Some(m) => Some(m.clone()),
            None => None,
        };
        EditCmd {
            register: self.register,
            verb,
            motion,
            raw_seq: self.raw_seq.clone(),
            flags: self.flags,
        }
    }
}

impl Default for EditCmd {
    fn default() -> (r: Self)
        ensures
            r.is_blank(),
    {
        EditCmd {
            register: RegisterName::default(),
            verb: None,
            motion: None,
            raw_seq: String::new(),
            flags: CmdFlags::empty(),
        }
    }
}

impl EditCmd {
    /// A command that does nothing.
    pub open spec fn is_blank(self) -> bool {
        &&& self.register.named() == None::<char>
        &&& self.register.counted() == 1
        &&& !self.register.appends()
        &&& self.verb is None
        &&& self.motion is None
        &&& self.raw_seq@ == Seq::<char>::empty()
        &&& self.flags == CmdFlags::none()
    }

    pub fn new() -> (r: Self)
        ensures
            r.is_blank(),
    {
        EditCmd::default()
    }

    pub fn set_motion(&mut self, motion: MotionCmd)
        ensures
            *final(self) == (EditCmd { motion: Some(motion), ..*old(self) }),
    {
        self.motion = Some(motion);
    }

    pub fn set_verb(&mut self, verb: VerbCmd)
        ensures
            *final(self) == (EditCmd { verb: Some(verb), ..*old(self) }),
    {
        self.verb = Some(verb);
    }

    pub fn verb(&self) -> (r: Option<&VerbCmd>)
        ensures
            r == (match self.verb {
                Some(v) => Some(&v),
                None => None,
            }),
    {
        self.verb.as_ref()
    }

    pub fn motion(&self) -> (r: Option<&MotionCmd>)
        ensures
            r == (match self.motion {
                Some(m) => Some(&m),
                None => None,
            }),
    {
        self.motion.as_ref()
    }

    pub fn verb_count(&self) -> (r: usize)
        ensures
            r == (match self.verb {
                Some(v) => v.0,
                None => 1,
            }),
    {
        match &self.verb {
            Some(v) => v.0,
            None => 1,
        }
    }

    pub fn motion_count(&self) -> (r: usize)
        ensures
            r == (match self.motion {
                Some(m) => m.0,
                None => 1,
            }),
    {
        match &self.motion {
            Some(m) => m.0,
            None => 1,
        }
    }

    /// Moves the count of the verb to the motion: `2d3w` is `d6w`.
    pub fn normalize_counts(&mut self)
        requires
            old(self).verb is Some && old(self).motion is Some ==> (old(self).verb->0).0
                * (old(self).motion->0).0 <= usize::MAX,
        ensures
            old(self).verb is None || old(self).motion is None ==> *final(self) == *old(self),
            old(self).verb is Some && old(self).motion is Some ==> *final(self) == (EditCmd {
                verb: Some(VerbCmd(1, (old(self).verb->0).1)),
                motion: Some(
                    MotionCmd(
                        ((old(self).verb->0).0 * (old(self).motion->0).0) as usize,
                        (old(self).motion->0).1,
                    ),
                ),
                ..*old(self)
            }),
    {
        let v_count: usize = match &self.verb {
            Some(v) => v.0,
            None => return,
        };
        let m_count: usize = match &self.motion {
            Some(m) => m.0,
            None => return,
        };
        let product: usize = v_count * m_count;
        let verb = self.verb.take();
        let motion = self.motion.take();
        if let Some(v) = verb {
            self.verb = Some(VerbCmd(1, v.1));
        }
        if let Some(m) = motion {
            self.motion = Some(MotionCmd(product, m.1));
        }
    }

    /// The verb, if any, is one of those that hold.
    pub open spec fn verb_is(self, f: spec_fn(Verb) -> bool) -> bool {
        self.verb is Some && f((self.verb->0).1)
    }

    /// The motion, if any, is one of those that hold.
    pub open spec fn motion_is(self, f: spec_fn(Motion) -> bool) -> bool {
        self.motion is Some && f((self.motion->0).1)
    }

    pub fn is_repeatable(&self) -> (r: bool)
        ensures
            r == self.verb_is(|v: Verb| repeatable(v)),
    {
        match &self.verb {
            Some(v) => v.1.is_repeatable(),
            None => false,
        }
    }

    pub fn is_cmd_repeat(&self) -> (r: bool)
        ensures
            r == self.verb_is(|v: Verb| v is RepeatLast),
    {
        match &self.verb {
            Some(VerbCmd(_, Verb::RepeatLast)) => true,
            _ => false,
        }
    }

    /// Whether the command scrolls through the history without leaving the
    /// line, where the shell is set to concatenate history entries.
    pub fn is_virtual_scroll(&self, hist_cat: bool) -> (r: bool)
        ensures
            r == (hist_cat && self.verb is None && self.motion_is(
                |m: Motion| m is LineUp || m is LineDown,
            ) && (self.flags.has_shift || self.flags.has_ctrl)),
    {
        hist_cat && self.verb.is_none() && self.is_line_motion() && (self.flags.has_shift
            || self.flags.has_ctrl)
    }

    pub fn is_motion_repeat(&self) -> (r: bool)
        ensures
            r == self.motion_is(|m: Motion| m is RepeatMotion || m is RepeatMotionRev),
    {
        match &self.motion {
            Some(MotionCmd(_, Motion::RepeatMotion)) => true,
            Some(MotionCmd(_, Motion::RepeatMotionRev)) => true,
            _ => false,
        }
    }

    pub fn is_char_search(&self) -> (r: bool)
        ensures
            r == self.motion_is(|m: Motion| m is CharSearch),
    {
        match &self.motion {
            Some(MotionCmd(_, Motion::CharSearch(_, _, _))) => true,
            _ => false,
        }
    }

    pub fn is_submit_action(&self) -> (r: bool)
        ensures
            r == self.verb_is(|v: Verb| v is AcceptLineOrNewline),
    {
        match &self.verb {
            Some(VerbCmd(_, Verb::AcceptLineOrNewline)) => true,
            _ => false,
        }
    }

    pub fn is_undo_op(&self) -> (r: bool)
        ensures
            r == self.verb_is(|v: Verb| v is Undo || v is Redo),
    {
        match &self.verb {
            Some(VerbCmd(_, Verb::Undo)) => true,
            Some(VerbCmd(_, Verb::Redo)) => true,
            _ => false,
        }
    }

    pub fn is_inplace_edit(&self) -> (r: bool)
        ensures
            r == (self.verb_is(|v: Verb| v is ReplaceCharInplace || v is ToggleCaseInplace)
                && self.motion is None),
    {
        match &self.verb {
            Some(VerbCmd(_, Verb::ReplaceCharInplace(_, _))) => self.motion.is_none(),
            Some(VerbCmd(_, Verb::ToggleCaseInplace(_))) => self.motion.is_none(),
            _ => false,
        }
    }

    pub fn is_line_motion(&self) -> (r: bool)
        ensures
            r == self.motion_is(|m: Motion| m is LineUp || m is LineDown),
    {
        match &self.motion {
            Some(MotionCmd(_, Motion::LineUp)) => true,
            Some(MotionCmd(_, Motion::LineDown)) => true,
            _ => false,
        }
    }

    /// Whether the command changes the edit mode.
    pub open spec fn changes_mode(self) -> bool {
        self.verb is Some && ({
            let v = (self.verb->0).1;
            v is Change || v is VerbatimMode || v is ExMode || v is InsertMode
                || v is InsertModeLineBreak || v is NormalMode || v is VisualModeSelectLast
                || v is VisualMode || v is VisualModeLine || v is ReplaceMode
                || self.flags.exit_cur_mode
        })
    }

    pub fn is_mode_transition(&self) -> (r: bool)
        ensures
            r == self.changes_mode(),
    {
        match &self.verb {
            None => false,
            Some(v) => match &v.1 {
                Verb::Change
                | Verb::VerbatimMode
                | Verb::ExMode
                | Verb::InsertMode
                | Verb::InsertModeLineBreak(_)
                | Verb::NormalMode
                | Verb::VisualModeSelectLast
                | Verb::VisualMode
                | Verb::VisualModeLine
                | Verb::ReplaceMode => true,
                _ => self.flags.exit_cur_mode,
            },
        }
    }
}

} // verus!
