//! Colours for a command line whose parts are marked.

use crate::markers;
use crate::markers::is_marker;
use crate::markers::is_visual;
use crate::markers::strip_chars;
use crate::markers::strip_chars_keep_visual;
use crate::shopt::ShOptHighlight;
use crate::styling;
use crate::text;
use crate::text::chars_of;
use crate::text::chars_start_with;
use crate::text::owned;
use crate::text::push_chars;
use crate::text::same_str;
use crate::text::str_starts_with;
use crate::text::string_of;
use crate::text::sub_chars;
use crate::unicode;
use vstd::prelude::*;

verus! {

/// What stands behind a key in a table, from the `i`-th entry on.
pub open spec fn entry(table: Seq<(String, String)>, key: Seq<char>, i: int) -> Option<Seq<char>>
    decreases table.len() - i,
{
    if i < 0 || i >= table.len() {
        None
    } else if table[i].0@ == key {
        Some(table[i].1@)
    } else {
        entry(table, key, i + 1)
    }
}

fn find_entry(table: &[(String, String)], key: &str) -> (r: Option<String>)
    ensures
        match entry(table@, key@, 0) {
            Some(v) => r is Some && r->0@ == v,
            None => r is None,
        },
{
    let mut i: usize = 0;
    while i < table.len()
        invariant
            i <= table@.len(),
            entry(table@, key@, 0) == entry(table@, key@, i as int),
        decreases table@.len() - i,
    {
        if same_str(table[i].0.as_str(), key) {
            return Some(table[i].1.clone());
        }
        i = i + 1;
    }
    None
}

/// Whether a word is in a list.
pub open spec fn listed(list: Seq<String>, word: Seq<char>) -> bool {
    exists|i: int| 0 <= i < list.len() && (#[trigger] list[i])@ == word
}

fn is_listed(list: &[String], word: &str) -> (r: bool)
    ensures
        r == listed(list@, word@),
{
    let mut i: usize = 0;
    while i < list.len()
        invariant
            i <= list@.len(),
            forall|k: int| 0 <= k < i ==> (#[trigger] list@[k])@ != word@,
        decreases list@.len() - i,
    {
        if same_str(list[i].as_str(), word) {
            assert(list@[i as int]@ == word@);
            return true;
        }
        i = i + 1;
    }
    false
}

/// The text with every `\e` made an escape character, from the `i`-th character
/// on.
pub open spec fn unescaped(s: Seq<char>, i: int) -> Seq<char>
    decreases s.len() - i,
{
    if i < 0 || i >= s.len() {
        Seq::empty()
    } else if i + 1 < s.len() && s[i] == '\\' && s[i + 1] == 'e' {
        seq!['\u{1b}'] + unescaped(s, i + 2)
    } else {
        seq![s[i]] + unescaped(s, i + 1)
    }
}

/// The codes of a style: written out with `\e`, or a description that is found in
/// a table of colours.
pub open spec fn style_codes(raw: Seq<char>, colors: Seq<(String, String)>) -> Option<Seq<char>> {
    if raw.len() >= 2 && raw[0] == '\\' && raw[1] == 'e' {
        Some(unescaped(raw, 0))
    } else {
        entry(colors, raw, 0)
    }
}

/// Whether a result is a style.
pub open spec fn is_style(r: Option<String>, codes: Option<Seq<char>>) -> bool {
    match codes {
        Some(c) => r is Some && r->0@ == c,
        None => r is None,
    }
}

fn unescape(v: &[char]) -> (r: String)
    ensures
        r@ == unescaped(v@, 0),
{
    let mut out: String = String::new();
    let mut i: usize = 0;
    assert(out@ + unescaped(v@, 0) =~= unescaped(v@, 0));
    while i < v.len()
        invariant
            i <= v@.len(),
            out@ + unescaped(v@, i as int) == unescaped(v@, 0),
        decreases v@.len() - i,
    {
        let ghost was = out@;
        if i + 1 < v.len() && v[i] == '\\' && v[i + 1] == 'e' {
            out.push('\u{1b}');
            i = i + 2;
            assert(was + (seq!['\u{1b}'] + unescaped(v@, i as int)) =~= out@ + unescaped(
                v@,
                i as int,
            ));
        } else {
            out.push(v[i]);
            i = i + 1;
            assert(was + (seq![v@[i - 1]] + unescaped(v@, i as int)) =~= out@ + unescaped(
                v@,
                i as int,
            ));
        }
    }
    assert(out@ + unescaped(v@, i as int) =~= out@);
    out
}

/// The codes of a style, if it can be resolved.
pub fn resolve_style(raw: &str, colors: &[(String, String)]) -> (r: Option<String>)
    ensures
        is_style(r, style_codes(raw@, colors@)),
{
    let v = chars_of(raw);
    if v.len() >= 2 && v[0] == '\\' && v[1] == 'e' {
        Some(unescape(v.as_slice()))
    } else {
        find_entry(colors, raw)
    }
}

pub fn string_style(o: &ShOptHighlight, colors: &[(String, String)]) -> (r: Option<String>)
    ensures
        is_style(r, style_codes(o.string@, colors@)),
{
    resolve_style(o.string.as_str(), colors)
}

pub fn keyword_style(o: &ShOptHighlight, colors: &[(String, String)]) -> (r: Option<String>)
    ensures
        is_style(r, style_codes(o.keyword@, colors@)),
{
    resolve_style(o.keyword.as_str(), colors)
}

pub fn valid_command_style(o: &ShOptHighlight, colors: &[(String, String)]) -> (r: Option<String>)
    ensures
        is_style(r, style_codes(o.valid_command@, colors@)),
{
    resolve_style(o.valid_command.as_str(), colors)
}

pub fn invalid_command_style(o: &ShOptHighlight, colors: &[(String, String)]) -> (r: Option<String>)
    ensures
        is_style(r, style_codes(o.invalid_command@, colors@)),
{
    resolve_style(o.invalid_command.as_str(), colors)
}

pub fn control_flow_style(o: &ShOptHighlight, colors: &[(String, String)]) -> (r: Option<String>)
    ensures
        is_style(r, style_codes(o.control_flow_keyword@, colors@)),
{
    resolve_style(o.control_flow_keyword.as_str(), colors)
}

pub fn argument_style(o: &ShOptHighlight, colors: &[(String, String)]) -> (r: Option<String>)
    ensures
        is_style(r, style_codes(o.argument@, colors@)),
{
    resolve_style(o.argument.as_str(), colors)
}

pub fn argument_file_style(o: &ShOptHighlight, colors: &[(String, String)]) -> (r: Option<String>)
    ensures
        is_style(r, style_codes(o.argument_file@, colors@)),
{
    resolve_style(o.argument_file.as_str(), colors)
}

pub fn variable_style(o: &ShOptHighlight, colors: &[(String, String)]) -> (r: Option<String>)
    ensures
        is_style(r, style_codes(o.variable@, colors@)),
{
    resolve_style(o.variable.as_str(), colors)
}

pub fn operator_style(o: &ShOptHighlight, colors: &[(String, String)]) -> (r: Option<String>)
    ensures
        is_style(r, style_codes(o.operator@, colors@)),
{
    resolve_style(o.operator.as_str(), colors)
}

pub fn comment_style(o: &ShOptHighlight, colors: &[(String, String)]) -> (r: Option<String>)
    ensures
        is_style(r, style_codes(o.comment@, colors@)),
{
    resolve_style(o.comment.as_str(), colors)
}

pub fn glob_style(o: &ShOptHighlight, colors: &[(String, String)]) -> (r: Option<String>)
    ensures
        is_style(r, style_codes(o.glob@, colors@)),
{
    resolve_style(o.glob.as_str(), colors)
}

pub fn selection_style(o: &ShOptHighlight, colors: &[(String, String)]) -> (r: Option<String>)
    ensures
        is_style(r, style_codes(o.selection@, colors@)),
{
    resolve_style(o.selection.as_str(), colors)
}

/// The codes of every style.
pub struct HighlightTheme {
    pub string: String,
    pub keyword: String,
    pub valid_command: String,
    pub invalid_command: String,
    pub control_flow: String,
    pub argument: String,
    pub argument_file: String,
    pub variable: String,
    pub operator: String,
    pub comment: String,
    pub glob: String,
    pub selection: String,
}

/// The codes of a style, or of the style in its place; none where that cannot be
/// resolved either.
pub open spec fn codes_or(raw: Seq<char>, instead: Seq<char>, colors: Seq<(String, String)>) -> Seq<
    char,
> {
    match style_codes(raw, colors) {
        Some(c) => c,
        None => match style_codes(instead, colors) {
            Some(c) => c,
            None => Seq::empty(),
        },
    }
}

/// Which of the first `n` styles cannot be resolved.
pub open spec fn unresolved(raws: Seq<Seq<char>>, colors: Seq<(String, String)>, n: int) -> Seq<
    Seq<char>,
>
    decreases n,
{
    if n <= 0 {
        Seq::empty()
    } else if style_codes(raws[n - 1], colors) is None {
        unresolved(raws, colors, n - 1).push(raws[n - 1])
    } else {
        unresolved(raws, colors, n - 1)
    }
}

/// The texts of a list.
pub open spec fn texts(list: Seq<String>) -> Seq<Seq<char>> {
    Seq::new(list.len(), |i: int| list[i]@)
}

fn try_or(
    raw: &str,
    instead: &str,
    colors: &[(String, String)],
    errors: &mut Vec<String>,
    Ghost(raws): Ghost<Seq<Seq<char>>>,
    Ghost(n): Ghost<int>,
) -> (r: String)
    requires
        0 <= n < raws.len(),
        raws[n] == raw@,
        texts(old(errors)@) == unresolved(raws, colors@, n),
    ensures
        r@ == codes_or(raw@, instead@, colors@),
        texts(final(errors)@) == unresolved(raws, colors@, n + 1),
{
    match resolve_style(raw, colors) {
        Some(c) => c,
        None => {
            errors.push(owned(raw));
            assert(texts(errors@) =~= texts(old(errors)@).push(raw@));
            match resolve_style(instead, colors) {
                Some(c) => c,
                None => {
                    let none: String = String::new();
                    assert(none@ =~= Seq::empty());
                    none
                },
            }
        },
    }
}

impl HighlightTheme {
    /// The styles that options ask for, in order.
    pub open spec fn asked(o: ShOptHighlight) -> Seq<Seq<char>> {
        seq![
            o.string@,
            o.keyword@,
            o.valid_command@,
            o.invalid_command@,
            o.control_flow_keyword@,
            o.argument@,
            o.argument_file@,
            o.variable@,
            o.operator@,
            o.comment@,
            o.glob@,
            o.selection@,
        ]
    }

    /// The theme that options ask for, and the styles of it that cannot be resolved.
    /// In the place of such a style stands the one that the shell has by itself.
    pub fn resolve(o: &ShOptHighlight, colors: &[(String, String)]) -> (r: (Self, Vec<String>))
        ensures
            (r.0).string@ == codes_or(o.string@, "yellow"@, colors@),
            (r.0).keyword@ == codes_or(o.keyword@, "yellow"@, colors@),
            (r.0).valid_command@ == codes_or(o.valid_command@, "green"@, colors@),
            (r.0).invalid_command@ == codes_or(o.invalid_command@, "bold red"@, colors@),
            (r.0).control_flow@ == codes_or(o.control_flow_keyword@, "magenta"@, colors@),
            (r.0).argument@ == codes_or(o.argument@, "white"@, colors@),
            (r.0).argument_file@ == codes_or(o.argument_file@, "underline white"@, colors@),
            (r.0).variable@ == codes_or(o.variable@, "cyan"@, colors@),
            (r.0).operator@ == codes_or(o.operator@, "bold"@, colors@),
            (r.0).comment@ == codes_or(o.comment@, "italic bright black"@, colors@),
            (r.0).glob@ == codes_or(o.glob@, "bright cyan"@, colors@),
            (r.0).selection@ == codes_or(o.selection@, "black on white"@, colors@),
            texts((r.1)@) == unresolved(HighlightTheme::asked(*o), colors@, 12),
    {
        let mut errors: Vec<String> = Vec::new();
        let ghost raws = HighlightTheme::asked(*o);
        assert(texts(errors@) =~= Seq::empty());
        let string = try_or(
            o.string.as_str(),
            "yellow",
            colors,
            &mut errors,
            Ghost(raws),
            Ghost(0),
        );
        let keyword = try_or(
            o.keyword.as_str(),
            "yellow",
            colors,
            &mut errors,
            Ghost(raws),
            Ghost(1),
        );
        let valid_command = try_or(
            o.valid_command.as_str(),
            "green",
            colors,
            &mut errors,
            Ghost(raws),
            Ghost(2),
        );
        let invalid_command = try_or(
            o.invalid_command.as_str(),
            "bold red",
            colors,
            &mut errors,
            Ghost(raws),
            Ghost(3),
        );
        let control_flow = try_or(
            o.control_flow_keyword.as_str(),
            "magenta",
            colors,
            &mut errors,
            Ghost(raws),
            Ghost(4),
        );
        let argument = try_or(
            o.argument.as_str(),
            "white",
            colors,
            &mut errors,
            Ghost(raws),
            Ghost(5),
        );
        let argument_file = try_or(
            o.argument_file.as_str(),
            "underline white",
            colors,
            &mut errors,
            Ghost(raws),
            Ghost(6),
        );
        let variable = try_or(
            o.variable.as_str(),
            "cyan",
            colors,
            &mut errors,
            Ghost(raws),
            Ghost(7),
        );
        let operator = try_or(
            o.operator.as_str(),
            "bold",
            colors,
            &mut errors,
            Ghost(raws),
            Ghost(8),
        );
        let comment = try_or(
            o.comment.as_str(),
            "italic bright black",
            colors,
            &mut errors,
            Ghost(raws),
            Ghost(9),
        );
        let glob = try_or(
            o.glob.as_str(),
            "bright cyan",
            colors,
            &mut errors,
            Ghost(raws),
            Ghost(10),
        );
        let selection = try_or(
            o.selection.as_str(),
            "black on white",
            colors,
            &mut errors,
            Ghost(raws),
            Ghost(11),
        );
        let theme = HighlightTheme {
            string,
            keyword,
            valid_command,
            invalid_command,
            control_flow,
            argument,
            argument_file,
            variable,
            operator,
            comment,
            glob,
            selection,
        };
        (theme, errors)
    }
}

/// What the highlighter looks up: marked texts of what stands inside
/// substitutions, the commands that there are, and the arguments that name files.
pub struct Known {
    pub annotated: Vec<(String, String)>,
    pub commands: Vec<String>,
    pub files: Vec<String>,
}

impl Known {
    /// A text with its parts marked; the text itself where that is not known.
    pub open spec fn noted(self, content: Seq<char>) -> Seq<char> {
        match entry(self.annotated@, content, 0) {
            Some(a) => a,
            None => content,
        }
    }

    fn note(&self, content: &str) -> (r: String)
        ensures
            r@ == self.noted(content@),
    {
        match find_entry(self.annotated.as_slice(), content) {
            Some(a) => a,
            None => owned(content),
        }
    }
}

/// What is known of a path.
pub struct CommandFacts {
    pub is_dir: bool,
    /// The permissions, where it is there.
    pub mode: Option<u32>,
    /// Whether it is among the commands that the shell remembers.
    pub cached: bool,
}

/// Whether a path starts at the root.
pub open spec fn absolute(p: Seq<char>) -> bool {
    p.len() > 0 && p[0] == '/'
}

fn is_absolute(p: &str) -> (r: bool)
    ensures
        r == absolute(p@),
{
    let v = chars_of(p);
    v.len() > 0 && v[0] == '/'
}

/// Whether a command can be run: a directory where one may be entered by its
/// name, a file that somebody may execute, or a command that is remembered.
pub open spec fn runnable(command: Seq<char>, facts: CommandFacts, autocd: bool) -> bool {
    if facts.is_dir && autocd {
        true
    } else if absolute(command) {
        facts.mode matches Some(m) && m & 0o111 != 0
    } else {
        facts.cached
    }
}

/// Whether a command can be run.
pub fn is_valid(command: &str, facts: &CommandFacts, autocd: bool) -> (r: bool)
    ensures
        r == runnable(command@, *facts, autocd),
{
    if facts.is_dir && autocd {
        true
    } else if is_absolute(command) {
        match facts.mode {
            Some(m) => m & 0o111 != 0,
            None => false,
        }
    } else {
        facts.cached
    }
}

/// What is known of an argument as a path.
pub struct FileFacts {
    pub exists: bool,
    /// What is in its directory, where that can be read.
    pub siblings: Option<Vec<String>>,
    /// Its last part, if it has one.
    pub file_name: Option<String>,
    /// The files of the directory that the shell is in.
    pub cached: Vec<String>,
}

/// Whether a name in a list starts with a text.
pub open spec fn begins_one(list: Seq<String>, p: Seq<char>) -> bool {
    exists|i: int| 0 <= i < list.len() && text::has_prefix((#[trigger] list[i])@, p)
}

fn does_begin_one(list: &Vec<String>, p: &str) -> (r: bool)
    ensures
        r == begins_one(list@, p@),
{
    let mut i: usize = 0;
    while i < list.len()
        invariant
            i <= list@.len(),
            forall|k: int| 0 <= k < i ==> !text::has_prefix((#[trigger] list@[k])@, p@),
        decreases list@.len() - i,
    {
        if str_starts_with(list[i].as_str(), p) {
            assert(text::has_prefix(list@[i as int]@, p@));
            return true;
        }
        i = i + 1;
    }
    false
}

/// Whether an argument names a file, or the beginning of one.
pub open spec fn names_file(arg: Seq<char>, facts: FileFacts) -> bool {
    if absolute(arg) && facts.exists {
        true
    } else if absolute(arg) && facts.siblings is Some {
        match facts.file_name {
            None => false,
            Some(n) => begins_one(facts.siblings->0@, n@) || begins_one(facts.cached@, arg),
        }
    } else {
        begins_one(facts.cached@, arg)
    }
}

/// Whether an argument names a file, or the beginning of one.
pub fn is_filename(arg: &str, facts: &FileFacts) -> (r: bool)
    ensures
        r == names_file(arg@, *facts),
{
    let at_root = is_absolute(arg);
    if at_root && facts.exists {
        return true;
    }
    if at_root {
        if let Some(siblings) = &facts.siblings {
            match &facts.file_name {
                None => {
                    return false;
                },
                Some(n) => {
                    if does_begin_one(siblings, n.as_str()) {
                        return true;
                    }
                },
            }
        }
    }
    does_begin_one(&facts.cached, arg)
}

/// What was put out so far, and the styles that are in force.
#[verifier::ext_equal]
pub struct Hl {
    pub out: Seq<char>,
    pub stack: Seq<Seq<char>>,
    pub was_reset: bool,
    pub sel: bool,
}

impl Hl {
    /// A style is put out.
    pub open spec fn emit(self, style: Seq<char>) -> Hl {
        Hl { out: self.out + style, was_reset: false, ..self }
    }

    /// Back to no style, unless that was the last thing put out.
    pub open spec fn emit_reset(self) -> Hl {
        if self.was_reset {
            self
        } else {
            Hl { out: self.out + "\x1b[0m"@, was_reset: true, ..self }
        }
    }

    /// A style comes on top of the others. In the selection it does not show.
    pub open spec fn pushed(self, style: Seq<char>) -> Hl {
        let a = Hl { stack: self.stack.push(style), ..self };
        if self.sel {
            a
        } else {
            a.emit(style)
        }
    }

    /// The style on top shows again.
    pub open spec fn reapplied(self) -> Hl {
        if self.stack.len() > 0 {
            self.emit(self.stack.last())
        } else {
            self.emit_reset()
        }
    }

    /// The style on top goes.
    pub open spec fn popped(self) -> Hl {
        let a = Hl {
            stack: if self.stack.len() > 0 {
                self.stack.drop_last()
            } else {
                self.stack
            },
            ..self
        };
        if self.sel {
            a
        } else {
            a.reapplied()
        }
    }

    /// All styles go.
    pub open spec fn cleared(self) -> Hl {
        let a = Hl { stack: Seq::empty(), ..self };
        if self.sel {
            a
        } else {
            a.emit_reset()
        }
    }

    /// Text is put out.
    pub open spec fn told(self, t: Seq<char>) -> Hl {
        Hl { out: self.out + t, ..self }
    }

    /// A character is put out.
    pub open spec fn shown(self, c: char) -> Hl {
        Hl { out: self.out.push(c), was_reset: false, ..self }
    }

    /// The selection starts.
    pub open spec fn selecting(self, style: Seq<char>) -> Hl {
        Hl { sel: true, ..self.emit(style) }
    }

    /// The selection ends.
    pub open spec fn deselecting(self) -> Hl {
        Hl { sel: false, ..self.reapplied() }
    }

    /// Everything that was put out, with no style left.
    pub open spec fn taken(self) -> Seq<char> {
        self.cleared().out
    }
}

/// What is read up to an end: a name that is assigned to, a reference to the
/// history, or a variable.
#[derive(Clone, Copy, PartialEq, Eq, Structural)]
pub enum Skim {
    Assign,
    Hist,
    Var,
}

impl Skim {
    /// Whether a character ends it.
    pub open spec fn ends(self, c: char) -> bool {
        match self {
            Skim::Assign => c == '=' || c == markers::RESET,
            Skim::Hist => c == markers::HIST_EXP_END,
            Skim::Var => c == markers::HIST_EXP_END || c == markers::VAR_SUB_END,
        }
    }

    fn is_end(self, c: char) -> (r: bool)
        ensures
            r == self.ends(c),
    {
        match self {
            Skim::Assign => c == '=' || c == markers::RESET,
            Skim::Hist => c == markers::HIST_EXP_END,
            Skim::Var => c == markers::HIST_EXP_END || c == markers::VAR_SUB_END,
        }
    }
}

/// What is read from `i` on up to an end, behind what was read already, and where
/// it goes on. The ends of the selection show on the way.
pub open spec fn skimmed(
    selection: Seq<char>,
    mode: Skim,
    s: Seq<char>,
    i: int,
    st: Hl,
    acc: Seq<char>,
) -> (Hl, Seq<char>, int)
    decreases s.len() - i,
{
    if i < 0 || i >= s.len() {
        (st, acc, i)
    } else if mode.ends(s[i]) {
        (
            st,
            acc,
            if s[i] == markers::RESET {
                i
            } else {
                i + 1
            },
        )
    } else if s[i] == markers::VISUAL_MODE_START {
        skimmed(selection, mode, s, i + 1, st.selecting(selection), acc)
    } else if s[i] == markers::VISUAL_MODE_END {
        skimmed(selection, mode, s, i + 1, st.deselecting(), acc)
    } else if markers::marker(s[i]) {
        skimmed(selection, mode, s, i + 1, st, acc)
    } else {
        skimmed(selection, mode, s, i + 1, st, acc.push(s[i]))
    }
}

/// Reading goes forward, and not beyond the end.
pub proof fn lemma_skimmed(
    selection: Seq<char>,
    mode: Skim,
    s: Seq<char>,
    i: int,
    st: Hl,
    acc: Seq<char>,
)
    requires
        0 <= i <= s.len(),
    ensures
        i <= skimmed(selection, mode, s, i, st, acc).2 <= s.len(),
    decreases s.len() - i,
{
    if i < s.len() && !mode.ends(s[i]) {
        if s[i] == markers::VISUAL_MODE_START {
            lemma_skimmed(selection, mode, s, i + 1, st.selecting(selection), acc);
        } else if s[i] == markers::VISUAL_MODE_END {
            lemma_skimmed(selection, mode, s, i + 1, st.deselecting(), acc);
        } else if markers::marker(s[i]) {
            lemma_skimmed(selection, mode, s, i + 1, st, acc);
        } else {
            lemma_skimmed(selection, mode, s, i + 1, st, acc.push(s[i]));
        }
    }
}

/// Where a character is found first, from `i` on; the end where it is not.
pub open spec fn place(s: Seq<char>, c: char, i: int) -> int
    decreases s.len() - i,
{
    if i < 0 || i >= s.len() || s[i] == c {
        i
    } else {
        place(s, c, i + 1)
    }
}

/// A place is not before where the search starts, and not beyond the end.
pub proof fn lemma_place(s: Seq<char>, c: char, i: int)
    requires
        0 <= i <= s.len(),
    ensures
        i <= place(s, c, i) <= s.len(),
    decreases s.len() - i,
{
    if i < s.len() && s[i] != c {
        lemma_place(s, c, i + 1);
    }
}

fn place_of(v: &[char], c: char, from: usize) -> (r: usize)
    requires
        from <= v@.len(),
    ensures
        r == place(v@, c, from as int),
        from <= r <= v@.len(),
{
    let mut i: usize = from;
    while i < v.len() && v[i] != c
        invariant
            from <= i <= v@.len(),
            place(v@, c, from as int) == place(v@, c, i as int),
        decreases v@.len() - i,
    {
        i = i + 1;
    }
    i
}

/// Whether the selection is on behind the first `n` characters.
pub open spec fn selected_after(s: Seq<char>, n: int, sel: bool) -> bool
    decreases n,
{
    if n <= 0 {
        sel
    } else if s[n - 1] == markers::VISUAL_MODE_START {
        true
    } else if s[n - 1] == markers::VISUAL_MODE_END {
        false
    } else {
        selected_after(s, n - 1, sel)
    }
}

/// Where a text goes on behind a prefix, whatever ends of the selection stand in
/// between.
pub open spec fn behind_prefix(t: Seq<char>, ti: int, p: Seq<char>, pi: int) -> Option<int>
    decreases t.len() - ti,
{
    if pi >= p.len() {
        Some(ti)
    } else if ti < 0 || ti >= t.len() {
        None
    } else if markers::visual(t[ti]) {
        behind_prefix(t, ti + 1, p, pi)
    } else if t[ti] == p[pi] {
        behind_prefix(t, ti + 1, p, pi + 1)
    } else {
        None
    }
}

/// A text without a prefix, whatever ends of the selection stand in between.
pub open spec fn without_prefix(t: Seq<char>, p: Seq<char>) -> Seq<char> {
    match behind_prefix(t, 0, p, 0) {
        Some(i) => t.skip(i),
        None => t,
    }
}

/// Where a suffix starts, whatever ends of the selection stand in between.
pub open spec fn before_suffix(t: Seq<char>, ti: int, p: Seq<char>, pi: int) -> Option<int>
    decreases ti,
{
    if pi <= 0 {
        Some(ti)
    } else if ti <= 0 {
        None
    } else if markers::visual(t[ti - 1]) {
        before_suffix(t, ti - 1, p, pi)
    } else if t[ti - 1] == p[pi - 1] {
        before_suffix(t, ti - 1, p, pi - 1)
    } else {
        None
    }
}

/// A text without a suffix, whatever ends of the selection stand in between.
pub open spec fn without_suffix(t: Seq<char>, p: Seq<char>) -> Seq<char> {
    match before_suffix(t, t.len() as int, p, p.len() as int) {
        Some(i) => t.take(i),
        None => t,
    }
}

/// Takes a prefix off a text.
pub fn strip_prefix_skip_visual(t: &[char], p: &[char]) -> (r: Vec<char>)
    ensures
        r@ == without_prefix(t@, p@),
{
    let mut ti: usize = 0;
    let mut pi: usize = 0;
    while pi < p.len()
        invariant
            ti <= t@.len(),
            pi <= p@.len(),
            behind_prefix(t@, 0, p@, 0) == behind_prefix(t@, ti as int, p@, pi as int),
        decreases t@.len() - ti, p@.len() - pi,
    {
        if ti >= t.len() {
            let all = sub_chars(t, 0, t.len());
            assert(all@ =~= t@);
            return all;
        }
        if is_visual(t[ti]) {
            ti = ti + 1;
        } else if t[ti] == p[pi] {
            ti = ti + 1;
            pi = pi + 1;
        } else {
            let all = sub_chars(t, 0, t.len());
            assert(all@ =~= t@);
            return all;
        }
    }
    let rest = sub_chars(t, ti, t.len());
    assert(rest@ =~= t@.skip(ti as int));
    rest
}

/// Takes a suffix off a text.
pub fn strip_suffix_skip_visual(t: &[char], p: &[char]) -> (r: Vec<char>)
    ensures
        r@ == without_suffix(t@, p@),
{
    let mut ti: usize = t.len();
    let mut pi: usize = p.len();
    while pi > 0
        invariant
            ti <= t@.len(),
            pi <= p@.len(),
            before_suffix(t@, t@.len() as int, p@, p@.len() as int) == before_suffix(
                t@,
                ti as int,
                p@,
                pi as int,
            ),
        decreases ti, pi,
    {
        if ti == 0 {
            let all = sub_chars(t, 0, t.len());
            assert(all@ =~= t@);
            return all;
        }
        if is_visual(t[ti - 1]) {
            ti = ti - 1;
        } else if t[ti - 1] == p[pi - 1] {
            ti = ti - 1;
            pi = pi - 1;
        } else {
            let all = sub_chars(t, 0, t.len());
            assert(all@ =~= t@);
            return all;
        }
    }
    let rest = sub_chars(t, 0, ti);
    assert(rest@ =~= t@.take(ti as int));
    rest
}

/// Whether a marker starts a substitution.
pub open spec fn substitution(c: char) -> bool {
    c == markers::CMD_SUB || c == markers::SUBSH || c == markers::PROC_SUB || c
        == markers::BACKTICK_SUB
}

/// The marker that ends a substitution.
pub open spec fn end_of(c: char) -> char {
    if c == markers::CMD_SUB {
        markers::CMD_SUB_END
    } else if c == markers::SUBSH {
        markers::SUBSH_END
    } else if c == markers::PROC_SUB {
        markers::PROC_SUB_END
    } else {
        markers::BACKTICK_SUB_END
    }
}

/// How a substitution begins.
pub open spec fn opening(c: char, plain: Seq<char>) -> Seq<char> {
    if c == markers::BACKTICK_SUB {
        "`"@
    } else if c == markers::CMD_SUB {
        "$("@
    } else if c == markers::SUBSH {
        "("@
    } else if !text::has_prefix(plain, "<("@) && text::has_prefix(plain, ">("@) {
        ">("@
    } else {
        "<("@
    }
}

/// A substitution: what it begins with, what stands inside, whether its end is
/// there, and where the text goes on.
#[verifier::ext_equal]
pub struct Sub {
    pub opening: Seq<char>,
    pub inner: Seq<char>,
    pub content: Seq<char>,
    pub complete: bool,
    pub next: int,
}

/// The substitution whose marker stands before `i`.
pub open spec fn sub_at(s: Seq<char>, c: char, i: int) -> Sub {
    let e = place(s, end_of(c), i);
    let inner = s.subrange(i, e);
    let open = opening(c, markers::stripped(inner));
    let clean = without_prefix(markers::stripped_keep_visual(inner), open);
    let complete = e < s.len();
    Sub {
        opening: open,
        inner,
        content: if complete {
            without_suffix(clean, ")"@)
        } else {
            clean
        },
        complete,
        next: if complete {
            e + 1
        } else {
            e
        },
    }
}

/// What is put out before what stands inside a substitution.
pub open spec fn nest_start(sel: bool, selection: Seq<char>) -> Hl {
    let a = Hl { out: Seq::empty(), stack: Seq::empty(), was_reset: true, sel };
    if sel {
        a.emit(selection)
    } else {
        a
    }
}

/// What is put out for a substitution, where `nested` is for what stands inside.
pub open spec fn after_sub(
    selection: Seq<char>,
    operator: Seq<char>,
    st: Hl,
    nested: Hl,
    sub: Sub,
    backtick: bool,
) -> Hl {
    let a = Hl { sel: nested.sel, stack: st.stack + nested.stack, ..st };
    let b = if st.sel {
        a.emit(selection).told(sub.opening)
    } else {
        a.pushed(operator).told(sub.opening).popped()
    };
    let c = b.told(Hl { stack: Seq::empty(), ..nested }.taken());
    let d = if sub.complete {
        if backtick {
            c.pushed(operator).popped()
        } else {
            c.pushed(operator).told(seq![')']).popped()
        }
    } else {
        c
    };
    Hl { was_reset: false, ..d }
}

/// Whether a command is one of those that change where the script goes on.
pub open spec fn jumps(name: Seq<char>) -> bool {
    name == "continue"@ || name == "return"@ || name == "break"@
}

fn does_jump(name: &str) -> (r: bool)
    ensures
        r == jumps(name@),
{
    same_str(name, "continue") || same_str(name, "return") || same_str(name, "break")
}

/// Whether a marker ends a part of a word.
pub open spec fn closes(c: char) -> bool {
    c == markers::STRING_DQ_END || c == markers::STRING_SQ_END || c == markers::VAR_SUB_END || c
        == markers::CMD_SUB_END || c == markers::PROC_SUB_END || c == markers::SUBSH_END || c
        == markers::HIST_EXP_END
}

/// Whether an argument follows that is the last one.
pub open spec fn last_arg(s: Seq<char>, i: int) -> bool {
    forall|k: int| i <= k < s.len() ==> (#[trigger] s[k]) != markers::ARG && !unicode::whitespace(
        s[k],
    )
}

/// The text from `i` up to where styles go, without markers.
pub open spec fn word_at(s: Seq<char>, i: int) -> Seq<char> {
    markers::stripped(s.subrange(i, place(s, markers::RESET, i)))
}

/// What is put out for a character that stands by itself, before the `i`-th.
pub open spec fn lit_one(theme: HighlightTheme, known: Known, s: Seq<char>, i: int, st: Hl, c: char) -> Hl {
    if closes(c) {
        st.popped()
    } else if c == markers::CMD_SEP || c == markers::RESET {
        st.cleared()
    } else if c == markers::STRING_DQ || c == markers::STRING_SQ {
        st.pushed(theme.string@)
    } else if c == markers::KEYWORD {
        st.pushed(theme.keyword@)
    } else if c == markers::BUILTIN {
        if jumps(word_at(s, i)) {
            st.pushed(theme.control_flow@)
        } else {
            st.pushed(theme.valid_command@)
        }
    } else if c == markers::CASE_PAT || c == markers::GLOB {
        st.pushed(theme.glob@)
    } else if c == markers::COMMENT {
        st.pushed(theme.comment@)
    } else if c == markers::REDIRECT || c == markers::OPERATOR {
        st.pushed(theme.operator@)
    } else if c == markers::ARG {
        if !last_arg(s, i) {
            st.pushed(theme.argument@)
        } else if listed(known.files@, word_at(s, i)) {
            Hl { was_reset: false, ..st.pushed(theme.argument_file@) }
        } else {
            Hl { was_reset: false, ..st.pushed(theme.argument@) }
        }
    } else if c == markers::COMMAND {
        let style = if jumps(word_at(s, i)) {
            theme.control_flow@
        } else if listed(known.commands@, word_at(s, i)) {
            theme.valid_command@
        } else {
            theme.invalid_command@
        };
        Hl { was_reset: false, ..st.pushed(style) }
    } else if markers::marker(c) {
        st
    } else {
        st.shown(c)
    }
}

/// What is put out for a text of which only the selection shows, from `i` on.
pub open spec fn lit_plain(selection: Seq<char>, s: Seq<char>, i: int, st: Hl) -> Hl
    decreases s.len() - i,
{
    if i < 0 || i >= s.len() {
        st
    } else if s[i] == markers::VISUAL_MODE_START {
        lit_plain(selection, s, i + 1, st.selecting(selection))
    } else if s[i] == markers::VISUAL_MODE_END {
        lit_plain(selection, s, i + 1, st.deselecting())
    } else if markers::marker(s[i]) {
        lit_plain(selection, s, i + 1, st)
    } else {
        lit_plain(selection, s, i + 1, st.shown(s[i]))
    }
}

/// What is put out for a name that is assigned to.
pub open spec fn after_assign(theme: HighlightTheme, st: Hl, name: Seq<char>) -> Hl {
    st.told(name).pushed(theme.variable@).told(seq!['=']).popped()
}

/// What is put out for a variable or a reference to the history.
pub open spec fn after_var(theme: HighlightTheme, st: Hl, name: Seq<char>) -> Hl {
    st.pushed(theme.variable@).told(name).popped()
}

/// How what stands behind a marker is read.
pub open spec fn skim_of(c: char) -> Option<Skim> {
    if c == markers::ASSIGNMENT {
        Some(Skim::Assign)
    } else if c == markers::HIST_EXP {
        Some(Skim::Hist)
    } else if c == markers::VAR_SUB {
        Some(Skim::Var)
    } else {
        None
    }
}

/// What is put out for a marked text, from `i` on. What stands inside a
/// substitution is marked anew where it is shorter than the whole.
pub open spec fn lit(
    theme: HighlightTheme,
    known: Known,
    only: bool,
    s: Seq<char>,
    i: int,
    st: Hl,
) -> Hl
    decreases markers::stripped(s).len(), s.len() - i,
{
    if i < 0 || i >= s.len() {
        st
    } else if s[i] == markers::VISUAL_MODE_START {
        lit(theme, known, only, s, i + 1, st.selecting(theme.selection@))
    } else if s[i] == markers::VISUAL_MODE_END {
        lit(theme, known, only, s, i + 1, st.deselecting())
    } else if only {
        lit(
            theme,
            known,
            only,
            s,
            i + 1,
            if markers::marker(s[i]) {
                st
            } else {
                st.told(seq![s[i]])
            },
        )
    } else if substitution(s[i]) {
        proof {
            lemma_place(s, end_of(s[i]), i + 1);
        }
        let sub = sub_at(s, s[i], i + 1);
        let noted = known.noted(sub.content);
        let start = nest_start(st.sel, theme.selection@);
        let nested = if markers::stripped(noted).len() < markers::stripped(s).len() {
            lit(theme, known, false, noted, 0, start)
        } else {
            lit_plain(theme.selection@, noted, 0, start)
        };
        lit(
            theme,
            known,
            only,
            s,
            sub.next,
            after_sub(
                theme.selection@,
                theme.operator@,
                st,
                nested,
                sub,
                s[i] == markers::BACKTICK_SUB,
            ),
        )
    } else if skim_of(s[i]) is Some {
        proof {
            lemma_skimmed(theme.selection@, skim_of(s[i])->0, s, i + 1, st, Seq::empty());
        }
        let (a, t, n) = skimmed(
            theme.selection@,
            skim_of(s[i])->0,
            s,
            i + 1,
            st,
            Seq::empty(),
        );
        lit(
            theme,
            known,
            only,
            s,
            n,
            if s[i] == markers::ASSIGNMENT {
                after_assign(theme, a, t)
            } else {
                after_var(theme, a, t)
            },
        )
    } else {
        lit(theme, known, only, s, i + 1, lit_one(theme, known, s, i + 1, st, s[i]))
    }
}

/// A control character as it shows: a caret and a letter, in reverse video. Line
/// breaks and tabs stay what they are.
pub open spec fn visible(c: char) -> Seq<char> {
    if c == '\n' || c == '\t' || c == '\r' || c as u32 > 0x1f {
        seq![c]
    } else {
        ("\x1b[7m^"@).push(((c as u32) + 64) as char) + "\x1b[0m"@
    }
}

/// The code that simply stands for a marker.
pub open spec fn code_for(c: char) -> Seq<char> {
    if c == markers::RESET || c == markers::ARG {
        "\x1b[0m"@
    } else if c == markers::KEYWORD {
        "\x1b[33m"@
    } else if c == markers::CASE_PAT {
        "\x1b[34m"@
    } else if c == markers::COMMENT {
        "\x1b[90m"@
    } else if c == markers::OPERATOR {
        "\x1b[35m"@
    } else {
        seq![c]
    }
}

/// The first `n` characters, each as it shows.
pub open spec fn all_visible(s: Seq<char>, n: int) -> Seq<char>
    decreases n,
{
    if n <= 0 {
        Seq::empty()
    } else {
        all_visible(s, n - 1) + visible(s[n - 1])
    }
}

/// The first `n` characters, with codes for markers.
pub open spec fn all_coded(s: Seq<char>, n: int) -> Seq<char>
    decreases n,
{
    if n <= 0 {
        Seq::empty()
    } else {
        all_coded(s, n - 1) + code_for(s[n - 1])
    }
}

/// Puts colours on a marked command line. Styles are stacked, so that what
/// stands around a part gets its style back where the part ends.
pub struct Highlighter {
    pub input: String,
    pub output: String,
    pub linebuf_cursor_pos: usize,
    pub style_stack: Vec<String>,
    pub last_was_reset: bool,
    pub in_selection: bool,
    pub only_hl_visual: bool,
}

impl Highlighter {
    /// What was put out so far, and the styles that are in force.
    pub open spec fn model(self) -> Hl {
        Hl {
            out: self.output@,
            stack: texts(self.style_stack@),
            was_reset: self.last_was_reset,
            sel: self.in_selection,
        }
    }

    /// Whether nothing but what is put out has changed.
    pub open spec fn same_task(a: Highlighter, b: Highlighter) -> bool {
        &&& a.input@ == b.input@
        &&& a.linebuf_cursor_pos == b.linebuf_cursor_pos
        &&& a.only_hl_visual == b.only_hl_visual
    }

    pub fn new() -> (r: Self)
        ensures
            r.input@.len() == 0,
            r.linebuf_cursor_pos == 0,
            !r.only_hl_visual,
            r.model() == (Hl {
                out: Seq::empty(),
                stack: Seq::empty(),
                was_reset: true,
                sel: false,
            }),
    {
        let r = Highlighter {
            input: String::new(),
            output: String::new(),
            linebuf_cursor_pos: 0,
            style_stack: Vec::new(),
            last_was_reset: true,
            in_selection: false,
            only_hl_visual: false,
        };
        assert(r.output@ =~= Seq::empty());
        assert(texts(r.style_stack@) =~= Seq::empty());
        r
    }

    /// Shows the selection only, or everything.
    pub fn only_visual(&mut self, only_visual: bool)
        ensures
            *final(self) == (Highlighter { only_hl_visual: only_visual, ..*old(self) }),
    {
        self.only_hl_visual = only_visual;
    }

    /// Takes a marked text.
    pub fn load_input(&mut self, input: &str, linebuf_cursor_pos: usize)
        ensures
            final(self).input@ == input@,
            *final(self) == (Highlighter {
                input: final(self).input,
                linebuf_cursor_pos,
                ..*old(self)
            }),
    {
        self.input = owned(input);
        self.linebuf_cursor_pos = linebuf_cursor_pos;
    }

    /// Leaves the markers out of a text.
    pub fn strip_markers(s: &str) -> (r: String)
        ensures
            r@ == markers::stripped(s@),
    {
        markers::strip_markers(s)
    }

    /// Leaves the markers out of a text, but those of the selection.
    pub fn strip_markers_keep_visual(s: &str) -> (r: String)
        ensures
            r@ == markers::stripped_keep_visual(s@),
    {
        let v = chars_of(s);
        let out = strip_chars_keep_visual(v.as_slice());
        string_of(out.as_slice())
    }

    /// Makes the control characters of the text visible.
    pub fn expand_control_chars(&mut self)
        ensures
            final(self).input@ == all_visible(old(self).input@, old(self).input@.len() as int),
            *final(self) == (Highlighter { input: final(self).input, ..*old(self) }),
    {
        let v = chars_of(self.input.as_str());
        let mut out: String = String::new();
        let mut i: usize = 0;
        assert(out@ =~= Seq::empty());
        while i < v.len()
            invariant
                i <= v@.len(),
                out@ == all_visible(v@, i as int),
            decreases v@.len() - i,
        {
            let c = v[i];
            if c == '\n' || c == '\t' || c == '\r' || (c as u32) > 0x1f {
                out.push(c);
                assert(out@ =~= all_visible(v@, i as int) + seq![c]);
            } else {
                let n: u32 = c as u32;
                let d: char = (n as u8 + 64) as char;
                let mut t = owned("\x1b[7m^");
                t.push(d);
                t.push_str("\x1b[0m");
                out.push_str(t.as_str());
            }
            i = i + 1;
        }
        self.input = out;
    }

    /// Puts codes in the place of markers, without regard to nesting.
    pub fn trivial_replace(&mut self)
        ensures
            final(self).input@ == all_coded(old(self).input@, old(self).input@.len() as int),
            *final(self) == (Highlighter { input: final(self).input, ..*old(self) }),
    {
        let v = chars_of(self.input.as_str());
        let mut out: String = String::new();
        let mut i: usize = 0;
        assert(out@ =~= Seq::empty());
        while i < v.len()
            invariant
                i <= v@.len(),
                out@ == all_coded(v@, i as int),
            decreases v@.len() - i,
        {
            let c = v[i];
            if c == markers::RESET || c == markers::ARG {
                out.push_str("\x1b[0m");
            } else if c == markers::KEYWORD {
                out.push_str("\x1b[33m");
            } else if c == markers::CASE_PAT {
                out.push_str("\x1b[34m");
            } else if c == markers::COMMENT {
                out.push_str("\x1b[90m");
            } else if c == markers::OPERATOR {
                out.push_str("\x1b[35m");
            } else {
                out.push(c);
                assert(out@ =~= all_coded(v@, i as int) + seq![c]);
            }
            i = i + 1;
        }
        self.input = out;
    }

    fn emit_reset(&mut self)
        ensures
            final(self).model() == old(self).model().emit_reset(),
            Highlighter::same_task(*old(self), *final(self)),
    {
        if !self.last_was_reset {
            self.output.push_str("\x1b[0m");
            self.last_was_reset = true;
        }
    }

    fn emit_style(&mut self, style: &str)
        ensures
            final(self).model() == old(self).model().emit(style@),
            Highlighter::same_task(*old(self), *final(self)),
    {
        self.output.push_str(style);
        self.last_was_reset = false;
    }

    /// Puts a style on top of the others.
    pub fn push_style(&mut self, style: &str)
        ensures
            final(self).model() == old(self).model().pushed(style@),
            Highlighter::same_task(*old(self), *final(self)),
    {
        self.style_stack.push(owned(style));
        assert(texts(self.style_stack@) =~= texts(old(self).style_stack@).push(style@));
        if !self.in_selection {
            self.emit_style(style);
        }
    }

    /// Takes the style on top away.
    pub fn pop_style(&mut self)
        ensures
            final(self).model() == old(self).model().popped(),
            Highlighter::same_task(*old(self), *final(self)),
    {
        let _ = self.style_stack.pop();
        proof {
            if old(self).style_stack@.len() > 0 {
                assert(texts(self.style_stack@) =~= texts(old(self).style_stack@).drop_last());
            } else {
                assert(texts(self.style_stack@) =~= texts(old(self).style_stack@));
            }
        }
        if !self.in_selection {
            self.reapply_style();
        }
    }

    /// Takes all styles away.
    pub fn clear_styles(&mut self)
        ensures
            final(self).model() == old(self).model().cleared(),
            Highlighter::same_task(*old(self), *final(self)),
    {
        self.style_stack.clear();
        assert(texts(self.style_stack@) =~= Seq::empty());
        if !self.in_selection {
            self.emit_reset();
        }
    }

    /// Puts the style on top out again.
    pub fn reapply_style(&mut self)
        ensures
            final(self).model() == old(self).model().reapplied(),
            Highlighter::same_task(*old(self), *final(self)),
    {
        let n: usize = self.style_stack.len();
        if n > 0 {
            let style = self.style_stack[n - 1].clone();
            assert(style@ == self.model().stack.last());
            self.emit_style(style.as_str());
        } else {
            self.emit_reset();
        }
    }

    /// Hands out what was put out, and starts anew.
    pub fn take(&mut self) -> (r: String)
        ensures
            r@ == old(self).model().taken(),
            final(self).input@.len() == 0,
            final(self).output@.len() == 0,
            final(self).linebuf_cursor_pos == old(self).linebuf_cursor_pos,
            final(self).only_hl_visual == old(self).only_hl_visual,
            final(self).model() == (Hl { out: Seq::empty(), ..old(self).model().cleared() }),
    {
        self.input = String::new();
        self.clear_styles();
        let mut out: String = String::new();
        assert(out@ =~= Seq::empty());
        std::mem::swap(&mut out, &mut self.output);
        out
    }

    fn start_selection(&mut self, selection: &str)
        ensures
            final(self).model() == old(self).model().selecting(selection@),
            Highlighter::same_task(*old(self), *final(self)),
    {
        self.emit_style(selection);
        self.in_selection = true;
    }

    fn end_selection(&mut self)
        ensures
            final(self).model() == old(self).model().deselecting(),
            Highlighter::same_task(*old(self), *final(self)),
    {
        self.reapply_style();
        self.in_selection = false;
    }

    fn skim(&mut self, selection: &str, mode: Skim, v: &[char], from: usize) -> (r: (
        Vec<char>,
        usize,
    ))
        requires
            from <= v@.len(),
        ensures
            (final(self).model(), (r.0)@, r.1 as int) == skimmed(
                selection@,
                mode,
                v@,
                from as int,
                old(self).model(),
                Seq::empty(),
            ),
            from <= r.1 <= v@.len(),
            Highlighter::same_task(*old(self), *final(self)),
    {
        let mut name: Vec<char> = Vec::new();
        let mut i: usize = from;
        assert(name@ =~= Seq::empty());
        while i < v.len()
            invariant
                from <= i <= v@.len(),
                skimmed(selection@, mode, v@, from as int, old(self).model(), Seq::empty())
                    == skimmed(selection@, mode, v@, i as int, self.model(), name@),
                Highlighter::same_task(*old(self), *self),
            decreases v@.len() - i,
        {
            let c = v[i];
            if mode.is_end(c) {
                if c == markers::RESET {
                    return (name, i);
                }
                return (name, i + 1);
            }
            if c == markers::VISUAL_MODE_START {
                self.start_selection(selection);
            } else if c == markers::VISUAL_MODE_END {
                self.end_selection();
            } else if !is_marker(c) {
                name.push(c);
            }
            i = i + 1;
        }
        (name, i)
    }

    fn light_plain(&mut self, selection: &str)
        ensures
            final(self).model() == lit_plain(selection@, old(self).input@, 0, old(self).model()),
            Highlighter::same_task(*old(self), *final(self)),
    {
        let v = chars_of(self.input.as_str());
        let mut i: usize = 0;
        while i < v.len()
            invariant
                i <= v@.len(),
                lit_plain(selection@, v@, 0, old(self).model()) == lit_plain(
                    selection@,
                    v@,
                    i as int,
                    self.model(),
                ),
                Highlighter::same_task(*old(self), *self),
            decreases v@.len() - i,
        {
            let c = v[i];
            if c == markers::VISUAL_MODE_START {
                self.start_selection(selection);
            } else if c == markers::VISUAL_MODE_END {
                self.end_selection();
            } else if !is_marker(c) {
                self.show(c);
            }
            i = i + 1;
        }
    }

    fn show(&mut self, c: char)
        ensures
            final(self).model() == old(self).model().shown(c),
            Highlighter::same_task(*old(self), *final(self)),
    {
        self.output.push(c);
        self.last_was_reset = false;
    }

    fn light_one(
        &mut self,
        theme: &HighlightTheme,
        known: &Known,
        v: &[char],
        i: usize,
        c: char,
    )
        requires
            i <= v@.len(),
        ensures
            final(self).model() == lit_one(*theme, *known, v@, i as int, old(self).model(), c),
            Highlighter::same_task(*old(self), *final(self)),
    {
        if is_close(c) {
            self.pop_style();
        } else if c == markers::CMD_SEP || c == markers::RESET {
            self.clear_styles();
        } else if c == markers::STRING_DQ || c == markers::STRING_SQ {
            self.push_style(theme.string.as_str());
        } else if c == markers::KEYWORD {
            self.push_style(theme.keyword.as_str());
        } else if c == markers::BUILTIN {
            let name = word_from(v, i);
            if does_jump(name.as_str()) {
                self.push_style(theme.control_flow.as_str());
            } else {
                self.push_style(theme.valid_command.as_str());
            }
        } else if c == markers::CASE_PAT || c == markers::GLOB {
            self.push_style(theme.glob.as_str());
        } else if c == markers::COMMENT {
            self.push_style(theme.comment.as_str());
        } else if c == markers::REDIRECT || c == markers::OPERATOR {
            self.push_style(theme.operator.as_str());
        } else if c == markers::ARG {
            if !is_last_arg(v, i) {
                self.push_style(theme.argument.as_str());
            } else {
                let arg = word_from(v, i);
                if is_listed(known.files.as_slice(), arg.as_str()) {
                    self.push_style(theme.argument_file.as_str());
                } else {
                    self.push_style(theme.argument.as_str());
                }
                self.last_was_reset = false;
            }
        } else if c == markers::COMMAND {
            let name = word_from(v, i);
            if does_jump(name.as_str()) {
                self.push_style(theme.control_flow.as_str());
            } else if is_listed(known.commands.as_slice(), name.as_str()) {
                self.push_style(theme.valid_command.as_str());
            } else {
                self.push_style(theme.invalid_command.as_str());
            }
            self.last_was_reset = false;
        } else if !is_marker(c) {
            self.show(c);
        }
    }

    fn finish_sub(
        &mut self,
        theme: &HighlightTheme,
        nested: Highlighter,
        parts: &SubParts,
        backtick: bool,
    )
        ensures
            final(self).model() == after_sub(
                theme.selection@,
                theme.operator@,
                old(self).model(),
                nested.model(),
                parts.model(),
                backtick,
            ),
            Highlighter::same_task(*old(self), *final(self)),
    {
        let mut nested = nested;
        let selected: bool = self.in_selection;
        self.in_selection = nested.in_selection;
        let ghost inner_stack = nested.style_stack@;
        let ghost outer_stack = self.style_stack@;
        self.style_stack.append(&mut nested.style_stack);
        assert(texts(self.style_stack@) =~= texts(outer_stack) + texts(inner_stack));
        assert(texts(nested.style_stack@) =~= Seq::empty());
        if selected {
            self.emit_style(theme.selection.as_str());
            self.output.push_str(parts.opening.as_str());
        } else {
            self.push_style(theme.operator.as_str());
            self.output.push_str(parts.opening.as_str());
            self.pop_style();
        }
        let inner = nested.take();
        self.output.push_str(inner.as_str());
        if parts.complete {
            self.push_style(theme.operator.as_str());
            if !backtick {
                let ghost was = self.output@;
                self.output.push(')');
                assert(self.output@ =~= was + seq![')']);
            }
            self.pop_style();
        }
        self.last_was_reset = false;
    }

    /// Puts colours on the marked text. Nothing but style codes is put in: a text
    /// without escapes comes out as it is, once the codes are left out, where its
    /// markers stand as they should, and in any case where only the selection shows.
    pub fn highlight(&mut self, theme: &HighlightTheme, known: &Known)
        ensures
            styling::coded(*theme) && styling::sound(old(self).model()) && styling::clear(
                markers::stripped(old(self).input@),
            ) && (old(self).only_hl_visual || styling::well_marked(
                *known,
                old(self).input@,
                0,
            )) ==> styling::adds(
                old(self).model(),
                final(self).model(),
                markers::stripped(old(self).input@),
            ),
            final(self).model() == lit(
                *theme,
                *known,
                old(self).only_hl_visual,
                old(self).input@,
                0,
                old(self).model(),
            ),
            Highlighter::same_task(*old(self), *final(self)),
        decreases markers::stripped(old(self).input@).len(),
    {
        let v = chars_of(self.input.as_str());
        let plain = strip_chars(v.as_slice());
        let only: bool = self.only_hl_visual;
        let mut i: usize = 0;
        while i < v.len()
            invariant
                i <= v@.len(),
                v@ == old(self).input@,
                plain@ == markers::stripped(v@),
                only == old(self).only_hl_visual,
                lit(*theme, *known, only, v@, 0, old(self).model()) == lit(
                    *theme,
                    *known,
                    only,
                    v@,
                    i as int,
                    self.model(),
                ),
                Highlighter::same_task(*old(self), *self),
            decreases v@.len() - i,
        {
            let c = v[i];
            if c == markers::VISUAL_MODE_START {
                self.start_selection(theme.selection.as_str());
                i = i + 1;
            } else if c == markers::VISUAL_MODE_END {
                self.end_selection();
                i = i + 1;
            } else if only {
                if !is_marker(c) {
                    let ghost was = self.output@;
                    self.output.push(c);
                    assert(self.output@ =~= was + seq![c]);
                }
                i = i + 1;
            } else if is_substitution(c) {
                let parts = sub_from(v.as_slice(), c, i + 1);
                let mut nested = Highlighter::new();
                nested.in_selection = self.in_selection;
                if nested.in_selection {
                    nested.emit_style(theme.selection.as_str());
                }
                let ghost start = nested.model();
                assert(start =~= nest_start(self.in_selection, theme.selection@));
                let noted = known.note(parts.content.as_str());
                nested.load_input(noted.as_str(), self.linebuf_cursor_pos);
                let inner_plain = markers::strip_markers(noted.as_str());
                let inner_chars = chars_of(inner_plain.as_str());
                if inner_chars.len() < plain.len() {
                    nested.highlight(theme, known);
                } else {
                    nested.light_plain(theme.selection.as_str());
                }
                let next: usize = parts.next;
                self.finish_sub(theme, nested, &parts, c == markers::BACKTICK_SUB);
                i = next;
            } else if c == markers::ASSIGNMENT {
                let (name, next) = self.skim(
                    theme.selection.as_str(),
                    Skim::Assign,
                    v.as_slice(),
                    i + 1,
                );
                push_chars(&mut self.output, name.as_slice());
                self.push_style(theme.variable.as_str());
                let ghost was = self.output@;
                self.output.push('=');
                assert(self.output@ =~= was + seq!['=']);
                self.pop_style();
                i = next;
            } else if c == markers::HIST_EXP || c == markers::VAR_SUB {
                let mode = if c == markers::HIST_EXP {
                    Skim::Hist
                } else {
                    Skim::Var
                };
                let (name, next) = self.skim(theme.selection.as_str(), mode, v.as_slice(), i + 1);
                self.push_style(theme.variable.as_str());
                push_chars(&mut self.output, name.as_slice());
                self.pop_style();
                i = next;
            } else {
                self.light_one(theme, known, v.as_slice(), i + 1, c);
                i = i + 1;
            }
        }
        proof {
            let a = old(self).model();
            if styling::coded(*theme) && styling::sound(a) && styling::clear(plain@) && (only
                || styling::well_marked(*known, v@, 0)) {
                styling::lighting_adds_the_text(*theme, *known, only, v@, a);
            }
        }
    }
}

/// Highlighting only puts style codes in: a text without escapes that is marked
/// as it should be comes out as it is, once the codes are left out, also inside
/// substitutions. Where only the selection shows, the markers may stand in any
/// way.
pub proof fn highlighting_keeps_the_text(
    theme: HighlightTheme,
    known: Known,
    only: bool,
    marked: Seq<char>,
    line: Seq<char>,
)
    requires
        styling::coded(theme),
        styling::clear(line),
        markers::stripped(marked) == line,
        only || styling::well_marked(known, marked, 0),
    ensures
        ({
            let fresh = Hl { out: Seq::empty(), stack: Seq::empty(), was_reset: true, sel: false };
            styling::unstyled(lit(theme, known, only, marked, 0, fresh).taken()) == line
        }),
{
    let fresh = Hl { out: Seq::empty(), stack: Seq::empty(), was_reset: true, sel: false };
    styling::lighting_adds_the_text(theme, known, only, marked, fresh);
    styling::handing_out_adds_nothing(lit(theme, known, only, marked, 0, fresh));
    assert(styling::unstyled(fresh.out) =~= Seq::<char>::empty());
    assert(Seq::<char>::empty() + line =~= line);
}

impl Default for Highlighter {
    fn default() -> (r: Self)
        ensures
            r.input@.len() == 0,
            !r.only_hl_visual,
            r.model() == (Hl {
                out: Seq::empty(),
                stack: Seq::empty(),
                was_reset: true,
                sel: false,
            }),
    {
        Highlighter::new()
    }
}

/// A substitution that was read.
struct SubParts {
    opening: String,
    content: String,
    complete: bool,
    next: usize,
    inner: Ghost<Seq<char>>,
}

impl SubParts {
    spec fn model(self) -> Sub {
        Sub {
            opening: self.opening@,
            inner: self.inner@,
            content: self.content@,
            complete: self.complete,
            next: self.next as int,
        }
    }
}

fn is_substitution(c: char) -> (r: bool)
    ensures
        r == substitution(c),
{
    c == markers::CMD_SUB || c == markers::SUBSH || c == markers::PROC_SUB || c
        == markers::BACKTICK_SUB
}

fn is_close(c: char) -> (r: bool)
    ensures
        r == closes(c),
{
    c == markers::STRING_DQ_END || c == markers::STRING_SQ_END || c == markers::VAR_SUB_END || c
        == markers::CMD_SUB_END || c == markers::PROC_SUB_END || c == markers::SUBSH_END || c
        == markers::HIST_EXP_END
}

fn word_from(v: &[char], i: usize) -> (r: String)
    requires
        i <= v@.len(),
    ensures
        r@ == word_at(v@, i as int),
{
    let e = place_of(v, markers::RESET, i);
    let w = sub_chars(v, i, e);
    let p = strip_chars(w.as_slice());
    string_of(p.as_slice())
}

fn is_last_arg(v: &[char], from: usize) -> (r: bool)
    requires
        from <= v@.len(),
    ensures
        r == last_arg(v@, from as int),
{
    let mut i: usize = from;
    while i < v.len()
        invariant
            from <= i <= v@.len(),
            forall|k: int|
                from <= k < i ==> (#[trigger] v@[k]) != markers::ARG && !unicode::whitespace(v@[k]),
        decreases v@.len() - i,
    {
        if v[i] == markers::ARG || v[i].is_whitespace() {
            assert(!last_arg(v@, from as int)) by {
                let c = v@[i as int];
                assert(c == markers::ARG || unicode::whitespace(c));
            }
            return false;
        }
        i = i + 1;
    }
    true
}

fn sub_from(v: &[char], c: char, i: usize) -> (r: SubParts)
    requires
        substitution(c),
        i <= v@.len(),
    ensures
        r.model() == sub_at(v@, c, i as int),
        i <= r.next <= v@.len(),
{
    let end: char = if c == markers::CMD_SUB {
        markers::CMD_SUB_END
    } else if c == markers::SUBSH {
        markers::SUBSH_END
    } else if c == markers::PROC_SUB {
        markers::PROC_SUB_END
    } else {
        markers::BACKTICK_SUB_END
    };
    let e = place_of(v, end, i);
    let inner = sub_chars(v, i, e);
    let plain = strip_chars(inner.as_slice());
    let clean = strip_chars_keep_visual(inner.as_slice());
    let to_left = chars_of("<(");
    let to_right = chars_of(">(");
    let opening = if c == markers::BACKTICK_SUB {
        "`"
    } else if c == markers::CMD_SUB {
        "$("
    } else if c == markers::SUBSH {
        "("
    } else if !chars_start_with(plain.as_slice(), to_left.as_slice()) && chars_start_with(
        plain.as_slice(),
        to_right.as_slice(),
    ) {
        ">("
    } else {
        "<("
    };
    let p = chars_of(opening);
    let rest = strip_prefix_skip_visual(clean.as_slice(), p.as_slice());
    let complete: bool = e < v.len();
    let content = if complete {
        let close = chars_of(")");
        strip_suffix_skip_visual(rest.as_slice(), close.as_slice())
    } else {
        rest
    };
    let next: usize = if complete {
        e + 1
    } else {
        e
    };
    SubParts {
        opening: owned(opening),
        content: string_of(content.as_slice()),
        complete,
        next,
        inner: Ghost(inner@),
    }
}

/// A style that is put on and taken off again leaves the styles as they were, and
/// outside the selection the style that was on top shows again.
pub proof fn styles_nest(st: Hl, style: Seq<char>)
    ensures
        st.pushed(style).popped().stack == st.stack,
        !st.sel && st.stack.len() > 0 ==> st.pushed(style).popped().out == st.out + style
            + st.stack.last(),
        !st.sel && st.stack.len() == 0 ==> st.pushed(style).popped().out == st.out + style
            + "\x1b[0m"@,
        st.sel ==> st.pushed(style).popped().out == st.out,
{
    assert(st.stack.push(style).drop_last() =~= st.stack);
}

/// Going back to no style twice puts the code out once.
pub proof fn resets_are_not_repeated(st: Hl)
    ensures
        st.emit_reset().emit_reset() == st.emit_reset(),
        st.cleared().cleared() == st.cleared(),
{
}

/// A text without markers shows as it is.
pub proof fn plain_text_is_kept(theme: HighlightTheme, known: Known, only: bool, s: Seq<char>, i: int, st: Hl)
    requires
        0 <= i <= s.len(),
        forall|k: int| 0 <= k < s.len() ==> !markers::marker(#[trigger] s[k]),
    ensures
        lit(theme, known, only, s, i, st).out == st.out + s.skip(i),
        lit(theme, known, only, s, i, st).stack == st.stack,
    decreases s.len() - i,
{
    if i < s.len() {
        assert(!markers::marker(s[i]));
        let next = if only {
            st.told(seq![s[i]])
        } else {
            st.shown(s[i])
        };
        plain_text_is_kept(theme, known, only, s, i + 1, next);
        assert(s.skip(i) =~= seq![s[i]] + s.skip(i + 1));
        assert(next.out + s.skip(i + 1) =~= st.out + s.skip(i));
    } else {
        assert(st.out + s.skip(i) =~= st.out);
    }
}

/// Where only the selection shows and there is none, what is put out is the text
/// without its markers.
pub proof fn only_the_selection_shows(theme: HighlightTheme, known: Known, s: Seq<char>, i: int, st: Hl)
    requires
        0 <= i <= s.len(),
        forall|k: int| 0 <= k < s.len() ==> !markers::visual(#[trigger] s[k]),
    ensures
        lit(theme, known, true, s, i, st).out == st.out + markers::stripped(s.skip(i)),
    decreases s.len() - i,
{
    if i < s.len() {
        assert(!markers::visual(s[i]));
        let next = if markers::marker(s[i]) {
            st
        } else {
            st.told(seq![s[i]])
        };
        only_the_selection_shows(theme, known, s, i + 1, next);
        assert(s.skip(i) =~= seq![s[i]] + s.skip(i + 1));
        markers::lemma_stripped_add(seq![s[i]], s.skip(i + 1));
        assert(seq![s[i]].drop_last() =~= Seq::<char>::empty());
        assert(markers::stripped(seq![s[i]].drop_last()) =~= Seq::<char>::empty());
        assert(markers::stripped(seq![s[i]]) =~= if markers::marker(s[i]) {
            Seq::<char>::empty()
        } else {
            seq![s[i]]
        });
        assert(next.out + markers::stripped(s.skip(i + 1)) =~= st.out + markers::stripped(
            s.skip(i),
        ));
    } else {
        assert(s.skip(i) =~= Seq::<char>::empty());
        assert(st.out + markers::stripped(s.skip(i)) =~= st.out);
    }
}

} // verus!
