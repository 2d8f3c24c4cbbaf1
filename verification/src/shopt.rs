//! The options of the shell.

use crate::text;
use crate::text::chars_of;
use crate::text::decimal_string;
use crate::text::digits_to_usize;
use crate::text::only_digits;
use crate::text::owned;
use crate::text::parse_usize;
use crate::text::push_repeated;
use crate::text::space_words;
use crate::text::same_str;
use crate::text::string_of;
use crate::text::sub_chars;
use crate::text::trim;
use crate::unicode;
use crate::unicode::ascii_lowered;
use vstd::prelude::*;

verus! {

/// What is traced of a command: a plus sign for each level, and its words.
pub open spec fn traced(words: Seq<String>, depth: nat) -> Seq<char> {
    text::trimmed(text::repeated('+', depth + 1).push(' ') + text::spaced(words, words.len() as int))
}

/// What is traced of a command.
pub fn xtrace_line(words: &[String], depth: u32) -> (r: String)
    ensures
        r@ == traced(words@, depth as nat),
{
    let list = space_words(words);
    let mut out: String = String::new();
    push_repeated(&mut out, '+', depth as usize);
    out.push('+');
    assert(out@ =~= text::repeated('+', depth as nat + 1));
    out.push(' ');
    out.push_str(list.as_str());
    let v = chars_of(out.as_str());
    let t = trim(v.as_slice());
    string_of(t.as_slice())
}

/// How the shell rings.
#[derive(Debug, Clone, Copy, PartialEq, Eq, Structural)]
pub enum ShedBellStyle {
    Audible,
    Visible,
    Disable,
}

/// A text in lower case, as far as ASCII goes.
pub open spec fn lower_ascii(s: Seq<char>) -> Seq<char> {
    Seq::new(s.len(), |i: int| unicode::to_lower_ascii(s[i]))
}

pub fn to_lower(s: &str) -> (r: String)
    ensures
        r@ == lower_ascii(s@),
{
    let v = chars_of(s);
    let mut out: String = String::new();
    let mut i: usize = 0;
    assert(out@ =~= lower_ascii(v@).take(0));
    while i < v.len()
        invariant
            i <= v@.len(),
            out@ == lower_ascii(v@).take(i as int),
        decreases v@.len() - i,
    {
        out.push(ascii_lowered(v[i]));
        i = i + 1;
        assert(out@ =~= lower_ascii(v@).take(i as int));
    }
    assert(out@ =~= lower_ascii(v@));
    out
}

impl ShedBellStyle {
    /// The style that a text names.
    pub open spec fn named(s: Seq<char>) -> Option<ShedBellStyle> {
        let l = lower_ascii(s);
        if l == "audible"@ {
            Some(ShedBellStyle::Audible)
        } else if l == "visible"@ {
            Some(ShedBellStyle::Visible)
        } else if l == "disable"@ {
            Some(ShedBellStyle::Disable)
        } else {
            None
        }
    }

    /// Reads a style; case does not matter.
    pub fn from_str(s: &str) -> (r: Result<Self, String>)
        ensures
            match r {
                Ok(b) => ShedBellStyle::named(s@) == Some(b),
                Err(e) => ShedBellStyle::named(s@) is None && e@ == ("Invalid bell style '"@
                    + s@).push('\''),
            },
    {
        let l = to_lower(s);
        if same_str(l.as_str(), "audible") {
            Ok(ShedBellStyle::Audible)
        } else if same_str(l.as_str(), "visible") {
            Ok(ShedBellStyle::Visible)
        } else if same_str(l.as_str(), "disable") {
            Ok(ShedBellStyle::Disable)
        } else {
            let mut e = owned("Invalid bell style '");
            e.push_str(s);
            e.push('\'');
            Err(e)
        }
    }
}

/// A truth value in words.
pub open spec fn bool_text(b: bool) -> Seq<char> {
    if b {
        "true"@
    } else {
        "false"@
    }
}

fn show_bool(b: bool) -> (r: String)
    ensures
        r@ == bool_text(b),
{
    if b {
        owned("true")
    } else {
        owned("false")
    }
}

/// The truth value that a text names.
pub open spec fn parsed_bool(s: Seq<char>) -> Option<bool> {
    if s == "true"@ {
        Some(true)
    } else if s == "false"@ {
        Some(false)
    } else {
        None
    }
}

proof fn lemma_bool_shows(s: Seq<char>)
    ensures
        parsed_bool(s) is Some ==> bool_text(parsed_bool(s)->0) == s,
{
    reveal_strlit("true");
    reveal_strlit("false");
}

fn parse_bool(s: &str) -> (r: Option<bool>)
    ensures
        r == parsed_bool(s@),
{
    if same_str(s, "true") {
        Some(true)
    } else if same_str(s, "false") {
        Some(false)
    } else {
        None
    }
}

/// A signed number in decimal.
pub open spec fn signed_text(n: isize) -> Seq<char> {
    if n < 0 {
        seq!['-'] + text::decimal((-n) as nat)
    } else {
        text::decimal(n as nat)
    }
}

fn show_isize(n: isize) -> (r: String)
    ensures
        r@ == signed_text(n),
{
    if n >= 0 {
        return decimal_string(n as usize);
    }
    let mut s: String = String::new();
    s.push('-');
    let m: usize = if n == isize::MIN {
        isize::MAX as usize + 1
    } else {
        (-n) as usize
    };
    let d = decimal_string(m);
    s.push_str(d.as_str());
    assert(s@ =~= signed_text(n));
    s
}

/// The signed number that a text stands for, where it can be held.
pub open spec fn parsed_isize(s: Seq<char>) -> Option<isize> {
    let neg = s.len() > 0 && s[0] == '-';
    let d = if s.len() > 0 && (s[0] == '-' || s[0] == '+') {
        s.skip(1)
    } else {
        s
    };
    let v = text::digits_value(d) as int;
    if d.len() == 0 || !text::all_digits(d) {
        None
    } else if neg && v <= isize::MAX + 1 {
        Some((-v) as isize)
    } else if !neg && v <= isize::MAX {
        Some(v as isize)
    } else {
        None
    }
}

fn parse_isize(s: &str) -> (r: Option<isize>)
    ensures
        r == parsed_isize(s@),
{
    let v = chars_of(s);
    let neg: bool = v.len() > 0 && v[0] == '-';
    let signed: bool = neg || (v.len() > 0 && v[0] == '+');
    let from: usize = if signed {
        1
    } else {
        0
    };
    let d = sub_chars(v.as_slice(), from, v.len());
    proof {
        if signed {
            assert(d@ =~= s@.skip(1));
        } else {
            assert(d@ =~= s@);
        }
    }
    if d.len() == 0 || !only_digits(d.as_slice()) {
        return None;
    }
    match digits_to_usize(d.as_slice()) {
        None => None,
        Some(n) => if n <= isize::MAX as usize {
            if neg {
                Some(-(n as isize))
            } else {
                Some(n as isize)
            }
        } else if neg && n == isize::MAX as usize + 1 {
            Some(isize::MIN)
        } else {
            None
        },
    }
}

/// What becomes of setting an option.
pub enum Put {
    Done,
    BadValue,
    /// The value was read and may not be taken, for a reason.
    Refused(Seq<char>),
    Unknown,
}

/// The failure of a value that cannot be read.
pub open spec fn bad_value(group: Seq<char>, opt: Seq<char>, val: Seq<char>) -> Seq<char> {
    "shopt: invalid value '"@ + val + "' for "@ + group + "."@ + opt
}

/// The failure of an option that a group does not have.
pub open spec fn no_option(group: Seq<char>, opt: Seq<char>) -> Seq<char> {
    ("shopt: unexpected '"@ + group + "' option '"@ + opt).push('\'')
}

fn bad_value_error(group: &str, opt: &str, val: &str) -> (r: String)
    ensures
        r@ == bad_value(group@, opt@, val@),
{
    let mut s = owned("shopt: invalid value '");
    s.push_str(val);
    s.push_str("' for ");
    s.push_str(group);
    s.push_str(".");
    s.push_str(opt);
    s
}

fn no_option_error(group: &str, opt: &str) -> (r: String)
    ensures
        r@ == no_option(group@, opt@),
{
    let mut s = owned("shopt: unexpected '");
    s.push_str(group);
    s.push_str("' option '");
    s.push_str(opt);
    s.push('\'');
    s
}

/// Whether setting an option went as it should.
pub open spec fn put_told(p: Put, group: Seq<char>, opt: Seq<char>, val: Seq<char>, r: Result<
    (),
    String,
>) -> bool {
    match p {
        Put::Done => r is Ok,
        Put::BadValue => r is Err && r->Err_0@ == bad_value(group, opt, val),
        Put::Refused(m) => r is Err && r->Err_0@ == m,
        Put::Unknown => r is Err && r->Err_0@ == no_option(group, opt),
    }
}

/// A line of a listing.
pub open spec fn row(group: Seq<char>, opt: Seq<char>, val: Seq<char>) -> Seq<char> {
    group + "."@ + opt + "="@ + val
}

fn push_row(out: &mut String, group: &str, opt: &str, val: &str)
    ensures
        final(out)@ == (old(out)@ + row(group@, opt@, val@)).push('\n'),
{
    let mut s = owned(group);
    s.push_str(".");
    s.push_str(opt);
    s.push_str("=");
    s.push_str(val);
    out.push_str(s.as_str());
    out.push('\n');
}

/// How lines are edited.
#[derive(Debug)]
pub struct ShOptLine {
    /// Whether to automatically insert a newline when the input is incomplete
    pub linebreak_on_incomplete: bool,
    /// The maximum height of the line editor viewport window. Can be a positive number or a percentage of terminal height like "50%"
    pub viewport_height: String,
    /// Whether to display line numbers in multiline input
    pub line_numbers: bool,
    /// The line offset from the top or bottom of the viewport to trigger scrolling
    pub scroll_offset: usize,
    /// The number of spaces a tab character represents in the line editor
    pub tab_width: usize,
    /// Whether to automatically indent new lines in multiline commands
    pub auto_indent: bool,
    /// Whether to suggest commands from history as commands are typed
    pub auto_suggest: bool,
}

impl Default for ShOptLine {
    fn default() -> (r: Self)
        ensures
            r.is_default(),
    {
        ShOptLine {
            linebreak_on_incomplete: true,
            viewport_height: owned("50%"),
            line_numbers: true,
            scroll_offset: 2,
            tab_width: 4,
            auto_indent: true,
            auto_suggest: true,
        }
    }
}

impl ShOptLine {
    /// The options before any is set.
    pub open spec fn is_default(self) -> bool {
        &&& self.linebreak_on_incomplete
        &&& self.viewport_height@ == "50%"@
        &&& self.line_numbers
        &&& self.scroll_offset == 2
        &&& self.tab_width == 4
        &&& self.auto_indent
        &&& self.auto_suggest
    }

    /// What an option is set to, in words.
    pub open spec fn value(self, opt: Seq<char>) -> Option<Seq<char>> {
        if opt == "linebreak_on_incomplete"@ {
            Some(bool_text(self.linebreak_on_incomplete))
        } else if opt == "viewport_height"@ {
            Some(self.viewport_height@)
        } else if opt == "line_numbers"@ {
            Some(bool_text(self.line_numbers))
        } else if opt == "scroll_offset"@ {
            Some(text::decimal(self.scroll_offset as nat))
        } else if opt == "tab_width"@ {
            Some(text::decimal(self.tab_width as nat))
        } else if opt == "auto_indent"@ {
            Some(bool_text(self.auto_indent))
        } else if opt == "auto_suggest"@ {
            Some(bool_text(self.auto_suggest))
        } else {
            None
        }
    }

    /// What an option is for.
    pub open spec fn doc(opt: Seq<char>) -> Seq<char> {
        if opt == "linebreak_on_incomplete"@ {
            " Whether to automatically insert a newline when the input is incomplete\n"@
        } else if opt == "viewport_height"@ {
            " The maximum height of the line editor viewport window. Can be a positive number or a percentage of terminal height like \"50%\"\n"@
        } else if opt == "line_numbers"@ {
            " Whether to display line numbers in multiline input\n"@
        } else if opt == "scroll_offset"@ {
            " The line offset from the top or bottom of the viewport to trigger scrolling\n"@
        } else if opt == "tab_width"@ {
            " The number of spaces a tab character represents in the line editor\n"@
        } else if opt == "auto_indent"@ {
            " Whether to automatically indent new lines in multiline commands\n"@
        } else if opt == "auto_suggest"@ {
            " Whether to suggest commands from history as commands are typed\n"@
        } else {
            Seq::empty()
        }
    }

    /// What becomes of setting an option.
    pub open spec fn verdict(opt: Seq<char>, val: Seq<char>) -> Put {
        if opt == "linebreak_on_incomplete"@ {
            if parsed_bool(val) is Some {
                Put::Done
            } else {
                Put::BadValue
            }
        } else if opt == "viewport_height"@ {
            Put::Done
        } else if opt == "line_numbers"@ {
            if parsed_bool(val) is Some {
                Put::Done
            } else {
                Put::BadValue
            }
        } else if opt == "scroll_offset"@ {
            if text::parsed_usize(val) is Some {
                Put::Done
            } else {
                Put::BadValue
            }
        } else if opt == "tab_width"@ {
            if text::parsed_usize(val) is Some {
                Put::Done
            } else {
                Put::BadValue
            }
        } else if opt == "auto_indent"@ {
            if parsed_bool(val) is Some {
                Put::Done
            } else {
                Put::BadValue
            }
        } else if opt == "auto_suggest"@ {
            if parsed_bool(val) is Some {
                Put::Done
            } else {
                Put::BadValue
            }
        } else {
            Put::Unknown
        }
    }

    /// Whether an option is set, and nothing else is changed.
    pub open spec fn is_set(a: ShOptLine, b: ShOptLine, opt: Seq<char>, val: Seq<char>) -> bool {
        if opt == "linebreak_on_incomplete"@ {
            b == (ShOptLine { linebreak_on_incomplete: parsed_bool(val)->0, ..a })
        } else if opt == "viewport_height"@ {
            b.viewport_height@ == val && b == (ShOptLine { viewport_height: b.viewport_height, ..a })
        } else if opt == "line_numbers"@ {
            b == (ShOptLine { line_numbers: parsed_bool(val)->0, ..a })
        } else if opt == "scroll_offset"@ {
            b == (ShOptLine { scroll_offset: text::parsed_usize(val)->0, ..a })
        } else if opt == "tab_width"@ {
            b == (ShOptLine { tab_width: text::parsed_usize(val)->0, ..a })
        } else if opt == "auto_indent"@ {
            b == (ShOptLine { auto_indent: parsed_bool(val)->0, ..a })
        } else if opt == "auto_suggest"@ {
            b == (ShOptLine { auto_suggest: parsed_bool(val)->0, ..a })
        } else {
            b == a
        }
    }

    /// All options of the group.
    pub open spec fn listing(self) -> Seq<char> {
        let s = (Seq::<char>::empty() + row("line"@, "linebreak_on_incomplete"@, bool_text(self.linebreak_on_incomplete))).push('\n');
        let s = (s + row("line"@, "viewport_height"@, self.viewport_height@)).push('\n');
        let s = (s + row("line"@, "line_numbers"@, bool_text(self.line_numbers))).push('\n');
        let s = (s + row("line"@, "scroll_offset"@, text::decimal(self.scroll_offset as nat))).push('\n');
        let s = (s + row("line"@, "tab_width"@, text::decimal(self.tab_width as nat))).push('\n');
        let s = (s + row("line"@, "auto_indent"@, bool_text(self.auto_indent))).push('\n');
        let s = (s + row("line"@, "auto_suggest"@, bool_text(self.auto_suggest))).push('\n');
        s
    }

    /// How a value shows once it is set.
    pub open spec fn normal(opt: Seq<char>, val: Seq<char>) -> Seq<char> {
        if opt == "linebreak_on_incomplete"@ {
            val
        } else if opt == "viewport_height"@ {
            val
        } else if opt == "line_numbers"@ {
            val
        } else if opt == "scroll_offset"@ {
            text::decimal(text::parsed_usize(val)->0 as nat)
        } else if opt == "tab_width"@ {
            text::decimal(text::parsed_usize(val)->0 as nat)
        } else if opt == "auto_indent"@ {
            val
        } else if opt == "auto_suggest"@ {
            val
        } else {
            val
        }
    }

    /// An option that was set shows its value.
    #[verifier::rlimit(60)]
    pub proof fn set_option_shows(a: ShOptLine, b: ShOptLine, opt: Seq<char>, val: Seq<char>)
        requires
            ShOptLine::verdict(opt, val) is Done,
            ShOptLine::is_set(a, b, opt, val),
        ensures
            b.value(opt) == Some(ShOptLine::normal(opt, val)),
    {
        lemma_bool_shows(val);
    }

    /// Only an option with a name can be set.
    proof fn lemma_named(opt: Seq<char>, val: Seq<char>)
        requires
            ShOptLine::verdict(opt, val) is Done,
        ensures
            opt.len() > 0,
    {
        reveal_strlit("linebreak_on_incomplete");
        reveal_strlit("viewport_height");
        reveal_strlit("line_numbers");
        reveal_strlit("scroll_offset");
        reveal_strlit("tab_width");
        reveal_strlit("auto_indent");
        reveal_strlit("auto_suggest");
    }

    /// Setting an option leaves the others as they were.
    #[verifier::rlimit(60)]
    pub proof fn setting_keeps_the_others(
        a: ShOptLine,
        b: ShOptLine,
        opt: Seq<char>,
        val: Seq<char>,
        o: Seq<char>,
    )
        requires
            ShOptLine::is_set(a, b, opt, val),
            o != opt,
        ensures
            b.value(o) == a.value(o),
    {
    }

    /// Sets an option.
    pub fn set(&mut self, opt: &str, val: &str) -> (r: Result<(), String>)
        ensures
            put_told(ShOptLine::verdict(opt@, val@), "line"@, opt@, val@, r),
            r is Ok ==> ShOptLine::is_set(*old(self), *final(self), opt@, val@),
            r is Err ==> *final(self) == *old(self),
    {
        if same_str(opt, "linebreak_on_incomplete") {
            match parse_bool(val) {
                Some(v) => {
                    self.linebreak_on_incomplete = v;
                    return Ok(());
                },
                None => {
                    return Err(bad_value_error("line", opt, val));
                },
            }
        }
        if same_str(opt, "viewport_height") {
            self.viewport_height = owned(val);
            return Ok(());
        }
        if same_str(opt, "line_numbers") {
            match parse_bool(val) {
                Some(v) => {
                    self.line_numbers = v;
                    return Ok(());
                },
                None => {
                    return Err(bad_value_error("line", opt, val));
                },
            }
        }
        if same_str(opt, "scroll_offset") {
            match parse_usize(val) {
                Some(v) => {
                    self.scroll_offset = v;
                    return Ok(());
                },
                None => {
                    return Err(bad_value_error("line", opt, val));
                },
            }
        }
        if same_str(opt, "tab_width") {
            match parse_usize(val) {
                Some(v) => {
                    self.tab_width = v;
                    return Ok(());
                },
                None => {
                    return Err(bad_value_error("line", opt, val));
                },
            }
        }
        if same_str(opt, "auto_indent") {
            match parse_bool(val) {
                Some(v) => {
                    self.auto_indent = v;
                    return Ok(());
                },
                None => {
                    return Err(bad_value_error("line", opt, val));
                },
            }
        }
        if same_str(opt, "auto_suggest") {
            match parse_bool(val) {
                Some(v) => {
                    self.auto_suggest = v;
                    return Ok(());
                },
                None => {
                    return Err(bad_value_error("line", opt, val));
                },
            }
        }
        Err(no_option_error("line", opt))
    }

    /// All options of the group.
    pub fn to_string(&self) -> (r: String)
        ensures
            r@ == self.listing(),
    {
        let mut out: String = String::new();
        assert(out@ =~= Seq::empty());
        let v = show_bool(self.linebreak_on_incomplete);
        push_row(&mut out, "line", "linebreak_on_incomplete", v.as_str());
        let v = self.viewport_height.clone();
        push_row(&mut out, "line", "viewport_height", v.as_str());
        let v = show_bool(self.line_numbers);
        push_row(&mut out, "line", "line_numbers", v.as_str());
        let v = decimal_string(self.scroll_offset);
        push_row(&mut out, "line", "scroll_offset", v.as_str());
        let v = decimal_string(self.tab_width);
        push_row(&mut out, "line", "tab_width", v.as_str());
        let v = show_bool(self.auto_indent);
        push_row(&mut out, "line", "auto_indent", v.as_str());
        let v = show_bool(self.auto_suggest);
        push_row(&mut out, "line", "auto_suggest", v.as_str());
        out
    }

    /// What an option is for and what it is set to; without an option, all of
    /// them.
    pub fn get(&self, query: &str) -> (r: Result<Option<String>, String>)
        ensures
            query@.len() == 0 ==> r is Ok && r->Ok_0 is Some && (r->Ok_0)->0@ == self.listing(),
            query@.len() > 0 ==> match self.value(query@) {
                Some(v) => r is Ok && r->Ok_0 is Some && (r->Ok_0)->0@ == ShOptLine::doc(query@) + v,
                None => r is Err && r->Err_0@ == no_option("line"@, query@),
            },
    {
        let q = chars_of(query);
        if q.len() == 0 {
            return Ok(Some(self.to_string()));
        }
        if same_str(query, "linebreak_on_incomplete") {
            let mut s = owned(" Whether to automatically insert a newline when the input is incomplete\n");
            let v = show_bool(self.linebreak_on_incomplete);
            s.push_str(v.as_str());
            return Ok(Some(s));
        }
        if same_str(query, "viewport_height") {
            let mut s = owned(" The maximum height of the line editor viewport window. Can be a positive number or a percentage of terminal height like \"50%\"\n");
            let v = self.viewport_height.clone();
            s.push_str(v.as_str());
            return Ok(Some(s));
        }
        if same_str(query, "line_numbers") {
            let mut s = owned(" Whether to display line numbers in multiline input\n");
            let v = show_bool(self.line_numbers);
            s.push_str(v.as_str());
            return Ok(Some(s));
        }
        if same_str(query, "scroll_offset") {
            let mut s = owned(" The line offset from the top or bottom of the viewport to trigger scrolling\n");
            let v = decimal_string(self.scroll_offset);
            s.push_str(v.as_str());
            return Ok(Some(s));
        }
        if same_str(query, "tab_width") {
            let mut s = owned(" The number of spaces a tab character represents in the line editor\n");
            let v = decimal_string(self.tab_width);
            s.push_str(v.as_str());
            return Ok(Some(s));
        }
        if same_str(query, "auto_indent") {
            let mut s = owned(" Whether to automatically indent new lines in multiline commands\n");
            let v = show_bool(self.auto_indent);
            s.push_str(v.as_str());
            return Ok(Some(s));
        }
        if same_str(query, "auto_suggest") {
            let mut s = owned(" Whether to suggest commands from history as commands are typed\n");
            let v = show_bool(self.auto_suggest);
            s.push_str(v.as_str());
            return Ok(Some(s));
        }
        Err(no_option_error("line", query))
    }
}

/// The options that scripts set.
#[derive(Debug)]
pub struct ShOptSet {
    /// If set, the shell will remember the full path of commands and use that information to speed up command lookup
    pub hashall: bool,
    /// Enables modal line editing mode.
    pub vi: bool,
    /// If set, all variables that are assigned will be automatically exported to the environment of subsequently executed commands
    pub allexport: bool,
    /// If set, the shell will exit immediately if any command exits with a non-zero status, with some exceptions
    pub errexit: bool,
    /// If set, '>' and '>>' redirections will fail if the target file already exists
    pub noclobber: bool,
    /// If set, jobs run in their own process groups, and report status before the next prompt.
    pub monitor: bool,
    /// If set, filename expansion (globbing) is disabled
    pub noglob: bool,
    /// If set, the shell will not execute any interpreted commands. Useful for testing scripts.
    pub noexec: bool,
    /// If set, function definitions will not be written to command history.
    pub nolog: bool,
    /// If set, the shell will print job status info asynchronously when jobs exit or are stopped
    pub notify: bool,
    /// If set, attempting to expand an unset variable besides '$*' or '@' is an error
    pub nounset: bool,
    /// If set, the shell will write it's input to stderr as it is read.
    pub verbose: bool,
    /// If set, the shell will write a trace for each command after it is expanded but before it is executed.
    pub xtrace: bool,
}

impl Default for ShOptSet {
    fn default() -> (r: Self)
        ensures
            r.is_default(),
    {
        ShOptSet {
            hashall: true,
            vi: false,
            allexport: false,
            errexit: false,
            noclobber: false,
            monitor: true,
            noglob: false,
            noexec: false,
            nolog: false,
            notify: false,
            nounset: false,
            verbose: false,
            xtrace: false,
        }
    }
}

impl ShOptSet {
    /// The options before any is set.
    pub open spec fn is_default(self) -> bool {
        &&& self.hashall
        &&& !self.vi
        &&& !self.allexport
        &&& !self.errexit
        &&& !self.noclobber
        &&& self.monitor
        &&& !self.noglob
        &&& !self.noexec
        &&& !self.nolog
        &&& !self.notify
        &&& !self.nounset
        &&& !self.verbose
        &&& !self.xtrace
    }

    /// What an option is set to, in words.
    pub open spec fn value(self, opt: Seq<char>) -> Option<Seq<char>> {
        if opt == "hashall"@ {
            Some(bool_text(self.hashall))
        } else if opt == "vi"@ {
            Some(bool_text(self.vi))
        } else if opt == "allexport"@ {
            Some(bool_text(self.allexport))
        } else if opt == "errexit"@ {
            Some(bool_text(self.errexit))
        } else if opt == "noclobber"@ {
            Some(bool_text(self.noclobber))
        } else if opt == "monitor"@ {
            Some(bool_text(self.monitor))
        } else if opt == "noglob"@ {
            Some(bool_text(self.noglob))
        } else if opt == "noexec"@ {
            Some(bool_text(self.noexec))
        } else if opt == "nolog"@ {
            Some(bool_text(self.nolog))
        } else if opt == "notify"@ {
            Some(bool_text(self.notify))
        } else if opt == "nounset"@ {
            Some(bool_text(self.nounset))
        } else if opt == "verbose"@ {
            Some(bool_text(self.verbose))
        } else if opt == "xtrace"@ {
            Some(bool_text(self.xtrace))
        } else {
            None
        }
    }

    /// What an option is for.
    pub open spec fn doc(opt: Seq<char>) -> Seq<char> {
        if opt == "hashall"@ {
            " If set, the shell will remember the full path of commands and use that information to speed up command lookup\n"@
        } else if opt == "vi"@ {
            " Enables modal line editing mode.\n"@
        } else if opt == "allexport"@ {
            " If set, all variables that are assigned will be automatically exported to the environment of subsequently executed commands\n"@
        } else if opt == "errexit"@ {
            " If set, the shell will exit immediately if any command exits with a non-zero status, with some exceptions\n"@
        } else if opt == "noclobber"@ {
            " If set, '>' and '>>' redirections will fail if the target file already exists\n"@
        } else if opt == "monitor"@ {
            " If set, jobs run in their own process groups, and report status before the next prompt.\n"@
        } else if opt == "noglob"@ {
            " If set, filename expansion (globbing) is disabled\n"@
        } else if opt == "noexec"@ {
            " If set, the shell will not execute any interpreted commands. Useful for testing scripts.\n"@
        } else if opt == "nolog"@ {
            " If set, function definitions will not be written to command history.\n"@
        } else if opt == "notify"@ {
            " If set, the shell will print job status info asynchronously when jobs exit or are stopped\n"@
        } else if opt == "nounset"@ {
            " If set, attempting to expand an unset variable besides '$*' or '@' is an error\n"@
        } else if opt == "verbose"@ {
            " If set, the shell will write it's input to stderr as it is read.\n"@
        } else if opt == "xtrace"@ {
            " If set, the shell will write a trace for each command after it is expanded but before it is executed.\n"@
        } else {
            Seq::empty()
        }
    }

    /// What becomes of setting an option.
    pub open spec fn verdict(opt: Seq<char>, val: Seq<char>) -> Put {
        if opt == "hashall"@ {
            if parsed_bool(val) is Some {
                Put::Done
            } else {
                Put::BadValue
            }
        } else if opt == "vi"@ {
            if parsed_bool(val) is Some {
                Put::Done
            } else {
                Put::BadValue
            }
        } else if opt == "allexport"@ {
            if parsed_bool(val) is Some {
                Put::Done
            } else {
                Put::BadValue
            }
        } else if opt == "errexit"@ {
            if parsed_bool(val) is Some {
                Put::Done
            } else {
                Put::BadValue
            }
        } else if opt == "noclobber"@ {
            if parsed_bool(val) is Some {
                Put::Done
            } else {
                Put::BadValue
            }
        } else if opt == "monitor"@ {
            if parsed_bool(val) is Some {
                Put::Done
            } else {
                Put::BadValue
            }
        } else if opt == "noglob"@ {
            if parsed_bool(val) is Some {
                Put::Done
            } else {
                Put::BadValue
            }
        } else if opt == "noexec"@ {
            if parsed_bool(val) is Some {
                Put::Done
            } else {
                Put::BadValue
            }
        } else if opt == "nolog"@ {
            if parsed_bool(val) is Some {
                Put::Done
            } else {
                Put::BadValue
            }
        } else if opt == "notify"@ {
            if parsed_bool(val) is Some {
                Put::Done
            } else {
                Put::BadValue
            }
        } else if opt == "nounset"@ {
            if parsed_bool(val) is Some {
                Put::Done
            } else {
                Put::BadValue
            }
        } else if opt == "verbose"@ {
            if parsed_bool(val) is Some {
                Put::Done
            } else {
                Put::BadValue
            }
        } else if opt == "xtrace"@ {
            if parsed_bool(val) is Some {
                Put::Done
            } else {
                Put::BadValue
            }
        } else {
            Put::Unknown
        }
    }

    /// Whether an option is set, and nothing else is changed.
    pub open spec fn is_set(a: ShOptSet, b: ShOptSet, opt: Seq<char>, val: Seq<char>) -> bool {
        if opt == "hashall"@ {
            b == (ShOptSet { hashall: parsed_bool(val)->0, ..a })
        } else if opt == "vi"@ {
            b == (ShOptSet { vi: parsed_bool(val)->0, ..a })
        } else if opt == "allexport"@ {
            b == (ShOptSet { allexport: parsed_bool(val)->0, ..a })
        } else if opt == "errexit"@ {
            b == (ShOptSet { errexit: parsed_bool(val)->0, ..a })
        } else if opt == "noclobber"@ {
            b == (ShOptSet { noclobber: parsed_bool(val)->0, ..a })
        } else if opt == "monitor"@ {
            b == (ShOptSet { monitor: parsed_bool(val)->0, ..a })
        } else if opt == "noglob"@ {
            b == (ShOptSet { noglob: parsed_bool(val)->0, ..a })
        } else if opt == "noexec"@ {
            b == (ShOptSet { noexec: parsed_bool(val)->0, ..a })
        } else if opt == "nolog"@ {
            b == (ShOptSet { nolog: parsed_bool(val)->0, ..a })
        } else if opt == "notify"@ {
            b == (ShOptSet { notify: parsed_bool(val)->0, ..a })
        } else if opt == "nounset"@ {
            b == (ShOptSet { nounset: parsed_bool(val)->0, ..a })
        } else if opt == "verbose"@ {
            b == (ShOptSet { verbose: parsed_bool(val)->0, ..a })
        } else if opt == "xtrace"@ {
            b == (ShOptSet { xtrace: parsed_bool(val)->0, ..a })
        } else {
            b == a
        }
    }

    /// All options of the group.
    pub open spec fn listing(self) -> Seq<char> {
        let s = (Seq::<char>::empty() + row("set"@, "hashall"@, bool_text(self.hashall))).push('\n');
        let s = (s + row("set"@, "vi"@, bool_text(self.vi))).push('\n');
        let s = (s + row("set"@, "allexport"@, bool_text(self.allexport))).push('\n');
        let s = (s + row("set"@, "errexit"@, bool_text(self.errexit))).push('\n');
        let s = (s + row("set"@, "noclobber"@, bool_text(self.noclobber))).push('\n');
        let s = (s + row("set"@, "monitor"@, bool_text(self.monitor))).push('\n');
        let s = (s + row("set"@, "noglob"@, bool_text(self.noglob))).push('\n');
        let s = (s + row("set"@, "noexec"@, bool_text(self.noexec))).push('\n');
        let s = (s + row("set"@, "nolog"@, bool_text(self.nolog))).push('\n');
        let s = (s + row("set"@, "notify"@, bool_text(self.notify))).push('\n');
        let s = (s + row("set"@, "nounset"@, bool_text(self.nounset))).push('\n');
        let s = (s + row("set"@, "verbose"@, bool_text(self.verbose))).push('\n');
        let s = (s + row("set"@, "xtrace"@, bool_text(self.xtrace))).push('\n');
        s
    }

    /// How a value shows once it is set.
    pub open spec fn normal(opt: Seq<char>, val: Seq<char>) -> Seq<char> {
        val
    }

    /// An option that was set shows its value.
    #[verifier::rlimit(60)]
    pub proof fn set_option_shows(a: ShOptSet, b: ShOptSet, opt: Seq<char>, val: Seq<char>)
        requires
            ShOptSet::verdict(opt, val) is Done,
            ShOptSet::is_set(a, b, opt, val),
        ensures
            b.value(opt) == Some(ShOptSet::normal(opt, val)),
    {
        lemma_bool_shows(val);
    }

    /// Only an option with a name can be set.
    proof fn lemma_named(opt: Seq<char>, val: Seq<char>)
        requires
            ShOptSet::verdict(opt, val) is Done,
        ensures
            opt.len() > 0,
    {
        reveal_strlit("hashall");
        reveal_strlit("vi");
        reveal_strlit("allexport");
        reveal_strlit("errexit");
        reveal_strlit("noclobber");
        reveal_strlit("monitor");
        reveal_strlit("noglob");
        reveal_strlit("noexec");
        reveal_strlit("nolog");
        reveal_strlit("notify");
        reveal_strlit("nounset");
        reveal_strlit("verbose");
        reveal_strlit("xtrace");
    }

    /// Setting an option leaves the others as they were.
    #[verifier::rlimit(60)]
    pub proof fn setting_keeps_the_others(
        a: ShOptSet,
        b: ShOptSet,
        opt: Seq<char>,
        val: Seq<char>,
        o: Seq<char>,
    )
        requires
            ShOptSet::is_set(a, b, opt, val),
            o != opt,
        ensures
            b.value(o) == a.value(o),
    {
    }

    /// Sets an option.
    pub fn set(&mut self, opt: &str, val: &str) -> (r: Result<(), String>)
        ensures
            put_told(ShOptSet::verdict(opt@, val@), "set"@, opt@, val@, r),
            r is Ok ==> ShOptSet::is_set(*old(self), *final(self), opt@, val@),
            r is Err ==> *final(self) == *old(self),
    {
        if same_str(opt, "hashall") {
            match parse_bool(val) {
                Some(v) => {
                    self.hashall = v;
                    return Ok(());
                },
                None => {
                    return Err(bad_value_error("set", opt, val));
                },
            }
        }
        if same_str(opt, "vi") {
            match parse_bool(val) {
                Some(v) => {
                    self.vi = v;
                    return Ok(());
                },
                None => {
                    return Err(bad_value_error("set", opt, val));
                },
            }
        }
        if same_str(opt, "allexport") {
            match parse_bool(val) {
                Some(v) => {
                    self.allexport = v;
                    return Ok(());
                },
                None => {
                    return Err(bad_value_error("set", opt, val));
                },
            }
        }
        if same_str(opt, "errexit") {
            match parse_bool(val) {
                Some(v) => {
                    self.errexit = v;
                    return Ok(());
                },
                None => {
                    return Err(bad_value_error("set", opt, val));
                },
            }
        }
        if same_str(opt, "noclobber") {
            match parse_bool(val) {
                Some(v) => {
                    self.noclobber = v;
                    return Ok(());
                },
                None => {
                    return Err(bad_value_error("set", opt, val));
                },
            }
        }
        if same_str(opt, "monitor") {
            match parse_bool(val) {
                Some(v) => {
                    self.monitor = v;
                    return Ok(());
                },
                None => {
                    return Err(bad_value_error("set", opt, val));
                },
            }
        }
        if same_str(opt, "noglob") {
            match parse_bool(val) {
                Some(v) => {
                    self.noglob = v;
                    return Ok(());
                },
                None => {
                    return Err(bad_value_error("set", opt, val));
                },
            }
        }
        if same_str(opt, "noexec") {
            match parse_bool(val) {
                Some(v) => {
                    self.noexec = v;
                    return Ok(());
                },
                None => {
                    return Err(bad_value_error("set", opt, val));
                },
            }
        }
        if same_str(opt, "nolog") {
            match parse_bool(val) {
                Some(v) => {
                    self.nolog = v;
                    return Ok(());
                },
                None => {
                    return Err(bad_value_error("set", opt, val));
                },
            }
        }
        if same_str(opt, "notify") {
            match parse_bool(val) {
                Some(v) => {
                    self.notify = v;
                    return Ok(());
                },
                None => {
                    return Err(bad_value_error("set", opt, val));
                },
            }
        }
        if same_str(opt, "nounset") {
            match parse_bool(val) {
                Some(v) => {
                    self.nounset = v;
                    return Ok(());
                },
                None => {
                    return Err(bad_value_error("set", opt, val));
                },
            }
        }
        if same_str(opt, "verbose") {
            match parse_bool(val) {
                Some(v) => {
                    self.verbose = v;
                    return Ok(());
                },
                None => {
                    return Err(bad_value_error("set", opt, val));
                },
            }
        }
        if same_str(opt, "xtrace") {
            match parse_bool(val) {
                Some(v) => {
                    self.xtrace = v;
                    return Ok(());
                },
                None => {
                    return Err(bad_value_error("set", opt, val));
                },
            }
        }
        Err(no_option_error("set", opt))
    }

    /// All options of the group.
    pub fn to_string(&self) -> (r: String)
        ensures
            r@ == self.listing(),
    {
        let mut out: String = String::new();
        assert(out@ =~= Seq::empty());
        let v = show_bool(self.hashall);
        push_row(&mut out, "set", "hashall", v.as_str());
        let v = show_bool(self.vi);
        push_row(&mut out, "set", "vi", v.as_str());
        let v = show_bool(self.allexport);
        push_row(&mut out, "set", "allexport", v.as_str());
        let v = show_bool(self.errexit);
        push_row(&mut out, "set", "errexit", v.as_str());
        let v = show_bool(self.noclobber);
        push_row(&mut out, "set", "noclobber", v.as_str());
        let v = show_bool(self.monitor);
        push_row(&mut out, "set", "monitor", v.as_str());
        let v = show_bool(self.noglob);
        push_row(&mut out, "set", "noglob", v.as_str());
        let v = show_bool(self.noexec);
        push_row(&mut out, "set", "noexec", v.as_str());
        let v = show_bool(self.nolog);
        push_row(&mut out, "set", "nolog", v.as_str());
        let v = show_bool(self.notify);
        push_row(&mut out, "set", "notify", v.as_str());
        let v = show_bool(self.nounset);
        push_row(&mut out, "set", "nounset", v.as_str());
        let v = show_bool(self.verbose);
        push_row(&mut out, "set", "verbose", v.as_str());
        let v = show_bool(self.xtrace);
        push_row(&mut out, "set", "xtrace", v.as_str());
        out
    }

    /// What an option is for and what it is set to; without an option, all of
    /// them.
    pub fn get(&self, query: &str) -> (r: Result<Option<String>, String>)
        ensures
            query@.len() == 0 ==> r is Ok && r->Ok_0 is Some && (r->Ok_0)->0@ == self.listing(),
            query@.len() > 0 ==> match self.value(query@) {
                Some(v) => r is Ok && r->Ok_0 is Some && (r->Ok_0)->0@ == ShOptSet::doc(query@) + v,
                None => r is Err && r->Err_0@ == no_option("set"@, query@),
            },
    {
        let q = chars_of(query);
        if q.len() == 0 {
            return Ok(Some(self.to_string()));
        }
        if same_str(query, "hashall") {
            let mut s = owned(" If set, the shell will remember the full path of commands and use that information to speed up command lookup\n");
            let v = show_bool(self.hashall);
            s.push_str(v.as_str());
            return Ok(Some(s));
        }
        if same_str(query, "vi") {
            let mut s = owned(" Enables modal line editing mode.\n");
            let v = show_bool(self.vi);
            s.push_str(v.as_str());
            return Ok(Some(s));
        }
        if same_str(query, "allexport") {
            let mut s = owned(" If set, all variables that are assigned will be automatically exported to the environment of subsequently executed commands\n");
            let v = show_bool(self.allexport);
            s.push_str(v.as_str());
            return Ok(Some(s));
        }
        if same_str(query, "errexit") {
            let mut s = owned(" If set, the shell will exit immediately if any command exits with a non-zero status, with some exceptions\n");
            let v = show_bool(self.errexit);
            s.push_str(v.as_str());
            return Ok(Some(s));
        }
        if same_str(query, "noclobber") {
            let mut s = owned(" If set, '>' and '>>' redirections will fail if the target file already exists\n");
            let v = show_bool(self.noclobber);
            s.push_str(v.as_str());
            return Ok(Some(s));
        }
        if same_str(query, "monitor") {
            let mut s = owned(" If set, jobs run in their own process groups, and report status before the next prompt.\n");
            let v = show_bool(self.monitor);
            s.push_str(v.as_str());
            return Ok(Some(s));
        }
        if same_str(query, "noglob") {
            let mut s = owned(" If set, filename expansion (globbing) is disabled\n");
            let v = show_bool(self.noglob);
            s.push_str(v.as_str());
            return Ok(Some(s));
        }
        if same_str(query, "noexec") {
            let mut s = owned(" If set, the shell will not execute any interpreted commands. Useful for testing scripts.\n");
            let v = show_bool(self.noexec);
            s.push_str(v.as_str());
            return Ok(Some(s));
        }
        if same_str(query, "nolog") {
            let mut s = owned(" If set, function definitions will not be written to command history.\n");
            let v = show_bool(self.nolog);
            s.push_str(v.as_str());
            return Ok(Some(s));
        }
        if same_str(query, "notify") {
            let mut s = owned(" If set, the shell will print job status info asynchronously when jobs exit or are stopped\n");
            let v = show_bool(self.notify);
            s.push_str(v.as_str());
            return Ok(Some(s));
        }
        if same_str(query, "nounset") {
            let mut s = owned(" If set, attempting to expand an unset variable besides '$*' or '@' is an error\n");
            let v = show_bool(self.nounset);
            s.push_str(v.as_str());
            return Ok(Some(s));
        }
        if same_str(query, "verbose") {
            let mut s = owned(" If set, the shell will write it's input to stderr as it is read.\n");
            let v = show_bool(self.verbose);
            s.push_str(v.as_str());
            return Ok(Some(s));
        }
        if same_str(query, "xtrace") {
            let mut s = owned(" If set, the shell will write a trace for each command after it is expanded but before it is executed.\n");
            let v = show_bool(self.xtrace);
            s.push_str(v.as_str());
            return Ok(Some(s));
        }
        Err(no_option_error("set", query))
    }
}

/// How the shell works.
#[derive(Debug)]
pub struct ShOptCore {
    /// Include hidden files in glob patterns
    pub dotglob: bool,
    /// Allow navigation to directories by passing the directory as a command directly
    pub autocd: bool,
    /// Ignore consecutive duplicate command history entries
    pub hist_ignore_dupes: bool,
    /// Maximum number of entries in the command history file (-1 for unlimited)
    pub max_hist: isize,
    /// Whether or not to allow comments in interactive mode
    pub interactive_comments: bool,
    /// Whether or not to automatically save commands to the command history file
    pub auto_hist: bool,
    /// Whether or not to allow shed to trigger the terminal bell
    pub bell_enabled: bool,
    /// Maximum limit of recursive shell function calls
    pub max_recurse_depth: usize,
    /// Whether echo expands escape sequences by default
    pub xpg_echo: bool,
}

impl Default for ShOptCore {
    fn default() -> (r: Self)
        ensures
            r.is_default(),
    {
        ShOptCore {
            dotglob: false,
            autocd: false,
            hist_ignore_dupes: true,
            max_hist: 10_000,
            interactive_comments: true,
            auto_hist: true,
            bell_enabled: true,
            max_recurse_depth: 1000,
            xpg_echo: false,
        }
    }
}

impl ShOptCore {
    /// The options before any is set.
    pub open spec fn is_default(self) -> bool {
        &&& !self.dotglob
        &&& !self.autocd
        &&& self.hist_ignore_dupes
        &&& self.max_hist == 10_000
        &&& self.interactive_comments
        &&& self.auto_hist
        &&& self.bell_enabled
        &&& self.max_recurse_depth == 1000
        &&& !self.xpg_echo
    }

    /// What an option is set to, in words.
    pub open spec fn value(self, opt: Seq<char>) -> Option<Seq<char>> {
        if opt == "dotglob"@ {
            Some(bool_text(self.dotglob))
        } else if opt == "autocd"@ {
            Some(bool_text(self.autocd))
        } else if opt == "hist_ignore_dupes"@ {
            Some(bool_text(self.hist_ignore_dupes))
        } else if opt == "max_hist"@ {
            Some(signed_text(self.max_hist))
        } else if opt == "interactive_comments"@ {
            Some(bool_text(self.interactive_comments))
        } else if opt == "auto_hist"@ {
            Some(bool_text(self.auto_hist))
        } else if opt == "bell_enabled"@ {
            Some(bool_text(self.bell_enabled))
        } else if opt == "max_recurse_depth"@ {
            Some(text::decimal(self.max_recurse_depth as nat))
        } else if opt == "xpg_echo"@ {
            Some(bool_text(self.xpg_echo))
        } else {
            None
        }
    }

    /// What an option is for.
    pub open spec fn doc(opt: Seq<char>) -> Seq<char> {
        if opt == "dotglob"@ {
            " Include hidden files in glob patterns\n"@
        } else if opt == "autocd"@ {
            " Allow navigation to directories by passing the directory as a command directly\n"@
        } else if opt == "hist_ignore_dupes"@ {
            " Ignore consecutive duplicate command history entries\n"@
        } else if opt == "max_hist"@ {
            " Maximum number of entries in the command history file (-1 for unlimited)\n"@
        } else if opt == "interactive_comments"@ {
            " Whether or not to allow comments in interactive mode\n"@
        } else if opt == "auto_hist"@ {
            " Whether or not to automatically save commands to the command history file\n"@
        } else if opt == "bell_enabled"@ {
            " Whether or not to allow shed to trigger the terminal bell\n"@
        } else if opt == "max_recurse_depth"@ {
            " Maximum limit of recursive shell function calls\n"@
        } else if opt == "xpg_echo"@ {
            " Whether echo expands escape sequences by default\n"@
        } else {
            Seq::empty()
        }
    }

    /// What becomes of setting an option.
    pub open spec fn verdict(opt: Seq<char>, val: Seq<char>) -> Put {
        if opt == "dotglob"@ {
            if parsed_bool(val) is Some {
                Put::Done
            } else {
                Put::BadValue
            }
        } else if opt == "autocd"@ {
            if parsed_bool(val) is Some {
                Put::Done
            } else {
                Put::BadValue
            }
        } else if opt == "hist_ignore_dupes"@ {
            if parsed_bool(val) is Some {
                Put::Done
            } else {
                Put::BadValue
            }
        } else if opt == "max_hist"@ {
            match parsed_isize(val) {
                Some(v) => if v < -1 {
                    Put::Refused(
                        "shopt: expected a non-negative integer or -1 for max_hist value"@,
                    )
                } else {
                    Put::Done
                },
                None => Put::BadValue,
            }
        } else if opt == "interactive_comments"@ {
            if parsed_bool(val) is Some {
                Put::Done
            } else {
                Put::BadValue
            }
        } else if opt == "auto_hist"@ {
            if parsed_bool(val) is Some {
                Put::Done
            } else {
                Put::BadValue
            }
        } else if opt == "bell_enabled"@ {
            if parsed_bool(val) is Some {
                Put::Done
            } else {
                Put::BadValue
            }
        } else if opt == "max_recurse_depth"@ {
            if text::parsed_usize(val) is Some {
                Put::Done
            } else {
                Put::BadValue
            }
        } else if opt == "xpg_echo"@ {
            if parsed_bool(val) is Some {
                Put::Done
            } else {
                Put::BadValue
            }
        } else {
            Put::Unknown
        }
    }

    /// Whether an option is set, and nothing else is changed.
    pub open spec fn is_set(a: ShOptCore, b: ShOptCore, opt: Seq<char>, val: Seq<char>) -> bool {
        if opt == "dotglob"@ {
            b == (ShOptCore { dotglob: parsed_bool(val)->0, ..a })
        } else if opt == "autocd"@ {
            b == (ShOptCore { autocd: parsed_bool(val)->0, ..a })
        } else if opt == "hist_ignore_dupes"@ {
            b == (ShOptCore { hist_ignore_dupes: parsed_bool(val)->0, ..a })
        } else if opt == "max_hist"@ {
            b == (ShOptCore { max_hist: parsed_isize(val)->0, ..a })
        } else if opt == "interactive_comments"@ {
            b == (ShOptCore { interactive_comments: parsed_bool(val)->0, ..a })
        } else if opt == "auto_hist"@ {
            b == (ShOptCore { auto_hist: parsed_bool(val)->0, ..a })
        } else if opt == "bell_enabled"@ {
            b == (ShOptCore { bell_enabled: parsed_bool(val)->0, ..a })
        } else if opt == "max_recurse_depth"@ {
            b == (ShOptCore { max_recurse_depth: text::parsed_usize(val)->0, ..a })
        } else if opt == "xpg_echo"@ {
            b == (ShOptCore { xpg_echo: parsed_bool(val)->0, ..a })
        } else {
            b == a
        }
    }

    /// All options of the group.
    pub open spec fn listing(self) -> Seq<char> {
        let s = (Seq::<char>::empty() + row("core"@, "dotglob"@, bool_text(self.dotglob))).push('\n');
        let s = (s + row("core"@, "autocd"@, bool_text(self.autocd))).push('\n');
        let s = (s + row("core"@, "hist_ignore_dupes"@, bool_text(self.hist_ignore_dupes))).push('\n');
        let s = (s + row("core"@, "max_hist"@, signed_text(self.max_hist))).push('\n');
        let s = (s + row("core"@, "interactive_comments"@, bool_text(self.interactive_comments))).push('\n');
        let s = (s + row("core"@, "auto_hist"@, bool_text(self.auto_hist))).push('\n');
        let s = (s + row("core"@, "bell_enabled"@, bool_text(self.bell_enabled))).push('\n');
        let s = (s + row("core"@, "max_recurse_depth"@, text::decimal(self.max_recurse_depth as nat))).push('\n');
        let s = (s + row("core"@, "xpg_echo"@, bool_text(self.xpg_echo))).push('\n');
        s
    }

    /// How a value shows once it is set.
    pub open spec fn normal(opt: Seq<char>, val: Seq<char>) -> Seq<char> {
        if opt == "dotglob"@ {
            val
        } else if opt == "autocd"@ {
            val
        } else if opt == "hist_ignore_dupes"@ {
            val
        } else if opt == "max_hist"@ {
            signed_text(parsed_isize(val)->0)
        } else if opt == "interactive_comments"@ {
            val
        } else if opt == "auto_hist"@ {
            val
        } else if opt == "bell_enabled"@ {
            val
        } else if opt == "max_recurse_depth"@ {
            text::decimal(text::parsed_usize(val)->0 as nat)
        } else if opt == "xpg_echo"@ {
            val
        } else {
            val
        }
    }

    /// An option that was set shows its value.
    #[verifier::rlimit(60)]
    pub proof fn set_option_shows(a: ShOptCore, b: ShOptCore, opt: Seq<char>, val: Seq<char>)
        requires
            ShOptCore::verdict(opt, val) is Done,
            ShOptCore::is_set(a, b, opt, val),
        ensures
            b.value(opt) == Some(ShOptCore::normal(opt, val)),
    {
        lemma_bool_shows(val);
    }

    /// Only an option with a name can be set.
    proof fn lemma_named(opt: Seq<char>, val: Seq<char>)
        requires
            ShOptCore::verdict(opt, val) is Done,
        ensures
            opt.len() > 0,
    {
        reveal_strlit("dotglob");
        reveal_strlit("autocd");
        reveal_strlit("hist_ignore_dupes");
        reveal_strlit("max_hist");
        reveal_strlit("interactive_comments");
        reveal_strlit("auto_hist");
        reveal_strlit("bell_enabled");
        reveal_strlit("max_recurse_depth");
        reveal_strlit("xpg_echo");
    }

    /// Setting an option leaves the others as they were.
    #[verifier::rlimit(60)]
    pub proof fn setting_keeps_the_others(
        a: ShOptCore,
        b: ShOptCore,
        opt: Seq<char>,
        val: Seq<char>,
        o: Seq<char>,
    )
        requires
            ShOptCore::is_set(a, b, opt, val),
            o != opt,
        ensures
            b.value(o) == a.value(o),
    {
    }

    /// Sets an option.
    pub fn set(&mut self, opt: &str, val: &str) -> (r: Result<(), String>)
        ensures
            put_told(ShOptCore::verdict(opt@, val@), "core"@, opt@, val@, r),
            r is Ok ==> ShOptCore::is_set(*old(self), *final(self), opt@, val@),
            r is Err ==> *final(self) == *old(self),
    {
        if same_str(opt, "dotglob") {
            match parse_bool(val) {
                Some(v) => {
                    self.dotglob = v;
                    return Ok(());
                },
                None => {
                    return Err(bad_value_error("core", opt, val));
                },
            }
        }
        if same_str(opt, "autocd") {
            match parse_bool(val) {
                Some(v) => {
                    self.autocd = v;
                    return Ok(());
                },
                None => {
                    return Err(bad_value_error("core", opt, val));
                },
            }
        }
        if same_str(opt, "hist_ignore_dupes") {
            match parse_bool(val) {
                Some(v) => {
                    self.hist_ignore_dupes = v;
                    return Ok(());
                },
                None => {
                    return Err(bad_value_error("core", opt, val));
                },
            }
        }
        if same_str(opt, "max_hist") {
            match parse_isize(val) {
                Some(v) => {
                    if v < -1 {
                        return Err(
                            owned(
                                "shopt: expected a non-negative integer or -1 for max_hist value",
                            ),
                        );
                    }
                    self.max_hist = v;
                    return Ok(());
                },
                None => {
                    return Err(bad_value_error("core", opt, val));
                },
            }
        }
        if same_str(opt, "interactive_comments") {
            match parse_bool(val) {
                Some(v) => {
                    self.interactive_comments = v;
                    return Ok(());
                },
                None => {
                    return Err(bad_value_error("core", opt, val));
                },
            }
        }
        if same_str(opt, "auto_hist") {
            match parse_bool(val) {
                Some(v) => {
                    self.auto_hist = v;
                    return Ok(());
                },
                None => {
                    return Err(bad_value_error("core", opt, val));
                },
            }
        }
        if same_str(opt, "bell_enabled") {
            match parse_bool(val) {
                Some(v) => {
                    self.bell_enabled = v;
                    return Ok(());
                },
                None => {
                    return Err(bad_value_error("core", opt, val));
                },
            }
        }
        if same_str(opt, "max_recurse_depth") {
            match parse_usize(val) {
                Some(v) => {
                    self.max_recurse_depth = v;
                    return Ok(());
                },
                None => {
                    return Err(bad_value_error("core", opt, val));
                },
            }
        }
        if same_str(opt, "xpg_echo") {
            match parse_bool(val) {
                Some(v) => {
                    self.xpg_echo = v;
                    return Ok(());
                },
                None => {
                    return Err(bad_value_error("core", opt, val));
                },
            }
        }
        Err(no_option_error("core", opt))
    }

    /// All options of the group.
    pub fn to_string(&self) -> (r: String)
        ensures
            r@ == self.listing(),
    {
        let mut out: String = String::new();
        assert(out@ =~= Seq::empty());
        let v = show_bool(self.dotglob);
        push_row(&mut out, "core", "dotglob", v.as_str());
        let v = show_bool(self.autocd);
        push_row(&mut out, "core", "autocd", v.as_str());
        let v = show_bool(self.hist_ignore_dupes);
        push_row(&mut out, "core", "hist_ignore_dupes", v.as_str());
        let v = show_isize(self.max_hist);
        push_row(&mut out, "core", "max_hist", v.as_str());
        let v = show_bool(self.interactive_comments);
        push_row(&mut out, "core", "interactive_comments", v.as_str());
        let v = show_bool(self.auto_hist);
        push_row(&mut out, "core", "auto_hist", v.as_str());
        let v = show_bool(self.bell_enabled);
        push_row(&mut out, "core", "bell_enabled", v.as_str());
        let v = decimal_string(self.max_recurse_depth);
        push_row(&mut out, "core", "max_recurse_depth", v.as_str());
        let v = show_bool(self.xpg_echo);
        push_row(&mut out, "core", "xpg_echo", v.as_str());
        out
    }

    /// What an option is for and what it is set to; without an option, all of
    /// them.
    pub fn get(&self, query: &str) -> (r: Result<Option<String>, String>)
        ensures
            query@.len() == 0 ==> r is Ok && r->Ok_0 is Some && (r->Ok_0)->0@ == self.listing(),
            query@.len() > 0 ==> match self.value(query@) {
                Some(v) => r is Ok && r->Ok_0 is Some && (r->Ok_0)->0@ == ShOptCore::doc(query@) + v,
                None => r is Err && r->Err_0@ == no_option("core"@, query@),
            },
    {
        let q = chars_of(query);
        if q.len() == 0 {
            return Ok(Some(self.to_string()));
        }
        if same_str(query, "dotglob") {
            let mut s = owned(" Include hidden files in glob patterns\n");
            let v = show_bool(self.dotglob);
            s.push_str(v.as_str());
            return Ok(Some(s));
        }
        if same_str(query, "autocd") {
            let mut s = owned(" Allow navigation to directories by passing the directory as a command directly\n");
            let v = show_bool(self.autocd);
            s.push_str(v.as_str());
            return Ok(Some(s));
        }
        if same_str(query, "hist_ignore_dupes") {
            let mut s = owned(" Ignore consecutive duplicate command history entries\n");
            let v = show_bool(self.hist_ignore_dupes);
            s.push_str(v.as_str());
            return Ok(Some(s));
        }
        if same_str(query, "max_hist") {
            let mut s = owned(" Maximum number of entries in the command history file (-1 for unlimited)\n");
            let v = show_isize(self.max_hist);
            s.push_str(v.as_str());
            return Ok(Some(s));
        }
        if same_str(query, "interactive_comments") {
            let mut s = owned(" Whether or not to allow comments in interactive mode\n");
            let v = show_bool(self.interactive_comments);
            s.push_str(v.as_str());
            return Ok(Some(s));
        }
        if same_str(query, "auto_hist") {
            let mut s = owned(" Whether or not to automatically save commands to the command history file\n");
            let v = show_bool(self.auto_hist);
            s.push_str(v.as_str());
            return Ok(Some(s));
        }
        if same_str(query, "bell_enabled") {
            let mut s = owned(" Whether or not to allow shed to trigger the terminal bell\n");
            let v = show_bool(self.bell_enabled);
            s.push_str(v.as_str());
            return Ok(Some(s));
        }
        if same_str(query, "max_recurse_depth") {
            let mut s = owned(" Maximum limit of recursive shell function calls\n");
            let v = decimal_string(self.max_recurse_depth);
            s.push_str(v.as_str());
            return Ok(Some(s));
        }
        if same_str(query, "xpg_echo") {
            let mut s = owned(" Whether echo expands escape sequences by default\n");
            let v = show_bool(self.xpg_echo);
            s.push_str(v.as_str());
            return Ok(Some(s));
        }
        Err(no_option_error("core", query))
    }
}

/// How the prompt works.
#[derive(Debug)]
pub struct ShOptPrompt {
    /// Maximum number of path segments used in the '\W' prompt escape sequence
    pub trunc_prompt_path: usize,
    /// Maximum number of completion candidates displayed upon pressing tab
    pub comp_limit: usize,
    /// The leader key sequence used in keymap bindings
    pub leader: String,
    /// Command to execute as a screensaver after idle timeout
    pub screensaver_cmd: String,
    /// Idle time in seconds before running screensaver_cmd (0 = disabled)
    pub screensaver_idle_time: usize,
    /// Whether tab completion matching is case-insensitive
    pub completion_ignore_case: bool,
    /// If set, enables history concatenation with Shift+Up/Down
    pub hist_cat: bool,
    /// If set, expands aliases on the prompt instead of after submitting
    pub expand_aliases: bool,
}

impl Default for ShOptPrompt {
    fn default() -> (r: Self)
        ensures
            r.is_default(),
    {
        ShOptPrompt {
            trunc_prompt_path: 4,
            comp_limit: 100,
            leader: owned(" "),
            screensaver_cmd: owned(""),
            screensaver_idle_time: 0,
            completion_ignore_case: false,
            hist_cat: true,
            expand_aliases: true,
        }
    }
}

impl ShOptPrompt {
    /// The options before any is set.
    pub open spec fn is_default(self) -> bool {
        &&& self.trunc_prompt_path == 4
        &&& self.comp_limit == 100
        &&& self.leader@ == " "@
        &&& self.screensaver_cmd@ == ""@
        &&& self.screensaver_idle_time == 0
        &&& !self.completion_ignore_case
        &&& self.hist_cat
        &&& self.expand_aliases
    }

    /// What an option is set to, in words.
    pub open spec fn value(self, opt: Seq<char>) -> Option<Seq<char>> {
        if opt == "trunc_prompt_path"@ {
            Some(text::decimal(self.trunc_prompt_path as nat))
        } else if opt == "comp_limit"@ {
            Some(text::decimal(self.comp_limit as nat))
        } else if opt == "leader"@ {
            Some(self.leader@)
        } else if opt == "screensaver_cmd"@ {
            Some(self.screensaver_cmd@)
        } else if opt == "screensaver_idle_time"@ {
            Some(text::decimal(self.screensaver_idle_time as nat))
        } else if opt == "completion_ignore_case"@ {
            Some(bool_text(self.completion_ignore_case))
        } else if opt == "hist_cat"@ {
            Some(bool_text(self.hist_cat))
        } else if opt == "expand_aliases"@ {
            Some(bool_text(self.expand_aliases))
        } else {
            None
        }
    }

    /// What an option is for.
    pub open spec fn doc(opt: Seq<char>) -> Seq<char> {
        if opt == "trunc_prompt_path"@ {
            " Maximum number of path segments used in the '\\W' prompt escape sequence\n"@
        } else if opt == "comp_limit"@ {
            " Maximum number of completion candidates displayed upon pressing tab\n"@
        } else if opt == "leader"@ {
            " The leader key sequence used in keymap bindings\n"@
        } else if opt == "screensaver_cmd"@ {
            " Command to execute as a screensaver after idle timeout\n"@
        } else if opt == "screensaver_idle_time"@ {
            " Idle time in seconds before running screensaver_cmd (0 = disabled)\n"@
        } else if opt == "completion_ignore_case"@ {
            " Whether tab completion matching is case-insensitive\n"@
        } else if opt == "hist_cat"@ {
            " If set, enables history concatenation with Shift+Up/Down\n"@
        } else if opt == "expand_aliases"@ {
            " If set, expands aliases on the prompt instead of after submitting\n"@
        } else {
            Seq::empty()
        }
    }

    /// What becomes of setting an option.
    pub open spec fn verdict(opt: Seq<char>, val: Seq<char>) -> Put {
        if opt == "trunc_prompt_path"@ {
            if text::parsed_usize(val) is Some {
                Put::Done
            } else {
                Put::BadValue
            }
        } else if opt == "comp_limit"@ {
            if text::parsed_usize(val) is Some {
                Put::Done
            } else {
                Put::BadValue
            }
        } else if opt == "leader"@ {
            Put::Done
        } else if opt == "screensaver_cmd"@ {
            Put::Done
        } else if opt == "screensaver_idle_time"@ {
            if text::parsed_usize(val) is Some {
                Put::Done
            } else {
                Put::BadValue
            }
        } else if opt == "completion_ignore_case"@ {
            if parsed_bool(val) is Some {
                Put::Done
            } else {
                Put::BadValue
            }
        } else if opt == "hist_cat"@ {
            if parsed_bool(val) is Some {
                Put::Done
            } else {
                Put::BadValue
            }
        } else if opt == "expand_aliases"@ {
            if parsed_bool(val) is Some {
                Put::Done
            } else {
                Put::BadValue
            }
        } else {
            Put::Unknown
        }
    }

    /// Whether an option is set, and nothing else is changed.
    pub open spec fn is_set(a: ShOptPrompt, b: ShOptPrompt, opt: Seq<char>, val: Seq<char>) -> bool {
        if opt == "trunc_prompt_path"@ {
            b == (ShOptPrompt { trunc_prompt_path: text::parsed_usize(val)->0, ..a })
        } else if opt == "comp_limit"@ {
            b == (ShOptPrompt { comp_limit: text::parsed_usize(val)->0, ..a })
        } else if opt == "leader"@ {
            b.leader@ == val && b == (ShOptPrompt { leader: b.leader, ..a })
        } else if opt == "screensaver_cmd"@ {
            b.screensaver_cmd@ == val && b == (ShOptPrompt { screensaver_cmd: b.screensaver_cmd, ..a })
        } else if opt == "screensaver_idle_time"@ {
            b == (ShOptPrompt { screensaver_idle_time: text::parsed_usize(val)->0, ..a })
        } else if opt == "completion_ignore_case"@ {
            b == (ShOptPrompt { completion_ignore_case: parsed_bool(val)->0, ..a })
        } else if opt == "hist_cat"@ {
            b == (ShOptPrompt { hist_cat: parsed_bool(val)->0, ..a })
        } else if opt == "expand_aliases"@ {
            b == (ShOptPrompt { expand_aliases: parsed_bool(val)->0, ..a })
        } else {
            b == a
        }
    }

    /// All options of the group.
    pub open spec fn listing(self) -> Seq<char> {
        let s = (Seq::<char>::empty() + row("prompt"@, "trunc_prompt_path"@, text::decimal(self.trunc_prompt_path as nat))).push('\n');
        let s = (s + row("prompt"@, "comp_limit"@, text::decimal(self.comp_limit as nat))).push('\n');
        let s = (s + row("prompt"@, "leader"@, self.leader@)).push('\n');
        let s = (s + row("prompt"@, "screensaver_cmd"@, self.screensaver_cmd@)).push('\n');
        let s = (s + row("prompt"@, "screensaver_idle_time"@, text::decimal(self.screensaver_idle_time as nat))).push('\n');
        let s = (s + row("prompt"@, "completion_ignore_case"@, bool_text(self.completion_ignore_case))).push('\n');
        let s = (s + row("prompt"@, "hist_cat"@, bool_text(self.hist_cat))).push('\n');
        let s = (s + row("prompt"@, "expand_aliases"@, bool_text(self.expand_aliases))).push('\n');
        s
    }

    /// How a value shows once it is set.
    pub open spec fn normal(opt: Seq<char>, val: Seq<char>) -> Seq<char> {
        if opt == "trunc_prompt_path"@ {
            text::decimal(text::parsed_usize(val)->0 as nat)
        } else if opt == "comp_limit"@ {
            text::decimal(text::parsed_usize(val)->0 as nat)
        } else if opt == "leader"@ {
            val
        } else if opt == "screensaver_cmd"@ {
            val
        } else if opt == "screensaver_idle_time"@ {
            text::decimal(text::parsed_usize(val)->0 as nat)
        } else if opt == "completion_ignore_case"@ {
            val
        } else if opt == "hist_cat"@ {
            val
        } else if opt == "expand_aliases"@ {
            val
        } else {
            val
        }
    }

    /// An option that was set shows its value.
    #[verifier::rlimit(60)]
    pub proof fn set_option_shows(a: ShOptPrompt, b: ShOptPrompt, opt: Seq<char>, val: Seq<char>)
        requires
            ShOptPrompt::verdict(opt, val) is Done,
            ShOptPrompt::is_set(a, b, opt, val),
        ensures
            b.value(opt) == Some(ShOptPrompt::normal(opt, val)),
    {
        lemma_bool_shows(val);
    }

    /// Only an option with a name can be set.
    proof fn lemma_named(opt: Seq<char>, val: Seq<char>)
        requires
            ShOptPrompt::verdict(opt, val) is Done,
        ensures
            opt.len() > 0,
    {
        reveal_strlit("trunc_prompt_path");
        reveal_strlit("comp_limit");
        reveal_strlit("leader");
        reveal_strlit("screensaver_cmd");
        reveal_strlit("screensaver_idle_time");
        reveal_strlit("completion_ignore_case");
        reveal_strlit("hist_cat");
        reveal_strlit("expand_aliases");
    }

    /// Setting an option leaves the others as they were.
    #[verifier::rlimit(60)]
    pub proof fn setting_keeps_the_others(
        a: ShOptPrompt,
        b: ShOptPrompt,
        opt: Seq<char>,
        val: Seq<char>,
        o: Seq<char>,
    )
        requires
            ShOptPrompt::is_set(a, b, opt, val),
            o != opt,
        ensures
            b.value(o) == a.value(o),
    {
    }

    /// Sets an option.
    pub fn set(&mut self, opt: &str, val: &str) -> (r: Result<(), String>)
        ensures
            put_told(ShOptPrompt::verdict(opt@, val@), "prompt"@, opt@, val@, r),
            r is Ok ==> ShOptPrompt::is_set(*old(self), *final(self), opt@, val@),
            r is Err ==> *final(self) == *old(self),
    {
        if same_str(opt, "trunc_prompt_path") {
            match parse_usize(val) {
                Some(v) => {
                    self.trunc_prompt_path = v;
                    return Ok(());
                },
                None => {
                    return Err(bad_value_error("prompt", opt, val));
                },
            }
        }
        if same_str(opt, "comp_limit") {
            match parse_usize(val) {
                Some(v) => {
                    self.comp_limit = v;
                    return Ok(());
                },
                None => {
                    return Err(bad_value_error("prompt", opt, val));
                },
            }
        }
        if same_str(opt, "leader") {
            self.leader = owned(val);
            return Ok(());
        }
        if same_str(opt, "screensaver_cmd") {
            self.screensaver_cmd = owned(val);
            return Ok(());
        }
        if same_str(opt, "screensaver_idle_time") {
            match parse_usize(val) {
                Some(v) => {
                    self.screensaver_idle_time = v;
                    return Ok(());
                },
                None => {
                    return Err(bad_value_error("prompt", opt, val));
                },
            }
        }
        if same_str(opt, "completion_ignore_case") {
            match parse_bool(val) {
                Some(v) => {
                    self.completion_ignore_case = v;
                    return Ok(());
                },
                None => {
                    return Err(bad_value_error("prompt", opt, val));
                },
            }
        }
        if same_str(opt, "hist_cat") {
            match parse_bool(val) {
                Some(v) => {
                    self.hist_cat = v;
                    return Ok(());
                },
                None => {
                    return Err(bad_value_error("prompt", opt, val));
                },
            }
        }
        if same_str(opt, "expand_aliases") {
            match parse_bool(val) {
                Some(v) => {
                    self.expand_aliases = v;
                    return Ok(());
                },
                None => {
                    return Err(bad_value_error("prompt", opt, val));
                },
            }
        }
        Err(no_option_error("prompt", opt))
    }

    /// All options of the group.
    pub fn to_string(&self) -> (r: String)
        ensures
            r@ == self.listing(),
    {
        let mut out: String = String::new();
        assert(out@ =~= Seq::empty());
        let v = decimal_string(self.trunc_prompt_path);
        push_row(&mut out, "prompt", "trunc_prompt_path", v.as_str());
        let v = decimal_string(self.comp_limit);
        push_row(&mut out, "prompt", "comp_limit", v.as_str());
        let v = self.leader.clone();
        push_row(&mut out, "prompt", "leader", v.as_str());
        let v = self.screensaver_cmd.clone();
        push_row(&mut out, "prompt", "screensaver_cmd", v.as_str());
        let v = decimal_string(self.screensaver_idle_time);
        push_row(&mut out, "prompt", "screensaver_idle_time", v.as_str());
        let v = show_bool(self.completion_ignore_case);
        push_row(&mut out, "prompt", "completion_ignore_case", v.as_str());
        let v = show_bool(self.hist_cat);
        push_row(&mut out, "prompt", "hist_cat", v.as_str());
        let v = show_bool(self.expand_aliases);
        push_row(&mut out, "prompt", "expand_aliases", v.as_str());
        out
    }

    /// What an option is for and what it is set to; without an option, all of
    /// them.
    pub fn get(&self, query: &str) -> (r: Result<Option<String>, String>)
        ensures
            query@.len() == 0 ==> r is Ok && r->Ok_0 is Some && (r->Ok_0)->0@ == self.listing(),
            query@.len() > 0 ==> match self.value(query@) {
                Some(v) => r is Ok && r->Ok_0 is Some && (r->Ok_0)->0@ == ShOptPrompt::doc(query@) + v,
                None => r is Err && r->Err_0@ == no_option("prompt"@, query@),
            },
    {
        let q = chars_of(query);
        if q.len() == 0 {
            return Ok(Some(self.to_string()));
        }
        if same_str(query, "trunc_prompt_path") {
            let mut s = owned(" Maximum number of path segments used in the '\\W' prompt escape sequence\n");
            let v = decimal_string(self.trunc_prompt_path);
            s.push_str(v.as_str());
            return Ok(Some(s));
        }
        if same_str(query, "comp_limit") {
            let mut s = owned(" Maximum number of completion candidates displayed upon pressing tab\n");
            let v = decimal_string(self.comp_limit);
            s.push_str(v.as_str());
            return Ok(Some(s));
        }
        if same_str(query, "leader") {
            let mut s = owned(" The leader key sequence used in keymap bindings\n");
            let v = self.leader.clone();
            s.push_str(v.as_str());
            return Ok(Some(s));
        }
        if same_str(query, "screensaver_cmd") {
            let mut s = owned(" Command to execute as a screensaver after idle timeout\n");
            let v = self.screensaver_cmd.clone();
            s.push_str(v.as_str());
            return Ok(Some(s));
        }
        if same_str(query, "screensaver_idle_time") {
            let mut s = owned(" Idle time in seconds before running screensaver_cmd (0 = disabled)\n");
            let v = decimal_string(self.screensaver_idle_time);
            s.push_str(v.as_str());
            return Ok(Some(s));
        }
        if same_str(query, "completion_ignore_case") {
            let mut s = owned(" Whether tab completion matching is case-insensitive\n");
            let v = show_bool(self.completion_ignore_case);
            s.push_str(v.as_str());
            return Ok(Some(s));
        }
        if same_str(query, "hist_cat") {
            let mut s = owned(" If set, enables history concatenation with Shift+Up/Down\n");
            let v = show_bool(self.hist_cat);
            s.push_str(v.as_str());
            return Ok(Some(s));
        }
        if same_str(query, "expand_aliases") {
            let mut s = owned(" If set, expands aliases on the prompt instead of after submitting\n");
            let v = show_bool(self.expand_aliases);
            s.push_str(v.as_str());
            return Ok(Some(s));
        }
        Err(no_option_error("prompt", query))
    }
}

/// The colours of the text.
#[derive(Debug)]
pub struct ShOptHighlight {
    /// Whether to enable syntax highlighting in the line editor
    pub enable: bool,
    /// The color used for highlighting strings
    pub string: String,
    /// The color used for highlighting keywords like 'if' and 'for'
    pub keyword: String,
    /// The color used for highlighting valid commands
    pub valid_command: String,
    /// The color used for highlighting invalid commands
    pub invalid_command: String,
    /// The color used for highlighting control flow keywords like 'break' and 'return'
    pub control_flow_keyword: String,
    /// The color used for highlighting command arguments
    pub argument: String,
    /// The color used for highlighting arguments that refer to existing files
    pub argument_file: String,
    /// The color used for highlighting variables
    pub variable: String,
    /// The color used for highlighting operators like pipes and redirects
    pub operator: String,
    /// The color used for highlighting comments
    pub comment: String,
    /// The color used for highlighting glob characters
    pub glob: String,
    /// The color used for highlighting the current selection
    pub selection: String,
}

impl Default for ShOptHighlight {
    fn default() -> (r: Self)
        ensures
            r.is_default(),
    {
        ShOptHighlight {
            enable: true,
            string: owned("yellow"),
            keyword: owned("yellow"),
            valid_command: owned("green"),
            invalid_command: owned("bold red"),
            control_flow_keyword: owned("magenta"),
            argument: owned("white"),
            argument_file: owned("underline white"),
            variable: owned("cyan"),
            operator: owned("bold"),
            comment: owned("italic bright black"),
            glob: owned("bright cyan"),
            selection: owned("black on white"),
        }
    }
}

impl ShOptHighlight {
    /// The options before any is set.
    pub open spec fn is_default(self) -> bool {
        &&& self.enable
        &&& self.string@ == "yellow"@
        &&& self.keyword@ == "yellow"@
        &&& self.valid_command@ == "green"@
        &&& self.invalid_command@ == "bold red"@
        &&& self.control_flow_keyword@ == "magenta"@
        &&& self.argument@ == "white"@
        &&& self.argument_file@ == "underline white"@
        &&& self.variable@ == "cyan"@
        &&& self.operator@ == "bold"@
        &&& self.comment@ == "italic bright black"@
        &&& self.glob@ == "bright cyan"@
        &&& self.selection@ == "black on white"@
    }

    /// What an option is set to, in words.
    pub open spec fn value(self, opt: Seq<char>) -> Option<Seq<char>> {
        if opt == "enable"@ {
            Some(bool_text(self.enable))
        } else if opt == "string"@ {
            Some(self.string@)
        } else if opt == "keyword"@ {
            Some(self.keyword@)
        } else if opt == "valid_command"@ {
            Some(self.valid_command@)
        } else if opt == "invalid_command"@ {
            Some(self.invalid_command@)
        } else if opt == "control_flow_keyword"@ {
            Some(self.control_flow_keyword@)
        } else if opt == "argument"@ {
            Some(self.argument@)
        } else if opt == "argument_file"@ {
            Some(self.argument_file@)
        } else if opt == "variable"@ {
            Some(self.variable@)
        } else if opt == "operator"@ {
            Some(self.operator@)
        } else if opt == "comment"@ {
            Some(self.comment@)
        } else if opt == "glob"@ {
            Some(self.glob@)
        } else if opt == "selection"@ {
            Some(self.selection@)
        } else {
            None
        }
    }

    /// What an option is for.
    pub open spec fn doc(opt: Seq<char>) -> Seq<char> {
        if opt == "enable"@ {
            " Whether to enable syntax highlighting in the line editor\n"@
        } else if opt == "string"@ {
            " The color used for highlighting strings\n"@
        } else if opt == "keyword"@ {
            " The color used for highlighting keywords like 'if' and 'for'\n"@
        } else if opt == "valid_command"@ {
            " The color used for highlighting valid commands\n"@
        } else if opt == "invalid_command"@ {
            " The color used for highlighting invalid commands\n"@
        } else if opt == "control_flow_keyword"@ {
            " The color used for highlighting control flow keywords like 'break' and 'return'\n"@
        } else if opt == "argument"@ {
            " The color used for highlighting command arguments\n"@
        } else if opt == "argument_file"@ {
            " The color used for highlighting arguments that refer to existing files\n"@
        } else if opt == "variable"@ {
            " The color used for highlighting variables\n"@
        } else if opt == "operator"@ {
            " The color used for highlighting operators like pipes and redirects\n"@
        } else if opt == "comment"@ {
            " The color used for highlighting comments\n"@
        } else if opt == "glob"@ {
            " The color used for highlighting glob characters\n"@
        } else if opt == "selection"@ {
            " The color used for highlighting the current selection\n"@
        } else {
            Seq::empty()
        }
    }

    /// What becomes of setting an option.
    pub open spec fn verdict(opt: Seq<char>, val: Seq<char>) -> Put {
        if opt == "enable"@ {
            if parsed_bool(val) is Some {
                Put::Done
            } else {
                Put::BadValue
            }
        } else if opt == "string"@ {
            Put::Done
        } else if opt == "keyword"@ {
            Put::Done
        } else if opt == "valid_command"@ {
            Put::Done
        } else if opt == "invalid_command"@ {
            Put::Done
        } else if opt == "control_flow_keyword"@ {
            Put::Done
        } else if opt == "argument"@ {
            Put::Done
        } else if opt == "argument_file"@ {
            Put::Done
        } else if opt == "variable"@ {
            Put::Done
        } else if opt == "operator"@ {
            Put::Done
        } else if opt == "comment"@ {
            Put::Done
        } else if opt == "glob"@ {
            Put::Done
        } else if opt == "selection"@ {
            Put::Done
        } else {
            Put::Unknown
        }
    }

    /// Whether an option is set, and nothing else is changed.
    pub open spec fn is_set(a: ShOptHighlight, b: ShOptHighlight, opt: Seq<char>, val: Seq<char>) -> bool {
        if opt == "enable"@ {
            b == (ShOptHighlight { enable: parsed_bool(val)->0, ..a })
        } else if opt == "string"@ {
            b.string@ == val && b == (ShOptHighlight { string: b.string, ..a })
        } else if opt == "keyword"@ {
            b.keyword@ == val && b == (ShOptHighlight { keyword: b.keyword, ..a })
        } else if opt == "valid_command"@ {
            b.valid_command@ == val && b == (ShOptHighlight { valid_command: b.valid_command, ..a })
        } else if opt == "invalid_command"@ {
            b.invalid_command@ == val && b == (ShOptHighlight { invalid_command: b.invalid_command, ..a })
        } else if opt == "control_flow_keyword"@ {
            b.control_flow_keyword@ == val && b == (ShOptHighlight { control_flow_keyword: b.control_flow_keyword, ..a })
        } else if opt == "argument"@ {
            b.argument@ == val && b == (ShOptHighlight { argument: b.argument, ..a })
        } else if opt == "argument_file"@ {
            b.argument_file@ == val && b == (ShOptHighlight { argument_file: b.argument_file, ..a })
        } else if opt == "variable"@ {
            b.variable@ == val && b == (ShOptHighlight { variable: b.variable, ..a })
        } else if opt == "operator"@ {
            b.operator@ == val && b == (ShOptHighlight { operator: b.operator, ..a })
        } else if opt == "comment"@ {
            b.comment@ == val && b == (ShOptHighlight { comment: b.comment, ..a })
        } else if opt == "glob"@ {
            b.glob@ == val && b == (ShOptHighlight { glob: b.glob, ..a })
        } else if opt == "selection"@ {
            b.selection@ == val && b == (ShOptHighlight { selection: b.selection, ..a })
        } else {
            b == a
        }
    }

    /// All options of the group.
    pub open spec fn listing(self) -> Seq<char> {
        let s = (Seq::<char>::empty() + row("highlight"@, "enable"@, bool_text(self.enable))).push('\n');
        let s = (s + row("highlight"@, "string"@, self.string@)).push('\n');
        let s = (s + row("highlight"@, "keyword"@, self.keyword@)).push('\n');
        let s = (s + row("highlight"@, "valid_command"@, self.valid_command@)).push('\n');
        let s = (s + row("highlight"@, "invalid_command"@, self.invalid_command@)).push('\n');
        let s = (s + row("highlight"@, "control_flow_keyword"@, self.control_flow_keyword@)).push('\n');
        let s = (s + row("highlight"@, "argument"@, self.argument@)).push('\n');
        let s = (s + row("highlight"@, "argument_file"@, self.argument_file@)).push('\n');
        let s = (s + row("highlight"@, "variable"@, self.variable@)).push('\n');
        let s = (s + row("highlight"@, "operator"@, self.operator@)).push('\n');
        let s = (s + row("highlight"@, "comment"@, self.comment@)).push('\n');
        let s = (s + row("highlight"@, "glob"@, self.glob@)).push('\n');
        let s = (s + row("highlight"@, "selection"@, self.selection@)).push('\n');
        s
    }

    /// How a value shows once it is set.
    pub open spec fn normal(opt: Seq<char>, val: Seq<char>) -> Seq<char> {
        val
    }

    /// An option that was set shows its value.
    #[verifier::rlimit(60)]
    pub proof fn set_option_shows(a: ShOptHighlight, b: ShOptHighlight, opt: Seq<char>, val: Seq<char>)
        requires
            ShOptHighlight::verdict(opt, val) is Done,
            ShOptHighlight::is_set(a, b, opt, val),
        ensures
            b.value(opt) == Some(ShOptHighlight::normal(opt, val)),
    {
        lemma_bool_shows(val);
    }

    /// Only an option with a name can be set.
    proof fn lemma_named(opt: Seq<char>, val: Seq<char>)
        requires
            ShOptHighlight::verdict(opt, val) is Done,
        ensures
            opt.len() > 0,
    {
        reveal_strlit("enable");
        reveal_strlit("string");
        reveal_strlit("keyword");
        reveal_strlit("valid_command");
        reveal_strlit("invalid_command");
        reveal_strlit("control_flow_keyword");
        reveal_strlit("argument");
        reveal_strlit("argument_file");
        reveal_strlit("variable");
        reveal_strlit("operator");
        reveal_strlit("comment");
        reveal_strlit("glob");
        reveal_strlit("selection");
    }

    /// Setting an option leaves the others as they were.
    #[verifier::rlimit(60)]
    pub proof fn setting_keeps_the_others(
        a: ShOptHighlight,
        b: ShOptHighlight,
        opt: Seq<char>,
        val: Seq<char>,
        o: Seq<char>,
    )
        requires
            ShOptHighlight::is_set(a, b, opt, val),
            o != opt,
        ensures
            b.value(o) == a.value(o),
    {
    }

    /// Sets an option.
    pub fn set(&mut self, opt: &str, val: &str) -> (r: Result<(), String>)
        ensures
            put_told(ShOptHighlight::verdict(opt@, val@), "highlight"@, opt@, val@, r),
            r is Ok ==> ShOptHighlight::is_set(*old(self), *final(self), opt@, val@),
            r is Err ==> *final(self) == *old(self),
    {
        if same_str(opt, "enable") {
            match parse_bool(val) {
                Some(v) => {
                    self.enable = v;
                    return Ok(());
                },
                None => {
                    return Err(bad_value_error("highlight", opt, val));
                },
            }
        }
        if same_str(opt, "string") {
            self.string = owned(val);
            return Ok(());
        }
        if same_str(opt, "keyword") {
            self.keyword = owned(val);
            return Ok(());
        }
        if same_str(opt, "valid_command") {
            self.valid_command = owned(val);
            return Ok(());
        }
        if same_str(opt, "invalid_command") {
            self.invalid_command = owned(val);
            return Ok(());
        }
        if same_str(opt, "control_flow_keyword") {
            self.control_flow_keyword = owned(val);
            return Ok(());
        }
        if same_str(opt, "argument") {
            self.argument = owned(val);
            return Ok(());
        }
        if same_str(opt, "argument_file") {
            self.argument_file = owned(val);
            return Ok(());
        }
        if same_str(opt, "variable") {
            self.variable = owned(val);
            return Ok(());
        }
        if same_str(opt, "operator") {
            self.operator = owned(val);
            return Ok(());
        }
        if same_str(opt, "comment") {
            self.comment = owned(val);
            return Ok(());
        }
        if same_str(opt, "glob") {
            self.glob = owned(val);
            return Ok(());
        }
        if same_str(opt, "selection") {
            self.selection = owned(val);
            return Ok(());
        }
        Err(no_option_error("highlight", opt))
    }

    /// All options of the group.
    pub fn to_string(&self) -> (r: String)
        ensures
            r@ == self.listing(),
    {
        let mut out: String = String::new();
        assert(out@ =~= Seq::empty());
        let v = show_bool(self.enable);
        push_row(&mut out, "highlight", "enable", v.as_str());
        let v = self.string.clone();
        push_row(&mut out, "highlight", "string", v.as_str());
        let v = self.keyword.clone();
        push_row(&mut out, "highlight", "keyword", v.as_str());
        let v = self.valid_command.clone();
        push_row(&mut out, "highlight", "valid_command", v.as_str());
        let v = self.invalid_command.clone();
        push_row(&mut out, "highlight", "invalid_command", v.as_str());
        let v = self.control_flow_keyword.clone();
        push_row(&mut out, "highlight", "control_flow_keyword", v.as_str());
        let v = self.argument.clone();
        push_row(&mut out, "highlight", "argument", v.as_str());
        let v = self.argument_file.clone();
        push_row(&mut out, "highlight", "argument_file", v.as_str());
        let v = self.variable.clone();
        push_row(&mut out, "highlight", "variable", v.as_str());
        let v = self.operator.clone();
        push_row(&mut out, "highlight", "operator", v.as_str());
        let v = self.comment.clone();
        push_row(&mut out, "highlight", "comment", v.as_str());
        let v = self.glob.clone();
        push_row(&mut out, "highlight", "glob", v.as_str());
        let v = self.selection.clone();
        push_row(&mut out, "highlight", "selection", v.as_str());
        out
    }

    /// What an option is for and what it is set to; without an option, all of
    /// them.
    pub fn get(&self, query: &str) -> (r: Result<Option<String>, String>)
        ensures
            query@.len() == 0 ==> r is Ok && r->Ok_0 is Some && (r->Ok_0)->0@ == self.listing(),
            query@.len() > 0 ==> match self.value(query@) {
                Some(v) => r is Ok && r->Ok_0 is Some && (r->Ok_0)->0@ == ShOptHighlight::doc(query@) + v,
                None => r is Err && r->Err_0@ == no_option("highlight"@, query@),
            },
    {
        let q = chars_of(query);
        if q.len() == 0 {
            return Ok(Some(self.to_string()));
        }
        if same_str(query, "enable") {
            let mut s = owned(" Whether to enable syntax highlighting in the line editor\n");
            let v = show_bool(self.enable);
            s.push_str(v.as_str());
            return Ok(Some(s));
        }
        if same_str(query, "string") {
            let mut s = owned(" The color used for highlighting strings\n");
            let v = self.string.clone();
            s.push_str(v.as_str());
            return Ok(Some(s));
        }
        if same_str(query, "keyword") {
            let mut s = owned(" The color used for highlighting keywords like 'if' and 'for'\n");
            let v = self.keyword.clone();
            s.push_str(v.as_str());
            return Ok(Some(s));
        }
        if same_str(query, "valid_command") {
            let mut s = owned(" The color used for highlighting valid commands\n");
            let v = self.valid_command.clone();
            s.push_str(v.as_str());
            return Ok(Some(s));
        }
        if same_str(query, "invalid_command") {
            let mut s = owned(" The color used for highlighting invalid commands\n");
            let v = self.invalid_command.clone();
            s.push_str(v.as_str());
            return Ok(Some(s));
        }
        if same_str(query, "control_flow_keyword") {
            let mut s = owned(" The color used for highlighting control flow keywords like 'break' and 'return'\n");
            let v = self.control_flow_keyword.clone();
            s.push_str(v.as_str());
            return Ok(Some(s));
        }
        if same_str(query, "argument") {
            let mut s = owned(" The color used for highlighting command arguments\n");
            let v = self.argument.clone();
            s.push_str(v.as_str());
            return Ok(Some(s));
        }
        if same_str(query, "argument_file") {
            let mut s = owned(" The color used for highlighting arguments that refer to existing files\n");
            let v = self.argument_file.clone();
            s.push_str(v.as_str());
            return Ok(Some(s));
        }
        if same_str(query, "variable") {
            let mut s = owned(" The color used for highlighting variables\n");
            let v = self.variable.clone();
            s.push_str(v.as_str());
            return Ok(Some(s));
        }
        if same_str(query, "operator") {
            let mut s = owned(" The color used for highlighting operators like pipes and redirects\n");
            let v = self.operator.clone();
            s.push_str(v.as_str());
            return Ok(Some(s));
        }
        if same_str(query, "comment") {
            let mut s = owned(" The color used for highlighting comments\n");
            let v = self.comment.clone();
            s.push_str(v.as_str());
            return Ok(Some(s));
        }
        if same_str(query, "glob") {
            let mut s = owned(" The color used for highlighting glob characters\n");
            let v = self.glob.clone();
            s.push_str(v.as_str());
            return Ok(Some(s));
        }
        if same_str(query, "selection") {
            let mut s = owned(" The color used for highlighting the current selection\n");
            let v = self.selection.clone();
            s.push_str(v.as_str());
            return Ok(Some(s));
        }
        Err(no_option_error("highlight", query))
    }
}

/// A text up to a character and what is behind it; all of it and nothing where
/// the character is not there.
pub open spec fn cut_at(s: Seq<char>, c: char, i: int) -> (Seq<char>, Seq<char>)
    decreases s.len() - i,
{
    if i < 0 || i >= s.len() {
        (s, Seq::empty())
    } else if s[i] == c {
        (s.take(i), s.skip(i + 1))
    } else {
        cut_at(s, c, i + 1)
    }
}

/// Cuts a text at a character, if it is there.
fn cut(s: &str, c: char) -> (r: (String, String, bool))
    ensures
        (r.0@, r.1@) == cut_at(s@, c, 0),
        r.2 == s@.contains(c),
{
    let v = chars_of(s);
    let mut i: usize = 0;
    while i < v.len()
        invariant
            i <= v@.len(),
            v@ == s@,
            cut_at(s@, c, 0) == cut_at(s@, c, i as int),
            forall|k: int| 0 <= k < i ==> s@[k] != c,
        decreases v@.len() - i,
    {
        if v[i] == c {
            let a = sub_chars(v.as_slice(), 0, i);
            let b = sub_chars(v.as_slice(), i + 1, v.len());
            assert(a@ =~= s@.take(i as int));
            assert(b@ =~= s@.skip(i + 1));
            assert(s@[i as int] == c);
            return (string_of(a.as_slice()), string_of(b.as_slice()), true);
        }
        i = i + 1;
    }
    let none: String = String::new();
    assert(none@ =~= Seq::empty());
    (owned(s), none, false)
}

/// All options.
#[derive(Debug)]
pub struct ShOpts {
    pub core: ShOptCore,
    pub line: ShOptLine,
    pub set: ShOptSet,
    pub prompt: ShOptPrompt,
    pub highlight: ShOptHighlight,
}

impl Default for ShOpts {
    fn default() -> (r: Self)
        ensures
            r.core.is_default(),
            r.line.is_default(),
            r.set.is_default(),
            r.prompt.is_default(),
            r.highlight.is_default(),
    {
        ShOpts {
            core: ShOptCore::default(),
            line: ShOptLine::default(),
            set: ShOptSet::default(),
            prompt: ShOptPrompt::default(),
            highlight: ShOptHighlight::default(),
        }
    }
}

/// The failure of a group that there is not.
pub open spec fn no_group(key: Seq<char>) -> Seq<char> {
    ("shopt: Unknown shopt set '"@ + key).push('\'')
}

fn no_group_error(key: &str) -> (r: String)
    ensures
        r@ == no_group(key@),
{
    let mut s = owned("shopt: Unknown shopt set '");
    s.push_str(key);
    s.push('\'');
    s
}

impl ShOpts {
    /// Whether an option of a group is set as it should be.
    pub open spec fn set_told(a: ShOpts, b: ShOpts, opt: Seq<char>, val: Seq<char>, r: Result<
        (),
        String,
    >) -> bool {
        let (key, rest) = cut_at(opt, '.', 0);
        if key == "core"@ {
            &&& put_told(ShOptCore::verdict(rest, val), "core"@, rest, val, r)
            &&& r is Ok ==> ShOptCore::is_set(a.core, b.core, rest, val)
            &&& r is Err ==> b.core == a.core
            &&& b == (ShOpts { core: b.core, ..a })
        } else if key == "line"@ {
            &&& put_told(ShOptLine::verdict(rest, val), "line"@, rest, val, r)
            &&& r is Ok ==> ShOptLine::is_set(a.line, b.line, rest, val)
            &&& r is Err ==> b.line == a.line
            &&& b == (ShOpts { line: b.line, ..a })
        } else if key == "set"@ {
            &&& put_told(ShOptSet::verdict(rest, val), "set"@, rest, val, r)
            &&& r is Ok ==> ShOptSet::is_set(a.set, b.set, rest, val)
            &&& r is Err ==> b.set == a.set
            &&& b == (ShOpts { set: b.set, ..a })
        } else if key == "prompt"@ {
            &&& put_told(ShOptPrompt::verdict(rest, val), "prompt"@, rest, val, r)
            &&& r is Ok ==> ShOptPrompt::is_set(a.prompt, b.prompt, rest, val)
            &&& r is Err ==> b.prompt == a.prompt
            &&& b == (ShOpts { prompt: b.prompt, ..a })
        } else if key == "highlight"@ {
            &&& put_told(ShOptHighlight::verdict(rest, val), "highlight"@, rest, val, r)
            &&& r is Ok ==> ShOptHighlight::is_set(a.highlight, b.highlight, rest, val)
            &&& r is Err ==> b.highlight == a.highlight
            &&& b == (ShOpts { highlight: b.highlight, ..a })
        } else {
            r is Err && r->Err_0@ == no_group(key) && b == a
        }
    }

    /// Sets an option, named by its group and its name.
    pub fn set(&mut self, opt: &str, val: &str) -> (r: Result<(), String>)
        ensures
            ShOpts::set_told(*old(self), *final(self), opt@, val@, r),
    {
        let (key, rest, _) = cut(opt, '.');
        if same_str(key.as_str(), "core") {
            return self.core.set(rest.as_str(), val);
        }
        if same_str(key.as_str(), "line") {
            return self.line.set(rest.as_str(), val);
        }
        if same_str(key.as_str(), "set") {
            return self.set.set(rest.as_str(), val);
        }
        if same_str(key.as_str(), "prompt") {
            return self.prompt.set(rest.as_str(), val);
        }
        if same_str(key.as_str(), "highlight") {
            return self.highlight.set(rest.as_str(), val);
        }
        Err(no_group_error(key.as_str()))
    }

    /// What is told of an option or a group.
    pub open spec fn told(self, query: Seq<char>) -> Result<Seq<char>, Seq<char>> {
        let (key, rest) = cut_at(query, '.', 0);
        if key == "core"@ {
            if rest.len() == 0 {
                Ok(self.core.listing())
            } else {
                match self.core.value(rest) {
                    Some(v) => Ok(ShOptCore::doc(rest) + v),
                    None => Err(no_option("core"@, rest)),
                }
            }
        } else if key == "line"@ {
            if rest.len() == 0 {
                Ok(self.line.listing())
            } else {
                match self.line.value(rest) {
                    Some(v) => Ok(ShOptLine::doc(rest) + v),
                    None => Err(no_option("line"@, rest)),
                }
            }
        } else if key == "set"@ {
            if rest.len() == 0 {
                Ok(self.set.listing())
            } else {
                match self.set.value(rest) {
                    Some(v) => Ok(ShOptSet::doc(rest) + v),
                    None => Err(no_option("set"@, rest)),
                }
            }
        } else if key == "prompt"@ {
            if rest.len() == 0 {
                Ok(self.prompt.listing())
            } else {
                match self.prompt.value(rest) {
                    Some(v) => Ok(ShOptPrompt::doc(rest) + v),
                    None => Err(no_option("prompt"@, rest)),
                }
            }
        } else if key == "highlight"@ {
            if rest.len() == 0 {
                Ok(self.highlight.listing())
            } else {
                match self.highlight.value(rest) {
                    Some(v) => Ok(ShOptHighlight::doc(rest) + v),
                    None => Err(no_option("highlight"@, rest)),
                }
            }
        } else {
            Err(no_group(key))
        }
    }

    /// What an option of a group is for.
    pub open spec fn doc(opt: Seq<char>) -> Seq<char> {
        let (key, rest) = cut_at(opt, '.', 0);
        if key == "core"@ {
            ShOptCore::doc(rest)
        } else if key == "line"@ {
            ShOptLine::doc(rest)
        } else if key == "set"@ {
            ShOptSet::doc(rest)
        } else if key == "prompt"@ {
            ShOptPrompt::doc(rest)
        } else if key == "highlight"@ {
            ShOptHighlight::doc(rest)
        } else {
            Seq::empty()
        }
    }

    /// How an option of a group shows a value that was set.
    pub open spec fn normal(opt: Seq<char>, val: Seq<char>) -> Seq<char> {
        let (key, rest) = cut_at(opt, '.', 0);
        if key == "core"@ {
            ShOptCore::normal(rest, val)
        } else if key == "line"@ {
            ShOptLine::normal(rest, val)
        } else if key == "set"@ {
            ShOptSet::normal(rest, val)
        } else if key == "prompt"@ {
            ShOptPrompt::normal(rest, val)
        } else if key == "highlight"@ {
            ShOptHighlight::normal(rest, val)
        } else {
            val
        }
    }

    /// An option that was set, of whatever group, is told with what it is for and
    /// the value, as the option shows it.
    pub proof fn set_option_is_told(
        a: ShOpts,
        b: ShOpts,
        opt: Seq<char>,
        val: Seq<char>,
        r: Result<(), String>,
    )
        requires
            ShOpts::set_told(a, b, opt, val, r),
            r is Ok,
        ensures
            b.told(opt) == Ok::<Seq<char>, Seq<char>>(ShOpts::doc(opt) + ShOpts::normal(opt, val)),
    {
        let (key, rest) = cut_at(opt, '.', 0);
        if key == "core"@ {
            ShOptCore::lemma_named(rest, val);
            ShOptCore::set_option_shows(a.core, b.core, rest, val);
        } else if key == "line"@ {
            ShOptLine::lemma_named(rest, val);
            ShOptLine::set_option_shows(a.line, b.line, rest, val);
        } else if key == "set"@ {
            ShOptSet::lemma_named(rest, val);
            ShOptSet::set_option_shows(a.set, b.set, rest, val);
        } else if key == "prompt"@ {
            ShOptPrompt::lemma_named(rest, val);
            ShOptPrompt::set_option_shows(a.prompt, b.prompt, rest, val);
        } else if key == "highlight"@ {
            ShOptHighlight::lemma_named(rest, val);
            ShOptHighlight::set_option_shows(a.highlight, b.highlight, rest, val);
        }
    }

    /// Setting an option leaves what is told of any other as it was, of the same
    /// group or another.
    pub proof fn other_options_are_kept(
        a: ShOpts,
        b: ShOpts,
        opt: Seq<char>,
        val: Seq<char>,
        r: Result<(), String>,
        other: Seq<char>,
    )
        requires
            ShOpts::set_told(a, b, opt, val, r),
            cut_at(other, '.', 0) != cut_at(opt, '.', 0),
            cut_at(other, '.', 0).1.len() > 0,
        ensures
            b.told(other) == a.told(other),
    {
        let (key, rest) = cut_at(opt, '.', 0);
        let (k, o) = cut_at(other, '.', 0);
        if k == "core"@ {
            if key == k && r is Ok {
                ShOptCore::setting_keeps_the_others(a.core, b.core, rest, val, o);
            } else {
                assert(b.core == a.core);
            }
            assert(b.core.value(o) == a.core.value(o));
        } else if k == "line"@ {
            if key == k && r is Ok {
                ShOptLine::setting_keeps_the_others(a.line, b.line, rest, val, o);
            } else {
                assert(b.line == a.line);
            }
            assert(b.line.value(o) == a.line.value(o));
        } else if k == "set"@ {
            if key == k && r is Ok {
                ShOptSet::setting_keeps_the_others(a.set, b.set, rest, val, o);
            } else {
                assert(b.set == a.set);
            }
            assert(b.set.value(o) == a.set.value(o));
        } else if k == "prompt"@ {
            if key == k && r is Ok {
                ShOptPrompt::setting_keeps_the_others(a.prompt, b.prompt, rest, val, o);
            } else {
                assert(b.prompt == a.prompt);
            }
            assert(b.prompt.value(o) == a.prompt.value(o));
        } else if k == "highlight"@ {
            if key == k && r is Ok {
                ShOptHighlight::setting_keeps_the_others(a.highlight, b.highlight, rest, val, o);
            } else {
                assert(b.highlight == a.highlight);
            }
            assert(b.highlight.value(o) == a.highlight.value(o));
        }
    }

    /// What an option is for and what it is set to; all options of a group
    /// where only the group is named.
    pub fn get(&self, query: &str) -> (r: Result<Option<String>, String>)
        ensures
            match self.told(query@) {
                Ok(s) => r is Ok && r->Ok_0 is Some && (r->Ok_0)->0@ == s,
                Err(e) => r is Err && r->Err_0@ == e,
            },
    {
        let (key, rest, _) = cut(query, '.');
        if same_str(key.as_str(), "core") {
            return self.core.get(rest.as_str());
        }
        if same_str(key.as_str(), "line") {
            return self.line.get(rest.as_str());
        }
        if same_str(key.as_str(), "set") {
            return self.set.get(rest.as_str());
        }
        if same_str(key.as_str(), "prompt") {
            return self.prompt.get(rest.as_str());
        }
        if same_str(key.as_str(), "highlight") {
            return self.highlight.get(rest.as_str());
        }
        Err(no_group_error(key.as_str()))
    }

    /// Sets an option where there is an equals sign, and tells of it where there
    /// is none.
    pub fn query(&mut self, query: &str) -> (r: Result<Option<String>, String>)
        ensures
            query@.contains('=') ==> {
                let (opt, val) = cut_at(query@, '=', 0);
                &&& r is Ok ==> r->Ok_0 is None
                &&& ShOpts::set_told(
                    *old(self),
                    *final(self),
                    opt,
                    val,
                    match r {
                        Ok(_) => Ok(()),
                        Err(e) => Err(e),
                    },
                )
            },
            !query@.contains('=') ==> *final(self) == *old(self) && match old(self).told(query@) {
                Ok(s) => r is Ok && r->Ok_0 is Some && (r->Ok_0)->0@ == s,
                Err(e) => r is Err && r->Err_0@ == e,
            },
    {
        let (opt, val, found) = cut(query, '=');
        if found {
            match self.set(opt.as_str(), val.as_str()) {
                Ok(_) => Ok(None),
                Err(e) => Err(e),
            }
        } else {
            self.get(query)
        }
    }

    /// All options of all groups.
    pub open spec fn listing(self) -> Seq<char> {
        self.core.listing() + "\n"@ + self.line.listing() + "\n"@ + self.set.listing() + "\n"@ + self.prompt.listing() + "\n"@ + self.highlight.listing()
    }

    /// All options of all groups.
    pub fn display_opts(&self) -> (r: String)
        ensures
            r@ == self.listing(),
    {
        let mut out = self.core.to_string();
        out.push_str("\n");
        let s = self.line.to_string();
        out.push_str(s.as_str());
        out.push_str("\n");
        let s = self.set.to_string();
        out.push_str(s.as_str());
        out.push_str("\n");
        let s = self.prompt.to_string();
        out.push_str(s.as_str());
        out.push_str("\n");
        let s = self.highlight.to_string();
        out.push_str(s.as_str());
        out
    }
}

} // verus!
