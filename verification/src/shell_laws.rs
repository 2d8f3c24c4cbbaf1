//! What the shell keeps: registers, variables, the state of jobs, and what it shows.

use crate::prompt;
use crate::register;
use crate::register::ClipboardProvider;
use crate::register::ClipboardTools;
use crate::register::Held;
use crate::register::Selection;
use crate::keys::KeyEvent;
use crate::linebuf::lines::Text;
use crate::shellenv::exec_ctx::SavedIo;
use crate::shellenv::shenv::IoStep;
use crate::shellenv::shenv;
use crate::shellenv;
use crate::shellenv::vars;
use crate::shellenv::vars::HostFacts;
use crate::shellenv::vars::VarTab;
use crate::shellenv::LogLevel;
use crate::shellenv::TtyPlan;
use crate::shellenv::WtStat;
use crate::shopt;
use crate::stash;
use crate::term::width::WidthCalculator;
use crate::text;
use crate::unicode;
use vstd::prelude::*;

verus! {

/// A letter names one register in either case, different letters different ones; without a
/// name the default register is meant. Digits and other marks name none.
pub proof fn letters_name_registers(a: char, b: char)
    ensures
        register::register_key(None) == register::register_key(Some('"')),
        'a' <= a <= 'z' ==> register::register_key(Some(a)) == Some(a),
        'A' <= a <= 'Z' ==> register::register_key(Some(a)) == Some((a as u32 + 32) as char),
        'a' <= a <= 'z' && 'a' <= b <= 'z' && a != b ==> register::register_key(Some(a))
            != register::register_key(Some(b)),
        a == '"' || a == '+' || a == '*' ==> register::register_key(Some(a)) == Some(a),
        !unicode::ascii_alpha(a) && a != '"' && a != '+' && a != '*' ==> register::register_key(
            Some(a),
        ) is None,
{
}

/// What is appended to a register goes behind what it holds, and the register stays of its
/// kind: text behind text, keys behind keys.
pub proof fn appended_text_goes_behind(
    x: Text,
    y: Text,
    k: Seq<KeyEvent>,
    l: Seq<KeyEvent>,
    keys: Seq<KeyEvent>,
    line: Seq<Seq<char>>,
)
    ensures
        register::appended(Held::Span(x), Held::Span(y), keys, line) == Held::Span(x + y),
        register::appended(Held::Span(x), Held::Line(y), keys, line) == Held::Span(x + y),
        register::appended(Held::Line(x), Held::Line(y), keys, line) == Held::Line(x + y),
        register::appended(Held::Line(x), Held::Span(y), keys, line) == Held::Line(x + y),
        register::appended(Held::Block(x), Held::Block(y), keys, line) == Held::Block(x + y),
        register::appended(Held::Macro(k), Held::Macro(l), keys, line) == Held::Macro(k + l),
        register::appended(Held::Macro(k), Held::Span(y), keys, line) == Held::Macro(k + keys),
        register::appended(Held::Span(x), Held::Macro(l), keys, line) == Held::Span(x.push(line)),
        register::appended(Held::Empty, Held::Span(y), keys, line) == Held::Span(y),
        register::appended(Held::Span(x), Held::Empty, keys, line) == Held::Span(x),
{
}

/// The tools that tell the selections apart are called with the selection, for copying as
/// for pasting.
pub proof fn clipboard_tools_name_the_selection()
    ensures
        register::selection_of('*') == Some(Selection::Primary),
        register::selection_of('+') == Some(Selection::Clipboard),
        register::copy_command(ClipboardProvider::WlCopy, Selection::Primary)->0
            == register::copy_command(ClipboardProvider::WlCopy, Selection::Clipboard)->0
            + " --primary"@,
        register::paste_command(ClipboardProvider::WlCopy, Selection::Primary)->0
            == register::paste_command(ClipboardProvider::WlCopy, Selection::Clipboard)->0
            + " --primary"@,
        register::paste_command(ClipboardProvider::Xclip, Selection::Primary)->0
            == register::copy_command(ClipboardProvider::Xclip, Selection::Primary)->0 + " -o"@,
        register::paste_command(ClipboardProvider::Xclip, Selection::Clipboard)->0
            == register::copy_command(ClipboardProvider::Xclip, Selection::Clipboard)->0 + " -o"@,
        register::copy_command(ClipboardProvider::Xclip, Selection::Primary)
            == Some("xclip -selection "@ + "primary"@),
        register::copy_command(ClipboardProvider::Xclip, Selection::Clipboard)
            == Some("xclip -selection "@ + "clipboard"@),
        register::copy_command(ClipboardProvider::Xsel, Selection::Primary)
            == Some("xsel --"@ + "primary"@ + " --input"@),
        register::copy_command(ClipboardProvider::Xsel, Selection::Clipboard)
            == Some("xsel --"@ + "clipboard"@ + " --input"@),
        register::paste_command(ClipboardProvider::Xsel, Selection::Primary)
            == Some("xsel --"@ + "primary"@ + " --output"@),
        register::paste_command(ClipboardProvider::Xsel, Selection::Clipboard)
            == Some("xsel --"@ + "clipboard"@ + " --output"@),
{
    reveal_strlit("wl-copy");
    reveal_strlit("wl-copy --primary");
    reveal_strlit("wl-paste");
    reveal_strlit("wl-paste --primary");
    reveal_strlit(" --primary");
    reveal_strlit("xclip -selection clipboard");
    reveal_strlit("xclip -selection primary");
    reveal_strlit("xclip -selection clipboard -o");
    reveal_strlit("xclip -selection primary -o");
    reveal_strlit(" -o");
    reveal_strlit("xclip -selection ");
    reveal_strlit("primary");
    reveal_strlit("clipboard");
    reveal_strlit("xsel --");
    reveal_strlit(" --input");
    reveal_strlit(" --output");
    reveal_strlit("xsel --clipboard --input");
    reveal_strlit("xsel --primary --input");
    reveal_strlit("xsel --clipboard --output");
    reveal_strlit("xsel --primary --output");
    assert("wl-copy --primary"@ =~= "wl-copy"@ + " --primary"@);
    assert("wl-paste --primary"@ =~= "wl-paste"@ + " --primary"@);
    assert("xclip -selection primary -o"@ =~= "xclip -selection primary"@ + " -o"@);
    assert("xclip -selection clipboard -o"@ =~= "xclip -selection clipboard"@ + " -o"@);
    assert("xclip -selection primary"@ =~= "xclip -selection "@ + "primary"@);
    assert("xclip -selection clipboard"@ =~= "xclip -selection "@ + "clipboard"@);
    assert("xsel --primary --input"@ =~= "xsel --"@ + "primary"@ + " --input"@);
    assert("xsel --clipboard --input"@ =~= "xsel --"@ + "clipboard"@ + " --input"@);
    assert("xsel --primary --output"@ =~= "xsel --"@ + "primary"@ + " --output"@);
    assert("xsel --clipboard --output"@ =~= "xsel --"@ + "clipboard"@ + " --output"@);
}

/// A tool of the clipboard is only taken where it can be used, and the terminal itself only
/// where none can.
pub proof fn clipboard_tools_are_there(t: ClipboardTools)
    ensures
        match register::preferred(t) {
            ClipboardProvider::PbCopy => t.pbcopy,
            ClipboardProvider::WlCopy => t.wayland && t.wl_copy && !t.pbcopy,
            ClipboardProvider::Wayclip => t.wayland && t.wayclip && !t.wl_copy && !t.pbcopy,
            ClipboardProvider::Xsel => t.display && t.xsel && !(t.wayland && (t.wl_copy
                || t.wayclip)),
            ClipboardProvider::Xclip => t.display && t.xclip && !t.xsel && !(t.wayland && (
            t.wl_copy || t.wayclip)),
            ClipboardProvider::Termux => t.termux && !(t.display && (t.xsel || t.xclip)),
            ClipboardProvider::Tmux => t.tmux_session && t.tmux && !t.termux,
            ClipboardProvider::Osc52 => !t.pbcopy && !(t.wayland && (t.wl_copy || t.wayclip)) && !(
            t.display && (t.xsel || t.xclip)) && !t.termux && !(t.tmux_session && t.tmux),
        },
{
}

/// Words are put together with one space between them, and nothing around them.
pub proof fn words_are_spaced(words: Seq<String>, n: int)
    requires
        0 < n < words.len(),
    ensures
        text::spaced(words, 0) == Seq::<char>::empty(),
        text::spaced(words, 1) == words[0]@,
        text::spaced(words, n + 1) == text::spaced(words, n) + seq![' '] + words[n]@,
{
    assert(text::spaced(words, n).push(' ') + words[n]@ =~= text::spaced(words, n) + seq![' ']
        + words[n]@);
}

/// A number names an argument, counted from the first. Other names stand for what commands
/// get, then for a parameter, then for a variable.
pub proof fn names_are_looked_up(t: VarTab, name: Seq<char>, i: nat)
    requires
        i <= usize::MAX,
    ensures
        i < t.pos_params@.len() ==> t.lookup(text::decimal(i)) == t.pos_params@[i as int]@,
        i >= t.pos_params@.len() ==> t.lookup(text::decimal(i)) == Seq::<char>::empty(),
        text::parsed_usize(name) is None ==> {
            &&& t.env@.contains_key(name) ==> t.lookup(name) == t.env@[name]@
            &&& !t.env@.contains_key(name) && t.params@.contains_key(name) ==> t.lookup(name)
                == t.params@[name]@
            &&& !t.env@.contains_key(name) && !t.params@.contains_key(name) && t.vars@.contains_key(
                name,
            ) ==> t.lookup(name) == t.vars@[name]@
            &&& !t.env@.contains_key(name) && !t.params@.contains_key(name)
                && !t.vars@.contains_key(name) ==> t.lookup(name) == Seq::<char>::empty()
        },
{
    text::decimal_reads_back(i);
    assert(unicode::ascii_digit(text::decimal(i)[0]));
    assert(text::parsed_usize(text::decimal(i)) == Some(i as usize));
}

/// Of variables that are inherited, the last of a name counts.
pub proof fn the_last_of_a_name_counts(v: Seq<(String, String)>, n: int, i: int)
    requires
        0 <= i < n <= v.len(),
        forall|j: int| i < j < n ==> (#[trigger] v[j]).0@ != v[i].0@,
    ensures
        vars::gathered(v, n).contains_key(v[i].0@),
        vars::gathered(v, n)[v[i].0@] == v[i].1@,
    decreases n,
{
    if n - 1 > i {
        the_last_of_a_name_counts(v, n - 1, i);
    }
}

/// A name that is not inherited stands for nothing.
pub proof fn other_names_are_not_inherited(v: Seq<(String, String)>, n: int, name: Seq<char>)
    requires
        0 <= n <= v.len(),
        forall|j: int| 0 <= j < n ==> (#[trigger] v[j]).0@ != name,
    ensures
        !vars::gathered(v, n).contains_key(name),
    decreases n,
{
    if n > 0 {
        other_names_are_not_inherited(v, n - 1, name);
    }
}

proof fn lemma_env_names()
    ensures
        "HOME"@ != "SHELL"@ && "HOME"@ != "FERN_HIST"@,
        "PWD"@ != "OLDPWD"@ && "PWD"@ != "HOME"@ && "PWD"@ != "SHELL"@ && "PWD"@ != "FERN_HIST"@,
        "OLDPWD"@ != "HOME"@ && "OLDPWD"@ != "SHELL"@ && "OLDPWD"@ != "FERN_HIST"@,
        "SHELL"@ != "FERN_HIST"@,
        "USER"@ != "LOGNAME"@ && "USER"@ != "PWD"@ && "USER"@ != "OLDPWD"@ && "USER"@ != "HOME"@
            && "USER"@ != "SHELL"@ && "USER"@ != "FERN_HIST"@,
        "LOGNAME"@ != "PWD"@ && "LOGNAME"@ != "OLDPWD"@ && "LOGNAME"@ != "HOME"@ && "LOGNAME"@
            != "SHELL"@ && "LOGNAME"@ != "FERN_HIST"@,
{
    reveal_strlit("HOME");
    reveal_strlit("SHELL");
    reveal_strlit("FERN_HIST");
    reveal_strlit("PWD");
    reveal_strlit("OLDPWD");
    reveal_strlit("USER");
    reveal_strlit("LOGNAME");
    assert("HOME"@[0] == 'H' && "SHELL"@[0] == 'S' && "FERN_HIST"@[0] == 'F' && "PWD"@[0] == 'P'
        && "OLDPWD"@[0] == 'O' && "USER"@[0] == 'U' && "LOGNAME"@[0] == 'L');
}

/// At first the shell knows where it is, where it was, who the user is and where they are
/// at home, whatever it inherited.
pub proof fn the_first_variables_are_known(f: HostFacts)
    ensures
        f.first_env()["PWD"@] == f.cwd@,
        f.first_env()["OLDPWD"@] == f.cwd@,
        f.first_env()["SHELL"@] == f.exe@,
        f.username matches Some(u) ==> f.first_env()["USER"@] == u@ && f.first_env()["LOGNAME"@]
            == u@ && f.first_env()["HOME"@] == f.home@,
{
    lemma_env_names();
}

/// The status of a job is that of its last part that has one: what it exited with, or its
/// signal beyond the offset.
pub proof fn the_last_status_counts(s: Seq<WtStat>, offset: int, n: int, i: int)
    requires
        0 <= i < n <= s.len(),
        s[i].code(offset) is Some,
        forall|j: int| i < j < n ==> (#[trigger] s[j]) is Other,
    ensures
        s[i] matches WtStat::Exited(c) ==> shellenv::last_code(s, offset, n) == c,
        s[i] matches WtStat::Stopped(g) ==> shellenv::last_code(s, offset, n) == offset + g,
        s[i] matches WtStat::Signaled(g, _) ==> shellenv::last_code(s, offset, n) == offset + g,
    decreases n,
{
    if n - 1 > i {
        assert(s[n - 1] is Other);
        the_last_status_counts(s, offset, n - 1, i);
    }
}

/// What sends a job to the background are its stopped parts, in order.
pub proof fn stopped_parts_are_listed(s: Seq<WtStat>, n: int)
    requires
        0 <= n <= s.len() <= usize::MAX,
    ensures
        ({
            let r = shellenv::stopping(s, n);
            &&& forall|i: int, j: int| 0 <= i < j < r.len() ==> (#[trigger] r[i]) < (#[trigger] r[j])
            &&& forall|i: int|
                0 <= i < r.len() ==> (#[trigger] r[i]) < n && s[r[i] as int].to_background()
            &&& forall|k: int|
                0 <= k < n && (#[trigger] s[k]).to_background() ==> r.contains(k as usize)
        }),
        forall|i: int|
            0 <= i < n ==> ((#[trigger] s[i]) is Stopped ==> s[i].to_background()) && (
            s[i] is Exited ==> !s[i].to_background()),
    decreases n,
{
    if n > 0 {
        stopped_parts_are_listed(s, n - 1);
        let init = shellenv::stopping(s, n - 1);
        let r = shellenv::stopping(s, n);
        if s[n - 1].to_background() {
            assert(r[init.len() as int] == n - 1);
        }
        assert forall|k: int| 0 <= k < n && (#[trigger] s[k]).to_background() implies r.contains(
            k as usize,
        ) by {
            if k < n - 1 {
                assert(init.contains(k as usize));
                let m = choose|m: int| 0 <= m < init.len() && init[m] == k as usize;
                assert(r[m] == k as usize);
            } else {
                assert(r[init.len() as int] == k as usize);
            }
        }
    }
}

/// The terminal changes hands only where there is one and another group has it.
pub proof fn the_terminal_changes_hands(is_tty: bool, pgid: i32, own: i32, holder: i32)
    ensures
        !is_tty || pgid == holder ==> shellenv::tty_plan(is_tty, pgid, own, holder)
            == TtyPlan::Keep,
        is_tty && pgid != holder && pgid == own ==> shellenv::tty_plan(is_tty, pgid, own, holder)
            == TtyPlan::Switch(true),
        is_tty && pgid != holder && pgid != own ==> shellenv::tty_plan(is_tty, pgid, own, holder)
            == TtyPlan::Switch(false),
{
}

/// A level is asked for by its name, in any case.
pub proof fn levels_have_names(w: Seq<char>)
    ensures
        shopt::lower_ascii(w) == seq!['e', 'r', 'r', 'o', 'r'] ==> shellenv::level_named(w)
            == LogLevel::Error,
        shopt::lower_ascii(w) == seq!['w', 'a', 'r', 'n'] ==> shellenv::level_named(w)
            == LogLevel::Warn,
        shopt::lower_ascii(w) == seq!['i', 'n', 'f', 'o'] ==> shellenv::level_named(w)
            == LogLevel::Info,
        shopt::lower_ascii(w) == seq!['d', 'e', 'b', 'u', 'g'] ==> shellenv::level_named(w)
            == LogLevel::Debug,
        shopt::lower_ascii(w) == seq!['t', 'r', 'a', 'c', 'e'] ==> shellenv::level_named(w)
            == LogLevel::Trace,
        w.len() == 0 ==> shellenv::level_named(w) == LogLevel::Null,
{
    reveal_strlit("error");
    reveal_strlit("warn");
    reveal_strlit("info");
    reveal_strlit("debug");
    reveal_strlit("trace");
    assert("error"@ =~= seq!['e', 'r', 'r', 'o', 'r']);
    assert("warn"@ =~= seq!['w', 'a', 'r', 'n']);
    assert("info"@ =~= seq!['i', 'n', 'f', 'o']);
    assert("debug"@ =~= seq!['d', 'e', 'b', 'u', 'g']);
    assert("trace"@ =~= seq!['t', 'r', 'a', 'c', 'e']);
    assert("error"@[0] == 'e' && "warn"@[0] == 'w' && "info"@[0] == 'i' && "debug"@[0] == 'd'
        && "trace"@[0] == 't');
}

/// The parts of the status line get their columns from the right to the left: a part has
/// all it needs where the parts to its right leave it.
pub proof fn parts_have_their_columns(lw: usize, mw: usize, rw: usize, width: usize)
    ensures
        ({
            let s = prompt::shares(lw, mw, rw, width);
            &&& s.left + s.middle + s.right + s.rest == width
            &&& s.left <= lw && s.middle <= mw && s.right <= rw
            &&& rw <= width ==> s.right == rw
            &&& rw + mw <= width ==> s.middle == mw
            &&& rw + mw + lw <= width ==> s.left == lw
            &&& s.right < rw ==> s.middle == 0 && s.left == 0
            &&& s.middle < mw ==> s.left == 0
        }),
{
}

/// A text that fits is shown as it is; one that does not ends with an ellipsis, and without
/// room nothing shows.
pub proof fn long_texts_end_with_an_ellipsis(w: WidthCalculator, s: Seq<char>, max: usize)
    ensures
        prompt::columns(w, s) <= max ==> prompt::ellipsized(w, s, max) == s,
        prompt::columns(w, s) > max && max > 0 ==> prompt::ellipsized(w, s, max).last()
            == '\u{2026}',
        prompt::columns(w, s) > 0 ==> prompt::ellipsized(w, s, 0) == Seq::<char>::empty(),
{
}

proof fn lemma_tabbed(s: Seq<char>)
    requires
        !s.contains('\n'),
    ensures
        stash::tabbed(s) == s,
    decreases s.len(),
{
    if s.len() > 0 {
        let d = s.drop_last();
        assert(s.contains(s.last())) by {
            assert(s[s.len() - 1] == s.last());
        }
        assert(!d.contains('\n')) by {
            if d.contains('\n') {
                let i = choose|i: int| 0 <= i < d.len() && d[i] == '\n';
                assert(s[i] == '\n');
            }
        }
        lemma_tabbed(d);
        assert(d.push(s.last()) =~= s);
    }
}

/// What was put aside is listed by number, one command in each row.
pub proof fn stashed_commands_are_numbered(s: Seq<String>, n: int)
    requires
        0 < n <= s.len(),
        !s[n - 1]@.contains('\n'),
    ensures
        ({
            let row = seq!['['] + text::decimal((n - 1) as nat) + seq![']', '\t'] + s[n - 1]@;
            stash::stack_rows(s, n) == (if n == 1 {
                row
            } else {
                stash::stack_rows(s, n - 1) + seq!['\n'] + row
            })
        }),
{
    lemma_tabbed(s[n - 1]@);
    reveal_strlit("[");
    reveal_strlit("]\t");
    assert("["@ =~= seq!['[']);
    assert("]\t"@ =~= seq![']', '\t']);
    let row = seq!['['] + text::decimal((n - 1) as nat) + seq![']', '\t'] + s[n - 1]@;
    if n == 1 {
        assert(stash::stack_rows(s, 0) =~= Seq::<char>::empty());
        assert(stash::stack_rows(s, n) =~= row);
    } else {
        assert(stash::stack_rows(s, n) =~= stash::stack_rows(s, n - 1) + seq!['\n'] + row);
    }
}

/// The named commands are listed with their names, one in each row.
pub proof fn named_commands_are_listed(s: Seq<(String, String)>, n: int)
    requires
        0 < n <= s.len(),
        !s[n - 1].1@.contains('\n'),
    ensures
        ({
            let row = s[n - 1].0@ + seq!['\t'] + s[n - 1].1@;
            stash::named_rows(s, n) == (if n == 1 {
                row
            } else {
                stash::named_rows(s, n - 1) + seq!['\n'] + row
            })
        }),
{
    lemma_tabbed(s[n - 1].1@);
    reveal_strlit("\t");
    assert("\t"@ =~= seq!['\t']);
    let row = s[n - 1].0@ + seq!['\t'] + s[n - 1].1@;
    if n == 1 {
        assert(stash::named_rows(s, 0) =~= Seq::<char>::empty());
        assert(stash::named_rows(s, n) =~= row);
    } else {
        assert(stash::named_rows(s, n) =~= stash::named_rows(s, n - 1) + seq!['\n'] + row);
    }
}

/// The three streams are put back in order, and what was kept of each is closed behind it.
pub proof fn streams_are_put_back(s: SavedIo, i: int)
    ensures
        shenv::steps_back(s).len() == 6,
        0 <= i < 3 ==> {
            let fd = if i == 0 {
                s.stdin
            } else if i == 1 {
                s.stdout
            } else {
                s.stderr
            };
            &&& shenv::steps_back(s)[2 * i] == IoStep::Dup2(i as i32, fd)
            &&& shenv::steps_back(s)[2 * i + 1] == IoStep::Close(fd)
        },
{
}

/// New arguments can be read by number, and are counted; what was kept under other names
/// stays.
pub proof fn arguments_are_counted(a: VarTab, b: VarTab, args: Seq<String>, n: Seq<char>)
    requires
        VarTab::argued(a, b, args),
    ensures
        vars::found(vars::texts(b.params@), seq!['#']) == text::decimal(args.len()),
        vars::found(vars::texts(b.params@), seq!['@']) == text::spaced(args, args.len() as int),
        n != seq!['#'] && n != seq!['@'] ==> vars::found(vars::texts(b.params@), n)
            == vars::found(vars::texts(a.params@), n),
        forall|i: usize|
            text::parsed_usize(n) == Some(i) && i < args.len() ==> b.lookup(n)
                == #[trigger] args[i as int]@,
        b.env == a.env && b.vars == a.vars,
{
    reveal_strlit("@");
    reveal_strlit("#");
    assert("@"@ =~= seq!['@']);
    assert("#"@ =~= seq!['#']);
    assert(seq!['@'][0] != seq!['#'][0]);
}

/// A number is no name for a command that is put aside.
pub proof fn numbers_are_no_names(n: Seq<char>, i: usize)
    ensures
        text::parsed_usize(n) == Some(i) ==> !stash::may_name(Some(n)),
        text::parsed_usize(n) is None ==> stash::may_name(Some(n)),
        stash::may_name(None),
{
}

/// What is traced of a command begins with a plus sign for each level and one more, and
/// goes on with the words behind a space.
pub proof fn levels_are_traced(words: Seq<String>, depth: nat, w: Seq<char>)
    requires
        text::spaced(words, words.len() as int) == w,
        w.len() > 0,
        !unicode::whitespace(w.last()),
    ensures
        shopt::traced(words, depth) == text::repeated('+', depth + 1) + seq![' '] + w,
{
    let s = text::repeated('+', depth + 1).push(' ') + w;
    assert(s =~= text::repeated('+', depth + 1) + seq![' '] + w);
    assert(s[0] == '+');
    assert(s.last() == w.last());
}

} // verus!
