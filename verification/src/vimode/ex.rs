//! The commands of the vi command line.

use crate::editcmd::Anchor;
use crate::editcmd::CmdFlags;
use crate::editcmd::EditCmd;
use crate::editcmd::Motion;
use crate::editcmd::MotionCmd;
use crate::editcmd::ReadSrc;
use crate::editcmd::RegisterName;
use crate::editcmd::Val;
use crate::editcmd::Verb;
use crate::editcmd::VerbCmd;
use crate::editcmd::WriteDest;
use crate::editmode::ex;
use crate::editmode::ex::parse_normal;
use crate::editmode::ex::parse_pattern;
use crate::editmode::ex::parse_read;
use crate::editmode::ex::parse_substitute;
use crate::editmode::ex::parse_write;
use crate::editmode::ex::unescape_shell_cmd;
use crate::editmode::ex::CharTracker;
use crate::editmode::ex::Expansion;
use crate::editmode::ex::Out;
use crate::editmode::ex::VerbModel;
use crate::text;
use crate::text::chars_of;
use crate::text::chars_start_with;
use crate::text::owned;
use crate::text::same_chars;
use crate::text::string_of;
use crate::text::sub_chars;
use crate::text::trim;
use crate::unicode;
use vstd::prelude::*;

verus! {

/// A path put behind another. One from the root stays as it is.
pub open spec fn joined_path(a: Seq<char>, b: Seq<char>) -> Seq<char> {
    if b.len() > 0 && b[0] == '/' {
        b
    } else if a.len() == 0 || a.last() == '/' {
        a + b
    } else {
        a.push('/') + b
    }
}

/// A path in which a tilde stands for the home directory, where that is known.
pub open spec fn home_path(p: Seq<char>, home: Option<Seq<char>>) -> Seq<char> {
    if home is None {
        p
    } else if text::has_prefix(p, seq!['~', '/']) {
        joined_path(home->0, p.skip(2))
    } else if p == seq!['~'] {
        home->0
    } else {
        p
    }
}

pub open spec fn str_view(s: Option<&str>) -> Option<Seq<char>> {
    match s {
        Some(x) => Some(x@),
        None => None,
    }
}

/// The path that is meant, with the home directory for a tilde.
pub fn get_path(path: &str, home: Option<&str>) -> (r: String)
    ensures
        r@ == home_path(path@, str_view(home)),
{
    let h = match home {
        None => {
            return owned(path);
        },
        Some(h) => h,
    };
    let v = chars_of(path);
    let mut tilde: Vec<char> = Vec::new();
    tilde.push('~');
    tilde.push('/');
    assert(tilde@ =~= seq!['~', '/']);
    if chars_start_with(v.as_slice(), tilde.as_slice()) {
        let rest = sub_chars(v.as_slice(), 2, v.len());
        assert(rest@ =~= path@.skip(2));
        if rest.len() > 0 && rest[0] == '/' {
            return string_of(rest.as_slice());
        }
        let hv = chars_of(h);
        let mut out = owned(h);
        if hv.len() > 0 && hv[hv.len() - 1] != '/' {
            out.push('/');
        }
        let t = string_of(rest.as_slice());
        out.push_str(t.as_str());
        return out;
    }
    if v.len() == 1 && v[0] == '~' {
        assert(v@ =~= seq!['~']);
        return owned(h);
    }
    owned(path)
}

/// What a command does once a tilde in its path stands for the home directory.
pub open spec fn at_home(o: Out<VerbModel>, home: Option<Seq<char>>) -> Out<VerbModel> {
    match o {
        Out::Found(VerbModel::ReadFile(p)) => Out::Found(VerbModel::ReadFile(home_path(p, home))),
        Out::Found(VerbModel::WriteFile(p)) => Out::Found(
            VerbModel::WriteFile(home_path(p, home)),
        ),
        Out::Found(VerbModel::WriteAppend(p)) => Out::Found(
            VerbModel::WriteAppend(home_path(p, home)),
        ),
        _ => o,
    }
}

fn find_home(r: Result<Option<Verb>, Option<String>>, home: Option<&str>, Ghost(o): Ghost<
    Out<VerbModel>,
>) -> (q: Result<Option<Verb>, Option<String>>)
    requires
        ex::verb_told(o, r),
    ensures
        ex::verb_told(at_home(o, str_view(home)), q),
{
    match r {
        Ok(Some(Verb::Read(ReadSrc::File(p)))) => {
            let f = get_path(p.as_str(), home);
            Ok(Some(Verb::Read(ReadSrc::File(f))))
        },
        Ok(Some(Verb::Write(WriteDest::File(p)))) => {
            let f = get_path(p.as_str(), home);
            Ok(Some(Verb::Write(WriteDest::File(f))))
        },
        Ok(Some(Verb::Write(WriteDest::FileAppend(p)))) => {
            let f = get_path(p.as_str(), home);
            Ok(Some(Verb::Write(WriteDest::FileAppend(f))))
        },
        x => x,
    }
}

/// How long the name of a command is: letters and digits, and an exclamation
/// mark behind them.
pub open spec fn name_len(s: Seq<char>) -> int {
    let k = ex::name_run(s, 0);
    if k < s.len() && s[k] == '!' {
        k + 1
    } else {
        k
    }
}

/// A command by its name, with what is behind the name. Without a name it
/// deletes.
pub open spec fn named_cmd(n: Seq<char>, s: Seq<char>, home: Option<Seq<char>>) -> Out<VerbModel> {
    if n == "!"@ {
        Out::Found(VerbModel::Shell(ex::unescaped(s)))
    } else if n == "normal!"@ {
        Out::Found(VerbModel::Normal(text::trimmed_left(s)))
    } else if ex::abbreviates(n, "delete"@) {
        Out::Found(VerbModel::Delete)
    } else if ex::abbreviates(n, "yank"@) {
        Out::Found(VerbModel::Yank)
    } else if ex::abbreviates(n, "put"@) {
        Out::Found(VerbModel::Put)
    } else if ex::abbreviates(n, "read"@) {
        at_home(ex::read_cmd(s, Expansion::AsTyped), home)
    } else if ex::abbreviates(n, "write"@) {
        at_home(ex::write_cmd(s, Expansion::AsTyped), home)
    } else if ex::abbreviates(n, "substitute"@) {
        ex::substitute_cmd(s)
    } else {
        Out::Bad
    }
}

/// A command.
pub open spec fn command(s: Seq<char>, home: Option<Seq<char>>) -> Out<VerbModel> {
    named_cmd(s.take(name_len(s)), s.skip(name_len(s)), home)
}

fn take_name(chars: &mut CharTracker, bang: bool) -> (r: Vec<char>)
    requires
        old(chars).wf(),
    ensures
        final(chars).wf(),
        final(chars).all() == old(chars).all(),
        ({
            let n = if bang {
                name_len(old(chars)@)
            } else {
                ex::name_run(old(chars)@, 0)
            };
            &&& 0 <= n <= old(chars)@.len()
            &&& r@ == old(chars)@.take(n)
            &&& final(chars)@ == old(chars)@.skip(n)
        }),
{
    let ghost s = chars@;
    let mut out: Vec<char> = Vec::new();
    let ghost mut n: int = 0;
    assert(s.skip(0) =~= s);
    assert(out@ =~= s.take(0));
    loop
        invariant
            chars.wf(),
            chars.all() == old(chars).all(),
            0 <= n <= s.len(),
            chars@ == s.skip(n),
            out@ == s.take(n),
            ex::name_run(s, 0) == ex::name_run(s, n),
        ensures
            chars.wf(),
            chars.all() == old(chars).all(),
            0 <= n <= s.len(),
            chars@ == s.skip(n),
            out@ == s.take(n),
            ex::name_run(s, 0) == n,
        decreases chars@.len(),
    {
        match chars.peek() {
            None => {
                break;
            },
            Some(c) => {
                assert(c == s[n]);
                if !c.is_alphanumeric() {
                    break;
                }
                let _ = chars.next();
                out.push(c);
                proof {
                    assert(s.skip(n).skip(1) =~= s.skip(n + 1));
                    assert(s.take(n).push(c) =~= s.take(n + 1));
                    n = n + 1;
                }
            },
        }
    }
    if bang {
        if let Some(c) = chars.peek() {
            assert(c == s[n]);
            if c == '!' {
                let _ = chars.next();
                out.push('!');
                assert(s.skip(n).skip(1) =~= s.skip(n + 1));
                assert(out@ =~= s.take(n + 1));
            }
        }
    }
    out
}

fn begins(name: &[char], word: &str) -> (r: bool)
    ensures
        r == ex::abbreviates(name@, word@),
{
    let w = chars_of(word);
    chars_start_with(w.as_slice(), name)
}

/// Reads a command.
fn parse_ex_command(chars: &mut CharTracker, home: Option<&str>) -> (r: Result<
    Option<Verb>,
    Option<String>,
>)
    requires
        old(chars).wf(),
    ensures
        final(chars).wf(),
        final(chars).all() == old(chars).all(),
        ex::verb_told(command(old(chars)@, str_view(home)), r),
{
    let name = take_name(chars, true);
    let n = name.as_slice();
    let ghost s = chars@;
    let bang = chars_of("!");
    let normal = chars_of("normal!");
    if same_chars(n, bang.as_slice()) {
        let rest = chars.rest();
        return Ok(Some(Verb::ShellCmd(unescape_shell_cmd(rest.as_slice()))));
    }
    if same_chars(n, normal.as_slice()) {
        return parse_normal(chars);
    }
    if begins(n, "delete") {
        return Ok(Some(Verb::Delete));
    }
    if begins(n, "yank") {
        return Ok(Some(Verb::Yank));
    }
    if begins(n, "put") {
        return Ok(Some(Verb::Put(Anchor::After)));
    }
    if begins(n, "read") {
        let r = parse_read(chars, &Expansion::AsTyped);
        return find_home(r, home, Ghost(ex::read_cmd(s, Expansion::AsTyped)));
    }
    if begins(n, "write") {
        let r = parse_write(chars, &Expansion::AsTyped);
        return find_home(r, home, Ghost(ex::write_cmd(s, Expansion::AsTyped)));
    }
    if begins(n, "substitute") {
        return parse_substitute(chars);
    }
    Err(None)
}

/// The lines of a command on those in which a pattern is found, or is not.
pub enum Lines {
    Found(Seq<char>),
    NotFound(Seq<char>),
    Same,
}

/// The lines that a motion names.
pub open spec fn lines_of(m: Motion) -> Option<Lines> {
    match m {
        Motion::Global(Val::Str(p)) => Some(Lines::Found(p@)),
        Motion::NotGlobal(Val::Str(p)) => Some(Lines::NotFound(p@)),
        Motion::Null => Some(Lines::Same),
        _ => None,
    }
}

/// A command on the lines in which a pattern is found, or is not.
pub open spec fn global_cmd(s: Seq<char>, home: Option<Seq<char>>) -> Out<(Lines, VerbModel)> {
    let negated = s.len() > 0 && s[0] == '!';
    let t = text::trimmed_left(
        if negated {
            s.skip(1)
        } else {
            s
        },
    );
    if t.len() == 0 {
        Out::Found((Lines::Same, VerbModel::RepeatGlobal))
    } else if unicode::alphanumeric(t[0]) {
        Out::Bad
    } else {
        match ex::pattern_of(t.skip(1), t[0]) {
            None => Out::Message(ex::unclosed()),
            Some(p) => match command(p.1, home) {
                Out::Found(v) => Out::Found(
                    (
                        if negated {
                            Lines::NotFound(p.0)
                        } else {
                            Lines::Found(p.0)
                        },
                        v,
                    ),
                ),
                Out::Nothing => Out::Message("Expected a command after global pattern"@),
                o => ex::failed::<VerbModel, (Lines, VerbModel)>(o),
            },
        }
    }
}

pub open spec fn global_told(
    o: Out<(Lines, VerbModel)>,
    r: Result<(Motion, Verb), Option<String>>,
) -> bool {
    match r {
        Ok(p) => lines_of(p.0) is Some && o == Out::Found(
            (lines_of(p.0)->0, ex::verb_model(p.1)),
        ),
        Err(e) => ex::told(o, e),
    }
}

/// Reads a command on the lines in which a pattern is found, or is not.
fn parse_global(chars: &mut CharTracker, home: Option<&str>) -> (r: Result<
    (Motion, Verb),
    Option<String>,
>)
    requires
        old(chars).wf(),
    ensures
        final(chars).wf(),
        final(chars).all() == old(chars).all(),
        global_told(global_cmd(old(chars)@, str_view(home)), r),
{
    let negated: bool = match chars.peek() {
        Some(c) => c == '!',
        None => false,
    };
    if negated {
        let _ = chars.next();
    }
    chars.skip_whitespace();
    let delimiter = match chars.next() {
        None => {
            return Ok((Motion::Null, Verb::RepeatGlobal));
        },
        Some(c) => c,
    };
    if delimiter.is_alphanumeric() {
        return Err(None);
    }
    let pat = match parse_pattern(chars, delimiter) {
        Ok(p) => p,
        Err(e) => {
            return Err(e);
        },
    };
    match parse_ex_command(chars, home) {
        Err(e) => Err(e),
        Ok(None) => Err(Some(owned("Expected a command after global pattern"))),
        Ok(Some(v)) => if negated {
            Ok((Motion::NotGlobal(Val::new_str(pat)), v))
        } else {
            Ok((Motion::Global(Val::new_str(pat)), v))
        },
    }
}

/// What is typed on the vi command line.
pub open spec fn ex_cmd(raw: Seq<char>, home: Option<Seq<char>>) -> Out<
    (Option<Lines>, VerbModel),
> {
    let s = text::trimmed(raw);
    if s.len() == 0 {
        Out::Nothing
    } else if s[0] == 'g' {
        let k = ex::name_run(s, 0);
        if !ex::abbreviates(s.take(k), "global"@) {
            Out::Bad
        } else {
            match global_cmd(s.skip(k), home) {
                Out::Found(p) => Out::Found((Some(p.0), p.1)),
                Out::Nothing => Out::Bad,
                o => ex::failed::<(Lines, VerbModel), (Option<Lines>, VerbModel)>(o),
            }
        }
    } else {
        match command(s, home) {
            Out::Found(v) => Out::Found((None, v)),
            Out::Nothing => Out::Bad,
            o => ex::failed::<VerbModel, (Option<Lines>, VerbModel)>(o),
        }
    }
}

/// The parts of a command that was read.
pub open spec fn parts(c: EditCmd) -> (Option<Lines>, VerbModel) {
    (
        match c.motion {
            Some(m) => lines_of(m.1),
            None => None,
        },
        match c.verb {
            Some(v) => ex::verb_model(v.1),
            None => VerbModel::Other,
        },
    )
}

/// Reads what is typed on the vi command line.
pub fn parse_ex_cmd(raw: &str, home: Option<&str>) -> (r: Result<Option<EditCmd>, Option<String>>)
    ensures
        match r {
            Ok(Some(c)) => {
                &&& ex_cmd(raw@, str_view(home)) == Out::Found(parts(c))
                &&& c.verb is Some && (c.verb->0).0 == 1
                &&& c.motion is Some ==> (c.motion->0).0 == 1
                &&& c.raw_seq@ == text::trimmed(raw@)
                &&& c.flags == (CmdFlags { exit_cur_mode: true, ..CmdFlags::none() })
            },
            Ok(None) => ex_cmd(raw@, str_view(home)) is Nothing,
            Err(e) => ex::told(ex_cmd(raw@, str_view(home)), e),
        },
{
    let v = chars_of(raw);
    let t = trim(v.as_slice());
    if t.len() == 0 {
        return Ok(None);
    }
    let trimmed = string_of(t.as_slice());
    let mut chars = CharTracker::new(trimmed.as_str());
    let mut flags = CmdFlags::empty();
    flags.exit_cur_mode = true;
    let is_global: bool = t[0] == 'g';
    if is_global {
        let name = take_name(&mut chars, false);
        if !begins(name.as_slice(), "global") {
            return Err(None);
        }
        return match parse_global(&mut chars, home) {
            Err(e) => Err(e),
            Ok((motion, verb)) => Ok(
                Some(
                    EditCmd {
                        register: RegisterName::default(),
                        verb: Some(VerbCmd(1, verb)),
                        motion: Some(MotionCmd(1, motion)),
                        raw_seq: trimmed,
                        flags,
                    },
                ),
            ),
        };
    }
    match parse_ex_command(&mut chars, home) {
        Err(e) => Err(e),
        Ok(None) => Err(None),
        Ok(Some(verb)) => Ok(
            Some(
                EditCmd {
                    register: RegisterName::default(),
                    verb: Some(VerbCmd(1, verb)),
                    motion: None,
                    raw_seq: trimmed,
                    flags,
                },
            ),
        ),
    }
}

} // verus!
