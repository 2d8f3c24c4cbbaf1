//! Where candidates come from.

use crate::complete::candidate;
use crate::complete::candidate::sort_candidates;
use crate::complete::candidate::Candidate;
use crate::text;
use crate::text::chars_of;
use crate::text::chars_start_with;
use crate::text::owned;
use crate::text::push_repeated;
use crate::text::same_str;
use crate::text::str_starts_with;
use crate::text::string_of;
use crate::text::sub_chars;
use crate::unicode;
use nix::sys::signal::Signal;
use std::path::Path;
use vstd::prelude::*;

verus! {

/// The signals that every system has.
pub open spec fn common_signals() -> Seq<Seq<char>> {
    seq![
        "SIGHUP"@,
        "SIGINT"@,
        "SIGQUIT"@,
        "SIGILL"@,
        "SIGTRAP"@,
        "SIGABRT"@,
        "SIGFPE"@,
        "SIGKILL"@,
        "SIGSEGV"@,
        "SIGSYS"@,
        "SIGPIPE"@,
        "SIGALRM"@,
        "SIGTERM"@,
        "SIGUSR1"@,
        "SIGUSR2"@,
        "SIGWINCH"@,
        "SIGURG"@,
        "SIGSTOP"@,
        "SIGTSTP"@,
        "SIGCONT"@,
        "SIGTTIN"@,
        "SIGTTOU"@,
        "SIGVTALRM"@,
        "SIGPROF"@,
        "SIGXCPU"@,
        "SIGXFSZ"@,
    ]
}

/// The signals that some systems have, and others do not.
pub open spec fn rarer_signals() -> Seq<Seq<char>> {
    seq![
        "SIGBUS"@,
        "SIGSTKFLT"@,
        "SIGCHLD"@,
        "SIGIO"@,
        "SIGPWR"@,
        "SIGEMT"@,
        "SIGINFO"@,
    ]
}

/// Whether names can be those of a system's signals: the common ones are there,
/// the hangup and the interrupt first, each one once, and none but the common and
/// the rarer ones.
pub open spec fn signal_list(n: Seq<Seq<char>>) -> bool {
    &&& n.len() >= 2
    &&& n[0] == "SIGHUP"@
    &&& n[1] == "SIGINT"@
    &&& n.no_duplicates()
    &&& forall|i: int| 0 <= i < common_signals().len() ==> n.contains(#[trigger] common_signals()[i])
    &&& forall|i: int|
        0 <= i < n.len() ==> common_signals().contains(#[trigger] n[i])
            || rarer_signals().contains(n[i])
}

/// Texts, as values.
pub open spec fn views(s: Seq<String>) -> Seq<Seq<char>> {
    Seq::new(s.len(), |i: int| s[i]@)
}

/// `nix::sys::signal::Signal::iterator` goes through the signals of the system,
/// and `Signal::to_string` gives their names. Which of the rarer ones there are,
/// and the order from the third on, depends on the system.
#[verifier::external_body]
pub(crate) fn signal_names() -> (r: Vec<String>)
    ensures
        signal_list(views(r@)),
{
    Signal::iterator().map(|s| s.to_string()).collect()
}

/// What `std::path::Path::parent` makes of a path.
pub uninterp spec fn parent_of(path: Seq<char>) -> Option<Seq<char>>;

/// What `std::path::Path::file_name` makes of a path.
pub uninterp spec fn name_of(path: Seq<char>) -> Option<Seq<char>>;

/// `std::path::Path::parent` depends on the path alone.
#[verifier::external_body]
pub(crate) fn path_parent(path: &str) -> (r: Option<String>)
    ensures
        candidate::opt_chars(r) == parent_of(path@),
{
    Path::new(path).parent().map(|p| p.to_string_lossy().to_string())
}

/// `std::path::Path::file_name` depends on the path alone.
#[verifier::external_body]
pub(crate) fn path_name(path: &str) -> (r: Option<String>)
    ensures
        candidate::opt_chars(r) == name_of(path@),
{
    Path::new(path).file_name().map(|p| p.to_string_lossy().to_string())
}

/// The candidates that begin with what was typed.
pub open spec fn kept(s: Seq<Candidate>, start: Seq<char>, ignore_case: bool) -> Seq<Candidate>
    decreases s.len(),
{
    if s.len() == 0 {
        s
    } else if candidate::matches_start(s.last().content@, start, ignore_case) {
        kept(s.drop_last(), start, ignore_case).push(s.last())
    } else {
        kept(s.drop_last(), start, ignore_case)
    }
}

/// Keeps the candidates that begin with what was typed.
pub fn keep_matching(v: Vec<Candidate>, start: &str, ignore_case: bool) -> (r: Vec<Candidate>)
    ensures
        r@ == kept(v@, start@, ignore_case),
{
    let mut out: Vec<Candidate> = Vec::new();
    let mut i: usize = 0;
    while i < v.len()
        invariant
            i <= v@.len(),
            out@ == kept(v@.take(i as int), start@, ignore_case),
        decreases v@.len() - i,
    {
        if v[i].is_match(start, ignore_case) {
            out.push(v[i].clone());
        }
        i = i + 1;
        assert(v@.take(i as int).drop_last() =~= v@.take(i - 1));
    }
    assert(v@.take(i as int) =~= v@);
    out
}

/// What is kept begins with what was typed.
pub proof fn kept_candidates_match(s: Seq<Candidate>, start: Seq<char>, ignore_case: bool)
    ensures
        forall|i: int|
            0 <= i < kept(s, start, ignore_case).len() ==> candidate::matches_start(
                (#[trigger] kept(s, start, ignore_case)[i]).content@,
                start,
                ignore_case,
            ),
        kept(s, start, ignore_case).len() <= s.len(),
    decreases s.len(),
{
    if s.len() > 0 {
        kept_candidates_match(s.drop_last(), start, ignore_case);
    }
}

/// A name without `SIG` at its start.
pub open spec fn short_signal(s: Seq<char>) -> Seq<char> {
    if text::has_prefix(s, "SIG"@) {
        s.skip(3)
    } else {
        s
    }
}

/// The texts of candidates.
pub open spec fn contents(s: Seq<Candidate>) -> Seq<Seq<char>> {
    Seq::new(s.len(), |i: int| s[i].content@)
}

/// Candidates that have a text and nothing more.
pub open spec fn plain(s: Seq<Candidate>) -> bool {
    forall|i: int| 0 <= i < s.len() ==> (#[trigger] s[i]).desc is None && s[i].id is None
}

/// The texts that begin with what was typed.
pub open spec fn kept_texts(s: Seq<Seq<char>>, start: Seq<char>, ignore_case: bool) -> Seq<
    Seq<char>,
>
    decreases s.len(),
{
    if s.len() == 0 {
        s
    } else if candidate::matches_start(s.last(), start, ignore_case) {
        kept_texts(s.drop_last(), start, ignore_case).push(s.last())
    } else {
        kept_texts(s.drop_last(), start, ignore_case)
    }
}

/// Candidates from signal names, without `SIG`, that begin with what was typed.
pub fn signal_candidates(names: &Vec<String>, start: &str, ignore_case: bool) -> (r: Vec<Candidate>)
    ensures
        contents(r@) == kept_texts(
            Seq::new(names@.len(), |i: int| short_signal(names@[i]@)),
            start@,
            ignore_case,
        ),
        plain(r@),
{
    let ghost all = Seq::new(names@.len(), |i: int| short_signal(names@[i]@));
    let sig = chars_of("SIG");
    proof {
        reveal_strlit("SIG");
    }
    let mut out: Vec<Candidate> = Vec::new();
    let mut i: usize = 0;
    assert(contents(out@) =~= Seq::empty());
    while i < names.len()
        invariant
            i <= names@.len(),
            sig@ == "SIG"@,
            sig@.len() == 3,
            all == Seq::new(names@.len(), |i: int| short_signal(names@[i]@)),
            contents(out@) == kept_texts(all.take(i as int), start@, ignore_case),
            plain(out@),
        decreases names@.len() - i,
    {
        let v = chars_of(names[i].as_str());
        let short = if chars_start_with(v.as_slice(), sig.as_slice()) {
            let t = sub_chars(v.as_slice(), 3, v.len());
            assert(t@ =~= v@.skip(3));
            string_of(t.as_slice())
        } else {
            owned(names[i].as_str())
        };
        assert(short@ == all[i as int]);
        let c = Candidate::from_string(short);
        let ghost was = contents(out@);
        let keep = c.is_match(start, ignore_case);
        if keep {
            out.push(c);
        }
        i = i + 1;
        proof {
            assert(all.take(i as int).drop_last() =~= all.take(i - 1));
            assert(all.take(i as int).last() == all[i - 1]);
            if keep {
                assert(contents(out@) =~= was.push(all[i - 1]));
            }
        }
    }
    assert(all.take(i as int) =~= all);
    out
}

/// Names of signals without `SIG`.
pub open spec fn short_signals(n: Seq<Seq<char>>) -> Seq<Seq<char>> {
    Seq::new(n.len(), |i: int| short_signal(n[i]))
}

/// Whatever the signals of a system are, the common ones that begin with what was
/// typed are offered, and nothing is offered but signals that begin with it.
pub proof fn signals_are_offered(n: Seq<Seq<char>>, start: Seq<char>, ignore_case: bool)
    requires
        signal_list(n),
    ensures
        ({
            let k = kept_texts(short_signals(n), start, ignore_case);
            &&& forall|i: int|
                0 <= i < common_signals().len() && candidate::matches_start(
                    short_signal(#[trigger] common_signals()[i]),
                    start,
                    ignore_case,
                ) ==> k.contains(short_signal(common_signals()[i]))
            &&& forall|i: int|
                0 <= i < k.len() ==> candidate::matches_start(#[trigger] k[i], start, ignore_case)
                    && (short_signals(common_signals()).contains(k[i]) || short_signals(
                    rarer_signals(),
                ).contains(k[i]))
        }),
{
    let all = short_signals(n);
    let k = kept_texts(all, start, ignore_case);
    lemma_kept_texts(all, start, ignore_case);
    assert forall|i: int|
        0 <= i < common_signals().len() && candidate::matches_start(
            short_signal(#[trigger] common_signals()[i]),
            start,
            ignore_case,
        ) implies k.contains(short_signal(common_signals()[i])) by {
        let c = common_signals()[i];
        assert(n.contains(c));
        let j = choose|j: int| 0 <= j < n.len() && n[j] == c;
        assert(all[j] == short_signal(c));
        assert(k.contains(all[j]));
    }
    assert forall|i: int| 0 <= i < k.len() implies candidate::matches_start(
        #[trigger] k[i],
        start,
        ignore_case,
    ) && (short_signals(common_signals()).contains(k[i]) || short_signals(rarer_signals()).contains(
        k[i],
    )) by {
        assert(all.contains(k[i]));
        let j = choose|j: int| 0 <= j < all.len() && all[j] == k[i];
        if common_signals().contains(n[j]) {
            let m = choose|m: int| 0 <= m < common_signals().len() && common_signals()[m] == n[j];
            assert(short_signals(common_signals())[m] == k[i]);
        } else {
            assert(rarer_signals().contains(n[j]));
            let m = choose|m: int| 0 <= m < rarer_signals().len() && rarer_signals()[m] == n[j];
            assert(short_signals(rarer_signals())[m] == k[i]);
        }
    }
}

/// The signals of the system that begin with what was typed, without `SIG`.
/// Which there are depends on the system.
pub fn complete_signals(start: &str, ignore_case: bool) -> (r: Vec<Candidate>)
    ensures
        plain(r@),
        exists|n: Seq<Seq<char>>| #[trigger]
            signal_list(n) && contents(r@) == kept_texts(short_signals(n), start@, ignore_case),
{
    let names = signal_names();
    let r = signal_candidates(&names, start, ignore_case);
    proof {
        let n = views(names@);
        assert(short_signals(n) =~= Seq::new(names@.len(), |i: int| short_signal(names@[i]@)));
        assert(signal_list(n));
    }
    r
}

proof fn lemma_kept_texts(s: Seq<Seq<char>>, start: Seq<char>, ignore_case: bool)
    ensures
        forall|i: int|
            0 <= i < kept_texts(s, start, ignore_case).len() ==> candidate::matches_start(
                #[trigger] kept_texts(s, start, ignore_case)[i],
                start,
                ignore_case,
            ),
        forall|j: int|
            0 <= j < s.len() && candidate::matches_start(#[trigger] s[j], start, ignore_case)
                ==> kept_texts(s, start, ignore_case).contains(s[j]),
        forall|i: int|
            0 <= i < kept_texts(s, start, ignore_case).len() ==> s.contains(
                #[trigger] kept_texts(s, start, ignore_case)[i],
            ),
    decreases s.len(),
{
    if s.len() > 0 {
        let init = s.drop_last();
        lemma_kept_texts(init, start, ignore_case);
        let k0 = kept_texts(init, start, ignore_case);
        let k = kept_texts(s, start, ignore_case);
        assert forall|i: int| 0 <= i < k.len() implies s.contains(#[trigger] k[i]) by {
            if i < k0.len() {
                assert(k[i] == k0[i]);
                assert(init.contains(k0[i]));
                let m = choose|m: int| 0 <= m < init.len() && init[m] == k0[i];
                assert(s[m] == k[i]);
            } else {
                assert(s[s.len() - 1] == k[i]);
            }
        }
        assert forall|j: int|
            0 <= j < s.len() && candidate::matches_start(#[trigger] s[j], start, ignore_case)
            implies k.contains(s[j]) by {
            if j < s.len() - 1 {
                assert(init[j] == s[j]);
                assert(k0.contains(init[j]));
                let m = choose|m: int| 0 <= m < k0.len() && k0[m] == init[j];
                assert(k[m] == s[j]);
            } else {
                assert(k[k.len() - 1] == s[j]);
            }
        }
    }
}

/// A name with something to say about it.
#[derive(Debug)]
pub struct Named {
    pub name: String,
    pub about: String,
}

/// What candidates say.
pub open spec fn said(s: Seq<Candidate>) -> Seq<(Seq<char>, Option<Seq<char>>)> {
    Seq::new(s.len(), |i: int| (s[i].content@, candidate::opt_chars(s[i].desc)))
}

/// The described names that begin with what was typed.
pub open spec fn kept_named(s: Seq<Named>, start: Seq<char>, ignore_case: bool) -> Seq<
    (Seq<char>, Option<Seq<char>>),
>
    decreases s.len(),
{
    if s.len() == 0 {
        Seq::empty()
    } else if candidate::matches_start(s.last().name@, start, ignore_case) {
        kept_named(s.drop_last(), start, ignore_case).push((s.last().name@, Some(s.last().about@)))
    } else {
        kept_named(s.drop_last(), start, ignore_case)
    }
}

fn named_candidates(v: &Vec<Named>, start: &str, ignore_case: bool) -> (r: Vec<Candidate>)
    ensures
        said(r@) == kept_named(v@, start@, ignore_case),
{
    let mut out: Vec<Candidate> = Vec::new();
    let mut i: usize = 0;
    assert(said(out@) =~= Seq::empty());
    while i < v.len()
        invariant
            i <= v@.len(),
            said(out@) == kept_named(v@.take(i as int), start@, ignore_case),
        decreases v@.len() - i,
    {
        let c = Candidate::from_text(v[i].name.as_str()).with_desc(owned(v[i].about.as_str()));
        let ghost was = said(out@);
        let keep = c.is_match(start, ignore_case);
        if keep {
            out.push(c);
        }
        i = i + 1;
        proof {
            assert(v@.take(i as int).drop_last() =~= v@.take(i - 1));
            assert(v@.take(i as int).last() == v@[i - 1]);
            if keep {
                assert(said(out@) =~= was.push((v@[i - 1].name@, Some(v@[i - 1].about@))));
            }
        }
    }
    assert(v@.take(i as int) =~= v@);
    out
}

/// The aliases that begin with what was typed, each with what it stands for.
pub fn complete_aliases(aliases: &Vec<Named>, start: &str, ignore_case: bool) -> (r: Vec<Candidate>)
    ensures
        said(r@) == kept_named(aliases@, start@, ignore_case),
{
    named_candidates(aliases, start, ignore_case)
}

/// A job: its name if it has one, its process group, and its command line.
#[derive(Debug)]
pub struct JobInfo {
    pub name: Option<String>,
    pub pgid: String,
    pub cmd_line: String,
}

/// The named jobs that begin with what follows a percent sign, each with the
/// sign before it; or the process groups that begin with what was typed, each
/// with its command line.
pub open spec fn kept_jobs(s: Seq<JobInfo>, start: Seq<char>, ignore_case: bool) -> Seq<
    (Seq<char>, Option<Seq<char>>),
>
    decreases s.len(),
{
    if s.len() == 0 {
        Seq::empty()
    } else {
        let init = kept_jobs(s.drop_last(), start, ignore_case);
        let j = s.last();
        if start.len() > 0 && start[0] == '%' {
            match j.name {
                Some(n) => if candidate::matches_start(n@, start.skip(1), ignore_case) {
                    init.push((seq!['%'] + n@, None))
                } else {
                    init
                },
                None => init,
            }
        } else if candidate::matches_start(j.pgid@, start, ignore_case) {
            init.push((j.pgid@, Some(j.cmd_line@)))
        } else {
            init
        }
    }
}

/// The jobs that begin with what was typed.
pub fn complete_jobs(jobs: &Vec<JobInfo>, start: &str, ignore_case: bool) -> (r: Vec<Candidate>)
    ensures
        said(r@) == kept_jobs(jobs@, start@, ignore_case),
{
    let s = chars_of(start);
    let by_name: bool = s.len() > 0 && s[0] == '%';
    let prefix = if by_name {
        let t = sub_chars(s.as_slice(), 1, s.len());
        assert(t@ =~= s@.skip(1));
        string_of(t.as_slice())
    } else {
        owned(start)
    };
    let mut out: Vec<Candidate> = Vec::new();
    let mut i: usize = 0;
    assert(said(out@) =~= Seq::empty());
    while i < jobs.len()
        invariant
            i <= jobs@.len(),
            s@ == start@,
            by_name == (s@.len() > 0 && s@[0] == '%'),
            by_name ==> prefix@ == start@.skip(1),
            !by_name ==> prefix@ == start@,
            said(out@) == kept_jobs(jobs@.take(i as int), start@, ignore_case),
        decreases jobs@.len() - i,
    {
        let ghost was = said(out@);
        let ghost mut added: Option<(Seq<char>, Option<Seq<char>>)> = None;
        if by_name {
            if let Some(n) = &jobs[i].name {
                let c = Candidate::from_text(n.as_str());
                if c.is_match(prefix.as_str(), ignore_case) {
                    let mut t: String = String::new();
                    t.push('%');
                    t.push_str(n.as_str());
                    assert(t@ =~= seq!['%'] + n@);
                    proof {
                        added = Some((t@, None));
                    }
                    out.push(Candidate::from_string(t));
                }
            }
        } else {
            let c = Candidate::from_text(jobs[i].pgid.as_str()).with_desc(
                owned(jobs[i].cmd_line.as_str()),
            );
            if c.is_match(prefix.as_str(), ignore_case) {
                proof {
                    added = Some((c.content@, candidate::opt_chars(c.desc)));
                }
                out.push(c);
            }
        }
        i = i + 1;
        proof {
            assert(jobs@.take(i as int).drop_last() =~= jobs@.take(i - 1));
            assert(jobs@.take(i as int).last() == jobs@[i - 1]);
            if added is Some {
                assert(said(out@) =~= was.push(added->0));
            }
        }
    }
    assert(jobs@.take(i as int) =~= jobs@);
    out
}

/// The user name that a line of the user list begins with: up to the first
/// colon.
pub open spec fn user_of(line: Seq<char>, i: int) -> Seq<char>
    decreases line.len() - i,
{
    if i < 0 || i >= line.len() {
        line
    } else if line[i] == ':' {
        line.take(i)
    } else {
        user_of(line, i + 1)
    }
}

/// The users of some lines of the user list that begin with what was typed.
pub open spec fn kept_users(rows: Seq<String>, start: Seq<char>, ignore_case: bool) -> Seq<
    Seq<char>,
>
    decreases rows.len(),
{
    if rows.len() == 0 {
        Seq::empty()
    } else {
        let init = kept_users(rows.drop_last(), start, ignore_case);
        let u = user_of(rows.last()@, 0);
        if candidate::matches_start(u, start, ignore_case) {
            init.push(u)
        } else {
            init
        }
    }
}

/// The users that begin with what was typed, from the lines of the user list.
pub fn complete_users(rows: &Vec<String>, start: &str, ignore_case: bool) -> (r: Vec<Candidate>)
    ensures
        contents(r@) == kept_users(rows@, start@, ignore_case),
        plain(r@),
{
    let mut out: Vec<Candidate> = Vec::new();
    let mut i: usize = 0;
    assert(contents(out@) =~= Seq::empty());
    while i < rows.len()
        invariant
            i <= rows@.len(),
            contents(out@) == kept_users(rows@.take(i as int), start@, ignore_case),
            plain(out@),
        decreases rows@.len() - i,
    {
        let v = chars_of(rows[i].as_str());
        let mut k: usize = 0;
        while k < v.len() && v[k] != ':'
            invariant
                k <= v@.len(),
                user_of(v@, 0) == user_of(v@, k as int),
            decreases v@.len() - k,
        {
            k = k + 1;
        }
        let u = sub_chars(v.as_slice(), 0, k);
        assert(u@ =~= user_of(v@, 0));
        let c = Candidate::from_string(string_of(u.as_slice()));
        let ghost was = contents(out@);
        let keep = c.is_match(start, ignore_case);
        if keep {
            out.push(c);
        }
        i = i + 1;
        proof {
            assert(rows@.take(i as int).drop_last() =~= rows@.take(i - 1));
            assert(rows@.take(i as int).last() == rows@[i - 1]);
            if keep {
                assert(contents(out@) =~= was.push(u@));
            }
        }
    }
    assert(rows@.take(i as int) =~= rows@);
    out
}

/// The name in a substitution that is being typed: the name, and where it
/// begins and ends. `i` characters were read, and `name` so far, which begins
/// at `from`.
pub open spec fn var_from(
    s: Seq<char>,
    i: int,
    reading: bool,
    name: Seq<char>,
    from: int,
) -> Option<(Seq<char>, int, int)>
    decreases s.len() - i,
{
    if i < 0 || i >= s.len() {
        if reading {
            Some((name, from, i))
        } else {
            None
        }
    } else if s[i] == '$' {
        if i + 1 < s.len() && s[i + 1] == '{' {
            var_from(s, i + 1, reading, name, from)
        } else {
            var_from(s, i + 1, true, name, i + 1)
        }
    } else if s[i] == '{' && !reading {
        var_from(s, i + 1, true, name, i + 1)
    } else if unicode::alphanumeric(s[i]) || s[i] == '_' {
        var_from(
            s,
            i + 1,
            reading,
            if reading {
                name.push(s[i])
            } else {
                name
            },
            from,
        )
    } else if reading {
        Some((name, from, i))
    } else {
        var_from(s, i + 1, reading, name, from)
    }
}

/// The name in a substitution that is being typed, and where it begins and
/// ends.
pub fn extract_var_name(text: &str) -> (r: Option<(String, usize, usize)>)
    ensures
        match r {
            Some(x) => var_from(text@, 0, false, Seq::empty(), 0) == Some(
                (x.0@, x.1 as int, x.2 as int),
            ),
            None => var_from(text@, 0, false, Seq::empty(), 0) is None,
        },
{
    let v = chars_of(text);
    let mut name: String = String::new();
    let mut reading: bool = false;
    let mut from: usize = 0;
    let mut i: usize = 0;
    assert(name@ =~= Seq::empty());
    while i < v.len()
        invariant
            i <= v@.len(),
            v@ == text@,
            var_from(text@, 0, false, Seq::empty(), 0) == var_from(
                text@,
                i as int,
                reading,
                name@,
                from as int,
            ),
        decreases v@.len() - i,
    {
        let c = v[i];
        if c == '$' {
            if i + 1 < v.len() && v[i + 1] == '{' {
                i = i + 1;
                continue;
            }
            reading = true;
            from = i + 1;
        } else if c == '{' && !reading {
            reading = true;
            from = i + 1;
        } else if c.is_alphanumeric() || c == '_' {
            if reading {
                name.push(c);
            }
        } else if reading {
            return Some((name, from, i));
        }
        i = i + 1;
    }
    if reading {
        Some((name, from, i))
    } else {
        None
    }
}

/// The value of a variable among those there are.
pub open spec fn value_of(vars: Seq<Named>, name: Seq<char>) -> Option<Seq<char>>
    decreases vars.len(),
{
    if vars.len() == 0 {
        None
    } else if vars[0].name@ == name {
        Some(vars[0].about@)
    } else {
        value_of(vars.skip(1), name)
    }
}

fn lookup(vars: &Vec<Named>, name: &str) -> (r: Option<String>)
    ensures
        candidate::opt_chars(r) == value_of(vars@, name@),
{
    let mut i: usize = 0;
    assert(vars@.skip(0) =~= vars@);
    while i < vars.len()
        invariant
            i <= vars@.len(),
            value_of(vars@, name@) == value_of(vars@.skip(i as int), name@),
        decreases vars@.len() - i,
    {
        assert(vars@.skip(i as int)[0] == vars@[i as int]);
        if same_str(vars[i].name.as_str(), name) {
            return Some(owned(vars[i].about.as_str()));
        }
        assert(vars@.skip(i as int).skip(1) =~= vars@.skip(i + 1));
        i = i + 1;
    }
    None
}

/// The variables that go on from a name, each behind a sign such as `$`, with
/// the value of a variable of that whole text if there is one.
pub open spec fn kept_vars(all: Seq<Named>, n: int, sign: Seq<char>, name: Seq<char>) -> Seq<
    (Seq<char>, Option<Seq<char>>),
>
    decreases n,
{
    if n <= 0 || n > all.len() {
        Seq::empty()
    } else {
        let init = kept_vars(all, n - 1, sign, name);
        let k = all[n - 1].name@;
        if text::has_prefix(k, name) && k != name {
            init.push((sign + k, value_of(all, sign + k)))
        } else {
            init
        }
    }
}

fn var_candidates(vars: &Vec<Named>, sign: &str, name: &str) -> (r: Vec<Candidate>)
    ensures
        said(r@) == kept_vars(vars@, vars@.len() as int, sign@, name@),
{
    let mut out: Vec<Candidate> = Vec::new();
    let mut i: usize = 0;
    assert(said(out@) =~= Seq::empty());
    while i < vars.len()
        invariant
            i <= vars@.len(),
            said(out@) == kept_vars(vars@, i as int, sign@, name@),
        decreases vars@.len() - i,
    {
        let ghost was = said(out@);
        if str_starts_with(vars[i].name.as_str(), name) && !same_str(vars[i].name.as_str(), name) {
            let mut s = owned(sign);
            s.push_str(vars[i].name.as_str());
            let c = match lookup(vars, s.as_str()) {
                Some(val) => Candidate::from_string(s).with_desc(val),
                None => Candidate::from_string(s),
            };
            let ghost x = (c.content@, candidate::opt_chars(c.desc));
            out.push(c);
            assert(said(out@) =~= was.push(x));
        }
        i = i + 1;
    }
    out
}

/// The variables that go on from the name in a substitution. Where the name is
/// that of a variable with a value there is nothing to complete.
pub open spec fn vars_for(vars: Seq<Named>, start: Seq<char>) -> Seq<
    (Seq<char>, Option<Seq<char>>),
> {
    match var_from(start, 0, false, Seq::empty(), 0) {
        None => Seq::empty(),
        Some((name, from, to)) => if has_value(vars, name) {
            Seq::empty()
        } else {
            kept_vars(vars, vars.len() as int, start.take(from), name)
        },
    }
}

/// Whether a variable has a value that is not empty.
pub open spec fn has_value(vars: Seq<Named>, name: Seq<char>) -> bool {
    value_of(vars, name) matches Some(v) && v.len() > 0
}

fn is_set(vars: &Vec<Named>, name: &str) -> (r: bool)
    ensures
        r == has_value(vars@, name@),
{
    match lookup(vars, name) {
        Some(v) => {
            let c = chars_of(v.as_str());
            c.len() > 0
        },
        None => false,
    }
}

proof fn lemma_var_from(s: Seq<char>, i: int, reading: bool, name: Seq<char>, from: int)
    requires
        0 <= i <= s.len(),
        0 <= from <= i,
    ensures
        var_from(s, i, reading, name, from) matches Some(x) ==> 0 <= x.1 <= s.len(),
    decreases s.len() - i,
{
    if i < s.len() {
        if s[i] == '$' {
            lemma_var_from(s, i + 1, reading, name, from);
            lemma_var_from(s, i + 1, true, name, i + 1);
        } else if s[i] == '{' && !reading {
            lemma_var_from(s, i + 1, true, name, i + 1);
        } else {
            lemma_var_from(s, i + 1, reading, name.push(s[i]), from);
            lemma_var_from(s, i + 1, reading, name, from);
        }
    }
}

/// Completes the name in a substitution.
pub fn complete_vars(vars: &Vec<Named>, start: &str) -> (r: Vec<Candidate>)
    ensures
        said(r@) == vars_for(vars@, start@),
{
    let none: Vec<Candidate> = Vec::new();
    assert(said(none@) =~= Seq::empty());
    match extract_var_name(start) {
        None => none,
        Some((name, from, _)) => {
            if is_set(vars, name.as_str()) {
                return none;
            }
            let v = chars_of(start);
            proof {
                lemma_var_from(start@, 0, false, Seq::empty(), 0);
            }
            let sign = sub_chars(v.as_slice(), 0, from);
            assert(sign@ =~= start@.take(from as int));
            let sign = string_of(sign.as_slice());
            var_candidates(vars, sign.as_str(), name.as_str())
        },
    }
}

/// Completes a bare name of a variable.
pub fn complete_vars_raw(vars: &Vec<Named>, raw: &str) -> (r: Vec<Candidate>)
    ensures
        said(r@) == (if has_value(vars@, raw@) {
            Seq::empty()
        } else {
            kept_vars(vars@, vars@.len() as int, Seq::empty(), raw@)
        }),
{
    let none: Vec<Candidate> = Vec::new();
    assert(said(none@) =~= Seq::empty());
    if is_set(vars, raw) {
        return none;
    }
    let sign: String = String::new();
    assert(sign@ =~= Seq::empty());
    var_candidates(vars, sign.as_str(), raw)
}

/// Completes the name of a command: the utilities that begin with it, and the
/// directories where they may stand for a change to them, in order.
pub fn complete_commands(
    utils: Vec<Candidate>,
    dirs: Vec<Candidate>,
    autocd: bool,
    start: &str,
    ignore_case: bool,
) -> (r: Vec<Candidate>)
    ensures
        r@ == candidate::sorted(
            kept(utils@, start@, ignore_case) + (if autocd {
                dirs@
            } else {
                Seq::empty()
            }),
        ),
{
    let mut dirs = dirs;
    let mut v = keep_matching(utils, start, ignore_case);
    if autocd {
        v.append(&mut dirs);
    } else {
        assert(v@ + Seq::<Candidate>::empty() =~= v@);
    }
    sort_candidates(v)
}

/// An entry of a directory: its name, whether it is a directory, whether it
/// leads to one, and what to say about it.
#[derive(Debug)]
pub struct DirItem {
    pub name: String,
    pub is_dir: bool,
    pub leads_to_dir: bool,
    pub desc: String,
}

/// The directory that a typed path names, and the start of a name in it.
pub open spec fn dir_and_start(start: Seq<char>) -> (Seq<char>, Seq<char>) {
    if start.len() == 0 {
        ("."@, Seq::empty())
    } else if start.last() == '/' {
        (start, Seq::empty())
    } else {
        match parent_of(start) {
            Some(p) => if p.len() > 0 {
                (
                    p,
                    match name_of(start) {
                        Some(n) => n,
                        None => Seq::empty(),
                    },
                )
            } else {
                ("."@, start)
            },
            None => ("."@, start),
        }
    }
}

/// The directory that a typed path names, and the start of a name in it. A
/// path that ends in `..` names no entry, and every entry is looked at.
pub fn split_typed_path(start: &str) -> (r: (String, String))
    ensures
        (r.0@, r.1@) == dir_and_start(start@),
{
    let v = chars_of(start);
    if v.len() == 0 {
        let e: String = String::new();
        assert(e@ =~= Seq::empty());
        return (owned("."), e);
    }
    if v[v.len() - 1] == '/' {
        let e: String = String::new();
        assert(e@ =~= Seq::empty());
        return (owned(start), e);
    }
    match path_parent(start) {
        Some(p) => {
            let pv = chars_of(p.as_str());
            if pv.len() > 0 {
                let n = match path_name(start) {
                    Some(n) => n,
                    None => {
                        let e: String = String::new();
                        assert(e@ =~= Seq::empty());
                        e
                    },
                };
                (p, n)
            } else {
                (owned("."), owned(start))
            }
        },
        None => (owned("."), owned(start)),
    }
}

/// A text without `./` at its start, however often it stands there.
pub open spec fn without_dot_slash(s: Seq<char>) -> Seq<char>
    decreases s.len(),
{
    if s.len() >= 2 && s[0] == '.' && s[1] == '/' {
        without_dot_slash(s.skip(2))
    } else {
        s
    }
}

fn strip_dot_slash(v: &[char]) -> (r: Vec<char>)
    ensures
        r@ == without_dot_slash(v@),
{
    let n: usize = v.len();
    let mut i: usize = 0;
    assert(v@.skip(0) =~= v@);
    while n - i >= 2 && v[i] == '.' && v[i + 1] == '/'
        invariant
            i <= n == v@.len(),
            without_dot_slash(v@) == without_dot_slash(v@.skip(i as int)),
        decreases n - i,
    {
        assert(v@.skip(i as int)[0] == v@[i as int]);
        assert(v@.skip(i as int)[1] == v@[i + 1]);
        assert(v@.skip(i as int).skip(2) =~= v@.skip(i + 2));
        i = i + 2;
    }
    proof {
        if n - i >= 2 {
            assert(v@.skip(i as int)[0] == v@[i as int]);
            assert(v@.skip(i as int)[1] == v@[i + 1]);
        }
    }
    let r = sub_chars(v, i, n);
    assert(r@ =~= v@.skip(i as int));
    r
}

/// The path of an entry of a directory, with a slash behind a directory.
pub open spec fn entry_path(dir: Seq<char>, name: Seq<char>, is_dir: bool) -> Seq<char> {
    let sep = if dir.len() == 0 || dir.last() == '/' {
        Seq::empty()
    } else {
        seq!['/']
    };
    let end = if is_dir {
        seq!['/']
    } else {
        Seq::empty()
    };
    dir + sep + name + end
}

/// The text of a candidate for an entry: `./` is left out unless it was typed.
pub open spec fn entry_text(dir: Seq<char>, name: Seq<char>, is_dir: bool, dotslash: bool) -> Seq<
    char,
> {
    let p = entry_path(dir, name, is_dir);
    if dotslash {
        p
    } else {
        without_dot_slash(p)
    }
}

/// Whether an entry is offered: hidden ones only where a dot was typed.
pub open spec fn offered(name: Seq<char>, start: Seq<char>, ignore_case: bool) -> bool {
    &&& (name.len() > 0 && name[0] == '.') ==> (start.len() > 0 && start[0] == '.')
    &&& candidate::matches_start(name, start, ignore_case)
}

/// The candidates that the first `n` entries of a directory give.
pub open spec fn entries_offered(
    items: Seq<DirItem>,
    n: int,
    start: Seq<char>,
    dirs_only: bool,
    ignore_case: bool,
) -> Seq<(Seq<char>, Option<Seq<char>>)>
    decreases n,
{
    if n <= 0 || n > items.len() {
        Seq::empty()
    } else {
        let init = entries_offered(items, n - 1, start, dirs_only, ignore_case);
        let (dir, name) = dir_and_start(start);
        let it = items[n - 1];
        if offered(it.name@, name, ignore_case) && (dirs_only ==> it.leads_to_dir) {
            init.push(
                (
                    entry_text(dir, it.name@, it.is_dir, text::has_prefix(start, "./"@)),
                    Some(it.desc@),
                ),
            )
        } else {
            init
        }
    }
}

/// Completes a path, from the entries of the directory that it names. The
/// candidates are in order.
pub fn complete_entries(
    items: &Vec<DirItem>,
    start: &str,
    dirs_only: bool,
    ignore_case: bool,
) -> (r: Vec<Candidate>)
    ensures
        exists|s: Seq<Candidate>|
            said(s) == entries_offered(
                items@,
                items@.len() as int,
                start@,
                dirs_only,
                ignore_case,
            ) && r@ == #[trigger] candidate::sorted(s),
{
    let (dir, name) = split_typed_path(start);
    let sv = chars_of(start);
    let ds = chars_of("./");
    let dotslash = chars_start_with(sv.as_slice(), ds.as_slice());
    let nv = chars_of(name.as_str());
    let dot_typed: bool = nv.len() > 0 && nv[0] == '.';
    let mut out: Vec<Candidate> = Vec::new();
    let mut i: usize = 0;
    assert(said(out@) =~= Seq::empty());
    while i < items.len()
        invariant
            i <= items@.len(),
            (dir@, name@) == dir_and_start(start@),
            dotslash == text::has_prefix(start@, "./"@),
            dot_typed == (name@.len() > 0 && name@[0] == '.'),
            said(out@) == entries_offered(items@, i as int, start@, dirs_only, ignore_case),
        decreases items@.len() - i,
    {
        let ghost was = said(out@);
        let it = &items[i];
        let iv = chars_of(it.name.as_str());
        let hidden: bool = iv.len() > 0 && iv[0] == '.';
        let c = Candidate::from_text(it.name.as_str());
        if (!hidden || dot_typed) && c.is_match(name.as_str(), ignore_case) && (!dirs_only
            || it.leads_to_dir) {
            let dv = chars_of(dir.as_str());
            let mut p = owned(dir.as_str());
            if dv.len() > 0 && dv[dv.len() - 1] != '/' {
                p.push('/');
            }
            p.push_str(it.name.as_str());
            if it.is_dir {
                p.push('/');
            }
            assert(p@ =~= entry_path(dir@, it.name@, it.is_dir));
            let t = if dotslash {
                p
            } else {
                let pv = chars_of(p.as_str());
                let q = strip_dot_slash(pv.as_slice());
                string_of(q.as_slice())
            };
            let c = Candidate::from_string(t).with_desc(owned(it.desc.as_str()));
            let ghost x = (c.content@, candidate::opt_chars(c.desc));
            out.push(c);
            assert(said(out@) =~= was.push(x));
        }
        i = i + 1;
    }
    let ghost s = out@;
    let r = sort_candidates(out);
    assert(r@ == candidate::sorted(s));
    r
}

/// What a directory listing says of an entry.
#[derive(Debug, Clone, Copy, PartialEq, Eq, Structural)]
pub struct FileKind {
    pub is_dir: bool,
    pub is_link: bool,
    pub executable: bool,
    pub is_file: bool,
}

/// The word for the kind of an entry.
pub open spec fn kind_word(k: FileKind) -> Seq<char> {
    if k.is_dir {
        "dir"@
    } else if k.is_link {
        "link"@
    } else if k.executable {
        "exec"@
    } else if k.is_file {
        "file"@
    } else {
        "?"@
    }
}

/// A text filled up with spaces behind it.
pub open spec fn padded_right(s: Seq<char>, n: nat) -> Seq<char> {
    if s.len() >= n {
        s
    } else {
        s + text::repeated(' ', (n - s.len()) as nat)
    }
}

/// A text filled up with spaces before it.
pub open spec fn padded_left(s: Seq<char>, n: nat) -> Seq<char> {
    if s.len() >= n {
        s
    } else {
        text::repeated(' ', (n - s.len()) as nat) + s
    }
}

/// Describes an entry of a directory: its kind, its size unless it is a
/// directory, and its permissions.
pub fn file_description(k: FileKind, size: &str, mode: &str) -> (r: String)
    ensures
        r@ == padded_right(kind_word(k), 4) + seq![' '] + padded_left(
            if k.is_dir {
                "-"@
            } else {
                size@
            },
            6,
        ) + seq![' '] + mode@,
{
    let word = if k.is_dir {
        "dir"
    } else if k.is_link {
        "link"
    } else if k.executable {
        "exec"
    } else if k.is_file {
        "file"
    } else {
        "?"
    };
    let mut out = owned(word);
    let w = chars_of(word);
    if w.len() < 4 {
        push_repeated(&mut out, ' ', 4 - w.len());
    }
    assert(out@ =~= padded_right(kind_word(k), 4));
    out.push(' ');
    let size = if k.is_dir {
        "-"
    } else {
        size
    };
    let s = chars_of(size);
    let ghost before = out@;
    if s.len() < 6 {
        push_repeated(&mut out, ' ', 6 - s.len());
    }
    out.push_str(size);
    assert(out@ =~= before + padded_left(size@, 6));
    out.push(' ');
    out.push_str(mode);
    out
}

/// The candidates among the first `n` that are directories.
pub open spec fn dirs_among(s: Seq<Candidate>, is_dir: Seq<bool>, n: int) -> Seq<Candidate>
    decreases n,
{
    if n <= 0 {
        Seq::empty()
    } else if n <= is_dir.len() && is_dir[n - 1] {
        dirs_among(s, is_dir, n - 1).push(s[n - 1])
    } else {
        dirs_among(s, is_dir, n - 1)
    }
}

/// The candidates that are directories, where it is known of each whether it is one.
pub fn complete_dirs(found: Vec<Candidate>, is_dir: &[bool]) -> (r: Vec<Candidate>)
    ensures
        r@ == dirs_among(found@, is_dir@, found@.len() as int),
{
    let mut out: Vec<Candidate> = Vec::new();
    let mut i: usize = 0;
    while i < found.len()
        invariant
            i <= found@.len(),
            out@ == dirs_among(found@, is_dir@, i as int),
        decreases found@.len() - i,
    {
        if i < is_dir.len() && is_dir[i] {
            out.push(found[i].clone());
        }
        i = i + 1;
    }
    out
}

/// The path that is completed, of a start and what stands before it.
pub fn path_to_complete(prefix: &str, parent: Option<&str>) -> (r: String)
    ensures
        r@ == match parent {
            Some(p) => p@ + prefix@,
            None => prefix@,
        },
{
    match parent {
        Some(p) => {
            let mut s = owned(p);
            s.push_str(prefix);
            s
        },
        None => owned(prefix),
    }
}

} // verus!
