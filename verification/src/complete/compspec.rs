//! How the arguments of a command are completed, where the user has set it.

use crate::complete::candidate;
use crate::complete::candidate::Candidate;
use crate::complete::candidate::CompResult;
use crate::complete::simple;
use crate::complete::simple::comp_spec_result;
use crate::complete::simple::CompContext;
use crate::complete::simple::CompOptFlags;
use crate::complete::simple::CompSpecResult;
use crate::complete::simple::SimpleCompleter;
use crate::complete::strat::CompStrat;
use crate::text;
use crate::text::bytes_up_to;
use crate::text::chars_of;
use crate::text::chars_start_with;
use crate::text::decimal_string;
use crate::text::owned;
use crate::text::push_chars;
use crate::text::sub_chars;
use vstd::prelude::*;

verus! {

/// What kinds of words complete.
#[derive(Debug, Clone, Copy, PartialEq, Eq, Structural)]
pub struct CompFlags {
    pub files: bool,
    pub dirs: bool,
    pub cmds: bool,
    pub users: bool,
    pub vars: bool,
    pub jobs: bool,
    pub alias: bool,
}

/// The options that a completion is set with.
#[derive(Debug)]
pub struct CompOpts {
    pub func: Option<String>,
    pub wordlist: Option<Vec<String>>,
    pub action: Option<String>,
    pub flags: CompFlags,
    pub opt_flags: CompOptFlags,
}

/// How the arguments of a command are completed.
#[derive(Debug)]
pub struct BashCompSpec {
    /// A function that gives candidates.
    pub function: Option<String>,
    /// Words that are candidates.
    pub wordlist: Option<Vec<String>>,
    pub files: bool,
    pub dirs: bool,
    pub commands: bool,
    pub users: bool,
    pub vars: bool,
    pub signals: bool,
    pub jobs: bool,
    pub aliases: bool,
    pub flags: CompOptFlags,
    /// The command that set it.
    pub source: String,
}

/// What was found of each kind for what is typed.
#[derive(Debug)]
pub struct FoundKinds {
    pub files: Vec<Candidate>,
    pub dirs: Vec<Candidate>,
    pub commands: Vec<Candidate>,
    pub vars: Vec<Candidate>,
    pub users: Vec<Candidate>,
    pub jobs: Vec<Candidate>,
    pub aliases: Vec<Candidate>,
    pub signals: Vec<Candidate>,
}

/// What a function that gives candidates is called with: variables, and the
/// command line of the call.
#[derive(Debug)]
pub struct CompCall {
    pub words: Vec<String>,
    pub cword: String,
    pub line: String,
    pub point: String,
    pub input: String,
}

/// A word, or nothing where there is none.
pub open spec fn word_or_empty(words: Seq<String>, i: int) -> Seq<char> {
    if 0 <= i < words.len() {
        words[i]@
    } else {
        Seq::empty()
    }
}

fn get_word(words: &Vec<String>, i: usize) -> (r: String)
    ensures
        r@ == word_or_empty(words@, i as int),
{
    if i < words.len() {
        words[i].clone()
    } else {
        let none: String = String::new();
        assert(none@ =~= Seq::empty());
        none
    }
}

fn copy_words(v: &Vec<String>) -> (r: Vec<String>)
    ensures
        r@ == v@,
{
    let mut out: Vec<String> = Vec::new();
    let mut i: usize = 0;
    while i < v.len()
        invariant
            i <= v@.len(),
            out@ == v@.take(i as int),
        decreases v@.len() - i,
    {
        out.push(v[i].clone());
        i = i + 1;
        assert(out@ =~= v@.take(i as int));
    }
    assert(out@ =~= v@);
    out
}

/// The length of a candidate, in bytes, as far as it can be counted.
pub open spec fn length(c: Candidate) -> usize {
    let n = text::byte_len(c.content@);
    if n <= usize::MAX {
        n as usize
    } else {
        usize::MAX
    }
}

fn length_of(c: &Candidate) -> (r: usize)
    ensures
        r == length(*c),
{
    let v = chars_of(c.content.as_str());
    assert(v@.take(v@.len() as int) =~= v@);
    bytes_up_to(v.as_slice(), v.len())
}

/// A candidate put among others: behind those that are not longer.
pub open spec fn put_by_length(s: Seq<Candidate>, c: Candidate) -> Seq<Candidate>
    decreases s.len(),
{
    if s.len() == 0 {
        seq![c]
    } else if length(s.last()) <= length(c) {
        s.push(c)
    } else {
        put_by_length(s.drop_last(), c).push(s.last())
    }
}

/// Candidates with the shorter ones first, in the order they had where they are of
/// one length.
pub open spec fn by_length(s: Seq<Candidate>) -> Seq<Candidate>
    decreases s.len(),
{
    if s.len() == 0 {
        s
    } else {
        put_by_length(by_length(s.drop_last()), s.last())
    }
}

fn insert_by_length(v: &mut Vec<Candidate>, c: Candidate)
    ensures
        final(v)@ == put_by_length(old(v)@, c),
{
    let ghost s = v@;
    let n: usize = length_of(&c);
    let mut i: usize = v.len();
    assert(s.take(i as int) =~= s);
    assert(s.skip(i as int) =~= Seq::empty());
    while i > 0 && length_of(&v[i - 1]) > n
        invariant
            i <= s.len(),
            v@ == s,
            n == length(c),
            put_by_length(s, c) == put_by_length(s.take(i as int), c) + s.skip(i as int),
        decreases i,
    {
        i = i - 1;
        proof {
            let t = s.take(i + 1);
            assert(t.drop_last() =~= s.take(i as int));
            assert(t.last() == s[i as int]);
            assert(put_by_length(s.take(i as int), c).push(s[i as int]) + s.skip(i + 1)
                =~= put_by_length(s.take(i as int), c) + s.skip(i as int));
        }
    }
    proof {
        let t = s.take(i as int);
        if i > 0 {
            assert(t.last() == s[i - 1]);
        }
        assert(put_by_length(t, c) =~= t.push(c));
        assert(s.insert(i as int, c) =~= t.push(c) + s.skip(i as int));
    }
    v.insert(i, c);
}

/// The longest candidates come first.
pub proof fn longest_come_first(s: Seq<Candidate>)
    ensures
        by_length(s).reverse().len() == s.len(),
        forall|i: int, j: int|
            0 <= i <= j < s.len() ==> length(#[trigger] by_length(s).reverse()[i]) >= length(
                #[trigger] by_length(s).reverse()[j],
            ),
    decreases s.len(),
{
    lemma_by_length(s);
    let b = by_length(s);
    assert forall|i: int, j: int| 0 <= i <= j < s.len() implies length(#[trigger] b.reverse()[i])
        >= length(#[trigger] b.reverse()[j]) by {
        assert(b.reverse()[i] == b[s.len() - 1 - i]);
        assert(b.reverse()[j] == b[s.len() - 1 - j]);
    }
}

proof fn lemma_by_length(s: Seq<Candidate>)
    ensures
        by_length(s).len() == s.len(),
        forall|i: int, j: int|
            0 <= i <= j < s.len() ==> length(#[trigger] by_length(s)[i]) <= length(
                #[trigger] by_length(s)[j],
            ),
    decreases s.len(),
{
    if s.len() > 0 {
        lemma_by_length(s.drop_last());
        lemma_put(by_length(s.drop_last()), s.last());
    }
}

proof fn lemma_put(s: Seq<Candidate>, c: Candidate)
    requires
        forall|i: int, j: int|
            0 <= i <= j < s.len() ==> length(#[trigger] s[i]) <= length(#[trigger] s[j]),
    ensures
        put_by_length(s, c).len() == s.len() + 1,
        forall|i: int|
            0 <= i <= s.len() ==> (#[trigger] put_by_length(s, c)[i]) == c || s.contains(
                put_by_length(s, c)[i],
            ),
        forall|i: int, j: int|
            0 <= i <= j <= s.len() ==> length(#[trigger] put_by_length(s, c)[i]) <= length(
                #[trigger] put_by_length(s, c)[j],
            ),
    decreases s.len(),
{
    let r = put_by_length(s, c);
    if s.len() == 0 {
    } else if length(s.last()) <= length(c) {
        assert forall|i: int| 0 <= i <= s.len() implies (#[trigger] r[i]) == c || s.contains(
            r[i],
        ) by {
            if i < s.len() {
                assert(s[i] == r[i]);
            }
        }
        assert forall|i: int, j: int| 0 <= i <= j <= s.len() implies length(#[trigger] r[i])
            <= length(#[trigger] r[j]) by {
            if j == s.len() && i < s.len() {
                assert(r[i] == s[i]);
                assert(length(s[i]) <= length(s[s.len() - 1]));
            } else if j < s.len() {
                assert(r[i] == s[i] && r[j] == s[j]);
            }
        }
    } else {
        let d = s.drop_last();
        assert forall|i: int, j: int| 0 <= i <= j < d.len() implies length(#[trigger] d[i])
            <= length(#[trigger] d[j]) by {
            assert(d[i] == s[i] && d[j] == s[j]);
        }
        lemma_put(d, c);
        let q = put_by_length(d, c);
        assert forall|i: int| 0 <= i <= s.len() implies (#[trigger] r[i]) == c || s.contains(
            r[i],
        ) by {
            if i < s.len() {
                assert(r[i] == q[i]);
                if q[i] != c {
                    let k = choose|k: int| 0 <= k < d.len() && d[k] == q[i];
                    assert(s[k] == q[i]);
                }
            } else {
                assert(s[s.len() - 1] == r[i]);
            }
        }
        assert forall|i: int, j: int| 0 <= i <= j <= s.len() implies length(#[trigger] r[i])
            <= length(#[trigger] r[j]) by {
            if j < s.len() {
                assert(r[i] == q[i] && r[j] == q[j]);
            } else if i < s.len() {
                assert(r[i] == q[i]);
                if q[i] != c {
                    let k = choose|k: int| 0 <= k < d.len() && d[k] == q[i];
                    assert(s[k] == q[i]);
                    assert(length(s[k]) <= length(s[s.len() - 1]));
                }
            }
        }
    }
}

/// A candidate as it stands in the line: what is typed, and what the candidate has
/// beyond what was looked for.
pub open spec fn in_line(c: Seq<char>, typed: Seq<char>, looked_for: Seq<char>) -> Seq<char> {
    if text::has_prefix(c, looked_for) {
        typed + c.skip(looked_for.len() as int)
    } else {
        typed
    }
}

fn put_in_line(c: &str, typed: &str, looked_for: &str) -> (r: String)
    ensures
        r@ == in_line(c@, typed@, looked_for@),
{
    let cv = chars_of(c);
    let lv = chars_of(looked_for);
    let mut s = owned(typed);
    if chars_start_with(cv.as_slice(), lv.as_slice()) {
        let rest = sub_chars(cv.as_slice(), lv.len(), cv.len());
        assert(rest@ =~= c@.skip(looked_for@.len() as int));
        push_chars(&mut s, rest.as_slice());
    }
    s
}

/// Candidates without anything told of them.
pub open spec fn plain(c: Candidate, t: Seq<char>) -> bool {
    c.content@ == t && c.desc is None && c.id is None && c.weight == 0
}

impl BashCompSpec {
    /// A specification that completes nothing.
    pub open spec fn blank(self) -> bool {
        &&& self.function is None
        &&& self.wordlist is None
        &&& !self.files && !self.dirs && !self.commands && !self.users
        &&& !self.vars && !self.signals && !self.jobs && !self.aliases
        &&& self.flags == (CompOptFlags { space: false, dirnames: false, default: false })
        &&& self.source@.len() == 0
    }

    pub fn new() -> (r: Self)
        ensures
            r.blank(),
    {
        BashCompSpec {
            function: None,
            wordlist: None,
            files: false,
            dirs: false,
            commands: false,
            users: false,
            vars: false,
            signals: false,
            jobs: false,
            aliases: false,
            flags: CompOptFlags::empty(),
            source: String::new(),
        }
    }

    pub fn with_func(self, func: String) -> (r: Self)
        ensures
            r == (BashCompSpec { function: Some(func), ..self }),
    {
        BashCompSpec { function: Some(func), ..self }
    }

    pub fn with_wordlist(self, wordlist: Vec<String>) -> (r: Self)
        ensures
            r == (BashCompSpec { wordlist: Some(wordlist), ..self }),
    {
        BashCompSpec { wordlist: Some(wordlist), ..self }
    }

    pub fn with_source(self, source: String) -> (r: Self)
        ensures
            r == (BashCompSpec { source, ..self }),
    {
        BashCompSpec { source, ..self }
    }

    pub fn files(self, enable: bool) -> (r: Self)
        ensures
            r == (BashCompSpec { files: enable, ..self }),
    {
        BashCompSpec { files: enable, ..self }
    }

    pub fn dirs(self, enable: bool) -> (r: Self)
        ensures
            r == (BashCompSpec { dirs: enable, ..self }),
    {
        BashCompSpec { dirs: enable, ..self }
    }

    pub fn commands(self, enable: bool) -> (r: Self)
        ensures
            r == (BashCompSpec { commands: enable, ..self }),
    {
        BashCompSpec { commands: enable, ..self }
    }

    pub fn users(self, enable: bool) -> (r: Self)
        ensures
            r == (BashCompSpec { users: enable, ..self }),
    {
        BashCompSpec { users: enable, ..self }
    }

    pub fn vars(self, enable: bool) -> (r: Self)
        ensures
            r == (BashCompSpec { vars: enable, ..self }),
    {
        BashCompSpec { vars: enable, ..self }
    }

    pub fn signals(self, enable: bool) -> (r: Self)
        ensures
            r == (BashCompSpec { signals: enable, ..self }),
    {
        BashCompSpec { signals: enable, ..self }
    }

    pub fn jobs(self, enable: bool) -> (r: Self)
        ensures
            r == (BashCompSpec { jobs: enable, ..self }),
    {
        BashCompSpec { jobs: enable, ..self }
    }

    pub fn aliases(self, enable: bool) -> (r: Self)
        ensures
            r == (BashCompSpec { aliases: enable, ..self }),
    {
        BashCompSpec { aliases: enable, ..self }
    }

    /// The specification that options ask for.
    pub fn from_comp_opts(opts: CompOpts) -> (r: Self)
        ensures
            r.source@.len() == 0,
            r == (BashCompSpec {
                function: opts.func,
                wordlist: opts.wordlist,
                files: opts.flags.files,
                dirs: opts.flags.dirs,
                commands: opts.flags.cmds,
                users: opts.flags.users,
                vars: opts.flags.vars,
                signals: false,
                jobs: opts.flags.jobs,
                aliases: opts.flags.alias,
                flags: opts.opt_flags,
                source: r.source,
            }),
    {
        BashCompSpec {
            function: opts.func,
            wordlist: opts.wordlist,
            files: opts.flags.files,
            dirs: opts.flags.dirs,
            commands: opts.flags.cmds,
            users: opts.flags.users,
            vars: opts.flags.vars,
            signals: false,
            jobs: opts.flags.jobs,
            aliases: opts.flags.alias,
            flags: opts.opt_flags,
            source: String::new(),
        }
    }

    /// The command line that calls a function for a command line: the function, the
    /// command, the word the cursor is on, and the word before it.
    pub open spec fn call_line(func: Seq<char>, ctx: CompContext) -> Seq<char> {
        func.push(' ') + word_or_empty(ctx.words@, 0).push(' ') + word_or_empty(
            ctx.words@,
            ctx.cword as int,
        ).push(' ') + word_or_empty(ctx.words@, ctx.cword - 1)
    }

    /// What the function is called with, if there is one.
    pub fn exec_comp_func(&self, ctx: &CompContext) -> (r: Option<CompCall>)
        ensures
            match self.function {
                None => r is None,
                Some(f) => {
                    &&& r is Some
                    &&& r->0.words@ == ctx.words@
                    &&& r->0.cword@ == text::decimal(ctx.cword as nat)
                    &&& r->0.line@ == ctx.line@
                    &&& r->0.point@ == text::decimal(ctx.cursor_pos as nat)
                    &&& r->0.input@ == BashCompSpec::call_line(f@, *ctx)
                },
            },
    {
        match &self.function {
            None => None,
            Some(f) => {
                let mut cmd = get_word(&ctx.words, 0);
                cmd.push(' ');
                let mut word = get_word(&ctx.words, ctx.cword);
                word.push(' ');
                let before = if ctx.cword > 0 {
                    get_word(&ctx.words, ctx.cword - 1)
                } else {
                    let none: String = String::new();
                    assert(none@ =~= Seq::empty());
                    none
                };
                let mut input = f.clone();
                input.push(' ');
                input.push_str(cmd.as_str());
                input.push_str(word.as_str());
                input.push_str(before.as_str());
                Some(
                    CompCall {
                        words: copy_words(&ctx.words),
                        cword: decimal_string(ctx.cword),
                        line: ctx.line.clone(),
                        point: decimal_string(ctx.cursor_pos),
                        input,
                    },
                )
            },
        }
    }

    /// The words of the list that match, up to `n`.
    pub open spec fn words_matching(words: Seq<String>, n: int, p: Seq<char>, ic: bool) -> Seq<
        Seq<char>,
    >
        decreases n,
    {
        if n <= 0 {
            Seq::empty()
        } else if candidate::matches_start(words[n - 1]@, p, ic) {
            BashCompSpec::words_matching(words, n - 1, p, ic).push(words[n - 1]@)
        } else {
            BashCompSpec::words_matching(words, n - 1, p, ic)
        }
    }

    /// What is found of the kinds that are asked for, in order.
    pub open spec fn gathered(self, f: FoundKinds) -> Seq<Candidate> {
        (if self.files {
            f.files@
        } else {
            Seq::empty()
        }) + (if self.dirs {
            f.dirs@
        } else {
            Seq::empty()
        }) + (if self.commands {
            f.commands@
        } else {
            Seq::empty()
        }) + (if self.vars {
            f.vars@
        } else {
            Seq::empty()
        }) + (if self.users {
            f.users@
        } else {
            Seq::empty()
        }) + (if self.jobs {
            f.jobs@
        } else {
            Seq::empty()
        }) + (if self.aliases {
            f.aliases@
        } else {
            Seq::empty()
        }) + (if self.signals {
            f.signals@
        } else {
            Seq::empty()
        })
    }

    /// The texts of all candidates, in order: of the kinds that are asked for, the
    /// words of the list that match, and what the function replied.
    pub open spec fn all_texts(self, f: FoundKinds, p: Seq<char>, reply: Seq<String>, ic: bool) -> Seq<
        Seq<char>,
    > {
        simple_contents(self.gathered(f)) + (match self.wordlist {
            Some(w) => BashCompSpec::words_matching(w@, w@.len() as int, p, ic),
            None => Seq::empty(),
        }) + (if self.function is Some {
            simple::texts(reply)
        } else {
            Seq::empty()
        })
    }

    fn gather(&self, f: FoundKinds) -> (r: Vec<Candidate>)
        ensures
            r@ == self.gathered(f),
    {
        let ghost f0 = f;
        let mut f = f;
        let mut out: Vec<Candidate> = Vec::new();
        assert(out@ =~= Seq::empty());
        if self.files {
            out.append(&mut f.files);
        }
        if self.dirs {
            out.append(&mut f.dirs);
        }
        if self.commands {
            out.append(&mut f.commands);
        }
        if self.vars {
            out.append(&mut f.vars);
        }
        if self.users {
            out.append(&mut f.users);
        }
        if self.jobs {
            out.append(&mut f.jobs);
        }
        if self.aliases {
            out.append(&mut f.aliases);
        }
        if self.signals {
            out.append(&mut f.signals);
        }
        assert(out@ =~= self.gathered(f0));
        out
    }

    /// Completes what is typed, the longest candidates first. `looked_for` is what is
    /// typed, without quotes and with what it stands for; `reply` is what the
    /// function replied.
    pub fn complete(
        &self,
        typed: &str,
        looked_for: &str,
        found: FoundKinds,
        reply: &Vec<String>,
        ignore_case: bool,
    ) -> (r: Vec<Candidate>)
        ensures
            ({
                let t = self.all_texts(found, looked_for@, reply@, ignore_case);
                exists|s: Seq<Candidate>|
                    #![trigger by_length(s)]
                    lined_up(s, t, typed@, looked_for@) && r@ == by_length(s).reverse()
            }),
    {
        let all = self.gather(found);
        let ghost kinds = simple_contents(self.gathered(found));
        let mut list: Vec<Candidate> = Vec::new();
        let mut i: usize = 0;
        while i < all.len()
            invariant
                i <= all@.len(),
                kinds == simple_contents(all@),
                lined_up(list@, kinds.take(i as int), typed@, looked_for@),
            decreases all@.len() - i,
        {
            let t = put_in_line(all[i].content.as_str(), typed, looked_for);
            list.push(Candidate::from_string(t));
            i = i + 1;
            assert(kinds.take(i as int) =~= kinds.take(i - 1).push(kinds[i - 1]));
        }
        assert(kinds.take(i as int) =~= kinds);
        let ghost mut done = kinds;
        if let Some(w) = &self.wordlist {
            push_words(
                &mut list,
                w,
                typed,
                looked_for,
                ignore_case,
                Ghost(kinds),
            );
            proof {
                done = kinds + BashCompSpec::words_matching(
                    w@,
                    w@.len() as int,
                    looked_for@,
                    ignore_case,
                );
            }
        } else {
            assert(kinds + Seq::<Seq<char>>::empty() =~= kinds);
        }
        if self.function.is_some() {
            push_reply(&mut list, reply, typed, looked_for, Ghost(done));
            proof {
                done = done + simple::texts(reply@);
            }
        } else {
            assert(done + Seq::<Seq<char>>::empty() =~= done);
        }
        assert(done == self.all_texts(found, looked_for@, reply@, ignore_case));
        let ghost s = list@;
        let sorted = sort_by_length(list);
        let r = reversed(sorted);
        assert(lined_up(s, done, typed@, looked_for@) && r@ == by_length(s).reverse());
        r
    }

    pub fn source(&self) -> (r: &str)
        ensures
            r@ == self.source@,
    {
        self.source.as_str()
    }

    pub fn get_flags(&self) -> (r: CompOptFlags)
        ensures
            r == self.flags,
    {
        self.flags
    }
}

/// The texts of candidates.
pub open spec fn simple_contents(s: Seq<Candidate>) -> Seq<Seq<char>> {
    Seq::new(s.len(), |i: int| s[i].content@)
}

/// Whether candidates are texts as they stand in the line.
pub open spec fn lined_up(
    s: Seq<Candidate>,
    t: Seq<Seq<char>>,
    typed: Seq<char>,
    looked_for: Seq<char>,
) -> bool {
    &&& s.len() == t.len()
    &&& forall|i: int|
        0 <= i < s.len() ==> plain(#[trigger] s[i], in_line(t[i], typed, looked_for))
}

fn push_words(
    list: &mut Vec<Candidate>,
    words: &Vec<String>,
    typed: &str,
    looked_for: &str,
    ignore_case: bool,
    Ghost(t): Ghost<Seq<Seq<char>>>,
)
    requires
        lined_up(old(list)@, t, typed@, looked_for@),
    ensures
        lined_up(
            final(list)@,
            t + BashCompSpec::words_matching(
                words@,
                words@.len() as int,
                looked_for@,
                ignore_case,
            ),
            typed@,
            looked_for@,
        ),
{
    let mut i: usize = 0;
    assert(t + BashCompSpec::words_matching(words@, 0, looked_for@, ignore_case) =~= t);
    while i < words.len()
        invariant
            i <= words@.len(),
            lined_up(
                list@,
                t + BashCompSpec::words_matching(words@, i as int, looked_for@, ignore_case),
                typed@,
                looked_for@,
            ),
        decreases words@.len() - i,
    {
        let c = Candidate::from_string(words[i].clone());
        let ghost before = t + BashCompSpec::words_matching(
            words@,
            i as int,
            looked_for@,
            ignore_case,
        );
        if c.is_match(looked_for, ignore_case) {
            let s = put_in_line(c.content.as_str(), typed, looked_for);
            list.push(Candidate::from_string(s));
            assert(t + BashCompSpec::words_matching(words@, i + 1, looked_for@, ignore_case)
                =~= before.push(words@[i as int]@));
        }
        i = i + 1;
    }
}

fn push_reply(
    list: &mut Vec<Candidate>,
    reply: &Vec<String>,
    typed: &str,
    looked_for: &str,
    Ghost(t): Ghost<Seq<Seq<char>>>,
)
    requires
        lined_up(old(list)@, t, typed@, looked_for@),
    ensures
        lined_up(final(list)@, t + simple::texts(reply@), typed@, looked_for@),
{
    let mut i: usize = 0;
    assert(t + simple::texts(reply@).take(0) =~= t);
    while i < reply.len()
        invariant
            i <= reply@.len(),
            lined_up(
                list@,
                t + simple::texts(reply@).take(i as int),
                typed@,
                looked_for@,
            ),
        decreases reply@.len() - i,
    {
        let ghost before = t + simple::texts(reply@).take(i as int);
        let s = put_in_line(reply[i].as_str(), typed, looked_for);
        list.push(Candidate::from_string(s));
        i = i + 1;
        assert(t + simple::texts(reply@).take(i as int) =~= before.push(reply@[i - 1]@));
    }
    assert(simple::texts(reply@).take(i as int) =~= simple::texts(reply@));
}

fn sort_by_length(v: Vec<Candidate>) -> (r: Vec<Candidate>)
    ensures
        r@ == by_length(v@),
{
    let mut out: Vec<Candidate> = Vec::new();
    let mut i: usize = 0;
    assert(out@ =~= by_length(v@.take(0)));
    while i < v.len()
        invariant
            i <= v@.len(),
            out@ == by_length(v@.take(i as int)),
        decreases v@.len() - i,
    {
        insert_by_length(&mut out, v[i].clone());
        i = i + 1;
        assert(v@.take(i as int).drop_last() =~= v@.take(i - 1));
    }
    assert(v@.take(i as int) =~= v@);
    out
}

fn reversed(v: Vec<Candidate>) -> (r: Vec<Candidate>)
    ensures
        r@ == v@.reverse(),
{
    let mut out: Vec<Candidate> = Vec::new();
    let mut i: usize = v.len();
    while i > 0
        invariant
            i <= v@.len(),
            out@ == v@.reverse().take(v@.len() - i),
        decreases i,
    {
        i = i - 1;
        out.push(v[i].clone());
        assert(out@ =~= v@.reverse().take(v@.len() - i));
    }
    assert(out@ =~= v@.reverse());
    out
}

impl SimpleCompleter {
    /// What a specification gives for a command line: nothing where the line has no
    /// command, or the command has no specification.
    pub fn try_comp_spec(ctx: &CompContext, given: Option<(Vec<Candidate>, CompOptFlags)>) -> (r:
        CompSpecResult)
        ensures
            ctx.words@.len() == 0 || given is None ==> r is NoSpec,
            ctx.words@.len() > 0 && given is Some ==> match r {
                CompSpecResult::NoSpec => false,
                CompSpecResult::NoMatch { flags } => (given->0).0@.len() == 0 && flags
                    == (given->0).1,
                CompSpecResult::Match { result, flags } => (given->0).0@.len() > 0 && flags
                    == (given->0).1 && result.candidates() == (given->0).0@ && !(result is NoMatch)
                    && (result is Single <==> (given->0).0@.len() == 1),
            },
    {
        if ctx.cmd().is_none() {
            return CompSpecResult::NoSpec;
        }
        match given {
            None => CompSpecResult::NoSpec,
            Some((candidates, flags)) => comp_spec_result(candidates, flags),
        }
    }

    /// The result of a completion, where these candidates were found for what is to be
    /// completed. Behind a finished command a separator is the only candidate.
    pub fn get_candidates(what: &CompStrat, found: Vec<Candidate>) -> (r: CompResult)
        ensures
            what@ is Separator ==> r is Single && plain(r->result, ";"@),
            what@ is Null ==> r is NoMatch,
            !(what@ is Separator) && !(what@ is Null) ==> r.candidates() == found@ && (r is NoMatch
                <==> found@.len() == 0) && (r is Single <==> found@.len() == 1),
    {
        match what {
            CompStrat::Separator => CompResult::Single { result: Candidate::from_text(";") },
            CompStrat::Null => CompResult::NoMatch,
            _ => CompResult::from_candidates(found),
        }
    }
}

} // verus!
