//! Variables and parameters.

use crate::shellenv::logic;
use crate::text;
use crate::text::decimal_string;
use crate::text::owned;
use crate::text::parse_usize;
use std::collections::VecDeque;
use vstd::hash_map::StringHashMap;
use vstd::prelude::*;

verus! {

/// The variables of the shell: those that commands get, the special parameters,
/// the positional ones, and the shell's own.
pub struct VarTab {
    pub env: StringHashMap<String>,
    pub params: StringHashMap<String>,
    pub pos_params: VecDeque<String>,
    pub vars: StringHashMap<String>,
}

/// What the machine tells of itself and of who runs the shell.
pub struct HostFacts {
    /// The variables that the shell was started with.
    pub inherited: Vec<(String, String)>,
    pub on_tty: bool,
    /// The kind of terminal that the shell was started with.
    pub term: Option<String>,
    /// The home directory; empty where the user is not known.
    pub home: String,
    /// The name of the user, if known.
    pub username: Option<String>,
    /// The number of the user, in decimal; ignored where the user is not known.
    pub uid: String,
    pub hostname: String,
    /// The number of the parent process, in decimal.
    pub ppid: String,
    pub cwd: String,
    pub exe: String,
}

/// The texts with spaces between them.
pub open spec fn spaced(words: Seq<String>) -> Seq<char> {
    text::spaced(words, words.len() as int)
}

/// The texts of a table.
pub open spec fn texts(m: Map<Seq<char>, String>) -> Map<Seq<char>, Seq<char>> {
    logic::texts(m)
}

fn put_text(m: &mut StringHashMap<String>, k: &str, v: &str)
    ensures
        texts(final(m)@) == texts(old(m)@).insert(k@, v@),
{
    m.insert(owned(k), owned(v));
    assert(texts(m@) =~= texts(old(m)@).insert(k@, v@));
}

/// The first `n` inherited variables; a later one takes the place of an earlier
/// one.
pub open spec fn gathered(vars: Seq<(String, String)>, n: int) -> Map<Seq<char>, Seq<char>>
    decreases n,
{
    if n <= 0 {
        Map::empty()
    } else {
        gathered(vars, n - 1).insert(vars[n - 1].0@, vars[n - 1].1@)
    }
}

impl HostFacts {
    /// The kind of terminal.
    pub open spec fn terminal(self) -> Seq<char> {
        if !self.on_tty {
            "xterm-256color"@
        } else {
            match self.term {
                Some(t) => t@,
                None => "linux"@,
            }
        }
    }

    /// The name of the user.
    pub open spec fn user(self) -> Seq<char> {
        match self.username {
            Some(u) => u@,
            None => "unknown"@,
        }
    }

    /// The number of the user.
    pub open spec fn user_id(self) -> Seq<char> {
        match self.username {
            Some(_) => self.uid@,
            None => "0"@,
        }
    }

    /// The home directory.
    pub open spec fn home_dir(self) -> Seq<char> {
        match self.username {
            Some(_) => self.home@,
            None => Seq::empty(),
        }
    }

    /// The variables that commands get at first.
    pub open spec fn first_env(self) -> Map<Seq<char>, Seq<char>> {
        gathered(self.inherited@, self.inherited@.len() as int)
            .insert("IFS"@, " \t\n"@)
            .insert("HOSTNAME"@, self.hostname@)
            .insert("UID"@, self.user_id())
            .insert("PPID"@, self.ppid@)
            .insert("TMPDIR"@, "/tmp"@)
            .insert("TERM"@, self.terminal())
            .insert("LANG"@, "en_US.UTF-8"@)
            .insert("USER"@, self.user())
            .insert("LOGNAME"@, self.user())
            .insert("PWD"@, self.cwd@)
            .insert("OLDPWD"@, self.cwd@)
            .insert("HOME"@, self.home_dir())
            .insert("SHELL"@, self.exe@)
            .insert("FERN_HIST"@, self.home_dir() + "/.fern_hist"@)
    }
}

fn gather(vars: &Vec<(String, String)>) -> (r: StringHashMap<String>)
    ensures
        texts(r@) == gathered(vars@, vars@.len() as int),
{
    let mut m: StringHashMap<String> = StringHashMap::new();
    let mut i: usize = 0;
    assert(texts(m@) =~= Map::empty());
    while i < vars.len()
        invariant
            i <= vars@.len(),
            texts(m@) == gathered(vars@, i as int),
        decreases vars@.len() - i,
    {
        put_text(&mut m, vars[i].0.as_str(), vars[i].1.as_str());
        i = i + 1;
    }
    m
}

fn join_front(v: &VecDeque<String>) -> (r: String)
    ensures
        r@ == spaced(v@),
{
    let mut list: String = String::new();
    let mut i: usize = 0;
    assert(list@ =~= Seq::empty());
    while i < v.len()
        invariant
            i <= v@.len(),
            list@ == text::spaced(v@, i as int),
        decreases v@.len() - i,
    {
        if i > 0 {
            list.push(' ');
        }
        list.push_str(v[i].as_str());
        i = i + 1;
        assert(i == 1 ==> list@ =~= v@[0]@);
    }
    list
}

impl VarTab {
    /// The parameters for arguments: `@` and `#`.
    pub open spec fn counted(m: Map<Seq<char>, Seq<char>>, args: Seq<String>) -> Map<
        Seq<char>,
        Seq<char>,
    > {
        m.insert("@"@, spaced(args)).insert("#"@, text::decimal(args.len()))
    }

    /// The variables at the start, for these arguments and this machine.
    pub fn new(args: Vec<String>, facts: &HostFacts) -> (r: Self)
        ensures
            texts(r.env@) == facts.first_env(),
            texts(r.params@) == VarTab::counted(Map::empty(), args@),
            r.pos_params@ == args@,
            texts(r.vars@) == Map::<Seq<char>, Seq<char>>::empty(),
    {
        let (params, pos_params) = VarTab::init_params(args);
        let env = VarTab::init_env(facts);
        let vars: StringHashMap<String> = StringHashMap::new();
        assert(texts(vars@) =~= Map::empty());
        VarTab { env, params, pos_params, vars }
    }

    /// The parameters for the arguments of the shell.
    pub fn init_params(args: Vec<String>) -> (r: (StringHashMap<String>, VecDeque<String>))
        ensures
            texts((r.0)@) == VarTab::counted(Map::empty(), args@),
            (r.1)@ == args@,
    {
        let mut args = args;
        let ghost all = args@;
        let n: usize = args.len();
        let mut pos: VecDeque<String> = VecDeque::new();
        assert(all.skip(n as int) =~= Seq::empty());
        let mut k: usize = n;
        while k > 0
            invariant
                k <= n,
                n == all.len(),
                args@ == all.take(k as int),
                pos@ == all.skip(k as int),
            decreases k,
        {
            match args.pop() {
                Some(a) => {
                    pos.push_front(a);
                },
                None => {},
            }
            k = k - 1;
            assert(args@ =~= all.take(k as int));
            assert(pos@ =~= all.skip(k as int));
        }
        assert(pos@ =~= all);
        let mut params: StringHashMap<String> = StringHashMap::new();
        assert(texts(params@) =~= Map::empty());
        let list = join_front(&pos);
        put_text(&mut params, "@", list.as_str());
        let count = decimal_string(n);
        put_text(&mut params, "#", count.as_str());
        (params, pos)
    }

    /// The variables that commands get at first: those that the shell was started
    /// with, and what the machine tells.
    pub fn init_env(facts: &HostFacts) -> (r: StringHashMap<String>)
        ensures
            texts(r@) == facts.first_env(),
    {
        let mut m = gather(&facts.inherited);
        let term = if !facts.on_tty {
            owned("xterm-256color")
        } else {
            match &facts.term {
                Some(t) => t.clone(),
                None => owned("linux"),
            }
        };
        let none: String = String::new();
        assert(none@ =~= Seq::empty());
        let (user, uid, home) = match &facts.username {
            Some(u) => (u.clone(), facts.uid.clone(), facts.home.clone()),
            None => (owned("unknown"), owned("0"), none),
        };
        let mut hist = home.clone();
        hist.push_str("/.fern_hist");
        put_text(&mut m, "IFS", " \t\n");
        put_text(&mut m, "HOSTNAME", facts.hostname.as_str());
        put_text(&mut m, "UID", uid.as_str());
        put_text(&mut m, "PPID", facts.ppid.as_str());
        put_text(&mut m, "TMPDIR", "/tmp");
        put_text(&mut m, "TERM", term.as_str());
        put_text(&mut m, "LANG", "en_US.UTF-8");
        put_text(&mut m, "USER", user.as_str());
        put_text(&mut m, "LOGNAME", user.as_str());
        put_text(&mut m, "PWD", facts.cwd.as_str());
        put_text(&mut m, "OLDPWD", facts.cwd.as_str());
        put_text(&mut m, "HOME", home.as_str());
        put_text(&mut m, "SHELL", facts.exe.as_str());
        put_text(&mut m, "FERN_HIST", hist.as_str());
        m
    }

    pub fn env(&self) -> (r: &StringHashMap<String>)
        ensures
            *r == self.env,
    {
        &self.env
    }

    pub fn env_mut(&mut self) -> (r: &mut StringHashMap<String>)
        ensures
            *r == old(self).env,
            *final(self) == (VarTab { env: *final(r), ..*old(self) }),
    {
        &mut self.env
    }

    pub fn reset_params(&mut self)
        ensures
            texts(final(self).params@) == Map::<Seq<char>, Seq<char>>::empty(),
            *final(self) == (VarTab { params: final(self).params, ..*old(self) }),
    {
        self.params.clear();
        assert(texts(self.params@) =~= Map::empty());
    }

    pub fn unset_param(&mut self, key: &str)
        ensures
            texts(final(self).params@) == texts(old(self).params@).remove(key@),
            *final(self) == (VarTab { params: final(self).params, ..*old(self) }),
    {
        self.params.remove(key);
        assert(texts(self.params@) =~= texts(old(self).params@).remove(key@));
    }

    pub fn set_param(&mut self, key: &str, val: &str)
        ensures
            texts(final(self).params@) == texts(old(self).params@).insert(key@, val@),
            *final(self) == (VarTab { params: final(self).params, ..*old(self) }),
    {
        put_text(&mut self.params, key, val);
    }

    /// A parameter; empty where it is not set.
    pub fn get_param(&self, key: &str) -> (r: &str)
        ensures
            r@ == found(texts(self.params@), key@),
    {
        match self.params.get(key) {
            Some(s) => s.as_str(),
            None => {
                let e: &str = "";
                proof {
                    reveal_strlit("");
                }
                assert(e@ =~= Seq::empty());
                e
            },
        }
    }

    /// Counts the arguments anew.
    fn recount(&mut self)
        ensures
            texts(final(self).params@) == VarTab::counted(
                texts(old(self).params@),
                old(self).pos_params@,
            ),
            *final(self) == (VarTab { params: final(self).params, ..*old(self) }),
    {
        let list = join_front(&self.pos_params);
        self.set_param("@", list.as_str());
        let count = decimal_string(self.pos_params.len());
        self.set_param("#", count.as_str());
    }

    /// Whether the arguments became these, and the parameters follow them.
    pub open spec fn argued(a: VarTab, b: VarTab, args: Seq<String>) -> bool {
        &&& b.pos_params@ == args
        &&& texts(b.params@) == VarTab::counted(texts(a.params@), args)
        &&& b == (VarTab { pos_params: b.pos_params, params: b.params, ..a })
    }

    /// Puts an argument behind the others.
    pub fn bpush_arg(&mut self, arg: &str)
        ensures
            exists|s: String|
                s@ == arg@ && #[trigger] VarTab::argued(
                    *old(self),
                    *final(self),
                    old(self).pos_params@.push(s),
                ),
    {
        let s = owned(arg);
        self.pos_params.push_back(s);
        self.recount();
        assert(VarTab::argued(*old(self), *self, old(self).pos_params@.push(s)));
    }

    /// Takes the last argument.
    pub fn bpop_arg(&mut self) -> (r: Option<String>)
        ensures
            match r {
                Some(s) => old(self).pos_params@.len() > 0 && s == old(self).pos_params@.last()
                    && VarTab::argued(
                    *old(self),
                    *final(self),
                    old(self).pos_params@.drop_last(),
                ),
                None => old(self).pos_params@.len() == 0 && VarTab::argued(
                    *old(self),
                    *final(self),
                    old(self).pos_params@,
                ),
            },
    {
        let r = self.pos_params.pop_back();
        self.recount();
        proof {
            if r is Some {
                assert(self.pos_params@ =~= old(self).pos_params@.drop_last());
            } else {
                assert(self.pos_params@ =~= old(self).pos_params@);
            }
        }
        r
    }

    /// Puts an argument in front of the others.
    pub fn fpush_arg(&mut self, arg: &str)
        ensures
            exists|s: String|
                s@ == arg@ && #[trigger] VarTab::argued(
                    *old(self),
                    *final(self),
                    seq![s] + old(self).pos_params@,
                ),
    {
        let s = owned(arg);
        self.pos_params.push_front(s);
        self.recount();
        assert(self.pos_params@ =~= seq![s] + old(self).pos_params@);
        assert(VarTab::argued(*old(self), *self, seq![s] + old(self).pos_params@));
    }

    /// Takes the first argument.
    pub fn fpop_arg(&mut self) -> (r: Option<String>)
        ensures
            match r {
                Some(s) => old(self).pos_params@.len() > 0 && s == old(self).pos_params@.first()
                    && VarTab::argued(
                    *old(self),
                    *final(self),
                    old(self).pos_params@.drop_first(),
                ),
                None => old(self).pos_params@.len() == 0 && VarTab::argued(
                    *old(self),
                    *final(self),
                    old(self).pos_params@,
                ),
            },
    {
        let r = self.pos_params.pop_front();
        self.recount();
        proof {
            if r is Some {
                assert(self.pos_params@ =~= old(self).pos_params@.drop_first());
            } else {
                assert(self.pos_params@ =~= old(self).pos_params@);
            }
        }
        r
    }

    /// What a name stands for: an argument by its number, then what commands get,
    /// then a parameter, then a variable; nothing where it is none of them.
    pub open spec fn lookup(self, name: Seq<char>) -> Seq<char> {
        match text::parsed_usize(name) {
            Some(i) => if i < self.pos_params@.len() {
                self.pos_params@[i as int]@
            } else {
                Seq::empty()
            },
            None => if texts(self.env@).contains_key(name) {
                texts(self.env@)[name]
            } else if texts(self.params@).contains_key(name) {
                texts(self.params@)[name]
            } else {
                found(texts(self.vars@), name)
            },
        }
    }

    pub fn get_var(&self, var: &str) -> (r: &str)
        ensures
            r@ == self.lookup(var@),
    {
        let e: &str = "";
        proof {
            reveal_strlit("");
        }
        assert(e@ =~= Seq::empty());
        if let Some(i) = parse_usize(var) {
            if i < self.pos_params.len() {
                self.pos_params[i].as_str()
            } else {
                e
            }
        } else if let Some(s) = self.env.get(var) {
            s.as_str()
        } else if let Some(s) = self.params.get(var) {
            s.as_str()
        } else if let Some(s) = self.vars.get(var) {
            s.as_str()
        } else {
            e
        }
    }

    pub fn set_var(&mut self, var: &str, val: &str)
        ensures
            texts(final(self).vars@) == texts(old(self).vars@).insert(var@, val@),
            *final(self) == (VarTab { vars: final(self).vars, ..*old(self) }),
    {
        put_text(&mut self.vars, var, val);
    }

    /// Sets a variable that commands get.
    pub fn export(&mut self, var: &str, val: &str)
        ensures
            texts(final(self).env@) == texts(old(self).env@).insert(var@, val@),
            *final(self) == (VarTab { env: final(self).env, ..*old(self) }),
    {
        put_text(&mut self.env, var, val);
    }
}

/// An entry of a table; empty where there is none.
pub open spec fn found(m: Map<Seq<char>, Seq<char>>, k: Seq<char>) -> Seq<char> {
    if m.contains_key(k) {
        m[k]
    } else {
        Seq::empty()
    }
}

/// A variable that was set is found again, unless its name is a number or stands
/// for something that comes first.
pub proof fn set_variables_are_found(a: VarTab, b: VarTab, var: Seq<char>, val: Seq<char>)
    requires
        texts(b.vars@) == texts(a.vars@).insert(var, val),
        b == (VarTab { vars: b.vars, ..a }),
        text::parsed_usize(var) is None,
        !texts(a.env@).contains_key(var),
        !texts(a.params@).contains_key(var),
    ensures
        b.lookup(var) == val,
{
}

/// A variable that was exported is found again, unless its name is a number, and
/// other names stand for what they stood for.
pub proof fn exported_variables_are_found(
    a: VarTab,
    b: VarTab,
    var: Seq<char>,
    val: Seq<char>,
    other: Seq<char>,
)
    requires
        texts(b.env@) == texts(a.env@).insert(var, val),
        b == (VarTab { env: b.env, ..a }),
        text::parsed_usize(var) is None,
        other != var,
    ensures
        b.lookup(var) == val,
        b.lookup(other) == a.lookup(other),
{
}

} // verus!
