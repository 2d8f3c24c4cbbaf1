//! The shell's environment as a whole.

use crate::history;
use crate::history::parse_i32;
use crate::shellenv::exec_ctx::ExecCtx;
use crate::shellenv::exec_ctx::ExecFlags;
use crate::shellenv::exec_ctx::IoMasks;
use crate::shellenv::exec_ctx::Redir;
use crate::shellenv::exec_ctx::SavedIo;
use crate::shellenv::logic::LogTab;
use crate::shellenv::meta::MetaTab;
use crate::shellenv::vars;
use crate::shellenv::vars::HostFacts;
use crate::shellenv::vars::VarTab;
use crate::text;
use crate::text::decimal_reads_back;
use crate::text::decimal_string;
use vstd::prelude::*;

verus! {

/// The shell's environment.
pub struct ShEnv {
    pub vars: VarTab,
    pub logic: LogTab,
    pub meta: MetaTab,
    pub ctx: ExecCtx,
}

/// Something to do with file descriptors.
#[derive(Debug, Clone, Copy, PartialEq, Eq, Structural)]
pub enum IoStep {
    /// Makes the second descriptor refer to what the first one does.
    Dup2(i32, i32),
    Close(i32),
}

/// What is done to put the descriptors back, in order.
pub open spec fn steps_back(saved: SavedIo) -> Seq<IoStep> {
    seq![
        IoStep::Dup2(0, saved.stdin),
        IoStep::Close(saved.stdin),
        IoStep::Dup2(1, saved.stdout),
        IoStep::Close(saved.stdout),
        IoStep::Dup2(2, saved.stderr),
        IoStep::Close(saved.stderr),
    ]
}

/// A number with its sign, in decimal.
pub open spec fn code_text(code: i32) -> Seq<char> {
    if code < 0 {
        seq!['-'] + text::decimal((-code) as nat)
    } else {
        text::decimal(code as nat)
    }
}

fn show_code(code: i32) -> (r: String)
    ensures
        r@ == code_text(code),
{
    if code >= 0 {
        return decimal_string(code as usize);
    }
    let mut s: String = String::new();
    s.push('-');
    let n: i64 = -(code as i64);
    let d = decimal_string(n as usize);
    s.push_str(d.as_str());
    assert(s@ =~= code_text(code));
    s
}

impl ShEnv {
    pub fn new(args: Vec<String>, facts: &HostFacts, now: u64, path_cmds: Vec<String>) -> (r: Self)
        ensures
            vars::texts(r.vars.env@) == facts.first_env(),
            vars::texts(r.vars.params@) == VarTab::counted(Map::empty(), args@),
            r.vars.pos_params@ == args@,
            vars::texts(r.vars.vars@) == Map::<Seq<char>, Seq<char>>::empty(),
            vars::texts(r.logic.aliases@) == Map::<Seq<char>, Seq<char>>::empty(),
            vars::texts(r.logic.functions@) == Map::<Seq<char>, Seq<char>>::empty(),
            r.meta == (MetaTab { timer_start: now, last_runtime: None, path_cmds }),
            r.ctx.redirs@.len() == 0,
            r.ctx == (ExecCtx {
                redirs: r.ctx.redirs,
                depth: 0,
                max_depth: 1500,
                flags: ExecFlags { no_fork: false, in_func: false },
                io_masks: IoMasks::plain(),
                saved_io: None,
            }),
    {
        ShEnv {
            vars: VarTab::new(args, facts),
            logic: LogTab::new(),
            meta: MetaTab::new(now, path_cmds),
            ctx: ExecCtx::new(),
        }
    }

    pub fn vars(&self) -> (r: &VarTab)
        ensures
            *r == self.vars,
    {
        &self.vars
    }

    pub fn vars_mut(&mut self) -> (r: &mut VarTab)
        ensures
            *r == old(self).vars,
            *final(self) == (ShEnv { vars: *final(r), ..*old(self) }),
    {
        &mut self.vars
    }

    pub fn meta(&self) -> (r: &MetaTab)
        ensures
            *r == self.meta,
    {
        &self.meta
    }

    pub fn meta_mut(&mut self) -> (r: &mut MetaTab)
        ensures
            *r == old(self).meta,
            *final(self) == (ShEnv { meta: *final(r), ..*old(self) }),
    {
        &mut self.meta
    }

    pub fn logic(&self) -> (r: &LogTab)
        ensures
            *r == self.logic,
    {
        &self.logic
    }

    pub fn logic_mut(&mut self) -> (r: &mut LogTab)
        ensures
            *r == old(self).logic,
            *final(self) == (ShEnv { logic: *final(r), ..*old(self) }),
    {
        &mut self.logic
    }

    /// The descriptors to make copies of before they are put aside.
    pub fn io_to_save(&self) -> (r: SavedIo)
        ensures
            r.stdin == self.ctx.io_masks.stdin.fd(),
            r.stdout == self.ctx.io_masks.stdout.fd(),
            r.stderr == self.ctx.io_masks.stderr.fd(),
    {
        let m = self.ctx.masks();
        SavedIo::save(m.stdin().get_fd(), m.stdout().get_fd(), m.stderr().get_fd())
    }

    /// Puts copies of the descriptors aside.
    pub fn save_io(&mut self, copies: SavedIo)
        ensures
            *final(self) == (ShEnv {
                ctx: ExecCtx { saved_io: Some(copies), ..old(self).ctx },
                ..*old(self)
            }),
    {
        self.ctx.saved_io = Some(copies);
    }

    /// What to do to put the descriptors back, if they were put aside.
    pub fn reset_io(&mut self) -> (r: Vec<IoStep>)
        ensures
            r@ == match old(self).ctx.saved_io {
                Some(s) => steps_back(s),
                None => Seq::empty(),
            },
            *final(self) == (ShEnv {
                ctx: ExecCtx { saved_io: None, ..old(self).ctx },
                ..*old(self)
            }),
    {
        let mut r: Vec<IoStep> = Vec::new();
        if let Some(s) = self.ctx.saved_io {
            r.push(IoStep::Dup2(0, s.stdin));
            r.push(IoStep::Close(s.stdin));
            r.push(IoStep::Dup2(1, s.stdout));
            r.push(IoStep::Close(s.stdout));
            r.push(IoStep::Dup2(2, s.stderr));
            r.push(IoStep::Close(s.stderr));
            assert(r@ =~= steps_back(s));
        }
        self.ctx.saved_io = None;
        r
    }

    /// Takes redirections over, the last one first.
    pub fn collect_redirs(&mut self, redirs: Vec<Redir>)
        ensures
            final(self).ctx.redirs@ == old(self).ctx.redirs@ + redirs@.reverse(),
            *final(self) == (ShEnv {
                ctx: ExecCtx { redirs: final(self).ctx.redirs, ..old(self).ctx },
                ..*old(self)
            }),
    {
        let mut redirs = redirs;
        let ghost all = redirs@;
        let mut k: usize = redirs.len();
        assert(self.ctx.redirs@ =~= old(self).ctx.redirs@ + all.skip(k as int).reverse());
        while k > 0
            invariant
                k <= all.len(),
                redirs@ == all.take(k as int),
                self.ctx.redirs@ == old(self).ctx.redirs@ + all.skip(k as int).reverse(),
                *self == (ShEnv {
                    ctx: ExecCtx { redirs: self.ctx.redirs, ..old(self).ctx },
                    ..*old(self)
                }),
            decreases k,
        {
            if let Some(r) = redirs.pop() {
                self.ctx.push_rdr(r);
            }
            k = k - 1;
            assert(redirs@ =~= all.take(k as int));
            assert(self.ctx.redirs@ =~= old(self).ctx.redirs@ + all.skip(k as int).reverse());
        }
        assert(all.skip(0) =~= all);
    }

    /// Keeps the status code of the last command.
    pub fn set_code(&mut self, code: i32)
        ensures
            vars::texts(final(self).vars.params@) == vars::texts(old(self).vars.params@).insert(
                "?"@,
                code_text(code),
            ),
            *final(self) == (ShEnv {
                vars: VarTab { params: final(self).vars.params, ..old(self).vars },
                ..*old(self)
            }),
    {
        let s = show_code(code);
        self.vars.set_param("?", s.as_str());
    }

    /// The status code that is kept.
    pub open spec fn code(self) -> i32 {
        match history::signed_number(vars::found(vars::texts(self.vars.params@), "?"@)) {
            Some(n) => n,
            None => 0,
        }
    }

    /// The status code of the last command.
    pub fn get_code(&self) -> (r: i32)
        ensures
            r == self.code(),
    {
        match parse_i32(self.vars.get_param("?")) {
            Some(n) => n,
            None => 0,
        }
    }

    pub fn ctx(&self) -> (r: &ExecCtx)
        ensures
            *r == self.ctx,
    {
        &self.ctx
    }

    pub fn ctx_mut(&mut self) -> (r: &mut ExecCtx)
        ensures
            *r == old(self).ctx,
            *final(self) == (ShEnv { ctx: *final(r), ..*old(self) }),
    {
        &mut self.ctx
    }
}

/// A status code that was kept is given back.
pub proof fn codes_come_back(e: ShEnv, code: i32)
    requires
        vars::found(vars::texts(e.vars.params@), "?"@) == code_text(code),
    ensures
        e.code() == code,
{
    if code < 0 {
        let d = text::decimal((-code) as nat);
        decimal_reads_back((-code) as nat);
        let s = seq!['-'] + d;
        assert(s.skip(1) =~= d);
    } else {
        decimal_reads_back(code as nat);
        let d = text::decimal(code as nat);
        assert(crate::unicode::ascii_digit(d[0]));
    }
}

} // verus!
