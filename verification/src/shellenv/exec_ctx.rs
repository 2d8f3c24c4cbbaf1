//! What a command is run with: its redirections and file descriptors.

use vstd::prelude::*;

verus! {

/// The ways to redirect.
#[derive(Debug, Clone, Copy, PartialEq, Eq, Structural)]
pub enum RedirType {
    Input,
    HereString,
    HereDoc,
    Output,
    Append,
}

/// A redirection: how it redirects, and which one of the command's it is.
#[derive(Debug, Clone, Copy, PartialEq, Eq, Structural)]
pub struct Redir {
    pub op: RedirType,
    pub id: usize,
}

impl Redir {
    /// Whether it feeds what is read.
    pub open spec fn reads(self) -> bool {
        self.op is Input || self.op is HereString || self.op is HereDoc
    }
}

/// How a command is run.
#[derive(Debug, Clone, Copy, PartialEq, Eq, Structural)]
pub struct ExecFlags {
    pub no_fork: bool,
    pub in_func: bool,
}

impl ExecFlags {
    /// No flag.
    pub fn empty() -> (r: Self)
        ensures
            r == (ExecFlags { no_fork: false, in_func: false }),
    {
        ExecFlags { no_fork: false, in_func: false }
    }

    /// The flags of both.
    pub open spec fn with(self, other: ExecFlags) -> ExecFlags {
        ExecFlags {
            no_fork: self.no_fork || other.no_fork,
            in_func: self.in_func || other.in_func,
        }
    }

    /// The flags without those of the other.
    pub open spec fn without(self, other: ExecFlags) -> ExecFlags {
        ExecFlags {
            no_fork: self.no_fork && !other.no_fork,
            in_func: self.in_func && !other.in_func,
        }
    }
}

/// File descriptors that were put aside.
#[derive(Debug, Clone, Copy, PartialEq, Eq, Structural)]
pub struct SavedIo {
    pub stdin: i32,
    pub stdout: i32,
    pub stderr: i32,
}

impl SavedIo {
    pub fn save(stdin: i32, stdout: i32, stderr: i32) -> (r: Self)
        ensures
            r == (SavedIo { stdin, stdout, stderr }),
    {
        SavedIo { stdin, stdout, stderr }
    }
}

/// A file descriptor that another one may stand in for.
#[derive(Debug, Clone, Copy, PartialEq, Eq, Structural)]
pub struct IoMask {
    pub default: i32,
    pub mask: Option<i32>,
}

impl IoMask {
    /// The descriptor in use.
    pub open spec fn fd(self) -> i32 {
        match self.mask {
            Some(fd) => fd,
            None => self.default,
        }
    }

    pub fn new(default: i32) -> (r: Self)
        ensures
            r == (IoMask { default, mask: None }),
    {
        IoMask { default, mask: None }
    }

    /// Lets another descriptor stand in.
    pub fn new_mask(&mut self, mask: i32)
        ensures
            *final(self) == (IoMask { mask: Some(mask), ..*old(self) }),
    {
        self.mask = Some(mask);
    }

    /// Goes back to the descriptor itself.
    pub fn unmask(&mut self)
        ensures
            *final(self) == (IoMask { mask: None, ..*old(self) }),
    {
        self.mask = None;
    }

    /// The descriptor in use.
    pub fn get_fd(&self) -> (r: i32)
        ensures
            r == self.fd(),
    {
        match self.mask {
            Some(fd) => fd,
            None => self.default,
        }
    }

    /// A mask that is taken off again leaves the descriptor that was there.
    pub proof fn unmasking_undoes(a: IoMask, mask: i32)
        ensures
            (IoMask { mask: Some(mask), ..a }).fd() == mask,
            (IoMask { mask: None, ..(IoMask { mask: Some(mask), ..a }) }).fd() == a.default,
    {
    }
}

/// The three standard descriptors, each of which `exec` may redirect for good.
#[derive(Debug, Clone, Copy, PartialEq, Eq, Structural)]
pub struct IoMasks {
    pub stdin: IoMask,
    pub stdout: IoMask,
    pub stderr: IoMask,
}

impl IoMasks {
    /// No descriptor redirected.
    pub open spec fn plain() -> IoMasks {
        IoMasks {
            stdin: IoMask { default: 0, mask: None },
            stdout: IoMask { default: 1, mask: None },
            stderr: IoMask { default: 2, mask: None },
        }
    }

    pub fn new() -> (r: Self)
        ensures
            r == IoMasks::plain(),
    {
        IoMasks { stdin: IoMask::new(0), stdout: IoMask::new(1), stderr: IoMask::new(2) }
    }

    pub fn stdin(&self) -> (r: &IoMask)
        ensures
            *r == self.stdin,
    {
        &self.stdin
    }

    pub fn stdout(&self) -> (r: &IoMask)
        ensures
            *r == self.stdout,
    {
        &self.stdout
    }

    pub fn stderr(&self) -> (r: &IoMask)
        ensures
            *r == self.stderr,
    {
        &self.stderr
    }
}

/// What a command is run with.
#[derive(Debug)]
pub struct ExecCtx {
    pub redirs: Vec<Redir>,
    pub depth: usize,
    pub max_depth: usize,
    pub flags: ExecFlags,
    pub io_masks: IoMasks,
    pub saved_io: Option<SavedIo>,
}

/// The redirections that feed what is read, or the others, in order.
pub open spec fn picked(redirs: Seq<Redir>, reading: bool) -> Seq<Redir> {
    redirs.filter(|r: Redir| r.reads() == reading)
}

impl Clone for ExecCtx {
    fn clone(&self) -> (r: Self)
        ensures
            r.redirs@ == self.redirs@,
            r == (ExecCtx { redirs: r.redirs, ..*self }),
    {
        let redirs = copied(&self.redirs);
        ExecCtx {
            redirs,
            depth: self.depth,
            max_depth: self.max_depth,
            flags: self.flags,
            io_masks: self.io_masks,
            saved_io: self.saved_io,
        }
    }
}

fn copied(redirs: &Vec<Redir>) -> (r: Vec<Redir>)
    ensures
        r@ == redirs@,
{
    let mut out: Vec<Redir> = Vec::new();
    let mut i: usize = 0;
    while i < redirs.len()
        invariant
            i <= redirs@.len(),
            out@ == redirs@.take(i as int),
        decreases redirs@.len() - i,
    {
        out.push(redirs[i]);
        i = i + 1;
        assert(out@ =~= redirs@.take(i as int));
    }
    assert(out@ =~= redirs@);
    out
}

impl ExecCtx {
    pub fn new() -> (r: Self)
        ensures
            r.redirs@.len() == 0,
            r == (ExecCtx {
                redirs: r.redirs,
                depth: 0,
                max_depth: 1500,
                flags: ExecFlags { no_fork: false, in_func: false },
                io_masks: IoMasks::plain(),
                saved_io: None,
            }),
    {
        ExecCtx {
            redirs: Vec::new(),
            depth: 0,
            max_depth: 1500,
            flags: ExecFlags::empty(),
            io_masks: IoMasks::new(),
            saved_io: None,
        }
    }

    /// What the condition of a compound command is run with: only what feeds it.
    pub fn as_cond(&self) -> (r: Self)
        ensures
            r.redirs@ == picked(self.redirs@, true),
            r == (ExecCtx { redirs: r.redirs, ..*self }),
    {
        let mut c = self.clone();
        let (reading, _) = self.sort_redirs();
        c.redirs = reading;
        c
    }

    /// What the body of a compound command is run with: only where it goes.
    pub fn as_body(&self) -> (r: Self)
        ensures
            r.redirs@ == picked(self.redirs@, false),
            r == (ExecCtx { redirs: r.redirs, ..*self }),
    {
        let mut c = self.clone();
        let (_, writing) = self.sort_redirs();
        c.redirs = writing;
        c
    }

    pub fn redirs(&self) -> (r: &Vec<Redir>)
        ensures
            *r == self.redirs,
    {
        &self.redirs
    }

    pub fn clear_redirs(&mut self)
        ensures
            final(self).redirs@.len() == 0,
            *final(self) == (ExecCtx { redirs: final(self).redirs, ..*old(self) }),
    {
        self.redirs.clear();
    }

    /// The redirections that feed what is read, and the others.
    pub fn sort_redirs(&self) -> (r: (Vec<Redir>, Vec<Redir>))
        ensures
            r.0@ == picked(self.redirs@, true),
            r.1@ == picked(self.redirs@, false),
    {
        let mut reading: Vec<Redir> = Vec::new();
        let mut writing: Vec<Redir> = Vec::new();
        let mut i: usize = 0;
        proof {
            reveal(Seq::filter);
            assert(self.redirs@.take(0) =~= Seq::empty());
        }
        while i < self.redirs.len()
            invariant
                i <= self.redirs@.len(),
                reading@ == picked(self.redirs@.take(i as int), true),
                writing@ == picked(self.redirs@.take(i as int), false),
            decreases self.redirs@.len() - i,
        {
            let redir = self.redirs[i];
            proof {
                let t = self.redirs@.take(i + 1);
                reveal(Seq::filter);
                assert(t.drop_last() =~= self.redirs@.take(i as int));
                assert(t.last() == redir);
            }
            match redir.op {
                RedirType::Input | RedirType::HereString | RedirType::HereDoc => {
                    reading.push(redir);
                },
                RedirType::Output | RedirType::Append => {
                    writing.push(redir);
                },
            }
            i = i + 1;
        }
        assert(self.redirs@.take(i as int) =~= self.redirs@);
        (reading, writing)
    }

    pub fn masks(&self) -> (r: &IoMasks)
        ensures
            *r == self.io_masks,
    {
        &self.io_masks
    }

    pub fn push_rdr(&mut self, redir: Redir)
        ensures
            final(self).redirs@ == old(self).redirs@.push(redir),
            *final(self) == (ExecCtx { redirs: final(self).redirs, ..*old(self) }),
    {
        self.redirs.push(redir);
    }

    pub fn saved_io(&mut self) -> (r: &mut Option<SavedIo>)
        ensures
            *r == old(self).saved_io,
            *final(self) == (ExecCtx { saved_io: *final(r), ..*old(self) }),
    {
        &mut self.saved_io
    }

    /// Hands the redirections over to be performed.
    pub fn activate_rdrs(&mut self) -> (r: Vec<Redir>)
        ensures
            r == old(self).redirs,
            final(self).redirs@.len() == 0,
            *final(self) == (ExecCtx { redirs: final(self).redirs, ..*old(self) }),
    {
        let mut taken: Vec<Redir> = Vec::new();
        std::mem::swap(&mut taken, &mut self.redirs);
        taken
    }

    pub fn flags(&self) -> (r: ExecFlags)
        ensures
            r == self.flags,
    {
        self.flags
    }

    pub fn set_flag(&mut self, flag: ExecFlags)
        ensures
            *final(self) == (ExecCtx { flags: old(self).flags.with(flag), ..*old(self) }),
    {
        self.flags = ExecFlags {
            no_fork: self.flags.no_fork || flag.no_fork,
            in_func: self.flags.in_func || flag.in_func,
        };
    }

    pub fn unset_flag(&mut self, flag: ExecFlags)
        ensures
            *final(self) == (ExecCtx { flags: old(self).flags.without(flag), ..*old(self) }),
    {
        self.flags = ExecFlags {
            no_fork: self.flags.no_fork && !flag.no_fork,
            in_func: self.flags.in_func && !flag.in_func,
        };
    }
}

/// Every redirection goes to the condition or to the body, and to one of them
/// only.
pub proof fn each_redirection_has_one_place(redirs: Seq<Redir>)
    ensures
        picked(redirs, true).len() + picked(redirs, false).len() == redirs.len(),
        forall|i: int|
            0 <= i < redirs.len() ==> picked(redirs, (#[trigger] redirs[i]).reads()).contains(
                redirs[i],
            ),
    decreases redirs.len(),
{
    reveal(Seq::filter);
    if redirs.len() > 0 {
        let s = redirs.drop_last();
        each_redirection_has_one_place(s);
        assert forall|i: int| 0 <= i < redirs.len() implies picked(
            redirs,
            (#[trigger] redirs[i]).reads(),
        ).contains(redirs[i]) by {
            let kind = redirs[i].reads();
            if i < s.len() {
                assert(s[i] == redirs[i]);
                let old_list = picked(s, kind);
                let k = choose|k: int| 0 <= k < old_list.len() && old_list[k] == redirs[i];
                assert(picked(redirs, kind)[k] == redirs[i]);
            } else {
                assert(picked(redirs, kind).last() == redirs[i]);
            }
        }
    }
}

} // verus!
