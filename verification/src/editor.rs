//! The editor and its modes.

use crate::editcmd;
use crate::editcmd::CmdFlags;
use crate::editcmd::EditCmd;
use crate::editcmd::Motion;
use crate::editcmd::MotionCmd;
use crate::editcmd::RegisterName;
use crate::editcmd::Verb;
use crate::editcmd::VerbCmd;
use crate::editmode;
use crate::editmode::clone_cmds;
use crate::editmode::CmdReplay;
use crate::editmode::ModeReport;
use crate::keys::KeyCode;
use crate::keys::KeyEvent;
use crate::keys::ModKeys;
use crate::linebuf::buffer;
use crate::linebuf::buffer::LineBuf;
use crate::linebuf::buffer::Viewport;
use crate::linebuf::exec;
use crate::linebuf::lines;
use crate::linebuf::pos::Cursor;
use crate::linebuf::pos::Pos;
use crate::linebuf::pos::SelectMode;
use crate::linebuf::verbs::Effect;
use crate::register::RegisterContent;
use crate::text;
use crate::text::decimal_string;
use vstd::prelude::*;

verus! {

/// A mode of the editor, with what repeating it would do: how often, and the
/// commands that were given in it.
#[derive(Debug)]
pub struct Mode {
    pub report: ModeReport,
    pub count: u16,
    pub sent: Vec<EditCmd>,
}

impl Mode {
    /// A mode in which nothing was done yet.
    pub open spec fn fresh(self, report: ModeReport, count: u16) -> bool {
        self.report == report && self.count == count && self.sent@.len() == 0
    }

    pub fn new(report: ModeReport, count: u16) -> (r: Self)
        ensures
            r.fresh(report, count),
    {
        Mode { report, count, sent: Vec::new() }
    }

    /// Notes a command that was given in the mode.
    pub fn record_cmd(&mut self, cmd: EditCmd)
        ensures
            final(self).sent@ == old(self).sent@.push(cmd),
            final(self).report == old(self).report,
            final(self).count == old(self).count,
    {
        self.sent.push(cmd);
    }

    /// Whether repeating the mode does its commands again.
    pub open spec fn replays(self) -> bool {
        self.report == ModeReport::Insert || self.report == ModeReport::Replace || self.report
            == ModeReport::Verbatim
    }

    /// What is done again when the mode is repeated.
    pub open spec fn replay_is(self, r: Option<CmdReplay>) -> bool {
        if self.replays() {
            r matches Some(CmdReplay::ModeReplay { cmds, repeat }) && repeat == self.count
                && editmode::same_cmds(cmds@, self.sent@)
        } else {
            r is None
        }
    }

    pub fn as_replay(&self) -> (r: Option<CmdReplay>)
        ensures
            self.replay_is(r),
    {
        if self.report == ModeReport::Insert || self.report == ModeReport::Replace || self.report
            == ModeReport::Verbatim {
            let cmds = clone_cmds(&self.sent);
            Some(CmdReplay::mode(cmds, self.count))
        } else {
            None
        }
    }
}

/// In which modes the cursor stays on characters, and which can be repeated.
#[derive(Debug)]
pub struct ModeTraits {
    pub clamping: Vec<ModeReport>,
    pub repeatable: Vec<ModeReport>,
}

fn lists(v: &Vec<ModeReport>, m: ModeReport) -> (r: bool)
    ensures
        r == v@.contains(m),
{
    let mut i: usize = 0;
    while i < v.len()
        invariant
            i <= v@.len(),
            forall|k: int| 0 <= k < i ==> v@[k] != m,
        decreases v@.len() - i,
    {
        if v[i] == m {
            assert(v@[i as int] == m);
            return true;
        }
        i = i + 1;
    }
    false
}

/// A buffer in which the cursor stays on characters, or may be behind them.
pub open spec fn clamped(b: LineBuf, exclusive: bool) -> LineBuf {
    LineBuf { cursor: Cursor { pos: b.cursor.pos, exclusive }, ..b }
}

/// A buffer in which nothing is selected any more.
pub open spec fn unselected(b: LineBuf) -> LineBuf {
    LineBuf {
        select_mode: None,
        last_selection: match b.select_mode {
            Some(m) => Some((m, buffer::anchor_of(m))),
            None => b.last_selection,
        },
        ..b
    }
}

/// What is selected in a buffer.
pub open spec fn selected(b: LineBuf) -> Option<Motion> {
    buffer::selected_range(b.select_mode, b.cursor.pos)
}

/// A buffer whose last undo step is closed.
pub open spec fn step_closed(a: LineBuf, b: LineBuf) -> bool {
    &&& exec::steps(b.undo_stack@) == exec::with_merging(exec::steps(a.undo_stack@), false)
    &&& b == (LineBuf { undo_stack: b.undo_stack, ..a })
}

/// What a command makes of a buffer. One that the machine cannot count is
/// passed over.
#[verifier::opaque]
pub open spec fn fired(
    a: LineBuf,
    b: LineBuf,
    cmd: EditCmd,
    view: Viewport,
    levels: Seq<(usize, usize)>,
    reg: Option<RegisterContent>,
    e: Option<Effect>,
) -> bool {
    if exec::roomy(a, cmd, levels, reg) {
        e is Some && b.wf() && exec::cmd_done(a, b, cmd, view, levels, reg, e->0)
    } else {
        e is None && b == a
    }
}

/// The mode that a command leads to.
#[derive(Debug, Clone, Copy, PartialEq, Eq, Structural)]
pub enum Target {
    /// The mode that was left for this one.
    Saved,
    Fresh(ModeReport),
    /// The command leads to no mode.
    Nowhere,
}

/// The mode that a verb leads to.
pub open spec fn verb_target(v: Verb) -> Target {
    match v {
        Verb::Change => Target::Fresh(ModeReport::Insert),
        Verb::InsertModeLineBreak(_) => Target::Fresh(ModeReport::Insert),
        Verb::InsertMode => Target::Fresh(ModeReport::Insert),
        Verb::ExMode => Target::Fresh(ModeReport::Ex),
        Verb::VerbatimMode => Target::Fresh(ModeReport::Verbatim),
        Verb::NormalMode => Target::Fresh(ModeReport::Normal),
        Verb::ReplaceMode => Target::Fresh(ModeReport::Replace),
        Verb::VisualModeSelectLast => Target::Fresh(ModeReport::Visual),
        Verb::VisualMode => Target::Fresh(ModeReport::Visual),
        Verb::VisualModeLine => Target::Fresh(ModeReport::Visual),
        Verb::SearchMode => Target::Fresh(ModeReport::Search),
        Verb::RevSearchMode => Target::Fresh(ModeReport::RevSearch),
        _ => Target::Nowhere,
    }
}

/// The modes for one command, which return to the mode before.
pub open spec fn passing(m: ModeReport) -> bool {
    m == ModeReport::Ex || m == ModeReport::Verbatim
}

/// The mode that a command leads to from a mode. From the command line a
/// selection does not come back.
pub open spec fn target(cmd: EditCmd, mode: ModeReport, saved: Option<ModeReport>) -> Target {
    if passing(mode) && cmd.flags.exit_cur_mode {
        if mode == ModeReport::Ex && saved == Some(ModeReport::Visual) {
            Target::Fresh(ModeReport::Normal)
        } else if saved is Some {
            Target::Saved
        } else {
            Target::Fresh(ModeReport::Normal)
        }
    } else {
        match cmd.verb {
            Some(v) => verb_target(v.1),
            None => Target::Nowhere,
        }
    }
}

fn find_target(cmd: &EditCmd, mode: ModeReport, saved: Option<ModeReport>) -> (r: Target)
    ensures
        r == target(*cmd, mode, saved),
{
    if (mode == ModeReport::Ex || mode == ModeReport::Verbatim) && cmd.flags.exit_cur_mode {
        return match saved {
            Some(s) => if mode == ModeReport::Ex && s == ModeReport::Visual {
                Target::Fresh(ModeReport::Normal)
            } else {
                Target::Saved
            },
            None => Target::Fresh(ModeReport::Normal),
        };
    }
    match &cmd.verb {
        None => Target::Nowhere,
        Some(v) => match &v.1 {
            Verb::Change => Target::Fresh(ModeReport::Insert),
            Verb::InsertModeLineBreak(_) => Target::Fresh(ModeReport::Insert),
            Verb::InsertMode => Target::Fresh(ModeReport::Insert),
            Verb::ExMode => Target::Fresh(ModeReport::Ex),
            Verb::VerbatimMode => Target::Fresh(ModeReport::Verbatim),
            Verb::NormalMode => Target::Fresh(ModeReport::Normal),
            Verb::ReplaceMode => Target::Fresh(ModeReport::Replace),
            Verb::VisualModeSelectLast => Target::Fresh(ModeReport::Visual),
            Verb::VisualMode => Target::Fresh(ModeReport::Visual),
            Verb::VisualModeLine => Target::Fresh(ModeReport::Visual),
            Verb::SearchMode => Target::Fresh(ModeReport::Search),
            Verb::RevSearchMode => Target::Fresh(ModeReport::RevSearch),
            _ => Target::Nowhere,
        },
    }
}

/// Something to do in a repetition.
#[derive(Debug)]
pub enum ReplayStep {
    /// Carry out a command as if it were given again.
    Exec(EditCmd),
    /// Carry out a command on the buffer alone.
    Fire(EditCmd),
    /// Take what follows into the last undo step.
    StartMerge,
    StopMerge,
    /// Go to a mode.
    SetMode(ModeReport),
}

/// The steps of the first `n` commands of a round: all of them are one undo
/// step.
pub open spec fn round(cmds: Seq<EditCmd>, n: int) -> Seq<ReplayStep>
    decreases n,
{
    if n <= 0 {
        Seq::empty()
    } else {
        let s = round(cmds, n - 1).push(ReplayStep::Exec(cmds[n - 1]));
        if n == 1 {
            s.push(ReplayStep::StartMerge)
        } else {
            s
        }
    }
}

/// The steps of some rounds. Each ends in the mode in which it began.
pub open spec fn rounds(cmds: Seq<EditCmd>, mode: ModeReport, n: nat) -> Seq<ReplayStep>
    decreases n,
{
    if n == 0 {
        Seq::empty()
    } else {
        (rounds(cmds, mode, (n - 1) as nat) + round(cmds, cmds.len() as int)).push(
            ReplayStep::StopMerge,
        ).push(ReplayStep::SetMode(mode))
    }
}

/// A command with another count.
pub open spec fn recounted(cmd: EditCmd, count: usize) -> EditCmd {
    EditCmd {
        verb: match cmd.verb {
            Some(v) => Some(VerbCmd(count, v.1)),
            None => None,
        },
        motion: match cmd.motion {
            Some(m) => Some(MotionCmd(1, m.1)),
            None => None,
        },
        ..cmd
    }
}

/// The steps of a repetition. A count of more than one replaces the one that
/// was given.
pub open spec fn replay_plan(r: Option<CmdReplay>, count: usize, mode: ModeReport) -> Seq<
    ReplayStep,
> {
    match r {
        Some(CmdReplay::ModeReplay { cmds, repeat }) => rounds(
            cmds@,
            mode,
            if count > 1 {
                count as u16 as nat
            } else {
                repeat as nat
            },
        ),
        Some(CmdReplay::Single(cmd)) => if count > 1 {
            if cmd.verb is None {
                Seq::empty()
            } else {
                seq![ReplayStep::Fire(recounted(cmd, count))]
            }
        } else {
            seq![ReplayStep::Fire(cmd)]
        },
        _ => Seq::empty(),
    }
}

/// Whether two steps are the same.
pub open spec fn same_step(a: ReplayStep, b: ReplayStep) -> bool {
    match (a, b) {
        (ReplayStep::Exec(x), ReplayStep::Exec(y)) => editcmd::same_cmd(x, y),
        (ReplayStep::Fire(x), ReplayStep::Fire(y)) => editcmd::same_cmd(x, y),
        _ => a == b,
    }
}

pub open spec fn same_steps(a: Seq<ReplayStep>, b: Seq<ReplayStep>) -> bool {
    a.len() == b.len() && forall|i: int| 0 <= i < a.len() ==> same_step(#[trigger] a[i], b[i])
}

proof fn lemma_same_push(a: Seq<ReplayStep>, b: Seq<ReplayStep>, x: ReplayStep, y: ReplayStep)
    requires
        same_steps(a, b),
        same_step(x, y),
    ensures
        same_steps(a.push(x), b.push(y)),
{
}

fn push_round(out: &mut Vec<ReplayStep>, cmds: &Vec<EditCmd>, Ghost(s): Ghost<Seq<ReplayStep>>)
    requires
        same_steps(old(out)@, s),
    ensures
        same_steps(final(out)@, s + round(cmds@, cmds@.len() as int)),
{
    let mut i: usize = 0;
    assert(s + round(cmds@, 0) =~= s);
    while i < cmds.len()
        invariant
            i <= cmds@.len(),
            same_steps(out@, s + round(cmds@, i as int)),
        decreases cmds@.len() - i,
    {
        let ghost t = s + round(cmds@, i as int);
        let c = cmds[i].clone();
        proof {
            lemma_same_push(
                out@,
                t,
                ReplayStep::Exec(c),
                ReplayStep::Exec(cmds@[i as int]),
            );
        }
        out.push(ReplayStep::Exec(c));
        let ghost t1 = t.push(ReplayStep::Exec(cmds@[i as int]));
        if i == 0 {
            proof {
                lemma_same_push(out@, t1, ReplayStep::StartMerge, ReplayStep::StartMerge);
            }
            out.push(ReplayStep::StartMerge);
            assert(t1.push(ReplayStep::StartMerge) =~= s + round(cmds@, 1));
        } else {
            assert(t1 =~= s + round(cmds@, i + 1));
        }
        i = i + 1;
    }
}

fn plan_rounds(cmds: &Vec<EditCmd>, mode: ModeReport, n: u16) -> (r: Vec<ReplayStep>)
    ensures
        same_steps(r@, rounds(cmds@, mode, n as nat)),
{
    let mut out: Vec<ReplayStep> = Vec::new();
    let mut i: u16 = 0;
    while i < n
        invariant
            i <= n,
            same_steps(out@, rounds(cmds@, mode, i as nat)),
        decreases n - i,
    {
        let ghost s = rounds(cmds@, mode, i as nat);
        push_round(&mut out, cmds, Ghost(s));
        proof {
            let t = s + round(cmds@, cmds@.len() as int);
            lemma_same_push(out@, t, ReplayStep::StopMerge, ReplayStep::StopMerge);
            lemma_same_push(
                out@.push(ReplayStep::StopMerge),
                t.push(ReplayStep::StopMerge),
                ReplayStep::SetMode(mode),
                ReplayStep::SetMode(mode),
            );
        }
        out.push(ReplayStep::StopMerge);
        out.push(ReplayStep::SetMode(mode));
        i = i + 1;
    }
    out
}

/// Plans a repetition.
pub fn plan_replay(replay: &Option<CmdReplay>, count: usize, mode: ModeReport) -> (r: Vec<
    ReplayStep,
>)
    ensures
        same_steps(r@, replay_plan(*replay, count, mode)),
{
    match replay {
        Some(CmdReplay::ModeReplay { cmds, repeat }) => {
            let n: u16 = if count > 1 {
                count as u16
            } else {
                *repeat
            };
            plan_rounds(cmds, mode, n)
        },
        Some(CmdReplay::Single(cmd)) => {
            let mut out: Vec<ReplayStep> = Vec::new();
            let mut c = cmd.clone();
            if count > 1 {
                match c.verb {
                    None => {
                        return out;
                    },
                    Some(v) => {
                        c.verb = Some(VerbCmd(count, v.1));
                    },
                }
                c.motion = match c.motion {
                    Some(m) => Some(MotionCmd(1, m.1)),
                    None => None,
                };
            }
            out.push(ReplayStep::Fire(c));
            out
        },
        _ => Vec::new(),
    }
}

/// What became of a command.
#[derive(Debug)]
pub enum CoreOut {
    /// It was carried out on the buffer.
    Fired(Option<Effect>),
    /// The mode was changed.
    Switched,
    /// These are to be done.
    Replay(Vec<ReplayStep>),
    /// Keys are to be pressed in normal mode on a line.
    NormalKeys(String, usize),
    /// There was nothing to do.
    Nothing,
}

/// The editor: the buffer, the mode, and what can be repeated.
#[derive(Debug)]
pub struct EditorCore {
    pub editor: LineBuf,
    pub mode: Mode,
    pub saved_mode: Option<Mode>,
    pub repeat_action: Option<CmdReplay>,
    pub repeat_motion: Option<MotionCmd>,
    /// Set when a command was carried out.
    pub needs_redraw: bool,
    /// Set when a command ran a shell command.
    pub shell_cmd_ran: bool,
    /// Set when the mode changed.
    pub mode_changed: bool,
    pub traits: ModeTraits,
}

/// Whether a command runs a shell command.
pub open spec fn runs_shell(cmd: EditCmd) -> bool {
    cmd.verb is Some && (cmd.verb->0).1 is ShellCmd
}

/// A command on what is selected, where something is.
pub open spec fn on_selection(cmd: EditCmd, b: LineBuf) -> EditCmd {
    if cmd.verb is Some && selected(b) is Some {
        EditCmd { motion: Some(MotionCmd(1, selected(b)->0)), ..cmd }
    } else {
        cmd
    }
}

/// Whether a verb starts to select.
pub open spec fn starts_selecting(cmd: EditCmd) -> bool {
    cmd.verb is Some && ((cmd.verb->0).1 is VisualMode || (cmd.verb->0).1 is VisualModeLine)
}

/// The buffer before its mode changes.
pub open spec fn leaving(b: LineBuf, cmd: EditCmd, mode: ModeReport, saved: Option<ModeReport>) -> LineBuf {
    if passing(mode) && cmd.flags.exit_cur_mode {
        if mode == ModeReport::Ex && saved == Some(ModeReport::Visual) {
            unselected(b)
        } else {
            b
        }
    } else if cmd.verb is Some {
        let v = (cmd.verb->0).1;
        if v is VisualModeSelectLast && mode == ModeReport::Visual {
            b
        } else if v is VisualModeSelectLast || v is VisualMode {
            LineBuf { select_mode: Some(SelectMode::Char(b.cursor.pos)), ..b }
        } else if v is VisualModeLine {
            LineBuf { select_mode: Some(SelectMode::Line(b.cursor.pos)), ..b }
        } else {
            b
        }
    } else {
        b
    }
}

/// The buffer once a command has changed the mode: a selection that was made in
/// the mode before ends, and the place where inserting began is noted.
pub open spec fn settled(b: LineBuf, before: ModeReport, inserting: bool) -> LineBuf {
    let c = if before == ModeReport::Visual && selected(b) is Some {
        unselected(b)
    } else {
        b
    };
    LineBuf {
        insert_mode_start_pos: if inserting {
            Some(c.cursor.pos)
        } else {
            None
        },
        ..c
    }
}

/// Whether a verb edits the text, or copies it.
pub open spec fn ends_selection(cmd: EditCmd) -> bool {
    cmd.verb is Some && (editcmd::edits((cmd.verb->0).1) || (cmd.verb->0).1 is Yank)
}

impl EditorCore {
    /// Whether the cursor stays on characters in a mode.
    pub open spec fn clamps(self, m: ModeReport) -> bool {
        self.traits.clamping@.contains(m)
    }

    pub open spec fn saved_report(self) -> Option<ModeReport> {
        match self.saved_mode {
            Some(m) => Some(m.report),
            None => None,
        }
    }

    pub fn new(mode: Mode, traits: ModeTraits) -> (r: Self)
        ensures
            r.editor.fresh(),
            r.editor.wf(),
            r.mode == mode,
            r.saved_mode is None,
            r.repeat_action is None,
            r.repeat_motion is None,
            !r.needs_redraw,
            !r.shell_cmd_ran,
            !r.mode_changed,
            r.traits == traits,
    {
        let editor = LineBuf::new();
        assert(editor.text().len() == editor.lines@.len());
        EditorCore {
            editor,
            mode,
            saved_mode: None,
            repeat_action: None,
            repeat_motion: None,
            needs_redraw: false,
            shell_cmd_ran: false,
            mode_changed: false,
            traits,
        }
    }

    /// An editor with some text, in normal mode.
    pub fn headless(input: &str, view: Viewport, traits: ModeTraits) -> (r: Self)
        ensures
            r.editor.text() == lines::lines_of(input@),
            r.editor.wf(),
            r.editor.cursor.pos == (Pos { row: 0, col: 0 }),
            r.mode.fresh(ModeReport::Normal, 0),
            r.saved_mode is None,
            r.repeat_action is None,
            r.repeat_motion is None,
            !r.needs_redraw,
            !r.shell_cmd_ran,
            !r.mode_changed,
            r.traits == traits,
    {
        let mut core = EditorCore::empty(traits);
        core.editor = LineBuf::new().with_initial(input, 0, view);
        core
    }

    pub fn empty(traits: ModeTraits) -> (r: Self)
        ensures
            r.editor.fresh(),
            r.editor.wf(),
            r.mode.fresh(ModeReport::Normal, 0),
            r.saved_mode is None,
            r.repeat_action is None,
            r.repeat_motion is None,
            !r.needs_redraw,
            !r.shell_cmd_ran,
            !r.mode_changed,
            r.traits == traits,
    {
        EditorCore::new(Mode::new(ModeReport::Normal, 0), traits)
    }

    /// Replaces the text, with the cursor at its start.
    pub fn set_buffer(&mut self, input: &str, view: Viewport)
        ensures
            final(self).editor.text() == lines::lines_of(input@),
            final(self).editor.cursor == (Cursor {
                pos: Pos { row: 0, col: 0 },
                exclusive: old(self).editor.cursor.exclusive,
            }),
            final(self).editor.concat_points@.len() == 0,
            final(self).editor == (LineBuf {
                lines: final(self).editor.lines,
                cursor: final(self).editor.cursor,
                scroll_offset: final(self).editor.scroll_offset,
                concat_points: final(self).editor.concat_points,
                ..old(self).editor
            }),
            final(self).editor.wf(),
            *final(self) == (EditorCore { editor: final(self).editor, ..*old(self) }),
    {
        self.editor.set_buffer(input, view);
        self.editor.set_cursor_from_flat(0, view);
    }

    /// The text, with a selection marked.
    pub fn text(&self) -> (r: String)
        ensures
            r@ == lines::text_chars(
                crate::linebuf::render::marked(
                    self.editor.text(),
                    self.editor.cursor.pos,
                    self.editor.select_mode,
                ),
            ),
    {
        self.editor.to_string()
    }

    /// Carries out a command on the buffer.
    fn fire(
        &mut self,
        cmd: EditCmd,
        view: Viewport,
        levels: &[(usize, usize)],
        reg: Option<RegisterContent>,
    ) -> (r: Option<Effect>)
        ensures
            old(self).editor.wf() ==> final(self).editor.wf(),
            fired(old(self).editor, final(self).editor, cmd, view, levels@, reg, r),
            *final(self) == (EditorCore {
                editor: final(self).editor,
                needs_redraw: true,
                shell_cmd_ran: old(self).shell_cmd_ran || runs_shell(cmd),
                ..*old(self)
            }),
    {
        let shell: bool = match &cmd.verb {
            Some(v) => match &v.1 {
                Verb::ShellCmd(_) => true,
                _ => false,
            },
            None => false,
        };
        if shell {
            self.shell_cmd_ran = true;
        }
        let r = self.editor.try_exec_cmd(cmd, view, levels, reg);
        reveal(fired);
        self.needs_redraw = true;
        r
    }

    /// Goes to a mode, and returns the mode before.
    pub fn swap_mode(&mut self, mode: Mode) -> (r: Mode)
        ensures
            r == old(self).mode,
            *final(self) == (EditorCore {
                mode,
                mode_changed: true,
                editor: clamped(old(self).editor, old(self).clamps(mode.report)),
                ..*old(self)
            }),
    {
        let clamp = lists(&self.traits.clamping, mode.report);
        let mut m = mode;
        std::mem::swap(&mut self.mode, &mut m);
        self.mode_changed = true;
        self.editor.set_cursor_clamp(clamp);
        m
    }

    /// Goes to normal mode.
    pub fn reset_mode(&mut self)
        ensures
            final(self).mode.fresh(ModeReport::Normal, 0),
            *final(self) == (EditorCore {
                mode: final(self).mode,
                mode_changed: true,
                editor: clamped(old(self).editor, old(self).clamps(ModeReport::Normal)),
                ..*old(self)
            }),
    {
        let _ = self.swap_mode(Mode::new(ModeReport::Normal, 0));
    }

    /// Goes to a mode in the middle of a repetition.
    pub fn set_mode(&mut self, report: ModeReport)
        ensures
            final(self).mode.fresh(report, 0),
            *final(self) == (EditorCore { mode: final(self).mode, ..*old(self) }),
    {
        self.mode = Mode::new(report, 0);
    }

    /// Takes what follows into the last undo step, or no longer.
    pub fn merge_undo(&mut self, merging: bool)
        ensures
            exec::steps(final(self).editor.undo_stack@) == exec::with_merging(
                exec::steps(old(self).editor.undo_stack@),
                merging,
            ),
            *final(self) == (EditorCore {
                editor: LineBuf {
                    undo_stack: final(self).editor.undo_stack,
                    ..old(self).editor
                },
                ..*old(self)
            }),
    {
        self.editor.set_merging(merging);
    }

    /// Whether a command that changes the mode leads somewhere.
    pub open spec fn leads(self, cmd: EditCmd) -> bool {
        !(target(cmd, self.mode.report, self.saved_report()) is Nowhere)
    }

    /// The mode that a command leads to: for inserting the command itself is
    /// noted.
    pub open spec fn enters(self, cmd: EditCmd, m: Mode) -> bool {
        let count = match cmd.verb {
            Some(v) => v.0,
            None => 1,
        };
        match target(cmd, self.mode.report, self.saved_report()) {
            Target::Saved => self.saved_mode == Some(m),
            Target::Nowhere => false,
            Target::Fresh(k) => {
                let keeps = passing(self.mode.report) && cmd.flags.exit_cur_mode;
                if keeps || k == ModeReport::Normal || k == ModeReport::Replace || k
                    == ModeReport::Visual || k == ModeReport::Ex {
                    m.fresh(k, 0)
                } else if k == ModeReport::Insert {
                    m.report == k && m.count == count as u16 && m.sent@.len() == 1
                        && editcmd::same_cmd(m.sent@[0], cmd)
                } else {
                    m.fresh(k, count as u16)
                }
            },
        }
    }

    fn next_mode(&mut self, cmd: &EditCmd) -> (m: Mode)
        requires
            old(self).leads(*cmd),
        ensures
            old(self).enters(*cmd, m),
            final(self).saved_mode == (if target(
                *cmd,
                old(self).mode.report,
                old(self).saved_report(),
            ) is Saved {
                None
            } else {
                old(self).saved_mode
            }),
            final(self).editor == leaving(
                old(self).editor,
                *cmd,
                old(self).mode.report,
                old(self).saved_report(),
            ),
            *final(self) == (EditorCore {
                editor: final(self).editor,
                saved_mode: final(self).saved_mode,
                ..*old(self)
            }),
    {
        let saved = match &self.saved_mode {
            Some(m) => Some(m.report),
            None => None,
        };
        let report = self.mode.report;
        let keeps: bool = (report == ModeReport::Ex || report == ModeReport::Verbatim)
            && cmd.flags.exit_cur_mode;
        let k = match find_target(cmd, report, saved) {
            Target::Saved => {
                return match self.saved_mode.take() {
                    Some(m) => m,
                    None => Mode::new(ModeReport::Normal, 0),
                };
            },
            Target::Nowhere => ModeReport::Normal,
            Target::Fresh(k) => k,
        };
        if keeps {
            if report == ModeReport::Ex {
                if let Some(s) = saved {
                    if s == ModeReport::Visual {
                        self.editor.stop_selecting();
                    }
                }
            }
            return Mode::new(k, 0);
        }
        let count: usize = match &cmd.verb {
            Some(v) => v.0,
            None => 1,
        };
        match &cmd.verb {
            Some(v) => match &v.1 {
                Verb::VisualModeSelectLast => if report != ModeReport::Visual {
                    self.editor.start_char_select();
                },
                Verb::VisualMode => {
                    self.editor.start_char_select();
                },
                Verb::VisualModeLine => {
                    self.editor.start_line_select();
                },
                _ => {},
            },
            None => {},
        }
        match k {
            ModeReport::Insert => {
                let mut m = Mode::new(k, count as u16);
                m.record_cmd(cmd.clone());
                m
            },
            ModeReport::Verbatim => Mode::new(k, count as u16),
            ModeReport::Search => Mode::new(k, count as u16),
            ModeReport::RevSearch => Mode::new(k, count as u16),
            _ => Mode::new(k, 0),
        }
    }

    /// What a command that changes the mode makes of the editor.
    pub open spec fn transitioned(
        a: EditorCore,
        b: EditorCore,
        cmd: EditCmd,
        from_replay: bool,
        view: Viewport,
        levels: Seq<(usize, usize)>,
        reg: Option<RegisterContent>,
        r: CoreOut,
    ) -> bool {
        let t = target(cmd, a.mode.report, a.saved_report());
        let saved = if t is Saved {
            None
        } else {
            a.saved_mode
        };
        let last = cmd.verb is Some && (cmd.verb->0).1 is VisualModeSelectLast && !a.goes_back(cmd);
        &&& a.enters(cmd, b.mode)
        &&& b.mode_changed
        &&& b.traits == a.traits
        &&& b.repeat_motion == a.repeat_motion
        &&& if last {
            &&& r is Fired
            &&& fired(a.entering(cmd, b.mode.report), b.editor, cmd, view, levels, reg, r->Fired_0)
            &&& b.saved_mode == saved
            &&& b.repeat_action == a.repeat_action
            &&& b.needs_redraw
            &&& b.shell_cmd_ran == a.shell_cmd_ran
        } else {
            exists|e1: LineBuf| #[trigger]
                a.closing(cmd, b.mode.report, e1) && if passing(b.mode.report) {
                    &&& r is Switched
                    &&& b.editor == e1
                    &&& b.saved_mode == Some(a.mode)
                    &&& b.repeat_action == a.repeat_action
                    &&& b.needs_redraw == a.needs_redraw
                    &&& b.shell_cmd_ran == a.shell_cmd_ran
                } else {
                    &&& r is Fired
                    &&& b.saved_mode == saved
                    &&& b.needs_redraw
                    &&& b.shell_cmd_ran == (a.shell_cmd_ran || runs_shell(cmd))
                    &&& if a.traits.repeatable@.contains(a.mode.report) && !from_replay {
                        a.mode.replay_is(b.repeat_action)
                    } else {
                        b.repeat_action == a.repeat_action
                    }
                    &&& EditorCore::entered(
                        e1,
                        b.editor,
                        cmd,
                        a.mode.report,
                        t == Target::Fresh(ModeReport::Insert) && !a.goes_back(cmd),
                        view,
                        levels,
                        reg,
                        r->Fired_0,
                    )
                }
        }
    }

    /// Whether a command only leads back to the mode before.
    pub open spec fn goes_back(self, cmd: EditCmd) -> bool {
        passing(self.mode.report) && cmd.flags.exit_cur_mode
    }

    /// The buffer once the mode has changed.
    pub open spec fn entering(self, cmd: EditCmd, next: ModeReport) -> LineBuf {
        clamped(
            leaving(self.editor, cmd, self.mode.report, self.saved_report()),
            self.clamps(next),
        )
    }

    /// The buffer once the mode has changed, and what was typed is one step.
    pub open spec fn closing(self, cmd: EditCmd, next: ModeReport, e: LineBuf) -> bool {
        if self.mode.report == ModeReport::Insert || self.mode.report == ModeReport::Replace {
            step_closed(self.entering(cmd, next), e)
        } else {
            e == self.entering(cmd, next)
        }
    }

    /// The command that is carried out in the new mode.
    pub open spec fn entry_cmd(cmd: EditCmd, e: LineBuf) -> EditCmd {
        if starts_selecting(cmd) {
            cmd
        } else {
            on_selection(cmd, e)
        }
    }

    /// What the command makes of the buffer in the new mode.
    pub open spec fn entered(
        a: LineBuf,
        b: LineBuf,
        cmd: EditCmd,
        before: ModeReport,
        inserting: bool,
        view: Viewport,
        levels: Seq<(usize, usize)>,
        reg: Option<RegisterContent>,
        effect: Option<Effect>,
    ) -> bool {
        exists|e: LineBuf| #[trigger]
            fired(a, e, EditorCore::entry_cmd(cmd, a), view, levels, reg, effect) && b == settled(
                e,
                before,
                inserting,
            )
    }

    /// Going to the command line keeps the text and notes the mode, and leaving
    /// it leads back to that mode with nothing noted any more. Only from a
    /// selection it leads to normal mode, with nothing selected. What was done on
    /// the command line in between may have changed anything but the mode and
    /// what was noted.
    pub proof fn command_line_leads_back(
        a: EditorCore,
        b: EditorCore,
        c: EditorCore,
        d: EditorCore,
        there: EditCmd,
        back: EditCmd,
        replays: (bool, bool),
        views: (Viewport, Viewport),
        levels: (Seq<(usize, usize)>, Seq<(usize, usize)>),
        regs: (Option<RegisterContent>, Option<RegisterContent>),
        outs: (CoreOut, CoreOut),
    )
        requires
            !passing(a.mode.report),
            there.verb is Some,
            (there.verb->0).1 is ExMode,
            EditorCore::transitioned(
                a,
                b,
                there,
                replays.0,
                views.0,
                levels.0,
                regs.0,
                outs.0,
            ),
            c.mode.report == b.mode.report,
            c.saved_mode == b.saved_mode,
            back.flags.exit_cur_mode,
            EditorCore::transitioned(
                c,
                d,
                back,
                replays.1,
                views.1,
                levels.1,
                regs.1,
                outs.1,
            ),
        ensures
            b.mode.fresh(ModeReport::Ex, 0),
            b.saved_mode == Some(a.mode),
            b.mode_changed,
            b.editor.text() == a.editor.text(),
            a.mode.report != ModeReport::Visual ==> d.mode == a.mode && d.saved_mode is None,
            a.mode.report == ModeReport::Visual ==> {
                &&& d.mode.fresh(ModeReport::Normal, 0)
                &&& d.editor.select_mode is None
                &&& selected(d.editor) is None
            },
    {
        assert(b.editor.lines@ == a.editor.lines@);
        if a.mode.report == ModeReport::Visual {
            let e1 = c.entering(back, d.mode.report);
            assert(e1.select_mode is None);
            assert(EditorCore::entered(
                e1,
                d.editor,
                back,
                c.mode.report,
                false,
                views.1,
                levels.1,
                regs.1,
                outs.1->Fired_0,
            ));
            let effect = outs.1->Fired_0;
            let e2 = choose|e: LineBuf| #[trigger]
                fired(
                    e1,
                    e,
                    EditorCore::entry_cmd(back, e1),
                    views.1,
                    levels.1,
                    regs.1,
                    effect,
                ) && d.editor == settled(e, c.mode.report, false);
            reveal(fired);
            if exec::roomy(e1, EditorCore::entry_cmd(back, e1), levels.1, regs.1) {
                exec::commands_start_no_selection(
                    e1,
                    e2,
                    EditorCore::entry_cmd(back, e1),
                    views.1,
                    levels.1,
                    regs.1,
                    effect->0,
                );
            }
        }
    }

    /// Carries out a command that changes the mode.
    pub fn exec_mode_transition(
        &mut self,
        cmd: EditCmd,
        from_replay: bool,
        view: Viewport,
        levels: &[(usize, usize)],
        reg: Option<RegisterContent>,
    ) -> (r: CoreOut)
        requires
            old(self).leads(cmd),
        ensures
            old(self).wf() ==> final(self).wf(),
            EditorCore::transitioned(
                *old(self),
                *final(self),
                cmd,
                from_replay,
                view,
                levels@,
                reg,
                r,
            ),
    {
        let ghost a = *self;
        let report = self.mode.report;
        let keeps: bool = (report == ModeReport::Ex || report == ModeReport::Verbatim)
            && cmd.flags.exit_cur_mode;
        let last: bool = !keeps && match &cmd.verb {
            Some(v) => match &v.1 {
                Verb::VisualModeSelectLast => true,
                _ => false,
            },
            None => false,
        };
        let selecting: bool = match &cmd.verb {
            Some(v) => match &v.1 {
                Verb::VisualMode => true,
                Verb::VisualModeLine => true,
                _ => false,
            },
            None => false,
        };
        let next = self.next_mode(&cmd);
        let inserting: bool = !keeps && next.report == ModeReport::Insert;
        let before = self.swap_mode(next);
        if last {
            return CoreOut::Fired(self.fire(cmd, view, levels, reg));
        }
        let ghost e = self.editor;
        assert(e == a.entering(cmd, self.mode.report));
        if before.report == ModeReport::Insert || before.report == ModeReport::Replace {
            self.editor.set_merging(false);
            assert(step_closed(e, self.editor));
        }
        let ghost e1 = self.editor;
        assert(a.closing(cmd, self.mode.report, e1));
        if self.mode.report == ModeReport::Ex || self.mode.report == ModeReport::Verbatim {
            self.saved_mode = Some(before);
            return CoreOut::Switched;
        }
        if lists(&self.traits.repeatable, before.report) && !from_replay {
            self.repeat_action = before.as_replay();
        }
        let mut c = cmd;
        if !selecting && c.verb.is_some() {
            if let Some(range) = self.editor.select_range() {
                c.motion = Some(MotionCmd(1, range));
            }
        }
        let ghost c1 = c;
        let clamp = lists(&self.traits.clamping, self.mode.report);
        self.editor.set_cursor_clamp(clamp);
        assert(self.editor == e1);
        let effect = self.fire(c, view, levels, reg);
        let ghost e2 = self.editor;
        assert(c1 == EditorCore::entry_cmd(cmd, e1));
        assert(fired(e1, e2, c1, view, levels@, reg, effect));
        if before.report == ModeReport::Visual && self.editor.select_range().is_some() {
            self.editor.stop_selecting();
        }
        if inserting {
            self.editor.mark_insert_mode_start_pos();
        } else {
            self.editor.clear_insert_mode_start_pos();
        }
        assert(EditorCore::entered(
            e1,
            self.editor,
            cmd,
            a.mode.report,
            inserting,
            view,
            levels@,
            reg,
            effect,
        ));
        CoreOut::Fired(effect)
    }

    /// The command that repeats the last search for a character.
    pub open spec fn search_again(self, cmd: EditCmd, c: EditCmd) -> bool {
        let n = (cmd.motion->0).0;
        let back = (cmd.motion->0).1 is RepeatMotionRev;
        &&& c.verb == cmd.verb
        &&& c.register.named() == None::<char>
        &&& c.register.counted() == 1
        &&& !c.register.appends()
        &&& c.flags == CmdFlags::none()
        &&& c.motion is Some
        &&& if back {
            &&& (c.motion->0).0 == n
            &&& (self.repeat_motion->0).1 matches Motion::CharSearch(d, e, g) && (
            (c.motion->0).1 matches Motion::CharSearch(d1, e1, g1) && d1 == editcmd::opposite(d)
                && e1 == e && g1@ == g@)
            &&& c.raw_seq@ == text::decimal(n as nat).push(',')
        } else {
            &&& editcmd::same_motion_cmd(c.motion, self.repeat_motion)
            &&& c.raw_seq@ == text::decimal(n as nat).push(';')
        }
    }

    /// What can be repeated is a search for a character.
    pub open spec fn wf(self) -> bool {
        &&& self.editor.wf()
        &&& self.repeat_motion is Some ==> (self.repeat_motion->0).1 is CharSearch
    }

    fn motion_again(&self, cmd: EditCmd) -> (r: Option<EditCmd>)
        requires
            self.wf(),
            cmd.motion is Some,
        ensures
            r is Some <==> self.repeat_motion is Some,
            r is Some ==> self.search_again(cmd, r->0),
    {
        let m = match &self.repeat_motion {
            None => {
                return None;
            },
            Some(m) => m.clone(),
        };
        let (count, back): (usize, bool) = match &cmd.motion {
            Some(MotionCmd(n, Motion::RepeatMotionRev)) => (*n, true),
            Some(MotionCmd(n, _)) => (*n, false),
            None => (1, false),
        };
        let mut raw_seq = decimal_string(count);
        let motion = if back {
            raw_seq.push(',');
            let inv = m.invert_char_motion();
            MotionCmd(count, inv.1)
        } else {
            raw_seq.push(';');
            m
        };
        Some(
            EditCmd {
                register: RegisterName::default(),
                verb: cmd.verb,
                motion: Some(motion),
                raw_seq,
                flags: CmdFlags::empty(),
            },
        )
    }

    /// The command that is noted to be repeated: while selecting, on something
    /// of the shape of the selection.
    pub open spec fn shaped(self, cmd: EditCmd, shape: Option<Motion>) -> EditCmd {
        if self.mode.report == ModeReport::Visual && !self.leaves_first() && shape is Some {
            EditCmd { motion: Some(MotionCmd(1, shape->0)), ..cmd }
        } else {
            cmd
        }
    }

    /// What a command that does not change the mode makes of the editor.
    pub open spec fn done_plainly(
        a: EditorCore,
        b: EditorCore,
        cmd: EditCmd,
        from_replay: bool,
        shape: Option<Motion>,
        view: Viewport,
        levels: Seq<(usize, usize)>,
        reg: Option<RegisterContent>,
        r: CoreOut,
    ) -> bool {
        &&& r is Fired
        &&& b.traits == a.traits
        &&& b.needs_redraw
        &&& b.shell_cmd_ran == (a.shell_cmd_ran || runs_shell(cmd))
        &&& if cmd.verb_is(|v: Verb| editcmd::repeatable(v)) && !from_replay {
            b.repeat_action matches Some(CmdReplay::Single(c)) && editcmd::same_cmd(
                c,
                a.shaped(cmd, shape),
            )
        } else {
            b.repeat_action == a.repeat_action
        }
        &&& if cmd.motion_is(|m: Motion| m is CharSearch) {
            editcmd::same_motion_cmd(b.repeat_motion, cmd.motion)
        } else {
            b.repeat_motion == a.repeat_motion
        }
        &&& exists|e: LineBuf| #[trigger]
            fired(a.plain_start(), e, cmd, view, levels, reg, r->Fired_0) && a.plain_end(b, cmd, e)
    }

    /// Whether a selection without a range is left.
    pub open spec fn leaves_first(self) -> bool {
        self.mode.report == ModeReport::Visual && selected(self.editor) is None
    }

    /// The buffer before a command that does not change the mode.
    pub open spec fn plain_start(self) -> LineBuf {
        if self.leaves_first() {
            clamped(unselected(self.editor), self.clamps(ModeReport::Normal))
        } else {
            self.editor
        }
    }

    /// The editor after a command that does not change the mode has made a
    /// buffer of its own.
    pub open spec fn plain_end(self, b: EditorCore, cmd: EditCmd, e: LineBuf) -> bool {
        let m1 = if self.leaves_first() {
            ModeReport::Normal
        } else {
            self.mode.report
        };
        let ends = m1 == ModeReport::Visual && ends_selection(cmd);
        let m2 = if ends {
            ModeReport::Normal
        } else {
            m1
        };
        let e3 = if ends {
            clamped(unselected(e), self.clamps(ModeReport::Normal))
        } else {
            e
        };
        let e4 = if m2 != ModeReport::Visual && selected(e3) is Some {
            unselected(e3)
        } else {
            e3
        };
        &&& b.mode_changed == (self.mode_changed || self.leaves_first() || ends
            || cmd.flags.exit_cur_mode)
        &&& if cmd.flags.exit_cur_mode {
            &&& b.editor == clamped(e4, self.clamps(b.mode.report))
            &&& if passing(m2) && self.saved_mode is Some {
                b.mode == self.saved_mode->0 && b.saved_mode is None
            } else {
                b.mode.fresh(ModeReport::Normal, 0) && b.saved_mode == self.saved_mode
            }
        } else {
            &&& b.editor == e4
            &&& b.saved_mode == self.saved_mode
            &&& if self.leaves_first() || ends {
                b.mode.fresh(ModeReport::Normal, 0)
            } else {
                b.mode == self.mode
            }
        }
    }

    fn exec_plainly(
        &mut self,
        cmd: EditCmd,
        from_replay: bool,
        shape: Option<Motion>,
        view: Viewport,
        levels: &[(usize, usize)],
        reg: Option<RegisterContent>,
    ) -> (r: CoreOut)
        ensures
            old(self).wf() ==> final(self).wf(),
            EditorCore::done_plainly(
                *old(self),
                *final(self),
                cmd,
                from_replay,
                shape,
                view,
                levels@,
                reg,
                r,
            ),
    {
        let ghost a = *self;
        if self.mode.report == ModeReport::Visual && self.editor.select_range().is_none() {
            self.editor.stop_selecting();
            self.reset_mode();
        }
        let ghost e1 = self.editor;
        assert(e1 == a.plain_start());
        if cmd.is_repeatable() && !from_replay {
            let mut again = cmd.clone();
            if self.mode.report == ModeReport::Visual {
                if let Some(m) = shape {
                    again.motion = Some(MotionCmd(1, m));
                }
            }
            self.repeat_action = Some(CmdReplay::Single(again));
        }
        if cmd.is_char_search() {
            self.repeat_motion = match &cmd.motion {
                Some(m) => Some(m.clone()),
                None => None,
            };
        }
        let edits: bool = match &cmd.verb {
            Some(v) => v.1.is_edit() || match &v.1 {
                Verb::Yank => true,
                _ => false,
            },
            None => false,
        };
        let exits: bool = cmd.flags.exit_cur_mode;
        let effect = self.fire(cmd, view, levels, reg);
        assert(fired(e1, self.editor, cmd, view, levels@, reg, effect));
        self.end_plainly(edits, exits, Ghost(a), Ghost(cmd));
        CoreOut::Fired(effect)
    }

    fn end_plainly(
        &mut self,
        edits: bool,
        exits: bool,
        Ghost(a): Ghost<EditorCore>,
        Ghost(cmd): Ghost<EditCmd>,
    )
        requires
            edits == ends_selection(cmd),
            exits == cmd.flags.exit_cur_mode,
            old(self).traits == a.traits,
            old(self).saved_mode == a.saved_mode,
            old(self).mode_changed == (a.mode_changed || a.leaves_first()),
            if a.leaves_first() {
                old(self).mode.fresh(ModeReport::Normal, 0)
            } else {
                old(self).mode == a.mode
            },
        ensures
            old(self).editor.wf() ==> final(self).editor.wf(),
            a.plain_end(*final(self), cmd, old(self).editor),
            final(self).traits == a.traits,
            final(self).repeat_action == old(self).repeat_action,
            final(self).repeat_motion == old(self).repeat_motion,
            final(self).needs_redraw == old(self).needs_redraw,
            final(self).shell_cmd_ran == old(self).shell_cmd_ran,
    {
        if self.mode.report == ModeReport::Visual && edits {
            self.editor.stop_selecting();
            self.reset_mode();
        }
        if self.mode.report != ModeReport::Visual && self.editor.select_range().is_some() {
            self.editor.stop_selecting();
        }
        if exits {
            let next = if self.mode.report == ModeReport::Ex || self.mode.report
                == ModeReport::Verbatim {
                match self.saved_mode.take() {
                    Some(m) => m,
                    None => Mode::new(ModeReport::Normal, 0),
                }
            } else {
                Mode::new(ModeReport::Normal, 0)
            };
            let _ = self.swap_mode(next);
        }
    }

    /// What a command makes of the editor.
    pub open spec fn done(
        a: EditorCore,
        b: EditorCore,
        cmd: EditCmd,
        from_replay: bool,
        shape: Option<Motion>,
        view: Viewport,
        levels: Seq<(usize, usize)>,
        reg: Option<RegisterContent>,
        r: CoreOut,
    ) -> bool {
        let c = on_selection(cmd, a.editor);
        match cmd.verb {
            Some(VerbCmd(_, Verb::Normal(s))) => b == a && (r matches CoreOut::NormalKeys(t, row)
                && t@ == s@ && row == a.editor.cursor.pos.row),
            Some(VerbCmd(_, Verb::Quit)) => b == a && r is Nothing,
            _ => if c.changes_mode() {
                EditorCore::transitioned(a, b, c, from_replay, view, levels, reg, r)
            } else if c.verb_is(|v: Verb| v is RepeatLast) {
                b == a && (r matches CoreOut::Replay(s) && same_steps(
                    s@,
                    replay_plan(a.repeat_action, (c.verb->0).0, a.mode.report),
                ))
            } else if c.motion_is(|m: Motion| m is RepeatMotion || m is RepeatMotionRev) {
                if a.repeat_motion is None {
                    b == a && r is Nothing
                } else {
                    r is Fired && exists|d: EditCmd|
                        #![trigger a.search_again(c, d)]
                        a.search_again(c, d) && fired(
                            a.editor,
                            b.editor,
                            d,
                            view,
                            levels,
                            reg,
                            r->Fired_0,
                        ) && b == (EditorCore {
                            editor: b.editor,
                            needs_redraw: true,
                            shell_cmd_ran: a.shell_cmd_ran || runs_shell(c),
                            ..a
                        })
                }
            } else {
                EditorCore::done_plainly(a, b, c, from_replay, shape, view, levels, reg, r)
            },
        }
    }

    /// Carries out a command: on the buffer, on the modes, or again. The shape
    /// of the selection is what a repetition of the command works on.
    pub fn exec_cmd(
        &mut self,
        cmd: EditCmd,
        from_replay: bool,
        shape: Option<Motion>,
        view: Viewport,
        levels: &[(usize, usize)],
        reg: Option<RegisterContent>,
    ) -> (r: CoreOut)
        requires
            old(self).wf(),
            cmd.changes_mode() ==> old(self).leads(cmd),
        ensures
            final(self).wf(),
            EditorCore::done(
                *old(self),
                *final(self),
                cmd,
                from_replay,
                shape,
                view,
                levels@,
                reg,
                r,
            ),
    {
        let ghost a = *self;
        match &cmd.verb {
            Some(VerbCmd(_, Verb::Normal(s))) => {
                return CoreOut::NormalKeys(s.clone(), self.editor.cursor.pos.row);
            },
            Some(VerbCmd(_, Verb::Quit)) => {
                return CoreOut::Nothing;
            },
            _ => {},
        }
        let mut c = cmd;
        if c.verb.is_some() {
            if let Some(range) = self.editor.select_range() {
                c.motion = Some(MotionCmd(1, range));
            }
        }
        assert(c == on_selection(cmd, a.editor));
        if c.is_mode_transition() {
            assert(target(c, a.mode.report, a.saved_report()) == target(
                cmd,
                a.mode.report,
                a.saved_report(),
            ));
            return self.exec_mode_transition(c, from_replay, view, levels, reg);
        }
        if c.is_cmd_repeat() {
            let count: usize = match &c.verb {
                Some(v) => v.0,
                None => 1,
            };
            return CoreOut::Replay(plan_replay(&self.repeat_action, count, self.mode.report));
        }
        if c.is_motion_repeat() {
            let ghost c0 = c;
            return match self.motion_again(c) {
                None => CoreOut::Nothing,
                Some(d) => {
                    assert(a.search_again(c0, d));
                    CoreOut::Fired(self.fire(d, view, levels, reg))
                },
            };
        }
        self.exec_plainly(c, from_replay, shape, view, levels, reg)
    }

    /// Whether a command can be carried out: one that leaves a mode leads somewhere.
    pub fn can_exec(&self, cmd: &EditCmd) -> (r: bool)
        ensures
            r == (cmd.changes_mode() ==> self.leads(*cmd)),
    {
        if !cmd.is_mode_transition() {
            return true;
        }
        let saved = match &self.saved_mode {
            Some(m) => Some(m.report),
            None => None,
        };
        match find_target(cmd, self.mode.report, saved) {
            Target::Nowhere => false,
            _ => true,
        }
    }

    /// Does a step of a repetition.
    pub fn replay_step(
        &mut self,
        step: ReplayStep,
        shape: Option<Motion>,
        view: Viewport,
        levels: &[(usize, usize)],
        reg: Option<RegisterContent>,
    ) -> (r: CoreOut)
        requires
            old(self).wf(),
            step matches ReplayStep::Exec(c) ==> c.changes_mode() ==> old(self).leads(c),
        ensures
            final(self).wf(),
            match step {
                ReplayStep::Exec(c) => EditorCore::done(
                    *old(self),
                    *final(self),
                    c,
                    true,
                    shape,
                    view,
                    levels@,
                    reg,
                    r,
                ),
                ReplayStep::Fire(c) => {
                    &&& r is Fired
                    &&& fired(
                        old(self).editor,
                        final(self).editor,
                        c,
                        view,
                        levels@,
                        reg,
                        r->Fired_0,
                    )
                    &&& *final(self) == (EditorCore {
                        editor: final(self).editor,
                        needs_redraw: true,
                        shell_cmd_ran: old(self).shell_cmd_ran || runs_shell(c),
                        ..*old(self)
                    })
                },
                ReplayStep::StartMerge | ReplayStep::StopMerge => {
                    &&& r is Nothing
                    &&& exec::steps(final(self).editor.undo_stack@) == exec::with_merging(
                        exec::steps(old(self).editor.undo_stack@),
                        step is StartMerge,
                    )
                    &&& *final(self) == (EditorCore {
                        editor: LineBuf {
                            undo_stack: final(self).editor.undo_stack,
                            ..old(self).editor
                        },
                        ..*old(self)
                    })
                },
                ReplayStep::SetMode(m) => {
                    &&& r is Nothing
                    &&& final(self).mode.fresh(m, 0)
                    &&& *final(self) == (EditorCore { mode: final(self).mode, ..*old(self) })
                },
            },
    {
        match step {
            ReplayStep::Exec(c) => self.exec_cmd(c, true, shape, view, levels, reg),
            ReplayStep::Fire(c) => CoreOut::Fired(self.fire(c, view, levels, reg)),
            ReplayStep::StartMerge => {
                self.merge_undo(true);
                CoreOut::Nothing
            },
            ReplayStep::StopMerge => {
                self.merge_undo(false);
                CoreOut::Nothing
            },
            ReplayStep::SetMode(m) => {
                self.set_mode(m);
                CoreOut::Nothing
            },
        }
    }

    /// The editor when its mode takes a key.
    pub open spec fn readied(self) -> EditorCore {
        EditorCore { editor: clamped(self.editor, self.clamps(self.mode.report)), ..self }
    }

    /// Takes a key of which the mode has made a command, or nothing yet.
    pub fn feed_key(
        &mut self,
        cmd: Option<EditCmd>,
        shape: Option<Motion>,
        view: Viewport,
        levels: &[(usize, usize)],
        reg: Option<RegisterContent>,
    ) -> (r: Option<CoreOut>)
        requires
            old(self).wf(),
            cmd is Some && (cmd->0).changes_mode() ==> old(self).leads(cmd->0),
        ensures
            final(self).wf(),
            match cmd {
                None => r is None && *final(self) == old(self).readied(),
                Some(c) => r is Some && EditorCore::done(
                    old(self).readied(),
                    *final(self),
                    c,
                    false,
                    shape,
                    view,
                    levels@,
                    reg,
                    r->0,
                ),
            },
    {
        let clamp = lists(&self.traits.clamping, self.mode.report);
        self.editor.set_cursor_clamp(clamp);
        match cmd {
            None => None,
            Some(c) => Some(self.exec_cmd(c, false, shape, view, levels, reg)),
        }
    }

    /// The key that ends a command line or a search, where one is being typed.
    pub fn submit_cmdline(&self) -> (r: Option<KeyEvent>)
        ensures
            r == (if self.mode.report == ModeReport::Ex || self.mode.report == ModeReport::Search
                || self.mode.report == ModeReport::RevSearch {
                Some(KeyEvent(KeyCode::Enter, ModKeys::of(false, false, false)))
            } else {
                None
            }),
    {
        match self.mode.report {
            ModeReport::Ex => Some(KeyEvent(KeyCode::Enter, ModKeys::empty())),
            ModeReport::Search => Some(KeyEvent(KeyCode::Enter, ModKeys::empty())),
            ModeReport::RevSearch => Some(KeyEvent(KeyCode::Enter, ModKeys::empty())),
            _ => None,
        }
    }
}

} // verus!
