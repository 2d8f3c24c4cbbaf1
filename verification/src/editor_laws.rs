//! How the editor goes from mode to mode, what it does again, and what a line comes to.

use crate::complete::candidate::Candidate;
use crate::editcmd::EditCmd;
use crate::editcmd::Motion;
use crate::editcmd::MotionCmd;
use crate::editcmd::Verb;
use crate::editcmd::VerbCmd;
use crate::editmode::CmdReplay;
use crate::editmode::ModeReport;
use crate::editor;
use crate::editor::CoreOut;
use crate::editor::EditorCore;
use crate::editor::ReplayStep;
use crate::history;
use crate::history::History;
use crate::keys::KeyCode;
use crate::keys::KeyEvent;
use crate::keys::ModKeys;
use crate::linebuf::buffer;
use crate::linebuf::buffer::LineBuf;
use crate::linebuf::buffer::Viewport;
use crate::linebuf::exec;
use crate::linebuf::lines;
use crate::linebuf::pos::Pos;
use crate::linebuf::pos::SelectMode;
use crate::lineedit::MacroPlay;
use crate::lineedit;
use crate::lineedit::AfterCmd;
use crate::lineedit::KeyUse;
use crate::lineedit::LineCmd;
use crate::lineedit::Request;
use crate::register::Held;
use crate::register::RegisterContent;
use crate::text;
use vstd::prelude::*;

verus! {

/// The verbs that change the mode lead to the mode they name, from any mode that is not
/// for one command only.
pub proof fn verbs_lead_to_their_mode(
    a: EditorCore,
    b: EditorCore,
    cmd: EditCmd,
    from_replay: bool,
    view: Viewport,
    levels: Seq<(usize, usize)>,
    reg: Option<RegisterContent>,
    r: CoreOut,
    v: Verb,
)
    requires
        EditorCore::transitioned(a, b, cmd, from_replay, view, levels, reg, r),
        cmd.verb matches Some(VerbCmd(_, w)) && w == v,
        a.mode.report != ModeReport::Ex && a.mode.report != ModeReport::Verbatim,
    ensures
        b.mode_changed,
        v is InsertMode || v is Change || v is InsertModeLineBreak ==> b.mode.report
            == ModeReport::Insert,
        v is NormalMode ==> b.mode.report == ModeReport::Normal,
        v is ReplaceMode ==> b.mode.report == ModeReport::Replace,
        v is VisualMode || v is VisualModeLine || v is VisualModeSelectLast ==> b.mode.report
            == ModeReport::Visual,
        v is VerbatimMode ==> b.mode.report == ModeReport::Verbatim && b.saved_mode == Some(
            a.mode,
        ),
        v is ExMode ==> b.mode.report == ModeReport::Ex && b.saved_mode == Some(a.mode),
        v is SearchMode ==> b.mode.report == ModeReport::Search,
        v is RevSearchMode ==> b.mode.report == ModeReport::RevSearch,
{
}

/// A selection begins at the cursor: by characters in the visual mode, by whole lines in
/// the mode for lines.
pub proof fn selections_begin_at_the_cursor(b: LineBuf, cmd: EditCmd, mode: ModeReport, saved: Option<ModeReport>)
    requires
        mode != ModeReport::Ex && mode != ModeReport::Verbatim,
    ensures
        cmd.verb matches Some(VerbCmd(_, v)) ==> {
            &&& v is VisualMode ==> editor::leaving(b, cmd, mode, saved) == (LineBuf {
                select_mode: Some(SelectMode::Char(b.cursor.pos)),
                ..b
            })
            &&& v is VisualModeLine ==> editor::leaving(b, cmd, mode, saved) == (LineBuf {
                select_mode: Some(SelectMode::Line(b.cursor.pos)),
                ..b
            })
            &&& v is InsertMode || v is NormalMode || v is ExMode ==> editor::leaving(
                b,
                cmd,
                mode,
                saved,
            ) == b
        },
{
}

/// What is selected when the visual mode is left is selected no more, and can be selected
/// again; where inserting begins its place is noted.
pub proof fn selections_end_with_their_mode(b: LineBuf, before: ModeReport, m: SelectMode)
    requires
        b.select_mode == Some(m),
    ensures
        before == ModeReport::Visual ==> {
            let c = editor::settled(b, before, false);
            &&& c.select_mode is None
            &&& c.last_selection matches Some(s) && s.0 == m
            &&& c.text() == b.text() && c.cursor == b.cursor
            &&& c.insert_mode_start_pos is None
        },
        editor::settled(b, before, true).insert_mode_start_pos == Some(b.cursor.pos),
{
}

/// A verb works on what is selected, where something is, and else on its own motion.
pub proof fn verbs_work_on_the_selection(cmd: EditCmd, b: LineBuf)
    ensures
        cmd.verb is Some ==> match b.select_mode {
            None => editor::on_selection(cmd, b) == cmd,
            Some(_) => {
                let c = editor::on_selection(cmd, b);
                &&& c.verb == cmd.verb
                &&& c.motion matches Some(MotionCmd(1, m)) && Some(m) == buffer::selected_range(
                    b.select_mode,
                    b.cursor.pos,
                )
            },
        },
        cmd.verb is None ==> editor::on_selection(cmd, b) == cmd,
{
}

/// An edit of what is selected ends the selection and the visual mode; so does a copy. A
/// motion ends neither.
pub proof fn edits_end_the_selection(a: EditorCore, b: EditorCore, cmd: EditCmd, e: LineBuf)
    requires
        a.plain_end(b, cmd, e),
        a.mode.report == ModeReport::Visual,
        a.editor.select_mode is Some,
        !cmd.flags.exit_cur_mode,
    ensures
        cmd.verb matches Some(VerbCmd(_, v)) ==> {
            &&& v is Delete || v is Yank || v is ToUpper || v is ToLower || v is Indent
                || v is Dedent || v is Put || v is ReplaceChar ==> b.mode.report
                == ModeReport::Normal && b.editor.select_mode is None
        },
        cmd.verb is None ==> b.mode == a.mode && b.editor == e,
{
}

/// The last command is done again as it was; with a count of its own it is done with that.
pub proof fn single_commands_are_repeated(cmd: EditCmd, count: usize, mode: ModeReport)
    ensures
        count <= 1 ==> editor::replay_plan(Some(CmdReplay::Single(cmd)), count, mode) == seq![
            ReplayStep::Fire(cmd),
        ],
        count > 1 && cmd.verb is Some ==> {
            let p = editor::replay_plan(Some(CmdReplay::Single(cmd)), count, mode);
            &&& p.len() == 1
            &&& p[0] matches ReplayStep::Fire(c) && c.verb == Some(
                VerbCmd(count, (cmd.verb->0).1),
            ) && (cmd.motion matches Some(m) ==> c.motion == Some(MotionCmd(1, m.1)))
                && c.register == cmd.register && c.flags == cmd.flags
        },
        editor::replay_plan(None, count, mode).len() == 0,
{
}

/// How many of some steps carry out a command.
pub open spec fn carried_out(s: Seq<ReplayStep>) -> int
    decreases s.len(),
{
    if s.len() == 0 {
        0
    } else {
        carried_out(s.drop_last()) + (if s.last() is Exec {
            1int
        } else {
            0
        })
    }
}

proof fn lemma_carried_add(a: Seq<ReplayStep>, b: Seq<ReplayStep>)
    ensures
        carried_out(a + b) == carried_out(a) + carried_out(b),
    decreases b.len(),
{
    if b.len() > 0 {
        lemma_carried_add(a, b.drop_last());
        assert((a + b).drop_last() =~= a + b.drop_last());
        assert((a + b).last() == b.last());
    } else {
        assert(a + b =~= a);
    }
}

proof fn lemma_round(cmds: Seq<EditCmd>, n: int)
    requires
        0 <= n <= cmds.len(),
    ensures
        carried_out(editor::round(cmds, n)) == n,
    decreases n,
{
    if n > 0 {
        lemma_round(cmds, n - 1);
        let i = editor::round(cmds, n - 1);
        let s = i.push(ReplayStep::Exec(cmds[n - 1]));
        assert(s.drop_last() =~= i);
        assert(s.push(ReplayStep::StartMerge).drop_last() =~= s);
        assert(carried_out(s) == n);
    }
}

/// What was typed in a mode is typed again as often as it is asked for, each time all of
/// it.
pub proof fn rounds_carry_out_all(cmds: Seq<EditCmd>, mode: ModeReport, n: nat)
    ensures
        carried_out(editor::rounds(cmds, mode, n)) == n * cmds.len(),
    decreases n,
{
    if n > 0 {
        rounds_carry_out_all(cmds, mode, (n - 1) as nat);
        let r = editor::rounds(cmds, mode, (n - 1) as nat);
        let o = editor::round(cmds, cmds.len() as int);
        lemma_round(cmds, cmds.len() as int);
        lemma_carried_add(r, o);
        let s = (r + o).push(ReplayStep::StopMerge);
        assert(s.drop_last() =~= r + o);
        assert(s.push(ReplayStep::SetMode(mode)).drop_last() =~= s);
        assert(carried_out(s) == carried_out(r + o));
        assert(carried_out(s.push(ReplayStep::SetMode(mode))) == carried_out(s));
        let k = cmds.len() as int;
        let m = n as int;
        assert(m * k == (m - 1) * k + k) by (nonlinear_arith);
        assert(n * cmds.len() == m * k);
        assert(((n - 1) as nat) * cmds.len() == (m - 1) * k);
    } else {
        let k = cmds.len() as int;
        assert(0 * k == 0) by (nonlinear_arith);
        assert(n * cmds.len() == 0 * k);
    }
}

/// A count before the repetition takes the place of the one that was given.
pub proof fn counts_of_repetitions(cmds: Vec<EditCmd>, repeat: u16, count: usize, mode: ModeReport)
    requires
        count <= u16::MAX,
    ensures
        carried_out(
            editor::replay_plan(Some(CmdReplay::ModeReplay { cmds, repeat }), count, mode),
        ) == (if count > 1 {
            count * cmds@.len()
        } else {
            repeat * cmds@.len()
        }),
{
    rounds_carry_out_all(
        cmds@,
        mode,
        if count > 1 {
            count as nat
        } else {
            repeat as nat
        },
    );
}

/// A comma searches in the other direction for the same, as far as before; a semicolon as
/// before.
pub proof fn searches_are_repeated(a: EditorCore, cmd: EditCmd, c: EditCmd)
    requires
        a.search_again(cmd, c),
        cmd.motion is Some,
        a.repeat_motion matches Some(MotionCmd(_, Motion::CharSearch(_, _, _))),
    ensures
        c.verb == cmd.verb,
        (cmd.motion->0).1 is RepeatMotionRev ==> ({
            &&& (a.repeat_motion->0).1 matches Motion::CharSearch(d, e, g)
            &&& (c.motion->0).1 matches Motion::CharSearch(d1, e1, g1)
            &&& d1 != d && e1 == e && g1@ == g@
        }),
        (cmd.motion->0).1 is RepeatMotion ==> ({
            &&& (a.repeat_motion->0).1 matches Motion::CharSearch(d, e, g)
            &&& (c.motion->0).1 matches Motion::CharSearch(d1, e1, g1)
            &&& d1 == d && e1 == e && g1@ == g@
        }),
{
}

/// Enter ends the line in normal mode; else a line that is open, or that cannot be read,
/// goes on in another row, and so does one with a backslash before the cursor while typing.
pub proof fn whole_lines_are_submitted(mode: ModeReport, escaped: bool, depth: usize, failed: bool)
    ensures
        mode == ModeReport::Normal ==> lineedit::submits(mode, escaped, depth, failed),
        mode != ModeReport::Normal && (depth > 0 || failed) ==> !lineedit::submits(
            mode,
            escaped,
            depth,
            failed,
        ),
        escaped && (mode == ModeReport::Insert || mode == ModeReport::Emacs) ==> !lineedit::submits(
            mode,
            escaped,
            depth,
            failed,
        ),
        depth == 0 && !failed && !escaped ==> lineedit::submits(mode, escaped, depth, failed),
{
}

/// A Tab completes behind what is typed and is typed before it; the right arrow at the end
/// takes the hint in; Ctrl-R searches the history while typing. Other keys go to the mode.
pub proof fn keys_have_their_use(b: LineBuf, mode: ModeReport, waiting: bool, key: KeyEvent)
    requires
        b.hint is None,
    ensures
        key.0 is Tab && !lineedit::in_leading_space(b) ==> lineedit::key_use(b, mode, waiting, key)
            == KeyUse::Complete,
        key.0 is Tab && lineedit::in_leading_space(b) ==> lineedit::key_use(b, mode, waiting, key)
            == KeyUse::Mode,
        key == KeyEvent(KeyCode::Char('r'), ModKeys::of(true, false, false)) ==> (
        lineedit::key_use(b, mode, waiting, key) == KeyUse::HistSearch <==> (mode
            == ModeReport::Emacs || mode == ModeReport::Insert || mode == ModeReport::Ex)),
        key.1 == ModKeys::of(false, false, false) && !(key.0 is Tab) ==> lineedit::key_use(
            b,
            mode,
            waiting,
            key,
        ) == KeyUse::Mode,
        lineedit::key_use(b, mode, waiting, key) != KeyUse::AppendHint,
{
}

/// At the end of the text the right arrow takes the hint in, in every mode in which there
/// is one; in normal mode an l does so too.
pub proof fn hints_are_taken_by_the_right_arrow(b: LineBuf, mode: ModeReport, waiting: bool)
    requires
        lineedit::before_hint(b),
        mode == ModeReport::Insert || mode == ModeReport::Emacs || mode == ModeReport::Normal
            || mode == ModeReport::Visual || mode == ModeReport::Replace,
    ensures
        lineedit::key_use(
            b,
            mode,
            waiting,
            KeyEvent(KeyCode::Right, ModKeys::of(false, false, false)),
        ) == KeyUse::AppendHint,
        lineedit::key_use(
            b,
            mode,
            false,
            KeyEvent(KeyCode::Char('l'), ModKeys::of(false, false, false)),
        ) == KeyUse::AppendHint <==> (mode == ModeReport::Normal || mode == ModeReport::Visual),
{
}

/// Up in the first row and down in the last one go through the history, where a verb does
/// not stand before; in between they move the cursor.
pub proof fn edges_lead_to_the_history(cmd: EditCmd, b: LineBuf, n: usize)
    requires
        cmd.verb is None,
        !cmd.flags.has_shift && !cmd.flags.has_ctrl,
    ensures
        cmd.motion == Some(MotionCmd(n, Motion::LineUp)) ==> (lineedit::grabs(cmd, b, false, false)
            <==> b.cursor.pos.row == 0),
        cmd.motion == Some(MotionCmd(n, Motion::LineDown)) && b.text().len() > 0 ==> (
        lineedit::grabs(cmd, b, false, false) <==> b.cursor.pos.row == b.text().len() - 1),
        cmd.motion == Some(MotionCmd(n, Motion::LineUp)) ==> lineedit::scroll_offset(cmd) == -n,
        cmd.motion == Some(MotionCmd(n, Motion::LineDown)) ==> lineedit::scroll_offset(cmd) == n,
{
}

/// The commands for the history go up and down in it by their counts.
pub proof fn history_commands_count(cmd: EditCmd, b: LineBuf, n: usize)
    ensures
        cmd.verb == Some(VerbCmd(n, Verb::HistoryUp)) ==> lineedit::grabs(cmd, b, false, false)
            && lineedit::scroll_offset(cmd) == -n,
        cmd.verb == Some(VerbCmd(n, Verb::HistoryDown)) ==> lineedit::grabs(cmd, b, false, false)
            && lineedit::scroll_offset(cmd) == n,
{
}

/// Enter submits the line, the end of the input ends reading where the line is empty and
/// deletes where it is not, and an interrupt resets before all else.
pub proof fn lines_are_dealt_with(
    cmd: EditCmd,
    req: Request,
    b: LineBuf,
    empty: bool,
    open_file: bool,
    r: LineCmd,
    n: usize,
)
    requires
        lineedit::resolved(cmd, req, b, empty, false, open_file, r),
        req.normal is None,
        cmd.motion is None,
    ensures
        req.interrupt ==> r is ResetWidget,
        !req.interrupt && cmd.verb == Some(VerbCmd(n, Verb::AcceptLineOrNewline)) ==> r
            == LineCmd::SubmitLine(cmd),
        !req.interrupt && cmd.verb == Some(VerbCmd(n, Verb::DeleteOrEof)) && empty ==> r
            is EndOfFile,
        !req.interrupt && cmd.verb == Some(VerbCmd(n, Verb::DeleteOrEof)) && !empty ==> (
        r matches LineCmd::Execute(c) && c.verb == Some(VerbCmd(n, Verb::Delete)) && c.motion
            == cmd.motion),
        !req.interrupt && cmd.verb == Some(VerbCmd(n, Verb::EndOfFile)) && empty ==> r
            is EndOfFile,
        !req.interrupt && cmd.verb == Some(VerbCmd(n, Verb::ClearScreen)) ==> r is ClearScreen,
        !req.interrupt && cmd.verb == Some(VerbCmd(n, Verb::Delete)) && !req.quit
            && !req.write_quit && !req.accept_hint ==> r == LineCmd::Execute(cmd),
        !req.interrupt && cmd.verb is None && req.quit && !open_file ==> r is Quit,
        !req.interrupt && cmd.verb is None && !req.quit && req.write_quit && open_file ==> r
            is WriteQuit,
{
}

/// A command that is to change the line and does not rings the bell; one that changes it
/// does not.
pub proof fn the_bell_rings_where_nothing_changes(counter: usize, cmd: EditCmd, b: LineBuf, text: Seq<char>, at: Pos)
    ensures
        lineedit::shown_text(b) != text ==> lineedit::answered(counter, cmd, b, text, at).0
            == AfterCmd::Changed,
        lineedit::shown_text(b) == text && (cmd.verb matches Some(VerbCmd(_, v)) && (v is Delete
            || v is Put || v is JoinLines || v is ToUpper)) ==> lineedit::answered(
            counter,
            cmd,
            b,
            text,
            at,
        ).0 == AfterCmd::Bell,
        lineedit::shown_text(b) == text && cmd.verb is None && cmd.motion is None
            ==> lineedit::answered(counter, cmd, b, text, at) == (AfterCmd::Nothing, counter),
{
}

/// What the history offers is the last of its commands that goes on from the line, where
/// the line is not one of them and is not empty.
pub proof fn the_history_offers_for_the_line(g: History)
    ensures
        g.cursor < g.search_mask@.len() ==> lineedit::offer(g) is None,
        g.pending is None ==> lineedit::offer(g) is None,
        g.cursor >= g.search_mask@.len() && g.pending is Some ==> {
            let p = history::pending_text(g.pending)->0;
            &&& p.len() == 0 ==> lineedit::offer(g) is None
            &&& p.len() > 0 ==> lineedit::offer(g) == history::hinting(
                g.entries@,
                p,
                g.entries@.len() as int,
            )
        },
{
}

/// Line breaks are written out, and everything else stays.
pub proof fn breaks_are_written_out(s: Seq<char>, n: int)
    requires
        0 <= n < s.len(),
    ensures
        lineedit::breaks_written(s, 0) == Seq::<char>::empty(),
        s[n] == '\n' ==> lineedit::breaks_written(s, n + 1) == lineedit::breaks_written(s, n)
            + seq!['\\', 'n'],
        s[n] != '\n' ==> lineedit::breaks_written(s, n + 1) == lineedit::breaks_written(s, n).push(
            s[n],
        ),
{
    assert(lineedit::breaks_written(s, n).push('\\').push('n') =~= lineedit::breaks_written(s, n)
        + seq!['\\', 'n']);
}

/// The hint goes behind the text when it is taken, and the cursor goes to the end.
pub proof fn the_hint_goes_behind_the_text(b: LineBuf, h: lines::Text)
    requires
        b.hinted() == Some(h),
        lines::text_chars(h).len() > 0,
    ensures
        lineedit::taken_text(b) == lines::attached(
            b.text(),
            lines::lines_of(lines::text_chars(h)),
        ),
{
}

/// A macro is played key by key, and a text that a register holds is typed; an empty
/// register plays nothing.
pub proof fn registers_are_played(h: Held, r: MacroPlay)
    requires
        lineedit::played(h, r),
    ensures
        h matches Held::Macro(k) ==> (r matches MacroPlay::Keys(v) && v@ == k),
        h matches Held::Span(t) ==> (r matches MacroPlay::Text(s) && s@ == lines::text_chars(t)),
        h matches Held::Line(t) ==> (r matches MacroPlay::Text(s) && s@ == lines::text_chars(t)),
        h is Empty ==> r is Nothing,
{
}

/// A plain q ends the recording of a macro, and no other key does.
pub proof fn a_q_ends_the_recording(key: KeyEvent)
    ensures
        lineedit::ends_macro(key) <==> key == KeyEvent(
            KeyCode::Char('q'),
            ModKeys::of(false, false, false),
        ),
{
}

/// In an editor without a shell, the key that deletes or ends deletes where there is text
/// and ends where there is none; up goes to the entry before and down to the one behind.
pub proof fn small_editors_settle_commands(cmd: EditCmd, b: LineBuf, n: usize)
    ensures
        cmd.verb == Some(VerbCmd(n, Verb::DeleteOrEof)) && exec::blank(b.text())
            ==> lineedit::settled_cmd(cmd, b).verb == Some(VerbCmd(n, Verb::EndOfFile)),
        cmd.verb == Some(VerbCmd(n, Verb::DeleteOrEof)) && !exec::blank(b.text())
            ==> lineedit::settled_cmd(cmd, b).verb == Some(VerbCmd(n, Verb::Delete)),
        cmd.verb is None ==> lineedit::settled_cmd(cmd, b) == cmd,
        cmd.motion == Some(MotionCmd(n, Motion::LineUp)) ==> lineedit::one_entry(cmd) == -1,
        cmd.motion == Some(MotionCmd(n, Motion::LineDown)) ==> lineedit::one_entry(cmd) == 1,
{
}

/// The cursor goes behind a candidate that was put in.
pub proof fn the_cursor_goes_behind_the_candidate(at: usize, c: Candidate)
    requires
        at + text::byte_len(c.content@) <= usize::MAX,
    ensures
        lineedit::behind(at, c) == at + text::byte_len(c.content@),
{
}

/// A candidate is told with what is known of it, or with nothing.
pub proof fn candidates_are_told_as_pairs(c: Candidate)
    ensures
        lineedit::pair_of(c).0 == c.content@,
        c.desc matches Some(d) ==> lineedit::pair_of(c).1 == d@,
        c.desc is None ==> lineedit::pair_of(c).1.len() == 0,
{
}

} // verus!
