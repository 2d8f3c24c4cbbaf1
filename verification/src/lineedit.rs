//! What the line editor does with keys and commands.

use crate::browse::scroll_history_to;
use crate::complete::candidate::Candidate;
use crate::complete::candidate::CompResponse;
use crate::complete::candidate::SelectorResponse;
use crate::complete::fuzzy;
use crate::complete::simple;
use crate::editcmd;
use crate::editcmd::EditCmd;
use crate::editcmd::Motion;
use crate::editcmd::MotionCmd;
use crate::editcmd::RegisterName;
use crate::editcmd::Verb;
use crate::editcmd::VerbCmd;
use crate::editmode::cmdline;
use crate::editmode::cmdline::offset_of;
use crate::editmode::cmdline::should_grab;
use crate::editmode::emacs;
use crate::editmode::emacs::Emacs;
use crate::editmode::ModeReport;
use crate::editor::EditorCore;
use crate::history;
use crate::history::History;
use crate::browse;
use crate::browse::browse;
use crate::keys::KeyCode;
use crate::keys::KeyEvent;
use crate::keys::ModKeys;
use crate::linebuf::bang;
use crate::linebuf::buffer;
use crate::linebuf::buffer::LineBuf;
use crate::linebuf::buffer::Viewport;
use crate::linebuf::exec;
use crate::linebuf::line;
use crate::linebuf::lines;
use crate::linebuf::lines::clone_lines;
use crate::linebuf::lines::join_lines;
use crate::linebuf::pos;
use crate::linebuf::pos::Cursor;
use crate::linebuf::pos::Pos;
use crate::linebuf::pos::SelectMode;
use crate::linebuf::render;
use crate::linebuf::verbs::Effect;
use crate::linebuf::words;
use crate::register;
use crate::register::Held;
use crate::register::RegisterContent;
use crate::register::Registers;
use crate::text;
use crate::text::bytes_up_to;
use crate::text::chars_of;
use crate::text::owned;
use crate::text::same_str;
use crate::text::string_of;
use crate::text::trim;
use vstd::prelude::*;

verus! {

/// What reading a line gives.
#[derive(Debug)]
pub enum ReadlineEvent {
    /// A whole line.
    Line(String),
    /// The end of the input.
    Eof,
    /// Nothing yet.
    Pending,
}

/// A macro that is recorded.
#[derive(Debug)]
pub enum MacroRecord {
    Idle,
    Recording(RegisterName, Vec<KeyEvent>),
}

impl MacroRecord {
    pub fn is_recording(&self) -> (r: bool)
        ensures
            r == (self is Recording),
    {
        match self {
            MacroRecord::Recording(_, _) => true,
            MacroRecord::Idle => false,
        }
    }

    /// Takes a key into the macro, if one is recorded.
    pub fn feed_key_event(&mut self, event: KeyEvent)
        ensures
            match *old(self) {
                MacroRecord::Recording(reg, keys) => *final(self) matches MacroRecord::Recording(
                    r,
                    k,
                ) && r == reg && k@ == keys@.push(event),
                MacroRecord::Idle => *final(self) is Idle,
            },
    {
        let mut m = MacroRecord::Idle;
        std::mem::swap(self, &mut m);
        if let MacroRecord::Recording(reg, mut keys) = m {
            keys.push(event);
            *self = MacroRecord::Recording(reg, keys);
        }
    }

    /// Ends the recording and writes the macro to its register.
    pub fn commit_recording(&mut self, regs: &mut Registers, as_text: &str) -> (r: Option<
        RegisterName,
    >)
        requires
            old(regs).wf(),
        ensures
            final(regs).wf(),
            *final(self) is Idle,
            match *old(self) {
                MacroRecord::Recording(reg, keys) => r == Some(reg) && reg.written(
                    *old(regs),
                    *final(regs),
                    Held::Macro(keys@),
                    Seq::empty(),
                    as_text@,
                ),
                MacroRecord::Idle => r is None && *final(regs) == *old(regs),
            },
    {
        let mut m = MacroRecord::Idle;
        std::mem::swap(self, &mut m);
        match m {
            MacroRecord::Recording(reg, keys) => {
                let none: Vec<KeyEvent> = Vec::new();
                assert(none@ =~= Seq::empty());
                reg.write_to_register(regs, RegisterContent::Macro(keys), none, as_text);
                Some(reg)
            },
            MacroRecord::Idle => None,
        }
    }

    pub fn start_recording(&mut self, reg: RegisterName)
        ensures
            *final(self) matches MacroRecord::Recording(r, k) && r == reg && k@.len() == 0,
    {
        *self = MacroRecord::Recording(reg, Vec::new());
    }

    /// What is shown while a macro is recorded.
    pub open spec fn shown(self) -> Option<Seq<char>> {
        match self {
            MacroRecord::Recording(reg, _) => match reg.named() {
                Some(c) => Some(
                    "recording "@.push(
                        if reg.appends() {
                            crate::unicode::to_upper_ascii(c)
                        } else {
                            c
                        },
                    ),
                ),
                None => None,
            },
            MacroRecord::Idle => None,
        }
    }

    pub fn status(&self) -> (r: Option<String>)
        ensures
            match self.shown() {
                Some(s) => r is Some && r->0@ == s,
                None => r is None,
            },
    {
        match self {
            MacroRecord::Recording(reg, _) => match reg.display() {
                Some(c) => {
                    let mut s = owned("recording ");
                    s.push(c);
                    Some(s)
                },
                None => None,
            },
            MacroRecord::Idle => None,
        }
    }
}

/// What becomes of a key while macros may be recorded: a `q` ends the recording.
/// Returns whether the key is used up, and the register that was written.
pub fn record_key(
    m: &mut MacroRecord,
    key: &KeyEvent,
    regs: &mut Registers,
    as_text: &str,
) -> (r: (bool, Option<RegisterName>))
    requires
        old(regs).wf(),
    ensures
        final(regs).wf(),
        r.0 == (*old(m) is Recording && ends_macro(*key)),
        r.0 ==> *final(m) is Idle && r.1 == Some(old(m)->Recording_0)
            && (old(m)->Recording_0).written(
            *old(regs),
            *final(regs),
            Held::Macro(old(m)->Recording_1@),
            Seq::empty(),
            as_text@,
        ),
        !r.0 ==> r.1 is None && *final(regs) == *old(regs),
        !r.0 && *old(m) is Recording ==> *final(m) is Recording && final(m)->Recording_0
            == old(m)->Recording_0 && final(m)->Recording_1@ == old(m)->Recording_1@.push(*key),
        *old(m) is Idle ==> *final(m) is Idle,
{
    if !m.is_recording() {
        return (false, None);
    }
    let ends: bool = match key.0 {
        KeyCode::Char('q') => key.1.is_empty(),
        _ => false,
    };
    if ends {
        let reg = m.commit_recording(regs, as_text);
        (true, reg)
    } else {
        m.feed_key_event(key.clone());
        (false, None)
    }
}

/// Whether a key ends the recording of a macro.
pub open spec fn ends_macro(key: KeyEvent) -> bool {
    key.0 == KeyCode::Char('q') && key.1 == ModKeys::of(false, false, false)
}

/// Starts to record a macro in a register, which is emptied first. Without a name
/// nothing happens. Returns whether a macro is recorded now.
pub fn start_macro(m: &mut MacroRecord, reg: RegisterName, regs: &mut Registers) -> (r: bool)
    requires
        old(regs).wf(),
    ensures
        final(regs).wf(),
        r == (reg.named() is Some),
        !r ==> *final(m) == *old(m) && *final(regs) == *old(regs),
        r ==> {
            &&& *final(m) matches MacroRecord::Recording(n, k) && n == reg && k@.len() == 0
            &&& reg.written(*old(regs), *final(regs), Held::Empty, Seq::empty(), Seq::empty())
        },
{
    if reg.is_none() {
        return false;
    }
    let none: Vec<KeyEvent> = Vec::new();
    assert(none@ =~= Seq::empty());
    proof {
        reveal_strlit("");
        assert(""@ =~= Seq::empty());
    }
    reg.write_to_register(regs, RegisterContent::Empty, none, "");
    m.start_recording(reg);
    true
}

/// What is played as a macro.
#[derive(Debug)]
pub enum MacroPlay {
    Nothing,
    Keys(Vec<KeyEvent>),
    /// A text that names keys.
    Text(String),
}

/// What the register that is played holds.
pub open spec fn played(h: Held, r: MacroPlay) -> bool {
    match h {
        Held::Macro(k) => r matches MacroPlay::Keys(v) && v@ == k,
        Held::Span(t) => r matches MacroPlay::Text(s) && s@ == lines::text_chars(t),
        Held::Line(t) => r matches MacroPlay::Text(s) && s@ == lines::text_chars(t),
        Held::Block(t) => r matches MacroPlay::Text(s) && s@ == lines::text_chars(t),
        Held::Empty => r is Nothing,
    }
}

/// What to play as a macro: what the register holds that is named, or else the one that
/// was recorded last. `pasted` is what the clipboard holds.
pub fn macro_to_play(
    reg: RegisterName,
    last: Option<RegisterName>,
    regs: &Registers,
    pasted: Option<RegisterContent>,
) -> (r: MacroPlay)
    requires
        regs.wf(),
    ensures
        ({
            let from = if reg.named() is Some {
                Some(reg)
            } else {
                last
            };
            match from {
                None => r is Nothing,
                Some(n) => match register::register_key(n.named()) {
                    None => r is Nothing,
                    Some(k) => played(
                        if register::selection_of(k) is Some && pasted is Some {
                            pasted->0@
                        } else {
                            regs.held(k)
                        },
                        r,
                    ),
                },
            }
        }),
{
    let from = if reg.is_none() {
        match last {
            Some(n) => n,
            None => {
                return MacroPlay::Nothing;
            },
        }
    } else {
        reg
    };
    match from.read_from_register(regs, pasted) {
        None => MacroPlay::Nothing,
        Some(c) => match c {
            RegisterContent::Empty => MacroPlay::Nothing,
            RegisterContent::Macro(k) => MacroPlay::Keys(k),
            RegisterContent::Span(v) => MacroPlay::Text(join_lines(v.as_slice())),
            RegisterContent::Line(v) => MacroPlay::Text(join_lines(v.as_slice())),
            RegisterContent::Block(v) => MacroPlay::Text(join_lines(v.as_slice())),
        },
    }
}

/// What was asked of the worker that completes in the background.
pub struct HintWorker {
    pub req_gen: u64,
    pub last_sent: Option<(String, usize)>,
}

impl HintWorker {
    pub fn new() -> (r: Self)
        ensures
            r.req_gen == 0,
            r.last_sent is None,
    {
        HintWorker { req_gen: 0, last_sent: None }
    }

    /// Whether a line was sent last.
    pub open spec fn sent(self, buffer: Seq<char>, cursor: usize) -> bool {
        self.last_sent is Some && (self.last_sent->0).0@ == buffer && (self.last_sent->0).1
            == cursor
    }

    /// The number of the next request.
    pub open spec fn next_gen(self) -> u64 {
        if self.req_gen == u64::MAX {
            0
        } else {
            (self.req_gen + 1) as u64
        }
    }

    /// The number under which a line is to be sent to the worker; none where it was
    /// sent last.
    pub fn dispatch_worker(&mut self, buffer: &str, cursor_pos: usize) -> (r: Option<u64>)
        ensures
            old(self).sent(buffer@, cursor_pos) ==> r is None && *final(self) == *old(self),
            !old(self).sent(buffer@, cursor_pos) ==> r == Some(old(self).next_gen())
                && final(self).req_gen == old(self).next_gen() && final(self).sent(
                buffer@,
                cursor_pos,
            ),
    {
        if let Some(s) = &self.last_sent {
            if same_str(s.0.as_str(), buffer) && s.1 == cursor_pos {
                return None;
            }
        }
        self.last_sent = Some((owned(buffer), cursor_pos));
        self.req_gen = if self.req_gen == u64::MAX {
            0
        } else {
            self.req_gen + 1
        };
        Some(self.req_gen)
    }

    /// The number under which a line is to be sent to the worker: only one with the
    /// cursor at its end, and not an empty one.
    pub fn try_comp_hint(&mut self, b: &LineBuf) -> (r: Option<u64>)
        requires
            b.wf(),
        ensures
            ({
                let at = buffer::flat_capped(b.text(), b.cursor.pos) as usize;
                let sends = at_text_end(*b) && shown_text(*b).len() > 0 && !old(self).sent(
                    shown_text(*b),
                    at,
                );
                if sends {
                    &&& r == Some(old(self).next_gen())
                    &&& final(self).req_gen == old(self).next_gen()
                    &&& final(self).sent(shown_text(*b), at)
                } else {
                    r is None && *final(self) == *old(self)
                }
            }),
    {
        if !b.cursor_at_max() {
            return None;
        }
        let t = b.to_string();
        let at: usize = b.cursor_to_flat();
        if chars_of(t.as_str()).len() == 0 {
            return None;
        }
        self.dispatch_worker(t.as_str(), at)
    }
}

/// In which modes a key map applies.
#[derive(Debug, Clone, Copy, PartialEq, Eq, Structural)]
pub struct KeyMapFlags {
    pub insert: bool,
    pub normal: bool,
    pub ex: bool,
    pub visual: bool,
    pub replace: bool,
    pub verbatim: bool,
    pub emacs: bool,
    pub remote: bool,
    /// Whether the mode waits for more keys.
    pub op_pending: bool,
}

/// The key maps that apply in a mode, while it waits for more keys or not.
pub fn curr_keymap_flags(mode: ModeReport, waiting: bool) -> (r: KeyMapFlags)
    ensures
        r == (KeyMapFlags {
            insert: mode == ModeReport::Insert,
            normal: mode == ModeReport::Normal,
            ex: mode == ModeReport::Ex,
            visual: mode == ModeReport::Visual,
            replace: mode == ModeReport::Replace,
            verbatim: mode == ModeReport::Verbatim,
            emacs: mode == ModeReport::Emacs,
            remote: mode == ModeReport::Remote,
            op_pending: waiting,
        }),
{
    KeyMapFlags {
        insert: mode == ModeReport::Insert,
        normal: mode == ModeReport::Normal,
        ex: mode == ModeReport::Ex,
        visual: mode == ModeReport::Visual,
        replace: mode == ModeReport::Replace,
        verbatim: mode == ModeReport::Verbatim,
        emacs: mode == ModeReport::Emacs,
        remote: mode == ModeReport::Remote,
        op_pending: waiting,
    }
}

/// The mode to go to where the mode does not fit the option that chooses between
/// vi and emacs.
pub fn fix_editing_mode(vi: bool, mode: ModeReport) -> (r: Option<ModeReport>)
    ensures
        r == (if vi && mode == ModeReport::Emacs {
            Some(ModeReport::Insert)
        } else if !vi && mode != ModeReport::Emacs {
            Some(ModeReport::Emacs)
        } else {
            None
        }),
{
    if vi && mode == ModeReport::Emacs {
        Some(ModeReport::Insert)
    } else if !vi && mode != ModeReport::Emacs {
        Some(ModeReport::Emacs)
    } else {
        None
    }
}

/// What is done with the keys that key maps are tried on.
#[derive(Debug, Clone, Copy, PartialEq, Eq, Structural)]
pub enum KeymapStep {
    /// No key map begins with them: they are keys by themselves.
    Drain,
    /// One key map is exactly them.
    Run,
    /// More keys are waited for.
    Wait,
}

/// What is done with the keys, where so many key maps begin with them, and the
/// first of these is exactly them or not.
pub fn keymap_step(matches: usize, first_is_exact: bool) -> (r: KeymapStep)
    ensures
        r == (if matches == 0 {
            KeymapStep::Drain
        } else if matches == 1 && first_is_exact {
            KeymapStep::Run
        } else {
            KeymapStep::Wait
        }),
{
    if matches == 0 {
        KeymapStep::Drain
    } else if matches == 1 && first_is_exact {
        KeymapStep::Run
    } else {
        KeymapStep::Wait
    }
}

/// Tries the key maps on the keys so far and one more, where so many key maps begin
/// with them, and `action` is what the first one does if it is exactly them. Returns
/// the keys that are handled now; the others wait.
pub fn handle_keymap(
    pending: &mut Vec<KeyEvent>,
    key: KeyEvent,
    matches: usize,
    action: Option<Vec<KeyEvent>>,
) -> (r: Vec<KeyEvent>)
    ensures
        matches == 0 ==> r@ == old(pending)@.push(key) && final(pending)@.len() == 0,
        matches == 1 && action is Some ==> r == action->0 && final(pending)@.len() == 0,
        matches > 1 || (matches == 1 && action is None) ==> r@.len() == 0 && final(pending)@
            == old(pending)@.push(key),
{
    pending.push(key);
    match keymap_step(matches, action.is_some()) {
        KeymapStep::Drain => {
            let mut all: Vec<KeyEvent> = Vec::new();
            std::mem::swap(pending, &mut all);
            all
        },
        KeymapStep::Run => {
            *pending = Vec::new();
            match action {
                Some(a) => a,
                None => Vec::new(),
            }
        },
        KeymapStep::Wait => Vec::new(),
    }
}

/// The keys that are handled once no more are waited for: what the key map does that
/// is exactly the keys so far, if there is one, and else these keys by themselves.
pub fn flush_pending_keymap(pending: &mut Vec<KeyEvent>, action: Option<Vec<KeyEvent>>) -> (r: Vec<
    KeyEvent,
>)
    ensures
        final(pending)@.len() == 0,
        r@ == (if old(pending)@.len() == 0 {
            Seq::empty()
        } else {
            match action {
                Some(a) => a@,
                None => old(pending)@,
            }
        }),
{
    let mut all: Vec<KeyEvent> = Vec::new();
    std::mem::swap(pending, &mut all);
    if all.len() == 0 {
        return all;
    }
    match action {
        Some(a) => a,
        None => all,
    }
}

/// Where a key goes.
#[derive(Debug, Clone, Copy, PartialEq, Eq, Structural)]
pub enum Route {
    Finder,
    Completer,
    Mode,
    Keymaps,
}

/// Where a key goes: to the search of the history, to the completer, to the mode
/// where it waits for more keys or reads a text, else to the key maps.
pub fn dispatch_key(finder: bool, completer: bool, waiting: bool, input_mode: bool) -> (r: Route)
    ensures
        r == (if finder {
            Route::Finder
        } else if completer {
            Route::Completer
        } else if waiting || input_mode {
            Route::Mode
        } else {
            Route::Keymaps
        }),
{
    if finder {
        Route::Finder
    } else if completer {
        Route::Completer
    } else if waiting || input_mode {
        Route::Mode
    } else {
        Route::Keymaps
    }
}

/// Whether there is nothing but space before the cursor.
pub open spec fn in_leading_space(b: LineBuf) -> bool {
    let row = b.text()[b.cursor.pos.row as int];
    forall|i: int|
        0 <= i < b.cursor.pos.col && i < row.len() ==> line::is_space(#[trigger] row[i])
}

/// Whether to complete: there is something before the cursor.
pub fn should_complete(b: &LineBuf) -> (r: bool)
    requires
        b.wf(),
    ensures
        r == !in_leading_space(*b),
{
    let row: usize = b.cursor.pos.row;
    let col: usize = b.cursor.pos.col;
    assert(b.text()[row as int] == b.lines@[row as int]@);
    let l = &b.lines[row];
    let mut i: usize = 0;
    while i < col && i < l.len()
        invariant
            i <= l@.len(),
            l@ == b.text()[row as int],
            row == b.cursor.pos.row,
            col == b.cursor.pos.col,
            forall|k: int| 0 <= k < i ==> line::is_space(#[trigger] l@[k]),
        decreases l@.len() - i,
    {
        if !l.at(i).is_ws() {
            assert(!line::is_space(l@[i as int]));
            return true;
        }
        i = i + 1;
    }
    false
}

/// Whether the line is whole, and not to be gone on with in another row.
pub open spec fn submits(mode: ModeReport, escaped: bool, depth: usize, failed: bool) -> bool {
    if mode == ModeReport::Normal {
        true
    } else if escaped && (mode == ModeReport::Emacs || mode == ModeReport::Insert) {
        false
    } else {
        depth == 0 && !failed
    }
}

/// Whether to run the line, where its end is so deep in what the commands open.
pub fn should_submit(b: &LineBuf, mode: ModeReport, depth: usize, failed: bool) -> (r: bool)
    requires
        b.wf(),
    ensures
        r == ({
            let row = b.text()[b.cursor.pos.row as int];
            let col = b.cursor.pos.col;
            submits(
                mode,
                0 < col <= row.len() && row[col - 1] == seq!['\\'],
                depth,
                failed,
            )
        }),
{
    if mode == ModeReport::Normal {
        return true;
    }
    if b.cursor_is_escaped() && (mode == ModeReport::Emacs || mode == ModeReport::Insert) {
        return false;
    }
    depth == 0 && !failed
}

/// Whether a key takes the hint.
pub open spec fn takes_hint(mode: ModeReport, waiting: bool, key: KeyEvent) -> bool {
    let plain = key.1 == ModKeys::of(false, false, false);
    if mode == ModeReport::Replace || mode == ModeReport::Insert || mode == ModeReport::Emacs {
        plain && key.0 is Right
    } else if mode == ModeReport::Visual || mode == ModeReport::Normal {
        plain && (key.0 is Right || (!waiting && key.0 == KeyCode::Char('l')))
    } else {
        false
    }
}

/// Whether the cursor is at the end of the text.
pub open spec fn at_text_end(b: LineBuf) -> bool {
    let t = b.text();
    let last = t.len() - 1;
    let max = if b.cursor.exclusive {
        words::last_col(t, last)
    } else {
        t[last].len() as int
    };
    b.cursor.pos.row == last && b.cursor.pos.col >= max
}

/// Whether the cursor is at the end and there is a hint behind it.
pub open spec fn before_hint(b: LineBuf) -> bool {
    at_text_end(b) && b.hinted() is Some && buffer::any_row(b.hinted()->0)
}

/// Whether a key takes the hint.
pub fn should_accept_hint(b: &LineBuf, mode: ModeReport, waiting: bool, key: &KeyEvent) -> (r: bool)
    requires
        b.wf(),
    ensures
        r == (before_hint(*b) && takes_hint(mode, waiting, *key)),
{
    if !(b.cursor_at_max() && b.has_hint()) {
        return false;
    }
    if !key.1.is_empty() {
        return false;
    }
    match mode {
        ModeReport::Replace | ModeReport::Insert | ModeReport::Emacs => match key.0 {
            KeyCode::Right => true,
            _ => false,
        },
        ModeReport::Visual | ModeReport::Normal => match key.0 {
            KeyCode::Right => true,
            KeyCode::Char('l') => !waiting,
            _ => false,
        },
        _ => false,
    }
}

/// What a key does before the mode sees it.
#[derive(Debug, Clone, Copy, PartialEq, Eq, Structural)]
pub enum KeyUse {
    AppendHint,
    Complete,
    HistSearch,
    Mode,
}

/// What a key does before the mode sees it.
pub open spec fn key_use(b: LineBuf, mode: ModeReport, waiting: bool, key: KeyEvent) -> KeyUse {
    if before_hint(b) && takes_hint(mode, waiting, key) {
        KeyUse::AppendHint
    } else if key.0 is Tab && !in_leading_space(b) {
        KeyUse::Complete
    } else if key.0 == KeyCode::Char('r') && key.1 == ModKeys::of(true, false, false) && (mode
        == ModeReport::Emacs || mode == ModeReport::Insert || mode == ModeReport::Ex) {
        KeyUse::HistSearch
    } else {
        KeyUse::Mode
    }
}

/// What a key does before the mode sees it.
pub fn resolve_key(b: &LineBuf, mode: ModeReport, waiting: bool, key: &KeyEvent) -> (r: KeyUse)
    requires
        b.wf(),
    ensures
        r == key_use(*b, mode, waiting, *key),
{
    if should_accept_hint(b, mode, waiting, key) {
        return KeyUse::AppendHint;
    }
    match key.0 {
        KeyCode::Tab => if should_complete(b) {
            KeyUse::Complete
        } else {
            KeyUse::Mode
        },
        KeyCode::Char('r') => if key.1 == ModKeys::ctrl() && (mode == ModeReport::Emacs || mode
            == ModeReport::Insert || mode == ModeReport::Ex) {
            KeyUse::HistSearch
        } else {
            KeyUse::Mode
        },
        _ => KeyUse::Mode,
    }
}

/// What a command of the line editor does.
#[derive(Debug)]
pub enum LineCmd {
    Execute(EditCmd),
    SubmitLine(EditCmd),
    AppendHint,
    ScrollHist(isize),
    ScrollHistVirtual(EditCmd),
    EndOfFile,
    Quit,
    WriteQuit,
    ClearScreen,
    ResetWidget,
    /// Keys to press in normal mode on some lines, and whether key maps are passed
    /// over.
    NormalSeq(Vec<usize>, String, bool),
    TriggerCompletion,
    TriggerHistSearch,
}

impl LineCmd {
    /// The command that goes to normal mode.
    pub fn switch_to_normal() -> (r: Self)
        ensures
            r matches LineCmd::Execute(c) && c.verb == Some(VerbCmd(1, Verb::NormalMode)) && (EditCmd {
                verb: None,
                ..c
            }).is_blank(),
    {
        let mut c = EditCmd::new();
        c.set_verb(VerbCmd(1, Verb::NormalMode));
        LineCmd::Execute(c)
    }
}

/// What is reset when the line is to be given up.
#[derive(Debug, Clone, Copy, PartialEq, Eq, Structural)]
pub enum Widget {
    Completer,
    Finder,
    Line,
}

/// What is reset: the completer if there is one, then the search, then the line.
pub fn reset_active_widget(completer: bool, finder: bool) -> (r: Widget)
    ensures
        r == (if completer {
            Widget::Completer
        } else if finder {
            Widget::Finder
        } else {
            Widget::Line
        }),
{
    if completer {
        Widget::Completer
    } else if finder {
        Widget::Finder
    } else {
        Widget::Line
    }
}

/// What a command asks for besides editing.
#[derive(Debug)]
pub struct Request {
    pub interrupt: bool,
    /// Keys to press in normal mode on some lines, and whether key maps are passed
    /// over.
    pub normal: Option<(Vec<usize>, String, bool)>,
    /// Whether the command came from running the line.
    pub submits: bool,
    pub quit: bool,
    pub write_quit: bool,
    pub accept_hint: bool,
}

/// Whether a command goes through the history.
pub open spec fn grabs(cmd: EditCmd, b: LineBuf, hist_cat: bool, submits: bool) -> bool {
    ||| hist_cat && cmd.verb is None && cmd.motion_is(|m: Motion| m is LineUp || m is LineDown) && (
    cmd.flags.has_shift || cmd.flags.has_ctrl)
    ||| cmd.verb_is(|v: Verb| v is HistoryUp || v is HistoryDown)
    ||| cmd.verb is None && cmd.motion_is(|m: Motion| m is LineUp) && b.cursor.pos.row == 0
    ||| cmd.motion_is(|m: Motion| m is LineDown) && b.cursor.pos.row == pos::last_index(
        b.text().len(),
    ) && !submits
}

/// Whether a command goes through the history.
pub fn should_grab_history(cmd: &EditCmd, b: &LineBuf, hist_cat: bool, submits: bool) -> (r: bool)
    ensures
        r == grabs(*cmd, *b, hist_cat, submits),
{
    if cmd.is_virtual_scroll(hist_cat) {
        return true;
    }
    match &cmd.verb {
        Some(VerbCmd(_, Verb::HistoryUp)) => {
            return true;
        },
        Some(VerbCmd(_, Verb::HistoryDown)) => {
            return true;
        },
        _ => {},
    }
    match &cmd.motion {
        Some(MotionCmd(_, Motion::LineUp)) => cmd.verb.is_none() && b.cursor.pos.row == 0,
        Some(MotionCmd(_, Motion::LineDown)) => b.on_last_line() && !submits,
        _ => false,
    }
}

/// By how many entries a command goes through the history.
pub open spec fn scroll_offset(cmd: EditCmd) -> int {
    match cmd.verb {
        Some(VerbCmd(n, Verb::HistoryUp)) => -n,
        Some(VerbCmd(n, Verb::HistoryDown)) => n as int,
        _ => cmdline::history_offset(cmd),
    }
}

fn hist_offset(cmd: &EditCmd) -> (r: isize)
    requires
        cmd.verb_is(|v: Verb| v is HistoryUp || v is HistoryDown) || cmd.motion is Some,
    ensures
        r == cmdline::capped_offset(scroll_offset(*cmd)),
{
    match &cmd.verb {
        Some(VerbCmd(n, Verb::HistoryUp)) => if *n > isize::MAX as usize {
            -isize::MAX
        } else {
            -(*n as isize)
        },
        Some(VerbCmd(n, Verb::HistoryDown)) => if *n > isize::MAX as usize {
            isize::MAX
        } else {
            *n as isize
        },
        _ => offset_of(cmd),
    }
}

/// What a command does, in this order: an interrupt resets; keys for normal mode
/// are pressed; the history is gone through; the line is run; and at the end of the
/// input, where the line is empty, reading ends.
pub open spec fn resolved(
    cmd: EditCmd,
    req: Request,
    b: LineBuf,
    empty: bool,
    hist_cat: bool,
    open_file: bool,
    r: LineCmd,
) -> bool {
    if req.interrupt {
        r is ResetWidget
    } else if req.normal is Some {
        r == LineCmd::NormalSeq(
            (req.normal->0).0,
            (req.normal->0).1,
            (req.normal->0).2,
        )
    } else if grabs(cmd, b, hist_cat, req.submits) {
        if hist_cat && (cmd.flags.has_shift || cmd.flags.has_ctrl) {
            r == LineCmd::ScrollHistVirtual(cmd)
        } else {
            r == LineCmd::ScrollHist(cmdline::capped_offset(scroll_offset(cmd)))
        }
    } else if cmd.verb_is(|v: Verb| v is AcceptLineOrNewline) {
        r == LineCmd::SubmitLine(cmd)
    } else if cmd.verb_is(|v: Verb| v is DeleteOrEof) {
        if empty {
            r is EndOfFile
        } else {
            r == LineCmd::Execute(
                EditCmd { verb: Some(VerbCmd((cmd.verb->0).0, Verb::Delete)), ..cmd },
            )
        }
    } else if cmd.verb_is(|v: Verb| v is ClearScreen) {
        r is ClearScreen
    } else if cmd.verb_is(|v: Verb| v is EndOfFile) && empty {
        r is EndOfFile
    } else if req.quit {
        if open_file {
            r is ResetWidget
        } else {
            r is Quit
        }
    } else if req.write_quit {
        if open_file {
            r is WriteQuit
        } else {
            r is Quit
        }
    } else if req.accept_hint {
        r is AppendHint
    } else {
        r == LineCmd::Execute(cmd)
    }
}

/// What a command does. `empty` says whether the text that is edited is empty.
pub fn resolve_cmd(
    cmd: EditCmd,
    req: Request,
    b: &LineBuf,
    empty: bool,
    hist_cat: bool,
    open_file: bool,
) -> (r: LineCmd)
    ensures
        resolved(cmd, req, *b, empty, hist_cat, open_file, r),
{
    if req.interrupt {
        return LineCmd::ResetWidget;
    }
    if let Some(n) = req.normal {
        return LineCmd::NormalSeq(n.0, n.1, n.2);
    }
    if should_grab_history(&cmd, b, hist_cat, req.submits) {
        if hist_cat && (cmd.flags.has_shift || cmd.flags.has_ctrl) {
            return LineCmd::ScrollHistVirtual(cmd);
        }
        return LineCmd::ScrollHist(hist_offset(&cmd));
    }
    if cmd.is_submit_action() {
        return LineCmd::SubmitLine(cmd);
    }
    let count: usize = cmd.verb_count();
    let mut delete: bool = false;
    let mut eof: bool = false;
    match &cmd.verb {
        Some(VerbCmd(_, Verb::DeleteOrEof)) => {
            delete = true;
        },
        Some(VerbCmd(_, Verb::ClearScreen)) => {
            return LineCmd::ClearScreen;
        },
        Some(VerbCmd(_, Verb::EndOfFile)) => {
            eof = true;
        },
        _ => {},
    }
    if delete {
        if empty {
            return LineCmd::EndOfFile;
        }
        let mut c = cmd;
        c.verb = Some(VerbCmd(count, Verb::Delete));
        return LineCmd::Execute(c);
    }
    if eof && empty {
        LineCmd::EndOfFile
    } else if req.quit {
        if open_file {
            LineCmd::ResetWidget
        } else {
            LineCmd::Quit
        }
    } else if req.write_quit {
        if open_file {
            LineCmd::WriteQuit
        } else {
            LineCmd::Quit
        }
    } else if req.accept_hint {
        LineCmd::AppendHint
    } else {
        LineCmd::Execute(cmd)
    }
}

/// What is done after a command.
#[derive(Debug, Clone, Copy, PartialEq, Eq, Structural)]
pub enum AfterCmd {
    /// The line changed: what it selects of the history is out of date.
    Changed,
    /// Nothing was there to edit: ring.
    Bell,
    /// Tell how to end the shell, since it was asked for again and again.
    Warn,
    Nothing,
}

/// How often scrolling down without moving is passed over.
pub const MAX_IGNORED: usize = 3;

/// What is done after a command, and how often scrolling down was passed over.
/// `edits` says whether the command edits, `changed` whether the text changed,
/// `moved` whether the cursor did, and `scrolls` whether the command scrolls down.
pub fn after_cmd(
    counter: usize,
    edits: bool,
    changed: bool,
    moved: bool,
    scrolls: bool,
    empty: bool,
) -> (r: (AfterCmd, usize))
    requires
        counter <= MAX_IGNORED,
    ensures
        r == (if changed {
            (AfterCmd::Changed, counter)
        } else if edits {
            (AfterCmd::Bell, counter)
        } else if !moved && scrolls {
            if counter == MAX_IGNORED || empty {
                (AfterCmd::Warn, 0usize)
            } else {
                (AfterCmd::Nothing, (counter + 1) as usize)
            }
        } else {
            (AfterCmd::Nothing, counter)
        }),
        r.1 <= MAX_IGNORED,
{
    if changed {
        (AfterCmd::Changed, counter)
    } else if edits {
        (AfterCmd::Bell, counter)
    } else if !moved && scrolls {
        if counter == MAX_IGNORED || empty {
            (AfterCmd::Warn, 0)
        } else {
            (AfterCmd::Nothing, counter + 1)
        }
    } else {
        (AfterCmd::Nothing, counter)
    }
}

/// The text of the line, with the selection marked.
pub open spec fn shown_text(b: LineBuf) -> Seq<char> {
    lines::text_chars(render::marked(b.text(), b.cursor.pos, b.select_mode))
}

/// Whether the line was noted in the history.
pub open spec fn noted(b: LineBuf, h: History, g: History, view: Viewport) -> bool {
    &&& g.wf()
    &&& h.browses(shown_text(b)) ==> g == h
    &&& !h.browses(shown_text(b)) ==> {
        let end = h.search_mask@.len() as usize;
        &&& g.pending is Some
        &&& History::notes(
            h.pending,
            g.pending->0,
            shown_text(b),
            buffer::flat_capped(b.text(), b.cursor.pos),
            view,
        )
        &&& g == (History {
            pending: g.pending,
            cursor: end,
            virt_cursor: if h.cursor < end {
                end
            } else {
                h.virt_cursor
            },
            ..h
        })
    }
}

/// What the history has to offer for the line.
pub open spec fn offer(g: History) -> Option<Seq<char>> {
    let p = history::pending_text(g.pending);
    if g.cursor < g.search_mask@.len() || p is None || p->0.len() == 0 {
        None
    } else {
        history::hinting(g.entries@, p->0, g.entries@.len() as int)
    }
}

/// Notes the line in the history, and shows what the history has to offer for it.
pub fn update_editor_hint(b: &mut LineBuf, h: &mut History, view: Viewport)
    requires
        old(b).wf(),
        old(h).wf(),
    ensures
        final(b).wf(),
        final(h).wf(),
        noted(*old(b), *old(h), *final(h), view),
        final(b).hinted() == buffer::offered(
            lines::text_chars(old(b).text()),
            offer(*final(h)),
        ),
        *final(b) == (LineBuf { hint: final(b).hint, ..*old(b) }),
{
    let t = b.to_string();
    let at: usize = b.cursor_to_flat();
    h.update_pending_cmd(t.as_str(), at, view);
    match h.get_hint() {
        Some(s) => b.set_hint(Some(s.as_str())),
        None => b.set_hint(None),
    }
}

/// Whether it rings where a command changes nothing. Changing may well find nothing to
/// change.
pub open spec fn expects_change(cmd: EditCmd) -> bool {
    cmd.verb_is(|v: Verb| editcmd::edits(v) && !(v is Change))
}

/// The answer to a command: what is done after it, and how often scrolling down was
/// passed over.
pub open spec fn answered(
    counter: usize,
    cmd: EditCmd,
    b: LineBuf,
    text: Seq<char>,
    at: Pos,
) -> (AfterCmd, usize) {
    if shown_text(b) != text {
        (AfterCmd::Changed, counter)
    } else if expects_change(cmd) {
        (AfterCmd::Bell, counter)
    } else if b.cursor.pos == at && cmd.motion_is(|m: Motion| m is HalfScreenDown) {
        if counter == MAX_IGNORED || exec::blank(b.text()) {
            (AfterCmd::Warn, 0)
        } else {
            (AfterCmd::Nothing, (counter + 1) as usize)
        }
    } else {
        (AfterCmd::Nothing, counter)
    }
}

/// Ends a command that began with a text and a cursor. A text that changed selects other
/// entries of the history; what the editor told is taken from it, and the hint is shown
/// anew. Returns what is done after the command, how often scrolling down was passed over,
/// and whether the prompt is to be expanded again.
pub fn finish_cmd(
    core: &mut EditorCore,
    h: &mut History,
    cmd: &EditCmd,
    before: &str,
    at: Pos,
    counter: usize,
    view: Viewport,
) -> (r: (AfterCmd, usize, bool))
    requires
        old(core).editor.wf(),
        old(h).wf(),
        counter <= MAX_IGNORED,
    ensures
        final(core).editor.wf(),
        final(h).wf(),
        (r.0, r.1) == answered(counter, *cmd, old(core).editor, before@, at),
        r.1 <= MAX_IGNORED,
        r.2 == (old(core).shell_cmd_ran || old(core).mode_changed),
        *final(core) == (EditorCore {
            editor: LineBuf { hint: final(core).editor.hint, ..old(core).editor },
            needs_redraw: false,
            shell_cmd_ran: false,
            mode_changed: false,
            ..*old(core)
        }),
        noted(
            old(core).editor,
            if shown_text(old(core).editor) != before@ {
                History { mask_stale: true, ..*old(h) }
            } else {
                *old(h)
            },
            *final(h),
            view,
        ),
        final(core).editor.hinted() == buffer::offered(
            lines::text_chars(old(core).editor.text()),
            offer(*final(h)),
        ),
{
    let after = core.editor.to_string();
    let changed: bool = !same_str(before, after.as_str());
    let moved: bool = core.editor.cursor.pos != at;
    let edits: bool = match &cmd.verb {
        Some(v) => v.1.is_edit() && match &v.1 {
            Verb::Change => false,
            _ => true,
        },
        None => false,
    };
    let scrolls: bool = match &cmd.motion {
        Some(MotionCmd(_, Motion::HalfScreenDown)) => true,
        _ => false,
    };
    let empty: bool = core.editor.is_empty();
    let (what, n) = after_cmd(counter, edits, changed, moved, scrolls, empty);
    if changed {
        h.mark_mask_stale();
    }
    let refresh: bool = core.shell_cmd_ran || core.mode_changed;
    core.shell_cmd_ran = false;
    core.mode_changed = false;
    core.needs_redraw = false;
    update_editor_hint(&mut core.editor, h, view);
    (what, n, refresh)
}

/// The history where the line that is typed is looked at.
pub open spec fn at_the_line(h: History) -> History {
    if h.cursor >= h.search_mask@.len() {
        h
    } else {
        History {
            cursor: h.search_mask@.len() as usize,
            virt_cursor: h.search_mask@.len() as usize,
            ..h
        }
    }
}

/// Whether a buffer has another text, and is scrolled to where the cursor was. Of the
/// rest only the hint may have changed.
pub open spec fn retexted(a: LineBuf, b: LineBuf, view: Viewport) -> bool {
    &&& b.concat_points@.len() == 0
    &&& b.scroll_offset == buffer::rescrolled(
        a.scroll_offset,
        buffer::fixed_pos(b.text(), a.cursor).row,
        b.text(),
        a.hinted(),
        view,
    )
    &&& b == (LineBuf {
        lines: b.lines,
        hint: b.hint,
        cursor: b.cursor,
        scroll_offset: b.scroll_offset,
        concat_points: b.concat_points,
        ..a
    })
}

/// Whether a buffer has another text, with the cursor at its end and without a hint.
pub open spec fn shows_text(a: LineBuf, b: LineBuf, line: Seq<char>, view: Viewport) -> bool {
    &&& b.text() == lines::lines_of(line)
    &&& b.cursor == (Cursor {
        pos: browse::end_pos(b.text()),
        exclusive: a.cursor.exclusive,
    })
    &&& b.hint is None
    &&& retexted(a, b, view)
}

/// Whether a buffer has another text, with the cursor at a place in it, and is scrolled
/// to there.
pub open spec fn holds_text(
    a: LineBuf,
    b: LineBuf,
    line: Seq<char>,
    cursor: usize,
    view: Viewport,
) -> bool {
    &&& b.text() == lines::lines_of(line)
    &&& b.cursor == (Cursor {
        pos: buffer::fixed_pos(
            b.text(),
            Cursor {
                pos: buffer::unflat(b.text(), cursor as int),
                exclusive: a.cursor.exclusive,
            },
        ),
        exclusive: a.cursor.exclusive,
    })
    &&& b.scroll_offset == buffer::rescrolled_to(a, b.text(), b.cursor.pos.row, view)
    &&& b.concat_points@.len() == 0
    &&& b == (LineBuf {
        lines: b.lines,
        hint: b.hint,
        cursor: b.cursor,
        scroll_offset: b.scroll_offset,
        concat_points: b.concat_points,
        ..a
    })
}

fn hold_text(b: &mut LineBuf, line: &str, cursor: usize, view: Viewport)
    ensures
        holds_text(*old(b), *final(b), line@, cursor, view),
        final(b).hint == old(b).hint,
        final(b).wf(),
{
    b.set_buffer(line, view);
    b.set_cursor_from_flat(cursor, view);
}

fn show_text(b: &mut LineBuf, line: &str, view: Viewport)
    ensures
        shows_text(*old(b), *final(b), line@, view),
        final(b).wf(),
{
    b.set_buffer(line, view);
    b.move_cursor_to_end();
    b.hint = None;
}

/// Takes the hint into the line, as one change, and notes the line.
pub fn accept_hint(b: &mut LineBuf, h: &mut History, view: Viewport)
    requires
        old(b).wf(),
        old(h).wf(),
    ensures
        final(b).wf(),
        final(h).wf(),
        final(b).text() == taken_text(*old(b)),
        final(b).cursor == taken_cursor(*old(b)),
        final(b).scroll_offset == (if gives(*old(b)) {
            buffer::rescrolled(
                old(b).scroll_offset,
                final(b).cursor.pos.row,
                final(b).text(),
                old(b).hinted(),
                view,
            )
        } else {
            old(b).scroll_offset as int
        }),
        final(b).hint == (if gives(*old(b)) || exec::blank(old(b).text()) {
            None
        } else {
            old(b).hint
        }),
        *final(b) == (LineBuf {
            lines: final(b).lines,
            hint: final(b).hint,
            cursor: final(b).cursor,
            scroll_offset: final(b).scroll_offset,
            undo_stack: final(b).undo_stack,
            ..*old(b)
        }),
        exec::steps(final(b).undo_stack@) == exec::recorded(
            exec::steps(old(b).undo_stack@),
            old(b).text(),
            final(b).text(),
            old(b).cursor.pos,
            final(b).cursor.pos,
        ),
        noted(*final(b), at_the_line(*old(h)), *final(h), view),
{
    let before = clone_lines(&b.lines);
    let old_cursor: Pos = b.cursor.pos;
    b.accept_hint(view);
    assert(b.text() == taken_text(*old(b)));
    b.end_edit(before, old_cursor);
    if !h.at_pending() {
        h.reset_to_pending();
    }
    assert(*h == at_the_line(*old(h)));
    let t = b.to_string();
    let at: usize = b.cursor_to_flat();
    h.update_pending_cmd(t.as_str(), at, view);
}

/// Whether there is something in the hint to take.
pub open spec fn gives(b: LineBuf) -> bool {
    b.hinted() is Some && lines::text_chars(b.hinted()->0).len() > 0
}

/// The text once the hint is taken.
pub open spec fn taken_text(b: LineBuf) -> Seq<Seq<Seq<char>>> {
    if gives(b) {
        lines::attached(b.text(), lines::lines_of(lines::text_chars(b.hinted()->0)))
    } else {
        b.text()
    }
}

/// The cursor once the hint is taken.
pub open spec fn taken_cursor(b: LineBuf) -> Cursor {
    if gives(b) {
        Cursor {
            pos: buffer::fixed_pos(
                taken_text(b),
                Cursor {
                    pos: browse::end_pos(taken_text(b)),
                    exclusive: b.cursor.exclusive,
                },
            ),
            exclusive: b.cursor.exclusive,
        }
    } else {
        b.cursor
    }
}

/// Puts a completed line into the buffer, with the cursor behind what was completed.
/// The line that is typed is looked at again, and noted.
pub fn apply_completion(
    b: &mut LineBuf,
    h: &mut History,
    completed: &str,
    new_cursor: usize,
    view: Viewport,
)
    requires
        old(b).wf(),
        old(h).wf(),
    ensures
        final(b).wf(),
        final(h).wf(),
        holds_text(*old(b), *final(b), completed@, new_cursor, view),
        noted(*final(b), at_the_line(*old(h)), *final(h), view),
        final(b).hinted() == buffer::offered(
            lines::text_chars(final(b).text()),
            offer(*final(h)),
        ),
{
    hold_text(b, completed, new_cursor, view);
    if !h.at_pending() {
        h.reset_to_pending();
    }
    assert(*h == at_the_line(*old(h)));
    update_editor_hint(b, h, view);
}

/// What became of a key in a completion.
#[derive(Debug, Clone, Copy, PartialEq, Eq, Structural)]
pub enum CompStep {
    /// A candidate was chosen, and the completer is closed.
    Chosen,
    /// The completer goes on.
    Going,
    /// The completer is closed without a choice.
    Closed,
    /// The completer is closed, and the key is still to be handled.
    ClosedUnused,
    /// The completer goes on, and the key is still to be handled.
    Unused,
}

/// Where the cursor goes once a candidate stands from some place on.
pub open spec fn behind(span_start: usize, c: Candidate) -> usize {
    simple::capped_sum(span_start, text::byte_len(c.content@))
}

fn cursor_behind(span_start: usize, c: &Candidate) -> (r: usize)
    ensures
        r == behind(span_start, *c),
{
    let v = chars_of(c.content.as_str());
    assert(v@.take(v@.len() as int) =~= v@);
    span_start.saturating_add(bytes_up_to(v.as_slice(), v.len()))
}

/// Whether a line was put into the buffer with the cursor at a place in it, and shows
/// what the history has to offer for it. The history was at `m` before it was noted.
pub open spec fn completed_to(
    a: LineBuf,
    m: History,
    b: LineBuf,
    g: History,
    line: Seq<char>,
    cursor: usize,
    view: Viewport,
) -> bool {
    &&& holds_text(a, b, line, cursor, view)
    &&& noted(b, m, g, view)
    &&& b.hinted() == buffer::offered(lines::text_chars(b.text()), offer(g))
}

/// What an answer of the completer does to the line: a candidate that was chosen, or
/// is looked at, takes its place in it, and `completed` is the line then. Only a
/// choice leaves an entry of the history that is looked at.
pub fn handle_completion_key(
    b: &mut LineBuf,
    h: &mut History,
    answer: CompResponse,
    completed: &str,
    span_start: usize,
    view: Viewport,
) -> (r: CompStep)
    requires
        old(b).wf(),
        old(h).wf(),
    ensures
        final(b).wf(),
        final(h).wf(),
        match answer {
            CompResponse::Accept(c) => r is Chosen && completed_to(
                *old(b),
                at_the_line(*old(h)),
                *final(b),
                *final(h),
                completed@,
                behind(span_start, c),
                view,
            ),
            CompResponse::Preview(c) => r is Going && completed_to(
                *old(b),
                *old(h),
                *final(b),
                *final(h),
                completed@,
                behind(span_start, c),
                view,
            ),
            CompResponse::Consumed => r is Going && *final(b) == *old(b) && *final(h) == *old(h),
            CompResponse::Passthrough => r is Unused && *final(b) == *old(b) && *final(h)
                == *old(h),
            CompResponse::Dismiss | CompResponse::DismissPassthrough => {
                &&& r == if answer is Dismiss {
                    CompStep::Closed
                } else {
                    CompStep::ClosedUnused
                }
                &&& noted(*old(b), *old(h), *final(h), view)
                &&& final(b).hinted() == buffer::offered(
                    lines::text_chars(old(b).text()),
                    offer(*final(h)),
                )
                &&& *final(b) == (LineBuf { hint: final(b).hint, ..*old(b) })
            },
        },
{
    match answer {
        CompResponse::Accept(c) => {
            apply_completion(b, h, completed, cursor_behind(span_start, &c), view);
            CompStep::Chosen
        },
        CompResponse::Preview(c) => {
            hold_text(b, completed, cursor_behind(span_start, &c), view);
            update_editor_hint(b, h, view);
            CompStep::Going
        },
        CompResponse::Consumed => CompStep::Going,
        CompResponse::Passthrough => CompStep::Unused,
        CompResponse::Dismiss => {
            update_editor_hint(b, h, view);
            CompStep::Closed
        },
        CompResponse::DismissPassthrough => {
            update_editor_hint(b, h, view);
            CompStep::ClosedUnused
        },
    }
}

/// What a tab key begins.
#[derive(Debug)]
pub enum TabStart {
    /// The key is no tab.
    Unrelated,
    /// References to the history were expanded, and nothing is completed yet.
    Expanded,
    /// The line is to be completed: the line, where the cursor is in it in bytes, by how
    /// many candidates to go on, and whether it is the command line.
    Complete(String, usize, i32, bool),
}

/// Whether the line was edited to have a text and a cursor, as one change.
pub open spec fn one_change(a: LineBuf, b: LineBuf, t: lines::Text, p: Pos) -> bool {
    &&& b.text() == t
    &&& b.cursor == (Cursor { pos: p, exclusive: a.cursor.exclusive })
    &&& exec::steps(b.undo_stack@) == exec::recorded(
        exec::steps(a.undo_stack@),
        a.text(),
        t,
        a.cursor.pos,
        p,
    )
    &&& b == (LineBuf {
        lines: b.lines,
        cursor: b.cursor,
        hint: b.hint,
        undo_stack: b.undo_stack,
        ..a
    })
}

/// Handles a tab key in the buffer that is typed in: references to the history are
/// expanded first, but not on the command line. Where there are none the line is to be
/// completed.
pub fn start_tab(
    b: &mut LineBuf,
    h: &mut History,
    key: &KeyEvent,
    mode: ModeReport,
    commands: &[String],
    levels: &Vec<Vec<(usize, usize)>>,
    view: Viewport,
) -> (r: TabStart)
    requires
        old(b).wf(),
        old(h).wf(),
        mode != ModeReport::Ex ==> old(b).lines@.len() + bang::rows_added(
            bang::expansions(old(b).text(), commands@),
        ) <= usize::MAX,
    ensures
        final(b).wf(),
        final(h).wf(),
        ({
            let found = bang::expansions(old(b).text(), commands@);
            let expands = mode != ModeReport::Ex && found.len() > 0;
            if !(key.0 is Tab) {
                r is Unrelated && *final(b) == *old(b) && *final(h) == *old(h)
            } else if expands {
                let (t, p) = bang::all_replaced(
                    old(b).text(),
                    old(b).cursor,
                    found,
                    levels@,
                    0,
                );
                &&& r is Expanded
                &&& one_change(*old(b), *final(b), t, p)
                &&& noted(*final(b), *old(h), *final(h), view)
                &&& final(b).hinted() == buffer::offered(
                    lines::text_chars(t),
                    offer(*final(h)),
                )
            } else {
                &&& r matches TabStart::Complete(line, cursor, direction, ex) && line@
                    == shown_text(*old(b)) && cursor == line::capped(
                    render::byte_pos(old(b).text(), old(b).cursor.pos),
                ) && direction == (if key.1 == ModKeys::of(false, false, true) {
                    -1int
                } else {
                    1
                }) && ex == (mode == ModeReport::Ex)
                &&& *final(h) == *old(h)
                &&& if mode == ModeReport::Ex {
                    *final(b) == *old(b)
                } else {
                    one_change(*old(b), *final(b), old(b).text(), old(b).cursor.pos)
                        && final(b).hint == (if exec::blank(old(b).text()) {
                        None
                    } else {
                        old(b).hint
                    })
                }
            }
        }),
{
    match key.0 {
        KeyCode::Tab => {},
        _ => {
            return TabStart::Unrelated;
        },
    }
    let ex: bool = mode == ModeReport::Ex;
    if !ex {
        let before = clone_lines(&b.lines);
        let old_cursor: Pos = b.cursor.pos;
        let expanded = b.attempt_history_expansion(commands, levels);
        b.end_edit(before, old_cursor);
        if expanded {
            update_editor_hint(b, h, view);
            return TabStart::Expanded;
        }
    }
    let line = b.to_string();
    let at: usize = b.cursor_byte_pos();
    TabStart::Complete(line, at, tab_direction(key.1), ex)
}

/// What the completer found.
#[derive(Debug, Clone, Copy, PartialEq, Eq, Structural)]
pub enum Completion {
    /// It failed.
    Failed,
    /// A line is completed.
    Match,
    /// There are several candidates: whether showing them was cancelled, whether the
    /// completer is active, and how many candidates are left, if these can be read.
    Several(bool, bool, Option<usize>),
}

/// What is done with what the completer found.
#[derive(Debug, Clone, Copy, PartialEq, Eq, Structural)]
pub enum TabStep {
    /// The layout is to be forgotten, since an error was printed.
    Forget,
    /// The line is taken.
    Apply,
    /// The only candidate that is left is taken.
    ApplyOnly,
    /// It was cancelled.
    Cancelled,
    /// What is left cannot be read.
    Unreadable,
    /// The candidates are shown.
    Show,
    Bell,
}

/// What is done with what the completer found.
pub fn handle_tab(found: Completion) -> (r: TabStep)
    ensures
        r == (match found {
            Completion::Failed => TabStep::Forget,
            Completion::Match => TabStep::Apply,
            Completion::Several(cancelled, active, left) => if cancelled {
                TabStep::Cancelled
            } else if !active {
                TabStep::Bell
            } else if left is None {
                TabStep::Unreadable
            } else if left == Some(1usize) {
                TabStep::ApplyOnly
            } else {
                TabStep::Show
            },
        }),
{
    match found {
        Completion::Failed => TabStep::Forget,
        Completion::Match => TabStep::Apply,
        Completion::Several(cancelled, active, left) => if cancelled {
            TabStep::Cancelled
        } else if !active {
            TabStep::Bell
        } else {
            match left {
                None => TabStep::Unreadable,
                Some(1) => TabStep::ApplyOnly,
                Some(_) => TabStep::Show,
            }
        },
    }
}

/// Which way a tab goes through the candidates: backward with shift alone.
pub fn tab_direction(mods: ModKeys) -> (r: i32)
    ensures
        r == (if mods == ModKeys::of(false, false, true) {
            -1int
        } else {
            1
        }),
{
    if mods == ModKeys::shift() {
        -1
    } else {
        1
    }
}

/// A candidate with what is told of it, as a pair of texts.
pub open spec fn pair_of(c: Candidate) -> (Seq<char>, Seq<char>) {
    (
        c.content@,
        match c.desc {
            Some(d) => d@,
            None => Seq::empty(),
        },
    )
}

/// Candidates as pairs of texts, for scripts to choose from.
pub fn candidate_pairs(v: &Vec<Candidate>) -> (r: Vec<(String, String)>)
    ensures
        r@.len() == v@.len(),
        forall|i: int|
            0 <= i < v@.len() ==> ((#[trigger] r@[i]).0@, r@[i].1@) == pair_of(v@[i]),
{
    let mut out: Vec<(String, String)> = Vec::new();
    let mut i: usize = 0;
    while i < v.len()
        invariant
            i <= v@.len(),
            out@.len() == i,
            forall|k: int|
                0 <= k < i ==> ((#[trigger] out@[k]).0@, out@[k].1@) == pair_of(v@[k]),
        decreases v@.len() - i,
    {
        let desc = match &v[i].desc {
            Some(d) => d.clone(),
            None => {
                let none: String = String::new();
                assert(none@ =~= Seq::empty());
                none
            },
        };
        out.push((v[i].content.clone(), desc));
        i = i + 1;
    }
    out
}

/// The candidates that scripts chose.
pub fn chosen_candidates(pairs: Vec<(String, String)>) -> (r: Vec<Candidate>)
    ensures
        r@.len() == pairs@.len(),
        forall|i: int|
            0 <= i < r@.len() ==> (#[trigger] r@[i]).content@ == pairs@[i].0@ && r@[i].desc
                == Some(pairs@[i].1) && r@[i].id is None && r@[i].weight == 0,
{
    let mut out: Vec<Candidate> = Vec::new();
    let mut i: usize = 0;
    while i < pairs.len()
        invariant
            i <= pairs@.len(),
            out@.len() == i,
            forall|k: int|
                0 <= k < i ==> (#[trigger] out@[k]).content@ == pairs@[k].0@ && out@[k].desc
                    == Some(pairs@[k].1) && out@[k].id is None && out@[k].weight == 0,
        decreases pairs@.len() - i,
    {
        let c = Candidate::from_string(pairs[i].0.clone()).with_desc(pairs[i].1.clone());
        out.push(c);
        i = i + 1;
    }
    out
}

/// What became of a key in a search of the history.
#[derive(Debug, Clone, Copy, PartialEq, Eq, Structural)]
pub enum SearchStep {
    /// An entry was chosen: whether to ring.
    Chosen(bool),
    Closed,
    /// The search goes on.
    Going,
}

/// Whether an entry was chosen in a search, which is over then.
pub open spec fn chose(
    a: LineBuf,
    h: History,
    b: LineBuf,
    g: History,
    id: usize,
    clamp: bool,
    rings: bool,
    view: Viewport,
) -> bool {
    exists|m: History, total: Option<usize>| #[trigger]
        browse::jumped(a, h, b, m, id, clamp, rings, total, view) && g == (History {
            fuzzy_finder: None,
            ..m
        })
}

/// What an answer of the search does to the line: an entry that was chosen takes
/// its place, one that is looked at shows in it, and without a choice the line
/// comes back that the search began with.
pub fn answer_search(
    b: &mut LineBuf,
    h: &mut History,
    orig: &mut Option<(String, usize)>,
    answer: SelectorResponse,
    clamp: bool,
    view: Viewport,
) -> (r: SearchStep)
    requires
        old(b).wf(),
        old(h).wf(),
        answer matches SelectorResponse::Accept(c) ==> c.id is Some,
    ensures
        final(b).wf(),
        final(h).wf(),
        match answer {
            SelectorResponse::Accept(c) => r is Chosen && *final(orig) is None && chose(
                *old(b),
                *old(h),
                *final(b),
                *final(h),
                c.id->0,
                clamp,
                r->Chosen_0,
                view,
            ),
            SelectorResponse::Dismiss => {
                &&& r is Closed
                &&& *final(orig) is None
                &&& *final(h) == (History { fuzzy_finder: None, ..*old(h) })
                &&& match *old(orig) {
                    Some((line, cursor)) => holds_text(
                        *old(b),
                        *final(b),
                        line@,
                        cursor,
                        view,
                    ) && final(b).hint is None,
                    None => final(b).hint is None && *final(b) == (LineBuf {
                        hint: None,
                        ..*old(b)
                    }),
                }
            },
            SelectorResponse::Preview(c) => {
                &&& r is Going
                &&& *final(orig) == *old(orig)
                &&& *final(h) == *old(h)
                &&& shows_text(*old(b), *final(b), c.content@, view)
            },
            SelectorResponse::Consumed => r is Going && *final(b) == *old(b) && *final(h)
                == *old(h) && *final(orig) == *old(orig),
        },
{
    match answer {
        SelectorResponse::Accept(c) => {
            *orig = None;
            let id: usize = match c.id {
                Some(n) => n,
                None => 0,
            };
            let (ring, total) = scroll_history_to(b, h, id, clamp, view);
            let ghost g = *h;
            h.stop_search();
            assert(browse::jumped(*old(b), *old(h), *b, g, id, clamp, ring, total, view));
            assert(*h == (History { fuzzy_finder: None, ..g }));
            assert(chose(*old(b), *old(h), *b, *h, id, clamp, ring, view));
            SearchStep::Chosen(ring)
        },
        SelectorResponse::Dismiss => {
            let mut kept: Option<(String, usize)> = None;
            std::mem::swap(orig, &mut kept);
            if let Some((line, cursor)) = kept {
                hold_text(b, line.as_str(), cursor, view);
            }
            b.hint = None;
            h.stop_search();
            SearchStep::Closed
        },
        SelectorResponse::Preview(c) => {
            show_text(b, c.content.as_str(), view);
            SearchStep::Going
        },
        SelectorResponse::Consumed => SearchStep::Going,
    }
}

/// How a search of the history begins.
#[derive(Debug, Clone, Copy, PartialEq, Eq, Structural)]
pub enum SearchStart {
    /// There is one entry, and it is in the line.
    Chosen,
    /// A list of entries is open.
    Open,
    /// There is nothing to search.
    Failed,
}

/// Starts a search of the history with the line. A single entry takes the place of the
/// line at once.
pub fn start_hist_search(b: &mut LineBuf, h: &mut History, view: Viewport) -> (r: SearchStart)
    requires
        old(b).wf(),
        old(h).wf(),
        old(h).searchable(),
    ensures
        final(b).wf(),
        final(h).wf(),
        old(h).search_entries@.len() == 0 ==> {
            &&& *final(b) == *old(b)
            &&& *final(h) == *old(h)
            &&& r == if old(h).fuzzy_finder is Some {
                SearchStart::Open
            } else {
                SearchStart::Failed
            }
        },
        old(h).search_entries@.len() == 1 ==> {
            &&& r is Chosen
            &&& shows_text(*old(b), *final(b), old(h).search_entries@[0].command@, view)
            &&& noted(*final(b), *old(h), *final(h), view)
        },
        old(h).search_entries@.len() > 1 ==> {
            &&& r is Open
            &&& *final(b) == *old(b)
            &&& final(h).fuzzy_finder is Some
            &&& final(h).fuzzy_finder->0.wf()
            &&& *final(h) == (History { fuzzy_finder: final(h).fuzzy_finder, ..*old(h) })
            &&& final(h).fuzzy_finder->0.query.typed() == shown_text(*old(b))
            &&& final(h).fuzzy_finder->0.candidates@.len() == old(h).search_entries@.len()
            &&& forall|i: int|
                0 <= i < old(h).search_entries@.len() ==> (
                #[trigger] final(h).fuzzy_finder->0.candidates@[i]).content
                    == old(h).search_entries@[i].command
            &&& final(h).fuzzy_finder->0.filtered@ == fuzzy::found_best_first(
                fuzzy::unscored(final(h).fuzzy_finder->0.candidates@),
                shown_text(*old(b)),
            )
            &&& final(h).fuzzy_finder->0.cursor.val == 0
        },
{
    let initial = b.to_string();
    match h.start_search(initial.as_str(), view) {
        Some(entry) => {
            show_text(b, entry.as_str(), view);
            let t = b.to_string();
            let at: usize = b.cursor_to_flat();
            h.update_pending_cmd(t.as_str(), at, view);
            SearchStart::Chosen
        },
        None => if h.fuzzy_finder.is_some() {
            SearchStart::Open
        } else {
            SearchStart::Failed
        },
    }
}

/// Shows the entry that an open list begins with, and returns the line and where the
/// cursor was in it, which come back if nothing is chosen. Without a list nothing
/// changes.
pub fn preview_first(b: &mut LineBuf, h: &History, view: Viewport) -> (r: Option<(String, usize)>)
    requires
        old(b).wf(),
    ensures
        final(b).wf(),
        h.fuzzy_finder is None ==> r is None && *final(b) == *old(b),
        h.fuzzy_finder is Some ==> {
            &&& r is Some
            &&& (r->0).0@ == shown_text(*old(b))
            &&& (r->0).1 == buffer::flat_capped(old(b).text(), old(b).cursor.pos)
            &&& match h.fuzzy_finder->0.selected() {
                Some(c) => shows_text(*old(b), *final(b), c.content@, view),
                None => *final(b) == (LineBuf { hint: None, ..*old(b) }),
            }
        },
{
    match &h.fuzzy_finder {
        None => None,
        Some(f) => {
            let line = b.to_string();
            let at: usize = b.cursor_to_flat();
            match f.selected_candidate() {
                Some(c) => show_text(b, c.content.as_str(), view),
                None => {
                    b.hint = None;
                },
            }
            Some((line, at))
        },
    }
}

/// Takes the line to be run: the whole text, without the space around it where that
/// is asked for. The history is left at its end.
pub fn submit(b: &mut LineBuf, h: &mut History, trims: bool) -> (r: String)
    requires
        old(b).wf(),
        old(h).wf(),
    ensures
        final(b).wf(),
        final(h).wf(),
        r@ == (if trims {
            text::trimmed(lines::text_chars(old(b).text()))
        } else {
            lines::text_chars(old(b).text())
        }),
        final(b).text() == seq![Seq::<Seq<char>>::empty()],
        *final(b) == (LineBuf {
            lines: final(b).lines,
            hint: None,
            cursor: Cursor { pos: Pos { row: 0, col: 0 }, exclusive: old(b).cursor.exclusive },
            ..*old(b)
        }),
        *final(h) == (History {
            mask_stale: true,
            cursor: old(h).search_mask@.len() as usize,
            virt_cursor: old(h).search_mask@.len() as usize,
            ..*old(h)
        }),
{
    b.hint = None;
    let s = b.take_buf();
    h.reset();
    if trims {
        let v = chars_of(s.as_str());
        let t = trim(v.as_slice());
        string_of(t.as_slice())
    } else {
        s
    }
}

/// What running the line comes to.
#[derive(Debug)]
pub enum SubmitStep {
    /// References to the history were expanded, and the line is not run yet.
    Expanded,
    /// The line is run.
    Line(String),
    /// The line goes on.
    GoesOn,
}

/// Runs the line: references to the history are expanded first, and a line that is not
/// complete goes on, if that is wanted. `depth` and `failed` say how deep the end of the
/// line is in what the commands open, and whether that could not be told.
pub fn submit_line(
    b: &mut LineBuf,
    h: &mut History,
    mode: ModeReport,
    commands: &[String],
    levels: &Vec<Vec<(usize, usize)>>,
    depth: usize,
    failed: bool,
    goes_on: bool,
    trims: bool,
    view: Viewport,
) -> (r: SubmitStep)
    requires
        old(b).wf(),
        old(h).wf(),
        old(b).lines@.len() + bang::rows_added(bang::expansions(old(b).text(), commands@))
            <= usize::MAX,
    ensures
        final(b).wf(),
        final(h).wf(),
        ({
            let found = bang::expansions(old(b).text(), commands@);
            let row = old(b).text()[old(b).cursor.pos.row as int];
            let col = old(b).cursor.pos.col;
            let escaped = 0 < col <= row.len() && row[col - 1] == seq!['\\'];
            if found.len() > 0 {
                let (t, p) = bang::all_replaced(
                    old(b).text(),
                    old(b).cursor,
                    found,
                    levels@,
                    0,
                );
                &&& r is Expanded
                &&& final(b).text() == t
                &&& *final(b) == (LineBuf {
                    lines: final(b).lines,
                    cursor: Cursor { pos: p, exclusive: old(b).cursor.exclusive },
                    hint: final(b).hint,
                    ..*old(b)
                })
                &&& noted(*final(b), *old(h), *final(h), view)
                &&& final(b).hinted() == buffer::offered(
                    lines::text_chars(t),
                    offer(*final(h)),
                )
            } else if submits(mode, escaped, depth, failed) || !goes_on {
                &&& r matches SubmitStep::Line(s) && s@ == (if trims {
                    text::trimmed(lines::text_chars(old(b).text()))
                } else {
                    lines::text_chars(old(b).text())
                })
                &&& final(b).text() == seq![Seq::<Seq<char>>::empty()]
                &&& *final(b) == (LineBuf {
                    lines: final(b).lines,
                    hint: None,
                    cursor: Cursor {
                        pos: Pos { row: 0, col: 0 },
                        exclusive: old(b).cursor.exclusive,
                    },
                    ..*old(b)
                })
                &&& *final(h) == (History {
                    mask_stale: true,
                    cursor: old(h).search_mask@.len() as usize,
                    virt_cursor: old(h).search_mask@.len() as usize,
                    ..*old(h)
                })
            } else {
                r is GoesOn && *final(b) == *old(b) && *final(h) == *old(h)
            }
        }),
{
    if b.attempt_history_expansion(commands, levels) {
        update_editor_hint(b, h, view);
        return SubmitStep::Expanded;
    }
    if should_submit(b, mode, depth, failed) || !goes_on {
        SubmitStep::Line(submit(b, h, trims))
    } else {
        SubmitStep::GoesOn
    }
}

/// Forgets what was joined to the line, unless a command joins more to it.
pub fn leave_joining(b: &mut LineBuf, h: &mut History, cmd: &LineCmd)
    ensures
        cmd is ScrollHistVirtual ==> *final(b) == *old(b) && *final(h) == *old(h),
        !(cmd is ScrollHistVirtual) ==> {
            &&& final(b).concat_points@.len() == 0
            &&& *final(b) == (LineBuf { concat_points: final(b).concat_points, ..*old(b) })
            &&& *final(h) == (History { virt_cursor: old(h).cursor, ..*old(h) })
        },
{
    match cmd {
        LineCmd::ScrollHistVirtual(_) => {},
        _ => {
            h.stop_virtual_scroll();
            b.clear_concats();
        },
    }
}

/// A text with its line breaks written out, up to `n`.
pub open spec fn breaks_written(s: Seq<char>, n: int) -> Seq<char>
    decreases n,
{
    if n <= 0 {
        Seq::empty()
    } else if s[n - 1] == '\n' {
        breaks_written(s, n - 1).push('\\').push('n')
    } else {
        breaks_written(s, n - 1).push(s[n - 1])
    }
}

fn write_breaks(s: &str) -> (r: String)
    ensures
        r@ == breaks_written(s@, s@.len() as int),
{
    let v = chars_of(s);
    let mut out: String = String::new();
    let mut i: usize = 0;
    assert(out@ =~= Seq::empty());
    while i < v.len()
        invariant
            i <= v@.len(),
            out@ == breaks_written(v@, i as int),
        decreases v@.len() - i,
    {
        if v[i] == '\n' {
            out.push('\\');
            out.push('n');
        } else {
            out.push(v[i]);
        }
        i = i + 1;
    }
    out
}

/// What others are told of the line.
pub struct LineData {
    pub buffer: String,
    pub cursor: usize,
    pub anchor: Option<usize>,
    pub hint: Option<String>,
    pub mode: String,
}

/// What others are told of the line.
pub fn get_line_data(b: &LineBuf, mode: ModeReport) -> (r: LineData)
    requires
        b.wf(),
    ensures
        r.buffer@ == breaks_written(shown_text(*b), shown_text(*b).len() as int),
        r.cursor == buffer::flat_capped(b.text(), b.cursor.pos),
        match b.hinted() {
            Some(h) => r.hint is Some && r.hint->0@ == breaks_written(
                lines::text_chars(h),
                lines::text_chars(h).len() as int,
            ),
            None => r.hint is None,
        },
        r.mode@ == mode.shown(),
        r.anchor == match b.select_mode {
            Some(m) => Some(buffer::flat_capped(b.text(), buffer::anchor_of(m))),
            None => None,
        },
{
    let t = b.to_string();
    let hint = match &b.hint {
        Some(_) => {
            let j = b.join_hint();
            Some(write_breaks(j.as_str()))
        },
        None => None,
    };
    let anchor = match b.select_mode {
        Some(SelectMode::Char(p)) => Some(b.flat_of(p)),
        Some(SelectMode::Line(p)) => Some(b.flat_of(p)),
        Some(SelectMode::Block(p)) => Some(b.flat_of(p)),
        None => None,
    };
    LineData {
        buffer: write_breaks(t.as_str()),
        cursor: b.cursor_to_flat(),
        anchor,
        hint,
        mode: mode.to_string(),
    }
}

/// An editor for one line, with a history or without.
pub struct SimpleEditor {
    pub buf: LineBuf,
    pub mode: Emacs,
    pub history: Option<History>,
}

/// A command for an editor: what deletes or ends does one or the other.
pub open spec fn settled_cmd(cmd: EditCmd, b: LineBuf) -> EditCmd {
    if cmd.verb_is(|v: Verb| v is DeleteOrEof) {
        EditCmd {
            verb: Some(
                VerbCmd(
                    (cmd.verb->0).0,
                    if exec::blank(b.text()) {
                        Verb::EndOfFile
                    } else {
                        Verb::Delete
                    },
                ),
            ),
            ..cmd
        }
    } else {
        cmd
    }
}

/// By how much a command goes through the history: one entry up or down.
pub open spec fn one_entry(cmd: EditCmd) -> isize {
    if (cmd.motion->0).1 is LineUp {
        (-1) as isize
    } else {
        1
    }
}

impl SimpleEditor {
    pub open spec fn wf(self) -> bool {
        self.buf.wf() && self.mode.wf() && (self.history is Some ==> self.history->0.wf())
    }

    pub fn new(history: Option<History>) -> (r: Self)
        requires
            history is Some ==> history->0.wf(),
        ensures
            r.wf(),
            r.buf.fresh(),
            r.history == history,
    {
        let buf = LineBuf::new();
        assert(buf.text().len() == buf.lines@.len());
        SimpleEditor { buf, mode: Emacs::new(), history }
    }

    /// Whether a command was done: up or down at an edge goes by one entry through
    /// the history, if there is one; all else is done on the text.
    pub open spec fn did(
        a: SimpleEditor,
        b: SimpleEditor,
        cmd: EditCmd,
        view: Viewport,
        levels: Seq<(usize, usize)>,
        e: Option<Effect>,
    ) -> bool {
        if cmdline::grabs_history(cmd, a.buf) {
            &&& e is None
            &&& b.mode == a.mode
            &&& match a.history {
                None => b == a,
                Some(ah) => b.history is Some && exists|h: History|
                    #![trigger History::scrolled(ah, h, one_entry(cmd))]
                    History::scrolled(ah, h, one_entry(cmd)) && browse::swapped(
                        a.buf,
                        h,
                        h.current(),
                        b.buf,
                        b.history->0,
                        view,
                    ),
            }
        } else {
            let c = settled_cmd(cmd, a.buf);
            &&& b.mode == a.mode
            &&& b.history == a.history
            &&& if exec::roomy(a.buf, c, levels, None) {
                e is Some && exec::cmd_done(a.buf, b.buf, c, view, levels, None, e->0)
            } else {
                e is None && b.buf == a.buf
            }
        }
    }

    /// Does a command.
    pub fn run_cmd(&mut self, cmd: EditCmd, view: Viewport, levels: &[(usize, usize)]) -> (r:
        Option<Effect>)
        requires
            old(self).wf(),
        ensures
            final(self).wf(),
            SimpleEditor::did(*old(self), *final(self), cmd, view, levels@, r),
    {
        if should_grab(&cmd, &self.buf) {
            let up: bool = match &cmd.motion {
                Some(MotionCmd(_, Motion::LineUp)) => true,
                _ => false,
            };
            let offset: isize = if up {
                -1
            } else {
                1
            };
            let mut hist: Option<History> = None;
            std::mem::swap(&mut hist, &mut self.history);
            assert(offset == one_entry(cmd));
            if let Some(mut h) = hist {
                let ghost ah = h;
                let _ = browse(&mut self.buf, &mut h, offset, view);
                self.history = Some(h);
                assert(old(self).history == Some(ah));
                assert(exists|g: History|
                    #![trigger History::scrolled(ah, g, one_entry(cmd))]
                    History::scrolled(ah, g, one_entry(cmd)) && browse::swapped(
                        old(self).buf,
                        g,
                        g.current(),
                        self.buf,
                        h,
                        view,
                    ));
            }
            return None;
        }
        let count: usize = cmd.verb_count();
        let either: bool = match &cmd.verb {
            Some(VerbCmd(_, Verb::DeleteOrEof)) => true,
            _ => false,
        };
        let ghost c0 = cmd;
        let mut c = cmd;
        if either {
            c.verb = Some(
                VerbCmd(
                    count,
                    if self.buf.is_empty() {
                        Verb::EndOfFile
                    } else {
                        Verb::Delete
                    },
                ),
            );
        }
        assert(c == settled_cmd(c0, self.buf));
        self.buf.try_exec_cmd(c, view, levels, None)
    }

    /// Handles a key.
    pub fn handle_key(&mut self, key: KeyEvent, view: Viewport, levels: &[(usize, usize)]) -> (r:
        Option<Effect>)
        requires
            old(self).wf(),
        ensures
            final(self).wf(),
            exists|cmd: Option<EditCmd>|
                #![trigger emacs::reads(key, cmd)]
                emacs::reads(key, cmd) && match cmd {
                    Some(c) => SimpleEditor::did(
                        SimpleEditor { mode: final(self).mode, ..*old(self) },
                        *final(self),
                        c,
                        view,
                        levels@,
                        r,
                    ),
                    None => r is None && *final(self) == (SimpleEditor {
                        mode: final(self).mode,
                        ..*old(self)
                    }),
                },
    {
        let cmd = self.mode.handle_key(key);
        let ghost c0 = cmd;
        assert(emacs::reads(key, c0));
        match cmd {
            Some(c) => self.run_cmd(c, view, levels),
            None => None,
        }
    }
}

} // verus!
