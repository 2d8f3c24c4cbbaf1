//! Registers: what was yanked or recorded, and the system clipboard.

use crate::editcmd::RegisterName;
use crate::keys::KeyEvent;
use crate::linebuf::line::Line;
use crate::linebuf::lines;
use crate::linebuf::lines::clone_lines;
use crate::linebuf::lines::join_lines;
use crate::linebuf::lines::push_line;
use crate::linebuf::lines::Text;
use crate::linebuf::pos::MotionKind;
use crate::unicode;
use crate::unicode::ascii_lowered;
use crate::unicode::is_ascii_alpha;
use vstd::prelude::*;

verus! {

#[derive(Debug)]
pub enum RegisterContent {
    Span(Vec<Line>),
    Line(Vec<Line>),
    Block(Vec<Line>),
    Macro(Vec<KeyEvent>),
    Empty,
}

impl Default for RegisterContent {
    fn default() -> (r: Self)
        ensures
            r == RegisterContent::Empty,
    {
        RegisterContent::Empty
    }
}

/// What a register holds, its lines by their text.
pub enum Held {
    Span(Text),
    Line(Text),
    Block(Text),
    Macro(Seq<KeyEvent>),
    Empty,
}

impl View for RegisterContent {
    type V = Held;

    open spec fn view(&self) -> Held {
        match self {
            RegisterContent::Span(v) => Held::Span(lines::text(v@)),
            RegisterContent::Line(v) => Held::Line(lines::text(v@)),
            RegisterContent::Block(v) => Held::Block(lines::text(v@)),
            RegisterContent::Macro(v) => Held::Macro(v@),
            RegisterContent::Empty => Held::Empty,
        }
    }
}

/// A text as a motion of some kind yanks it.
pub open spec fn yanked(t: Text, m: MotionKind) -> Held {
    match m {
        MotionKind::Char { start, end, inclusive } => Held::Span(t),
        MotionKind::Line { start, end, inclusive } => Held::Line(t),
        MotionKind::Block { start, end } => Held::Block(t),
    }
}

impl Clone for RegisterContent {
    fn clone(&self) -> (r: Self)
        ensures
            r@ == self@,
    {
        match self {
            RegisterContent::Span(v) => RegisterContent::Span(clone_lines(v)),
            RegisterContent::Line(v) => RegisterContent::Line(clone_lines(v)),
            RegisterContent::Block(v) => RegisterContent::Block(clone_lines(v)),
            RegisterContent::Macro(v) => RegisterContent::Macro(clone_keys(v)),
            RegisterContent::Empty => RegisterContent::Empty,
        }
    }
}

/// A copy of some keys.
pub fn clone_keys(v: &Vec<KeyEvent>) -> (r: Vec<KeyEvent>)
    ensures
        r@ == v@,
{
    let mut out: Vec<KeyEvent> = Vec::new();
    let mut i: usize = 0;
    while i < v.len()
        invariant
            i <= v@.len(),
            out@ == v@.take(i as int),
        decreases v@.len() - i,
    {
        out.push(v[i].clone());
        i = i + 1;
        assert(out@ =~= v@.take(i as int));
    }
    assert(out@ =~= v@);
    out
}

impl RegisterContent {
    /// What was taken out of the buffer over a motion.
    pub fn from_extracted(content: Vec<Line>, motion: &MotionKind) -> (r: Self)
        ensures
            r@ == yanked(lines::text(content@), *motion),
    {
        match motion {
            MotionKind::Char { .. } => RegisterContent::Span(content),
            MotionKind::Line { .. } => RegisterContent::Line(content),
            MotionKind::Block { .. } => RegisterContent::Block(content),
        }
    }

    /// The content as text; `keys` is how the keys of a macro are written.
    pub fn to_text(&self, keys: &str) -> (r: String)
        ensures
            r@ == (match self@ {
                Held::Span(t) => lines::text_chars(t),
                Held::Line(t) => lines::text_chars(t),
                Held::Block(t) => lines::text_chars(t),
                Held::Macro(_) => keys@,
                Held::Empty => Seq::empty(),
            }),
    {
        match self {
            RegisterContent::Span(v) => join_lines(v.as_slice()),
            RegisterContent::Line(v) => join_lines(v.as_slice()),
            RegisterContent::Block(v) => join_lines(v.as_slice()),
            RegisterContent::Macro(_) => keys.to_owned(),
            RegisterContent::Empty => String::new(),
        }
    }
}

#[derive(Debug, Copy, Clone, PartialEq, Eq, Structural)]
pub enum ClipboardProvider {
    WlCopy,
    Wayclip,
    Xsel,
    Xclip,
    Tmux,
    Termux,
    PbCopy,
    Osc52,
}

#[derive(Debug, Copy, Clone, PartialEq, Eq, Structural)]
pub enum Selection {
    Primary,
    Clipboard,
}

/// The selection that a register stands for.
pub open spec fn selection_of(c: char) -> Option<Selection> {
    if c == '*' {
        Some(Selection::Primary)
    } else if c == '+' {
        Some(Selection::Clipboard)
    } else {
        None
    }
}

impl Selection {
    /// The selection that a register stands for, `None` where it is an
    /// ordinary register.
    pub fn from_char(value: char) -> (r: Option<Self>)
        ensures
            r == selection_of(value),
    {
        match value {
            '*' => Some(Selection::Primary),
            '+' => Some(Selection::Clipboard),
            _ => None,
        }
    }
}

/// What the clipboard can be reached by: which programs are installed and
/// which sessions are running.
#[derive(Debug, Copy, Clone, PartialEq, Eq, Structural)]
pub struct ClipboardTools {
    pub pbcopy: bool,
    pub wayland: bool,
    pub wl_copy: bool,
    pub wayclip: bool,
    pub display: bool,
    pub xsel: bool,
    pub xclip: bool,
    pub termux: bool,
    pub tmux_session: bool,
    pub tmux: bool,
}

/// The first provider that can be used, in order of preference; the terminal
/// itself where there is none.
pub open spec fn preferred(t: ClipboardTools) -> ClipboardProvider {
    if t.pbcopy {
        ClipboardProvider::PbCopy
    } else if t.wayland && t.wl_copy {
        ClipboardProvider::WlCopy
    } else if t.wayland && t.wayclip {
        ClipboardProvider::Wayclip
    } else if t.display && t.xsel {
        ClipboardProvider::Xsel
    } else if t.display && t.xclip {
        ClipboardProvider::Xclip
    } else if t.termux {
        ClipboardProvider::Termux
    } else if t.tmux_session && t.tmux {
        ClipboardProvider::Tmux
    } else {
        ClipboardProvider::Osc52
    }
}

/// The command that copies to a selection.
pub open spec fn copy_command(p: ClipboardProvider, s: Selection) -> Option<Seq<char>> {
    match (p, s) {
        (ClipboardProvider::WlCopy, Selection::Clipboard) => Some("wl-copy"@),
        (ClipboardProvider::WlCopy, Selection::Primary) => Some("wl-copy --primary"@),
        (ClipboardProvider::Wayclip, Selection::Primary) => Some("wayclip --primary"@),
        (ClipboardProvider::Wayclip, Selection::Clipboard) => Some("waycopy"@),
        (ClipboardProvider::Xsel, Selection::Clipboard) => Some("xsel --clipboard --input"@),
        (ClipboardProvider::Xsel, Selection::Primary) => Some("xsel --primary --input"@),
        (ClipboardProvider::Xclip, Selection::Clipboard) => Some("xclip -selection clipboard"@),
        (ClipboardProvider::Xclip, Selection::Primary) => Some("xclip -selection primary"@),
        (ClipboardProvider::Termux, _) => Some("termux-clipboard-set"@),
        (ClipboardProvider::Tmux, _) => Some("tmux load-buffer -"@),
        (ClipboardProvider::PbCopy, _) => Some("pbcopy"@),
        (ClipboardProvider::Osc52, _) => None,
    }
}

/// The command that pastes from a selection.
pub open spec fn paste_command(p: ClipboardProvider, s: Selection) -> Option<Seq<char>> {
    match (p, s) {
        (ClipboardProvider::WlCopy, Selection::Clipboard) => Some("wl-paste"@),
        (ClipboardProvider::WlCopy, Selection::Primary) => Some("wl-paste --primary"@),
        (ClipboardProvider::Xsel, Selection::Clipboard) => Some("xsel --clipboard --output"@),
        (ClipboardProvider::Xsel, Selection::Primary) => Some("xsel --primary --output"@),
        (ClipboardProvider::Xclip, Selection::Clipboard) => Some("xclip -selection clipboard -o"@),
        (ClipboardProvider::Xclip, Selection::Primary) => Some("xclip -selection primary -o"@),
        (ClipboardProvider::Wayclip, _) => Some("waypaste"@),
        (ClipboardProvider::Termux, _) => Some("termux-clipboard-get"@),
        (ClipboardProvider::Tmux, _) => Some("tmux save-buffer -"@),
        (ClipboardProvider::PbCopy, _) => Some("pbpaste"@),
        (ClipboardProvider::Osc52, _) => None,
    }
}

/// The characters of an optional string.
pub open spec fn opt_chars(s: Option<&'static str>) -> Option<Seq<char>> {
    match s {
        Some(x) => Some(x@),
        None => None,
    }
}

impl ClipboardProvider {
    /// Chooses the provider by what is there.
    pub fn detect(tools: ClipboardTools) -> (r: Self)
        ensures
            r == preferred(tools),
    {
        if tools.pbcopy {
            return ClipboardProvider::PbCopy;
        }
        if tools.wayland {
            if tools.wl_copy {
                return ClipboardProvider::WlCopy;
            }
            if tools.wayclip {
                return ClipboardProvider::Wayclip;
            }
        }
        if tools.display {
            if tools.xsel {
                return ClipboardProvider::Xsel;
            }
            if tools.xclip {
                return ClipboardProvider::Xclip;
            }
        }
        if tools.termux {
            return ClipboardProvider::Termux;
        }
        if tools.tmux_session && tools.tmux {
            return ClipboardProvider::Tmux;
        }
        ClipboardProvider::Osc52
    }

    /// The command that copies to a selection, `None` where the terminal is
    /// asked to do it.
    pub fn copy_argv(self, sel: Selection) -> (r: Option<&'static str>)
        ensures
            opt_chars(r) == copy_command(self, sel),
    {
        match (self, sel) {
            (ClipboardProvider::WlCopy, Selection::Clipboard) => Some("wl-copy"),
            (ClipboardProvider::WlCopy, Selection::Primary) => Some("wl-copy --primary"),
            (ClipboardProvider::Wayclip, Selection::Primary) => Some("wayclip --primary"),
            (ClipboardProvider::Wayclip, Selection::Clipboard) => Some("waycopy"),
            (ClipboardProvider::Xsel, Selection::Clipboard) => Some("xsel --clipboard --input"),
            (ClipboardProvider::Xsel, Selection::Primary) => Some("xsel --primary --input"),
            (ClipboardProvider::Xclip, Selection::Clipboard) => Some("xclip -selection clipboard"),
            (ClipboardProvider::Xclip, Selection::Primary) => Some("xclip -selection primary"),
            (ClipboardProvider::Termux, _) => Some("termux-clipboard-set"),
            (ClipboardProvider::Tmux, _) => Some("tmux load-buffer -"),
            (ClipboardProvider::PbCopy, _) => Some("pbcopy"),
            (ClipboardProvider::Osc52, _) => None,
        }
    }

    /// The command that pastes from a selection, `None` where there is no way.
    pub fn paste_argv(self, sel: Selection) -> (r: Option<&'static str>)
        ensures
            opt_chars(r) == paste_command(self, sel),
    {
        match (self, sel) {
            (ClipboardProvider::WlCopy, Selection::Clipboard) => Some("wl-paste"),
            (ClipboardProvider::WlCopy, Selection::Primary) => Some("wl-paste --primary"),
            (ClipboardProvider::Xsel, Selection::Clipboard) => Some("xsel --clipboard --output"),
            (ClipboardProvider::Xsel, Selection::Primary) => Some("xsel --primary --output"),
            (ClipboardProvider::Xclip, Selection::Clipboard) => Some(
                "xclip -selection clipboard -o",
            ),
            (ClipboardProvider::Xclip, Selection::Primary) => Some("xclip -selection primary -o"),
            (ClipboardProvider::Wayclip, _) => Some("waypaste"),
            (ClipboardProvider::Termux, _) => Some("termux-clipboard-get"),
            (ClipboardProvider::Tmux, _) => Some("tmux save-buffer -"),
            (ClipboardProvider::PbCopy, _) => Some("pbpaste"),
            (ClipboardProvider::Osc52, _) => None,
        }
    }
}

/// A provider that can copy can paste too, and the other way round.
pub proof fn copy_iff_paste(p: ClipboardProvider, s: Selection)
    ensures
        copy_command(p, s) is Some <==> paste_command(p, s) is Some,
        copy_command(p, s) is None <==> p == ClipboardProvider::Osc52,
{
}

#[derive(Debug)]
pub struct Register {
    content: RegisterContent,
}

impl View for Register {
    type V = Held;

    closed spec fn view(&self) -> Held {
        self.content@
    }
}

impl Default for Register {
    fn default() -> (r: Self)
        ensures
            r@ == Held::Empty,
    {
        Register { content: RegisterContent::Empty }
    }
}

/// A register's content with more appended. Text goes behind text and keys
/// behind keys; text joins a macro as the keys that it reads as, and a macro
/// joins text as one more line, the way its keys are written.
pub open spec fn appended(
    a: Held,
    b: Held,
    as_keys: Seq<KeyEvent>,
    as_line: Seq<Seq<char>>,
) -> Held {
    match (a, b) {
        (_, Held::Empty) => a,
        (Held::Empty, _) => b,
        (Held::Macro(x), Held::Macro(y)) => Held::Macro(x + y),
        (Held::Macro(x), _) => Held::Macro(x + as_keys),
        (Held::Span(x), Held::Macro(_)) => Held::Span(x.push(as_line)),
        (Held::Line(x), Held::Macro(_)) => Held::Line(x.push(as_line)),
        (Held::Block(x), Held::Macro(_)) => Held::Block(x.push(as_line)),
        (Held::Span(x), _) => Held::Span(x + rows(b)),
        (Held::Line(x), _) => Held::Line(x + rows(b)),
        (Held::Block(x), _) => Held::Block(x + rows(b)),
    }
}

/// The lines of a content that is text.
pub open spec fn rows(h: Held) -> Text {
    match h {
        Held::Span(t) => t,
        Held::Line(t) => t,
        Held::Block(t) => t,
        _ => Seq::empty(),
    }
}

fn append_to(a: Vec<Line>, b: RegisterContent, as_text: &str) -> (r: Vec<Line>)
    requires
        !(b is Empty),
    ensures
        lines::text(r@) == (if b is Macro {
            lines::text(a@).push(unicode::clusters(as_text@))
        } else {
            lines::text(a@) + rows(b@)
        }),
{
    let mut a = a;
    let ghost was = lines::text(a@);
    match b {
        RegisterContent::Macro(_) => {
            push_line(&mut a, Line::from_text(as_text));
            a
        },
        RegisterContent::Span(v) | RegisterContent::Line(v) | RegisterContent::Block(v) => {
            let mut v = v;
            let ghost w = lines::text(v@);
            a.append(&mut v);
            assert(lines::text(a@) =~= was + w);
            a
        },
        RegisterContent::Empty => a,
    }
}

impl Register {
    pub fn content(&self) -> (r: &RegisterContent)
        ensures
            r@ == self@,
    {
        &self.content
    }

    pub fn write(&mut self, buf: RegisterContent)
        ensures
            final(self)@ == buf@,
    {
        self.content = buf;
    }

    /// Appends to the register. `as_keys` are the keys that the text of `buf`
    /// reads as, `as_text` is how the keys of `buf` are written.
    pub fn append(&mut self, buf: RegisterContent, as_keys: Vec<KeyEvent>, as_text: &str)
        ensures
            final(self)@ == appended(
                old(self)@,
                buf@,
                as_keys@,
                unicode::clusters(as_text@),
            ),
    {
        if let RegisterContent::Empty = buf {
            return;
        }
        let mut cur = RegisterContent::Empty;
        std::mem::swap(&mut cur, &mut self.content);
        self.content = match cur {
            RegisterContent::Empty => buf,
            RegisterContent::Span(a) => RegisterContent::Span(append_to(a, buf, as_text)),
            RegisterContent::Line(a) => RegisterContent::Line(append_to(a, buf, as_text)),
            RegisterContent::Block(a) => RegisterContent::Block(append_to(a, buf, as_text)),
            RegisterContent::Macro(a) => {
                let mut a = a;
                match buf {
                    RegisterContent::Macro(b) => {
                        let mut b = b;
                        a.append(&mut b);
                    },
                    _ => {
                        let mut k = as_keys;
                        a.append(&mut k);
                    },
                }
                RegisterContent::Macro(a)
            },
        };
    }
}

/// The registers: one for each letter, the default one, and the two that mirror
/// the system's selections.
#[derive(Debug)]
pub struct Registers {
    letters: Vec<Register>,
    default: Register,
    clipboard: Register,
    primary: Register,
}

/// The register that a command means: the default one if it names none, the
/// lower-case one of a letter, and none for any other character.
pub open spec fn register_key(key: Option<char>) -> Option<char> {
    let c = match key {
        Some(k) => k,
        None => '"',
    };
    if c == '"' || c == '+' || c == '*' {
        Some(c)
    } else if unicode::ascii_alpha(c) {
        Some(unicode::to_lower_ascii(c))
    } else {
        None
    }
}

impl Registers {
    /// There is a register for each letter.
    pub closed spec fn wf(self) -> bool {
        self.letters@.len() == 26
    }

    /// What a register holds.
    pub closed spec fn held(self, key: char) -> Held {
        if key == '"' {
            self.default@
        } else if key == '+' {
            self.clipboard@
        } else if key == '*' {
            self.primary@
        } else {
            self.letters@[key as u32 - 'a' as u32]@
        }
    }

    pub fn new() -> (r: Self)
        ensures
            r.wf(),
            forall|k: Option<char>|
                (#[trigger] register_key(k)) is Some ==> r.held(register_key(k)->0) == Held::Empty,
    {
        let mut letters: Vec<Register> = Vec::new();
        let mut i: usize = 0;
        while i < 26
            invariant
                i <= 26,
                letters@.len() == i,
                forall|j: int| 0 <= j < i ==> (#[trigger] letters@[j])@ == Held::Empty,
            decreases 26 - i,
        {
            letters.push(Register::default());
            i = i + 1;
        }
        Registers {
            letters,
            default: Register::default(),
            clipboard: Register::default(),
            primary: Register::default(),
        }
    }

    pub fn resolve_key(key: Option<char>) -> (r: Option<char>)
        ensures
            r == register_key(key),
    {
        let c = match key {
            Some(k) => k,
            None => '"',
        };
        match c {
            '"' => Some('"'),
            '+' => Some('+'),
            '*' => Some('*'),
            c => if is_ascii_alpha(c) {
                Some(ascii_lowered(c))
            } else {
                None
            },
        }
    }

    /// Reads a register. `pasted` is what the system gave for a register that
    /// mirrors one of its selections.
    pub fn read(&self, name: Option<char>, pasted: Option<RegisterContent>) -> (r: Option<
        RegisterContent,
    >)
        requires
            self.wf(),
        ensures
            match register_key(name) {
                None => r is None,
                Some(k) => r is Some && r->0@ == (if selection_of(k) is Some && pasted is Some {
                    pasted->0@
                } else {
                    self.held(k)
                }),
            },
    {
        let key = match Registers::resolve_key(name) {
            Some(k) => k,
            None => return None,
        };
        if Selection::from_char(key).is_some() {
            if let Some(p) = pasted {
                return Some(p);
            }
        }
        Some(self.slot(key).content().clone())
    }

    fn slot(&self, key: char) -> (r: &Register)
        requires
            self.wf(),
            key == '"' || key == '+' || key == '*' || unicode::ascii_lower(key),
        ensures
            r@ == self.held(key),
    {
        if key == '"' {
            &self.default
        } else if key == '+' {
            &self.clipboard
        } else if key == '*' {
            &self.primary
        } else {
            &self.letters[(key as u32 - 97) as usize]
        }
    }

    pub fn write(&mut self, name: Option<char>, buf: RegisterContent)
        requires
            old(self).wf(),
        ensures
            final(self).wf(),
            forall|k: Option<char>|
                (#[trigger] register_key(k)) is Some ==> final(self).held(register_key(k)->0)
                    == if register_key(name) == register_key(k) {
                    buf@
                } else {
                    old(self).held(register_key(k)->0)
                },
    {
        self.write_inner(name, buf, false, Vec::new(), "")
    }

    pub fn append(
        &mut self,
        name: Option<char>,
        buf: RegisterContent,
        as_keys: Vec<KeyEvent>,
        as_text: &str,
    )
        requires
            old(self).wf(),
        ensures
            final(self).wf(),
            forall|k: Option<char>|
                (#[trigger] register_key(k)) is Some ==> final(self).held(register_key(k)->0)
                    == if register_key(name) == register_key(k) {
                    appended(
                        old(self).held(register_key(k)->0),
                        buf@,
                        as_keys@,
                        unicode::clusters(as_text@),
                    )
                } else {
                    old(self).held(register_key(k)->0)
                },
    {
        self.write_inner(name, buf, true, as_keys, as_text)
    }

    /// Writes or appends to a register; every other register stays as it is.
    pub fn write_inner(
        &mut self,
        name: Option<char>,
        buf: RegisterContent,
        append: bool,
        as_keys: Vec<KeyEvent>,
        as_text: &str,
    )
        requires
            old(self).wf(),
        ensures
            final(self).wf(),
            forall|k: Option<char>|
                (#[trigger] register_key(k)) is Some ==> final(self).held(register_key(k)->0)
                    == if register_key(name) == register_key(k) {
                    if append {
                        appended(
                            old(self).held(register_key(k)->0),
                            buf@,
                            as_keys@,
                            unicode::clusters(as_text@),
                        )
                    } else {
                        buf@
                    }
                } else {
                    old(self).held(register_key(k)->0)
                },
    {
        let key = match Registers::resolve_key(name) {
            Some(k) => k,
            None => return,
        };
        if key == '"' {
            change(&mut self.default, buf, append, as_keys, as_text);
        } else if key == '+' {
            change(&mut self.clipboard, buf, append, as_keys, as_text);
        } else if key == '*' {
            change(&mut self.primary, buf, append, as_keys, as_text);
        } else {
            let i: usize = (key as u32 - 97) as usize;
            let mut r = Register::default();
            self.letters.push(r);
            r = self.letters.swap_remove(i);
            change(&mut r, buf, append, as_keys, as_text);
            self.letters.set(i, r);
        }
    }
}

fn change(
    r: &mut Register,
    buf: RegisterContent,
    append: bool,
    as_keys: Vec<KeyEvent>,
    as_text: &str,
)
    ensures
        final(r)@ == if append {
            appended(old(r)@, buf@, as_keys@, unicode::clusters(as_text@))
        } else {
            buf@
        },
{
    if append {
        r.append(buf, as_keys, as_text);
    } else {
        r.write(buf);
    }
}

impl RegisterName {
    /// Whether registers came from others by writing to the register of this name.
    pub open spec fn written(
        self,
        a: Registers,
        b: Registers,
        buf: Held,
        as_keys: Seq<KeyEvent>,
        as_text: Seq<char>,
    ) -> bool {
        forall|k: Option<char>|
            (#[trigger] register_key(k)) is Some ==> b.held(register_key(k)->0)
                == if register_key(self.named()) == register_key(k) {
                if self.appends() {
                    appended(
                        a.held(register_key(k)->0),
                        buf,
                        as_keys,
                        unicode::clusters(as_text),
                    )
                } else {
                    buf
                }
            } else {
                a.held(register_key(k)->0)
            }
    }

    /// Writes to the register, or appends to it where the name says so.
    pub fn write_to_register(
        &self,
        regs: &mut Registers,
        buf: RegisterContent,
        as_keys: Vec<KeyEvent>,
        as_text: &str,
    )
        requires
            old(regs).wf(),
        ensures
            final(regs).wf(),
            self.written(*old(regs), *final(regs), buf@, as_keys@, as_text@),
    {
        regs.write_inner(self.name(), buf, self.is_append(), as_keys, as_text);
    }

    /// Reads the register.
    pub fn read_from_register(&self, regs: &Registers, pasted: Option<RegisterContent>) -> (r:
        Option<RegisterContent>)
        requires
            regs.wf(),
        ensures
            match register_key(self.named()) {
                None => r is None,
                Some(k) => r is Some && r->0@ == (if selection_of(k) is Some && pasted is Some {
                    pasted->0@
                } else {
                    regs.held(k)
                }),
            },
    {
        regs.read(self.name(), pasted)
    }
}

/// What is written to a register is read from it, and every other register keeps
/// what it holds.
pub proof fn written_registers_hold(
    name: RegisterName,
    a: Registers,
    b: Registers,
    buf: Held,
    k: Seq<KeyEvent>,
    t: Seq<char>,
    other: Option<char>,
)
    requires
        name.written(a, b, buf, k, t),
        !name.appends(),
        register_key(name.named()) is Some,
        register_key(other) is Some,
        register_key(other) != register_key(name.named()),
    ensures
        b.held(register_key(name.named())->0) == buf,
        b.held(register_key(other)->0) == a.held(register_key(other)->0),
{
}

/// Appending nothing changes nothing.
pub proof fn appending_nothing(a: Held, k: Seq<KeyEvent>, l: Seq<Seq<char>>)
    ensures
        appended(a, Held::Empty, k, l) == a,
        appended(Held::Empty, a, k, l) == a,
{
}

/// Appending text in two steps is appending both at once.
pub proof fn appending_text_adds_up(
    a: Text,
    b: Text,
    c: Text,
    k: Seq<KeyEvent>,
    l: Seq<Seq<char>>,
)
    ensures
        appended(appended(Held::Span(a), Held::Span(b), k, l), Held::Line(c), k, l) == Held::Span(
            a + b + c,
        ),
{
}

} // verus!
