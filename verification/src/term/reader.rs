//! Keys out of what a terminal sends.

use crate::keys::KeyCode;
use crate::keys::KeyEvent;
use crate::keys::ModKeys;
use crate::term::layout::append_digit;
use crate::unicode;
use crate::unicode::ascii_uppered;
use vstd::prelude::*;

verus! {

/// What `String::from_utf8_lossy` makes of some bytes.
pub uninterp spec fn lossy(b: Seq<u8>) -> Seq<char>;

/// The characters of some bytes that are UTF-8.
pub open spec fn decoded(b: Seq<u8>) -> Option<Seq<char>> {
    if vstd::utf8::valid_utf8(b) {
        Some(vstd::utf8::decode_utf8(b))
    } else {
        None
    }
}

/// Calls `String::from_utf8_lossy`, which reads bytes as UTF-8 with a
/// replacement for what is none. The contract names its result, which is the
/// text itself where the bytes are UTF-8.
#[verifier::external_body]
fn decode_lossy(b: &[u8]) -> (r: String)
    ensures
        r@ == lossy(b@),
        vstd::utf8::valid_utf8(b@) ==> r@ == vstd::utf8::decode_utf8(b@),
{
    String::from_utf8_lossy(b).to_string()
}

/// Calls `std::str::from_utf8`, which reads bytes as UTF-8 and fails on others.
#[verifier::external_body]
fn decode(b: &[u8]) -> (r: Option<String>)
    ensures
        r is Some <==> decoded(b@) is Some,
        r is Some ==> r->0@ == decoded(b@)->0,
{
    match std::str::from_utf8(b) {
        Ok(s) => Some(s.to_string()),
        Err(_) => None,
    }
}

/// Whether a number is that of a character: not beyond the last one, and not a
/// surrogate.
pub open spec fn is_scalar(n: u32) -> bool {
    n <= 0xd7ff || 0xe000 <= n <= 0x10ffff
}

/// Calls `char::from_u32`, which gives the character of a number where there is
/// one.
#[verifier::external_body]
fn char_of_number(n: u32) -> (r: Option<char>)
    ensures
        r is Some <==> is_scalar(n),
        r is Some ==> r->0 == n as char,
{
    char::from_u32(n)
}

/// A key without modifiers.
pub open spec fn plain(k: KeyCode) -> KeyEvent {
    KeyEvent(k, ModKeys::of(false, false, false))
}

/// The keys of the single shift sequences.
pub open spec fn ss3_code(k: char) -> Option<KeyCode> {
    match k {
        'A' => Some(KeyCode::Up),
        'B' => Some(KeyCode::Down),
        'C' => Some(KeyCode::Right),
        'D' => Some(KeyCode::Left),
        'H' => Some(KeyCode::Home),
        'F' => Some(KeyCode::End),
        'P' => Some(KeyCode::F(1)),
        'Q' => Some(KeyCode::F(2)),
        'R' => Some(KeyCode::F(3)),
        'S' => Some(KeyCode::F(4)),
        _ => None,
    }
}

fn ss3_key(k: char) -> (r: Option<KeyCode>)
    ensures
        r == ss3_code(k),
{
    match k {
        'A' => Some(KeyCode::Up),
        'B' => Some(KeyCode::Down),
        'C' => Some(KeyCode::Right),
        'D' => Some(KeyCode::Left),
        'H' => Some(KeyCode::Home),
        'F' => Some(KeyCode::End),
        'P' => Some(KeyCode::F(1)),
        'Q' => Some(KeyCode::F(2)),
        'R' => Some(KeyCode::F(3)),
        'S' => Some(KeyCode::F(4)),
        _ => None,
    }
}

/// The keys that a letter ends, with or without modifiers.
pub open spec fn letter_code(k: char) -> Option<KeyCode> {
    match k {
        'A' => Some(KeyCode::Up),
        'B' => Some(KeyCode::Down),
        'C' => Some(KeyCode::Right),
        'D' => Some(KeyCode::Left),
        'H' => Some(KeyCode::Home),
        'F' => Some(KeyCode::End),
        _ => None,
    }
}

fn letter_key(k: char) -> (r: Option<KeyCode>)
    ensures
        r == letter_code(k),
{
    match k {
        'A' => Some(KeyCode::Up),
        'B' => Some(KeyCode::Down),
        'C' => Some(KeyCode::Right),
        'D' => Some(KeyCode::Left),
        'H' => Some(KeyCode::Home),
        'F' => Some(KeyCode::End),
        _ => None,
    }
}

/// The keys of the numbered sequences.
pub open spec fn tilde_code(k: u16) -> Option<KeyCode> {
    match k {
        1 => Some(KeyCode::Home),
        7 => Some(KeyCode::Home),
        2 => Some(KeyCode::Insert),
        3 => Some(KeyCode::Delete),
        4 => Some(KeyCode::End),
        8 => Some(KeyCode::End),
        5 => Some(KeyCode::PageUp),
        6 => Some(KeyCode::PageDown),
        15 => Some(KeyCode::F(5)),
        17 => Some(KeyCode::F(6)),
        18 => Some(KeyCode::F(7)),
        19 => Some(KeyCode::F(8)),
        20 => Some(KeyCode::F(9)),
        21 => Some(KeyCode::F(10)),
        23 => Some(KeyCode::F(11)),
        24 => Some(KeyCode::F(12)),
        200 => Some(KeyCode::BracketedPasteStart),
        201 => Some(KeyCode::BracketedPasteEnd),
        _ => None,
    }
}

fn tilde_key(k: u16) -> (r: Option<KeyCode>)
    ensures
        r == tilde_code(k),
{
    match k {
        1 => Some(KeyCode::Home),
        7 => Some(KeyCode::Home),
        2 => Some(KeyCode::Insert),
        3 => Some(KeyCode::Delete),
        4 => Some(KeyCode::End),
        8 => Some(KeyCode::End),
        5 => Some(KeyCode::PageUp),
        6 => Some(KeyCode::PageDown),
        15 => Some(KeyCode::F(5)),
        17 => Some(KeyCode::F(6)),
        18 => Some(KeyCode::F(7)),
        19 => Some(KeyCode::F(8)),
        20 => Some(KeyCode::F(9)),
        21 => Some(KeyCode::F(10)),
        23 => Some(KeyCode::F(11)),
        24 => Some(KeyCode::F(12)),
        200 => Some(KeyCode::BracketedPasteStart),
        201 => Some(KeyCode::BracketedPasteEnd),
        _ => None,
    }
}

/// The keys of the numbered sequences, read without modifiers.
pub open spec fn number_code(k: u32) -> Option<KeyCode> {
    match k {
        1 => Some(KeyCode::Home),
        3 => Some(KeyCode::Delete),
        4 => Some(KeyCode::End),
        5 => Some(KeyCode::PageUp),
        6 => Some(KeyCode::PageDown),
        7 => Some(KeyCode::Home),
        8 => Some(KeyCode::End),
        15 => Some(KeyCode::F(5)),
        17 => Some(KeyCode::F(6)),
        18 => Some(KeyCode::F(7)),
        19 => Some(KeyCode::F(8)),
        20 => Some(KeyCode::F(9)),
        21 => Some(KeyCode::F(10)),
        23 => Some(KeyCode::F(11)),
        24 => Some(KeyCode::F(12)),
        _ => None,
    }
}

fn number_key(k: u32) -> (r: Option<KeyCode>)
    ensures
        r == number_code(k),
{
    match k {
        1 => Some(KeyCode::Home),
        3 => Some(KeyCode::Delete),
        4 => Some(KeyCode::End),
        5 => Some(KeyCode::PageUp),
        6 => Some(KeyCode::PageDown),
        7 => Some(KeyCode::Home),
        8 => Some(KeyCode::End),
        15 => Some(KeyCode::F(5)),
        17 => Some(KeyCode::F(6)),
        18 => Some(KeyCode::F(7)),
        19 => Some(KeyCode::F(8)),
        20 => Some(KeyCode::F(9)),
        21 => Some(KeyCode::F(10)),
        23 => Some(KeyCode::F(11)),
        24 => Some(KeyCode::F(12)),
        _ => None,
    }
}

/// The modifiers in a parameter: one more than the sum of one for shift, two for
/// alt and four for control.
pub open spec fn mods_of(param: u16) -> ModKeys {
    let bits: int = if param == 0 {
        0
    } else {
        param - 1
    };
    ModKeys::of((bits / 4) % 2 == 1, (bits / 2) % 2 == 1, bits % 2 == 1)
}

/// The modifiers in the second parameter.
pub open spec fn second_mods(params: Seq<u16>) -> ModKeys {
    if params.len() > 1 {
        mods_of(params[1])
    } else {
        ModKeys::of(false, false, false)
    }
}

pub open spec fn first_param(params: Seq<u16>) -> u16 {
    if params.len() > 0 {
        params[0]
    } else {
        0
    }
}

/// The key of a character's number.
pub open spec fn codepoint_code(n: u16) -> Option<KeyCode> {
    if n == 9 {
        Some(KeyCode::Tab)
    } else if n == 13 {
        Some(KeyCode::Enter)
    } else if n == 27 {
        Some(KeyCode::Esc)
    } else if n == 127 {
        Some(KeyCode::Backspace)
    } else if is_scalar(n as u32) {
        Some(KeyCode::Char((n as u32) as char))
    } else {
        None
    }
}

/// The key of a control sequence.
pub open spec fn csi_event(params: Seq<u16>, plain_seq: bool, action: char) -> Option<KeyEvent> {
    if !plain_seq {
        None
    } else if letter_code(action) is Some {
        Some(KeyEvent(letter_code(action)->0, second_mods(params)))
    } else if action == 'Z' {
        Some(KeyEvent(KeyCode::Tab, ModKeys::of(false, false, true)))
    } else if action == '~' && tilde_code(first_param(params)) is Some {
        Some(KeyEvent(tilde_code(first_param(params))->0, second_mods(params)))
    } else if action == 'u' && codepoint_code(first_param(params)) is Some {
        Some(KeyEvent(codepoint_code(first_param(params))->0, second_mods(params)))
    } else {
        None
    }
}

/// The key of a control character.
pub open spec fn control_event(b: u8) -> Option<KeyEvent> {
    if b == 0 {
        Some(KeyEvent(KeyCode::Char(' '), ModKeys::of(true, false, false)))
    } else if b == 0x09 {
        Some(plain(KeyCode::Tab))
    } else if b == 0x0a {
        Some(KeyEvent(KeyCode::Char('j'), ModKeys::of(true, false, false)))
    } else if b == 0x0d {
        Some(plain(KeyCode::Enter))
    } else if b == 0x1b {
        Some(plain(KeyCode::Esc))
    } else if b == 0x7f {
        Some(plain(KeyCode::Backspace))
    } else if b <= 0x1a {
        Some(KeyEvent(KeyCode::Char((b + 64) as char), ModKeys::of(true, false, false)))
    } else {
        None
    }
}

/// The key of a printed character.
pub open spec fn printed_event(c: char, ss3: bool) -> KeyEvent {
    if ss3 && ss3_code(c) is Some {
        plain(ss3_code(c)->0)
    } else if c == '\x7f' {
        plain(KeyCode::Backspace)
    } else {
        plain(KeyCode::Char(c))
    }
}

fn plain_key(k: KeyCode) -> (r: KeyEvent)
    ensures
        r == plain(k),
{
    KeyEvent(k, ModKeys::empty())
}

/// Collects the keys that a terminal's parser finds.
#[derive(Debug)]
pub struct KeyCollector {
    pub events: Vec<KeyEvent>,
    pub ss3_pending: bool,
}

impl KeyCollector {
    pub fn new() -> (r: Self)
        ensures
            r.events@.len() == 0,
            !r.ss3_pending,
    {
        KeyCollector { events: Vec::new(), ss3_pending: false }
    }

    pub fn push(&mut self, event: KeyEvent)
        ensures
            final(self).events@ == old(self).events@.push(event),
            final(self).ss3_pending == old(self).ss3_pending,
    {
        self.events.push(event);
    }

    /// Takes the first key.
    pub fn pop(&mut self) -> (r: Option<KeyEvent>)
        ensures
            final(self).ss3_pending == old(self).ss3_pending,
            old(self).events@.len() == 0 ==> r is None && *final(self) == *old(self),
            old(self).events@.len() > 0 ==> r == Some(old(self).events@[0])
                && final(self).events@ == old(self).events@.skip(1),
    {
        if self.events.len() == 0 {
            return None;
        }
        let e = self.events.remove(0);
        assert(self.events@ =~= old(self).events@.skip(1));
        Some(e)
    }

    /// The modifiers in a parameter.
    pub fn parse_modifiers(param: u16) -> (r: ModKeys)
        ensures
            r == mods_of(param),
    {
        let bits: u16 = param.saturating_sub(1);
        assert((bits & 1 != 0) == (bits % 2 == 1)) by (bit_vector);
        assert((bits & 2 != 0) == ((bits / 2) % 2 == 1)) by (bit_vector);
        assert((bits & 4 != 0) == ((bits / 4) % 2 == 1)) by (bit_vector);
        ModKeys { ctrl: bits & 4 != 0, alt: bits & 2 != 0, shift: bits & 1 != 0 }
    }

    /// A character was printed. After a single shift it may name a key.
    pub fn print(&mut self, c: char)
        ensures
            final(self).events@ == old(self).events@.push(
                printed_event(c, old(self).ss3_pending),
            ),
            !final(self).ss3_pending,
    {
        if self.ss3_pending {
            self.ss3_pending = false;
            if let Some(k) = ss3_key(c) {
                self.push(plain_key(k));
                return;
            }
        }
        if c == '\x7f' {
            self.push(plain_key(KeyCode::Backspace));
        } else {
            self.push(plain_key(KeyCode::Char(c)));
        }
    }

    /// A control character came.
    pub fn execute(&mut self, byte: u8)
        ensures
            final(self).ss3_pending == old(self).ss3_pending,
            match control_event(byte) {
                Some(e) => final(self).events@ == old(self).events@.push(e),
                None => *final(self) == *old(self),
            },
    {
        let event = if byte == 0x00 {
            KeyEvent(KeyCode::Char(' '), ModKeys::ctrl())
        } else if byte == 0x09 {
            plain_key(KeyCode::Tab)
        } else if byte == 0x0a {
            KeyEvent(KeyCode::Char('j'), ModKeys::ctrl())
        } else if byte == 0x0d {
            plain_key(KeyCode::Enter)
        } else if byte == 0x1b {
            plain_key(KeyCode::Esc)
        } else if byte == 0x7f {
            plain_key(KeyCode::Backspace)
        } else if byte <= 0x1a {
            KeyEvent(KeyCode::Char((byte + 64) as char), ModKeys::ctrl())
        } else {
            return;
        };
        self.push(event);
    }

    fn key_of_codepoint(n: u16) -> (r: Option<KeyCode>)
        ensures
            r == codepoint_code(n),
    {
        if n == 9 {
            Some(KeyCode::Tab)
        } else if n == 13 {
            Some(KeyCode::Enter)
        } else if n == 27 {
            Some(KeyCode::Esc)
        } else if n == 127 {
            Some(KeyCode::Backspace)
        } else {
            match char_of_number(n as u32) {
                Some(c) => Some(KeyCode::Char(c)),
                None => None,
            }
        }
    }

    /// A control sequence came. Mouse reports and unknown sequences are passed
    /// over.
    pub fn csi_dispatch(&mut self, params: &[u16], intermediates: &[u8], action: char)
        ensures
            final(self).ss3_pending == old(self).ss3_pending,
            match csi_event(params@, intermediates@.len() == 0, action) {
                Some(e) => final(self).events@ == old(self).events@.push(e),
                None => *final(self) == *old(self),
            },
    {
        if intermediates.len() > 0 {
            return;
        }
        let mods = if params.len() > 1 {
            KeyCollector::parse_modifiers(params[1])
        } else {
            ModKeys::empty()
        };
        let first: u16 = if params.len() > 0 {
            params[0]
        } else {
            0
        };
        let key = match letter_key(action) {
            Some(k) => Some(k),
            None => if action == 'Z' {
                self.push(KeyEvent(KeyCode::Tab, ModKeys::shift()));
                return;
            } else if action == '~' {
                tilde_key(first)
            } else if action == 'u' {
                KeyCollector::key_of_codepoint(first)
            } else {
                None
            },
        };
        if let Some(k) = key {
            self.push(KeyEvent(k, mods));
        }
    }

    /// An escape sequence came. One of them is the single shift.
    pub fn esc_dispatch(&mut self, byte: u8)
        ensures
            final(self).events == old(self).events,
            final(self).ss3_pending == (old(self).ss3_pending || byte == 0x4f),
    {
        if byte == 0x4f {
            self.ss3_pending = true;
        }
    }
}

/// Something that the parser recognized among the bytes of a terminal.
#[derive(Debug)]
pub enum Heard {
    /// A character to print.
    Print(char),
    /// A control character.
    Execute(u8),
    /// A control sequence: its parameters with their parts, the bytes before its
    /// last one, and that.
    Csi(Vec<Vec<u16>>, Vec<u8>, char),
    /// The last byte of an escape sequence.
    Esc(u8),
}

/// What was recognized, as values.
pub enum Sound {
    Print(char),
    Execute(u8),
    Csi(Seq<Seq<u16>>, Seq<u8>, char),
    Esc(u8),
}

impl View for Heard {
    type V = Sound;

    open spec fn view(&self) -> Sound {
        match *self {
            Heard::Print(c) => Sound::Print(c),
            Heard::Execute(b) => Sound::Execute(b),
            Heard::Csi(p, i, c) => Sound::Csi(Seq::new(p@.len(), |k: int| p@[k]@), i@, c),
            Heard::Esc(b) => Sound::Esc(b),
        }
    }
}

/// What was recognized, one after the other.
pub open spec fn sounds(h: Seq<Heard>) -> Seq<Sound> {
    Seq::new(h.len(), |i: int| h[i]@)
}

/// The parameters of a control sequence, whose values stay with the parser.
#[verifier::external_type_specification]
#[verifier::external_body]
pub struct ExParams(vte::Params);

/// Notes what the parser recognizes.
struct Ear {
    got: Vec<Heard>,
}

impl vte::Perform for Ear {
    fn print(&mut self, c: char) {
        self.got.push(Heard::Print(c));
    }

    fn execute(&mut self, byte: u8) {
        self.got.push(Heard::Execute(byte));
    }

    /// Calls `vte::Params::iter` and `slice::to_vec`, and notes all parameters with
    /// their parts, the bytes before the last one, and the last one. Nothing is
    /// claimed of it here: `hear` says what comes of it.
    #[verifier::external_body]
    fn csi_dispatch(
        &mut self,
        params: &vte::Params,
        intermediates: &[u8],
        _ignore: bool,
        action: char,
    ) {
        let p: Vec<Vec<u16>> = params.iter().map(|x| x.to_vec()).collect();
        self.got.push(Heard::Csi(p, intermediates.to_vec(), action));
    }

    fn esc_dispatch(&mut self, _intermediates: &[u8], _ignore: bool, byte: u8) {
        self.got.push(Heard::Esc(byte));
    }
}

/// The parser of a terminal's bytes, which remembers those of an unfinished
/// sequence or character.
#[verifier::external_body]
pub struct ByteParser {
    inner: vte::Parser,
}

/// The bytes that a parser got, from the first on.
pub uninterp spec fn fed(p: ByteParser) -> Seq<u8>;

/// What a parser recognizes in some bytes that it gets one by one.
pub uninterp spec fn heard(bytes: Seq<u8>) -> Seq<Sound>;

impl ByteParser {
    /// Calls `vte::Parser::new`: the parser got no byte, and recognized nothing.
    #[verifier::external_body]
    fn new() -> (r: Self)
        ensures
            fed(r) == Seq::<u8>::empty(),
            heard(fed(r)) == Seq::<Sound>::empty(),
    {
        ByteParser { inner: vte::Parser::new() }
    }

    /// Calls `vte::Parser::advance` with one byte: what it recognizes then comes
    /// behind what it recognized before, and depends on the bytes alone.
    #[verifier::external_body]
    fn hear(&mut self, byte: u8) -> (r: Vec<Heard>)
        ensures
            fed(*final(self)) == fed(*old(self)).push(byte),
            heard(fed(*final(self))) == heard(fed(*old(self))) + sounds(r@),
    {
        let mut ear = Ear { got: Vec::new() };
        self.inner.advance(&mut ear, &[byte]);
        ear.got
    }
}

/// The keys that are waiting, and whether a single shift came.
#[verifier::ext_equal]
pub struct Queue {
    pub events: Seq<KeyEvent>,
    pub ss3: bool,
}

/// The first part of each parameter, zero where it has none.
pub open spec fn firsts(p: Seq<Seq<u16>>) -> Seq<u16> {
    Seq::new(
        p.len(),
        |i: int|
            if p[i].len() > 0 {
                p[i][0]
            } else {
                0
            },
    )
}

/// The key of something that was recognized, if it is one.
pub open spec fn sound_event(s: Sound, ss3: bool) -> Option<KeyEvent> {
    match s {
        Sound::Print(c) => Some(printed_event(c, ss3)),
        Sound::Execute(b) => control_event(b),
        Sound::Csi(p, i, c) => csi_event(firsts(p), i.len() == 0, c),
        Sound::Esc(_) => None,
    }
}

/// The keys that are waiting once something more was recognized.
pub open spec fn queued(q: Queue, s: Sound) -> Queue {
    Queue {
        events: match sound_event(s, q.ss3) {
            Some(e) => q.events.push(e),
            None => q.events,
        },
        ss3: match s {
            Sound::Print(_) => false,
            Sound::Esc(b) => q.ss3 || b == 0x4f,
            _ => q.ss3,
        },
    }
}

/// The keys that are waiting once all of it was recognized.
pub open spec fn all_queued(q: Queue, s: Seq<Sound>) -> Queue
    decreases s.len(),
{
    if s.len() == 0 {
        q
    } else {
        queued(all_queued(q, s.drop_last()), s.last())
    }
}

/// The keys that are waiting once the first `k` bytes came behind those that the
/// parser got before.
pub open spec fn queue_after(before: Seq<u8>, b: Seq<u8>, q: Queue, k: int) -> Queue {
    all_queued(q, heard(before + b.take(k)).skip(heard(before).len() as int))
}

/// How many bytes are taken until a key is waiting, where the first `k` are not
/// enough: all of them where none comes.
pub open spec fn taken(before: Seq<u8>, b: Seq<u8>, q: Queue, k: int) -> int
    decreases b.len() - k,
{
    if k < 0 || k >= b.len() {
        b.len() as int
    } else if queue_after(before, b, q, k + 1).events.len() > 0 {
        k + 1
    } else {
        taken(before, b, q, k + 1)
    }
}

/// No more bytes are taken than a key needs: with fewer none is waiting, and with
/// all that are taken one is, or there are no more.
pub proof fn least_is_taken(before: Seq<u8>, b: Seq<u8>, q: Queue, k: int)
    requires
        0 <= k <= b.len(),
    ensures
        k <= taken(before, b, q, k) <= b.len(),
        forall|i: int|
            k < i < taken(before, b, q, k) ==> (#[trigger] queue_after(
                before,
                b,
                q,
                i,
            )).events.len() == 0,
        taken(before, b, q, k) == b.len() || queue_after(
            before,
            b,
            q,
            taken(before, b, q, k),
        ).events.len() > 0,
    decreases b.len() - k,
{
    if k < b.len() && queue_after(before, b, q, k + 1).events.len() == 0 {
        least_is_taken(before, b, q, k + 1);
    }
}

fn take_firsts(p: &Vec<Vec<u16>>) -> (r: Vec<u16>)
    ensures
        r@ == firsts(Seq::new(p@.len(), |k: int| p@[k]@)),
{
    let ghost all = firsts(Seq::new(p@.len(), |k: int| p@[k]@));
    let mut out: Vec<u16> = Vec::new();
    let mut i: usize = 0;
    while i < p.len()
        invariant
            i <= p@.len(),
            all == firsts(Seq::new(p@.len(), |k: int| p@[k]@)),
            out@ == all.take(i as int),
        decreases p@.len() - i,
    {
        let first: u16 = if p[i].len() > 0 {
            p[i][0]
        } else {
            0
        };
        out.push(first);
        i = i + 1;
        assert(out@ =~= all.take(i as int));
    }
    assert(out@ =~= all);
    out
}

impl View for KeyCollector {
    type V = Queue;

    open spec fn view(&self) -> Queue {
        Queue { events: self.events@, ss3: self.ss3_pending }
    }
}

impl KeyCollector {
    /// Takes something that the parser recognized.
    pub fn hear(&mut self, h: &Heard)
        ensures
            final(self)@ == queued(old(self)@, h@),
    {
        match h {
            Heard::Print(c) => self.print(*c),
            Heard::Execute(b) => self.execute(*b),
            Heard::Csi(p, i, c) => {
                let params = take_firsts(p);
                self.csi_dispatch(params.as_slice(), i.as_slice(), *c);
            },
            Heard::Esc(b) => self.esc_dispatch(*b),
        }
    }

    fn hear_all(&mut self, h: &Vec<Heard>)
        ensures
            final(self)@ == all_queued(old(self)@, sounds(h@)),
    {
        let ghost all = sounds(h@);
        let mut i: usize = 0;
        assert(all.take(0) =~= Seq::<Sound>::empty());
        while i < h.len()
            invariant
                i <= h@.len(),
                all == sounds(h@),
                self@ == all_queued(old(self)@, all.take(i as int)),
            decreases h@.len() - i,
        {
            self.hear(&h[i]);
            i = i + 1;
            assert(all.take(i as int).drop_last() =~= all.take(i - 1));
            assert(all.take(i as int).last() == h@[i - 1]@);
        }
        assert(all.take(i as int) =~= all);
    }
}

proof fn lemma_queued_add(q: Queue, a: Seq<Sound>, b: Seq<Sound>)
    ensures
        all_queued(q, a + b) == all_queued(all_queued(q, a), b),
    decreases b.len(),
{
    if b.len() == 0 {
        assert(a + b =~= a);
    } else {
        assert((a + b).drop_last() =~= a + b.drop_last());
        lemma_queued_add(q, a, b.drop_last());
    }
}

/// What ends pasted text.
pub open spec fn paste_marker() -> Seq<u8> {
    seq![0x1bu8, 0x5bu8, 0x32u8, 0x30u8, 0x31u8, 0x7eu8]
}

/// Where the first marker ends that ends at `n` or later.
pub open spec fn marker_end(b: Seq<u8>, n: int) -> Option<int>
    decreases b.len() - n + 1,
{
    if n < 0 || n > b.len() {
        None
    } else if n >= 6 && b.subrange(n - 6, n) == paste_marker() {
        Some(n)
    } else {
        marker_end(b, n + 1)
    }
}

fn ends_at(b: &[u8], n: usize) -> (r: bool)
    requires
        n <= b@.len(),
    ensures
        r == (n >= 6 && b@.subrange(n - 6, n as int) == paste_marker()),
{
    if n < 6 {
        return false;
    }
    let r = b[n - 6] == 0x1b && b[n - 5] == 0x5b && b[n - 4] == 0x32 && b[n - 3] == 0x30 && b[n - 2]
        == 0x31 && b[n - 1] == 0x7e;
    proof {
        let s = b@.subrange(n - 6, n as int);
        let m = paste_marker();
        assert forall|i: int| 0 <= i < 6 implies s[i] == b@[n - 6 + i] by {}
        if r {
            assert(s =~= m);
        } else if s == m {
            assert(s[0] == m[0] && s[1] == m[1] && s[2] == m[2] && s[3] == m[3] && s[4] == m[4]
                && s[5] == m[5]);
        }
    }
    r
}

fn bytes_part(b: &[u8], from: usize, to: usize) -> (r: Vec<u8>)
    requires
        from <= to <= b@.len(),
    ensures
        r@ == b@.subrange(from as int, to as int),
{
    let mut v: Vec<u8> = Vec::new();
    let mut i: usize = from;
    while i < to
        invariant
            from <= i <= to <= b@.len(),
            v@ == b@.subrange(from as int, i as int),
        decreases to - i,
    {
        v.push(b[i]);
        i = i + 1;
        assert(v@ =~= b@.subrange(from as int, i as int));
    }
    v
}

/// Some text as a key.
pub open spec fn is_verbatim(e: KeyEvent, s: Seq<char>) -> bool {
    e.0 is Verbatim && e.0->Verbatim_0@ == s && e.1 == ModKeys::of(false, false, false)
}

/// Reads keys from bytes that come in pieces.
pub struct PollReader {
    pub parser: ByteParser,
    pub collector: KeyCollector,
    pub byte_buf: Vec<u8>,
    pub verbatim_single: bool,
    pub verbatim: bool,
}

impl PollReader {
    pub fn new() -> (r: Self)
        ensures
            fed(r.parser) == Seq::<u8>::empty(),
            heard(fed(r.parser)) == Seq::<Sound>::empty(),
            r.collector.events@.len() == 0,
            !r.collector.ss3_pending,
            r.byte_buf@.len() == 0,
            !r.verbatim_single,
            !r.verbatim,
    {
        PollReader {
            parser: ByteParser::new(),
            collector: KeyCollector::new(),
            byte_buf: Vec::new(),
            verbatim_single: false,
            verbatim: false,
        }
    }

    /// Takes pasted text, if its end has come. Until then the bytes are kept.
    pub fn handle_bracket_paste(&mut self) -> (r: Option<KeyEvent>)
        ensures
            final(self).parser == old(self).parser,
            final(self).collector == old(self).collector,
            final(self).verbatim_single == old(self).verbatim_single,
            match marker_end(old(self).byte_buf@, 0) {
                Some(n) => r is Some && is_verbatim(
                    r->0,
                    lossy(old(self).byte_buf@.take(n - 6)),
                ) && final(self).byte_buf@ == old(self).byte_buf@.skip(n) && !final(self).verbatim,
                None => r is None && final(self).byte_buf == old(self).byte_buf
                    && final(self).verbatim,
            },
    {
        let ghost b = self.byte_buf@;
        let mut n: usize = 0;
        loop
            invariant
                b == self.byte_buf@,
                *self == *old(self),
                n <= b.len(),
                marker_end(b, 0) == marker_end(b, n as int),
            ensures
                marker_end(b, 0) is None,
            decreases b.len() - n,
        {
            if ends_at(self.byte_buf.as_slice(), n) {
                assert(marker_end(b, n as int) == Some(n as int));
                let raw = bytes_part(self.byte_buf.as_slice(), 0, n - 6);
                assert(raw@ =~= b.take(n - 6));
                let paste = decode_lossy(raw.as_slice());
                let rest = bytes_part(self.byte_buf.as_slice(), n, self.byte_buf.len());
                assert(rest@ =~= b.skip(n as int));
                self.byte_buf = rest;
                self.verbatim = false;
                return Some(plain_key(KeyCode::Verbatim(paste)));
            }
            if n == self.byte_buf.len() {
                assert(marker_end(b, n + 1) is None);
                break;
            }
            n = n + 1;
        }
        self.verbatim = true;
        None
    }

    /// Takes everything that is there as it is.
    pub fn read_one_verbatim(&mut self) -> (r: Option<KeyEvent>)
        ensures
            final(self).parser == old(self).parser,
            final(self).collector == old(self).collector,
            final(self).verbatim_single == old(self).verbatim_single,
            final(self).verbatim == old(self).verbatim,
            final(self).byte_buf@.len() == 0,
            r is Some <==> old(self).byte_buf@.len() > 0,
            r is Some ==> is_verbatim(r->0, lossy(old(self).byte_buf@)),
    {
        if self.byte_buf.len() == 0 {
            return None;
        }
        let s = decode_lossy(self.byte_buf.as_slice());
        self.byte_buf = Vec::new();
        Some(plain_key(KeyCode::Verbatim(s)))
    }

    /// More bytes came.
    pub fn feed_bytes(&mut self, bytes: &[u8])
        ensures
            final(self).byte_buf@ == old(self).byte_buf@ + bytes@,
            final(self).parser == old(self).parser,
            final(self).collector == old(self).collector,
            final(self).verbatim_single == old(self).verbatim_single,
            final(self).verbatim == old(self).verbatim,
    {
        let mut i: usize = 0;
        assert(self.byte_buf@ =~= old(self).byte_buf@ + bytes@.take(0));
        while i < bytes.len()
            invariant
                i <= bytes@.len(),
                self.byte_buf@ == old(self).byte_buf@ + bytes@.take(i as int),
                self.parser == old(self).parser,
                self.collector == old(self).collector,
                self.verbatim_single == old(self).verbatim_single,
                self.verbatim == old(self).verbatim,
            decreases bytes@.len() - i,
        {
            self.byte_buf.push(bytes[i]);
            i = i + 1;
            assert(self.byte_buf@ =~= old(self).byte_buf@ + bytes@.take(i as int));
        }
        assert(bytes@.take(i as int) =~= bytes@);
    }

    /// How many bytes at the start are a key of their own, and which: an escape
    /// that begins no sequence, or one before a character.
    pub open spec fn escape_key(b: Seq<u8>) -> Option<(int, KeyEvent)> {
        if b.len() == 0 || b[0] != 0x1b {
            None
        } else if b.len() == 1 {
            Some((1, plain(KeyCode::Esc)))
        } else if b[1] == 0x5b || b[1] == 0x4f {
            None
        } else if b[1] >= 0x20 && b[1] != 0x7f {
            Some(
                (
                    2,
                    KeyEvent(
                        KeyCode::Char(unicode::to_upper_ascii(b[1] as char)),
                        ModKeys::of(false, true, false),
                    ),
                ),
            )
        } else {
            Some((1, plain(KeyCode::Esc)))
        }
    }

    /// Pasted text is taken where its end has come. Else the bytes are kept, and
    /// nothing is read of them until it has.
    pub open spec fn pasted(b: Seq<u8>, after: PollReader, r: Option<KeyEvent>) -> bool {
        match marker_end(b, 0) {
            Some(n) => {
                &&& r is Some && is_verbatim(r->0, lossy(b.take(n - 6)))
                &&& after.byte_buf@ == b.skip(n)
                &&& !after.verbatim
            },
            None => r is None && after.byte_buf@ == b && after.verbatim,
        }
    }

    /// The parser gets bytes until a key is waiting, which is taken. One that
    /// starts pasted text gives way to the text.
    pub open spec fn parsed(a: PollReader, b: PollReader, r: Option<KeyEvent>) -> bool {
        let bytes = a.byte_buf@;
        let n = taken(fed(a.parser), bytes, a.collector@, 0);
        let q = queue_after(fed(a.parser), bytes, a.collector@, n);
        &&& fed(b.parser) == fed(a.parser) + bytes.take(n)
        &&& if bytes.len() == 0 {
            r is None && b == a
        } else if q.events.len() == 0 {
            &&& r is None
            &&& b.collector@ == q
            &&& b.byte_buf@.len() == 0
            &&& !b.verbatim
        } else {
            &&& b.collector@ == (Queue { events: q.events.skip(1), ..q })
            &&& if q.events[0].0 is BracketedPasteStart {
                PollReader::pasted(bytes.skip(n), b, r)
            } else {
                r == Some(q.events[0]) && b.byte_buf@ == bytes.skip(n) && !b.verbatim
            }
        }
    }

    /// Reads a key, if its bytes are there. All bytes that wait may be one key, or
    /// be the start of pasted text; an escape may be a key of its own; any others
    /// go through the parser.
    pub fn read_key(&mut self) -> (r: Option<KeyEvent>)
        ensures
            final(self).verbatim_single == (old(self).verbatim_single
                && old(self).byte_buf@.len() == 0),
            old(self).verbatim_single ==> {
                &&& final(self).parser == old(self).parser
                &&& final(self).collector == old(self).collector
                &&& final(self).verbatim == old(self).verbatim
                &&& final(self).byte_buf@.len() == 0
                &&& r is Some <==> old(self).byte_buf@.len() > 0
                &&& r is Some ==> is_verbatim(r->0, lossy(old(self).byte_buf@))
            },
            !old(self).verbatim_single && old(self).verbatim ==> {
                &&& final(self).parser == old(self).parser
                &&& final(self).collector == old(self).collector
                &&& PollReader::pasted(old(self).byte_buf@, *final(self), r)
            },
            !old(self).verbatim_single && !old(self).verbatim ==> match PollReader::escape_key(
                old(self).byte_buf@,
            ) {
                Some(k) => {
                    &&& r == Some(k.1)
                    &&& final(self).parser == old(self).parser
                    &&& final(self).collector == old(self).collector
                    &&& final(self).byte_buf@ == old(self).byte_buf@.skip(k.0)
                    &&& !final(self).verbatim
                },
                None => PollReader::parsed(*old(self), *final(self), r),
            },
    {
        if self.verbatim_single {
            if let Some(key) = self.read_one_verbatim() {
                self.verbatim_single = false;
                return Some(key);
            }
            return None;
        }
        if self.verbatim {
            return self.handle_bracket_paste();
        }
        if self.byte_buf.len() > 0 && self.byte_buf[0] == 0x1b {
            if self.byte_buf.len() == 1 {
                self.byte_buf.remove(0);
                assert(self.byte_buf@ =~= old(self).byte_buf@.skip(1));
                return Some(plain_key(KeyCode::Esc));
            }
            let b: u8 = self.byte_buf[1];
            if b == 0x5b || b == 0x4f {
            } else if b >= 0x20 && b != 0x7f {
                self.byte_buf.remove(0);
                self.byte_buf.remove(0);
                assert(self.byte_buf@ =~= old(self).byte_buf@.skip(2));
                return Some(KeyEvent(KeyCode::Char(ascii_uppered(b as char)), ModKeys::alt()));
            } else {
                self.byte_buf.remove(0);
                assert(self.byte_buf@ =~= old(self).byte_buf@.skip(1));
                return Some(plain_key(KeyCode::Esc));
            }
        }
        self.parse_key()
    }

    fn parse_key(&mut self) -> (r: Option<KeyEvent>)
        requires
            !old(self).verbatim_single,
            !old(self).verbatim,
        ensures
            !final(self).verbatim_single,
            PollReader::parsed(*old(self), *final(self), r),
    {
        let ghost f = fed(self.parser);
        let ghost bytes = self.byte_buf@;
        let ghost q = self.collector@;
        let ghost mut n: int = 0;
        let ghost mut new: Seq<Sound> = Seq::empty();
        proof {
            assert(f + bytes.take(0) =~= f);
            assert(bytes.skip(0) =~= bytes);
            assert(heard(f) + new =~= heard(f));
        }
        while self.byte_buf.len() > 0
            invariant
                0 <= n <= bytes.len(),
                f == fed(old(self).parser),
                bytes == old(self).byte_buf@,
                q == old(self).collector@,
                self.byte_buf@ == bytes.skip(n),
                fed(self.parser) == f + bytes.take(n),
                heard(fed(self.parser)) == heard(f) + new,
                self.collector@ == all_queued(q, new),
                n == 0 ==> *self == *old(self),
                n > 0 ==> self.collector.events@.len() == 0,
                taken(f, bytes, q, 0) == taken(f, bytes, q, n),
                !self.verbatim_single,
                !self.verbatim,
            decreases self.byte_buf@.len(),
        {
            let byte = self.byte_buf.remove(0);
            let got = self.parser.hear(byte);
            self.collector.hear_all(&got);
            proof {
                let more = sounds(got@);
                assert(byte == bytes[n]);
                assert(self.byte_buf@ =~= bytes.skip(n + 1));
                assert(fed(self.parser) =~= f + bytes.take(n + 1));
                assert(heard(f) + new + more =~= heard(f) + (new + more));
                lemma_queued_add(q, new, more);
                new = new + more;
                n = n + 1;
                assert((heard(f) + new).skip(heard(f).len() as int) =~= new);
                assert(self.collector@ == queue_after(f, bytes, q, n));
            }
            if let Some(key) = self.collector.pop() {
                proof {
                    assert(taken(f, bytes, q, n - 1) == n);
                    let all = queue_after(f, bytes, q, n);
                    assert(self.collector@ =~= Queue { events: all.events.skip(1), ..all });
                    assert(key == all.events[0]);
                }
                return match key.0 {
                    KeyCode::BracketedPasteStart => self.handle_bracket_paste(),
                    _ => Some(key),
                };
            }
        }
        proof {
            assert(n == bytes.len());
            assert(taken(f, bytes, q, n) == n);
            if n > 0 {
                assert((heard(f) + new).skip(heard(f).len() as int) =~= new);
                assert(self.collector@ == queue_after(f, bytes, q, n));
            }
        }
        None
    }
}

pub open spec fn byte_digit(b: u8) -> bool {
    0x30 <= b <= 0x39
}

/// Where a run of digits ends that goes on at a place.
pub open spec fn digits_end(b: Seq<u8>, i: int) -> int
    decreases b.len() - i,
{
    if 0 <= i < b.len() && byte_digit(b[i]) {
        digits_end(b, i + 1)
    } else {
        i
    }
}

fn find_digits_end(b: &[u8], from: usize) -> (r: usize)
    requires
        from <= b@.len(),
    ensures
        r == digits_end(b@, from as int),
        from <= r <= b@.len(),
        forall|k: int| from <= k < r ==> byte_digit(#[trigger] b@[k]),
{
    let mut i: usize = from;
    while i < b.len() && 0x30 <= b[i] && b[i] <= 0x39
        invariant
            from <= i <= b@.len(),
            digits_end(b@, from as int) == digits_end(b@, i as int),
            forall|k: int| from <= k < i ==> byte_digit(#[trigger] b@[k]),
        decreases b@.len() - i,
    {
        i = i + 1;
    }
    i
}

/// The number of one or two digits.
pub open spec fn short_number(d: Seq<u8>) -> u32 {
    if d.len() == 1 {
        (d[0] - 0x30) as u32
    } else if d.len() == 2 {
        ((d[0] - 0x30) * 10 + (d[1] - 0x30)) as u32
    } else {
        0
    }
}

/// The key of the bytes behind an escape, and how many they are; nothing where
/// more bytes are needed.
pub open spec fn esc_seq_key(b: Seq<u8>) -> Option<(KeyEvent, int)> {
    if b.len() == 0 {
        None
    } else if b[0] == 0x5b {
        if b.len() == 1 {
            None
        } else if 0x41 <= b[1] <= 0x44 {
            Some((plain(letter_code(b[1] as char)->0), 2))
        } else if 0x31 <= b[1] <= 0x39 {
            let e = digits_end(b, 2);
            if e >= b.len() {
                None
            } else {
                let code = match number_code(short_number(b.subrange(1, e))) {
                    Some(k) => k,
                    None => KeyCode::Esc,
                };
                Some((plain(code), e + 1))
            }
        } else {
            Some((plain(KeyCode::Esc), 2))
        }
    } else if b[0] == 0x4f {
        if b.len() == 1 {
            None
        } else if 0x50 <= b[1] <= 0x53 {
            Some((plain(ss3_code(b[1] as char)->0), 2))
        } else {
            Some((plain(KeyCode::Esc), 2))
        }
    } else {
        Some((plain(KeyCode::Esc), 1))
    }
}

/// Reads the bytes behind an escape as a key.
pub fn parse_esc_seq(b: &[u8]) -> (r: Option<(KeyEvent, usize)>)
    ensures
        r is Some <==> esc_seq_key(b@) is Some,
        r is Some ==> (r->0).0 == (esc_seq_key(b@)->0).0 && (r->0).1 == (esc_seq_key(b@)->0).1,
{
    if b.len() == 0 {
        return None;
    }
    if b[0] == 0x5b {
        if b.len() == 1 {
            return None;
        }
        let c: u8 = b[1];
        if 0x41 <= c && c <= 0x44 {
            return match letter_key(c as char) {
                Some(k) => Some((plain_key(k), 2)),
                None => None,
            };
        }
        if 0x31 <= c && c <= 0x39 {
            let e = find_digits_end(b, 2);
            if e >= b.len() {
                return None;
            }
            let ghost d = b@.subrange(1, e as int);
            assert(d.len() == e - 1);
            let n: u32 = if e == 2 {
                (b[1] - 0x30) as u32
            } else if e == 3 {
                assert(byte_digit(b@[2]));
                (b[1] - 0x30) as u32 * 10 + (b[2] - 0x30) as u32
            } else {
                0
            };
            assert(n == short_number(d));
            let code = match number_key(n) {
                Some(k) => k,
                None => KeyCode::Esc,
            };
            return Some((plain_key(code), e + 1));
        }
        return Some((plain_key(KeyCode::Esc), 2));
    }
    if b[0] == 0x4f {
        if b.len() == 1 {
            return None;
        }
        let c: u8 = b[1];
        if 0x50 <= c && c <= 0x53 {
            return match ss3_key(c as char) {
                Some(k) => Some((plain_key(k), 2)),
                None => None,
            };
        }
        return Some((plain_key(KeyCode::Esc), 2));
    }
    Some((plain_key(KeyCode::Esc), 1))
}

/// What bytes read one by one amount to.
#[derive(Debug)]
pub enum Collected {
    /// The start of an escape sequence.
    Escape,
    /// A character.
    Text(String),
    /// Too few bytes for a character.
    More,
    /// Bytes that are no character.
    GiveUp,
}

/// What bytes read one by one amount to, where more may be waiting.
pub fn collect_key(bytes: &[u8], more_waiting: bool) -> (r: Collected)
    ensures
        match r {
            Collected::Escape => bytes@ == seq![0x1bu8] && more_waiting,
            Collected::Text(s) => !(bytes@ == seq![0x1bu8] && more_waiting) && decoded(bytes@)
                == Some(s@),
            Collected::More => !(bytes@ == seq![0x1bu8] && more_waiting) && decoded(bytes@) is None
                && bytes@.len() < 4,
            Collected::GiveUp => !(bytes@ == seq![0x1bu8] && more_waiting) && decoded(
                bytes@,
            ) is None && bytes@.len() >= 4,
        },
{
    if bytes.len() == 1 && bytes[0] == 0x1b && more_waiting {
        assert(bytes@ =~= seq![0x1bu8]);
        return Collected::Escape;
    }
    if let Some(s) = decode(bytes) {
        return Collected::Text(s);
    }
    if bytes.len() >= 4 {
        Collected::GiveUp
    } else {
        Collected::More
    }
}

/// The value of digits, as far as it goes.
pub open spec fn capped_number(d: Seq<u8>) -> nat
    decreases d.len(),
{
    if d.len() == 0 {
        0
    } else {
        let t = capped_number(d.drop_last()) * 10;
        let u = if t <= u32::MAX {
            t
        } else {
            u32::MAX as nat
        };
        let v = u + (d.last() - 0x30) as nat;
        if v <= u32::MAX {
            v
        } else {
            u32::MAX as nat
        }
    }
}

/// Reads digits up to a separator: the number, if nothing but digits is before
/// it, and the place behind; nothing where more bytes are needed.
pub fn read_digits_until(b: &[u8], from: usize, sep: u8) -> (r: Option<(Option<u32>, usize)>)
    requires
        from <= b@.len(),
        !byte_digit(sep),
    ensures
        ({
            let e = digits_end(b@, from as int);
            match r {
                None => e >= b@.len(),
                Some(p) => e < b@.len() && p.1 == e + 1 && (if b@[e] == sep {
                    p.0 is Some && p.0->0 == capped_number(b@.subrange(from as int, e))
                } else {
                    p.0 is None
                }),
            }
        }),
        r is Some ==> (r->0).1 <= b@.len(),
{
    let e = find_digits_end(b, from);
    if e >= b.len() {
        return None;
    }
    if b[e] != sep {
        return Some((None, e + 1));
    }
    let mut n: u32 = 0;
    let mut i: usize = from;
    assert(b@.subrange(from as int, from as int) =~= Seq::<u8>::empty());
    while i < e
        invariant
            from <= i <= e < b@.len(),
            forall|k: int| from <= k < e ==> byte_digit(#[trigger] b@[k]),
            n == capped_number(b@.subrange(from as int, i as int)),
        decreases e - i,
    {
        assert(byte_digit(b@[i as int]));
        n = append_digit(n, (b[i] - 0x30) as u32);
        assert(b@.subrange(from as int, i + 1).drop_last() =~= b@.subrange(from as int, i as int));
        i = i + 1;
    }
    Some((Some(n), e + 1))
}

/// What a terminal reported of its cursor.
#[derive(Debug, Clone, Copy, PartialEq, Eq, Structural)]
pub enum Report {
    /// Row and column.
    At(usize, usize),
    /// No report.
    Other,
    /// More bytes are needed.
    More,
}

/// The report in some bytes.
pub open spec fn report_of(b: Seq<u8>) -> Report {
    if b.len() == 0 {
        Report::More
    } else if b[0] != 0x1b {
        Report::Other
    } else if b.len() == 1 {
        Report::More
    } else if b[1] != 0x5b {
        Report::Other
    } else {
        let e = digits_end(b, 2);
        if e >= b.len() {
            Report::More
        } else {
            let f = digits_end(b, e + 1);
            if f >= b.len() {
                Report::More
            } else if b[e] == 0x3b && b[f] == 0x52 {
                Report::At(
                    capped_number(b.subrange(2, e)) as usize,
                    capped_number(b.subrange(e + 1, f)) as usize,
                )
            } else {
                Report::Other
            }
        }
    }
}

/// Reads what a terminal reported of its cursor.
pub fn cursor_report(b: &[u8]) -> (r: Report)
    ensures
        r == report_of(b@),
{
    if b.len() == 0 {
        return Report::More;
    }
    if b[0] != 0x1b {
        return Report::Other;
    }
    if b.len() == 1 {
        return Report::More;
    }
    if b[1] != 0x5b {
        return Report::Other;
    }
    match read_digits_until(b, 2, 0x3b) {
        None => Report::More,
        Some((row, next)) => match read_digits_until(b, next, 0x52) {
            None => Report::More,
            Some((col, _)) => match (row, col) {
                (Some(y), Some(x)) => Report::At(y as usize, x as usize),
                _ => Report::Other,
            },
        },
    }
}

/// What is sent before a prompt where the cursor is not at the margin: a mark,
/// and a line break.
pub fn fix_cursor_column(at: Report) -> (r: Option<&'static str>)
    ensures
        match at {
            Report::At(_, c) => if c == 1 {
                r is None
            } else {
                r is Some && r->0@ == "\x1b[7m%\x1b[0m\n\r"@
            },
            _ => r is None,
        },
{
    match at {
        Report::At(_, c) => if c == 1 {
            None
        } else {
            Some("\x1b[7m%\x1b[0m\n\r")
        },
        _ => None,
    }
}

/// What is sent to go to the margin: a line break where something may stand to
/// the right.
pub fn move_cursor_at_leftmost(col: Option<u32>, use_newline: bool) -> (r: Option<&'static str>)
    ensures
        col == Some(1u32) ==> r is None,
        col != Some(1u32) ==> r is Some && r->0@ == (if use_newline {
            "\n"@
        } else {
            "\r"@
        }),
{
    if let Some(c) = col {
        if c == 1 {
            return None;
        }
    }
    if use_newline {
        Some("\n")
    } else {
        Some("\r")
    }
}

/// Pasted text comes out as it went in: with nothing waiting, text fed with the
/// marker behind it, but none inside, is what the next key holds.
pub proof fn paste_is_whole(t: Seq<u8>, rest: Seq<u8>)
    requires
        marker_end(t + paste_marker(), 0) == Some(t.len() as int + 6),
    ensures
        marker_end(t + paste_marker() + rest, 0) == Some(t.len() as int + 6),
        (t + paste_marker() + rest).take(t.len() as int) == t,
        (t + paste_marker() + rest).skip(t.len() as int + 6) == rest,
{
    lemma_marker_longer(t + paste_marker(), rest, 0);
    assert((t + paste_marker() + rest).take(t.len() as int) =~= t);
    assert((t + paste_marker() + rest).skip(t.len() as int + 6) =~= rest);
}

proof fn lemma_marker_longer(a: Seq<u8>, b: Seq<u8>, n: int)
    requires
        marker_end(a, n) is Some,
    ensures
        marker_end(a + b, n) == marker_end(a, n),
    decreases a.len() - n + 1,
{
    if n >= 6 {
        assert((a + b).subrange(n - 6, n) =~= a.subrange(n - 6, n));
    }
    if !(n >= 6 && a.subrange(n - 6, n) == paste_marker()) {
        lemma_marker_longer(a, b, n + 1);
    }
}

} // verus!
