//! What comes from the terminal, what key it is, and what the key does.

use crate::editcmd::Direction;
use crate::editcmd::Motion;
use crate::editcmd::To;
use crate::editcmd::Verb;
use crate::editcmd::Word;
use crate::editmode;
use crate::editmode::emacs;
use crate::keys::KeyCode;
use crate::keys::KeyEvent;
use crate::keys::ModKeys;
use crate::term::reader;
use crate::term::reader::PollReader;
use crate::term::reader::Report;
use crate::text;
use crate::unicode;
use crate::vimode;
use vstd::prelude::*;

verus! {

/// The sequences of a terminal agree: a key that two kinds of them can send is the same
/// key.
pub proof fn sequences_agree(c: char, n: u16)
    ensures
        reader::letter_code(c) is Some ==> reader::ss3_code(c) == reader::letter_code(c),
        reader::number_code(n as u32) is Some ==> reader::tilde_code(n) == reader::number_code(
            n as u32,
        ),
{
}

/// The arrows, Home and End are told by a letter: up, down, right and left from A to D, End
/// by F and Home by H. The first four function keys follow from P on.
pub proof fn letters_tell_keys()
    ensures
        reader::letter_code('A') == Some(KeyCode::Up),
        reader::letter_code('B') == Some(KeyCode::Down),
        reader::letter_code('C') == Some(KeyCode::Right),
        reader::letter_code('D') == Some(KeyCode::Left),
        reader::letter_code('F') == Some(KeyCode::End),
        reader::letter_code('H') == Some(KeyCode::Home),
        reader::ss3_code('P') == Some(KeyCode::F(1)),
        reader::ss3_code('Q') == Some(KeyCode::F(2)),
        reader::ss3_code('R') == Some(KeyCode::F(3)),
        reader::ss3_code('S') == Some(KeyCode::F(4)),
{
}

/// The function keys from five on are told by numbers that grow with them; Home and End,
/// Delete and Insert and the pages by smaller ones.
pub proof fn numbers_tell_keys(i: u16)
    ensures
        i == 5 ==> reader::tilde_code((i + 10) as u16) == Some(KeyCode::F(5)),
        6 <= i <= 10 ==> reader::tilde_code((i + 11) as u16) == Some(KeyCode::F(i as u8)),
        11 <= i <= 12 ==> reader::tilde_code((i + 12) as u16) == Some(KeyCode::F(i as u8)),
        reader::tilde_code(1) == Some(KeyCode::Home) && reader::tilde_code(7) == Some(
            KeyCode::Home,
        ),
        reader::tilde_code(4) == Some(KeyCode::End) && reader::tilde_code(8) == Some(KeyCode::End),
        reader::tilde_code(2) == Some(KeyCode::Insert),
        reader::tilde_code(3) == Some(KeyCode::Delete),
        reader::tilde_code(5) == Some(KeyCode::PageUp),
        reader::tilde_code(6) == Some(KeyCode::PageDown),
        reader::tilde_code(200) == Some(KeyCode::BracketedPasteStart),
        reader::tilde_code(201) == Some(KeyCode::BracketedPasteEnd),
{
}

/// The modifiers are told by one number: one more than one for shift, two for alt and four
/// for control.
pub proof fn modifiers_add_up(ctrl: bool, alt: bool, shift: bool)
    ensures
        ({
            let n = 1 + (if shift {
                1int
            } else {
                0
            }) + (if alt {
                2int
            } else {
                0
            }) + (if ctrl {
                4int
            } else {
                0
            });
            reader::mods_of(n as u16) == ModKeys::of(ctrl, alt, shift)
        }),
        reader::mods_of(0) == ModKeys::of(false, false, false),
{
}

/// A control sequence with modifiers is the key of the sequence with them.
pub proof fn sequences_have_modifiers(c: char, n: u16, m: u16, k: KeyCode)
    ensures
        reader::letter_code(c) == Some(k) ==> reader::csi_event(seq![1u16, m], true, c) == Some(
            KeyEvent(k, reader::mods_of(m)),
        ),
        reader::letter_code(c) == Some(k) ==> reader::csi_event(Seq::empty(), true, c) == Some(
            KeyEvent(k, ModKeys::of(false, false, false)),
        ),
        reader::tilde_code(n) == Some(k) ==> reader::csi_event(seq![n, m], true, '~') == Some(
            KeyEvent(k, reader::mods_of(m)),
        ),
        reader::csi_event(Seq::empty(), true, 'Z') == Some(
            KeyEvent(KeyCode::Tab, ModKeys::of(false, false, true)),
        ),
        32 <= n < 127 ==> reader::csi_event(seq![n, m], true, 'u') == Some(
            KeyEvent(KeyCode::Char(n as char), reader::mods_of(m)),
        ),
{
    assert(seq![1u16, m][1] == m);
    assert(seq![n, m][0] == n);
}

/// A control character is its letter with control, but for those that have keys of their
/// own.
pub proof fn control_characters_are_letters(c: char)
    requires
        'A' <= c <= 'Z',
    ensures
        c != 'I' && c != 'M' && c != 'J' ==> reader::control_event((c as u32 - 64) as u8) == Some(
            KeyEvent(KeyCode::Char(c), ModKeys::of(true, false, false)),
        ),
        reader::control_event(9) == Some(reader::plain(KeyCode::Tab)),
        reader::control_event(13) == Some(reader::plain(KeyCode::Enter)),
        reader::control_event(27) == Some(reader::plain(KeyCode::Esc)),
        reader::control_event(127) == Some(reader::plain(KeyCode::Backspace)),
{
}

/// A character that is printed is its key.
pub proof fn printed_characters_are_keys(c: char)
    ensures
        c != '\x7f' ==> reader::printed_event(c, false) == KeyEvent(
            KeyCode::Char(c),
            ModKeys::of(false, false, false),
        ),
        reader::printed_event('\x7f', false).0 == KeyCode::Backspace,
{
}

/// An escape alone is the escape key; before a character it is that character with alt;
/// before a bracket or an O it begins a sequence.
pub proof fn escapes_are_keys(c: char, rest: Seq<u8>)
    ensures
        PollReader::escape_key(seq![0x1bu8]) == Some((1int, reader::plain(KeyCode::Esc))),
        'a' <= c <= 'z' ==> PollReader::escape_key(seq![0x1bu8, c as u8] + rest) == Some(
            (
                2int,
                KeyEvent(
                    KeyCode::Char((c as u32 - 32) as char),
                    ModKeys::of(false, true, false),
                ),
            ),
        ),
        '0' <= c <= '9' ==> PollReader::escape_key(seq![0x1bu8, c as u8] + rest) == Some(
            (2int, KeyEvent(KeyCode::Char(c), ModKeys::of(false, true, false))),
        ),
        PollReader::escape_key(seq![0x1bu8, 0x5bu8] + rest) is None,
        PollReader::escape_key(seq![0x1bu8, 0x4fu8] + rest) is None,
{
    let s = seq![0x1bu8, c as u8] + rest;
    assert(s[0] == 0x1bu8 && s[1] == c as u8);
    let b = seq![0x1bu8, 0x5bu8] + rest;
    assert(b[0] == 0x1bu8 && b[1] == 0x5bu8);
    let o = seq![0x1bu8, 0x4fu8] + rest;
    assert(o[0] == 0x1bu8 && o[1] == 0x4fu8);
}

/// Digits as they come from the terminal.
pub open spec fn digit_bytes(d: Seq<char>) -> Seq<u8> {
    Seq::new(d.len(), |i: int| (d[i] as u32) as u8)
}

proof fn lemma_digits_end(a: Seq<u8>, d: Seq<char>, rest: Seq<u8>, i: int)
    requires
        text::all_digits(d),
        a.len() <= i <= a.len() + d.len(),
        rest.len() > 0 ==> !reader::byte_digit(rest[0]),
    ensures
        reader::digits_end(a + digit_bytes(d) + rest, i) == a.len() + d.len(),
    decreases a.len() + d.len() - i,
{
    let b = a + digit_bytes(d) + rest;
    if i < a.len() + d.len() {
        let k = i - a.len();
        assert(b[i] == digit_bytes(d)[k]);
        assert(unicode::ascii_digit(d[k]));
        lemma_digits_end(a, d, rest, i + 1);
    } else if rest.len() > 0 {
        assert(b[i] == rest[0]);
    }
}

proof fn lemma_number(d: Seq<char>)
    requires
        text::all_digits(d),
        text::digits_value(d) <= u32::MAX,
    ensures
        reader::capped_number(digit_bytes(d)) == text::digits_value(d),
    decreases d.len(),
{
    if d.len() > 0 {
        let e = d.drop_last();
        assert forall|i: int| 0 <= i < e.len() implies unicode::ascii_digit(#[trigger] e[i]) by {
            assert(e[i] == d[i]);
        }
        assert(unicode::ascii_digit(d[d.len() - 1]));
        lemma_number(e);
        assert(digit_bytes(d).drop_last() =~= digit_bytes(e));
        assert(digit_bytes(d).last() == (d.last() as u32) as u8);
    }
}

/// The report of the cursor gives its row and its column as they are written.
pub proof fn reports_give_the_place(row: nat, col: nat, rest: Seq<u8>)
    requires
        row <= u32::MAX,
        col <= u32::MAX,
    ensures
        reader::report_of(
            seq![0x1bu8, 0x5bu8] + digit_bytes(text::decimal(row)) + seq![0x3bu8] + digit_bytes(
                text::decimal(col),
            ) + seq![0x52u8] + rest,
        ) == Report::At(row as usize, col as usize),
{
    let r = text::decimal(row);
    let c = text::decimal(col);
    text::decimal_reads_back(row);
    text::decimal_reads_back(col);
    let head = seq![0x1bu8, 0x5bu8];
    let b = head + digit_bytes(r) + seq![0x3bu8] + digit_bytes(c) + seq![0x52u8] + rest;
    let tail = seq![0x3bu8] + digit_bytes(c) + seq![0x52u8] + rest;
    assert(b =~= head + digit_bytes(r) + tail);
    lemma_digits_end(head, r, tail, 2);
    let e = (2 + r.len()) as int;
    let front = head + digit_bytes(r) + seq![0x3bu8];
    let back = seq![0x52u8] + rest;
    assert(b =~= front + digit_bytes(c) + back);
    lemma_digits_end(front, c, back, e + 1);
    let f = e + 1 + c.len();
    assert(b[0] == 0x1bu8 && b[1] == 0x5bu8);
    assert(b[e] == 0x3bu8);
    assert(b[f] == 0x52u8);
    assert(b.subrange(2, e) =~= digit_bytes(r));
    assert(b.subrange(e + 1, f) =~= digit_bytes(c));
    lemma_number(r);
    lemma_number(c);
}

/// In emacs mode the keys that kill or change go over what the keys that move go over: to
/// the ends of the row, or a word on and back.
pub proof fn emacs_keys_go_over_the_same()
    ensures
        emacs::ctrl_parts('k') == Some((Some(Verb::Kill), (emacs::ctrl_parts('e')->0).1)),
        emacs::ctrl_parts('u') == Some((Some(Verb::Kill), (emacs::ctrl_parts('a')->0).1)),
        emacs::ctrl_parts('w') == Some((Some(Verb::Kill), (emacs::alt_parts('b')->0).1)),
        emacs::alt_parts('d') == Some((Some(Verb::Kill), (emacs::alt_parts('f')->0).1)),
        emacs::alt_parts('u') == Some((Some(Verb::ToUpper), (emacs::alt_parts('f')->0).1)),
        emacs::alt_parts('l') == Some((Some(Verb::ToLower), (emacs::alt_parts('f')->0).1)),
        emacs::alt_parts('c') == Some((Some(Verb::Capitalize), (emacs::alt_parts('f')->0).1)),
        emacs::ctrl_parts('d') == Some((Some(Verb::DeleteOrEof), (emacs::ctrl_parts('f')->0).1)),
        emacs::ctrl_parts('a') == Some((None::<Verb>, Some(Motion::StartOfLine))),
        emacs::ctrl_parts('e') == Some((None::<Verb>, Some(Motion::EndOfLine))),
        emacs::ctrl_parts('f') == Some((None::<Verb>, Some(Motion::ForwardCharForced))),
        emacs::ctrl_parts('b') == Some((None::<Verb>, Some(Motion::BackwardCharForced))),
        emacs::alt_parts('f') == Some(
            (None::<Verb>, Some(Motion::WordMotion(To::End, Word::Normal, Direction::Forward))),
        ),
        emacs::alt_parts('b') == Some(
            (None::<Verb>, Some(Motion::WordMotion(To::Start, Word::Normal, Direction::Backward))),
        ),
        emacs::ctrl_parts('y') == Some((Some(Verb::KillPut), None::<Motion>)),
        emacs::alt_parts('y') == Some((Some(Verb::KillCycle), None::<Motion>)),
        emacs::ctrl_parts('t') == Some((Some(Verb::TransposeChar), None::<Motion>)),
        emacs::alt_parts('t') == Some((Some(Verb::TransposeWord), None::<Motion>)),
        emacs::ctrl_parts('/') == Some((Some(Verb::Undo), None::<Motion>)),
        emacs::alt_parts('/') == Some((Some(Verb::Redo), None::<Motion>)),
{
}

/// A character without modifiers is typed.
pub proof fn characters_are_typed(c: char)
    ensures
        emacs::emacs_parts(KeyEvent(KeyCode::Char(c), ModKeys::of(false, false, false))) == Some(
            (Some(Verb::InsertChar(c)), Some(Motion::ForwardChar)),
        ),
        emacs::emacs_parts(KeyEvent(KeyCode::Char(c), ModKeys::of(true, false, false)))
            == emacs::ctrl_parts(c),
        emacs::emacs_parts(KeyEvent(KeyCode::Char(c), ModKeys::of(false, true, false)))
            == emacs::alt_parts(c),
        emacs::emacs_parts(KeyEvent(KeyCode::Backspace, ModKeys::of(false, false, false))) == Some(
            (Some(Verb::Delete), Some(Motion::BackwardCharForced)),
        ),
        emacs::emacs_parts(KeyEvent(KeyCode::Backspace, ModKeys::of(false, true, false)))
            == emacs::ctrl_parts('w'),
{
}

/// The keys of the keyboard do in the vi modes what they do in the others: Home and End go
/// to the ends of the row, the arrows a character or a row on or back, and Enter ends the
/// line.
pub proof fn the_modes_share_their_keys(k: KeyCode)
    requires
        k is Home || k is End || k is Left || k is Right || k is Up || k is Down || k is Enter,
    ensures
        ({
            let e = KeyEvent(k, ModKeys::of(false, false, false));
            let a = vimode::common_parts(e);
            let b = editmode::common_parts(e);
            &&& a is Some && b is Some
            &&& a->0 == ((b->0).0, (b->0).1)
            &&& k is Home ==> (a->0).1 == Some(Motion::StartOfLine)
            &&& k is End ==> (a->0).1 == Some(Motion::EndOfLine)
            &&& k is Left ==> (a->0).1 == Some(Motion::BackwardChar)
            &&& k is Right ==> (a->0).1 == Some(Motion::ForwardChar)
            &&& k is Up ==> (a->0).1 == Some(Motion::LineUp)
            &&& k is Down ==> (a->0).1 == Some(Motion::LineDown)
            &&& k is Enter ==> (a->0).0 == Some(Verb::AcceptLineOrNewline)
            &&& !(k is Enter) ==> (a->0).0 is None
        }),
{
}

/// Delete and Backspace take the character at the cursor and the one before it; with
/// control the arrows go a word on or back; Enter with shift breaks the row.
pub proof fn other_keys_do_theirs()
    ensures
        ({
            let none = ModKeys::of(false, false, false);
            let ctrl = ModKeys::of(true, false, false);
            let shift = ModKeys::of(false, false, true);
            &&& vimode::common_parts(KeyEvent(KeyCode::Delete, none)) == Some(
                (Some(Verb::Delete), Some(Motion::ForwardChar)),
            )
            &&& vimode::common_parts(KeyEvent(KeyCode::Backspace, none)) == Some(
                (Some(Verb::Delete), Some(Motion::BackwardChar)),
            )
            &&& vimode::common_parts(KeyEvent(KeyCode::Char('H'), ctrl)) == vimode::common_parts(
                KeyEvent(KeyCode::Backspace, none),
            )
            &&& vimode::common_parts(KeyEvent(KeyCode::Char('D'), ctrl)) == Some(
                (Some(Verb::EndOfFile), None::<Motion>),
            )
            &&& (editmode::common_parts(KeyEvent(KeyCode::Delete, none))->0).1 == Some(
                Motion::ForwardCharForced,
            )
            &&& (editmode::common_parts(KeyEvent(KeyCode::Backspace, none))->0).1 == Some(
                Motion::BackwardCharForced,
            )
            &&& editmode::common_parts(KeyEvent(KeyCode::Char('H'), ctrl))
                == editmode::common_parts(KeyEvent(KeyCode::Backspace, none))
            &&& (editmode::common_parts(KeyEvent(KeyCode::Left, ctrl))->0).1 == Some(
                Motion::WordMotion(To::Start, Word::Normal, Direction::Backward),
            )
            &&& (editmode::common_parts(KeyEvent(KeyCode::Right, ctrl))->0).1 == Some(
                Motion::WordMotion(To::Start, Word::Normal, Direction::Forward),
            )
            &&& (editmode::common_parts(KeyEvent(KeyCode::Enter, shift))->0).0 == Some(
                Verb::InsertChar('\n'),
            )
            &&& (editmode::common_parts(KeyEvent(KeyCode::Char('P'), ctrl))->0).0 == Some(
                Verb::HistoryUp,
            )
            &&& (editmode::common_parts(KeyEvent(KeyCode::Char('N'), ctrl))->0).0 == Some(
                Verb::HistoryDown,
            )
            &&& (editmode::common_parts(KeyEvent(KeyCode::Char('L'), ctrl))->0).0 == Some(
                Verb::ClearScreen,
            )
            &&& (editmode::common_parts(KeyEvent(KeyCode::Char('D'), ctrl))->0).0 == Some(
                Verb::EndOfFile,
            )
        }),
{
}

/// The sequences behind an escape are read as their keys, and as far as they go: the arrows
/// by their letter, the first function keys by theirs, and the others by their number and a
/// tilde.
pub proof fn escape_sequences_are_read(rest: Seq<u8>)
    ensures
        reader::esc_seq_key(seq![0x5bu8, 0x41u8] + rest) == Some((reader::plain(KeyCode::Up), 2int)),
        reader::esc_seq_key(seq![0x5bu8, 0x42u8] + rest) == Some(
            (reader::plain(KeyCode::Down), 2int),
        ),
        reader::esc_seq_key(seq![0x5bu8, 0x43u8] + rest) == Some(
            (reader::plain(KeyCode::Right), 2int),
        ),
        reader::esc_seq_key(seq![0x5bu8, 0x44u8] + rest) == Some(
            (reader::plain(KeyCode::Left), 2int),
        ),
        reader::esc_seq_key(seq![0x4fu8, 0x50u8] + rest) == Some(
            (reader::plain(KeyCode::F(1)), 2int),
        ),
        reader::esc_seq_key(seq![0x5bu8, 0x33u8, 0x7eu8] + rest) == Some(
            (reader::plain(KeyCode::Delete), 3int),
        ),
        reader::esc_seq_key(seq![0x5bu8, 0x31u8, 0x35u8, 0x7eu8] + rest) == Some(
            (reader::plain(KeyCode::F(5)), 4int),
        ),
        reader::esc_seq_key(seq![0x5bu8]) is None,
{
    let a = seq![0x5bu8, 0x41u8] + rest;
    assert(a[0] == 0x5bu8 && a[1] == 0x41u8);
    let b = seq![0x5bu8, 0x42u8] + rest;
    assert(b[0] == 0x5bu8 && b[1] == 0x42u8);
    let c = seq![0x5bu8, 0x43u8] + rest;
    assert(c[0] == 0x5bu8 && c[1] == 0x43u8);
    let d = seq![0x5bu8, 0x44u8] + rest;
    assert(d[0] == 0x5bu8 && d[1] == 0x44u8);
    let e = seq![0x4fu8, 0x50u8] + rest;
    assert(e[0] == 0x4fu8 && e[1] == 0x50u8);
    let f = seq![0x5bu8, 0x33u8, 0x7eu8] + rest;
    assert(f[0] == 0x5bu8 && f[1] == 0x33u8 && f[2] == 0x7eu8);
    assert(reader::digits_end(f, 2) == 2);
    assert(f.subrange(1, 2) =~= seq![0x33u8]);
    let g = seq![0x5bu8, 0x31u8, 0x35u8, 0x7eu8] + rest;
    assert(g[0] == 0x5bu8 && g[1] == 0x31u8 && g[2] == 0x35u8 && g[3] == 0x7eu8);
    assert(reader::digits_end(g, 3) == 3);
    assert(reader::digits_end(g, 2) == 3);
    assert(g.subrange(1, 3) =~= seq![0x31u8, 0x35u8]);
}

proof fn lemma_marker_end(text: Seq<u8>, rest: Seq<u8>, n: int)
    requires
        !text.contains(0x1bu8),
        0 <= n <= text.len() + 6,
    ensures
        reader::marker_end(text + reader::paste_marker() + rest, n) == Some(text.len() as int + 6),
    decreases text.len() + 6 - n,
{
    let m = reader::paste_marker();
    let b = text + m + rest;
    if n == text.len() + 6 {
        assert(b.subrange(n - 6, n) =~= m);
    } else {
        if n >= 6 {
            let s = b.subrange(n - 6, n);
            assert(s[0] == b[n - 6] && b[n - 6] == text[n - 6]);
            assert(text.contains(text[n - 6]));
            assert(m[0] == 0x1bu8);
            assert(s != m);
        }
        lemma_marker_end(text, rest, n + 1);
    }
}

/// Pasted text is taken up to the marker of its end, which goes, and what comes behind it is
/// read on from.
pub proof fn pasted_text_ends_at_its_marker(
    text: Seq<u8>,
    rest: Seq<u8>,
    after: PollReader,
    r: Option<KeyEvent>,
)
    requires
        !text.contains(0x1bu8),
        PollReader::pasted(text + reader::paste_marker() + rest, after, r),
    ensures
        r is Some && reader::is_verbatim(r->0, reader::lossy(text)),
        after.byte_buf@ == rest,
        !after.verbatim,
        reader::paste_marker() == seq![0x1bu8, 0x5bu8, 0x32u8, 0x30u8, 0x31u8, 0x7eu8],
{
    let m = reader::paste_marker();
    let b = text + m + rest;
    lemma_marker_end(text, rest, 0);
    assert(b.take(text.len() as int) =~= text);
    assert(b.skip(text.len() as int + 6) =~= rest);
}

} // verus!
