//! What the editor asks of Unicode: character classes, display widths and
//! grapheme clusters.

use smallvec::SmallVec;
use unicode_segmentation::UnicodeSegmentation;
use unicode_width::UnicodeWidthChar;
use unicode_width::UnicodeWidthStr;
use vstd::prelude::*;

verus! {

/// Whether a character beyond ASCII is alphabetic or numeric in the sense of
/// Unicode.
pub uninterp spec fn alphanumeric_beyond(c: char) -> bool;

/// Whether a character is alphabetic or numeric in the sense of Unicode.
pub open spec fn alphanumeric(c: char) -> bool {
    if (c as u32) < 0x80 {
        ascii_alpha(c) || ascii_digit(c)
    } else {
        alphanumeric_beyond(c)
    }
}

/// Whether a character has the Unicode `White_Space` property: the controls from
/// tab to carriage return and U+0085, and the space separators, the line separator
/// and the paragraph separator.
pub open spec fn whitespace(c: char) -> bool {
    let n = c as u32;
    ||| 0x9 <= n <= 0xd || n == 0x20 || n == 0x85 || n == 0xa0 || n == 0x1680
    ||| 0x2000 <= n <= 0x200a || n == 0x2028 || n == 0x2029 || n == 0x202f || n == 0x205f
    ||| n == 0x3000
}

/// Whether a character beyond ASCII has the Unicode `Uppercase` property.
pub uninterp spec fn uppercase_beyond(c: char) -> bool;

/// Whether a character has the Unicode `Uppercase` property.
pub open spec fn uppercase(c: char) -> bool {
    if (c as u32) < 0x80 {
        ascii_upper(c)
    } else {
        uppercase_beyond(c)
    }
}

/// Whether a character beyond ASCII has the Unicode `Lowercase` property.
pub uninterp spec fn lowercase_beyond(c: char) -> bool;

/// Whether a character has the Unicode `Lowercase` property.
pub open spec fn lowercase(c: char) -> bool {
    if (c as u32) < 0x80 {
        ascii_lower(c)
    } else {
        lowercase_beyond(c)
    }
}

/// What `str::to_lowercase` makes of a text that is not all ASCII.
pub uninterp spec fn lowered_beyond(s: Seq<char>) -> Seq<char>;

/// A text in lower case.
pub open spec fn lowered(s: Seq<char>) -> Seq<char> {
    if vstd::utf8::is_ascii_chars(s) {
        s.map_values(|c: char| to_lower_ascii(c))
    } else {
        lowered_beyond(s)
    }
}

/// The columns that a single character takes, `None` for a control character.
pub uninterp spec fn char_columns(c: char) -> Option<usize>;

/// The columns that a string takes.
pub uninterp spec fn str_columns(s: Seq<char>) -> usize;

/// The extended grapheme clusters of a text, in order.
pub uninterp spec fn clusters(s: Seq<char>) -> Seq<Seq<char>>;

/// `char::is_alphanumeric` holds of the ASCII letters and digits, and beyond ASCII
/// depends on the character alone.
pub assume_specification[ char::is_alphanumeric ](c: char) -> (r: bool)
    ensures
        r == (if (c as u32) < 0x80 {
            ascii_alpha(c) || ascii_digit(c)
        } else {
            alphanumeric_beyond(c)
        }),
;

/// `char::is_whitespace` holds of the characters with the property `White_Space`.
pub assume_specification[ char::is_whitespace ](c: char) -> (r: bool)
    ensures
        r == whitespace(c),
;

/// `char::is_uppercase` holds of `A` to `Z`, and beyond ASCII depends on the character
/// alone.
pub assume_specification[ char::is_uppercase ](c: char) -> (r: bool)
    ensures
        r == (if (c as u32) < 0x80 {
            ascii_upper(c)
        } else {
            uppercase_beyond(c)
        }),
;

/// `char::is_lowercase` holds of `a` to `z`, and beyond ASCII depends on the character
/// alone.
pub assume_specification[ char::is_lowercase ](c: char) -> (r: bool)
    ensures
        r == (if (c as u32) < 0x80 {
            ascii_lower(c)
        } else {
            lowercase_beyond(c)
        }),
;

/// The control characters: the C0 block, delete, and the C1 block.
pub open spec fn control(c: char) -> bool {
    c as u32 <= 0x1f || 0x7f <= (c as u32) <= 0x9f
}

/// `char::is_control` holds of the general category `Cc`.
pub assume_specification[ char::is_control ](c: char) -> (r: bool)
    ensures
        r == control(c),
;

/// The ASCII digits.
pub open spec fn ascii_digit(c: char) -> bool {
    '0' <= c && c <= '9'
}

/// The ASCII letters `a` to `z`.
pub open spec fn ascii_lower(c: char) -> bool {
    'a' <= c && c <= 'z'
}

/// The ASCII letters `A` to `Z`.
pub open spec fn ascii_upper(c: char) -> bool {
    'A' <= c && c <= 'Z'
}

/// The ASCII letters.
pub open spec fn ascii_alpha(c: char) -> bool {
    ascii_lower(c) || ascii_upper(c)
}

/// The ASCII punctuation: the printable characters that are neither letters,
/// digits nor the space.
pub open spec fn ascii_punct(c: char) -> bool {
    ||| ('!' <= c && c <= '/')
    ||| (':' <= c && c <= '@')
    ||| ('[' <= c && c <= '`')
    ||| ('{' <= c && c <= '~')
}

/// A letter `A` to `Z` in lower case, any other character as it is.
pub open spec fn to_lower_ascii(c: char) -> char {
    if ascii_upper(c) {
        (c as u32 + 32) as char
    } else {
        c
    }
}

/// A letter `a` to `z` in upper case, any other character as it is.
pub open spec fn to_upper_ascii(c: char) -> char {
    if ascii_lower(c) {
        (c as u32 - 32) as char
    } else {
        c
    }
}

/// Whether two characters are equal up to the case of ASCII letters.
pub open spec fn same_letter(a: char, b: char) -> bool {
    to_lower_ascii(a) == to_lower_ascii(b)
}

pub fn is_ascii_digit(c: char) -> (r: bool)
    ensures
        r == ascii_digit(c),
{
    '0' <= c && c <= '9'
}

pub fn is_ascii_lower(c: char) -> (r: bool)
    ensures
        r == ascii_lower(c),
{
    'a' <= c && c <= 'z'
}

pub fn is_ascii_upper(c: char) -> (r: bool)
    ensures
        r == ascii_upper(c),
{
    'A' <= c && c <= 'Z'
}

pub fn is_ascii_alpha(c: char) -> (r: bool)
    ensures
        r == ascii_alpha(c),
{
    is_ascii_lower(c) || is_ascii_upper(c)
}

pub fn is_ascii_punct(c: char) -> (r: bool)
    ensures
        r == ascii_punct(c),
{
    ('!' <= c && c <= '/') || (':' <= c && c <= '@') || ('[' <= c && c <= '`') || ('{' <= c && c
        <= '~')
}

pub fn ascii_lowered(c: char) -> (r: char)
    ensures
        r == to_lower_ascii(c),
{
    if is_ascii_upper(c) {
        ((c as u8) + 32u8) as char
    } else {
        c
    }
}

pub fn ascii_uppered(c: char) -> (r: char)
    ensures
        r == to_upper_ascii(c),
{
    if is_ascii_lower(c) {
        ((c as u8) - 32u8) as char
    } else {
        c
    }
}

pub fn is_same_letter(a: char, b: char) -> (r: bool)
    ensures
        r == same_letter(a, b),
{
    ascii_lowered(a) == ascii_lowered(b)
}

/// `str::to_lowercase` depends on the characters of the string alone. In a text
/// of ASCII characters it maps `A` to `Z` to `a` to `z` and keeps the others.
pub assume_specification[ str::to_lowercase ](s: &str) -> (r: String)
    ensures
        vstd::utf8::is_ascii_chars(s@) ==> r@ == s@.map_values(|c: char| to_lower_ascii(c)),
        !vstd::utf8::is_ascii_chars(s@) ==> r@ == lowered_beyond(s@),
;

/// `unicode_width::UnicodeWidthChar::width` depends on the character alone.
/// A printable ASCII character takes one column, and the control characters,
/// ASCII or not, have no width.
#[verifier::external_body]
pub(crate) fn width_of_char(c: char) -> (r: Option<usize>)
    ensures
        r == char_columns(c),
        0x20 <= (c as u32) < 0x7f ==> r == Some(1usize),
        control(c) ==> r is None,
        r is Some ==> r->0 <= 255,
{
    UnicodeWidthChar::width(c)
}

/// `unicode_width::UnicodeWidthStr::width` depends on the characters of the
/// string alone. The empty string takes no column.
#[verifier::external_body]
pub(crate) fn width_of_str(s: &str) -> (r: usize)
    ensures
        r == str_columns(s@),
        s@.len() == 0 ==> r == 0,
{
    UnicodeWidthStr::width(s)
}

/// The pieces of a text, put together again.
pub open spec fn joined(pieces: Seq<Seq<char>>) -> Seq<char>
    decreases pieces.len(),
{
    if pieces.len() == 0 {
        Seq::empty()
    } else {
        joined(pieces.drop_last()) + pieces.last()
    }
}

/// `unicode_segmentation::UnicodeSegmentation::graphemes` with extended
/// clusters: the clusters depend on the text alone, none is empty, and
/// together they are the text.
#[verifier::external_body]
pub(crate) fn graphemes_of(s: &str) -> (r: Vec<String>)
    ensures
        r@.map_values(|g: String| g@) == clusters(s@),
        joined(r@.map_values(|g: String| g@)) == s@,
        forall|i: int| 0 <= i < r@.len() ==> (#[trigger] r@[i])@.len() > 0,
{
    s.graphemes(true).map(String::from).collect()
}

/// A short run of characters, kept inline while there are at most four.
#[verifier::external_body]
#[derive(Debug)]
pub struct CharVec {
    inner: SmallVec<[char; 4]>,
}

/// The characters that a `CharVec` holds, in order.
pub uninterp spec fn char_vec(v: CharVec) -> Seq<char>;

impl View for CharVec {
    type V = Seq<char>;

    open spec fn view(&self) -> Seq<char> {
        char_vec(*self)
    }
}

impl CharVec {
    /// `SmallVec::new` holds nothing.
    #[verifier::external_body]
    pub(crate) fn new() -> (r: CharVec)
        ensures
            char_vec(r) == Seq::<char>::empty(),
    {
        CharVec { inner: SmallVec::new() }
    }

    /// `SmallVec::push` appends one item.
    #[verifier::external_body]
    pub(crate) fn push(&mut self, c: char)
        ensures
            char_vec(*final(self)) == char_vec(*old(self)).push(c),
    {
        self.inner.push(c)
    }

    /// `SmallVec::as_slice` shows the items.
    #[verifier::external_body]
    pub(crate) fn as_slice(&self) -> (r: &[char])
        ensures
            r@ == char_vec(*self),
    {
        self.inner.as_slice()
    }
}

} // verus!
