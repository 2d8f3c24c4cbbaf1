//! Strings as sequences of characters: building, comparing, slicing, and
//! decimal numbers.

use crate::unicode;
use crate::unicode::is_ascii_digit;
use vstd::prelude::*;

verus! {

/// `String::push` appends one character.
pub assume_specification[ String::push ](s: &mut String, c: char)
    ensures
        final(s)@ == old(s)@.push(c),
;

/// `String::push_str` appends a string.
pub assume_specification[ String::push_str ](s: &mut String, t: &str)
    ensures
        final(s)@ == old(s)@ + t@,
;

/// The characters of a string.
pub fn chars_of(s: &str) -> (r: Vec<char>)
    ensures
        r@ == s@,
{
    let mut v: Vec<char> = Vec::new();
    for c in it: s.chars()
        invariant
            v@ == s@.take(it.index() as int),
            it.seq() == s@,
    {
        v.push(c);
    }
    v
}

/// The string of some characters.
pub fn string_of(v: &[char]) -> (r: String)
    ensures
        r@ == v@,
{
    let mut s: String = String::new();
    let mut i: usize = 0;
    while i < v.len()
        invariant
            i <= v@.len(),
            s@ == v@.take(i as int),
        decreases v@.len() - i,
    {
        s.push(v[i]);
        i = i + 1;
    }
    s
}

/// A copy of a string.
pub fn owned(s: &str) -> (r: String)
    ensures
        r@ == s@,
{
    s.to_owned()
}

/// Whether two runs of characters are the same.
pub fn same_chars(a: &[char], b: &[char]) -> (r: bool)
    ensures
        r == (a@ == b@),
{
    if a.len() != b.len() {
        return false;
    }
    let mut i: usize = 0;
    while i < a.len()
        invariant
            i <= a@.len(),
            a@.len() == b@.len(),
            forall|j: int| 0 <= j < i ==> a@[j] == b@[j],
        decreases a@.len() - i,
    {
        if a[i] != b[i] {
            assert(a@[i as int] != b@[i as int]);
            return false;
        }
        i = i + 1;
    }
    assert(a@ =~= b@);
    true
}

/// Whether two strings are the same.
pub fn same_str(a: &str, b: &str) -> (r: bool)
    ensures
        r == (a@ == b@),
{
    let x = chars_of(a);
    let y = chars_of(b);
    same_chars(x.as_slice(), y.as_slice())
}

/// Whether `s` begins with `p`.
pub open spec fn has_prefix<A>(s: Seq<A>, p: Seq<A>) -> bool {
    p.len() <= s.len() && s.take(p.len() as int) == p
}

/// Whether a run of characters begins with another.
pub fn chars_start_with(s: &[char], p: &[char]) -> (r: bool)
    ensures
        r == has_prefix(s@, p@),
{
    if p.len() > s.len() {
        return false;
    }
    let mut i: usize = 0;
    while i < p.len()
        invariant
            i <= p@.len() <= s@.len(),
            forall|j: int| 0 <= j < i ==> s@[j] == p@[j],
        decreases p@.len() - i,
    {
        if s[i] != p[i] {
            assert(s@.take(p@.len() as int)[i as int] != p@[i as int]);
            return false;
        }
        i = i + 1;
    }
    assert(s@.take(p@.len() as int) =~= p@);
    true
}

/// Whether a string begins with another.
pub fn str_starts_with(s: &str, p: &str) -> (r: bool)
    ensures
        r == has_prefix(s@, p@),
{
    let x = chars_of(s);
    let y = chars_of(p);
    chars_start_with(x.as_slice(), y.as_slice())
}

/// The characters from `from` up to `to`.
pub fn sub_chars(v: &[char], from: usize, to: usize) -> (r: Vec<char>)
    requires
        from <= to <= v@.len(),
    ensures
        r@ == v@.subrange(from as int, to as int),
{
    let mut out: Vec<char> = Vec::new();
    let mut i: usize = from;
    while i < to
        invariant
            from <= i <= to <= v@.len(),
            out@ == v@.subrange(from as int, i as int),
        decreases to - i,
    {
        out.push(v[i]);
        i = i + 1;
        assert(v@.subrange(from as int, i as int) =~= v@.subrange(
            from as int,
            i - 1 as int,
        ).push(v@[i - 1]));
    }
    out
}

/// Appends a run of characters to a string.
pub fn push_chars(s: &mut String, v: &[char])
    ensures
        final(s)@ == old(s)@ + v@,
{
    let t = string_of(v);
    s.push_str(t.as_str());
}

/// `n` times the same character.
pub open spec fn repeated(c: char, n: nat) -> Seq<char> {
    Seq::new(n, |i: int| c)
}

/// Appends a character `n` times.
pub fn push_repeated(s: &mut String, c: char, n: usize)
    ensures
        final(s)@ == old(s)@ + repeated(c, n as nat),
{
    let mut i: usize = 0;
    let ghost before = s@;
    assert(before + repeated(c, 0) =~= before);
    while i < n
        invariant
            i <= n,
            s@ == before + repeated(c, i as nat),
        decreases n - i,
    {
        s.push(c);
        i = i + 1;
        assert(s@ =~= before + repeated(c, i as nat));
    }
}

/// The decimal digit of a number below ten.
pub open spec fn digit_char(d: nat) -> char {
    (('0' as u32) + d) as char
}

/// The value of a decimal digit.
pub open spec fn digit_value(c: char) -> nat {
    (c as u32 - '0' as u32) as nat
}

/// A number written in decimal, without leading zeros.
pub open spec fn decimal(n: nat) -> Seq<char>
    decreases n,
{
    if n < 10 {
        seq![digit_char(n)]
    } else {
        decimal(n / 10).push(digit_char(n % 10))
    }
}

/// The number that a run of decimal digits stands for.
pub open spec fn digits_value(s: Seq<char>) -> nat
    decreases s.len(),
{
    if s.len() == 0 {
        0
    } else {
        digits_value(s.drop_last()) * 10 + digit_value(s.last())
    }
}

/// Whether every character is a decimal digit.
pub open spec fn all_digits(s: Seq<char>) -> bool {
    forall|i: int| 0 <= i < s.len() ==> unicode::ascii_digit(#[trigger] s[i])
}

/// Whether there is nothing but digits.
pub fn only_digits(d: &[char]) -> (r: bool)
    ensures
        r == all_digits(d@),
{
    let mut i: usize = 0;
    while i < d.len()
        invariant
            i <= d@.len(),
            forall|k: int| 0 <= k < i ==> unicode::ascii_digit(#[trigger] d@[k]),
        decreases d@.len() - i,
    {
        if !is_ascii_digit(d[i]) {
            return false;
        }
        i = i + 1;
    }
    true
}

/// Reading back what was written in decimal gives the number.
pub proof fn decimal_reads_back(n: nat)
    ensures
        all_digits(decimal(n)),
        digits_value(decimal(n)) == n,
        decimal(n).len() > 0,
    decreases n,
{
    if n < 10 {
        let s = seq![digit_char(n)];
        assert(s.drop_last() =~= Seq::<char>::empty());
        assert(s.last() == digit_char(n));
        assert(digits_value(s.drop_last()) == 0);
        assert(digits_value(s) == n);
    } else {
        decimal_reads_back(n / 10);
        let s = decimal(n / 10).push(digit_char(n % 10));
        assert(s.drop_last() =~= decimal(n / 10));
        assert(s.last() == digit_char(n % 10));
    }
}

/// A number in decimal.
pub fn decimal_string(n: usize) -> (r: String)
    ensures
        r@ == decimal(n as nat),
    decreases n,
{
    if n < 10 {
        let mut s: String = String::new();
        s.push((48u8 + n as u8) as char);
        assert(s@ =~= seq![digit_char(n as nat)]);
        s
    } else {
        let mut s = decimal_string(n / 10);
        s.push((48u8 + (n % 10) as u8) as char);
        s
    }
}

/// The number that a string stands for, if it is a plain number that `usize`
/// can hold: an optional plus sign and at least one decimal digit.
pub open spec fn parsed_usize(s: Seq<char>) -> Option<usize> {
    let d = if s.len() > 0 && s[0] == '+' {
        s.skip(1)
    } else {
        s
    };
    if d.len() > 0 && all_digits(d) && digits_value(d) <= usize::MAX {
        Some(digits_value(d) as usize)
    } else {
        None
    }
}

proof fn lemma_digits_value_grows(s: Seq<char>, k: int)
    requires
        0 <= k <= s.len(),
        all_digits(s),
    ensures
        digits_value(s.take(k)) <= digits_value(s),
    decreases s.len() - k,
{
    if k == s.len() {
        assert(s.take(k) =~= s);
    } else {
        lemma_digits_value_grows(s, k + 1);
        assert(s.take(k + 1).drop_last() =~= s.take(k));
    }
}

/// The number that a run of digits stands for, `None` where something else
/// stands among them, where there is none, or where it is too large.
pub fn digits_to_usize(d: &[char]) -> (r: Option<usize>)
    ensures
        r == (if d@.len() > 0 && all_digits(d@) && digits_value(d@) <= usize::MAX {
            Some(digits_value(d@) as usize)
        } else {
            None
        }),
{
    if d.len() == 0 {
        return None;
    }
    let mut k: usize = 0;
    while k < d.len()
        invariant
            k <= d@.len(),
            all_digits(d@.take(k as int)),
        decreases d@.len() - k,
    {
        if !is_ascii_digit(d[k]) {
            assert(!unicode::ascii_digit(d@[k as int]));
            return None;
        }
        k = k + 1;
        assert forall|i: int| 0 <= i < k implies unicode::ascii_digit(#[trigger] d@.take(k as int)[i]) by {
            if i < k - 1 {
                assert(d@.take(k - 1)[i] == d@[i]);
            }
        }
    }
    assert(d@.take(k as int) =~= d@);
    let mut i: usize = 0;
    let mut n: usize = 0;
    while i < d.len()
        invariant
            i <= d@.len(),
            all_digits(d@),
            n == digits_value(d@.take(i as int)),
        decreases d@.len() - i,
    {
        let x: usize = (d[i] as u32 - 48) as usize;
        proof {
            assert(d@.take(i + 1).drop_last() =~= d@.take(i as int));
            assert(digits_value(d@.take(i + 1)) == n * 10 + x);
            lemma_digits_value_grows(d@, i + 1);
        }
        if n > (usize::MAX - x) / 10 {
            assert(n * 10 + x > usize::MAX) by (nonlinear_arith)
                requires
                    n > (usize::MAX - x) / 10,
                    x <= 9,
            ;
            return None;
        }
        n = n * 10 + x;
        i = i + 1;
    }
    assert(d@.take(i as int) =~= d@);
    Some(n)
}

/// Reads a number as `str::parse` does for `usize`.
pub fn parse_usize(s: &str) -> (r: Option<usize>)
    ensures
        r == parsed_usize(s@),
{
    let v = chars_of(s);
    if v.len() > 0 && v[0] == '+' {
        let d = sub_chars(v.as_slice(), 1, v.len());
        assert(d@ =~= s@.skip(1));
        digits_to_usize(d.as_slice())
    } else {
        digits_to_usize(v.as_slice())
    }
}

/// The bytes that a character takes in UTF-8.
pub open spec fn char_bytes(c: char) -> nat {
    if (c as u32) < 0x80 {
        1
    } else if (c as u32) < 0x800 {
        2
    } else if (c as u32) < 0x10000 {
        3
    } else {
        4
    }
}

/// The bytes that a run of characters takes in UTF-8.
pub open spec fn byte_len(s: Seq<char>) -> nat
    decreases s.len(),
{
    if s.len() == 0 {
        0
    } else {
        byte_len(s.drop_last()) + char_bytes(s.last())
    }
}

/// The bytes that a character takes in UTF-8.
pub fn bytes_of_char(c: char) -> (r: usize)
    ensures
        r == char_bytes(c),
{
    let n: u32 = c as u32;
    if n < 0x80 {
        1
    } else if n < 0x800 {
        2
    } else if n < 0x10000 {
        3
    } else {
        4
    }
}

/// The bytes that the first `n` characters take in UTF-8, as far as a `usize`
/// goes.
pub fn bytes_up_to(v: &[char], n: usize) -> (r: usize)
    requires
        n <= v@.len(),
    ensures
        r == (if byte_len(v@.take(n as int)) <= usize::MAX {
            byte_len(v@.take(n as int)) as usize
        } else {
            usize::MAX
        }),
{
    let mut i: usize = 0;
    let mut b: usize = 0;
    while i < n
        invariant
            i <= n <= v@.len(),
            b == (if byte_len(v@.take(i as int)) <= usize::MAX {
                byte_len(v@.take(i as int)) as usize
            } else {
                usize::MAX
            }),
        decreases n - i,
    {
        b = b.saturating_add(bytes_of_char(v[i]));
        i = i + 1;
        assert(v@.take(i as int).drop_last() =~= v@.take(i - 1));
    }
    b
}

/// A longer run of characters takes more bytes.
pub proof fn lemma_byte_len_add(a: Seq<char>, b: Seq<char>)
    ensures
        byte_len(a + b) == byte_len(a) + byte_len(b),
    decreases b.len(),
{
    if b.len() == 0 {
        assert(a + b =~= a);
    } else {
        lemma_byte_len_add(a, b.drop_last());
        assert((a + b).drop_last() =~= a + b.drop_last());
    }
}

/// ASCII characters take a byte each.
pub proof fn lemma_ascii_bytes(s: Seq<char>)
    requires
        vstd::utf8::is_ascii_chars(s),
    ensures
        byte_len(s) == s.len(),
    decreases s.len(),
{
    if s.len() > 0 {
        assert forall|i: int| 0 <= i < s.drop_last().len() implies '\0' <= #[trigger] s.drop_last()[i]
            <= '\u{7f}' by {
            assert(s.drop_last()[i] == s[i]);
        }
        lemma_ascii_bytes(s.drop_last());
        assert('\0' <= s[s.len() - 1] <= '\u{7f}');
    }
}

/// A run of characters without the whitespace at its end.
pub open spec fn trimmed_right(s: Seq<char>) -> Seq<char>
    decreases s.len(),
{
    if s.len() > 0 && unicode::whitespace(s.last()) {
        trimmed_right(s.drop_last())
    } else {
        s
    }
}

/// A run of characters without the whitespace at its start.
pub open spec fn trimmed_left(s: Seq<char>) -> Seq<char>
    decreases s.len(),
{
    if s.len() > 0 && unicode::whitespace(s[0]) {
        trimmed_left(s.skip(1))
    } else {
        s
    }
}

/// A run of characters without the whitespace at either end.
pub open spec fn trimmed(s: Seq<char>) -> Seq<char> {
    trimmed_left(trimmed_right(s))
}

/// Leaves out the whitespace at the end.
pub fn trim_right(v: &[char]) -> (r: Vec<char>)
    ensures
        r@ == trimmed_right(v@),
{
    let mut n: usize = v.len();
    assert(v@.take(n as int) =~= v@);
    while n > 0 && v[n - 1].is_whitespace()
        invariant
            n <= v@.len(),
            trimmed_right(v@) == trimmed_right(v@.take(n as int)),
        decreases n,
    {
        assert(v@.take(n as int).drop_last() =~= v@.take(n - 1));
        n = n - 1;
    }
    sub_chars(v, 0, n)
}

/// Leaves out the whitespace at the start.
pub fn trim_left(v: &[char]) -> (r: Vec<char>)
    ensures
        r@ == trimmed_left(v@),
{
    let mut i: usize = 0;
    assert(v@.skip(0) =~= v@);
    while i < v.len() && v[i].is_whitespace()
        invariant
            i <= v@.len(),
            trimmed_left(v@) == trimmed_left(v@.skip(i as int)),
        decreases v@.len() - i,
    {
        assert(v@.skip(i as int).skip(1) =~= v@.skip(i + 1));
        i = i + 1;
    }
    assert(v@.subrange(i as int, v@.len() as int) =~= v@.skip(i as int));
    sub_chars(v, i, v.len())
}

/// Leaves out the whitespace at either end.
pub fn trim(v: &[char]) -> (r: Vec<char>)
    ensures
        r@ == trimmed(v@),
{
    let t = trim_right(v);
    trim_left(t.as_slice())
}

/// Whether `s` ends with `p`.
pub open spec fn has_suffix<A>(s: Seq<A>, p: Seq<A>) -> bool {
    p.len() <= s.len() && s.skip(s.len() - p.len()) == p
}

/// Whether a run of characters ends with another.
pub fn chars_end_with(s: &[char], p: &[char]) -> (r: bool)
    ensures
        r == has_suffix(s@, p@),
{
    if p.len() > s.len() {
        return false;
    }
    let d = sub_chars(s, s.len() - p.len(), s.len());
    assert(d@ =~= s@.skip(s@.len() - p@.len()));
    same_chars(d.as_slice(), p)
}

/// Where a piece first occurs from a place on.
pub open spec fn found_from(s: Seq<char>, p: Seq<char>, i: int) -> Option<int>
    decreases s.len() - i + 1,
{
    if i < 0 || i > s.len() {
        None
    } else if has_prefix(s.skip(i), p) {
        Some(i)
    } else {
        found_from(s, p, i + 1)
    }
}

/// Finds where a piece first occurs.
pub fn find_chars(s: &[char], p: &[char]) -> (r: Option<usize>)
    ensures
        match r {
            Some(i) => found_from(s@, p@, 0) == Some(i as int) && i + p@.len() <= s@.len(),
            None => found_from(s@, p@, 0) is None,
        },
{
    let mut i: usize = 0;
    loop
        invariant
            i <= s@.len(),
            found_from(s@, p@, 0) == found_from(s@, p@, i as int),
        decreases s@.len() - i,
    {
        let rest = sub_chars(s, i, s.len());
        assert(rest@ =~= s@.skip(i as int));
        if chars_start_with(rest.as_slice(), p) {
            return Some(i);
        }
        if i == s.len() {
            assert(found_from(s@, p@, i + 1) is None);
            return None;
        }
        i = i + 1;
    }
}

/// How many characters fit in the first `b` bytes, going on from a place.
pub open spec fn fitting_from(s: Seq<char>, b: int, k: int) -> int
    decreases s.len() - k,
{
    if 0 <= k < s.len() && byte_len(s.take(k + 1)) <= b {
        fitting_from(s, b, k + 1)
    } else {
        k
    }
}

/// The longest start of a text that fits in `b` bytes.
pub open spec fn up_to_byte(s: Seq<char>, b: int) -> Seq<char> {
    s.take(fitting_from(s, b, 0))
}

/// What follows the longest start of a text that fits in `b` bytes.
pub open spec fn from_byte(s: Seq<char>, b: int) -> Seq<char> {
    s.skip(fitting_from(s, b, 0))
}

/// The characters between two places that are counted in bytes.
pub open spec fn byte_slice(s: Seq<char>, from: int, to: int) -> Seq<char> {
    from_byte(up_to_byte(s, to), from)
}

/// Whether a number of bytes ends between two characters of a text.
pub open spec fn on_boundary(s: Seq<char>, b: int) -> bool {
    byte_len(up_to_byte(s, b)) == b
}

/// The start and the rest make up the text.
pub proof fn bytes_split_text(s: Seq<char>, b: int)
    ensures
        up_to_byte(s, b) + from_byte(s, b) == s,
{
    lemma_fitting(s, b, 0);
    assert(up_to_byte(s, b) + from_byte(s, b) =~= s);
}

pub proof fn lemma_fitting(s: Seq<char>, b: int, k: int)
    requires
        0 <= k <= s.len(),
    ensures
        k <= fitting_from(s, b, k) <= s.len(),
    decreases s.len() - k,
{
    if k < s.len() && byte_len(s.take(k + 1)) <= b {
        lemma_fitting(s, b, k + 1);
    }
}

proof fn lemma_byte_len_grows(s: Seq<char>, j: int, k: int)
    requires
        0 <= j <= k <= s.len(),
    ensures
        byte_len(s.take(j)) <= byte_len(s.take(k)),
        k - j <= byte_len(s.take(k)) - byte_len(s.take(j)),
    decreases k - j,
{
    if j < k {
        lemma_byte_len_grows(s, j, k - 1);
        assert(s.take(k).drop_last() =~= s.take(k - 1));
    }
}

pub proof fn lemma_fitting_reach(s: Seq<char>, k: int, j: int)
    requires
        0 <= j <= k <= s.len(),
    ensures
        fitting_from(s, byte_len(s.take(k)) as int, j) == k,
    decreases k - j,
{
    if j < k {
        lemma_byte_len_grows(s, j + 1, k);
        lemma_fitting_reach(s, k, j + 1);
    } else if k < s.len() {
        lemma_byte_len_grows(s, k, k + 1);
    }
}

/// Finds how many characters fit in the first `b` bytes.
pub fn chars_fitting(v: &[char], b: usize) -> (r: usize)
    ensures
        r == fitting_from(v@, b as int, 0),
        r <= v@.len(),
{
    let mut k: usize = 0;
    let mut at: usize = 0;
    assert(v@.take(0) =~= Seq::<char>::empty());
    while k < v.len()
        invariant
            k <= v@.len(),
            at == byte_len(v@.take(k as int)),
            at <= b,
            fitting_from(v@, b as int, 0) == fitting_from(v@, b as int, k as int),
        decreases v@.len() - k,
    {
        assert(v@.take(k + 1).drop_last() =~= v@.take(k as int));
        let n: usize = bytes_of_char(v[k]);
        if n > b - at {
            return k;
        }
        at = at + n;
        k = k + 1;
    }
    k
}

/// The characters between two places that are counted in bytes.
pub fn slice_bytes(v: &[char], from: usize, to: usize) -> (r: Vec<char>)
    ensures
        r@ == byte_slice(v@, from as int, to as int),
{
    let e = chars_fitting(v, to);
    let head = sub_chars(v, 0, e);
    assert(head@ =~= up_to_byte(v@, to as int));
    let s = chars_fitting(head.as_slice(), from);
    let r = sub_chars(head.as_slice(), s, head.len());
    assert(r@ =~= from_byte(head@, from as int));
    r
}

/// The longest start that fits in `b` bytes.
pub fn take_bytes(v: &[char], b: usize) -> (r: Vec<char>)
    ensures
        r@ == up_to_byte(v@, b as int),
{
    let e = chars_fitting(v, b);
    let r = sub_chars(v, 0, e);
    assert(r@ =~= up_to_byte(v@, b as int));
    r
}

/// What follows the longest start that fits in `b` bytes.
pub fn skip_bytes(v: &[char], b: usize) -> (r: Vec<char>)
    ensures
        r@ == from_byte(v@, b as int),
{
    let e = chars_fitting(v, b);
    let r = sub_chars(v, e, v.len());
    assert(r@ =~= from_byte(v@, b as int));
    r
}

/// Whether a text comes before another, or is the same, in the order of their
/// characters.
pub open spec fn chars_before_or_same(a: Seq<char>, b: Seq<char>) -> bool
    decreases a.len(),
{
    if a.len() == 0 {
        true
    } else if b.len() == 0 {
        false
    } else if a[0] == b[0] {
        chars_before_or_same(a.skip(1), b.skip(1))
    } else {
        a[0] < b[0]
    }
}

/// Whether a text comes before another, or is the same.
pub fn in_order(a: &[char], b: &[char]) -> (r: bool)
    ensures
        r == chars_before_or_same(a@, b@),
{
    let mut i: usize = 0;
    assert(a@.skip(0) =~= a@);
    assert(b@.skip(0) =~= b@);
    while i < a.len() && i < b.len()
        invariant
            i <= a@.len(),
            i <= b@.len(),
            chars_before_or_same(a@, b@) == chars_before_or_same(
                a@.skip(i as int),
                b@.skip(i as int),
            ),
        decreases a@.len() - i,
    {
        assert(a@.skip(i as int)[0] == a@[i as int]);
        assert(b@.skip(i as int)[0] == b@[i as int]);
        if a[i] != b[i] {
            return a[i] < b[i];
        }
        assert(a@.skip(i as int).skip(1) =~= a@.skip(i + 1));
        assert(b@.skip(i as int).skip(1) =~= b@.skip(i + 1));
        i = i + 1;
    }
    i == a.len()
}

/// Of two texts one comes before the other, or they are the same.
pub proof fn order_is_total(a: Seq<char>, b: Seq<char>)
    ensures
        chars_before_or_same(a, b) || chars_before_or_same(b, a),
    decreases a.len(),
{
    if a.len() > 0 && b.len() > 0 && a[0] == b[0] {
        order_is_total(a.skip(1), b.skip(1));
    }
}

/// Where one text comes before a second and that before a third, the first
/// comes before the third.
pub proof fn order_is_transitive(a: Seq<char>, b: Seq<char>, c: Seq<char>)
    requires
        chars_before_or_same(a, b),
        chars_before_or_same(b, c),
    ensures
        chars_before_or_same(a, c),
    decreases a.len(),
{
    if a.len() > 0 && b.len() > 0 && c.len() > 0 && a[0] == b[0] && b[0] == c[0] {
        order_is_transitive(a.skip(1), b.skip(1), c.skip(1));
    }
}

/// The first `n` words with spaces between them.
pub open spec fn spaced(words: Seq<String>, n: int) -> Seq<char>
    decreases n,
{
    if n <= 0 {
        Seq::empty()
    } else if n == 1 {
        words[0]@
    } else {
        spaced(words, n - 1).push(' ') + words[n - 1]@
    }
}

/// Words with spaces between them.
pub fn space_words(words: &[String]) -> (r: String)
    ensures
        r@ == spaced(words@, words@.len() as int),
{
    let mut list: String = String::new();
    let mut i: usize = 0;
    assert(list@ =~= Seq::empty());
    while i < words.len()
        invariant
            i <= words@.len(),
            list@ == spaced(words@, i as int),
        decreases words@.len() - i,
    {
        if i > 0 {
            list.push(' ');
        }
        list.push_str(words[i].as_str());
        i = i + 1;
        assert(i == 1 ==> list@ =~= words@[0]@);
    }
    list
}

} // verus!
