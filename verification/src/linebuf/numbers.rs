//! Adding to a number that is written in the text, in the way it is written.

use crate::text;
use crate::text::sub_chars;
use vstd::prelude::*;

verus! {

/// The value of a digit in a radix.
pub open spec fn digit_in(c: char, radix: nat) -> Option<nat> {
    let d: int = if '0' <= c && c <= '9' {
        c as u32 - '0' as u32
    } else if 'a' <= c && c <= 'z' {
        c as u32 - 'a' as u32 + 10
    } else if 'A' <= c && c <= 'Z' {
        c as u32 - 'A' as u32 + 10
    } else {
        36
    };
    if d < radix {
        Some(d as nat)
    } else {
        None
    }
}

/// The value of some digits in a radix, `None` where one is none.
pub open spec fn magnitude(s: Seq<char>, radix: nat) -> Option<nat>
    decreases s.len(),
{
    if s.len() == 0 {
        Some(0)
    } else {
        match (magnitude(s.drop_last(), radix), digit_in(s.last(), radix)) {
            (Some(m), Some(d)) => Some(m * radix + d),
            _ => None,
        }
    }
}

/// The number that is written, with an optional sign, if `i64` can hold it.
pub open spec fn read_i64(s: Seq<char>, radix: nat) -> Option<int> {
    let negative = s.len() > 0 && s[0] == '-';
    let d = if s.len() > 0 && (s[0] == '-' || s[0] == '+') {
        s.skip(1)
    } else {
        s
    };
    if d.len() == 0 {
        None
    } else {
        match magnitude(d, radix) {
            None => None,
            Some(m) => {
                let v = if negative {
                    -m
                } else {
                    m as int
                };
                if i64::MIN <= v <= i64::MAX {
                    Some(v)
                } else {
                    None
                }
            },
        }
    }
}

fn digit_of(c: char, radix: u32) -> (r: Option<u32>)
    requires
        radix <= 36,
    ensures
        match r {
            Some(d) => digit_in(c, radix as nat) == Some(d as nat) && d < radix,
            None => digit_in(c, radix as nat) is None,
        },
{
    let d: u32 = if '0' <= c && c <= '9' {
        c as u32 - 48
    } else if 'a' <= c && c <= 'z' {
        c as u32 - 97 + 10
    } else if 'A' <= c && c <= 'Z' {
        c as u32 - 65 + 10
    } else {
        36
    };
    if d < radix {
        Some(d)
    } else {
        None
    }
}

proof fn lemma_magnitude_grows(s: Seq<char>, k: int, radix: nat)
    requires
        0 <= k <= s.len(),
        radix >= 1,
    ensures
        magnitude(s.take(k), radix) is None ==> magnitude(s, radix) is None,
        magnitude(s.take(k), radix) is Some && magnitude(s, radix) is Some ==> magnitude(
            s.take(k),
            radix,
        )->0 <= magnitude(s, radix)->0,
    decreases s.len() - k,
{
    if k == s.len() {
        assert(s.take(k) =~= s);
    } else {
        lemma_magnitude_grows(s, k + 1, radix);
        assert(s.take(k + 1).drop_last() =~= s.take(k));
        if magnitude(s.take(k + 1), radix) is Some {
            let m = magnitude(s.take(k), radix)->0;
            assert(m * radix >= m) by (nonlinear_arith)
                requires
                    radix >= 1,
                    m >= 0,
            ;
        }
    }
}

/// Reads a number in a radix.
pub fn parse_i64(v: &[char], radix: u32) -> (r: Option<i64>)
    requires
        2 <= radix <= 36,
    ensures
        match r {
            Some(n) => read_i64(v@, radix as nat) == Some(n as int),
            None => read_i64(v@, radix as nat) is None,
        },
{
    let negative: bool = v.len() > 0 && v[0] == '-';
    let signed: bool = v.len() > 0 && (v[0] == '-' || v[0] == '+');
    let from: usize = if signed {
        1
    } else {
        0
    };
    let d = sub_chars(v, from, v.len());
    proof {
        if signed {
            assert(d@ =~= v@.skip(1));
        } else {
            assert(d@ =~= v@);
        }
    }
    if d.len() == 0 {
        return None;
    }
    let mut m: i128 = 0;
    let mut i: usize = 0;
    let ghost rx = radix as nat;
    while i < d.len()
        invariant
            i <= d@.len(),
            2 <= radix <= 36,
            rx == radix as nat,
            0 <= m <= 0x8000_0000_0000_0000,
            magnitude(d@.take(i as int), rx) == Some(m as nat),
            d@ == (if v@.len() > 0 && (v@[0] == '-' || v@[0] == '+') {
                v@.skip(1)
            } else {
                v@
            }),
            d@.len() > 0,
        decreases d@.len() - i,
    {
        assert(d@.take(i + 1).drop_last() =~= d@.take(i as int));
        proof {
            lemma_magnitude_grows(d@, i + 1, rx);
        }
        let x: u32 = match digit_of(d[i], radix) {
            Some(x) => x,
            None => return None,
        };
        assert(m * radix <= 0x8000_0000_0000_0000 * 36) by (nonlinear_arith)
            requires
                0 <= m <= 0x8000_0000_0000_0000,
                2 <= radix <= 36,
        ;
        assert(m * radix >= 0) by (nonlinear_arith)
            requires
                0 <= m,
                2 <= radix,
        ;
        let next: i128 = m * (radix as i128) + x as i128;
        assert(magnitude(d@.take(i + 1), rx) == Some(next as nat));
        if next > 0x8000_0000_0000_0000 {
            return None;
        }
        m = next;
        i = i + 1;
    }
    assert(d@.take(i as int) =~= d@);
    let n: i128 = if negative {
        -m
    } else {
        m
    };
    if n < i64::MIN as i128 || n > i64::MAX as i128 {
        None
    } else {
        Some(n as i64)
    }
}

/// The character of a digit.
pub open spec fn radix_char(d: nat) -> char {
    if d < 10 {
        (('0' as u32) + d) as char
    } else {
        (('a' as u32) + d - 10) as char
    }
}

/// A number written in a radix, without leading zeros.
pub open spec fn in_radix(n: nat, radix: nat) -> Seq<char>
    decreases n,
{
    if n < radix || radix < 2 {
        seq![radix_char(n)]
    } else {
        proof {
            assert(n / radix < n) by (nonlinear_arith)
                requires
                    radix >= 2,
                    n >= radix,
            ;
        }
        in_radix(n / radix, radix).push(radix_char(n % radix))
    }
}

/// A number with zeros before it, up to a width.
pub open spec fn padded(s: Seq<char>, width: int) -> Seq<char> {
    if s.len() >= width {
        s
    } else {
        text::repeated('0', (width - s.len()) as nat) + s
    }
}

fn write_radix(n: u64, radix: u64) -> (r: Vec<char>)
    requires
        2 <= radix <= 16,
    ensures
        r@ == in_radix(n as nat, radix as nat),
    decreases n,
{
    let d: u64 = n % radix;
    let c: char = if d < 10 {
        (48u8 + d as u8) as char
    } else {
        (87u8 + d as u8) as char
    };
    if n < radix {
        assert(n % radix == n) by (nonlinear_arith)
            requires
                n < radix,
                n >= 0,
        ;
        let mut v: Vec<char> = Vec::new();
        v.push(c);
        assert(v@ =~= seq![radix_char(n as nat)]);
        v
    } else {
        assert(n / radix < n) by (nonlinear_arith)
            requires
                2 <= radix,
                n >= radix,
        ;
        let mut v = write_radix(n / radix, radix);
        v.push(c);
        v
    }
}

/// A number that was written with `width` digits, written anew with as many,
/// or more where it needs them.
fn pad(v: Vec<char>, width: usize) -> (r: Vec<char>)
    ensures
        r@ == padded(v@, width as int),
{
    if v.len() >= width {
        return v;
    }
    let n: usize = width - v.len();
    let mut out: Vec<char> = Vec::new();
    let mut i: usize = 0;
    while i < n
        invariant
            i <= n,
            out@ == text::repeated('0', i as nat),
        decreases n - i,
    {
        out.push('0');
        i = i + 1;
        assert(out@ =~= text::repeated('0', i as nat));
    }
    let mut v = v;
    out.append(&mut v);
    out
}

proof fn lemma_radix_chars(n: nat, radix: nat)
    requires
        2 <= radix <= 16,
    ensures
        forall|i: int| 0 <= i < in_radix(n, radix).len() ==> #[trigger] in_radix(n, radix)[i] != '\n',
    decreases n,
{
    if n >= radix {
        assert(n / radix < n) by (nonlinear_arith)
            requires
                radix >= 2,
                n >= radix,
        ;
        assert(n % radix < radix) by (nonlinear_arith)
            requires
                radix >= 2,
        ;
        lemma_radix_chars(n / radix, radix);
        let init = in_radix(n / radix, radix);
        let all = in_radix(n, radix);
        assert(all == init.push(radix_char(n % radix)));
        assert forall|i: int| 0 <= i < all.len() implies #[trigger] all[i] != '\n' by {
            if i < init.len() {
                assert(all[i] == init[i]);
            } else {
                assert(all[i] == radix_char(n % radix));
            }
        }
    }
}

/// A number that was added to has no linefeed.
pub proof fn lemma_added_one_row(word: Seq<char>, inc: int)
    requires
        added(word, inc) is Some,
    ensures
        forall|i: int| 0 <= i < (added(word, inc)->0).len() ==> (added(word, inc)->0)[i] != '\n',
{
    match radix_prefix(word) {
        Some(radix) => {
            let n = read_i64(word.skip(2), radix)->0;
            lemma_radix_chars(bits(n + inc), radix);
        },
        None => {
            let n = read_i64(word, 10)->0;
            let sum = n + inc;
            if sum < 0 {
                lemma_radix_chars((-sum) as nat, 10);
            } else {
                lemma_radix_chars(sum as nat, 10);
            }
        },
    }
}

/// The prefix of a radix other than ten.
pub open spec fn radix_prefix(s: Seq<char>) -> Option<nat> {
    if s.len() < 2 || s[0] != '0' {
        None
    } else if s[1] == 'x' {
        Some(16)
    } else if s[1] == 'b' {
        Some(2)
    } else if s[1] == 'o' {
        Some(8)
    } else {
        None
    }
}

/// The bits of a number as an unsigned one.
pub open spec fn bits(n: int) -> nat {
    if n < 0 {
        (n + 0x1_0000_0000_0000_0000) as nat
    } else {
        n as nat
    }
}

/// A number that is written in the text with something added, written the same
/// way: in the same radix, and with as many digits. `None` where it is no
/// number, or where the sum cannot be held.
pub open spec fn added(word: Seq<char>, inc: int) -> Option<Seq<char>> {
    match radix_prefix(word) {
        Some(radix) => {
            let body = word.skip(2);
            match read_i64(body, radix) {
                Some(n) if i64::MIN <= n + inc <= i64::MAX => Some(
                    word.take(2) + padded(in_radix(bits(n + inc), radix), body.len() as int),
                ),
                _ => None,
            }
        },
        None => match read_i64(word, 10) {
            Some(n) if i64::MIN <= n + inc <= i64::MAX => {
                let sum = n + inc;
                let digits = if n < 0 {
                    word.len() - 1
                } else {
                    word.len() as int
                };
                if sum < 0 {
                    Some(seq!['-'] + padded(in_radix((-sum) as nat, 10), digits))
                } else {
                    Some(padded(in_radix(sum as nat, 10), digits))
                }
            },
            _ => None,
        },
    }
}

/// Adds to a number that is written in the text.
pub fn add_to_number(word: &[char], inc: i64) -> (r: Option<Vec<char>>)
    ensures
        match r {
            Some(v) => added(word@, inc as int) == Some(v@),
            None => added(word@, inc as int) is None,
        },
{
    let mut radix: u32 = 10;
    if word.len() >= 2 && word[0] == '0' {
        if word[1] == 'x' {
            radix = 16;
        } else if word[1] == 'b' {
            radix = 2;
        } else if word[1] == 'o' {
            radix = 8;
        }
    }
    if radix != 10 {
        let body = sub_chars(word, 2, word.len());
        assert(body@ =~= word@.skip(2));
        let n: i64 = match parse_i64(body.as_slice(), radix) {
            Some(n) => n,
            None => return None,
        };
        let sum: i128 = n as i128 + inc as i128;
        if sum < i64::MIN as i128 || sum > i64::MAX as i128 {
            return None;
        }
        let b: u64 = if sum < 0 {
            (sum + 0x1_0000_0000_0000_0000) as u64
        } else {
            sum as u64
        };
        let mut digits = pad(write_radix(b, radix as u64), body.len());
        let mut out = sub_chars(word, 0, 2);
        assert(out@ =~= word@.take(2));
        out.append(&mut digits);
        Some(out)
    } else {
        let n: i64 = match parse_i64(word, 10) {
            Some(n) => n,
            None => return None,
        };
        let sum: i128 = n as i128 + inc as i128;
        if sum < i64::MIN as i128 || sum > i64::MAX as i128 {
            return None;
        }
        assert(word@.len() > 0);
        let width: usize = if n < 0 {
            word.len() - 1
        } else {
            word.len()
        };
        if sum < 0 {
            let mut digits = pad(write_radix((-sum) as u64, 10), width);
            let mut out: Vec<char> = Vec::new();
            out.push('-');
            assert(out@ =~= seq!['-']);
            out.append(&mut digits);
            Some(out)
        } else {
            Some(pad(write_radix(sum as u64, 10), width))
        }
    }
}

} // verus!
