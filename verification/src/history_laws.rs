//! What references into the history name, and what is kept of it.

use crate::browse;
use crate::history::History;
use crate::history::Node;
use crate::history;
use crate::history::HistEntry;
use crate::linebuf::bang;
use crate::linebuf::bang::Asked;
use crate::linebuf::bang::QuoteState;
use crate::linebuf::bang::Spots;
use crate::linebuf::buffer::LineBuf;
use crate::linebuf::buffer::Viewport;
use crate::linebuf::exec;
use crate::linebuf::line;
use crate::linebuf::lines;
use crate::linebuf::pos::Pos;
use crate::linebuf::view_laws;
use crate::text;
use crate::unicode;
use vstd::prelude::*;

verus! {

/// Whether a reference asks for a command by how it begins.
pub open spec fn by_text(p: Seq<char>) -> bool {
    &&& p.len() > 0
    &&& p[0] != '!'
    &&& p != seq!['$']
    &&& !unicode::ascii_digit(p[0])
    &&& p[0] != '-' && p[0] != '+'
}

/// Whether a command begins with a text.
pub open spec fn starts(s: Seq<char>, p: Seq<char>) -> bool {
    exists|rest: Seq<char>| s == #[trigger] (p + rest)
}

proof fn lemma_starts(s: Seq<char>, p: Seq<char>)
    ensures
        starts(s, p) <==> text::has_prefix(s, p),
{
    if text::has_prefix(s, p) {
        assert(s =~= p + s.skip(p.len() as int));
    }
    if starts(s, p) {
        let rest = choose|rest: Seq<char>| s == #[trigger] (p + rest);
        assert((p + rest).take(p.len() as int) =~= p);
    }
}

proof fn lemma_signed(n: nat)
    requires
        1 <= n <= i32::MAX,
    ensures
        history::signed_number(text::decimal(n)) == Some(n as i32),
        history::signed_number(seq!['-'] + text::decimal(n)) == Some((-n) as i32),
        text::decimal(n).len() > 0,
        unicode::ascii_digit(text::decimal(n)[0]),
{
    let d = text::decimal(n);
    text::decimal_reads_back(n);
    let s = seq!['-'] + d;
    assert(s.skip(1) =~= d);
    assert(unicode::ascii_digit(d[0]));
}

/// A number counts the commands from the first, a negative one from the last: `-n` names
/// the command with exactly `n - 1` behind it. So `-n` and `len - n + 1` name the same
/// command. A number beyond the commands names none. An exclamation mark before changes
/// nothing.
pub proof fn references_count(c: Seq<String>, n: nat)
    requires
        1 <= n <= i32::MAX,
        c.len() <= i32::MAX,
    ensures
        ({
            let back = seq!['-'] + text::decimal(n);
            let on = text::decimal(n);
            &&& n <= c.len() ==> {
                &&& forall|i: int|
                    0 <= i < c.len() && c.len() - 1 - i == n - 1 ==> history::named_command(back, c)
                        == Some((#[trigger] c[i])@)
                &&& forall|i: int|
                    0 <= i < c.len() && i + 1 == n ==> history::named_command(on, c) == Some(
                        (#[trigger] c[i])@,
                    )
                &&& history::named_command(back, c) == history::named_command(
                    text::decimal((c.len() - n + 1) as nat),
                    c,
                )
            }
            &&& n > c.len() ==> history::named_command(back, c) is None
                && history::named_command(on, c) is None
            &&& history::named_command(seq!['!'] + back, c) == history::named_command(back, c)
            &&& history::named_command(seq!['!'] + on, c) == history::named_command(on, c)
        }),
{
    lemma_signed(n);
    let d = text::decimal(n);
    let b = seq!['-'] + d;
    assert(b[0] == '-');
    assert((seq!['!'] + b).skip(1) =~= b);
    assert((seq!['!'] + d).skip(1) =~= d);
    assert(d != seq!['!'] && d != seq!['$']);
    assert(b != seq!['!'] && b != seq!['$']);
    if n <= c.len() {
        let m = (c.len() - n + 1) as nat;
        lemma_signed(m);
        let e = text::decimal(m);
        assert(e != seq!['!'] && e != seq!['$']);
    }
}

/// Two exclamation marks name the last command; so does minus one.
pub proof fn the_last_command_is_named(c: Seq<String>)
    requires
        c.len() <= i32::MAX,
    ensures
        ({
            let last = history::named_command(seq!['!', '!'], c);
            &&& c.len() > 0 ==> last == Some(c[c.len() - 1]@)
            &&& c.len() == 0 ==> last is None
            &&& history::named_command(seq!['-', '1'], c) == last
        }),
{
    assert(seq!['!', '!'].skip(1) =~= seq!['!']);
    references_count(c, 1);
    assert(text::decimal(1) =~= seq!['1']);
    assert(seq!['-'] + text::decimal(1) =~= seq!['-', '1']);
    if c.len() > 0 {
        assert(c[c.len() - 1] == c.last());
    }
}

proof fn lemma_trimmed(s: Seq<char>, k: int)
    requires
        0 <= k <= s.len(),
        forall|i: int| k <= i < s.len() ==> unicode::whitespace(#[trigger] s[i]),
        k > 0 ==> !unicode::whitespace(s[k - 1]),
    ensures
        text::trimmed_right(s) == s.take(k),
    decreases s.len(),
{
    if s.len() > k {
        let t = s.drop_last();
        assert forall|i: int| k <= i < t.len() implies unicode::whitespace(#[trigger] t[i]) by {
            assert(t[i] == s[i]);
        }
        lemma_trimmed(t, k);
        assert(t.take(k) =~= s.take(k));
    } else {
        assert(s.take(k) =~= s);
    }
}

proof fn lemma_word_start(s: Seq<char>, a: int, i: int)
    requires
        0 <= a <= i <= s.len(),
        forall|j: int| a <= j < i ==> !unicode::whitespace(#[trigger] s[j]),
        a > 0 ==> unicode::whitespace(s[a - 1]),
    ensures
        bang::word_start(s, i) == a,
    decreases i,
{
    if i > a {
        lemma_word_start(s, a, i - 1);
    }
}

/// The last word of a command is the last stretch of it without whitespace: whitespace or
/// nothing is before it, and only whitespace behind. A blank command has none.
pub proof fn the_last_word_is_found(a: Seq<char>, w: Seq<char>, z: Seq<char>)
    requires
        forall|i: int| 0 <= i < w.len() ==> !unicode::whitespace(#[trigger] w[i]),
        forall|i: int| 0 <= i < z.len() ==> unicode::whitespace(#[trigger] z[i]),
        a.len() > 0 ==> unicode::whitespace(a.last()),
    ensures
        w.len() > 0 ==> bang::last_word_of(a + w + z) == Some(w),
        bang::last_word_of(z) is None,
{
    lemma_trimmed(z, 0);
    if w.len() > 0 {
        let s = a + w + z;
        let k = (a.len() + w.len()) as int;
        assert forall|i: int| k <= i < s.len() implies unicode::whitespace(#[trigger] s[i]) by {
            assert(s[i] == z[i - k]);
        }
        assert(s[k - 1] == w[w.len() - 1]);
        lemma_trimmed(s, k);
        let t = s.take(k);
        assert forall|j: int| a.len() <= j < k implies !unicode::whitespace(#[trigger] t[j]) by {
            assert(t[j] == w[j - a.len()]);
        }
        if a.len() > 0 {
            assert(t[a.len() - 1] == a.last());
        }
        lemma_word_start(t, a.len() as int, k);
        assert(t.skip(a.len() as int) =~= w);
    }
}

/// A dollar sign names the last word of the last command.
pub proof fn a_dollar_names_the_last_word(c: Seq<String>, a: Seq<char>, w: Seq<char>, z: Seq<char>)
    requires
        c.len() > 0,
        c[c.len() - 1]@ == a + w + z,
        w.len() > 0,
        forall|i: int| 0 <= i < w.len() ==> !unicode::whitespace(#[trigger] w[i]),
        forall|i: int| 0 <= i < z.len() ==> unicode::whitespace(#[trigger] z[i]),
        a.len() > 0 ==> unicode::whitespace(a.last()),
    ensures
        history::named_command(seq!['$'], c) == Some(w),
        history::named_command(seq!['!', '$'], c) == Some(w),
{
    the_last_word_is_found(a, w, z);
    assert(seq!['!', '$'].skip(1) =~= seq!['$']);
    assert(seq!['$'] != seq!['!']) by {
        assert(seq!['$'][0] != seq!['!'][0]);
    }
}

proof fn lemma_last_beginning(c: Seq<String>, p: Seq<char>, i: int, n: int)
    requires
        0 <= i < n <= c.len(),
        text::has_prefix(c[i]@, p),
        forall|j: int| i < j < n ==> !text::has_prefix((#[trigger] c[j])@, p),
    ensures
        history::last_beginning(c, p, n) == Some(c[i]@),
    decreases n,
{
    if n - 1 > i {
        lemma_last_beginning(c, p, i, n - 1);
    }
}

proof fn lemma_none_beginning(c: Seq<String>, p: Seq<char>, n: int)
    requires
        n <= c.len(),
        forall|j: int| 0 <= j < n ==> !text::has_prefix((#[trigger] c[j])@, p),
    ensures
        history::last_beginning(c, p, n) is None,
    decreases n,
{
    if n > 0 {
        lemma_none_beginning(c, p, n - 1);
    }
}

/// A text names the last command that begins with it.
pub proof fn a_text_names_the_last_that_begins_with_it(c: Seq<String>, p: Seq<char>, i: int)
    requires
        by_text(p),
        0 <= i < c.len(),
        starts(c[i]@, p),
        forall|j: int| i < j < c.len() ==> !starts((#[trigger] c[j])@, p),
    ensures
        history::named_command(p, c) == Some(c[i]@),
        history::named_command(seq!['!'] + p, c) == Some(c[i]@),
{
    lemma_starts(c[i]@, p);
    assert forall|j: int| i < j < c.len() implies !text::has_prefix((#[trigger] c[j])@, p) by {
        lemma_starts(c[j]@, p);
    }
    lemma_last_beginning(c, p, i, c.len() as int);
    assert((seq!['!'] + p).skip(1) =~= p);
    assert(p != seq!['!']) by {
        assert(p[0] != seq!['!'][0]);
    }
    assert(history::signed_number(p) is None);
}

/// A text with which no command begins names none.
pub proof fn a_text_that_none_begins_with_names_none(c: Seq<String>, p: Seq<char>)
    requires
        by_text(p),
        forall|j: int| 0 <= j < c.len() ==> !starts((#[trigger] c[j])@, p),
    ensures
        history::named_command(p, c) is None,
        history::named_command(seq!['!'] + p, c) is None,
{
    assert forall|j: int| 0 <= j < c.len() implies !text::has_prefix((#[trigger] c[j])@, p) by {
        lemma_starts(c[j]@, p);
    }
    lemma_none_beginning(c, p, c.len() as int);
    assert((seq!['!'] + p).skip(1) =~= p);
    assert(p != seq!['!']) by {
        assert(p[0] != seq!['!'][0]);
    }
    assert(history::signed_number(p) is None);
}

/// What begins with a text is selected of a history part by part: of commands that all
/// begin with it all, of commands of which none does nothing.
pub proof fn a_prefix_selects(a: Seq<HistEntry>, b: Seq<HistEntry>, p: Seq<char>)
    ensures
        history::masked(a + b, Some(p)) == history::masked(a, Some(p)) + history::masked(
            b,
            Some(p),
        ),
        (forall|i: int| 0 <= i < a.len() ==> starts((#[trigger] a[i]).command@, p))
            ==> history::masked(a, Some(p)) == a,
        (forall|i: int| 0 <= i < a.len() ==> !starts((#[trigger] a[i]).command@, p))
            ==> history::masked(a, Some(p)) == Seq::<HistEntry>::empty(),
        history::masked(a, None) == a,
    decreases a.len() + b.len(),
{
    if b.len() > 0 {
        a_prefix_selects(a, b.drop_last(), p);
        assert((a + b).drop_last() =~= a + b.drop_last());
        assert((a + b).last() == b.last());
        assert(history::masked(a + b, Some(p)) =~= history::masked(a, Some(p))
            + history::masked(b, Some(p)));
    } else {
        assert(a + b =~= a);
        assert(history::masked(b, Some(p)) =~= Seq::<HistEntry>::empty());
        assert(history::masked(a, Some(p)) + history::masked(b, Some(p)) =~= history::masked(
            a,
            Some(p),
        ));
        if a.len() > 0 {
            a_prefix_selects(a.drop_last(), b, p);
            lemma_starts(a.last().command@, p);
            let d = a.drop_last();
            if forall|i: int| 0 <= i < a.len() ==> starts((#[trigger] a[i]).command@, p) {
                assert forall|i: int| 0 <= i < d.len() implies starts(
                    (#[trigger] d[i]).command@,
                    p,
                ) by {
                    assert(d[i] == a[i]);
                }
                assert(a[a.len() - 1] == a.last());
                assert(d.push(a.last()) =~= a);
            }
            if forall|i: int| 0 <= i < a.len() ==> !starts((#[trigger] a[i]).command@, p) {
                assert forall|i: int| 0 <= i < d.len() implies !starts(
                    (#[trigger] d[i]).command@,
                    p,
                ) by {
                    assert(d[i] == a[i]);
                }
                assert(a[a.len() - 1] == a.last());
            }
        }
    }
    if b.len() > 0 {
        a_prefix_selects(a, b.drop_last(), p);
    }
}

/// A deletion goes through a history part by part: where none of the commands is named it
/// all stays, where all are named nothing does.
pub proof fn deleted_commands_go(a: Seq<HistEntry>, b: Seq<HistEntry>, d: Seq<String>)
    ensures
        history::surviving(a + b, d) == history::surviving(a, d) + history::surviving(b, d),
        (forall|i: int, j: int|
            0 <= i < a.len() && 0 <= j < d.len() ==> (#[trigger] a[i]).command@ != (
            #[trigger] d[j])@) ==> history::surviving(a, d) == a,
        (forall|i: int|
            0 <= i < a.len() ==> exists|j: int|
                0 <= j < d.len() && (#[trigger] a[i]).command@ == (#[trigger] d[j])@)
            ==> history::surviving(a, d) == Seq::<HistEntry>::empty(),
    decreases a.len() + b.len(),
{
    if b.len() > 0 {
        deleted_commands_go(a, b.drop_last(), d);
        assert((a + b).drop_last() =~= a + b.drop_last());
        assert((a + b).last() == b.last());
        assert(history::surviving(a + b, d) =~= history::surviving(a, d) + history::surviving(
            b,
            d,
        ));
    } else {
        assert(a + b =~= a);
        assert(history::surviving(b, d) =~= Seq::<HistEntry>::empty());
        assert(history::surviving(a, d) + history::surviving(b, d) =~= history::surviving(a, d));
        if a.len() > 0 {
            let i = a.drop_last();
            deleted_commands_go(i, b, d);
            assert(a[a.len() - 1] == a.last());
            if forall|i: int, j: int|
                0 <= i < a.len() && 0 <= j < d.len() ==> (#[trigger] a[i]).command@ != (
                #[trigger] d[j])@ {
                assert forall|k: int, j: int| 0 <= k < i.len() && 0 <= j < d.len() implies (
                #[trigger] i[k]).command@ != (#[trigger] d[j])@ by {
                    assert(i[k] == a[k]);
                }
                assert(!history::names(d, a.last().command@));
                assert(i.push(a.last()) =~= a);
            }
            if forall|i: int|
                0 <= i < a.len() ==> exists|j: int|
                    0 <= j < d.len() && (#[trigger] a[i]).command@ == (#[trigger] d[j])@ {
                assert forall|k: int| 0 <= k < i.len() implies exists|j: int|
                    0 <= j < d.len() && (#[trigger] i[k]).command@ == (#[trigger] d[j])@ by {
                    assert(i[k] == a[k]);
                }
                assert(history::names(d, a.last().command@));
            }
        }
    }
}

/// Of what is loaded, the commands that were not added meanwhile stay, in their order.
pub proof fn loaded_commands_are_kept(
    a: Seq<HistEntry>,
    b: Seq<HistEntry>,
    e: Seq<HistEntry>,
)
    ensures
        history::unshadowed(a + b, e) == history::unshadowed(a, e) + history::unshadowed(b, e),
        (forall|i: int, j: int|
            0 <= i < a.len() && 0 <= j < e.len() ==> (#[trigger] a[i]).command@ != (
            #[trigger] e[j]).command@) ==> history::unshadowed(a, e) == a,
        (forall|i: int|
            0 <= i < a.len() ==> exists|j: int|
                0 <= j < e.len() && (#[trigger] a[i]).command@ == (#[trigger] e[j]).command@)
            ==> history::unshadowed(a, e) == Seq::<HistEntry>::empty(),
    decreases a.len() + b.len(),
{
    if b.len() > 0 {
        loaded_commands_are_kept(a, b.drop_last(), e);
        assert((a + b).drop_last() =~= a + b.drop_last());
        assert((a + b).last() == b.last());
        assert(history::unshadowed(a + b, e) =~= history::unshadowed(a, e) + history::unshadowed(
            b,
            e,
        ));
    } else {
        assert(a + b =~= a);
        assert(history::unshadowed(b, e) =~= Seq::<HistEntry>::empty());
        assert(history::unshadowed(a, e) + history::unshadowed(b, e) =~= history::unshadowed(
            a,
            e,
        ));
        if a.len() > 0 {
            let i = a.drop_last();
            loaded_commands_are_kept(i, b, e);
            assert(a[a.len() - 1] == a.last());
            if forall|i: int, j: int|
                0 <= i < a.len() && 0 <= j < e.len() ==> (#[trigger] a[i]).command@ != (
                #[trigger] e[j]).command@ {
                assert forall|k: int, j: int| 0 <= k < i.len() && 0 <= j < e.len() implies (
                #[trigger] i[k]).command@ != (#[trigger] e[j]).command@ by {
                    assert(i[k] == a[k]);
                }
                assert(!history::has_command(e, a.last().command@));
                assert(i.push(a.last()) =~= a);
            }
            if forall|i: int|
                0 <= i < a.len() ==> exists|j: int|
                    0 <= j < e.len() && (#[trigger] a[i]).command@ == (
                    #[trigger] e[j]).command@ {
                assert forall|k: int| 0 <= k < i.len() implies exists|j: int|
                    0 <= j < e.len() && (#[trigger] i[k]).command@ == (
                    #[trigger] e[j]).command@ by {
                    assert(i[k] == a[k]);
                }
                assert(history::has_command(e, a.last().command@));
            }
        }
    }
}

/// The hint is the last command that begins with the text and goes on behind it.
pub proof fn the_hint_is_the_last_that_goes_on(s: Seq<HistEntry>, p: Seq<char>, i: int, n: int)
    requires
        0 <= i < n <= s.len(),
        starts(s[i].command@, p),
        s[i].command@.len() > p.len(),
        forall|j: int|
            i < j < n ==> !(starts((#[trigger] s[j]).command@, p) && s[j].command@.len()
                > p.len()),
    ensures
        history::hinting(s, p, n) == Some(s[i].command@),
    decreases n,
{
    let c = s[n - 1].command@;
    lemma_starts(c, p);
    if n - 1 > i {
        if text::has_prefix(c, p) && c.len() <= p.len() {
            assert(c =~= p);
        }
        the_hint_is_the_last_that_goes_on(s, p, i, n - 1);
    }
}

/// Without a command that goes on behind the text there is no hint.
pub proof fn there_may_be_no_hint(s: Seq<HistEntry>, p: Seq<char>, n: int)
    requires
        n <= s.len(),
        forall|j: int|
            0 <= j < n ==> !(starts((#[trigger] s[j]).command@, p) && s[j].command@.len()
                > p.len()),
    ensures
        history::hinting(s, p, n) is None,
    decreases n,
{
    if n > 0 {
        let c = s[n - 1].command@;
        lemma_starts(c, p);
        if text::has_prefix(c, p) && c.len() <= p.len() {
            assert(c =~= p);
        }
        there_may_be_no_hint(s, p, n - 1);
    }
}

/// The latest time is the time of one of the entries, and none of them is later.
pub proof fn the_latest_time_is_the_largest(s: Seq<HistEntry>, default: i64)
    ensures
        s.len() == 0 ==> history::latest(s, default) == default,
        forall|i: int|
            0 <= i < s.len() ==> (#[trigger] s[i]).timestamp <= history::latest(s, default),
        s.len() > 0 ==> exists|i: int|
            0 <= i < s.len() && (#[trigger] s[i]).timestamp == history::latest(s, default),
    decreases s.len(),
{
    if s.len() > 1 {
        let d = s.drop_last();
        the_latest_time_is_the_largest(d, default);
        let k = choose|i: int|
            0 <= i < d.len() && (#[trigger] d[i]).timestamp == history::latest(d, default);
        assert(s[k] == d[k]);
        assert(s[s.len() - 1] == s.last());
        assert forall|i: int| 0 <= i < s.len() implies (#[trigger] s[i]).timestamp
            <= history::latest(s, default) by {
            if i < d.len() {
                assert(d[i] == s[i]);
            }
        }
    } else if s.len() == 1 {
        assert(s[0].timestamp == history::latest(s, default));
    }
}

/// The entries of one time, in their order.
pub open spec fn at_time(s: Seq<HistEntry>, t: i64) -> Seq<HistEntry>
    decreases s.len(),
{
    if s.len() == 0 {
        s
    } else if s.last().timestamp == t {
        at_time(s.drop_last(), t).push(s.last())
    } else {
        at_time(s.drop_last(), t)
    }
}

/// Whether no entry comes before an earlier one.
pub open spec fn in_time(s: Seq<HistEntry>) -> bool {
    forall|i: int, j: int|
        0 <= i < j < s.len() ==> (#[trigger] s[i]).timestamp <= (#[trigger] s[j]).timestamp
}

proof fn lemma_put_by_time(s: Seq<HistEntry>, e: HistEntry, t: i64)
    requires
        in_time(s),
    ensures
        ({
            let r = history::put_by_time(s, e);
            &&& in_time(r)
            &&& r.len() == s.len() + 1
            &&& at_time(r, t) == at_time(s.push(e), t)
            &&& forall|i: int|
                0 <= i < r.len() ==> (#[trigger] r[i]).timestamp <= (if s.len() > 0
                    && s.last().timestamp > e.timestamp {
                    s.last().timestamp
                } else {
                    e.timestamp
                })
        }),
    decreases s.len(),
{
    let r = history::put_by_time(s, e);
    if s.len() == 0 || s.last().timestamp <= e.timestamp {
        assert forall|i: int, j: int| 0 <= i < j < r.len() implies (#[trigger] r[i]).timestamp <= (
        #[trigger] r[j]).timestamp by {
            if s.len() > 0 {
                assert(s[s.len() - 1] == s.last());
                assert(r[i] == s[i]);
            }
        }
        assert forall|i: int| 0 <= i < r.len() implies (#[trigger] r[i]).timestamp
            <= e.timestamp by {
            if i < s.len() {
                assert(s[s.len() - 1] == s.last());
                assert(r[i] == s[i]);
            }
        }
    } else {
        let d = s.drop_last();
        lemma_put_by_time(d, e, t);
        let q = history::put_by_time(d, e);
        assert(s[s.len() - 1] == s.last());
        if d.len() > 0 {
            assert(d.last() == s[d.len() - 1]);
        }
        assert(r.drop_last() =~= q);
        assert(r.last() == s.last());
        assert(s.push(e).drop_last() =~= s);
        assert(d.push(e).drop_last() =~= d);
        reveal_with_fuel(at_time, 3);
    }
}

/// Sorting puts the entries in the order of their times, and keeps those of one time, all
/// of them and in their order.
pub proof fn entries_are_sorted_by_time(s: Seq<HistEntry>, t: i64)
    ensures
        in_time(history::by_time(s)),
        history::by_time(s).len() == s.len(),
        at_time(history::by_time(s), t) == at_time(s, t),
    decreases s.len(),
{
    if s.len() > 0 {
        let d = s.drop_last();
        entries_are_sorted_by_time(d, t);
        let b = history::by_time(d);
        lemma_put_by_time(b, s.last(), t);
        assert(b.push(s.last()).drop_last() =~= b);
    }
}

/// Moving goes by as many entries as it is asked to, forward or back, and stops at the
/// first entry and behind the last.
pub proof fn moving_counts_entries(at: usize, offset: isize, len: int)
    requires
        at <= len,
    ensures
        ({
            let r = history::moved_by(at, offset, len);
            &&& 0 <= r <= len
            &&& 0 < r < len ==> r - at == offset
            &&& offset >= 0 ==> r >= at && (r - at == offset || r == len)
            &&& offset <= 0 ==> r <= at && (at - r == -offset || r == 0)
        }),
{
}

/// Whether a grapheme means nothing to history expansion.
pub open spec fn plain(g: Seq<char>) -> bool {
    g.len() != 1 || (g[0] != '\\' && g[0] != '$' && g[0] != '\'' && g[0] != '"' && g[0] != '!')
}

proof fn lemma_plain_skipped(s: Spots, i: int, k: int, q: QuoteState)
    requires
        0 <= i <= k <= s.len(),
        forall|j: int| i <= j < k ==> plain((#[trigger] s[j]).1),
    ensures
        bang::bangs_from(s, i, q) == bang::bangs_from(s, k, q),
    decreases k - i,
{
    if i < k {
        assert(plain(s[i].1));
        lemma_plain_skipped(s, i + 1, k, q);
    }
}

/// A text without exclamation marks asks for nothing of the history.
pub proof fn no_mark_asks_nothing(s: Spots, i: int, q: QuoteState)
    requires
        0 <= i,
        forall|j: int| 0 <= j < s.len() ==> (#[trigger] s[j]).1 != seq!['!'],
    ensures
        bang::bangs_from(s, i, q) == Seq::<bang::Wanted>::empty(),
    decreases s.len() - i + 2,
{
    if i < s.len() {
        let g = s[i].1;
        if g.len() == 1 && g[0] == '!' {
            assert(g =~= seq!['!']);
        }
        no_mark_asks_nothing(s, i + 1, q);
        no_mark_asks_nothing(s, i + 1, q.after_single());
        no_mark_asks_nothing(s, i + 1, q.after_double());
        if i + 2 <= s.len() + 1 {
            no_mark_asks_nothing(s, i + 2, q);
        }
    }
}

/// The first exclamation mark behind plain text asks: two of them for the last command,
/// one and a dollar sign for its last word. One before whitespace asks for nothing.
pub proof fn a_mark_asks(s: Spots, k: int)
    requires
        0 <= k,
        k + 1 < s.len(),
        forall|j: int| 0 <= j < k ==> plain((#[trigger] s[j]).1),
        s[k].1 == seq!['!'],
        s[k + 1].1.len() == 1,
    ensures
        ({
            let w = bang::bangs_from(s, 0, QuoteState::Outside);
            let c = s[k + 1].1[0];
            &&& c == '!' ==> w.len() > 0 && w[0].0 == s[k].0 && w[0].2 == Asked::Last
            &&& c == '$' ==> w.len() > 0 && w[0].0 == s[k].0 && w[0].2 == Asked::LastWord
            &&& unicode::whitespace(c) && c != '!' && c != '$' ==> w == bang::bangs_from(
                s,
                k + 2,
                QuoteState::Outside,
            )
        }),
{
    lemma_plain_skipped(s, 0, k, QuoteState::Outside);
    assert(line::single(s[k].1) == Some('!'));
    let w = bang::bang_at(s, k);
    let r = bang::bangs_from(s, bang::bang_next(s, k), QuoteState::Outside);
    assert(bang::bangs_from(s, k, QuoteState::Outside) == w + r);
    assert(Seq::<bang::Wanted>::empty() + r =~= r);
}

/// What stands in single quotes asks for nothing.
pub proof fn single_quotes_hide(s: Spots, i: int, k: int)
    requires
        0 <= i < k < s.len(),
        s[i].1 == seq!['\''],
        s[k].1 == seq!['\''],
        forall|j: int|
            i < j < k ==> (#[trigger] s[j]).1 != seq!['\''] && s[j].1 != seq!['\\'] && s[j].1
                != seq!['$'],
    ensures
        bang::bangs_from(s, i, QuoteState::Outside) == bang::bangs_from(
            s,
            k + 1,
            QuoteState::Outside,
        ),
{
    lemma_hidden(s, i + 1, k);
}

proof fn lemma_hidden(s: Spots, i: int, k: int)
    requires
        0 <= i <= k < s.len(),
        s[k].1 == seq!['\''],
        forall|j: int|
            i <= j < k ==> (#[trigger] s[j]).1 != seq!['\''] && s[j].1 != seq!['\\'] && s[j].1
                != seq!['$'],
    ensures
        bang::bangs_from(s, i, QuoteState::Single) == bang::bangs_from(
            s,
            k + 1,
            QuoteState::Outside,
        ),
    decreases k - i,
{
    if i < k {
        let g = s[i].1;
        if g.len() == 1 {
            assert(g =~= seq![g[0]]);
        }
        lemma_hidden(s, i + 1, k);
    }
}

/// What was asked for is answered: the last command, its last word, or the command that a
/// text names. A text that names none stays as it is.
pub proof fn askings_are_answered(c: Seq<String>, t: Seq<char>)
    ensures
        c.len() > 0 ==> bang::answer(Asked::Last, c) == Some(c[c.len() - 1]@),
        c.len() == 0 ==> bang::answer(Asked::Last, c) is None && bang::answer(
            Asked::LastWord,
            c,
        ) is None,
        bang::answer(Asked::LastWord, c) == history::named_command(seq!['$'], c),
        match history::named_command(t, c) {
            Some(s) => bang::answer(Asked::Token(t), c) == Some(s),
            None => bang::answer(Asked::Token(t), c) == Some(t),
        },
{
    assert(seq!['$'] != seq!['!']) by {
        assert(seq!['$'][0] != seq!['!'][0]);
    }
}

/// The largest number of entries is the setting, and a negative setting is none.
pub proof fn sizes_are_limited(n: i64)
    ensures
        n < 0 ==> history::size_limit(n) is None,
        0 <= n <= u32::MAX ==> history::size_limit(n) == Some(n as u32),
{
}

/// The entries of a deletion are named by numbered placeholders with commas between them.
pub proof fn placeholders_are_numbered(n: int)
    requires
        n >= 1,
    ensures
        history::placeholders(1) == seq!['?', '1'],
        history::placeholders(n + 1) == history::placeholders(n) + seq![',', ' ', '?']
            + text::decimal((n + 1) as nat),
        history::placeholders(0) == Seq::<char>::empty(),
{
    reveal_strlit("?");
    reveal_strlit(", ?");
    assert("?"@ =~= seq!['?']);
    assert(", ?"@ =~= seq![',', ' ', '?']);
    assert(text::decimal(1) =~= seq!['1']);
    assert(seq!['?'] + text::decimal(1) =~= seq!['?', '1']);
}

/// Looking ahead goes by one entry and stays among the entries: up from the line to the
/// last of them, and never beyond the first or the last.
pub proof fn looking_ahead_goes_by_one(h: History, n: usize)
    requires
        h.search_mask@.len() == n,
        h.virt_cursor <= n,
        n < isize::MAX,
    ensures
        h.virt_cursor > 0 ==> h.looked_ahead((-1) as isize) == h.virt_cursor - 1,
        h.virt_cursor == 0 ==> h.looked_ahead((-1) as isize) == 0,
        h.virt_cursor + 1 < n ==> h.looked_ahead(1) == h.virt_cursor + 1,
        h.virt_cursor + 1 >= n && h.virt_cursor < n ==> h.looked_ahead(1) == h.virt_cursor,
{
}

/// Once entries are deleted, each entry that stays and followed a deleted one follows the
/// nearest that stays, and no entry that is deleted is changed.
pub proof fn deleted_entries_are_passed_over(nodes: Seq<Node>, deleted: Seq<String>, n: int, i: int)
    requires
        0 <= i < n <= nodes.len(),
    ensures
        ({
            let r = history::remaps(nodes, deleted, n);
            let x = nodes[i];
            &&& !history::names(deleted, x.token@) && (x.parent matches Some(p)
                && history::names(deleted, p@)) ==> exists|k: int|
                0 <= k < r.len() && (#[trigger] r[k]).token == x.token@ && r[k].parent
                    == history::nearest(
                    nodes,
                    deleted,
                    history::text_of(x.parent),
                    nodes.len(),
                )
            &&& forall|k: int|
                0 <= k < r.len() ==> !history::names(deleted, (#[trigger] r[k]).token)
        }),
    decreases n,
{
    let r = history::remaps(nodes, deleted, n);
    let init = history::remaps(nodes, deleted, n - 1);
    if n > 1 {
        deleted_entries_are_passed_over(
            nodes,
            deleted,
            n - 1,
            if i < n - 1 {
                i
            } else {
                0
            },
        );
    } else {
        assert(init =~= Seq::empty());
    }
    let x = nodes[i];
    let due = !history::names(deleted, x.token@) && (x.parent matches Some(p) && history::names(
        deleted,
        p@,
    ));
    if due {
        let p = history::text_of(x.parent);
        lemma_passed_over(nodes, deleted, p);
        if i == n - 1 {
            assert(r[init.len() as int].token == x.token@);
        } else {
            let k = choose|k: int|
                0 <= k < init.len() && (#[trigger] init[k]).token == x.token@ && init[k].parent
                    == history::nearest(
                    nodes,
                    deleted,
                    history::text_of(x.parent),
                    nodes.len(),
                );
            assert(r[k] == init[k]);
        }
    }
    assert forall|k: int| 0 <= k < r.len() implies !history::names(
        deleted,
        (#[trigger] r[k]).token,
    ) by {
        if k < init.len() {
            assert(r[k] == init[k]);
        }
    }
}

proof fn lemma_passed_over(nodes: Seq<Node>, deleted: Seq<String>, p: Option<Seq<char>>)
    requires
        p is Some,
        history::names(deleted, p->0),
    ensures
        history::nearest(nodes, deleted, p, nodes.len()) != p,
{
    history::references_survive(nodes, deleted, p, nodes.len());
}

/// A branch whose last entry is deleted ends with the nearest that stays; the others are
/// left alone.
pub proof fn branches_end_with_what_stays(
    nodes: Seq<Node>,
    deleted: Seq<String>,
    b: Seq<(String, String)>,
    n: int,
    i: int,
)
    requires
        0 <= i < n <= b.len(),
    ensures
        ({
            let r = history::repoints(nodes, deleted, b, n);
            &&& history::names(deleted, b[i].1@) ==> r.contains(
                (
                    b[i].0@,
                    history::nearest(nodes, deleted, Some(b[i].1@), nodes.len()),
                ),
            )
            &&& forall|k: int|
                0 <= k < r.len() ==> exists|j: int|
                    0 <= j < n && (#[trigger] r[k]).0 == (#[trigger] b[j]).0@ && history::names(
                        deleted,
                        b[j].1@,
                    )
        }),
    decreases n,
{
    let r = history::repoints(nodes, deleted, b, n);
    let init = history::repoints(nodes, deleted, b, n - 1);
    if n > 1 {
        branches_end_with_what_stays(
            nodes,
            deleted,
            b,
            n - 1,
            if i < n - 1 {
                i
            } else {
                0
            },
        );
    } else {
        assert(init =~= Seq::empty());
    }
    if history::names(deleted, b[i].1@) {
        let v = (b[i].0@, history::nearest(nodes, deleted, Some(b[i].1@), nodes.len()));
        if i == n - 1 {
            assert(r[init.len() as int] == v);
        } else {
            let k = choose|k: int| 0 <= k < init.len() && init[k] == v;
            assert(r[k] == v);
        }
    }
    assert forall|k: int| 0 <= k < r.len() implies exists|j: int|
        0 <= j < n && (#[trigger] r[k]).0 == (#[trigger] b[j]).0@ && history::names(
            deleted,
            b[j].1@,
        ) by {
        if k < init.len() {
            assert(r[k] == init[k]);
            let j = choose|j: int|
                0 <= j < n - 1 && init[k].0 == (#[trigger] b[j]).0@ && history::names(
                    deleted,
                    b[j].1@,
                );
            assert(r[k].0 == b[j].0@);
        } else {
            assert(r[k].0 == b[n - 1].0@);
        }
    }
}

/// A line that an entry of the history takes the place of comes back when the history is
/// left, as it was.
pub proof fn the_line_comes_back(
    a: LineBuf,
    h: History,
    e: HistEntry,
    m: LineBuf,
    g: History,
    b: LineBuf,
    k: History,
    view: Viewport,
)
    requires
        h.pending is None,
        browse::swapped(a, h, Some(e), m, g, view),
        browse::swapped(m, g, None, b, k, view),
    ensures
        m.text() == lines::lines_of(e.command@),
        lines::text_chars(m.text()) == e.command@,
        b == a,
        k == h,
{
}

/// From one entry to another the line that was put aside stays put aside.
pub proof fn entries_follow_each_other(
    a: LineBuf,
    h: History,
    e: HistEntry,
    b: LineBuf,
    g: History,
    view: Viewport,
)
    requires
        h.pending is Some,
        browse::swapped(a, h, Some(e), b, g, view),
    ensures
        g == h,
        lines::text_chars(b.text()) == e.command@,
{
}

/// An entry that the line goes back from is taken off it again; and the first of them, where
/// none other is, leaves nothing. Joining goes on to the entry beyond.
pub proof fn joining_goes_both_ways(h: History)
    ensures
        h.virt_cursor > h.cursor ==> browse::going_back(h, true) && !browse::going_back(h, false),
        h.virt_cursor < h.cursor ==> browse::going_back(h, false) && !browse::going_back(h, true),
        h.virt_cursor == h.cursor ==> !browse::going_back(h, true) && !browse::going_back(h, false),
{
}

/// The entry before is joined to the left of the line and the one behind to its right, and
/// the cursor goes to the end; an empty line becomes the entry.
pub proof fn entries_are_joined(
    a: LineBuf,
    h: History,
    b: LineBuf,
    g: History,
    up: bool,
    sep: Seq<char>,
    view: Viewport,
    e: Seq<char>,
)
    requires
        browse::virt_step(a, h, b, g, up, sep, view, false),
        g.virt_cursor != h.virt_cursor,
        h.search_mask@[g.virt_cursor as int].command@ == e,
    ensures
        exec::blank(a.text()) ==> b.text() == lines::lines_of(e),
        ({
            let t = a.text();
            t.len() == 1 && lines::lines_of(e).len() == 1 && !exec::blank(t) && !text::has_suffix(
                text::trimmed_right(lines::text_chars(t)),
                text::trimmed(sep),
            ) ==> b.text() == seq![
                if up {
                    lines::lines_of(e)[0] + unicode::clusters(sep) + line::trimmed_start(t[0])
                } else {
                    line::trimmed_end(t[0]) + unicode::clusters(sep) + lines::lines_of(e)[0]
                },
            ]
        }),
        b.cursor.pos == browse::end_pos(b.text()),
        b.undo_stack == a.undo_stack,
        g.entries == h.entries,
        g.cursor == h.cursor,
{
    let t = a.text();
    if t.len() == 1 && lines::lines_of(e).len() == 1 && !exec::blank(t) && !text::has_suffix(
        text::trimmed_right(lines::text_chars(t)),
        text::trimmed(sep),
    ) {
        view_laws::joined_commands_stand_beside(t, sep, e);
    }
}

/// Taking off what was never joined leaves an empty line and looks at the entry of the line
/// again; nothing else of the history changes.
pub proof fn the_last_is_taken_off(
    a: LineBuf,
    h: History,
    b: LineBuf,
    g: History,
    up: bool,
    sep: Seq<char>,
    view: Viewport,
)
    requires
        browse::virt_step(a, h, b, g, up, sep, view, true),
        a.concat_points@.len() == 0,
    ensures
        b.text() == seq![Seq::<Seq<char>>::empty()],
        b.cursor.pos == (Pos { row: 0, col: 0 }),
        g.virt_cursor == h.cursor,
        g.entries == h.entries,
{
}

} // verus!
