//! The history of commands, and moving through it.

use crate::complete::candidate::Candidate;
use crate::complete::fuzzy;
use crate::complete::fuzzy::FuzzySelector;
use crate::complete::score::MAX_SCORED;
use crate::editcmd::Direction;
use crate::linebuf::bang;
use crate::linebuf::bang::last_word;
use crate::linebuf::buffer;
use crate::linebuf::buffer::LineBuf;
use crate::linebuf::buffer::Viewport;
use crate::linebuf::line;
use crate::linebuf::lines;
use crate::linebuf::pos::Cursor;
use crate::linebuf::pos::Pos;
use crate::linebuf::render;
use crate::text;
use crate::text::chars_of;
use crate::text::chars_start_with;
use crate::text::decimal_string;
use crate::text::digits_to_usize;
use crate::text::only_digits;
use crate::text::owned;
use crate::text::same_str;
use crate::text::str_starts_with;
use crate::text::string_of;
use crate::text::sub_chars;
use vstd::prelude::*;

verus! {

/// The table of the commands of the shell.
pub const MAIN_HIST_TABLE_NAME: &'static str = "shed_history";

/// A command that was run: how long it took in microseconds, when in seconds,
/// where, and with what result. The token names it.
#[derive(Debug)]
pub struct HistEntry {
    pub runtime: u64,
    pub timestamp: i64,
    pub command: String,
    pub cwd: String,
    pub status: i32,
    pub token: String,
}

impl Clone for HistEntry {
    fn clone(&self) -> (r: Self)
        ensures
            r == *self,
    {
        HistEntry {
            runtime: self.runtime,
            timestamp: self.timestamp,
            command: self.command.clone(),
            cwd: self.cwd.clone(),
            status: self.status,
            token: self.token.clone(),
        }
    }
}

impl HistEntry {
    pub fn command(&self) -> (r: &str)
        ensures
            r@ == self.command@,
    {
        self.command.as_str()
    }
}

/// How another branch went into this one.
#[derive(Debug, Clone, Copy, PartialEq, Eq, Structural)]
pub enum MergeResult {
    FastForward,
    UpToDate,
    Merged,
}

/// The key of a table and a branch.
pub fn cache_key(table: &str, branch: &str) -> (r: String)
    ensures
        r@ == table@ + "/"@ + branch@,
{
    let mut s = owned(table);
    s.push_str("/");
    s.push_str(branch);
    s
}

/// How another branch goes into this one. Where this one has no commands, or
/// neither holds the other, a new entry joins them.
pub fn merge_kind(has_head: bool, holds_theirs: bool, holds_ours: bool) -> (r: MergeResult)
    ensures
        r == (if has_head && holds_theirs {
            MergeResult::UpToDate
        } else if has_head && holds_ours {
            MergeResult::FastForward
        } else {
            MergeResult::Merged
        }),
{
    if has_head && holds_theirs {
        MergeResult::UpToDate
    } else if has_head && holds_ours {
        MergeResult::FastForward
    } else {
        MergeResult::Merged
    }
}

/// Whether a command goes into the history: not an empty one, and none that
/// begins with a space where those are to be left out.
pub fn is_recorded(command: &str, ignore_space: bool) -> (r: bool)
    ensures
        r == (command@.len() > 0 && !(ignore_space && command@[0] == ' ')),
{
    let v = chars_of(command);
    v.len() > 0 && !(ignore_space && v[0] == ' ')
}

/// Whether an entry is stored: not an empty command, none that is stored
/// already, and none that repeats the last where those are to be left out.
pub fn is_stored(command: &str, known: bool, head: Option<&str>, ignore_dupes: bool) -> (r: bool)
    ensures
        r == (command@.len() > 0 && !known && !(ignore_dupes && head is Some && head->0@
            == command@)),
{
    let v = chars_of(command);
    if v.len() == 0 || known {
        return false;
    }
    match head {
        Some(h) => !(ignore_dupes && same_str(h, command)),
        None => true,
    }
}

/// How many commands are too many.
pub fn excess(count: i64, max_size: Option<u32>) -> (r: Option<i64>)
    requires
        count >= 0,
    ensures
        match r {
            Some(n) => max_size is Some && n == count - max_size->0 && n > 0,
            None => max_size is None || count <= max_size->0,
        },
{
    match max_size {
        None => None,
        Some(m) => {
            let n: i64 = count - m as i64;
            if n > 0 {
                Some(n)
            } else {
                None
            }
        },
    }
}

/// The text that names the entries of a deletion, one placeholder for each.
pub open spec fn placeholders(n: int) -> Seq<char>
    decreases n,
{
    if n <= 0 {
        Seq::empty()
    } else if n == 1 {
        "?"@ + text::decimal(1)
    } else {
        placeholders(n - 1) + ", ?"@ + text::decimal(n as nat)
    }
}

/// The condition of a deletion of `n` entries.
pub fn ids_clause(n: usize) -> (r: String)
    ensures
        r@ == ("WHERE id IN ("@ + placeholders(n as int)).push(')'),
{
    let mut list: String = String::new();
    assert(list@ =~= Seq::empty());
    let mut i: usize = 0;
    while i < n
        invariant
            i <= n,
            list@ == placeholders(i as int),
        decreases n - i,
    {
        if i == 0 {
            list.push_str("?");
            assert(list@ =~= "?"@);
        } else {
            list.push_str(", ?");
        }
        i = i + 1;
        let d = decimal_string(i);
        list.push_str(d.as_str());
    }
    let mut out = owned("WHERE id IN (");
    out.push_str(list.as_str());
    out.push(')');
    out
}

/// Entries without those of a command.
pub open spec fn without(s: Seq<HistEntry>, cmd: Seq<char>) -> Seq<HistEntry>
    decreases s.len(),
{
    if s.len() == 0 {
        s
    } else if s.last().command@ == cmd {
        without(s.drop_last(), cmd)
    } else {
        without(s.drop_last(), cmd).push(s.last())
    }
}

/// Entries with one more at the end; an earlier one of the same command goes.
pub open spec fn added(s: Seq<HistEntry>, e: HistEntry) -> Seq<HistEntry> {
    without(s, e.command@).push(e)
}

proof fn lemma_without(s: Seq<HistEntry>, cmd: Seq<char>)
    ensures
        forall|i: int|
            0 <= i < without(s, cmd).len() ==> (#[trigger] without(s, cmd)[i]).command@ != cmd,
        without(s, cmd).len() <= s.len(),
    decreases s.len(),
{
    if s.len() > 0 {
        lemma_without(s.drop_last(), cmd);
    }
}

/// A command that was added is the last, and is there once.
pub proof fn added_is_last_and_once(s: Seq<HistEntry>, e: HistEntry)
    ensures
        added(s, e).len() > 0,
        added(s, e).last() == e,
        forall|i: int|
            0 <= i < added(s, e).len() - 1 ==> (#[trigger] added(s, e)[i]).command@ != e.command@,
{
    lemma_without(s, e.command@);
    let w = without(s, e.command@);
    assert forall|i: int| 0 <= i < added(s, e).len() - 1 implies (#[trigger] added(
        s,
        e,
    )[i]).command@ != e.command@ by {
        assert(added(s, e)[i] == w[i]);
    }
}

fn drop_command(v: &Vec<HistEntry>, cmd: &str) -> (r: Vec<HistEntry>)
    ensures
        r@ == without(v@, cmd@),
{
    let mut out: Vec<HistEntry> = Vec::new();
    let mut i: usize = 0;
    assert(v@.take(0) =~= Seq::<HistEntry>::empty());
    assert(out@ =~= without(v@.take(0), cmd@));
    while i < v.len()
        invariant
            i <= v@.len(),
            out@ == without(v@.take(i as int), cmd@),
        decreases v@.len() - i,
    {
        assert(v@.take(i + 1).drop_last() =~= v@.take(i as int));
        assert(v@.take(i + 1).last() == v@[i as int]);
        if !same_str(v[i].command.as_str(), cmd) {
            out.push(v[i].clone());
        }
        i = i + 1;
    }
    assert(v@.take(i as int) =~= v@);
    out
}

/// Adds an entry; an earlier one of the same command goes.
pub fn add_entry(v: &mut Vec<HistEntry>, e: HistEntry)
    ensures
        final(v)@ == added(old(v)@, e),
{
    let mut w = drop_command(v, e.command.as_str());
    w.push(e);
    *v = w;
}

/// Whether a command is among entries.
pub open spec fn has_command(s: Seq<HistEntry>, cmd: Seq<char>) -> bool {
    exists|i: int| 0 <= i < s.len() && (#[trigger] s[i]).command@ == cmd
}

/// Loaded entries whose commands were not added meanwhile.
pub open spec fn unshadowed(loaded: Seq<HistEntry>, existing: Seq<HistEntry>) -> Seq<HistEntry>
    decreases loaded.len(),
{
    if loaded.len() == 0 {
        loaded
    } else {
        let init = unshadowed(loaded.drop_last(), existing);
        if has_command(existing, loaded.last().command@) {
            init
        } else {
            init.push(loaded.last())
        }
    }
}

fn contains_command(v: &Vec<HistEntry>, cmd: &str) -> (r: bool)
    ensures
        r == has_command(v@, cmd@),
{
    let mut i: usize = 0;
    while i < v.len()
        invariant
            i <= v@.len(),
            forall|k: int| 0 <= k < i ==> (#[trigger] v@[k]).command@ != cmd@,
        decreases v@.len() - i,
    {
        if same_str(v[i].command.as_str(), cmd) {
            assert(v@[i as int].command@ == cmd@);
            return true;
        }
        i = i + 1;
    }
    false
}

/// Puts loaded entries before those that were added meanwhile, which win.
pub fn merge_loaded(existing: &mut Vec<HistEntry>, loaded: Vec<HistEntry>)
    ensures
        final(existing)@ == unshadowed(loaded@, old(existing)@) + old(existing)@,
{
    let ghost old_e = existing@;
    let mut out: Vec<HistEntry> = Vec::new();
    let mut i: usize = 0;
    assert(loaded@.take(0) =~= Seq::<HistEntry>::empty());
    assert(out@ =~= unshadowed(loaded@.take(0), old_e));
    while i < loaded.len()
        invariant
            i <= loaded@.len(),
            existing@ == old_e,
            out@ == unshadowed(loaded@.take(i as int), old_e),
        decreases loaded@.len() - i,
    {
        assert(loaded@.take(i + 1).drop_last() =~= loaded@.take(i as int));
        assert(loaded@.take(i + 1).last() == loaded@[i as int]);
        if !contains_command(existing, loaded[i].command.as_str()) {
            out.push(loaded[i].clone());
        }
        i = i + 1;
    }
    assert(loaded@.take(i as int) =~= loaded@);
    let mut k: usize = 0;
    let ghost head = out@;
    assert(out@ =~= head + old_e.take(0));
    while k < existing.len()
        invariant
            k <= existing@.len(),
            existing@ == old_e,
            out@ == head + old_e.take(k as int),
        decreases existing@.len() - k,
    {
        out.push(existing[k].clone());
        k = k + 1;
        assert(out@ =~= head + old_e.take(k as int));
    }
    assert(old_e.take(k as int) =~= old_e);
    *existing = out;
}

/// Entries whose commands are not among deleted ones.
pub open spec fn surviving(s: Seq<HistEntry>, deleted: Seq<String>) -> Seq<HistEntry>
    decreases s.len(),
{
    if s.len() == 0 {
        s
    } else {
        let init = surviving(s.drop_last(), deleted);
        if names(deleted, s.last().command@) {
            init
        } else {
            init.push(s.last())
        }
    }
}

/// Whether a text is in a list.
pub open spec fn names(v: Seq<String>, t: Seq<char>) -> bool {
    exists|i: int| 0 <= i < v.len() && (#[trigger] v[i])@ == t
}

/// Whether a text is in a list.
pub fn is_named(v: &[String], t: &str) -> (r: bool)
    ensures
        r == names(v@, t@),
{
    let mut i: usize = 0;
    while i < v.len()
        invariant
            i <= v@.len(),
            forall|k: int| 0 <= k < i ==> (#[trigger] v@[k])@ != t@,
        decreases v@.len() - i,
    {
        if same_str(v[i].as_str(), t) {
            assert(v@[i as int]@ == t@);
            return true;
        }
        i = i + 1;
    }
    false
}

/// Leaves out the entries whose commands were deleted.
pub fn retain_surviving(v: &mut Vec<HistEntry>, deleted: &[String])
    ensures
        final(v)@ == surviving(old(v)@, deleted@),
{
    let ghost s = v@;
    let mut out: Vec<HistEntry> = Vec::new();
    let mut i: usize = 0;
    assert(s.take(0) =~= Seq::<HistEntry>::empty());
    assert(out@ =~= surviving(s.take(0), deleted@));
    while i < v.len()
        invariant
            i <= v@.len(),
            v@ == s,
            out@ == surviving(s.take(i as int), deleted@),
        decreases v@.len() - i,
    {
        assert(s.take(i + 1).drop_last() =~= s.take(i as int));
        assert(s.take(i + 1).last() == s[i as int]);
        if !is_named(deleted, v[i].command.as_str()) {
            out.push(v[i].clone());
        }
        i = i + 1;
    }
    assert(s.take(i as int) =~= s);
    *v = out;
}

/// The latest time of some entries, or a time where there are none.
pub open spec fn latest(s: Seq<HistEntry>, default: i64) -> i64
    decreases s.len(),
{
    if s.len() == 0 {
        default
    } else if s.len() == 1 {
        s[0].timestamp
    } else {
        let m = latest(s.drop_last(), default);
        if s.last().timestamp >= m {
            s.last().timestamp
        } else {
            m
        }
    }
}

/// The latest time of some entries, or a time where there are none.
pub fn latest_time(v: &Vec<HistEntry>, default: i64) -> (r: i64)
    ensures
        r == latest(v@, default),
{
    if v.len() == 0 {
        return default;
    }
    let mut m: i64 = v[0].timestamp;
    let mut i: usize = 1;
    while i < v.len()
        invariant
            1 <= i <= v@.len(),
            m == latest(v@.take(i as int), default),
        decreases v@.len() - i,
    {
        assert(v@.take(i + 1).drop_last() =~= v@.take(i as int));
        assert(v@.take(i + 1).last() == v@[i as int]);
        if v[i].timestamp >= m {
            m = v[i].timestamp;
        }
        i = i + 1;
    }
    assert(v@.take(i as int) =~= v@);
    m
}

/// Entries with one more put in behind those that are not later.
pub open spec fn put_by_time(s: Seq<HistEntry>, e: HistEntry) -> Seq<HistEntry>
    decreases s.len(),
{
    if s.len() == 0 || s.last().timestamp <= e.timestamp {
        s.push(e)
    } else {
        put_by_time(s.drop_last(), e).push(s.last())
    }
}

/// Entries in the order of their times. Those of one time stay as they were.
pub open spec fn by_time(s: Seq<HistEntry>) -> Seq<HistEntry>
    decreases s.len(),
{
    if s.len() == 0 {
        s
    } else {
        put_by_time(by_time(s.drop_last()), s.last())
    }
}

fn insert_by_time(v: &mut Vec<HistEntry>, e: HistEntry)
    ensures
        final(v)@ == put_by_time(old(v)@, e),
{
    let ghost s = v@;
    let mut k: usize = v.len();
    assert(s.take(k as int) =~= s);
    assert(s.skip(k as int) =~= Seq::<HistEntry>::empty());
    assert(put_by_time(s.take(k as int), e) + s.skip(k as int) =~= put_by_time(s, e));
    while k > 0 && v[k - 1].timestamp > e.timestamp
        invariant
            k <= v@.len(),
            v@ == s,
            put_by_time(s, e) == put_by_time(s.take(k as int), e) + s.skip(k as int),
        decreases k,
    {
        proof {
            let t = s.take(k as int);
            assert(t.last() == s[k - 1]);
            assert(t.drop_last() =~= s.take(k - 1));
            assert(put_by_time(s.take(k - 1), e).push(s[k - 1]) + s.skip(k as int)
                =~= put_by_time(s.take(k - 1), e) + s.skip(k - 1));
        }
        k = k - 1;
    }
    proof {
        let t = s.take(k as int);
        assert(k > 0 ==> t.last() == s[k - 1]);
        assert(put_by_time(t, e) == t.push(e));
        assert(t.push(e) + s.skip(k as int) =~= s.insert(k as int, e));
    }
    v.insert(k, e);
}

/// Puts entries in the order of their times.
pub fn sort_by_time(v: Vec<HistEntry>) -> (r: Vec<HistEntry>)
    ensures
        r@ == by_time(v@),
{
    let mut out: Vec<HistEntry> = Vec::new();
    let mut i: usize = 0;
    assert(v@.take(0) =~= Seq::<HistEntry>::empty());
    assert(out@ =~= by_time(v@.take(0)));
    while i < v.len()
        invariant
            i <= v@.len(),
            out@ == by_time(v@.take(i as int)),
        decreases v@.len() - i,
    {
        assert(v@.take(i + 1).drop_last() =~= v@.take(i as int));
        assert(v@.take(i + 1).last() == v@[i as int]);
        insert_by_time(&mut out, v[i].clone());
        i = i + 1;
    }
    assert(v@.take(i as int) =~= v@);
    out
}

/// Entries after the first `n` of others were added.
pub open spec fn added_all(s: Seq<HistEntry>, d: Seq<HistEntry>, n: int) -> Seq<HistEntry>
    decreases n,
{
    if n <= 0 {
        s
    } else {
        added(added_all(s, d, n - 1), d[n - 1])
    }
}

/// The entries whose commands begin with a text; all of them without one.
pub open spec fn masked(s: Seq<HistEntry>, prefix: Option<Seq<char>>) -> Seq<HistEntry>
    decreases s.len(),
{
    match prefix {
        None => s,
        Some(p) => if s.len() == 0 {
            s
        } else {
            let init = masked(s.drop_last(), prefix);
            if text::has_prefix(s.last().command@, p) {
                init.push(s.last())
            } else {
                init
            }
        },
    }
}

fn clone_entries(v: &Vec<HistEntry>) -> (r: Vec<HistEntry>)
    ensures
        r@ == v@,
{
    let mut out: Vec<HistEntry> = Vec::new();
    let mut i: usize = 0;
    while i < v.len()
        invariant
            i <= v@.len(),
            out@ == v@.take(i as int),
        decreases v@.len() - i,
    {
        out.push(v[i].clone());
        i = i + 1;
        assert(out@ =~= v@.take(i as int));
    }
    assert(out@ =~= v@);
    out
}

fn mask_entries(v: &Vec<HistEntry>, prefix: Option<&str>) -> (r: Vec<HistEntry>)
    ensures
        r@ == masked(
            v@,
            match prefix {
                Some(p) => Some(p@),
                None => None,
            },
        ),
{
    let p = match prefix {
        None => {
            return clone_entries(v);
        },
        Some(p) => p,
    };
    let mut out: Vec<HistEntry> = Vec::new();
    let mut i: usize = 0;
    assert(v@.take(0) =~= Seq::<HistEntry>::empty());
    assert(out@ =~= masked(v@.take(0), Some(p@)));
    while i < v.len()
        invariant
            i <= v@.len(),
            out@ == masked(v@.take(i as int), Some(p@)),
        decreases v@.len() - i,
    {
        assert(v@.take(i + 1).drop_last() =~= v@.take(i as int));
        assert(v@.take(i + 1).last() == v@[i as int]);
        if str_starts_with(v[i].command.as_str(), p) {
            out.push(v[i].clone());
        }
        i = i + 1;
    }
    assert(v@.take(i as int) =~= v@);
    out
}

/// The last of the first `n` entries whose commands are longer than a text and
/// begin with it.
pub open spec fn hinting(s: Seq<HistEntry>, p: Seq<char>, n: int) -> Option<Seq<char>>
    decreases n,
{
    if n <= 0 {
        None
    } else {
        let c = s[n - 1].command@;
        if text::has_prefix(c, p) && c != p {
            Some(c)
        } else {
            hinting(s, p, n - 1)
        }
    }
}

fn find_hint(entries: &Vec<HistEntry>, p: &str) -> (r: Option<String>)
    ensures
        match hinting(entries@, p@, entries@.len() as int) {
            Some(s) => r is Some && r->0@ == s,
            None => r is None,
        },
{
    let mut i: usize = entries.len();
    while i > 0
        invariant
            i <= entries@.len(),
            hinting(entries@, p@, entries@.len() as int) == hinting(entries@, p@, i as int),
        decreases i,
    {
        let c = entries[i - 1].command.as_str();
        if str_starts_with(c, p) && !same_str(c, p) {
            return Some(entries[i - 1].command.clone());
        }
        i = i - 1;
    }
    None
}

/// A place moved by some entries, between the first entry and the line that is
/// not in the history yet.
pub open spec fn moved_by(at: usize, offset: isize, len: int) -> int {
    if at + offset < 0 {
        0
    } else if at + offset > len {
        len
    } else {
        at + offset
    }
}

fn move_by(at: usize, offset: isize, len: usize) -> (r: usize)
    ensures
        r == moved_by(at, offset, len as int),
        r <= len,
{
    let n: i128 = at as i128 + offset as i128;
    if n < 0 {
        0
    } else if n > len as i128 {
        len
    } else {
        n as usize
    }
}

/// Moving and moving back by as much returns, where nothing was in the way.
pub proof fn moving_back_returns(at: usize, offset: isize, len: int)
    requires
        0 <= at + offset <= len,
        at <= len <= usize::MAX,
        offset > isize::MIN,
    ensures
        moved_by(moved_by(at, offset, len) as usize, (-offset) as isize, len) == at,
{
}

/// A signed number in decimal, where it can be held.
pub open spec fn signed_number(s: Seq<char>) -> Option<i32> {
    let neg = s.len() > 0 && s[0] == '-';
    let d = if s.len() > 0 && (s[0] == '-' || s[0] == '+') {
        s.skip(1)
    } else {
        s
    };
    let v = text::digits_value(d) as int;
    if d.len() == 0 || !text::all_digits(d) {
        None
    } else if neg && v <= 0x8000_0000 {
        Some((-v) as i32)
    } else if !neg && v <= i32::MAX {
        Some(v as i32)
    } else {
        None
    }
}

/// Reads a signed number.
pub fn parse_i32(s: &str) -> (r: Option<i32>)
    ensures
        r == signed_number(s@),
{
    let v = chars_of(s);
    let neg: bool = v.len() > 0 && v[0] == '-';
    let signed: bool = neg || (v.len() > 0 && v[0] == '+');
    let from: usize = if signed {
        1
    } else {
        0
    };
    let d = sub_chars(v.as_slice(), from, v.len());
    proof {
        if signed {
            assert(d@ =~= s@.skip(1));
        } else {
            assert(d@ =~= s@);
        }
    }
    if !only_digits(d.as_slice()) {
        return None;
    }
    if d.len() == 0 {
        return None;
    }
    match digits_to_usize(d.as_slice()) {
        None => None,
        Some(n) => if neg {
            if n <= 0x7fff_ffff {
                Some(-(n as i32))
            } else if n == 0x8000_0000 {
                Some(i32::MIN)
            } else {
                None
            }
        } else if n <= 0x7fff_ffff {
            Some(n as i32)
        } else {
            None
        },
    }
}

/// The last of the first `n` commands that begin with a text.
pub open spec fn last_beginning(c: Seq<String>, p: Seq<char>, n: int) -> Option<Seq<char>>
    decreases n,
{
    if n <= 0 {
        None
    } else if text::has_prefix(c[n - 1]@, p) {
        Some(c[n - 1]@)
    } else {
        last_beginning(c, p, n - 1)
    }
}

/// The command that a reference names, with the commands in the order in which
/// they came: the last, its last word, one counted from the start or from the
/// end, or the last that begins with a text.
pub open spec fn named_command(token: Seq<char>, c: Seq<String>) -> Option<Seq<char>> {
    let t = if token.len() > 0 && token[0] == '!' {
        token.skip(1)
    } else {
        token
    };
    if t == seq!['!'] {
        if c.len() == 0 {
            None
        } else {
            Some(c.last()@)
        }
    } else if t == seq!['$'] {
        if c.len() == 0 {
            None
        } else {
            bang::last_word_of(c.last()@)
        }
    } else if signed_number(t) is Some && signed_number(t)->0 != 0 {
        let n = signed_number(t)->0 as int;
        if n < 0 {
            if -n <= c.len() {
                Some(c[c.len() + n]@)
            } else {
                None
            }
        } else if n <= c.len() {
            Some(c[n - 1]@)
        } else {
            None
        }
    } else {
        last_beginning(c, t, c.len() as int)
    }
}

/// The command that a reference names.
pub fn resolve_hist_token(token: &str, commands: &[String]) -> (r: Option<String>)
    ensures
        match named_command(token@, commands@) {
            Some(s) => r is Some && r->0@ == s,
            None => r is None,
        },
{
    let v = chars_of(token);
    let from: usize = if v.len() > 0 && v[0] == '!' {
        1
    } else {
        0
    };
    let t = sub_chars(v.as_slice(), from, v.len());
    proof {
        if from == 1 {
            assert(t@ =~= token@.skip(1));
        } else {
            assert(t@ =~= token@);
        }
    }
    let n: usize = commands.len();
    if t.len() == 1 && t[0] == '!' {
        assert(t@ =~= seq!['!']);
        return if n == 0 {
            None
        } else {
            Some(commands[n - 1].clone())
        };
    }
    if t.len() == 1 && t[0] == '$' {
        assert(t@ =~= seq!['$']);
        return if n == 0 {
            None
        } else {
            last_word(commands[n - 1].as_str())
        };
    }
    let s = string_of(t.as_slice());
    if let Some(num) = parse_i32(s.as_str()) {
        if num != 0 {
            return if num < 0 {
                let k: u64 = (-(num as i64)) as u64;
                if k <= n as u64 {
                    Some(commands[n - k as usize].clone())
                } else {
                    None
                }
            } else if num as u64 <= n as u64 {
                Some(commands[num as usize - 1].clone())
            } else {
                None
            };
        }
    }
    find_beginning(commands, t.as_slice())
}

fn find_beginning(commands: &[String], p: &[char]) -> (r: Option<String>)
    ensures
        match last_beginning(commands@, p@, commands@.len() as int) {
            Some(s) => r is Some && r->0@ == s,
            None => r is None,
        },
{
    let mut i: usize = commands.len();
    while i > 0
        invariant
            i <= commands@.len(),
            last_beginning(commands@, p@, commands@.len() as int) == last_beginning(
                commands@,
                p@,
                i as int,
            ),
        decreases i,
    {
        let c = chars_of(commands[i - 1].as_str());
        if chars_start_with(c.as_slice(), p) {
            return Some(commands[i - 1].clone());
        }
        i = i - 1;
    }
    None
}

/// An entry of the stored history, with the entries that it follows: the one
/// before it, and the last one of a branch that was merged.
#[derive(Debug)]
pub struct Node {
    pub token: String,
    pub parent: Option<String>,
    pub joint: Option<String>,
}

pub open spec fn text_of(s: Option<String>) -> Option<Seq<char>> {
    match s {
        Some(x) => Some(x@),
        None => None,
    }
}

/// The entry that another follows, by its token, among the first `n`.
pub open spec fn parent_of(nodes: Seq<Node>, token: Seq<char>, n: int) -> Option<Seq<char>>
    decreases n,
{
    if n <= 0 {
        None
    } else if nodes[n - 1].token@ == token {
        text_of(nodes[n - 1].parent)
    } else {
        parent_of(nodes, token, n - 1)
    }
}

/// The nearest entry before and with this one that is not deleted. Deleted
/// entries that follow each other in a circle lead nowhere.
pub open spec fn nearest(
    nodes: Seq<Node>,
    deleted: Seq<String>,
    start: Option<Seq<char>>,
    steps: nat,
) -> Option<Seq<char>>
    decreases steps,
{
    match start {
        None => None,
        Some(t) => if !names(deleted, t) {
            Some(t)
        } else if steps == 0 {
            None
        } else {
            nearest(
                nodes,
                deleted,
                parent_of(nodes, t, nodes.len() as int),
                (steps - 1) as nat,
            )
        },
    }
}

/// What a reference leads to once entries are deleted is not deleted, and a
/// reference to what stays is kept.
pub proof fn references_survive(
    nodes: Seq<Node>,
    deleted: Seq<String>,
    start: Option<Seq<char>>,
    steps: nat,
)
    ensures
        ({
            let r = nearest(nodes, deleted, start, steps);
            &&& r is Some ==> !names(deleted, r->0)
            &&& start is Some && !names(deleted, start->0) ==> r == start
        }),
    decreases steps,
{
    if start is Some && names(deleted, start->0) && steps > 0 {
        references_survive(
            nodes,
            deleted,
            parent_of(nodes, start->0, nodes.len() as int),
            (steps - 1) as nat,
        );
    }
}

fn find_parent(nodes: &Vec<Node>, token: &str) -> (r: Option<String>)
    ensures
        text_of(r) == parent_of(nodes@, token@, nodes@.len() as int),
{
    let mut i: usize = nodes.len();
    while i > 0
        invariant
            i <= nodes@.len(),
            parent_of(nodes@, token@, nodes@.len() as int) == parent_of(
                nodes@,
                token@,
                i as int,
            ),
        decreases i,
    {
        if same_str(nodes[i - 1].token.as_str(), token) {
            return match &nodes[i - 1].parent {
                Some(p) => Some(p.clone()),
                None => None,
            };
        }
        i = i - 1;
    }
    None
}

fn find_nearest(nodes: &Vec<Node>, deleted: &[String], start: &Option<String>) -> (r: Option<
    String,
>)
    ensures
        text_of(r) == nearest(nodes@, deleted@, text_of(*start), nodes@.len()),
{
    let mut at: Option<String> = match start {
        Some(s) => Some(s.clone()),
        None => None,
    };
    let mut steps: usize = nodes.len();
    loop
        invariant
            steps <= nodes@.len(),
            nearest(nodes@, deleted@, text_of(*start), nodes@.len()) == nearest(
                nodes@,
                deleted@,
                text_of(at),
                steps as nat,
            ),
        decreases steps,
    {
        let t = match at {
            None => {
                return None;
            },
            Some(t) => t,
        };
        if !is_named(deleted, t.as_str()) {
            return Some(t);
        }
        if steps == 0 {
            return None;
        }
        at = find_parent(nodes, t.as_str());
        steps = steps - 1;
    }
}

/// A change of what an entry follows.
#[derive(Debug)]
pub struct Remap {
    pub token: String,
    pub parent: Option<String>,
    pub joint: Option<String>,
}

/// What an entry that stays follows once others are deleted.
pub open spec fn kept_parents(nodes: Seq<Node>, deleted: Seq<String>, n: Node) -> (
    Option<Seq<char>>,
    Option<Seq<char>>,
) {
    (
        nearest(nodes, deleted, text_of(n.parent), nodes.len()),
        nearest(nodes, deleted, text_of(n.joint), nodes.len()),
    )
}

/// A change as plain text.
pub struct RemapModel {
    pub token: Seq<char>,
    pub parent: Option<Seq<char>>,
    pub joint: Option<Seq<char>>,
}

impl View for Remap {
    type V = RemapModel;

    open spec fn view(&self) -> RemapModel {
        RemapModel {
            token: self.token@,
            parent: text_of(self.parent),
            joint: text_of(self.joint),
        }
    }
}

/// The changes among the first `n` entries: those that stay and followed a
/// deleted one.
pub open spec fn remaps(nodes: Seq<Node>, deleted: Seq<String>, n: int) -> Seq<RemapModel>
    decreases n,
{
    if n <= 0 {
        Seq::empty()
    } else {
        let init = remaps(nodes, deleted, n - 1);
        let x = nodes[n - 1];
        let k = kept_parents(nodes, deleted, x);
        if !names(deleted, x.token@) && (k.0 != text_of(x.parent) || k.1 != text_of(x.joint)) {
            init.push(RemapModel { token: x.token@, parent: k.0, joint: k.1 })
        } else {
            init
        }
    }
}

/// The branches among the first `n` whose last entry is deleted, and the entry
/// that becomes the last; none where nothing of the branch is left.
pub open spec fn repoints(
    nodes: Seq<Node>,
    deleted: Seq<String>,
    branches: Seq<(String, String)>,
    n: int,
) -> Seq<(Seq<char>, Option<Seq<char>>)>
    decreases n,
{
    if n <= 0 {
        Seq::empty()
    } else {
        let init = repoints(nodes, deleted, branches, n - 1);
        let b = branches[n - 1];
        if names(deleted, b.1@) {
            init.push((b.0@, nearest(nodes, deleted, Some(b.1@), nodes.len())))
        } else {
            init
        }
    }
}

fn same_option(a: &Option<String>, b: &Option<String>) -> (r: bool)
    ensures
        r == (text_of(*a) == text_of(*b)),
{
    match (a, b) {
        (Some(x), Some(y)) => same_str(x.as_str(), y.as_str()),
        (None, None) => true,
        _ => false,
    }
}

/// Plans a deletion: which entries follow others then, and which branches end
/// elsewhere.
pub fn plan_delete(
    nodes: &Vec<Node>,
    deleted: &[String],
    branches: &Vec<(String, String)>,
) -> (r: (Vec<Remap>, Vec<(String, Option<String>)>))
    ensures
        r.0@.len() == remaps(nodes@, deleted@, nodes@.len() as int).len(),
        forall|i: int|
            0 <= i < r.0@.len() ==> (#[trigger] r.0@[i])@ == remaps(
                nodes@,
                deleted@,
                nodes@.len() as int,
            )[i],
        r.1@.len() == repoints(nodes@, deleted@, branches@, branches@.len() as int).len(),
        forall|i: int|
            0 <= i < r.1@.len() ==> ({
                let p = #[trigger] r.1@[i];
                (p.0@, text_of(p.1))
            }) == repoints(nodes@, deleted@, branches@, branches@.len() as int)[i],
{
    let mut changes: Vec<Remap> = Vec::new();
    let mut i: usize = 0;
    while i < nodes.len()
        invariant
            i <= nodes@.len(),
            changes@.len() == remaps(nodes@, deleted@, i as int).len(),
            forall|k: int|
                0 <= k < changes@.len() ==> (#[trigger] changes@[k])@ == remaps(
                    nodes@,
                    deleted@,
                    i as int,
                )[k],
        decreases nodes@.len() - i,
    {
        let x = &nodes[i];
        if !is_named(deleted, x.token.as_str()) {
            let parent = find_nearest(nodes, deleted, &x.parent);
            let joint = find_nearest(nodes, deleted, &x.joint);
            if !same_option(&parent, &x.parent) || !same_option(&joint, &x.joint) {
                changes.push(Remap { token: x.token.clone(), parent, joint });
            }
        }
        i = i + 1;
    }
    let mut heads: Vec<(String, Option<String>)> = Vec::new();
    let mut j: usize = 0;
    while j < branches.len()
        invariant
            j <= branches@.len(),
            heads@.len() == repoints(nodes@, deleted@, branches@, j as int).len(),
            forall|k: int|
                0 <= k < heads@.len() ==> ({
                    let p = #[trigger] heads@[k];
                    (p.0@, text_of(p.1))
                }) == repoints(nodes@, deleted@, branches@, j as int)[k],
        decreases branches@.len() - j,
    {
        let b = &branches[j];
        if is_named(deleted, b.1.as_str()) {
            let start = Some(b.1.clone());
            let head = find_nearest(nodes, deleted, &start);
            heads.push((b.0.clone(), head));
        }
        j = j + 1;
    }
    (changes, heads)
}

/// The history of a table: what is stored of it, what of that the line that is
/// typed selects, and the place in it.
#[derive(Debug)]
pub struct History {
    /// The line that is not in the history yet.
    pub pending: Option<LineBuf>,
    pub fuzzy_finder: Option<FuzzySelector>,
    pub cursor: usize,
    pub virt_cursor: usize,
    pub table: String,
    pub branch: String,
    /// What the place moves through.
    pub search_mask: Vec<HistEntry>,
    pub mask_stale: bool,
    pub no_matches: bool,
    pub max_size: Option<u32>,
    /// The entries of this session and those that were stored before it.
    pub entries: Vec<HistEntry>,
    /// The entries of all sessions.
    pub search_entries: Vec<HistEntry>,
    /// The latest time of an entry of another session.
    pub watermark: i64,
}

/// The largest number of entries; a negative setting is none.
pub open spec fn size_limit(max_hist: i64) -> Option<u32> {
    if max_hist >= 0 {
        Some(max_hist as u32)
    } else {
        None
    }
}

/// What a line selects of some entries: those that begin with it, or all where
/// none does.
pub open spec fn selected_by(s: Seq<HistEntry>, prefix: Option<Seq<char>>) -> Seq<HistEntry> {
    if masked(s, prefix).len() == 0 {
        s
    } else {
        masked(s, prefix)
    }
}

/// The text of the line that is not in the history yet.
pub open spec fn pending_text(p: Option<LineBuf>) -> Option<Seq<char>> {
    match p {
        Some(b) => Some(
            lines::text_chars(render::marked(b.text(), b.cursor.pos, b.select_mode)),
        ),
        None => None,
    }
}

impl History {
    /// The place is among what is selected, or behind it.
    pub open spec fn wf(self) -> bool {
        self.cursor <= self.search_mask@.len() && (self.pending is Some ==> self.pending->0.wf())
    }

    pub fn attach(table: &str, branch: &str, max_hist: i64) -> (r: Self)
        ensures
            r.pending is None,
            r.fuzzy_finder is None,
            r.cursor == 0,
            r.virt_cursor == 0,
            r.table@ == table@,
            r.branch@ == branch@,
            r.search_mask@.len() == 0,
            r.mask_stale,
            !r.no_matches,
            r.max_size == size_limit(max_hist),
            r.entries@.len() == 0,
            r.search_entries@.len() == 0,
            r.watermark == 0,
            r.wf(),
    {
        History {
            pending: None,
            fuzzy_finder: None,
            cursor: 0,
            virt_cursor: 0,
            table: owned(table),
            branch: owned(branch),
            search_mask: Vec::new(),
            mask_stale: true,
            no_matches: false,
            max_size: if max_hist >= 0 {
                Some(max_hist as u32)
            } else {
                None
            },
            entries: Vec::new(),
            search_entries: Vec::new(),
            watermark: 0,
        }
    }

    pub fn empty(table: &str, branch: &str) -> (r: Self)
        ensures
            r.pending is None,
            r.fuzzy_finder is None,
            r.cursor == 0,
            r.virt_cursor == 0,
            r.table@ == table@,
            r.branch@ == branch@,
            r.search_mask@.len() == 0,
            r.mask_stale,
            !r.no_matches,
            r.max_size is None,
            r.entries@.len() == 0,
            r.search_entries@.len() == 0,
            r.watermark == 0,
            r.wf(),
    {
        History::attach(table, branch, -1)
    }

    /// Takes in what was stored, which was loaded while entries may have been
    /// added.
    pub fn take_loaded(&mut self, loaded: Vec<HistEntry>)
        ensures
            final(self).entries@ == unshadowed(loaded@, old(self).entries@) + old(self).entries@,
            final(self).search_entries@ == unshadowed(loaded@, old(self).search_entries@)
                + old(self).search_entries@,
            final(self).watermark == (if latest(loaded@, 0) > old(self).watermark {
                latest(loaded@, 0)
            } else {
                old(self).watermark
            }),
            *final(self) == (History {
                entries: final(self).entries,
                search_entries: final(self).search_entries,
                watermark: final(self).watermark,
                ..*old(self)
            }),
    {
        let t = latest_time(&loaded, 0);
        let copy = clone_entries(&loaded);
        merge_loaded(&mut self.entries, copy);
        merge_loaded(&mut self.search_entries, loaded);
        if t > self.watermark {
            self.watermark = t;
        }
    }

    /// Whether the branch is another one now. The entries have to be loaded
    /// again then.
    pub fn check_branch(&mut self, current: &str) -> (r: bool)
        ensures
            r == (old(self).table@ == MAIN_HIST_TABLE_NAME@ && old(self).branch@ != current@),
            r ==> final(self).branch@ == current@ && *final(self) == (History {
                branch: final(self).branch,
                mask_stale: true,
                ..*old(self)
            }),
            !r ==> *final(self) == *old(self),
    {
        if !same_str(self.table.as_str(), MAIN_HIST_TABLE_NAME) || same_str(
            self.branch.as_str(),
            current,
        ) {
            return false;
        }
        self.branch = owned(current);
        self.mask_stale = true;
        true
    }

    /// Adds an entry that was stored.
    pub fn cache_entry(&mut self, entry: HistEntry)
        ensures
            final(self).entries@ == added(old(self).entries@, entry),
            final(self).search_entries@ == added(old(self).search_entries@, entry),
            *final(self) == (History {
                entries: final(self).entries,
                search_entries: final(self).search_entries,
                ..*old(self)
            }),
    {
        add_entry(&mut self.entries, entry.clone());
        add_entry(&mut self.search_entries, entry);
    }

    /// Leaves out the commands that were deleted to make room.
    pub fn drop_deleted(&mut self, deleted: &[String])
        ensures
            final(self).entries@ == surviving(old(self).entries@, deleted@),
            final(self).search_entries@ == surviving(old(self).search_entries@, deleted@),
            *final(self) == (History {
                entries: final(self).entries,
                search_entries: final(self).search_entries,
                ..*old(self)
            }),
    {
        retain_surviving(&mut self.entries, deleted);
        retain_surviving(&mut self.search_entries, deleted);
    }

    /// Selects the entries that begin with a text, or all.
    pub fn update_search_mask(&mut self, prefix: Option<&str>)
        ensures
            final(self).search_mask@ == masked(
                old(self).entries@,
                match prefix {
                    Some(p) => Some(p@),
                    None => None,
                },
            ),
            *final(self) == (History { search_mask: final(self).search_mask, ..*old(self) }),
    {
        self.search_mask = mask_entries(&self.entries, prefix);
    }

    /// Goes behind the entries.
    pub fn reset(&mut self)
        ensures
            *final(self) == (History {
                mask_stale: true,
                cursor: old(self).search_mask@.len() as usize,
                virt_cursor: old(self).search_mask@.len() as usize,
                ..*old(self)
            }),
    {
        self.mask_stale = true;
        self.cursor = self.search_mask.len();
        self.virt_cursor = self.cursor;
    }

    pub fn mark_mask_stale(&mut self)
        ensures
            *final(self) == (History { mask_stale: true, ..*old(self) }),
    {
        self.mask_stale = true;
    }

    /// The history once what is selected is up to date.
    pub open spec fn freshened(a: History, b: History) -> bool {
        if a.mask_stale {
            History::constrained(a, b, pending_text(a.pending))
        } else {
            b == a
        }
    }

    /// The history once a text selects its entries.
    pub open spec fn constrained(a: History, b: History, prefix: Option<Seq<char>>) -> bool {
        &&& b.search_mask@ == selected_by(a.entries@, prefix)
        &&& b == (History {
            search_mask: b.search_mask,
            no_matches: masked(a.entries@, prefix).len() == 0,
            cursor: b.search_mask@.len() as usize,
            virt_cursor: b.search_mask@.len() as usize,
            mask_stale: false,
            ..a
        })
    }

    /// Selects entries by the line that is typed, unless that was done.
    pub fn ensure_mask_fresh(&mut self)
        ensures
            History::freshened(*old(self), *final(self)),
    {
        if self.mask_stale {
            match &self.pending {
                Some(b) => {
                    let s = b.to_string();
                    self.constrain_entries(Some(s.as_str()));
                },
                None => {
                    self.constrain_entries(None);
                },
            }
        }
    }

    /// Selects the entries that begin with a text, or all where none does.
    pub fn constrain_entries(&mut self, prefix: Option<&str>)
        ensures
            History::constrained(
                *old(self),
                *final(self),
                match prefix {
                    Some(p) => Some(p@),
                    None => None,
                },
            ),
    {
        self.update_search_mask(prefix);
        self.no_matches = self.search_mask.len() == 0;
        if self.no_matches {
            self.update_search_mask(None);
        }
        self.cursor = self.search_mask.len();
        self.virt_cursor = self.cursor;
        self.mask_stale = false;
    }

    /// The command that a reference names.
    pub fn resolve_hist_token(&self, token: &str, commands: &[String]) -> (r: Option<String>)
        ensures
            match named_command(token@, commands@) {
                Some(s) => r is Some && r->0@ == s,
                None => r is None,
            },
    {
        resolve_hist_token(token, commands)
    }

    /// Whether an entry is looked at that is as the line shows it.
    pub open spec fn browses(self, cmd: Seq<char>) -> bool {
        self.cursor < self.search_mask@.len() && self.search_mask@[self.cursor as int].command@
            == cmd
    }

    /// Whether a buffer holds the line that was typed, with the cursor at a place
    /// in it. A line that was noted before is changed, and a new one begins.
    pub open spec fn notes(
        was: Option<LineBuf>,
        p: LineBuf,
        cmd: Seq<char>,
        cursor_pos: usize,
        view: Viewport,
    ) -> bool {
        &&& p.wf()
        &&& p.text() == lines::lines_of(cmd)
        &&& p.concat_points@.len() == 0
        &&& match was {
            Some(w) => {
                &&& p.cursor == (Cursor {
                    pos: buffer::fixed_pos(
                        p.text(),
                        Cursor {
                            pos: buffer::unflat(p.text(), cursor_pos as int),
                            exclusive: w.cursor.exclusive,
                        },
                    ),
                    exclusive: w.cursor.exclusive,
                })
                &&& p.scroll_offset == buffer::rescrolled_to(
                    w,
                    p.text(),
                    p.cursor.pos.row,
                    view,
                )
                &&& p == (LineBuf {
                    lines: p.lines,
                    cursor: p.cursor,
                    scroll_offset: p.scroll_offset,
                    concat_points: p.concat_points,
                    ..w
                })
            },
            None => {
                &&& p.cursor == (Cursor {
                    pos: Pos {
                        row: 0,
                        col: line::least(
                            cursor_pos as int,
                            vstd::utf8::encode_utf8(cmd).len() as usize as int,
                        ) as usize,
                    },
                    exclusive: false,
                })
                &&& p.hint is None && p.select_mode is None && p.last_selection is None
                &&& p.insert_mode_start_pos is None && p.saved_col is None
                &&& p.scroll_offset == buffer::rescrolled(0, 0, p.text(), None, view)
                &&& p.undo_stack@.len() == 0 && p.redo_stack@.len() == 0
                &&& p.kill_ring@.len() == 0
            },
        }
    }

    /// Notes the line that is typed. Where it is an entry of the history that
    /// is looked at, nothing changes.
    pub fn update_pending_cmd(&mut self, cmd: &str, cursor_pos: usize, view: Viewport)
        requires
            old(self).wf(),
        ensures
            final(self).wf(),
            old(self).browses(cmd@) ==> *final(self) == *old(self),
            !old(self).browses(cmd@) ==> {
                let end = old(self).search_mask@.len() as usize;
                &&& final(self).pending is Some
                &&& History::notes(
                    old(self).pending,
                    final(self).pending->0,
                    cmd@,
                    cursor_pos,
                    view,
                )
                &&& *final(self) == (History {
                    pending: final(self).pending,
                    cursor: end,
                    virt_cursor: if old(self).cursor < end {
                        end
                    } else {
                        old(self).virt_cursor
                    },
                    ..*old(self)
                })
            },
    {
        assert(self.search_mask.len() == self.search_mask@.len());
        if !self.at_pending() {
            if same_str(self.search_mask[self.cursor].command.as_str(), cmd) {
                return;
            }
            self.reset_to_pending();
        }
        let buf = match self.pending.take() {
            Some(mut p) => {
                p.set_buffer(cmd, view);
                p.set_cursor_from_flat(cursor_pos, view);
                p
            },
            None => LineBuf::new().with_initial(cmd, cursor_pos, view),
        };
        self.pending = Some(buf);
    }

    pub fn at_pending(&self) -> (r: bool)
        ensures
            r == (self.cursor >= self.search_mask@.len()),
    {
        self.cursor >= self.search_mask.len()
    }

    pub fn reset_to_pending(&mut self)
        ensures
            *final(self) == (History {
                cursor: old(self).search_mask@.len() as usize,
                virt_cursor: old(self).search_mask@.len() as usize,
                ..*old(self)
            }),
    {
        self.cursor = self.search_mask.len();
        self.virt_cursor = self.cursor;
    }

    /// The latest command that the line that is typed begins.
    pub fn get_hint(&self) -> (r: Option<String>)
        ensures
            ({
                let p = pending_text(self.pending);
                let h = if self.cursor < self.search_mask@.len() || p is None || p->0.len() == 0 {
                    None
                } else {
                    hinting(self.entries@, p->0, self.entries@.len() as int)
                };
                match h {
                    Some(s) => r is Some && r->0@ == s,
                    None => r is None,
                }
            }),
    {
        if !self.at_pending() {
            return None;
        }
        let p = match &self.pending {
            None => {
                return None;
            },
            Some(b) => b.to_string(),
        };
        let pv = chars_of(p.as_str());
        if pv.len() == 0 {
            return None;
        }
        find_hint(&self.entries, p.as_str())
    }

    /// Takes the stored entries anew, and returns how many more there are.
    pub fn refresh_hist_entries(&mut self, entries: Vec<HistEntry>) -> (r: usize)
        ensures
            final(self).entries@ == entries@,
            final(self).search_entries@ == entries@,
            final(self).watermark == latest(entries@, 0),
            *final(self) == (History {
                entries: final(self).entries,
                search_entries: final(self).search_entries,
                watermark: final(self).watermark,
                ..*old(self)
            }),
            r == (if entries@.len() >= old(self).entries@.len() {
                entries@.len() - old(self).entries@.len()
            } else {
                0
            }),
    {
        let before: usize = self.entries.len();
        self.watermark = latest_time(&entries, 0);
        self.search_entries = clone_entries(&entries);
        self.entries = entries;
        self.entries.len().saturating_sub(before)
    }

    pub fn is_virtual_scrolling(&self) -> (r: bool)
        ensures
            r == (self.virt_cursor != self.cursor),
    {
        self.virt_cursor != self.cursor
    }

    pub fn virtual_scroll_direction(&self) -> (r: Option<Direction>)
        ensures
            r == (if self.virt_cursor > self.cursor {
                Some(Direction::Forward)
            } else if self.virt_cursor < self.cursor {
                Some(Direction::Backward)
            } else {
                None
            }),
    {
        if self.virt_cursor > self.cursor {
            Some(Direction::Forward)
        } else if self.virt_cursor < self.cursor {
            Some(Direction::Backward)
        } else {
            None
        }
    }

    pub fn stop_virtual_scroll(&mut self)
        ensures
            *final(self) == (History { virt_cursor: old(self).cursor, ..*old(self) }),
    {
        self.virt_cursor = self.cursor;
    }

    /// The entry at the place.
    pub open spec fn current(self) -> Option<HistEntry> {
        if self.cursor < self.search_mask@.len() {
            Some(self.search_mask@[self.cursor as int])
        } else {
            None
        }
    }

    fn entry_at(&self, at: usize) -> (r: Option<HistEntry>)
        ensures
            r == (if at < self.search_mask@.len() {
                Some(self.search_mask@[at as int])
            } else {
                None
            }),
    {
        if at < self.search_mask.len() {
            Some(self.search_mask[at].clone())
        } else {
            None
        }
    }

    /// The history once the place moved by some entries.
    pub open spec fn scrolled(a: History, b: History, offset: isize) -> bool {
        exists|m: History|
            #![trigger History::freshened(a, m)]
            History::freshened(a, m) && b == (History {
                cursor: moved_by(m.cursor, offset, m.search_mask@.len() as int) as usize,
                virt_cursor: moved_by(m.cursor, offset, m.search_mask@.len() as int) as usize,
                ..m
            })
    }

    /// Moves the place by some entries.
    pub fn scroll(&mut self, offset: isize) -> (r: Option<HistEntry>)
        ensures
            History::scrolled(*old(self), *final(self), offset),
            final(self).pending == old(self).pending,
            final(self).fuzzy_finder == old(self).fuzzy_finder,
            final(self).cursor <= final(self).search_mask@.len(),
            r == final(self).current(),
    {
        self.ensure_mask_fresh();
        let ghost m = *self;
        self.cursor = move_by(self.cursor, offset, self.search_mask.len());
        self.virt_cursor = self.cursor;
        assert(History::freshened(*old(self), m));
        self.entry_at(self.cursor)
    }

    /// The history once the place moved to an entry.
    pub open spec fn scrolled_to(a: History, b: History, idx: usize) -> bool {
        exists|m: History|
            #![trigger History::freshened(a, m)]
            {
                let at = if idx <= m.search_mask@.len() {
                    idx
                } else {
                    m.search_mask@.len() as usize
                };
                History::freshened(a, m) && b == (History { cursor: at, virt_cursor: at, ..m })
            }
    }

    /// Moves the place to an entry.
    pub fn scroll_to(&mut self, idx: usize) -> (r: Option<HistEntry>)
        ensures
            History::scrolled_to(*old(self), *final(self), idx),
            final(self).pending == old(self).pending,
            final(self).fuzzy_finder == old(self).fuzzy_finder,
            final(self).cursor <= final(self).search_mask@.len(),
            r == final(self).current(),
    {
        self.ensure_mask_fresh();
        let ghost m = *self;
        let n = self.search_mask.len();
        self.cursor = if idx <= n {
            idx
        } else {
            n
        };
        self.virt_cursor = self.cursor;
        assert(History::freshened(*old(self), m));
        self.entry_at(self.cursor)
    }

    pub fn search_mask_count(&self) -> (r: usize)
        ensures
            r == self.search_mask@.len(),
    {
        self.search_mask.len()
    }

    /// Where looking ahead by some entries leads. It stays among the entries.
    pub open spec fn looked_ahead(self, offset: isize) -> usize {
        let n = self.search_mask@.len() as int;
        let most = if self.virt_cursor != self.cursor {
            if n > 0 {
                n - 1
            } else {
                0
            }
        } else {
            n
        };
        let v = moved_by(self.virt_cursor, offset, most);
        if v >= n {
            self.virt_cursor
        } else {
            v as usize
        }
    }

    /// Looks ahead by some entries without moving the place.
    pub fn virt_scroll(&mut self, offset: isize) -> (r: Option<HistEntry>)
        ensures
            *final(self) == (History {
                virt_cursor: old(self).looked_ahead(offset),
                ..*old(self)
            }),
            r == (if final(self).virt_cursor == old(self).virt_cursor {
                None
            } else {
                Some(old(self).search_mask@[final(self).virt_cursor as int])
            }),
            r is Some ==> final(self).virt_cursor < old(self).search_mask@.len(),
    {
        let before: usize = self.virt_cursor;
        let n: usize = self.search_mask.len();
        let most: usize = if self.is_virtual_scrolling() {
            n.saturating_sub(1)
        } else {
            n
        };
        let v: usize = move_by(before, offset, most);
        if v >= n || v == before {
            return None;
        }
        self.virt_cursor = v;
        self.entry_at(v)
    }

    /// Takes the entries of all sessions for those of this one.
    pub fn merge_search_entries(&mut self)
        ensures
            final(self).entries@ == old(self).search_entries@,
            *final(self) == (History {
                entries: final(self).entries,
                mask_stale: true,
                ..*old(self)
            }),
    {
        self.entries = clone_entries(&self.search_entries);
        self.mask_stale = true;
    }

    /// Takes in entries of other sessions.
    pub fn sync_search_entries(&mut self, delta: Vec<HistEntry>)
        ensures
            delta@.len() == 0 ==> *final(self) == *old(self),
            delta@.len() > 0 ==> {
                let t = latest(delta@, old(self).watermark);
                &&& final(self).search_entries@ == by_time(
                    added_all(old(self).search_entries@, delta@, delta@.len() as int),
                )
                &&& *final(self) == (History {
                    search_entries: final(self).search_entries,
                    watermark: if t > old(self).watermark {
                        t
                    } else {
                        old(self).watermark
                    },
                    ..*old(self)
                })
            },
    {
        if delta.len() == 0 {
            return;
        }
        let t = latest_time(&delta, self.watermark);
        let mut all = clone_entries(&self.search_entries);
        let ghost s = all@;
        let mut i: usize = 0;
        while i < delta.len()
            invariant
                i <= delta@.len(),
                all@ == added_all(s, delta@, i as int),
            decreases delta@.len() - i,
        {
            add_entry(&mut all, delta[i].clone());
            i = i + 1;
        }
        self.search_entries = sort_by_time(all);
        if t > self.watermark {
            self.watermark = t;
        }
    }

    /// Every command can be scored.
    pub open spec fn searchable(self) -> bool {
        &&& self.search_entries@.len() <= usize::MAX / 4
        &&& forall|i: int|
            0 <= i < self.search_entries@.len() ==> (
            #[trigger] self.search_entries@[i]).command@.len() <= MAX_SCORED
    }

    /// Starts a search in the entries of all sessions. A single entry is the
    /// result at once.
    pub fn start_search(&mut self, initial: &str, view: Viewport) -> (r: Option<String>)
        requires
            old(self).searchable(),
        ensures
            old(self).search_entries@.len() == 0 ==> r is None && *final(self) == *old(self),
            old(self).search_entries@.len() == 1 ==> r is Some && r->0@
                == old(self).search_entries@[0].command@ && *final(self) == *old(self),
            old(self).search_entries@.len() > 1 ==> {
                &&& r is None
                &&& final(self).fuzzy_finder is Some
                &&& *final(self) == (History {
                    fuzzy_finder: final(self).fuzzy_finder,
                    ..*old(self)
                })
                &&& final(self).fuzzy_finder->0.wf()
                &&& final(self).fuzzy_finder->0.query.linebuf.text() == lines::lines_of(initial@)
                &&& final(self).fuzzy_finder->0.query.typed() == initial@
                &&& final(self).fuzzy_finder->0.candidates@.len()
                    == old(self).search_entries@.len()
                &&& forall|i: int|
                    0 <= i < old(self).search_entries@.len() ==> (
                    #[trigger] final(self).fuzzy_finder->0.candidates@[i]).content
                        == old(self).search_entries@[i].command
                        && final(self).fuzzy_finder->0.candidates@[i].id == Some(i as usize)
                &&& final(self).fuzzy_finder->0.filtered@ == fuzzy::found_best_first(
                    fuzzy::unscored(final(self).fuzzy_finder->0.candidates@),
                    initial@,
                )
                &&& final(self).fuzzy_finder->0.cursor.val == 0
            },
    {
        let n = self.search_entries.len();
        if n == 0 {
            return None;
        }
        if n == 1 {
            return Some(self.search_entries[0].command.clone());
        }
        let mut candidates: Vec<Candidate> = Vec::new();
        let mut i: usize = 0;
        while i < n
            invariant
                i <= n,
                n == self.search_entries@.len(),
                self.searchable(),
                candidates@.len() == i,
                forall|k: int|
                    0 <= k < i ==> (#[trigger] candidates@[k]).content
                        == self.search_entries@[k].command && candidates@[k].id
                        == Some(k as usize),
            decreases n - i,
        {
            candidates.push(Candidate::from_indexed(i, self.search_entries[i].command.clone()));
            i = i + 1;
        }
        assert(fuzzy::all_scorable(candidates@));
        let mut finder = FuzzySelector::new();
        finder.activate(candidates);
        finder.set_query(initial, view);
        self.fuzzy_finder = Some(finder);
        None
    }

    pub fn stop_search(&mut self)
        ensures
            *final(self) == (History { fuzzy_finder: None, ..*old(self) }),
    {
        self.fuzzy_finder = None;
    }
}

} // verus!
