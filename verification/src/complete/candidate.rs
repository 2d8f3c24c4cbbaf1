//! Candidates for a completion, and what a search for them gives.

use crate::text;
use crate::text::chars_of;
use crate::text::chars_start_with;
use crate::text::in_order;
use crate::text::owned;
use crate::text::string_of;
use crate::text::sub_chars;
use crate::unicode;
use vstd::prelude::*;

verus! {

/// A text that may complete what was typed, with a description, an index where
/// it comes from a list, and a weight that decides between equal scores.
#[derive(Debug)]
pub struct Candidate {
    pub content: String,
    pub desc: Option<String>,
    pub id: Option<usize>,
    pub weight: i32,
}

impl Clone for Candidate {
    fn clone(&self) -> (r: Self)
        ensures
            r == *self,
    {
        Candidate {
            content: self.content.clone(),
            desc: self.desc.clone(),
            id: self.id,
            weight: self.weight,
        }
    }
}

/// Whether a candidate begins with what was typed, where case may not matter.
pub open spec fn matches_start(content: Seq<char>, start: Seq<char>, ignore_case: bool) -> bool {
    if ignore_case {
        text::has_prefix(unicode::lowered(content), unicode::lowered(start))
    } else {
        text::has_prefix(content, start)
    }
}

/// What follows the typed start in a candidate. Where case does not matter it
/// is as many bytes shorter than the candidate as the lower-case start takes;
/// where the lower-case text takes more bytes than the candidate has, there is
/// nothing.
pub open spec fn rest_after(content: Seq<char>, start: Seq<char>, ignore_case: bool) -> Option<
    Seq<char>,
> {
    if ignore_case {
        let low = unicode::lowered(content);
        let p = unicode::lowered(start);
        if text::has_prefix(low, p) && text::byte_len(low.skip(p.len() as int)) <= text::byte_len(
            content,
        ) {
            Some(
                text::from_byte(
                    content,
                    text::byte_len(content) - text::byte_len(low.skip(p.len() as int)),
                ),
            )
        } else {
            None
        }
    } else if text::has_prefix(content, start) {
        Some(content.skip(start.len() as int))
    } else {
        None
    }
}

/// Of ASCII texts, a candidate has a rest exactly where it begins with what was
/// typed; the rest is what follows as many characters, with its case kept. Where
/// case matters, what was typed and the rest make up the candidate.
pub proof fn stripping_keeps_the_case(content: Seq<char>, start: Seq<char>, ignore_case: bool)
    requires
        vstd::utf8::is_ascii_chars(content),
        vstd::utf8::is_ascii_chars(start),
    ensures
        rest_after(content, start, ignore_case) is Some <==> matches_start(
            content,
            start,
            ignore_case,
        ),
        rest_after(content, start, ignore_case) matches Some(r) ==> {
            &&& start.len() <= content.len()
            &&& r == content.skip(start.len() as int)
            &&& !ignore_case ==> start + r == content
        },
{
    let k = start.len() as int;
    if !ignore_case {
        if text::has_prefix(content, start) {
            assert(start + content.skip(k) =~= content);
        }
    } else if matches_start(content, start, ignore_case) {
        let low = unicode::lowered(content);
        let rest = low.skip(k);
        assert forall|i: int| 0 <= i < rest.len() implies '\0' <= #[trigger] rest[i] <= '\u{7f}' by {
            assert('\0' <= content[k + i] <= '\u{7f}');
            assert(rest[i] == unicode::to_lower_ascii(content[k + i]));
        }
        let head = content.take(k);
        assert forall|i: int| 0 <= i < head.len() implies '\0' <= #[trigger] head[i] <= '\u{7f}' by {
            assert(head[i] == content[i]);
        }
        text::lemma_ascii_bytes(rest);
        text::lemma_ascii_bytes(content);
        text::lemma_ascii_bytes(head);
        text::lemma_fitting_reach(content, k, 0);
    }
}

/// The characters of an optional string.
pub open spec fn opt_chars(s: Option<String>) -> Option<Seq<char>> {
    match s {
        Some(x) => Some(x@),
        None => None,
    }
}

impl Candidate {
    pub fn from_string(content: String) -> (r: Candidate)
        ensures
            r == (Candidate { content, desc: None, id: None, weight: 0 }),
    {
        Candidate { content, desc: None, id: None, weight: 0 }
    }

    pub fn from_text(content: &str) -> (r: Candidate)
        ensures
            r.content@ == content@,
            r.desc is None,
            r.id is None,
            r.weight == 0,
    {
        Candidate { content: owned(content), desc: None, id: None, weight: 0 }
    }

    pub fn from_indexed(id: usize, content: String) -> (r: Candidate)
        ensures
            r == (Candidate { content, desc: None, id: Some(id), weight: 0 }),
    {
        Candidate { content, desc: None, id: Some(id), weight: 0 }
    }

    pub fn is_match(&self, other: &str, ignore_case: bool) -> (r: bool)
        ensures
            r == matches_start(self.content@, other@, ignore_case),
    {
        if ignore_case {
            let a = self.content.as_str().to_lowercase();
            let b = other.to_lowercase();
            text::str_starts_with(a.as_str(), b.as_str())
        } else {
            text::str_starts_with(self.content.as_str(), other)
        }
    }

    pub fn content(&self) -> (r: &str)
        ensures
            r@ == self.content@,
    {
        self.content.as_str()
    }

    pub fn id(&self) -> (r: Option<usize>)
        ensures
            r == self.id,
    {
        self.id
    }

    pub fn as_str(&self) -> (r: &str)
        ensures
            r@ == self.content@,
    {
        self.content.as_str()
    }

    /// The bytes of the text.
    pub fn as_bytes(&self) -> (r: &[u8])
        ensures
            r@ == vstd::utf8::encode_utf8(self.content@),
    {
        self.content.as_str().as_bytes()
    }

    pub fn to_string(&self) -> (r: String)
        ensures
            r@ == self.content@,
    {
        owned(self.content.as_str())
    }

    pub fn with_desc(self, desc: String) -> (r: Candidate)
        ensures
            r == (Candidate { desc: Some(desc), ..self }),
    {
        Candidate { content: self.content, desc: Some(desc), id: self.id, weight: self.weight }
    }

    pub fn with_weight(self, weight: i32) -> (r: Candidate)
        ensures
            r == (Candidate { weight, ..self }),
    {
        Candidate { content: self.content, desc: self.desc, id: self.id, weight }
    }

    pub fn weight(&self) -> (r: i32)
        ensures
            r == self.weight,
    {
        self.weight
    }

    pub fn starts_with(&self, pat: char) -> (r: bool)
        ensures
            r == (self.content@.len() > 0 && self.content@[0] == pat),
    {
        let v = chars_of(self.content.as_str());
        v.len() > 0 && v[0] == pat
    }

    pub fn strip_prefix(&self, prefix: &str, ignore_case: bool) -> (r: Option<String>)
        ensures
            opt_chars(r) == rest_after(self.content@, prefix@, ignore_case),
    {
        let v = chars_of(self.content.as_str());
        if ignore_case {
            let low = self.content.as_str().to_lowercase();
            let low = chars_of(low.as_str());
            let p = prefix.to_lowercase();
            let p = chars_of(p.as_str());
            if !chars_start_with(low.as_slice(), p.as_slice()) {
                return None;
            }
            let rest = sub_chars(low.as_slice(), p.len(), low.len());
            assert(rest@ =~= low@.skip(p@.len() as int));
            match drop_excess(v.as_slice(), rest.as_slice()) {
                Some(s) => Some(string_of(s.as_slice())),
                None => None,
            }
        } else {
            let p = chars_of(prefix);
            if !chars_start_with(v.as_slice(), p.as_slice()) {
                return None;
            }
            let rest = sub_chars(v.as_slice(), p.len(), v.len());
            assert(rest@ =~= v@.skip(p@.len() as int));
            Some(string_of(rest.as_slice()))
        }
    }
}

/// What is left of a text when it is as many bytes longer than another.
fn drop_excess(v: &[char], rest: &[char]) -> (r: Option<Vec<char>>)
    ensures
        match r {
            Some(x) => text::byte_len(rest@) <= text::byte_len(v@) && x@ == text::from_byte(
                v@,
                text::byte_len(v@) - text::byte_len(rest@),
            ),
            None => text::byte_len(rest@) > text::byte_len(v@),
        },
{
    let a = exact_bytes(v);
    let b = exact_bytes(rest);
    if b > a {
        return None;
    }
    let d: u128 = a - b;
    let mut k: usize = 0;
    let mut at: u128 = 0;
    assert(v@.take(0) =~= Seq::<char>::empty());
    while k < v.len()
        invariant
            k <= v@.len(),
            d == text::byte_len(v@) - text::byte_len(rest@),
            at == text::byte_len(v@.take(k as int)),
            at <= d,
            text::fitting_from(v@, d as int, 0) == text::fitting_from(v@, d as int, k as int),
        ensures
            k <= v@.len(),
            text::fitting_from(v@, d as int, 0) == k,
        decreases v@.len() - k,
    {
        assert(v@.take(k + 1).drop_last() =~= v@.take(k as int));
        let n: u128 = text::bytes_of_char(v[k]) as u128;
        if n > d - at {
            break;
        }
        at = at + n;
        k = k + 1;
    }
    let out = sub_chars(v, k, v.len());
    assert(out@ =~= v@.skip(k as int));
    Some(out)
}

fn exact_bytes(v: &[char]) -> (r: u128)
    ensures
        r == text::byte_len(v@),
{
    let mut i: usize = 0;
    let mut n: u128 = 0;
    while i < v.len()
        invariant
            i <= v@.len(),
            n == text::byte_len(v@.take(i as int)),
            n <= 4 * i,
        decreases v@.len() - i,
    {
        n = n + text::bytes_of_char(v[i]) as u128;
        i = i + 1;
        assert(v@.take(i as int).drop_last() =~= v@.take(i - 1));
    }
    assert(v@.take(i as int) =~= v@);
    n
}

/// Whether candidates are in the order of their texts.
pub open spec fn ordered(s: Seq<Candidate>) -> bool {
    forall|i: int, j: int|
        0 <= i < j < s.len() ==> text::chars_before_or_same(
            (#[trigger] s[i]).content@,
            (#[trigger] s[j]).content@,
        )
}

/// Candidates with one more put in behind those that do not come after it.
pub open spec fn put_in_order(s: Seq<Candidate>, c: Candidate) -> Seq<Candidate>
    decreases s.len(),
{
    if s.len() == 0 || text::chars_before_or_same(s.last().content@, c.content@) {
        s.push(c)
    } else {
        put_in_order(s.drop_last(), c).push(s.last())
    }
}

/// Candidates in the order of their texts. Those with the same text stay as
/// they were.
pub open spec fn sorted(s: Seq<Candidate>) -> Seq<Candidate>
    decreases s.len(),
{
    if s.len() == 0 {
        s
    } else {
        put_in_order(sorted(s.drop_last()), s.last())
    }
}

proof fn lemma_put_in_order(s: Seq<Candidate>, c: Candidate)
    requires
        ordered(s),
    ensures
        ordered(put_in_order(s, c)),
        put_in_order(s, c).to_multiset() == s.to_multiset().insert(c),
        put_in_order(s, c).len() == s.len() + 1,
        forall|d: Seq<char>|
            text::chars_before_or_same(c.content@, d) && (forall|i: int|
                0 <= i < s.len() ==> text::chars_before_or_same((#[trigger] s[i]).content@, d))
                ==> forall|i: int|
                0 <= i < put_in_order(s, c).len() ==> text::chars_before_or_same(
                    (#[trigger] put_in_order(s, c)[i]).content@,
                    d,
                ),
    decreases s.len(),
{
    broadcast use vstd::seq_lib::group_to_multiset_ensures;

    if s.len() == 0 || text::chars_before_or_same(s.last().content@, c.content@) {
        assert forall|i: int, j: int| 0 <= i < j < s.push(c).len() implies text::chars_before_or_same(
            (#[trigger] s.push(c)[i]).content@,
            (#[trigger] s.push(c)[j]).content@,
        ) by {
            if j == s.len() && i < s.len() - 1 {
                text::order_is_transitive(s[i].content@, s.last().content@, c.content@);
            }
        }
    } else {
        let init = s.drop_last();
        let l = s.last();
        lemma_put_in_order(init, c);
        text::order_is_total(l.content@, c.content@);
        let r = put_in_order(init, c);
        assert(s =~= init.push(l));
        assert(forall|i: int|
            0 <= i < init.len() ==> text::chars_before_or_same(
                (#[trigger] init[i]).content@,
                l.content@,
            )) by {
            assert forall|i: int| 0 <= i < init.len() implies text::chars_before_or_same(
                (#[trigger] init[i]).content@,
                l.content@,
            ) by {
                assert(init[i] == s[i]);
            }
        }
        assert(r.push(l).to_multiset() == r.to_multiset().insert(l));
        assert(s.to_multiset() == init.to_multiset().insert(l));
        assert(init.to_multiset().insert(c).insert(l) =~= init.to_multiset().insert(l).insert(c));
        assert forall|d: Seq<char>|
            text::chars_before_or_same(c.content@, d) && (forall|i: int|
                0 <= i < s.len() ==> text::chars_before_or_same((#[trigger] s[i]).content@, d))
            implies forall|i: int|
            0 <= i < r.push(l).len() ==> text::chars_before_or_same(
                (#[trigger] r.push(l)[i]).content@,
                d,
            ) by {
            assert forall|i: int| 0 <= i < init.len() implies text::chars_before_or_same(
                (#[trigger] init[i]).content@,
                d,
            ) by {
                assert(init[i] == s[i]);
            }
            assert(s[s.len() - 1] == l);
        }
    }
}

/// Sorting puts the same candidates in order.
pub proof fn sorting_orders(s: Seq<Candidate>)
    ensures
        ordered(sorted(s)),
        sorted(s).to_multiset() == s.to_multiset(),
        sorted(s).len() == s.len(),
    decreases s.len(),
{
    broadcast use vstd::seq_lib::group_to_multiset_ensures;

    if s.len() > 0 {
        sorting_orders(s.drop_last());
        lemma_put_in_order(sorted(s.drop_last()), s.last());
        assert(s =~= s.drop_last().push(s.last()));
    }
}

fn insert_candidate(v: &mut Vec<Candidate>, c: Candidate)
    ensures
        final(v)@ == put_in_order(old(v)@, c),
{
    let ghost s = v@;
    let x = chars_of(c.content.as_str());
    let mut k: usize = v.len();
    assert(s.take(k as int) =~= s);
    assert(s.skip(k as int) =~= Seq::<Candidate>::empty());
    assert(put_in_order(s.take(k as int), c) + s.skip(k as int) =~= put_in_order(s, c));
    while k > 0
        invariant
            k <= v@.len(),
            v@ == s,
            x@ == c.content@,
            put_in_order(s, c) == put_in_order(s.take(k as int), c) + s.skip(k as int),
        ensures
            k <= v@.len(),
            v@ == s,
            k == 0 || text::chars_before_or_same(s[k - 1].content@, c.content@),
            put_in_order(s, c) == put_in_order(s.take(k as int), c) + s.skip(k as int),
        decreases k,
    {
        let y = chars_of(v[k - 1].content.as_str());
        if in_order(y.as_slice(), x.as_slice()) {
            break;
        }
        proof {
            let t = s.take(k as int);
            assert(t.last() == s[k - 1]);
            assert(t.drop_last() =~= s.take(k - 1));
            assert(put_in_order(t, c) == put_in_order(s.take(k - 1), c).push(s[k - 1]));
            assert(s.skip(k - 1) =~= seq![s[k - 1]] + s.skip(k as int));
            assert(put_in_order(s.take(k - 1), c).push(s[k - 1]) + s.skip(k as int)
                =~= put_in_order(s.take(k - 1), c) + s.skip(k - 1));
        }
        k = k - 1;
    }
    proof {
        let t = s.take(k as int);
        assert(k > 0 ==> t.last() == s[k - 1]);
        assert(put_in_order(t, c) == t.push(c));
        assert(t.push(c) + s.skip(k as int) =~= s.insert(k as int, c));
    }
    v.insert(k, c);
}

/// Puts candidates in the order of their texts.
pub fn sort_candidates(v: Vec<Candidate>) -> (r: Vec<Candidate>)
    ensures
        r@ == sorted(v@),
{
    let mut out: Vec<Candidate> = Vec::new();
    let mut i: usize = 0;
    while i < v.len()
        invariant
            i <= v@.len(),
            out@ == sorted(v@.take(i as int)),
        decreases v@.len() - i,
    {
        insert_candidate(&mut out, v[i].clone());
        i = i + 1;
        assert(v@.take(i as int).drop_last() =~= v@.take(i - 1));
    }
    assert(v@.take(i as int) =~= v@);
    out
}

/// What a search for candidates gives.
#[derive(Debug)]
pub enum CompResult {
    NoMatch,
    Single { result: Candidate },
    Many { candidates: Vec<Candidate> },
}

impl CompResult {
    /// The candidates of a result.
    pub open spec fn candidates(self) -> Seq<Candidate> {
        match self {
            CompResult::NoMatch => Seq::empty(),
            CompResult::Single { result } => seq![result],
            CompResult::Many { candidates } => candidates@,
        }
    }

    pub fn from_candidates(candidates: Vec<Candidate>) -> (r: Self)
        ensures
            r.candidates() == candidates@,
            r is NoMatch <==> candidates@.len() == 0,
            r is Single <==> candidates@.len() == 1,
            r is Many <==> candidates@.len() > 1,
    {
        let mut candidates = candidates;
        if candidates.len() == 0 {
            assert(candidates@ =~= Seq::empty());
            CompResult::NoMatch
        } else if candidates.len() == 1 {
            let ghost c = candidates@;
            let result = candidates.remove(0);
            assert(c =~= seq![result]);
            CompResult::Single { result }
        } else {
            CompResult::Many { candidates }
        }
    }
}

/// How a completer answers a key.
#[derive(Debug)]
pub enum CompResponse {
    /// The key is not for the completer.
    Passthrough,
    /// A candidate was accepted.
    Accept(Candidate),
    /// The completion was cancelled.
    Dismiss,
    /// The key was handled and the completion goes on.
    Consumed,
    /// A candidate is shown in place, and the completion goes on.
    Preview(Candidate),
    /// The completion was cancelled, and the key is not for the completer.
    DismissPassthrough,
}

/// How a selector answers a key.
#[derive(Debug)]
pub enum SelectorResponse {
    Accept(Candidate),
    /// Another candidate was chosen; it may be shown before it is accepted.
    Preview(Candidate),
    Dismiss,
    Consumed,
}

} // verus!
