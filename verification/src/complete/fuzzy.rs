//! Candidates found by a query that is typed below the prompt.

use crate::complete::align;
use crate::complete::align::fuzzy_match_score;
use crate::complete::align::match_positions;
use crate::complete::candidate;
use crate::complete::candidate::Candidate;
use crate::complete::candidate::CompResponse;
use crate::complete::candidate::CompResult;
use crate::complete::candidate::SelectorResponse;
use crate::complete::cells;
use crate::complete::cells::caret_notation;
use crate::complete::cells::cell_name;
use crate::complete::cells::show_candidate;
use crate::complete::cells::truncate_to_width;
use crate::complete::cells::Board;
use crate::complete::cells::BoardModel;
use crate::complete::cells::Cell;
use crate::complete::cells::Look;
use crate::complete::cells::ShownCell;
use crate::complete::cells::ROWS;
use crate::complete::clamped;
use crate::complete::clamped::ClampedUsize;
use crate::complete::grid;
use crate::complete::grid::clone_candidates;
use crate::complete::grid::column_escape;
use crate::complete::grid::pack_cells;
use crate::complete::grid::replace_span;
use crate::complete::grid::scroll_cells;
use crate::complete::grid::step_column;
use crate::complete::grid::up_escape;
use crate::complete::score::ScoredCandidate;
use crate::complete::score::MAX_SCORED;
use crate::complete::simple;
use crate::complete::simple::SimpleCompleter;
use crate::editmode::emacs;
use crate::editmode::emacs::Emacs;
use crate::editcmd::EditCmd;
use crate::keys::KeyCode;
use crate::keys::KeyEvent;
use crate::keys::ModKeys;
use crate::linebuf::buffer;
use crate::linebuf::buffer::LineBuf;
use crate::linebuf::buffer::Viewport;
use crate::linebuf::exec;
use crate::linebuf::line;
use crate::linebuf::lines;
use crate::linebuf::pos::Cursor;
use crate::linebuf::pos::Pos;
use crate::linebuf::render;
use crate::linebuf::verbs::Effect;
use crate::linebuf::words;
use crate::term::layout;
use crate::term::layout::push_times;
use crate::term::width::calc_str_width;
use crate::term::width::WidthCalculator;
use crate::text;
use crate::text::chars_of;
use crate::text::owned;
use crate::text::push_repeated;
use crate::text::str_starts_with;
use crate::text::string_of;
use crate::text::sub_chars;
use vstd::multiset::Multiset;
use vstd::prelude::*;

verus! {

/// How a text is scored against a query, and whether a longer text counts less.
pub open spec fn own_score() -> spec_fn(Seq<char>, Seq<char>, bool) -> i32 {
    |c: Seq<char>, q: Seq<char>, penalize: bool| match_score(c, q, penalize) as i32
}

/// The best score of a query in a text.
pub open spec fn match_score(c: Seq<char>, q: Seq<char>, penalize: bool) -> int {
    choose|s: int| align::is_match_score(c, q, penalize, s)
}

/// Whether a function scores texts in a way.
pub open spec fn scores_by<F: Fn(&str, &[char], bool) -> i32>(
    cb: F,
    score: spec_fn(Seq<char>, Seq<char>, bool) -> i32,
) -> bool {
    forall|c: &str, q: &[char], p: bool, r: i32| #[trigger]
        call_ensures(cb, (c, q, p), r) ==> r == score(c@, q@, p)
}

/// Whether a function scores every text that a score can hold.
pub open spec fn scores_texts<F: Fn(&str, &[char], bool) -> i32>(cb: F) -> bool {
    forall|c: &str, q: &[char], p: bool|
        c@.len() <= MAX_SCORED ==> #[trigger] call_requires(cb, (c, q, p))
}

fn score_text(c: &str, q: &[char], penalize: bool) -> (r: i32)
    requires
        c@.len() <= MAX_SCORED,
    ensures
        r == own_score()(c@, q@, penalize),
{
    let r = fuzzy_match_score(c, q, penalize);
    proof {
        let s = match_score(c@, q@, penalize);
        assert(align::is_match_score(c@, q@, penalize, r as int));
        align::match_score_is_unique(c@, q@, penalize, r as int, s);
    }
    r
}

/// Whether the characters of a query are found in a text, in their order.
pub open spec fn found(c: Seq<char>, q: Seq<char>) -> bool {
    exists|p: Seq<int>|
        p.len() == q.len() && #[trigger] align::alignment(c, q, p, q.len() as int)
}

/// Where a longer query is found, its start is found too.
pub proof fn longer_queries_find_less(c: Seq<char>, q: Seq<char>, more: Seq<char>)
    requires
        found(c, q + more),
    ensures
        found(c, q),
{
    let l = q + more;
    let p = choose|p: Seq<int>|
        p.len() == l.len() && #[trigger] align::alignment(c, l, p, l.len() as int);
    let t = p.take(q.len() as int);
    assert(align::alignment(c, q, t, q.len() as int));
}

/// A text that a query does not find is not found by a longer one either.
pub proof fn longer_queries_score_less(c: Seq<char>, q: Seq<char>, more: Seq<char>, penalize: bool)
    requires
        c.len() <= MAX_SCORED,
        own_score()(c, q, penalize) == i32::MIN,
    ensures
        own_score()(c, q + more, penalize) == i32::MIN,
{
    let a = align::texts_have_scores(c, q, penalize);
    let b = align::texts_have_scores(c, q + more, penalize);
    align::match_score_is_unique(c, q, penalize, a, match_score(c, q, penalize));
    align::match_score_is_unique(c, q + more, penalize, b, match_score(c, q + more, penalize));
    if b != i32::MIN {
        assert(found(c, q + more));
        longer_queries_find_less(c, q, more);
    }
}

/// The entry with the best score; of equal scores the one with the larger
/// weight, and of equal weights the last.
pub open spec fn best_by(
    e: Seq<(String, i32)>,
    q: Seq<char>,
    n: int,
    score: spec_fn(Seq<char>, Seq<char>, bool) -> i32,
) -> Option<int>
    decreases n,
{
    if n <= 0 {
        None
    } else {
        let before = best_by(e, q, n - 1, score);
        let s = score(e[n - 1].0@, q, false);
        if s <= i32::MIN {
            before
        } else {
            match before {
                None => Some(n - 1),
                Some(b) => {
                    let t = score(e[b].0@, q, false);
                    if s > t || (s == t && e[n - 1].1 >= e[b].1) {
                        Some(n - 1)
                    } else {
                        before
                    }
                },
            }
        }
    }
}

/// Finds the entry that a query matches best.
pub fn fuzzy_best_match(query: &str, entries: Vec<(String, i32)>) -> (r: Option<String>)
    requires
        forall|i: int| 0 <= i < entries@.len() ==> (#[trigger] entries@[i]).0@.len() <= MAX_SCORED,
    ensures
        match best_by(entries@, query@, entries@.len() as int, own_score()) {
            Some(i) => r is Some && 0 <= i < entries@.len() && r->0@ == entries@[i].0@,
            None => r is None,
        },
{
    let own = |c: &str, q: &[char], p: bool| -> (r: i32)
        requires
            c@.len() <= MAX_SCORED,
        ensures
            r == own_score()(c@, q@, p),
        { score_text(c, q, p) };
    assert(scores_by(own, own_score()));
    best_match(query, entries, &own)
}

/// Finds the entry that a query matches best, by scores of the caller. What was
/// typed is turned into the query first.
pub fn fuzzy_best_match_with<S: Fn(&str, &[char], bool) -> i32, T: Fn(&str) -> String>(
    query: &str,
    entries: Vec<(String, i32)>,
    cb: S,
    transform: T,
) -> (r: Option<String>)
    requires
        forall|i: int| 0 <= i < entries@.len() ==> (#[trigger] entries@[i]).0@.len() <= MAX_SCORED,
        scores_texts(cb),
        call_requires(transform, (query,)),
    ensures
        exists|t: String| #[trigger]
            call_ensures(transform, (query,), t) && (forall|score: spec_fn(
                Seq<char>,
                Seq<char>,
                bool,
            ) -> i32| #[trigger]
                scores_by(cb, score) ==> match best_by(
                    entries@,
                    t@,
                    entries@.len() as int,
                    score,
                ) {
                    Some(i) => r is Some && 0 <= i < entries@.len() && r->0@ == entries@[i].0@,
                    None => r is None,
                }),
{
    let t = transform(query);
    best_match(t.as_str(), entries, &cb)
}

fn best_match<S: Fn(&str, &[char], bool) -> i32>(
    query: &str,
    entries: Vec<(String, i32)>,
    cb: &S,
) -> (r: Option<String>)
    requires
        forall|i: int| 0 <= i < entries@.len() ==> (#[trigger] entries@[i]).0@.len() <= MAX_SCORED,
        scores_texts(*cb),
    ensures
        forall|score: spec_fn(Seq<char>, Seq<char>, bool) -> i32| #[trigger]
            scores_by(*cb, score) ==> match best_by(
                entries@,
                query@,
                entries@.len() as int,
                score,
            ) {
                Some(i) => r is Some && 0 <= i < entries@.len() && r->0@ == entries@[i].0@,
                None => r is None,
            },
{
    let q = chars_of(query);
    let mut best: Option<(usize, i32)> = None;
    let mut i: usize = 0;
    while i < entries.len()
        invariant
            i <= entries@.len(),
            q@ == query@,
            scores_texts(*cb),
            forall|k: int|
                0 <= k < entries@.len() ==> (#[trigger] entries@[k]).0@.len() <= MAX_SCORED,
            best is Some ==> (best->0).0 < i,
            forall|score: spec_fn(Seq<char>, Seq<char>, bool) -> i32| #[trigger]
                scores_by(*cb, score) ==> match best {
                    Some(b) => best_by(entries@, query@, i as int, score) == Some(b.0 as int)
                        && b.1 == score(entries@[b.0 as int].0@, query@, false),
                    None => best_by(entries@, query@, i as int, score) is None,
                },
        decreases entries@.len() - i,
    {
        assert(entries@[i as int].0@.len() <= MAX_SCORED);
        let s: i32 = cb(entries[i].0.as_str(), q.as_slice(), false);
        assert(forall|score: spec_fn(Seq<char>, Seq<char>, bool) -> i32| #[trigger]
            scores_by(*cb, score) ==> s == score(entries@[i as int].0@, query@, false));
        if s > i32::MIN {
            let better: bool = match best {
                None => true,
                Some((b, t)) => s > t || (s == t && entries[i].1 >= entries[b].1),
            };
            if better {
                best = Some((i, s));
            }
        }
        i = i + 1;
    }
    match best {
        Some((b, _)) => Some(entries[b].0.clone()),
        None => None,
    }
}

/// The score of a candidate, the lowest where it has none.
pub open spec fn score_or_least(c: ScoredCandidate) -> i32 {
    match c.score {
        Some(s) => s,
        None => i32::MIN,
    }
}

/// Whether a candidate does not come before another: by score, then by weight.
pub open spec fn not_after(a: ScoredCandidate, b: ScoredCandidate) -> bool {
    score_or_least(a) < score_or_least(b) || (score_or_least(a) == score_or_least(b)
        && a.candidate.weight <= b.candidate.weight)
}

/// Candidates with one more put in behind those that do not come after it.
pub open spec fn put_by_rank(s: Seq<ScoredCandidate>, c: ScoredCandidate) -> Seq<ScoredCandidate>
    decreases s.len(),
{
    if s.len() == 0 || not_after(s.last(), c) {
        s.push(c)
    } else {
        put_by_rank(s.drop_last(), c).push(s.last())
    }
}

/// Candidates from the lowest score to the highest. Equal ones stay as they
/// were.
pub open spec fn by_rank(s: Seq<ScoredCandidate>) -> Seq<ScoredCandidate>
    decreases s.len(),
{
    if s.len() == 0 {
        s
    } else {
        put_by_rank(by_rank(s.drop_last()), s.last())
    }
}

/// The candidates among the first `n` in which a query is found, with their
/// scores.
pub open spec fn matching_by(
    s: Seq<ScoredCandidate>,
    q: Seq<char>,
    n: int,
    score: spec_fn(Seq<char>, Seq<char>, bool) -> i32,
) -> Seq<ScoredCandidate>
    decreases n,
{
    if n <= 0 {
        Seq::empty()
    } else {
        let init = matching_by(s, q, n - 1, score);
        let x = score(s[n - 1].candidate.content@, q, s[n - 1].penalize_len_diff);
        if x > i32::MIN {
            init.push(ScoredCandidate { score: Some(x), ..s[n - 1] })
        } else {
            init
        }
    }
}

/// Candidates that have no score yet.
pub open spec fn unscored(c: Seq<Candidate>) -> Seq<ScoredCandidate> {
    Seq::new(
        c.len(),
        |i: int| ScoredCandidate { candidate: c[i], score: None, penalize_len_diff: false },
    )
}

/// The candidates that a query finds, the best first; of equal ones the last
/// first.
pub open spec fn found_by(
    s: Seq<ScoredCandidate>,
    q: Seq<char>,
    score: spec_fn(Seq<char>, Seq<char>, bool) -> i32,
) -> Seq<ScoredCandidate> {
    by_rank(matching_by(s, q, s.len() as int, score)).reverse()
}

/// The candidates that a query finds by the scores of this module.
pub open spec fn found_best_first(s: Seq<ScoredCandidate>, q: Seq<char>) -> Seq<ScoredCandidate> {
    found_by(s, q, own_score())
}

pub open spec fn ranked(s: Seq<ScoredCandidate>) -> bool {
    forall|i: int, j: int| 0 <= i < j < s.len() ==> not_after(#[trigger] s[i], #[trigger] s[j])
}

proof fn lemma_put_by_rank(s: Seq<ScoredCandidate>, c: ScoredCandidate)
    requires
        ranked(s),
    ensures
        ranked(put_by_rank(s, c)),
        put_by_rank(s, c).len() == s.len() + 1,
        put_by_rank(s, c).to_multiset() =~= s.to_multiset().insert(c),
        forall|i: int|
            0 <= i < s.len() + 1 ==> (#[trigger] put_by_rank(s, c)[i]) == c || s.contains(
                put_by_rank(s, c)[i],
            ),
    decreases s.len(),
{
    broadcast use vstd::seq_lib::group_to_multiset_ensures;

    if s.len() == 0 || not_after(s.last(), c) {
        let r = s.push(c);
        assert forall|i: int, j: int| 0 <= i < j < r.len() implies not_after(
            #[trigger] r[i],
            #[trigger] r[j],
        ) by {
            if j == s.len() && i < s.len() - 1 {
                assert(not_after(s[i], s[s.len() - 1]));
            }
        }
        assert forall|i: int| 0 <= i < r.len() implies (#[trigger] r[i]) == c || s.contains(
            r[i],
        ) by {
            if i < s.len() {
                assert(s[i] == r[i]);
            }
        }
    } else {
        let t = s.drop_last();
        let x = s.last();
        lemma_put_by_rank(t, c);
        let u = put_by_rank(t, c);
        let r = u.push(x);
        assert(s =~= t.push(x));
        assert forall|i: int, j: int| 0 <= i < j < r.len() implies not_after(
            #[trigger] r[i],
            #[trigger] r[j],
        ) by {
            if j == u.len() {
                if u[i] != c {
                    let k = t.index_of(u[i]);
                    assert(s[k] == u[i]);
                    assert(not_after(s[k], s[s.len() - 1]));
                }
            }
        }
        assert forall|i: int| 0 <= i < r.len() implies (#[trigger] r[i]) == c || s.contains(
            r[i],
        ) by {
            if i < u.len() {
                if u[i] != c {
                    let k = t.index_of(u[i]);
                    assert(s[k] == u[i]);
                }
            } else {
                assert(s[s.len() - 1] == r[i]);
            }
        }
    }
}

proof fn lemma_by_rank(s: Seq<ScoredCandidate>)
    ensures
        ranked(by_rank(s)),
        by_rank(s).len() == s.len(),
        by_rank(s).to_multiset() == s.to_multiset(),
    decreases s.len(),
{
    broadcast use vstd::seq_lib::group_to_multiset_ensures;

    if s.len() > 0 {
        lemma_by_rank(s.drop_last());
        lemma_put_by_rank(by_rank(s.drop_last()), s.last());
        assert(s =~= s.drop_last().push(s.last()));
        assert(by_rank(s).to_multiset() =~= s.to_multiset());
    }
}

/// What a query finds is in order, the best first, and it is what matches,
/// whatever gives the scores.
pub proof fn best_come_first(
    s: Seq<ScoredCandidate>,
    q: Seq<char>,
    score: spec_fn(Seq<char>, Seq<char>, bool) -> i32,
)
    ensures
        ({
            let r = found_by(s, q, score);
            &&& forall|i: int, j: int|
                0 <= i < j < r.len() ==> not_after(#[trigger] r[j], #[trigger] r[i])
            &&& r.to_multiset() == matching_by(s, q, s.len() as int, score).to_multiset()
        }),
{
    let m = matching_by(s, q, s.len() as int, score);
    lemma_by_rank(m);
    let a = by_rank(m);
    let r = a.reverse();
    assert forall|i: int, j: int| 0 <= i < j < r.len() implies not_after(
        #[trigger] r[j],
        #[trigger] r[i],
    ) by {
        assert(r[j] == a[a.len() - 1 - j]);
        assert(r[i] == a[a.len() - 1 - i]);
    }
    lemma_reverse(a);
}

proof fn lemma_reverse(s: Seq<ScoredCandidate>)
    ensures
        s.reverse().to_multiset() == s.to_multiset(),
    decreases s.len(),
{
    broadcast use vstd::seq_lib::group_to_multiset_ensures;

    if s.len() == 0 {
        assert(s.reverse() =~= s);
    } else {
        let t = s.drop_first();
        lemma_reverse(t);
        assert(s.reverse() =~= t.reverse().push(s[0]));
        vstd::seq_lib::lemma_multiset_commutative(seq![s[0]], t);
        assert(s =~= seq![s[0]] + t);
        assert(seq![s[0]] =~= Seq::empty().push(s[0]));
        assert(s.reverse().to_multiset() =~= s.to_multiset());
    }
}

/// What a query finds among candidates, whatever their order.
spec fn sifted(
    s: Seq<ScoredCandidate>,
    q: Seq<char>,
    score: spec_fn(Seq<char>, Seq<char>, bool) -> i32,
) -> Multiset<ScoredCandidate>
    decreases s.len(),
{
    if s.len() == 0 {
        Multiset::empty()
    } else {
        sifted(s.drop_last(), q, score).add(sift_one(s.last(), q, score))
    }
}

spec fn sift_one(
    c: ScoredCandidate,
    q: Seq<char>,
    score: spec_fn(Seq<char>, Seq<char>, bool) -> i32,
) -> Multiset<ScoredCandidate> {
    let x = score(c.candidate.content@, q, c.penalize_len_diff);
    if x > i32::MIN {
        Multiset::singleton(ScoredCandidate { score: Some(x), ..c })
    } else {
        Multiset::empty()
    }
}

proof fn lemma_matching_sifted(
    s: Seq<ScoredCandidate>,
    q: Seq<char>,
    n: int,
    score: spec_fn(Seq<char>, Seq<char>, bool) -> i32,
)
    requires
        0 <= n <= s.len(),
    ensures
        matching_by(s, q, n, score).to_multiset() == sifted(s.take(n), q, score),
    decreases n,
{
    broadcast use vstd::seq_lib::group_to_multiset_ensures;

    if n > 0 {
        lemma_matching_sifted(s, q, n - 1, score);
        assert(s.take(n).drop_last() =~= s.take(n - 1));
        assert(matching_by(s, q, n, score).to_multiset() =~= sifted(s.take(n), q, score));
    } else {
        assert(Seq::<ScoredCandidate>::empty().to_multiset() =~= Multiset::empty());
    }
}

proof fn lemma_sifted_add(
    a: Seq<ScoredCandidate>,
    b: Seq<ScoredCandidate>,
    q: Seq<char>,
    score: spec_fn(Seq<char>, Seq<char>, bool) -> i32,
)
    ensures
        sifted(a + b, q, score) == sifted(a, q, score).add(sifted(b, q, score)),
    decreases b.len(),
{
    if b.len() == 0 {
        assert(a + b =~= a);
        assert(sifted(a, q, score).add(Multiset::empty()) =~= sifted(a, q, score));
    } else {
        lemma_sifted_add(a, b.drop_last(), q, score);
        assert((a + b).drop_last() =~= a + b.drop_last());
        assert((a + b).last() == b.last());
        assert(sifted(a + b, q, score) =~= sifted(a, q, score).add(sifted(b, q, score)));
    }
}

proof fn lemma_sifted_order(
    a: Seq<ScoredCandidate>,
    b: Seq<ScoredCandidate>,
    q: Seq<char>,
    score: spec_fn(Seq<char>, Seq<char>, bool) -> i32,
)
    requires
        a.to_multiset() == b.to_multiset(),
    ensures
        sifted(a, q, score) == sifted(b, q, score),
    decreases a.len(),
{
    broadcast use vstd::seq_lib::group_to_multiset_ensures;

    assert(a.len() == a.to_multiset().len() == b.to_multiset().len() == b.len());
    if a.len() > 0 {
        let x = a.last();
        let d = a.drop_last();
        assert(a =~= d.push(x));
        assert(a.contains(x));
        assert(b.to_multiset().count(x) > 0);
        assert(b.contains(x));
        let i = b.index_of(x);
        let l = b.take(i);
        let r = b.skip(i + 1);
        let e = l + r;
        assert(b =~= l + (seq![x] + r));
        assert(b.remove(i) =~= e);
        assert(d.to_multiset() =~= a.to_multiset().remove(x));
        assert(e.to_multiset() =~= b.to_multiset().remove(x));
        lemma_sifted_order(d, e, q, score);
        lemma_sifted_add(l, r, q, score);
        lemma_sifted_add(l, seq![x] + r, q, score);
        lemma_sifted_add(seq![x], r, q, score);
        assert(seq![x].drop_last() =~= Seq::<ScoredCandidate>::empty());
        assert(sifted(seq![x].drop_last(), q, score) =~= Multiset::empty());
        assert(sifted(a, q, score) =~= sifted(b, q, score));
    }
}

proof fn lemma_sifted_again(
    s: Seq<ScoredCandidate>,
    q: Seq<char>,
    more: Seq<char>,
    n: int,
    score: spec_fn(Seq<char>, Seq<char>, bool) -> i32,
)
    requires
        0 <= n <= s.len(),
        forall|i: int|
            0 <= i < s.len() ==> score(
                (#[trigger] s[i]).candidate.content@,
                q,
                s[i].penalize_len_diff,
            ) == i32::MIN ==> score(s[i].candidate.content@, q + more, s[i].penalize_len_diff)
                == i32::MIN,
    ensures
        sifted(matching_by(s, q, n, score), q + more, score) == sifted(s.take(n), q + more, score),
    decreases n,
{
    if n > 0 {
        lemma_sifted_again(s, q, more, n - 1, score);
        assert(s.take(n).drop_last() =~= s.take(n - 1));
        let c = s[n - 1];
        let x = score(c.candidate.content@, q, c.penalize_len_diff);
        let m = matching_by(s, q, n, score);
        if x > i32::MIN {
            assert(m.drop_last() =~= matching_by(s, q, n - 1, score));
            assert(sift_one(m.last(), q + more, score) == sift_one(c, q + more, score));
        } else {
            assert(sift_one(c, q + more, score) == Multiset::<ScoredCandidate>::empty());
            assert(sifted(s.take(n), q + more, score) =~= sifted(m, q + more, score));
        }
    }
}

/// Looking only at what the start of a query found finds what looking at all candidates
/// does, where more typed characters never find what fewer did not.
pub proof fn typing_on_finds_the_same(
    s: Seq<ScoredCandidate>,
    q: Seq<char>,
    more: Seq<char>,
    score: spec_fn(Seq<char>, Seq<char>, bool) -> i32,
)
    requires
        forall|i: int|
            0 <= i < s.len() ==> score(
                (#[trigger] s[i]).candidate.content@,
                q,
                s[i].penalize_len_diff,
            ) == i32::MIN ==> score(s[i].candidate.content@, q + more, s[i].penalize_len_diff)
                == i32::MIN,
    ensures
        found_by(found_by(s, q, score), q + more, score).to_multiset() == found_by(
            s,
            q + more,
            score,
        ).to_multiset(),
{
    let l = q + more;
    let f = found_by(s, q, score);
    best_come_first(s, q, score);
    best_come_first(f, l, score);
    best_come_first(s, l, score);
    lemma_matching_sifted(f, l, f.len() as int, score);
    lemma_matching_sifted(s, l, s.len() as int, score);
    assert(f.take(f.len() as int) =~= f);
    assert(s.take(s.len() as int) =~= s);
    lemma_sifted_order(f, matching_by(s, q, s.len() as int, score), l, score);
    lemma_sifted_again(s, q, more, s.len() as int, score);
}

/// Looking only at what the start of a query found finds what looking at all candidates
/// does, by the scores of this module.
pub proof fn typing_on_misses_nothing(s: Seq<ScoredCandidate>, q: Seq<char>, more: Seq<char>)
    requires
        scorable(s),
    ensures
        found_best_first(found_best_first(s, q), q + more).to_multiset() == found_best_first(
            s,
            q + more,
        ).to_multiset(),
{
    assert forall|i: int|
        0 <= i < s.len() && own_score()(
            (#[trigger] s[i]).candidate.content@,
            q,
            s[i].penalize_len_diff,
        ) == i32::MIN implies own_score()(
        s[i].candidate.content@,
        q + more,
        s[i].penalize_len_diff,
    ) == i32::MIN by {
        longer_queries_score_less(s[i].candidate.content@, q, more, s[i].penalize_len_diff);
    }
    typing_on_finds_the_same(s, q, more, own_score());
}

fn rank_insert(v: &mut Vec<ScoredCandidate>, c: ScoredCandidate)
    ensures
        final(v)@ == put_by_rank(old(v)@, c),
{
    let ghost s = v@;
    let mut k: usize = v.len();
    assert(s.take(k as int) =~= s);
    assert(s.skip(k as int) =~= Seq::<ScoredCandidate>::empty());
    assert(put_by_rank(s.take(k as int), c) + s.skip(k as int) =~= put_by_rank(s, c));
    while k > 0 && !comes_before(&v[k - 1], &c)
        invariant
            k <= v@.len(),
            v@ == s,
            put_by_rank(s, c) == put_by_rank(s.take(k as int), c) + s.skip(k as int),
        decreases k,
    {
        proof {
            let t = s.take(k as int);
            assert(t.last() == s[k - 1]);
            assert(t.drop_last() =~= s.take(k - 1));
            assert(put_by_rank(t, c) == put_by_rank(s.take(k - 1), c).push(s[k - 1]));
            assert(put_by_rank(s.take(k - 1), c).push(s[k - 1]) + s.skip(k as int)
                =~= put_by_rank(s.take(k - 1), c) + s.skip(k - 1));
        }
        k = k - 1;
    }
    proof {
        let t = s.take(k as int);
        assert(k > 0 ==> t.last() == s[k - 1]);
        assert(put_by_rank(t, c) == t.push(c));
        assert(t.push(c) + s.skip(k as int) =~= s.insert(k as int, c));
    }
    v.insert(k, c);
}

fn comes_before(a: &ScoredCandidate, b: &ScoredCandidate) -> (r: bool)
    ensures
        r == not_after(*a, *b),
{
    let x: i32 = match a.score {
        Some(s) => s,
        None => i32::MIN,
    };
    let y: i32 = match b.score {
        Some(s) => s,
        None => i32::MIN,
    };
    x < y || (x == y && a.candidate.weight <= b.candidate.weight)
}

/// No content is longer than a score can hold.
pub open spec fn scorable(s: Seq<ScoredCandidate>) -> bool {
    forall|i: int| 0 <= i < s.len() ==> (#[trigger] s[i]).candidate.content@.len() <= MAX_SCORED
}

pub open spec fn all_scorable(s: Seq<Candidate>) -> bool {
    forall|i: int| 0 <= i < s.len() ==> (#[trigger] s[i]).content@.len() <= MAX_SCORED
}

/// Finds the candidates that match a query, the best first.
fn rank<S: Fn(&str, &[char], bool) -> i32>(
    s: &Vec<ScoredCandidate>,
    q: &[char],
    cb: &S,
) -> (r: Vec<ScoredCandidate>)
    requires
        scorable(s@),
        scores_texts(*cb),
    ensures
        forall|score: spec_fn(Seq<char>, Seq<char>, bool) -> i32| #[trigger]
            scores_by(*cb, score) ==> r@ == found_by(s@, q@, score),
        scorable(r@),
        r@.len() <= s@.len(),
{
    let mut out: Vec<ScoredCandidate> = Vec::new();
    let mut i: usize = 0;
    while i < s.len()
        invariant
            i <= s@.len(),
            scorable(s@),
            scores_texts(*cb),
            scorable(out@),
            ranked(out@),
            out@.len() <= i,
            forall|score: spec_fn(Seq<char>, Seq<char>, bool) -> i32| #[trigger]
                scores_by(*cb, score) ==> out@ == by_rank(matching_by(s@, q@, i as int, score)),
        decreases s@.len() - i,
    {
        let c = &s[i];
        let x: i32 = cb(c.candidate.content.as_str(), q, c.penalize_len_diff);
        assert(forall|score: spec_fn(Seq<char>, Seq<char>, bool) -> i32| #[trigger]
            scores_by(*cb, score) ==> x == score(
                s@[i as int].candidate.content@,
                q@,
                s@[i as int].penalize_len_diff,
            ));
        if x > i32::MIN {
            let sc = ScoredCandidate {
                candidate: c.candidate.clone(),
                score: Some(x),
                penalize_len_diff: c.penalize_len_diff,
            };
            let ghost before = out@;
            rank_insert(&mut out, sc);
            proof {
                lemma_put_by_rank(before, sc);
                assert forall|k: int| 0 <= k < out@.len() implies (
                #[trigger] out@[k]).candidate.content@.len() <= MAX_SCORED by {
                    if out@[k] != sc {
                        let j = before.index_of(out@[k]);
                        assert(before[j] == out@[k]);
                    }
                }
                assert forall|score: spec_fn(Seq<char>, Seq<char>, bool) -> i32| #[trigger]
                    scores_by(*cb, score) implies out@ == by_rank(
                    matching_by(s@, q@, i + 1, score),
                ) by {
                    let m = matching_by(s@, q@, i + 1, score);
                    assert(m.drop_last() =~= matching_by(s@, q@, i as int, score));
                    assert(m.last() == sc);
                }
            }
        }
        i = i + 1;
    }
    proof {
        let a = out@;
        assert forall|k: int| 0 <= k < a.reverse().len() implies (
        #[trigger] a.reverse()[k]).candidate.content@.len() <= MAX_SCORED by {
            assert(a.reverse()[k] == a[a.len() - 1 - k]);
        }
    }
    reversed(out)
}

fn reversed(v: Vec<ScoredCandidate>) -> (r: Vec<ScoredCandidate>)
    ensures
        r@ == v@.reverse(),
{
    let mut v = v;
    let ghost s = v@;
    let mut out: Vec<ScoredCandidate> = Vec::new();
    while v.len() > 0
        invariant
            v@.len() <= s.len(),
            v@ == s.take(v@.len() as int),
            out@ == s.skip(v@.len() as int).reverse(),
        decreases v@.len(),
    {
        let ghost n = v@.len() as int;
        match v.pop() {
            Some(c) => {
                assert(c == s[n - 1]);
                out.push(c);
                assert(v@ =~= s.take(n - 1));
                assert(out@ =~= s.skip(n - 1).reverse());
            },
            None => {},
        }
    }
    assert(s.skip(0) =~= s);
    out
}

fn to_unscored(c: &Vec<Candidate>) -> (r: Vec<ScoredCandidate>)
    ensures
        r@ == unscored(c@),
{
    let mut out: Vec<ScoredCandidate> = Vec::new();
    let mut i: usize = 0;
    while i < c.len()
        invariant
            i <= c@.len(),
            out@ == unscored(c@).take(i as int),
        decreases c@.len() - i,
    {
        out.push(
            ScoredCandidate { candidate: c[i].clone(), score: None, penalize_len_diff: false },
        );
        i = i + 1;
        assert(out@ =~= unscored(c@).take(i as int));
    }
    assert(out@ =~= unscored(c@));
    out
}

/// Edits the query.
#[derive(Debug)]
pub struct QueryEditor {
    pub mode: Emacs,
    pub linebuf: LineBuf,
}

/// What a key makes of the query.
pub open spec fn query_edited(a: LineBuf, b: LineBuf, key: KeyEvent, view: Viewport) -> bool {
    exists|cmd: Option<EditCmd>, e: Effect|
        #![trigger emacs::reads(key, cmd), exec::cmd_done(a, b, cmd->0, view, Seq::empty(), None, e)]
        emacs::reads(key, cmd) && (if cmd is None || !exec::roomy(
            a,
            cmd->0,
            Seq::empty(),
            None,
        ) {
            b == a
        } else {
            exec::cmd_done(a, b, cmd->0, view, Seq::empty(), None, e)
        })
}

impl QueryEditor {
    pub fn new() -> (r: Self)
        ensures
            r.mode.wf(),
            r.linebuf.fresh(),
            r.linebuf.wf(),
    {
        let linebuf = LineBuf::new();
        assert(linebuf.text().len() == linebuf.lines@.len());
        QueryEditor { mode: Emacs::new(), linebuf }
    }

    pub fn clear(&mut self)
        ensures
            final(self).mode.wf(),
            final(self).linebuf.fresh(),
            final(self).linebuf.wf(),
    {
        *self = QueryEditor::new();
    }

    /// The query that was typed.
    pub open spec fn typed(self) -> Seq<char> {
        lines::text_chars(
            render::marked(self.linebuf.text(), self.linebuf.cursor.pos, self.linebuf.select_mode),
        )
    }

    /// Edits the query by a key. A command that the machine cannot count is
    /// passed over.
    pub fn handle_key(&mut self, key: KeyEvent, view: Viewport)
        requires
            old(self).mode.wf(),
            old(self).linebuf.wf(),
        ensures
            final(self).mode.wf(),
            final(self).linebuf.wf(),
            query_edited(old(self).linebuf, final(self).linebuf, key, view),
    {
        let ghost a = self.linebuf;
        let ghost k = key;
        let r = self.mode.handle_key(key);
        let ghost cmd = r;
        match r {
            None => {
                proof {
                    let e = Effect::Nothing;
                    assert(emacs::reads(k, cmd));
                    let _ = exec::cmd_done(a, self.linebuf, cmd->0, view, Seq::empty(), None, e);
                    assert(query_edited(a, self.linebuf, k, view));
                }
            },
            Some(c) => {
                let none: Vec<(usize, usize)> = Vec::new();
                assert(none@ =~= Seq::empty());
                let e = self.linebuf.try_exec_cmd(c, view, none.as_slice(), None);
                proof {
                    assert(emacs::reads(k, cmd));
                    let _ = exec::cmd_done(
                        a,
                        self.linebuf,
                        cmd->0,
                        view,
                        Seq::empty(),
                        None,
                        e->0,
                    );
                    assert(query_edited(a, self.linebuf, k, view));
                }
            },
        }
    }
}

/// How many rows were drawn.
#[derive(Debug, Clone, Copy, PartialEq, Eq, Structural)]
pub struct FuzzyLayout {
    pub rows: usize,
}

/// Builds a selector that stands on its own.
#[derive(Debug)]
pub struct FuzzyBuilder {
    pub entries: Vec<(String, i32)>,
    pub placeholder: Option<String>,
    pub inline: bool,
}

impl FuzzyBuilder {
    pub fn new() -> (r: Self)
        ensures
            r.entries@.len() == 0,
            r.placeholder is None,
            r.inline,
    {
        FuzzyBuilder { entries: Vec::new(), placeholder: None, inline: true }
    }

    pub fn with_inline(self, enable: bool) -> (r: Self)
        ensures
            r == (FuzzyBuilder { inline: enable, ..self }),
    {
        let mut b = self;
        b.inline = enable;
        b
    }

    pub fn with_entries(self, entries: Vec<(String, i32)>) -> (r: Self)
        ensures
            r == (FuzzyBuilder { entries, ..self }),
    {
        let mut b = self;
        b.entries = entries;
        b
    }

    pub fn with_placeholder(self, placeholder: String) -> (r: Self)
        ensures
            r == (FuzzyBuilder { placeholder: Some(placeholder), ..self }),
    {
        let mut b = self;
        b.placeholder = Some(placeholder);
        b
    }

    /// What an answer of the selector decides: a text that was picked, that nothing
    /// was, or nothing yet.
    pub fn pick(answer: &SelectorResponse) -> (r: Option<Option<String>>)
        ensures
            match answer {
                SelectorResponse::Accept(c) => r is Some && r->0 is Some && (r->0)->0@
                    == c.content@,
                SelectorResponse::Dismiss => r == Some(None::<String>),
                _ => r is None,
            },
    {
        match answer {
            SelectorResponse::Accept(c) => Some(Some(c.content.clone())),
            SelectorResponse::Dismiss => Some(None),
            SelectorResponse::Preview(_) => None,
            SelectorResponse::Consumed => None,
        }
    }

    /// Whether a selector is that of the entries, before a key is typed.
    pub open spec fn started(self, s: FuzzySelector) -> bool {
        &&& s.wf()
        &&& s.inline == self.inline
        &&& s.placeholder == self.placeholder
        &&& s.prompt_cursor_col == 0
        &&& s.query.linebuf.fresh()
        &&& s.last_query@.len() == 0
        &&& s.effective_query@.len() == 0
        &&& s.cursor.val == 0 && s.cursor.max == s.filtered@.len()
        &&& s.scroll_col == 0
        &&& s.old_layout is None
        &&& s.candidates@.len() == self.entries@.len()
        &&& forall|i: int|
            0 <= i < self.entries@.len() ==> (#[trigger] s.candidates@[i]).content
                == self.entries@[i].0 && s.candidates@[i].weight == self.entries@[i].1
                && s.candidates@[i].desc is None && s.candidates@[i].id is None
    }

    /// The selector of the entries, before a key is typed; none without entries.
    pub fn selector(self) -> (r: Option<FuzzySelector>)
        requires
            self.entries@.len() <= usize::MAX / 4,
            forall|i: int|
                0 <= i < self.entries@.len() ==> (#[trigger] self.entries@[i]).0@.len()
                    <= MAX_SCORED,
        ensures
            r is None <==> self.entries@.len() == 0,
            r is Some ==> self.started(r->0) && r->0.filtered@ == found_best_first(
                unscored(r->0.candidates@),
                Seq::empty(),
            ),
    {
        let own = |c: &str, q: &[char], p: bool| -> (r: i32)
            requires
                c@.len() <= MAX_SCORED,
            ensures
                r == own_score()(c@, q@, p),
            { score_text(c, q, p) };
        assert(scores_by(own, own_score()));
        self.selector_by(&own)
    }

    /// The selector of the entries, before a key is typed, by scores of the caller.
    pub fn selector_with<S: Fn(&str, &[char], bool) -> i32>(self, cb: S) -> (r: Option<
        FuzzySelector,
    >)
        requires
            self.entries@.len() <= usize::MAX / 4,
            forall|i: int|
                0 <= i < self.entries@.len() ==> (#[trigger] self.entries@[i]).0@.len()
                    <= MAX_SCORED,
            scores_texts(cb),
        ensures
            r is None <==> self.entries@.len() == 0,
            r is Some ==> self.started(r->0),
            forall|score: spec_fn(Seq<char>, Seq<char>, bool) -> i32| #[trigger]
                scores_by(cb, score) ==> r is Some ==> r->0.filtered@ == found_by(
                    unscored(r->0.candidates@),
                    Seq::empty(),
                    score,
                ),
    {
        self.selector_by(&cb)
    }

    fn selector_by<S: Fn(&str, &[char], bool) -> i32>(self, cb: &S) -> (r: Option<FuzzySelector>)
        requires
            self.entries@.len() <= usize::MAX / 4,
            forall|i: int|
                0 <= i < self.entries@.len() ==> (#[trigger] self.entries@[i]).0@.len()
                    <= MAX_SCORED,
            scores_texts(*cb),
        ensures
            r is None <==> self.entries@.len() == 0,
            r is Some ==> self.started(r->0),
            forall|score: spec_fn(Seq<char>, Seq<char>, bool) -> i32| #[trigger]
                scores_by(*cb, score) ==> r is Some ==> r->0.filtered@ == found_by(
                    unscored(r->0.candidates@),
                    Seq::empty(),
                    score,
                ),
    {
        if self.entries.len() == 0 {
            return None;
        }
        let mut candidates: Vec<Candidate> = Vec::new();
        let mut i: usize = 0;
        while i < self.entries.len()
            invariant
                i <= self.entries@.len(),
                candidates@.len() == i,
                forall|k: int|
                    0 <= k < self.entries@.len() ==> (#[trigger] self.entries@[k]).0@.len()
                        <= MAX_SCORED,
                forall|k: int|
                    0 <= k < i ==> (#[trigger] candidates@[k]).content == self.entries@[k].0
                        && candidates@[k].weight == self.entries@[k].1
                        && candidates@[k].desc is None && candidates@[k].id is None,
            decreases self.entries@.len() - i,
        {
            let c = Candidate::from_string(self.entries[i].0.clone()).with_weight(
                self.entries[i].1,
            );
            candidates.push(c);
            i = i + 1;
        }
        let mut s = FuzzySelector::new();
        s.placeholder = self.placeholder;
        s.inline = self.inline;
        assert(all_scorable(candidates@));
        s.activate_by(candidates, cb);
        s.prompt_cursor_col = 0;
        Some(s)
    }
}

/// Candidates found by a query.
#[derive(Debug)]
pub struct FuzzySelector {
    pub query: QueryEditor,
    /// The candidates that are found, the best first.
    pub filtered: Vec<ScoredCandidate>,
    pub last_query: String,
    /// What was matched against: the query, or what it was turned into.
    pub effective_query: String,
    pub candidates: Vec<Candidate>,
    pub cursor: ClampedUsize,
    pub old_layout: Option<FuzzyLayout>,
    /// The first column that is shown.
    pub scroll_col: usize,
    pub prompt_cursor_col: usize,
    /// Shown while nothing is typed.
    pub placeholder: Option<String>,
    /// Whether the query is on the top row, without a prompt above.
    pub inline: bool,
}

/// What a query marks.
pub const PROMPT: &'static str = "\x1b[1;36m\u{25ba}\x1b[0m";

/// The columns before a cell.
pub const LEADER_W: usize = 2;

pub open spec fn scored_cells(s: Seq<ScoredCandidate>) -> Seq<Cell> {
    Seq::new(s.len(), |i: int| cells::cell_of(s[i].candidate))
}

fn show_scored(s: &Vec<ScoredCandidate>) -> (r: Vec<ShownCell>)
    ensures
        cells::model(r@) == scored_cells(s@),
        r@.len() == s@.len(),
{
    let mut out: Vec<ShownCell> = Vec::new();
    let mut i: usize = 0;
    while i < s.len()
        invariant
            i <= s@.len(),
            out@.len() == i,
            forall|k: int| 0 <= k < i ==> (#[trigger] out@[k])@ == cells::cell_of(s@[k].candidate),
        decreases s@.len() - i,
    {
        out.push(show_candidate(&s[i].candidate));
        i = i + 1;
    }
    assert(cells::model(out@) =~= scored_cells(s@));
    out
}

/// The query as it is shown, and its columns: a hint while nothing is typed.
pub open spec fn query_body(
    w: WidthCalculator,
    query: Seq<char>,
    placeholder: Option<Seq<char>>,
    field: nat,
) -> (Seq<char>, nat) {
    if placeholder is Some && query.len() == 0 {
        let hint = cells::truncated(w, placeholder->0, field);
        ("\x1b[2m"@ + hint + "\x1b[22m"@, cells::wid(w, hint))
    } else {
        (query, cells::wid(w, query))
    }
}

/// The query in an underlined field as wide as the terminal.
pub open spec fn query_field(
    w: WidthCalculator,
    query: Seq<char>,
    placeholder: Option<Seq<char>>,
    t_cols: u16,
    color: bool,
) -> Seq<char> {
    let field = cells::minus(t_cols as nat, 3);
    let (body, used) = query_body(w, query, placeholder, field);
    let fill = text::repeated(' ', cells::minus(field, used));
    if color {
        "\x1b[4;58:5:250m"@ + body + fill + "\x1b[59;24m"@
    } else {
        "\x1b[4m"@ + body + fill + "\x1b[24m"@
    }
}

pub open spec fn text_of(s: Option<String>) -> Option<Seq<char>> {
    match s {
        Some(x) => Some(x@),
        None => None,
    }
}

/// Which way a key leads among what is found.
#[derive(Debug, Clone, Copy, PartialEq, Eq, Structural)]
pub enum FuzzyKey {
    Ignored,
    Dismiss,
    Accept,
    Next,
    Prev,
    Right,
    Left,
    Down,
    NextPage,
    PrevPage,
    Clear,
    Edit,
}

/// Which way a key leads among what is found. Any other key edits the query.
pub open spec fn fuzzy_key(k: KeyEvent) -> FuzzyKey {
    let none = ModKeys::of(false, false, false);
    let ctrl = ModKeys::of(true, false, false);
    let shift = ModKeys::of(false, false, true);
    if k.0 is MousePos || k.0 is LeftClick {
        FuzzyKey::Ignored
    } else if k.1 == none {
        match k.0 {
            KeyCode::Esc => FuzzyKey::Dismiss,
            KeyCode::Enter => FuzzyKey::Accept,
            KeyCode::Tab => FuzzyKey::Next,
            KeyCode::Down => FuzzyKey::Next,
            KeyCode::Up => FuzzyKey::Prev,
            KeyCode::ScrollUp => FuzzyKey::Prev,
            KeyCode::Right => FuzzyKey::Right,
            KeyCode::Left => FuzzyKey::Left,
            KeyCode::ScrollDown => FuzzyKey::Down,
            KeyCode::PageDown => FuzzyKey::NextPage,
            KeyCode::PageUp => FuzzyKey::PrevPage,
            _ => FuzzyKey::Edit,
        }
    } else if k.1 == ctrl {
        match k.0 {
            KeyCode::Char('d') => FuzzyKey::Dismiss,
            KeyCode::Char('f') => FuzzyKey::NextPage,
            KeyCode::Char('b') => FuzzyKey::PrevPage,
            KeyCode::Char('c') => FuzzyKey::Clear,
            _ => FuzzyKey::Edit,
        }
    } else if k.1 == shift && k.0 is Tab {
        FuzzyKey::Prev
    } else {
        FuzzyKey::Edit
    }
}

fn read_fuzzy_key(k: &KeyEvent) -> (r: FuzzyKey)
    ensures
        r == fuzzy_key(*k),
{
    match &k.0 {
        KeyCode::MousePos(_, _) => {
            return FuzzyKey::Ignored;
        },
        KeyCode::LeftClick(_, _) => {
            return FuzzyKey::Ignored;
        },
        _ => {},
    }
    if k.1 == ModKeys::empty() {
        match &k.0 {
            KeyCode::Esc => FuzzyKey::Dismiss,
            KeyCode::Enter => FuzzyKey::Accept,
            KeyCode::Tab => FuzzyKey::Next,
            KeyCode::Down => FuzzyKey::Next,
            KeyCode::Up => FuzzyKey::Prev,
            KeyCode::ScrollUp => FuzzyKey::Prev,
            KeyCode::Right => FuzzyKey::Right,
            KeyCode::Left => FuzzyKey::Left,
            KeyCode::ScrollDown => FuzzyKey::Down,
            KeyCode::PageDown => FuzzyKey::NextPage,
            KeyCode::PageUp => FuzzyKey::PrevPage,
            _ => FuzzyKey::Edit,
        }
    } else if k.1 == ModKeys::ctrl() {
        match &k.0 {
            KeyCode::Char('d') => FuzzyKey::Dismiss,
            KeyCode::Char('f') => FuzzyKey::NextPage,
            KeyCode::Char('b') => FuzzyKey::PrevPage,
            KeyCode::Char('c') => FuzzyKey::Clear,
            _ => FuzzyKey::Edit,
        }
    } else if k.1 == ModKeys::shift() {
        match &k.0 {
            KeyCode::Tab => FuzzyKey::Prev,
            _ => FuzzyKey::Edit,
        }
    } else {
        FuzzyKey::Edit
    }
}

impl FuzzySelector {
    /// Every score can be held, and the query can be edited.
    pub open spec fn sound(self) -> bool {
        &&& self.query.mode.wf()
        &&& self.query.linebuf.wf()
        &&& self.candidates@.len() <= usize::MAX / 4
        &&& self.filtered@.len() <= usize::MAX / 4
        &&& all_scorable(self.candidates@)
        &&& scorable(self.filtered@)
    }

    /// Where something is found, the cursor is on it.
    pub open spec fn wf(self) -> bool {
        &&& self.sound()
        &&& self.cursor.wf()
        &&& self.filtered@.len() > 0 ==> {
            &&& self.cursor.max <= self.filtered@.len()
            &&& self.cursor.val < self.filtered@.len()
            &&& self.scroll_col * ROWS < self.filtered@.len()
        }
    }

    pub open spec fn idle(self) -> bool {
        &&& self.query.mode.wf()
        &&& self.query.linebuf.fresh()
        &&& self.filtered@.len() == 0
        &&& self.last_query@ == Seq::<char>::empty()
        &&& self.effective_query@ == Seq::<char>::empty()
        &&& self.candidates@.len() == 0
        &&& self.cursor == (ClampedUsize { val: 0, max: 0, wrap: true })
        &&& self.old_layout is None
        &&& self.scroll_col == 0
        &&& self.prompt_cursor_col == 0
        &&& self.placeholder is None
        &&& !self.inline
    }

    pub fn new() -> (r: Self)
        ensures
            r.idle(),
            r.wf(),
    {
        let last_query: String = String::new();
        assert(last_query@ =~= Seq::empty());
        let effective_query: String = String::new();
        assert(effective_query@ =~= Seq::empty());
        FuzzySelector {
            query: QueryEditor::new(),
            filtered: Vec::new(),
            last_query,
            effective_query,
            candidates: Vec::new(),
            cursor: ClampedUsize::new(0, 0, true),
            old_layout: None,
            scroll_col: 0,
            prompt_cursor_col: 0,
            placeholder: None,
            inline: false,
        }
    }

    pub fn set_placeholder(&mut self, text: Option<String>)
        ensures
            *final(self) == (FuzzySelector { placeholder: text, ..*old(self) }),
    {
        self.placeholder = text;
    }

    pub fn set_inline(&mut self, enable: bool)
        ensures
            *final(self) == (FuzzySelector { inline: enable, ..*old(self) }),
    {
        self.inline = enable;
    }

    /// The query up to the cursor.
    pub open spec fn before_cursor(self) -> Seq<char> {
        let b = self.query.linebuf;
        let q = words::bounded(b.text(), b.cursor.pos, false);
        let n = lines::places(b.text().take(q.row as int)) + q.col;
        let raw = self.query.typed();
        if n <= raw.len() {
            raw.take(n as int)
        } else {
            raw
        }
    }

    /// The column of the cursor in the query.
    pub fn query_cursor_col(&self, w: WidthCalculator) -> (r: usize)
        requires
            self.sound(),
        ensures
            r == LEADER_W + cells::wid(w, cells::careted(self.before_cursor())),
    {
        let raw = self.query.linebuf.to_string();
        let flat = self.query.linebuf.cursor_to_flat();
        let v = chars_of(raw.as_str());
        let n: usize = if flat <= v.len() {
            flat
        } else {
            v.len()
        };
        let head = sub_chars(v.as_slice(), 0, n);
        proof {
            let b = self.query.linebuf;
            let q = words::bounded(b.text(), b.cursor.pos, false);
            let k = lines::places(b.text().take(q.row as int)) + q.col;
            if k <= raw@.len() {
                assert(head@ =~= raw@.take(k as int));
            } else {
                assert(head@ =~= raw@);
            }
        }
        let t = string_of(head.as_slice());
        let c = caret_notation(t.as_str());
        LEADER_W + calc_str_width(w, c.as_str()) as usize
    }

    /// Rows are not numbered.
    pub fn number_candidates(self, _enable: bool) -> (r: Self)
        ensures
            r == self,
    {
        self
    }

    pub fn candidates(&self) -> (r: &Vec<Candidate>)
        ensures
            r == self.candidates,
    {
        &self.candidates
    }

    pub fn filtered_len(&self) -> (r: usize)
        ensures
            r == self.filtered@.len(),
    {
        self.filtered.len()
    }

    pub fn candidates_len(&self) -> (r: usize)
        ensures
            r == self.candidates@.len(),
    {
        self.candidates.len()
    }

    pub fn filtered(&self) -> (r: &Vec<ScoredCandidate>)
        ensures
            r == self.filtered,
    {
        &self.filtered
    }

    /// What is found after the query has changed. A longer query is looked up
    /// only in what its start found, unless it is turned into another.
    pub open spec fn rescored(
        self,
        score: spec_fn(Seq<char>, Seq<char>, bool) -> i32,
        turned: Option<Seq<char>>,
    ) -> Seq<ScoredCandidate> {
        let raw = self.query.typed();
        if turned is Some {
            found_by(unscored(self.candidates@), turned->0, score)
        } else if self.last_query@.len() > 0 && text::has_prefix(raw, self.last_query@) {
            found_by(self.filtered@, raw, score)
        } else {
            found_by(unscored(self.candidates@), raw, score)
        }
    }

    /// The selector after something was looked up: the best is selected.
    pub open spec fn looked_up(
        a: FuzzySelector,
        b: FuzzySelector,
        turned: Option<Seq<char>>,
    ) -> bool {
        &&& b.last_query@ == a.query.typed()
        &&& b.effective_query@ == (match turned {
            Some(t) => t,
            None => a.query.typed(),
        })
        &&& b == (FuzzySelector {
            filtered: b.filtered,
            last_query: b.last_query,
            effective_query: b.effective_query,
            cursor: ClampedUsize {
                val: 0,
                max: b.filtered@.len() as usize,
                wrap: a.cursor.wrap,
            },
            scroll_col: 0,
            ..a
        })
    }

    /// The selector after what is found was looked up by some scores.
    pub open spec fn scored_by(
        a: FuzzySelector,
        b: FuzzySelector,
        score: spec_fn(Seq<char>, Seq<char>, bool) -> i32,
    ) -> bool {
        b.filtered@ == a.rescored(score, None) && FuzzySelector::looked_up(a, b, None)
    }

    /// The selector after what is found was looked up.
    pub open spec fn scored(a: FuzzySelector, b: FuzzySelector) -> bool {
        FuzzySelector::scored_by(a, b, own_score())
    }

    /// Looks up what the query finds, and goes to the best.
    pub fn score_candidates(&mut self)
        requires
            old(self).sound(),
        ensures
            FuzzySelector::scored(*old(self), *final(self)),
            final(self).wf(),
    {
        let own = |c: &str, q: &[char], p: bool| -> (r: i32)
            requires
                c@.len() <= MAX_SCORED,
            ensures
                r == own_score()(c@, q@, p),
            { score_text(c, q, p) };
        assert(scores_by(own, own_score()));
        self.look_up(&own, None);
    }

    /// Looks up what the query finds by scores of the caller. The query may be turned
    /// into another, which is matched against in its place.
    pub fn score_candidates_with<S: Fn(&str, &[char], bool) -> i32>(
        &mut self,
        cb: S,
        turned: Option<String>,
    )
        requires
            old(self).sound(),
            scores_texts(cb),
        ensures
            FuzzySelector::looked_up(*old(self), *final(self), text_of(turned)),
            forall|score: spec_fn(Seq<char>, Seq<char>, bool) -> i32| #[trigger]
                scores_by(cb, score) ==> final(self).filtered@ == old(self).rescored(
                    score,
                    text_of(turned),
                ),
            final(self).wf(),
    {
        self.look_up(&cb, turned);
    }

    fn look_up<S: Fn(&str, &[char], bool) -> i32>(&mut self, cb: &S, turned: Option<String>)
        requires
            old(self).sound(),
            scores_texts(*cb),
        ensures
            FuzzySelector::looked_up(*old(self), *final(self), text_of(turned)),
            forall|score: spec_fn(Seq<char>, Seq<char>, bool) -> i32| #[trigger]
                scores_by(*cb, score) ==> final(self).filtered@ == old(self).rescored(
                    score,
                    text_of(turned),
                ),
            final(self).wf(),
    {
        let raw = self.query.linebuf.to_string();
        let last = chars_of(self.last_query.as_str());
        let extends: bool = turned.is_none() && last.len() > 0 && str_starts_with(
            raw.as_str(),
            self.last_query.as_str(),
        );
        let query: String = match turned {
            Some(t) => t,
            None => raw.clone(),
        };
        let q = chars_of(query.as_str());
        let scored = if extends {
            rank(&self.filtered, q.as_slice(), cb)
        } else {
            let u = to_unscored(&self.candidates);
            assert(scorable(u@)) by {
                assert forall|i: int| 0 <= i < u@.len() implies (
                #[trigger] u@[i]).candidate.content@.len() <= MAX_SCORED by {
                    assert(u@[i].candidate == self.candidates@[i]);
                }
            }
            rank(&u, q.as_slice(), cb)
        };
        self.cursor.set_max(scored.len());
        self.cursor.set(0);
        self.scroll_col = 0;
        self.filtered = scored;
        self.last_query = raw;
        self.effective_query = query;
    }

    /// The selector after it took other candidates.
    pub open spec fn activated(a: FuzzySelector, b: FuzzySelector, c: Vec<Candidate>) -> bool {
        &&& b.last_query@ == a.query.typed()
        &&& b.effective_query@ == a.query.typed()
        &&& b == (FuzzySelector {
            candidates: c,
            filtered: b.filtered,
            last_query: b.last_query,
            effective_query: b.effective_query,
            cursor: ClampedUsize {
                val: 0,
                max: b.filtered@.len() as usize,
                wrap: a.cursor.wrap,
            },
            scroll_col: 0,
            ..a
        })
    }

    /// Takes other candidates.
    pub fn activate(&mut self, candidates: Vec<Candidate>)
        requires
            old(self).sound(),
            all_scorable(candidates@),
            candidates@.len() <= usize::MAX / 4,
        ensures
            final(self).filtered@ == found_best_first(
                unscored(candidates@),
                old(self).query.typed(),
            ),
            FuzzySelector::activated(*old(self), *final(self), candidates),
            final(self).wf(),
    {
        let own = |c: &str, q: &[char], p: bool| -> (r: i32)
            requires
                c@.len() <= MAX_SCORED,
            ensures
                r == own_score()(c@, q@, p),
            { score_text(c, q, p) };
        assert(scores_by(own, own_score()));
        self.activate_by(candidates, &own);
    }

    /// Takes other candidates, by scores of the caller.
    pub fn activate_with<S: Fn(&str, &[char], bool) -> i32>(
        &mut self,
        candidates: Vec<Candidate>,
        cb: S,
    )
        requires
            old(self).sound(),
            all_scorable(candidates@),
            candidates@.len() <= usize::MAX / 4,
            scores_texts(cb),
        ensures
            forall|score: spec_fn(Seq<char>, Seq<char>, bool) -> i32| #[trigger]
                scores_by(cb, score) ==> final(self).filtered@ == found_by(
                    unscored(candidates@),
                    old(self).query.typed(),
                    score,
                ),
            FuzzySelector::activated(*old(self), *final(self), candidates),
            final(self).wf(),
    {
        self.activate_by(candidates, &cb);
    }

    fn activate_by<S: Fn(&str, &[char], bool) -> i32>(
        &mut self,
        candidates: Vec<Candidate>,
        cb: &S,
    )
        requires
            old(self).sound(),
            all_scorable(candidates@),
            candidates@.len() <= usize::MAX / 4,
            scores_texts(*cb),
        ensures
            forall|score: spec_fn(Seq<char>, Seq<char>, bool) -> i32| #[trigger]
                scores_by(*cb, score) ==> final(self).filtered@ == found_by(
                    unscored(candidates@),
                    old(self).query.typed(),
                    score,
                ),
            FuzzySelector::activated(*old(self), *final(self), candidates),
            final(self).wf(),
    {
        self.candidates = candidates;
        self.last_query = String::new();
        assert(self.last_query@ =~= Seq::empty());
        self.look_up(cb, None);
    }

    /// Whether the query is a text, with the cursor behind it.
    pub open spec fn asks(self, query: &str, view: Viewport) -> bool {
        let b = self.query.linebuf;
        &&& b.text() == lines::lines_of(query@)
        &&& self.query.typed() == query@
        &&& b.cursor == (Cursor { pos: Pos { row: 0, col: query.len() }, exclusive: false })
        &&& b == (LineBuf {
            hint: None,
            select_mode: None,
            last_selection: None,
            insert_mode_start_pos: None,
            saved_col: None,
            ..b
        })
        &&& b.undo_stack@.len() == 0
        &&& b.redo_stack@.len() == 0
        &&& b.kill_ring@.len() == 0
        &&& b.concat_points@.len() == 0
        &&& b.scroll_offset == buffer::rescrolled(0, 0, b.text(), None, view)
    }

    /// Takes another query.
    pub fn set_query(&mut self, query: &str, view: Viewport)
        requires
            old(self).sound(),
        ensures
            final(self).wf(),
            final(self).asks(query, view),
            final(self).query.mode == old(self).query.mode,
            FuzzySelector::scored(
                (FuzzySelector { query: final(self).query, ..*old(self) }),
                *final(self),
            ),
    {
        self.query.linebuf = LineBuf::new().with_initial(query, query.len(), view);
        let ghost mid = *self;
        self.score_candidates();
        assert(mid == (FuzzySelector { query: self.query, ..*old(self) }));
    }

    /// Takes another query, by scores of the caller.
    pub fn set_query_with<S: Fn(&str, &[char], bool) -> i32>(
        &mut self,
        query: &str,
        view: Viewport,
        cb: S,
    )
        requires
            old(self).sound(),
            scores_texts(cb),
        ensures
            final(self).wf(),
            final(self).asks(query, view),
            final(self).query.mode == old(self).query.mode,
            FuzzySelector::looked_up(
                (FuzzySelector { query: final(self).query, ..*old(self) }),
                *final(self),
                None,
            ),
            forall|score: spec_fn(Seq<char>, Seq<char>, bool) -> i32| #[trigger]
                scores_by(cb, score) ==> FuzzySelector::scored_by(
                    (FuzzySelector { query: final(self).query, ..*old(self) }),
                    *final(self),
                    score,
                ),
    {
        self.query.linebuf = LineBuf::new().with_initial(query, query.len(), view);
        let ghost mid = *self;
        self.look_up(&cb, None);
        assert(mid == (FuzzySelector { query: self.query, ..*old(self) }));
    }

    /// Empties the query.
    pub fn reset_query(&mut self)
        requires
            old(self).sound(),
        ensures
            final(self).wf(),
            final(self).query.linebuf.fresh(),
            FuzzySelector::scored(
                (FuzzySelector { query: final(self).query, ..*old(self) }),
                *final(self),
            ),
    {
        self.query.clear();
        let ghost mid = *self;
        self.score_candidates();
        assert(mid == (FuzzySelector { query: self.query, ..*old(self) }));
    }

    /// Empties the query, by scores of the caller.
    pub fn reset_query_with<S: Fn(&str, &[char], bool) -> i32>(&mut self, cb: S)
        requires
            old(self).sound(),
            scores_texts(cb),
        ensures
            final(self).wf(),
            final(self).query.linebuf.fresh(),
            FuzzySelector::looked_up(
                (FuzzySelector { query: final(self).query, ..*old(self) }),
                *final(self),
                None,
            ),
            forall|score: spec_fn(Seq<char>, Seq<char>, bool) -> i32| #[trigger]
                scores_by(cb, score) ==> FuzzySelector::scored_by(
                    (FuzzySelector { query: final(self).query, ..*old(self) }),
                    *final(self),
                    score,
                ),
    {
        self.query.clear();
        let ghost mid = *self;
        self.look_up(&cb, None);
        assert(mid == (FuzzySelector { query: self.query, ..*old(self) }));
    }

    pub open spec fn selected(self) -> Option<Candidate> {
        if self.cursor.val < self.filtered@.len() {
            Some(self.filtered@[self.cursor.val as int].candidate)
        } else {
            None
        }
    }

    pub fn selected_candidate(&self) -> (r: Option<Candidate>)
        ensures
            r == self.selected(),
    {
        if self.cursor.get() < self.filtered.len() {
            Some(self.filtered[self.cursor.get()].candidate.clone())
        } else {
            None
        }
    }

    pub fn set_prompt_line_context(&mut self, _line_width: usize, cursor_col: usize)
        ensures
            *final(self) == (FuzzySelector { prompt_cursor_col: cursor_col, ..*old(self) }),
    {
        self.prompt_cursor_col = cursor_col;
    }

    /// The widths of the columns that are shown.
    pub open spec fn window(self, w: WidthCalculator, t_cols: u16) -> Seq<nat> {
        grid::packed(w, scored_cells(self.filtered@), self.scroll_col as int, t_cols, 2)
    }

    /// The widths of the columns that are shown.
    pub fn visible_window(&self, w: WidthCalculator, t_cols: u16) -> (r: Vec<usize>)
        requires
            self.wf(),
        ensures
            self.filtered@.len() == 0 ==> r@.len() == 0,
            self.filtered@.len() > 0 ==> {
                &&& r@.len() == self.window(w, t_cols).len()
                &&& forall|i: int|
                    0 <= i < r@.len() ==> (#[trigger] r@[i]) == self.window(w, t_cols)[i]
                &&& r@.len() > 0
                &&& (self.scroll_col + r@.len() - 1) * ROWS < self.filtered@.len()
            },
    {
        if self.filtered.len() == 0 {
            return Vec::new();
        }
        let c = show_scored(&self.filtered);
        pack_cells(w, c.as_slice(), self.scroll_col, t_cols, LEADER_W)
    }

    /// The first column that is shown once the cursor is.
    pub open spec fn scrolled_col(self, w: WidthCalculator, t_cols: u16) -> int {
        if self.filtered@.len() == 0 {
            0
        } else {
            grid::scrolled(
                w,
                scored_cells(self.filtered@),
                self.scroll_col as int,
                (self.cursor.val / ROWS) as int,
                t_cols,
                2,
            )
        }
    }

    /// Scrolls so that the selected candidate is shown.
    pub fn ensure_cursor_visible(&mut self, w: WidthCalculator, t_cols: u16)
        requires
            old(self).wf(),
        ensures
            *final(self) == (FuzzySelector {
                scroll_col: old(self).scrolled_col(w, t_cols) as usize,
                ..*old(self)
            }),
            final(self).wf(),
    {
        let c = show_scored(&self.filtered);
        let s = scroll_cells(
            w,
            c.as_slice(),
            self.cursor.get(),
            self.scroll_col,
            t_cols,
            LEADER_W,
        );
        self.scroll_col = s;
    }

    /// The query as it is shown.
    pub fn query_display(&self, w: WidthCalculator, t_cols: u16, underline_color: bool) -> (r:
        String)
        ensures
            r@ == query_field(
                w,
                cells::careted(self.query.typed()),
                text_of(self.placeholder),
                t_cols,
                underline_color,
            ),
    {
        let field: usize = (t_cols as usize).saturating_sub(LEADER_W + 1);
        let raw = self.query.linebuf.to_string();
        let query = caret_notation(raw.as_str());
        let qv = chars_of(query.as_str());
        let mut body = query;
        let mut used: usize = calc_str_width(w, body.as_str()) as usize;
        if let Some(p) = &self.placeholder {
            if qv.len() == 0 {
                let hint = truncate_to_width(w, p.as_str(), field);
                used = calc_str_width(w, hint.as_str()) as usize;
                body = owned("\x1b[2m");
                body.push_str(hint.as_str());
                body.push_str("\x1b[22m");
            }
        }
        let mut out = if underline_color {
            owned("\x1b[4;58:5:250m")
        } else {
            owned("\x1b[4m")
        };
        out.push_str(body.as_str());
        push_repeated(&mut out, ' ', field.saturating_sub(used));
        if underline_color {
            out.push_str("\x1b[59;24m");
        } else {
            out.push_str("\x1b[24m");
        }
        out
    }

    /// The rows that drawing takes.
    pub fn predicted_rows(&self) -> (r: usize)
        requires
            self.wf(),
        ensures
            r == (if self.candidates@.len() == 0 && self.filtered@.len() == 0 {
                0
            } else if self.filtered@.len() == 0 {
                2
            } else {
                let left = self.filtered@.len() - self.scroll_col * ROWS;
                2 + (if left < ROWS {
                    left
                } else {
                    ROWS as int
                })
            }),
    {
        if self.filtered.len() == 0 {
            return if self.candidates.len() == 0 {
                0
            } else {
                2
            };
        }
        let left: usize = self.filtered.len() - self.scroll_col * ROWS;
        if left < ROWS {
            2 + left
        } else {
            2 + ROWS
        }
    }

    fn nav_response(&self) -> (r: SelectorResponse)
        ensures
            r == self.shown_response(),
    {
        match self.selected_candidate() {
            Some(c) => SelectorResponse::Preview(c),
            None => SelectorResponse::Consumed,
        }
    }

    /// What a key that moves or edits is answered.
    pub open spec fn shown_response(self) -> SelectorResponse {
        match self.selected() {
            Some(c) => SelectorResponse::Preview(c),
            None => SelectorResponse::Consumed,
        }
    }

    /// The candidates of a screenful of columns.
    pub open spec fn page(self, w: WidthCalculator, t_cols: u16) -> int {
        let n = if self.filtered@.len() == 0 {
            0
        } else {
            self.window(w, t_cols).len() as int
        };
        (if n == 0 {
            1
        } else {
            n
        }) * ROWS
    }

    fn page_size(&self, w: WidthCalculator, t_cols: u16) -> (r: usize)
        requires
            self.wf(),
        ensures
            r == self.page(w, t_cols),
    {
        let n: usize = self.visible_window(w, t_cols).len();
        if n == 0 {
            ROWS
        } else {
            (n - 1) * ROWS + ROWS
        }
    }

    /// Where a key that moves takes the cursor.
    pub open spec fn moved(self, k: FuzzyKey, w: WidthCalculator, t_cols: u16) -> usize {
        let c = self.cursor;
        let n = self.filtered@.len() as int;
        let last = if c.max > 0 {
            (c.max - 1) as usize
        } else {
            0
        };
        match k {
            FuzzyKey::Next => clamped::wrapped_sum(c, 1),
            FuzzyKey::Prev => if c.val >= 1 {
                (c.val - 1) as usize
            } else {
                0
            },
            FuzzyKey::Right => {
                let x = grid::stepped(c.val as int, n, ROWS as int, true, true);
                if x < c.max {
                    x as usize
                } else {
                    last
                }
            },
            FuzzyKey::Left => {
                let x = grid::stepped(c.val as int, n, ROWS as int, false, false);
                if x < c.max {
                    x as usize
                } else {
                    last
                }
            },
            FuzzyKey::Down => if c.val + 1 < c.max {
                (c.val + 1) as usize
            } else {
                last
            },
            FuzzyKey::NextPage => if c.val + self.page(w, t_cols) < c.max {
                (c.val + self.page(w, t_cols)) as usize
            } else {
                last
            },
            FuzzyKey::PrevPage => if c.val >= self.page(w, t_cols) {
                (c.val - self.page(w, t_cols)) as usize
            } else {
                0
            },
            _ => c.val,
        }
    }

    /// What a key makes of the selector, and what it is answered. What is found after
    /// an edit is looked up by some scores.
    pub open spec fn keyed(
        a: FuzzySelector,
        b: FuzzySelector,
        key: KeyEvent,
        view: Viewport,
        w: WidthCalculator,
        t_cols: u16,
        r: SelectorResponse,
        score: spec_fn(Seq<char>, Seq<char>, bool) -> i32,
    ) -> bool {
        match fuzzy_key(key) {
            FuzzyKey::Ignored => b == a && r is Consumed,
            FuzzyKey::Dismiss => b.filtered@.len() == 0 && b == (FuzzySelector {
                filtered: b.filtered,
                ..a
            }) && r is Dismiss,
            FuzzyKey::Accept => b == a && r == (match a.selected() {
                Some(c) => SelectorResponse::Accept(c),
                None => SelectorResponse::Dismiss,
            }),
            FuzzyKey::Clear => {
                &&& b.query.linebuf.fresh()
                &&& FuzzySelector::scored_by(FuzzySelector { query: b.query, ..a }, b, score)
                &&& r == b.shown_response()
            },
            FuzzyKey::Edit => {
                &&& query_edited(a.query.linebuf, b.query.linebuf, key, view)
                &&& FuzzySelector::scored_by(FuzzySelector { query: b.query, ..a }, b, score)
                &&& r == b.shown_response()
            },
            k => b == (FuzzySelector {
                cursor: ClampedUsize { val: a.moved(k, w, t_cols), ..a.cursor },
                ..a
            }) && r == b.shown_response(),
        }
    }

    /// Answers a key: moves, accepts, goes away, or edits the query.
    pub fn handle_key(
        &mut self,
        key: KeyEvent,
        view: Viewport,
        w: WidthCalculator,
        t_cols: u16,
    ) -> (r: SelectorResponse)
        requires
            old(self).wf(),
        ensures
            final(self).wf(),
            FuzzySelector::keyed(
                *old(self),
                *final(self),
                key,
                view,
                w,
                t_cols,
                r,
                own_score(),
            ),
    {
        let own = |c: &str, q: &[char], p: bool| -> (r: i32)
            requires
                c@.len() <= MAX_SCORED,
            ensures
                r == own_score()(c@, q@, p),
            { score_text(c, q, p) };
        assert(scores_by(own, own_score()));
        self.press(key, view, w, t_cols, &own)
    }

    /// Answers a key: moves, accepts, goes away, or edits the query. What is found is
    /// looked up by scores of the caller.
    pub fn handle_key_with<S: Fn(&str, &[char], bool) -> i32>(
        &mut self,
        key: KeyEvent,
        view: Viewport,
        w: WidthCalculator,
        t_cols: u16,
        cb: S,
    ) -> (r: SelectorResponse)
        requires
            old(self).wf(),
            scores_texts(cb),
        ensures
            final(self).wf(),
            !(fuzzy_key(key) is Clear) && !(fuzzy_key(key) is Edit) ==> FuzzySelector::keyed(
                *old(self),
                *final(self),
                key,
                view,
                w,
                t_cols,
                r,
                own_score(),
            ),
            forall|score: spec_fn(Seq<char>, Seq<char>, bool) -> i32| #[trigger]
                scores_by(cb, score) ==> FuzzySelector::keyed(
                    *old(self),
                    *final(self),
                    key,
                    view,
                    w,
                    t_cols,
                    r,
                    score,
                ),
    {
        self.press(key, view, w, t_cols, &cb)
    }

    fn press<S: Fn(&str, &[char], bool) -> i32>(
        &mut self,
        key: KeyEvent,
        view: Viewport,
        w: WidthCalculator,
        t_cols: u16,
        cb: &S,
    ) -> (r: SelectorResponse)
        requires
            old(self).wf(),
            scores_texts(*cb),
        ensures
            final(self).wf(),
            !(fuzzy_key(key) is Clear) && !(fuzzy_key(key) is Edit) ==> FuzzySelector::keyed(
                *old(self),
                *final(self),
                key,
                view,
                w,
                t_cols,
                r,
                own_score(),
            ),
            forall|score: spec_fn(Seq<char>, Seq<char>, bool) -> i32| #[trigger]
                scores_by(*cb, score) ==> FuzzySelector::keyed(
                    *old(self),
                    *final(self),
                    key,
                    view,
                    w,
                    t_cols,
                    r,
                    score,
                ),
    {
        let kind = read_fuzzy_key(&key);
        match kind {
            FuzzyKey::Ignored => {
                return SelectorResponse::Consumed;
            },
            FuzzyKey::Dismiss => {
                self.filtered.clear();
                return SelectorResponse::Dismiss;
            },
            FuzzyKey::Accept => {
                return match self.selected_candidate() {
                    Some(c) => SelectorResponse::Accept(c),
                    None => SelectorResponse::Dismiss,
                };
            },
            FuzzyKey::Next => {
                self.cursor.wrap_add(1);
            },
            FuzzyKey::Prev => {
                self.cursor.sub(1);
            },
            FuzzyKey::Right => {
                let n = step_column(self.cursor.get(), self.filtered.len(), ROWS, true, true);
                self.cursor.set(n);
            },
            FuzzyKey::Left => {
                let n = step_column(self.cursor.get(), self.filtered.len(), ROWS, false, false);
                self.cursor.set(n);
            },
            FuzzyKey::Down => {
                self.cursor.add(1);
            },
            FuzzyKey::NextPage => {
                let n = self.page_size(w, t_cols);
                self.cursor.add(n);
            },
            FuzzyKey::PrevPage => {
                let n = self.page_size(w, t_cols);
                self.cursor.sub(n);
            },
            FuzzyKey::Clear => {
                self.query.clear();
                self.look_up(cb, None);
            },
            FuzzyKey::Edit => {
                self.query.handle_key(key, view);
                self.look_up(cb, None);
            },
        }
        self.nav_response()
    }

    /// What erases the rows that were drawn.
    pub open spec fn cleared_text(self) -> Seq<char> {
        match self.old_layout {
            None => Seq::empty(),
            Some(l) => if self.inline {
                let below = if l.rows > 1 {
                    layout::times("\x1b[1B\x1b[2K"@, (l.rows - 1) as nat) + grid::up_by(
                        (l.rows - 1) as nat,
                    )
                } else {
                    Seq::empty()
                };
                ("\x1b[2K"@ + below).push('\r')
            } else {
                let below = layout::times("\x1b[1B\x1b[2K"@, l.rows as nat);
                (if l.rows > 0 {
                    below + grid::up_by(l.rows as nat)
                } else {
                    below
                }).push('\r') + grid::to_column(self.prompt_cursor_col)
            },
        }
    }

    /// Erases the rows that were drawn.
    pub fn clear(&mut self) -> (r: String)
        ensures
            *final(self) == (FuzzySelector { old_layout: None, ..*old(self) }),
            r@ == old(self).cleared_text(),
    {
        let mut out: String = String::new();
        assert(out@ =~= Seq::empty());
        let l = match self.old_layout {
            None => {
                return out;
            },
            Some(l) => l,
        };
        self.old_layout = None;
        if self.inline {
            out = owned("\x1b[2K");
            let ghost head = out@;
            if l.rows > 1 {
                push_times(&mut out, "\x1b[1B\x1b[2K", l.rows - 1);
                let up = up_escape(l.rows - 1);
                out.push_str(up.as_str());
                assert(out@ =~= head + (layout::times("\x1b[1B\x1b[2K"@, (l.rows - 1) as nat)
                    + grid::up_by((l.rows - 1) as nat)));
            } else {
                assert(out@ =~= head + Seq::<char>::empty());
            }
            out.push('\r');
            return out;
        }
        push_times(&mut out, "\x1b[1B\x1b[2K", l.rows);
        assert(out@ =~= layout::times("\x1b[1B\x1b[2K"@, l.rows as nat));
        if l.rows > 0 {
            let up = up_escape(l.rows);
            out.push_str(up.as_str());
        }
        out.push('\r');
        let col = column_escape(self.prompt_cursor_col);
        out.push_str(col.as_str());
        out
    }

    /// What is shown of what is found, with marks in the names.
    pub open spec fn board(
        self,
        w: WidthCalculator,
        t_cols: u16,
        marks: Seq<Seq<bool>>,
    ) -> BoardModel {
        BoardModel {
            cells: scored_cells(self.filtered@),
            marks,
            widths: self.window(w, t_cols),
            scroll_col: self.scroll_col as int,
            selected: Some(self.cursor.val as int),
            look: Look::Fuzzy,
        }
    }

    /// The first row: the query.
    pub open spec fn head_text(self, w: WidthCalculator, t_cols: u16, color: bool) -> Seq<char> {
        let q = (PROMPT@).push(' ') + query_field(
            w,
            cells::careted(self.query.typed()),
            text_of(self.placeholder),
            t_cols,
            color,
        );
        if self.inline {
            q
        } else {
            "\n"@ + q
        }
    }

    /// The rows that are drawn.
    pub open spec fn drawn_rows(self, b: BoardModel) -> int {
        if self.filtered@.len() == 0 {
            2
        } else {
            2 + b.shown_rows()
        }
    }

    /// What is drawn: the query, what is found, which of it is shown, and the
    /// way back to the first row.
    pub open spec fn drawn_text(
        self,
        w: WidthCalculator,
        t_cols: u16,
        color: bool,
        marks: Seq<Seq<bool>>,
    ) -> Seq<char> {
        let b = self.board(w, t_cols, marks);
        let head = self.head_text(w, t_cols, color);
        let body = if self.filtered@.len() == 0 {
            head + "\n\x1b[2m(no matches)\x1b[22m"@
        } else {
            head + b.rows_text(w, b.shown_rows()) + b.counter_text()
        };
        let rows = self.drawn_rows(b);
        (body + grid::up_by(
            (if self.inline {
                rows - 1
            } else {
                rows
            }) as nat,
        )).push('\r') + grid::to_column(self.prompt_cursor_col)
    }

    fn head_row(&self, w: WidthCalculator, t_cols: u16, color: bool) -> (r: String)
        ensures
            r@ == self.head_text(w, t_cols, color),
    {
        let mut q = owned(PROMPT);
        q.push(' ');
        let f = self.query_display(w, t_cols, color);
        q.push_str(f.as_str());
        if self.inline {
            q
        } else {
            let mut out = owned("\n");
            out.push_str(q.as_str());
            out
        }
    }

    /// Draws what is found, with marks in the names: what is sent, and the rows
    /// that it takes.
    fn draw_marked(
        &mut self,
        w: WidthCalculator,
        t_cols: u16,
        underline_color: bool,
        marks: &Vec<Vec<bool>>,
    ) -> (r: (String, usize))
        requires
            old(self).wf(),
        ensures
            final(self).wf(),
            r.0@ == old(self).drawn_text(w, t_cols, underline_color, all_marks(marks@)),
            r.1 == old(self).drawn_rows(old(self).board(w, t_cols, all_marks(marks@))),
            *final(self) == (FuzzySelector {
                old_layout: Some(FuzzyLayout { rows: r.1 }),
                ..*old(self)
            }),
    {
        let ghost m = all_marks(marks@);
        let mut out = self.head_row(w, t_cols, underline_color);
        let rows: usize = if self.filtered.len() == 0 {
            out.push_str("\n\x1b[2m(no matches)\x1b[22m");
            2
        } else {
            let c = show_scored(&self.filtered);
            let widths = pack_cells(w, c.as_slice(), self.scroll_col, t_cols, LEADER_W);
            let board = Board {
                cells: c.as_slice(),
                marks: marks.as_slice(),
                widths: widths.as_slice(),
                scroll_col: self.scroll_col,
                selected: Some(self.cursor.get()),
                look: Look::Fuzzy,
            };
            proof {
                let b = self.board(w, t_cols, m);
                assert(board@.cells =~= b.cells);
                assert(board@.marks =~= b.marks);
                assert(board@.widths =~= b.widths);
                assert(board@ == b);
            }
            let (text, n) = board.draw_rows(w);
            out.push_str(text.as_str());
            let counter = board.counter();
            out.push_str(counter.as_str());
            2 + n
        };
        let up = up_escape(
            if self.inline {
                rows - 1
            } else {
                rows
            },
        );
        out.push_str(up.as_str());
        out.push('\r');
        let col = column_escape(self.prompt_cursor_col);
        out.push_str(col.as_str());
        self.old_layout = Some(FuzzyLayout { rows });
        (out, rows)
    }

    /// The name of what is found at a place, as its cell shows it.
    pub open spec fn shown_name(self, w: WidthCalculator, t_cols: u16, i: int) -> Seq<char> {
        let col_w = self.window(w, t_cols)[i / (ROWS as int) - self.scroll_col];
        cells::name_in_cell(
            w,
            scored_cells(self.filtered@)[i].name,
            cells::minus(col_w, 2),
            Look::Fuzzy,
        )
    }

    /// Whether what is found at a place is shown.
    pub open spec fn is_shown(self, w: WidthCalculator, t_cols: u16, i: int) -> bool {
        self.scroll_col <= i / (ROWS as int) < self.scroll_col + self.window(w, t_cols).len()
    }

    /// Whether marks are right in a name that is shown: at the places that `places`
    /// gives, or else where the characters of the query are.
    pub open spec fn right_marks(
        self,
        w: WidthCalculator,
        t_cols: u16,
        i: int,
        m: Seq<bool>,
        places: spec_fn(Seq<char>, Seq<char>) -> Option<Seq<usize>>,
    ) -> bool {
        let name = self.shown_name(w, t_cols, i);
        let query = self.effective_query@;
        if !self.is_shown(w, t_cols, i) {
            m.len() == 0
        } else {
            match places(name, query) {
                Some(p) => m == marks_of(p, name.len()),
                None => exists|p: Seq<usize>|
                    #![trigger align::is_best_match(name, query, p)]
                    align::is_best_match(name, query, p) && marks_of(p, name.len()) == m,
            }
        }
    }

    /// Whether all marks are right.
    pub open spec fn well_marked(
        self,
        w: WidthCalculator,
        t_cols: u16,
        m: Seq<Seq<bool>>,
        places: spec_fn(Seq<char>, Seq<char>) -> Option<Seq<usize>>,
    ) -> bool {
        &&& m.len() == self.filtered@.len()
        &&& forall|i: int|
            0 <= i < m.len() ==> self.right_marks(w, t_cols, i, #[trigger] m[i], places)
    }

    /// Marks in the names that are shown.
    fn marks<H: Fn(&str, &str) -> Option<Vec<usize>>>(
        &self,
        w: WidthCalculator,
        t_cols: u16,
        highlight: &H,
    ) -> (r: Vec<Vec<bool>>)
        requires
            self.wf(),
            marks_names(*highlight),
        ensures
            forall|places: spec_fn(Seq<char>, Seq<char>) -> Option<Seq<usize>>| #[trigger]
                marks_by(*highlight, places) ==> self.well_marked(
                    w,
                    t_cols,
                    all_marks(r@),
                    places,
                ),
    {
        let widths = self.visible_window(w, t_cols);
        let mut out: Vec<Vec<bool>> = Vec::new();
        let mut i: usize = 0;
        let ghost win = self.window(w, t_cols);
        while i < self.filtered.len()
            invariant
                i <= self.filtered@.len(),
                out@.len() == i,
                self.filtered@.len() > 0 ==> win == self.window(w, t_cols) && widths@.len()
                    == win.len(),
                self.wf(),
                marks_names(*highlight),
                self.filtered@.len() > 0 ==> forall|k: int|
                    0 <= k < widths@.len() ==> (#[trigger] widths@[k]) == win[k],
                forall|places: spec_fn(Seq<char>, Seq<char>) -> Option<Seq<usize>>, k: int|
                    #![trigger marks_by(*highlight, places), out@[k]]
                    marks_by(*highlight, places) && 0 <= k < i ==> self.right_marks(
                        w,
                        t_cols,
                        k,
                        out@[k]@,
                        places,
                    ),
            decreases self.filtered@.len() - i,
        {
            let col: usize = i / ROWS;
            let v = if col >= self.scroll_col && col - self.scroll_col < widths.len() {
                let cell = show_candidate(&self.filtered[i].candidate);
                assert(cell@ == scored_cells(self.filtered@)[i as int]);
                let col_w: usize = widths[col - self.scroll_col];
                let name = cell_name(
                    w,
                    cell.name.as_str(),
                    col_w.saturating_sub(LEADER_W),
                    Look::Fuzzy,
                );
                assert(name@ == self.shown_name(w, t_cols, i as int));
                let nv = chars_of(name.as_str());
                let given = highlight(name.as_str(), self.effective_query.as_str());
                let ghost said = given;
                assert(forall|places: spec_fn(Seq<char>, Seq<char>) -> Option<Seq<usize>>|
                    #[trigger]
                    marks_by(*highlight, places) ==> places_of(said) == places(
                        name@,
                        self.effective_query@,
                    ));
                let p = match given {
                    Some(p) => p,
                    None => match_positions(name.as_str(), self.effective_query.as_str()),
                };
                assert(said is None ==> align::is_best_match(name@, self.effective_query@, p@));
                mark_places(&p, nv.len())
            } else {
                Vec::new()
            };
            assert(forall|places: spec_fn(Seq<char>, Seq<char>) -> Option<Seq<usize>>| #[trigger]
                marks_by(*highlight, places) ==> self.right_marks(
                    w,
                    t_cols,
                    i as int,
                    v@,
                    places,
                ));
            out.push(v);
            i = i + 1;
        }
        proof {
            assert forall|places: spec_fn(Seq<char>, Seq<char>) -> Option<Seq<usize>>| #[trigger]
                marks_by(*highlight, places) implies self.well_marked(
                w,
                t_cols,
                all_marks(out@),
                places,
            ) by {
                let m = all_marks(out@);
                assert forall|k: int| 0 <= k < m.len() implies self.right_marks(
                    w,
                    t_cols,
                    k,
                    #[trigger] m[k],
                    places,
                ) by {
                    assert(m[k] == out@[k]@);
                }
            }
        }
        out
    }

    /// The selector once the cursor is shown.
    pub open spec fn in_view(self, w: WidthCalculator, t_cols: u16) -> FuzzySelector {
        FuzzySelector { scroll_col: self.scrolled_col(w, t_cols) as usize, ..self }
    }

    /// What was drawn with some marks: what was sent and the rows that it took.
    pub open spec fn drawn(
        a: FuzzySelector,
        b: FuzzySelector,
        w: WidthCalculator,
        t_cols: u16,
        color: bool,
        m: Seq<Seq<bool>>,
        r: (String, usize),
    ) -> bool {
        let s = a.in_view(w, t_cols);
        &&& r.0@ == s.drawn_text(w, t_cols, color, m)
        &&& r.1 == s.drawn_rows(s.board(w, t_cols, m))
        &&& b == (FuzzySelector { old_layout: Some(FuzzyLayout { rows: r.1 }), ..s })
    }

    /// Scrolls so that the cursor is shown and draws what is found, with the
    /// characters of the query marked in the names: what is sent, and the rows that
    /// it takes.
    pub fn draw(&mut self, w: WidthCalculator, t_cols: u16, underline_color: bool) -> (r: (
        String,
        usize,
    ))
        requires
            old(self).wf(),
        ensures
            final(self).wf(),
            exists|m: Seq<Seq<bool>>| #[trigger]
                FuzzySelector::drawn(
                    *old(self),
                    *final(self),
                    w,
                    t_cols,
                    underline_color,
                    m,
                    r,
                ) && old(self).in_view(w, t_cols).well_marked(w, t_cols, m, nowhere()),
    {
        let none = |name: &str, query: &str| -> (r: Option<Vec<usize>>)
            ensures
                r is None,
            { None };
        assert(marks_by(none, nowhere()));
        self.draw_by(w, t_cols, underline_color, &none)
    }

    /// Draws as `draw` does. `highlight` may give the places, in ascending order, that
    /// are marked in a name.
    pub fn draw_with<H: Fn(&str, &str) -> Option<Vec<usize>>>(
        &mut self,
        w: WidthCalculator,
        t_cols: u16,
        underline_color: bool,
        highlight: H,
    ) -> (r: (String, usize))
        requires
            old(self).wf(),
            marks_names(highlight),
        ensures
            final(self).wf(),
            exists|m: Seq<Seq<bool>>| #[trigger]
                FuzzySelector::drawn(
                    *old(self),
                    *final(self),
                    w,
                    t_cols,
                    underline_color,
                    m,
                    r,
                ) && (forall|places: spec_fn(Seq<char>, Seq<char>) -> Option<Seq<usize>>|
                    #[trigger]
                    marks_by(highlight, places) ==> old(self).in_view(w, t_cols).well_marked(
                        w,
                        t_cols,
                        m,
                        places,
                    )),
    {
        self.draw_by(w, t_cols, underline_color, &highlight)
    }

    fn draw_by<H: Fn(&str, &str) -> Option<Vec<usize>>>(
        &mut self,
        w: WidthCalculator,
        t_cols: u16,
        underline_color: bool,
        highlight: &H,
    ) -> (r: (String, usize))
        requires
            old(self).wf(),
            marks_names(*highlight),
        ensures
            final(self).wf(),
            exists|m: Seq<Seq<bool>>| #[trigger]
                FuzzySelector::drawn(
                    *old(self),
                    *final(self),
                    w,
                    t_cols,
                    underline_color,
                    m,
                    r,
                ) && (forall|places: spec_fn(Seq<char>, Seq<char>) -> Option<Seq<usize>>|
                    #[trigger]
                    marks_by(*highlight, places) ==> old(self).in_view(w, t_cols).well_marked(
                        w,
                        t_cols,
                        m,
                        places,
                    )),
    {
        self.ensure_cursor_visible(w, t_cols);
        let ghost s = *self;
        let marks = self.marks(w, t_cols, highlight);
        let r = self.draw_marked(w, t_cols, underline_color, &marks);
        proof {
            assert(s == old(self).in_view(w, t_cols));
            assert(FuzzySelector::drawn(
                *old(self),
                *self,
                w,
                t_cols,
                underline_color,
                all_marks(marks@),
                r,
            ));
        }
        r
    }
}

/// Marks as values.
pub open spec fn all_marks(m: Seq<Vec<bool>>) -> Seq<Seq<bool>> {
    Seq::new(m.len(), |i: int| m[i]@)
}

pub open spec fn places_of(o: Option<Vec<usize>>) -> Option<Seq<usize>> {
    match o {
        Some(p) => Some(p@),
        None => None,
    }
}

/// Whether a function gives the places to mark in a name for a query.
pub open spec fn marks_by<H: Fn(&str, &str) -> Option<Vec<usize>>>(
    cb: H,
    places: spec_fn(Seq<char>, Seq<char>) -> Option<Seq<usize>>,
) -> bool {
    forall|n: &str, q: &str, r: Option<Vec<usize>>| #[trigger]
        call_ensures(cb, (n, q), r) ==> places_of(r) == places(n@, q@)
}

/// Whether a function takes every name and query.
pub open spec fn marks_names<H: Fn(&str, &str) -> Option<Vec<usize>>>(cb: H) -> bool {
    forall|n: &str, q: &str| #[trigger] call_requires(cb, (n, q))
}

/// No places of their own: the characters of the query are marked.
pub open spec fn nowhere() -> spec_fn(Seq<char>, Seq<char>) -> Option<Seq<usize>> {
    |n: Seq<char>, q: Seq<char>| None
}

/// Marks at some places.
pub open spec fn marks_of(p: Seq<usize>, n: nat) -> Seq<bool> {
    Seq::new(n, |i: int| p.contains(i as usize))
}

fn mark_places(p: &Vec<usize>, n: usize) -> (r: Vec<bool>)
    ensures
        r@ == marks_of(p@, n as nat),
{
    let mut out: Vec<bool> = Vec::new();
    let mut i: usize = 0;
    while i < n
        invariant
            i <= n,
            out@ == marks_of(p@, n as nat).take(i as int),
        decreases n - i,
    {
        let mut hit: bool = false;
        let mut k: usize = 0;
        while k < p.len()
            invariant
                k <= p@.len(),
                hit == p@.take(k as int).contains(i),
            decreases p@.len() - k,
        {
            assert(p@.take(k + 1) =~= p@.take(k as int).push(p@[k as int]));
            proof {
                let t = p@.take(k as int);
                if t.contains(i) {
                    let j = t.index_of(i);
                    assert(p@.take(k + 1)[j] == i);
                }
                if p@[k as int] == i {
                    assert(p@.take(k + 1)[k as int] == i);
                }
                if p@.take(k + 1).contains(i) {
                    let j = p@.take(k + 1).index_of(i);
                    if j < k {
                        assert(t[j] == i);
                    }
                }
            }
            if p[k] == i {
                hit = true;
            }
            k = k + 1;
        }
        assert(p@.take(k as int) =~= p@);
        out.push(hit);
        i = i + 1;
        assert(out@ =~= marks_of(p@, n as nat).take(i as int));
    }
    assert(out@ =~= marks_of(p@, n as nat));
    out
}

/// A completer whose candidates are found by a query.
#[derive(Debug)]
pub struct FuzzyCompleter {
    pub completer: SimpleCompleter,
    pub selector: FuzzySelector,
}

impl FuzzyCompleter {
    pub fn new() -> (r: Self)
        ensures
            r.completer.idle(),
            r.selector.idle(),
            r.selector.wf(),
    {
        FuzzyCompleter { completer: SimpleCompleter::new(), selector: FuzzySelector::new() }
    }

    pub fn all_candidates(&self) -> (r: Vec<Candidate>)
        ensures
            r@ == self.selector.candidates@,
    {
        clone_candidates(&self.selector.candidates)
    }

    pub fn set_prompt_line_context(&mut self, line_width: usize, cursor_col: usize)
        ensures
            final(self).completer == old(self).completer,
            final(self).selector == (FuzzySelector {
                prompt_cursor_col: cursor_col,
                ..old(self).selector
            }),
    {
        self.selector.set_prompt_line_context(line_width, cursor_col);
    }

    /// Empties the query.
    pub fn reset_stay_active(&mut self)
        requires
            old(self).selector.sound(),
        ensures
            final(self).completer == old(self).completer,
            final(self).selector.wf(),
            final(self).selector.query.linebuf.fresh(),
            FuzzySelector::scored(
                (FuzzySelector { query: final(self).selector.query, ..old(self).selector }),
                final(self).selector,
            ),
    {
        self.selector.reset_query();
    }

    /// The line with the selected candidate in place of what was typed.
    pub fn get_completed_line(&self, _candidate: &str) -> (r: String)
        ensures
            r@ == grid::replaced(
                self.completer.original_input@,
                self.completer.token_span,
                match self.selector.selected() {
                    Some(c) => c.content@,
                    None => Seq::empty(),
                },
            ),
    {
        let selected: String = match self.selector.selected_candidate() {
            Some(c) => c.content,
            None => {
                let s: String = String::new();
                assert(s@ =~= Seq::empty());
                s
            },
        };
        replace_span(
            self.completer.original_input.as_str(),
            self.completer.token_span,
            selected.as_str(),
        )
    }

    /// The completer after its inner one went from `a` to `m` and returned `inner`. A
    /// single candidate completes the line at once; several are shown.
    pub open spec fn answered(
        a: FuzzyCompleter,
        m: SimpleCompleter,
        inner: Option<Seq<char>>,
        b: FuzzyCompleter,
        r: Option<Seq<char>>,
    ) -> bool {
        let n = m.candidates@.len();
        if n == 0 {
            r is None && b.completer.idle() && b.selector == a.selector
        } else if n == 1 {
            &&& b.completer == m
            &&& b.selector.filtered@ == unscored(m.candidates@)
            &&& b.selector == (FuzzySelector { filtered: b.selector.filtered, ..a.selector })
            &&& r == (if inner is Some {
                Some(
                    grid::replaced(
                        m.original_input@,
                        m.token_span,
                        match b.selector.selected() {
                            Some(c) => c.content@,
                            None => Seq::empty(),
                        },
                    ),
                )
            } else {
                None
            })
        } else {
            &&& r is None
            &&& b.completer == m
            &&& b.selector.wf()
            &&& b.selector.candidates@ == m.candidates@
            &&& b.selector.filtered@ == found_best_first(
                unscored(m.candidates@),
                a.selector.query.typed(),
            )
            &&& FuzzySelector::activated(a.selector, b.selector, b.selector.candidates)
        }
    }

    /// Starts a completion, or goes on with it. A single candidate completes the line
    /// at once; several are shown.
    pub fn complete(
        &mut self,
        line: String,
        cursor_pos: usize,
        direction: i32,
        result: CompResult,
        ignore_case: bool,
    ) -> (r: Option<String>)
        requires
            result.candidates().len() <= usize::MAX / 4,
            forall|i: int|
                0 <= i < result.candidates().len() ==> (
                #[trigger] result.candidates()[i]).content@.len() < MAX_SCORED,
            old(self).completer.candidates@.len() <= usize::MAX / 4,
            all_scorable(old(self).completer.candidates@),
            old(self).completer.active ==> old(self).completer.wf()
                && old(self).completer.candidates@.len() <= i32::MAX,
            old(self).selector.sound(),
        ensures
            exists|m: SimpleCompleter, inner: Option<Seq<char>>|
                #![trigger FuzzyCompleter::answered(*old(self), m, inner, *final(self), candidate::opt_chars(r))]
                SimpleCompleter::stepped(
                    old(self).completer,
                    m,
                    line@,
                    cursor_pos,
                    direction,
                    result,
                    ignore_case,
                    inner,
                ) && FuzzyCompleter::answered(
                    *old(self),
                    m,
                    inner,
                    *final(self),
                    candidate::opt_chars(r),
                ),
    {
        let inner = self.completer.complete(line, cursor_pos, direction, result, ignore_case);
        let ghost m = self.completer;
        let ghost got = candidate::opt_chars(inner);
        let n = self.completer.candidates.len();
        if n == 0 {
            self.completer.reset();
            assert(FuzzyCompleter::answered(*old(self), m, got, *self, None));
            return None;
        }
        if n == 1 {
            self.selector.filtered = to_unscored(&self.completer.candidates);
            let r = match inner {
                None => None,
                Some(_) => Some(
                    self.get_completed_line(self.completer.candidates[0].content.as_str()),
                ),
            };
            assert(FuzzyCompleter::answered(*old(self), m, got, *self, candidate::opt_chars(r)));
            return r;
        }
        let cands = clone_candidates(&self.completer.candidates);
        assert(all_scorable(cands@)) by {
            assert forall|i: int| 0 <= i < cands@.len() implies (
            #[trigger] cands@[i]).content@.len() <= MAX_SCORED by {
                if !old(self).completer.active && !(result is NoMatch) {
                    assert(simple::given(
                        result.candidates()[i],
                        m.candidates@[i],
                        old(self).completer.add_space,
                    ));
                } else {
                    assert(m.candidates@[i] == old(self).completer.candidates@[i]);
                }
            }
        }
        self.selector.activate(cands);
        assert(FuzzyCompleter::answered(*old(self), m, got, *self, None));
        None
    }

    pub fn predicted_rows(&self) -> (r: Option<usize>)
        requires
            self.selector.wf(),
        ensures
            r is Some,
            self.selector.candidates@.len() == 0 && self.selector.filtered@.len() == 0 ==> r
                == Some(0usize),
            self.selector.candidates@.len() > 0 && self.selector.filtered@.len() == 0 ==> r
                == Some(2usize),
            self.selector.filtered@.len() > 0 ==> {
                let left = self.selector.filtered@.len() - self.selector.scroll_col * ROWS;
                r->0 == 2 + (if left < ROWS {
                    left
                } else {
                    ROWS as int
                })
            },
    {
        Some(self.selector.predicted_rows())
    }

    /// Answers a key as the selector does.
    pub fn handle_key(
        &mut self,
        key: KeyEvent,
        view: Viewport,
        w: WidthCalculator,
        t_cols: u16,
    ) -> (r: CompResponse)
        requires
            old(self).selector.wf(),
        ensures
            final(self).completer == old(self).completer,
            final(self).selector.wf(),
            ({
                let a = old(self).selector;
                let b = final(self).selector;
                let shown = match b.selected() {
                    Some(c) => CompResponse::Preview(c),
                    None => CompResponse::Consumed,
                };
                match fuzzy_key(key) {
                    FuzzyKey::Ignored => b == a && r is Consumed,
                    FuzzyKey::Dismiss => b.filtered@.len() == 0 && b == (FuzzySelector {
                        filtered: b.filtered,
                        ..a
                    }) && r is Dismiss,
                    FuzzyKey::Accept => b == a && r == (match a.selected() {
                        Some(c) => CompResponse::Accept(c),
                        None => CompResponse::Dismiss,
                    }),
                    FuzzyKey::Clear => {
                        &&& b.query.linebuf.fresh()
                        &&& FuzzySelector::scored(FuzzySelector { query: b.query, ..a }, b)
                        &&& r == shown
                    },
                    FuzzyKey::Edit => {
                        &&& query_edited(a.query.linebuf, b.query.linebuf, key, view)
                        &&& FuzzySelector::scored(FuzzySelector { query: b.query, ..a }, b)
                        &&& r == shown
                    },
                    k => b == (FuzzySelector {
                        cursor: ClampedUsize { val: a.moved(k, w, t_cols), ..a.cursor },
                        ..a
                    }) && r == shown,
                }
            }),
    {
        match self.selector.handle_key(key, view, w, t_cols) {
            SelectorResponse::Accept(c) => CompResponse::Accept(c),
            SelectorResponse::Preview(c) => CompResponse::Preview(c),
            SelectorResponse::Dismiss => CompResponse::Dismiss,
            SelectorResponse::Consumed => CompResponse::Consumed,
        }
    }

    /// Draws as the selector does.
    pub fn draw(&mut self, w: WidthCalculator, t_cols: u16, underline_color: bool) -> (r: (
        String,
        usize,
    ))
        requires
            old(self).selector.wf(),
        ensures
            final(self).completer == old(self).completer,
            final(self).selector.wf(),
            exists|m: Seq<Seq<bool>>| #[trigger]
                FuzzySelector::drawn(
                    old(self).selector,
                    final(self).selector,
                    w,
                    t_cols,
                    underline_color,
                    m,
                    r,
                ) && old(self).selector.in_view(w, t_cols).well_marked(w, t_cols, m, nowhere()),
    {
        self.selector.draw(w, t_cols, underline_color)
    }

    /// The column of the cursor in the query.
    pub fn query_cursor_col(&self, w: WidthCalculator) -> (r: Option<usize>)
        requires
            self.selector.sound(),
        ensures
            r == Some((LEADER_W + cells::wid(w, cells::careted(self.selector.before_cursor()))) as usize),
            LEADER_W + cells::wid(w, cells::careted(self.selector.before_cursor())) <= usize::MAX,
    {
        Some(self.selector.query_cursor_col(w))
    }

    pub fn clear(&mut self) -> (r: String)
        ensures
            final(self).completer == old(self).completer,
            final(self).selector == (FuzzySelector { old_layout: None, ..old(self).selector }),
            r@ == old(self).selector.cleared_text(),
    {
        self.selector.clear()
    }

    /// Forgets the completion and empties the query.
    pub fn reset(&mut self)
        requires
            old(self).selector.sound(),
        ensures
            final(self).completer.idle(),
            final(self).selector.wf(),
            final(self).selector.query.linebuf.fresh(),
            FuzzySelector::scored(
                (FuzzySelector { query: final(self).selector.query, ..old(self).selector }),
                final(self).selector,
            ),
    {
        self.completer.reset();
        self.selector.reset_query();
    }

    pub fn token_span(&self) -> (r: (usize, usize))
        ensures
            r == self.completer.token_span,
    {
        self.completer.token_span()
    }

    pub fn is_active(&self) -> (r: bool)
        ensures
            r == (self.selector.candidates@.len() > 0),
    {
        self.selector.candidates.len() > 0
    }

    pub fn selected_candidate(&self) -> (r: Option<Candidate>)
        ensures
            r == self.selector.selected(),
    {
        self.selector.selected_candidate()
    }

    pub fn original_input(&self) -> (r: &str)
        ensures
            r@ == self.completer.original_input@,
    {
        self.completer.original_input()
    }
}

} // verus!
