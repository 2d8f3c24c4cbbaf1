//! The best way to find a query in a candidate.

use crate::complete::score::BONUS_BOUNDARY;
use crate::complete::score::BONUS_CONSECUTIVE;
use crate::complete::score::BONUS_FIRST_CHAR;
use crate::complete::score::MAX_SCORED;
use crate::complete::score::PENALTY_GAP_EXTEND;
use crate::complete::score::PENALTY_GAP_START;
use crate::text::chars_of;
use crate::unicode;
use crate::unicode::is_same_letter;
use vstd::prelude::*;

verus! {

/// Below any score.
pub const NEG: i128 = -0x1_0000_0000_0000_0000_0000_0000;

/// Whether a word begins between two characters, for a character of the query.
/// A change to upper case counts only where the query is in upper case.
pub open spec fn word_bound(prev: char, curr: char, query_ch: char) -> bool {
    if prev == '/' || prev == '_' || prev == '-' || prev == '.' || prev == ' ' {
        true
    } else {
        unicode::lowercase(prev) && unicode::uppercase(curr) && unicode::uppercase(query_ch)
    }
}

/// What a found character is worth by where it stands.
pub open spec fn place_bonus(c: Seq<char>, i: int, q: char) -> int {
    (if i == 0 {
        BONUS_FIRST_CHAR as int
    } else {
        0
    }) + (if i == 0 || word_bound(c[i - 1], c[i], q) {
        BONUS_BOUNDARY as int
    } else {
        0
    })
}

/// What it is worth that a found character follows another: a bonus where it
/// comes right behind it, a penalty for the gap otherwise.
pub open spec fn follow_bonus(k: int, i: int) -> int {
    if i == k + 1 {
        BONUS_CONSECUTIVE as int
    } else {
        -(PENALTY_GAP_START + (i - k - 2) * PENALTY_GAP_EXTEND)
    }
}

/// Places where the first `n` characters of a query are found in a candidate,
/// in order.
pub open spec fn alignment(c: Seq<char>, q: Seq<char>, p: Seq<int>, n: int) -> bool {
    &&& p.len() >= n
    &&& forall|t: int| 0 <= t < n ==> 0 <= #[trigger] p[t] < c.len() && unicode::same_letter(
        c[p[t]],
        q[t],
    )
    &&& forall|t: int| 0 < t < n ==> p[t - 1] < #[trigger] p[t]
}

/// The score of the first `n` found characters.
pub open spec fn aligned_score(c: Seq<char>, q: Seq<char>, p: Seq<int>, n: int) -> int
    decreases n,
{
    if n <= 0 {
        0
    } else {
        aligned_score(c, q, p, n - 1) + place_bonus(c, p[n - 1], q[n - 1]) + (if n > 1 {
            follow_bonus(p[n - 2], p[n - 1])
        } else {
            0
        })
    }
}

/// The larger of two scores, where there are any.
pub open spec fn larger(a: Option<int>, b: Option<int>) -> Option<int> {
    match (a, b) {
        (None, _) => b,
        (_, None) => a,
        (Some(x), Some(y)) => if y > x {
            b
        } else {
            a
        },
    }
}

/// A score with something added.
pub open spec fn plus(a: Option<int>, d: int) -> Option<int> {
    match a {
        None => None,
        Some(x) => Some(x + d),
    }
}

/// The best score of the query up to its `j`-th character, with that one found
/// at `i`.
pub open spec fn best_at(c: Seq<char>, q: Seq<char>, j: int, i: int) -> Option<int>
    decreases j, i + 1,
{
    if j < 0 || i < 0 || i >= c.len() || !unicode::same_letter(c[i], q[j]) {
        None
    } else if j == 0 {
        Some(place_bonus(c, i, q[0]))
    } else {
        plus(best_before(c, q, j, i, i), place_bonus(c, i, q[j]))
    }
}

/// The best score of what comes before the `j`-th character found at `i`, where
/// the one before it is found below `k`.
pub open spec fn best_before(c: Seq<char>, q: Seq<char>, j: int, i: int, k: int) -> Option<int>
    decreases j, k,
{
    if k <= 0 || j <= 0 {
        None
    } else {
        larger(
            best_before(c, q, j, i, k - 1),
            plus(best_at(c, q, j - 1, k - 1), follow_bonus(k - 1, i)),
        )
    }
}

/// Whether the character before the `j`-th, which is found at `i`, is looked for at
/// `k`: where the score is best. The place right before `i` goes before the others of
/// the same score, and of those the first.
pub open spec fn preferred(c: Seq<char>, q: Seq<char>, j: int, k: int, i: int) -> bool {
    let v = plus(best_at(c, q, j - 1, k), follow_bonus(k, i));
    &&& 0 <= k < i
    &&& v is Some
    &&& best_before(c, q, j, i, i) == v
    &&& k < i - 1 ==> {
        &&& best_at(c, q, j - 1, i - 1) matches Some(x) ==> x + BONUS_CONSECUTIVE < v->0
        &&& forall|m: int|
            0 <= m < k ==> ((#[trigger] best_at(c, q, j - 1, m)) matches Some(x) ==> x
                + follow_bonus(m, i) < v->0)
    }
}

/// Whether the last character of the query is found at the first of the best places.
pub open spec fn ends_best(c: Seq<char>, q: Seq<char>, i: int) -> bool {
    &&& 0 <= i < c.len()
    &&& best_at(c, q, q.len() - 1, i) is Some
    &&& forall|m: int|
        0 <= m < c.len() ==> ((#[trigger] best_at(c, q, q.len() - 1, m)) matches Some(x) ==> x
            <= best_at(c, q, q.len() - 1, i)->0 && (m < i ==> x
            < best_at(c, q, q.len() - 1, i)->0))
}

/// Whether places are those that are taken, of all where the score is best.
pub open spec fn taken(c: Seq<char>, q: Seq<char>, p: Seq<int>) -> bool {
    &&& p.len() == q.len()
    &&& q.len() > 0 ==> ends_best(c, q, p[q.len() - 1])
    &&& forall|t: int| 0 < t < q.len() ==> preferred(c, q, t, p[t - 1], #[trigger] p[t])
}

/// The places that are taken are always the same.
pub proof fn taken_places_are_unique(c: Seq<char>, q: Seq<char>, a: Seq<int>, b: Seq<int>)
    requires
        taken(c, q, a),
        taken(c, q, b),
    ensures
        a == b,
{
    assert forall|t: int| 0 <= t < a.len() implies a[t] == b[t] by {
        lemma_same_places(c, q, a, b, t);
    }
}

proof fn lemma_same_places(c: Seq<char>, q: Seq<char>, a: Seq<int>, b: Seq<int>, t: int)
    requires
        taken(c, q, a),
        taken(c, q, b),
        0 <= t < q.len(),
    ensures
        a[t] == b[t],
    decreases q.len() - t,
{
    if t == q.len() - 1 {
        assert(best_at(c, q, q.len() - 1, a[t]) is Some);
        assert(best_at(c, q, q.len() - 1, b[t]) is Some);
    } else {
        lemma_same_places(c, q, a, b, t + 1);
        assert(preferred(c, q, t + 1, a[t + 1 - 1], a[t + 1]));
        assert(preferred(c, q, t + 1, b[t + 1 - 1], b[t + 1]));
        lemma_one_preferred(c, q, t + 1, a[t], b[t], a[t + 1]);
        lemma_one_preferred(c, q, t + 1, b[t], a[t], a[t + 1]);
    }
}

proof fn lemma_one_preferred(c: Seq<char>, q: Seq<char>, j: int, k: int, m: int, i: int)
    requires
        preferred(c, q, j, k, i),
        preferred(c, q, j, m, i),
    ensures
        k <= m,
{
    let a = best_at(c, q, j - 1, k);
    let b = best_at(c, q, j - 1, m);
    let e = best_before(c, q, j, i, i);
    assert(a is Some && e == Some(a->0 + follow_bonus(k, i)));
    assert(b is Some && e == Some(b->0 + follow_bonus(m, i)));
    if m < k {
        if k < i - 1 {
            assert(b->0 + follow_bonus(m, i) < a->0 + follow_bonus(k, i));
        } else {
            assert(k == i - 1);
            assert(follow_bonus(k, i) == BONUS_CONSECUTIVE);
            assert(a->0 + BONUS_CONSECUTIVE < b->0 + follow_bonus(m, i));
        }
    }
}

/// The best of the scores before, each with its place added.
pub open spec fn best_running(c: Seq<char>, q: Seq<char>, j: int, k: int) -> Option<int>
    decreases k,
{
    if k <= 0 {
        None
    } else {
        larger(best_running(c, q, j, k - 1), plus(best_at(c, q, j, k - 1), k - 1))
    }
}

proof fn lemma_running(c: Seq<char>, q: Seq<char>, j: int, i: int, k: int)
    requires
        j > 0,
        0 <= k <= i - 1 || k == 0,
    ensures
        best_before(c, q, j, i, k) == plus(best_running(c, q, j - 1, k), -3 - (i - 2)),
    decreases k,
{
    if k > 0 {
        lemma_running(c, q, j, i, k - 1);
    }
}

proof fn lemma_bounds(c: Seq<char>, q: Seq<char>, j: int, i: int)
    requires
        0 <= j < q.len(),
        0 <= i < c.len(),
    ensures
        best_at(c, q, j, i) matches Some(v) ==> -3 * j - i <= v <= 18 * j + 15,
    decreases j, i + 1,
{
    if unicode::same_letter(c[i], q[j]) && j > 0 {
        lemma_before_bounds(c, q, j, i, i);
    }
}

proof fn lemma_before_bounds(c: Seq<char>, q: Seq<char>, j: int, i: int, k: int)
    requires
        0 < j < q.len(),
        0 <= k <= i < c.len(),
    ensures
        best_before(c, q, j, i, k) matches Some(v) ==> -3 * j - i <= v <= 18 * j + 5,
    decreases j, k,
{
    if k > 0 {
        lemma_before_bounds(c, q, j, i, k - 1);
        lemma_bounds(c, q, j - 1, k - 1);
    }
}

proof fn lemma_running_bounds(c: Seq<char>, q: Seq<char>, j: int, k: int)
    requires
        0 <= j < q.len(),
        0 <= k <= c.len(),
    ensures
        best_running(c, q, j, k) matches Some(v) ==> -3 * j <= v <= 18 * j + 15 + k,
    decreases k,
{
    if k > 0 {
        lemma_running_bounds(c, q, j, k - 1);
        lemma_bounds(c, q, j, k - 1);
    }
}

proof fn lemma_before_covers(c: Seq<char>, q: Seq<char>, j: int, i: int, k: int, m: int)
    requires
        j > 0,
        0 <= m < k,
        best_at(c, q, j - 1, m) is Some,
    ensures
        best_before(c, q, j, i, k) is Some,
        (best_before(c, q, j, i, k)->0) >= (best_at(c, q, j - 1, m)->0) + follow_bonus(m, i),
    decreases k,
{
    if m < k - 1 {
        lemma_before_covers(c, q, j, i, k - 1, m);
    }
}

/// No way to find the query scores more than the best at its end.
proof fn lemma_no_better(c: Seq<char>, q: Seq<char>, p: Seq<int>, j: int)
    requires
        0 <= j < q.len(),
        alignment(c, q, p, j + 1),
    ensures
        best_at(c, q, j, p[j]) is Some,
        aligned_score(c, q, p, j + 1) <= best_at(c, q, j, p[j])->0,
    decreases j,
{
    assert(unicode::same_letter(c[p[j]], q[j]));
    if j == 0 {
        assert(aligned_score(c, q, p, 0) == 0);
    } else {
        assert(alignment(c, q, p, j));
        lemma_no_better(c, q, p, j - 1);
        assert(p[j - 1] < p[j]);
        assert(0 <= p[j - 1]);
        lemma_before_covers(c, q, j, p[j], p[j], p[j - 1]);
    }
}

proof fn lemma_before_reached(c: Seq<char>, q: Seq<char>, j: int, i: int, k: int) -> (m: int)
    requires
        j > 0,
        best_before(c, q, j, i, k) is Some,
    ensures
        0 <= m < k,
        best_at(c, q, j - 1, m) is Some,
        best_before(c, q, j, i, k) == plus(best_at(c, q, j - 1, m), follow_bonus(m, i)),
    decreases k,
{
    let a = best_before(c, q, j, i, k - 1);
    let b = plus(best_at(c, q, j - 1, k - 1), follow_bonus(k - 1, i));
    if best_before(c, q, j, i, k) == b {
        k - 1
    } else {
        lemma_before_reached(c, q, j, i, k - 1)
    }
}

/// The best score at an end is that of some way to find the query.
proof fn lemma_reached(c: Seq<char>, q: Seq<char>, j: int, i: int) -> (p: Seq<int>)
    requires
        0 <= j < q.len(),
        best_at(c, q, j, i) is Some,
    ensures
        p.len() == j + 1,
        p[j] == i,
        alignment(c, q, p, j + 1),
        aligned_score(c, q, p, j + 1) == best_at(c, q, j, i)->0,
    decreases j,
{
    if j == 0 {
        let p = seq![i];
        assert(aligned_score(c, q, p, 0) == 0);
        p
    } else {
        let m = lemma_before_reached(c, q, j, i, i);
        let r = lemma_reached(c, q, j - 1, m);
        let p = r.push(i);
        lemma_score_prefix(c, q, r, p, j);
        assert forall|t: int| 0 <= t < j + 1 implies 0 <= #[trigger] p[t] < c.len()
            && unicode::same_letter(c[p[t]], q[t]) by {
            if t < j {
                assert(p[t] == r[t]);
            }
        }
        assert forall|t: int| 0 < t < j + 1 implies p[t - 1] < #[trigger] p[t] by {
            if t < j {
                assert(p[t] == r[t]);
                assert(p[t - 1] == r[t - 1]);
            }
        }
        p
    }
}

proof fn lemma_score_prefix(c: Seq<char>, q: Seq<char>, a: Seq<int>, b: Seq<int>, n: int)
    requires
        0 <= n <= a.len(),
        n <= b.len(),
        forall|t: int| 0 <= t < n ==> a[t] == b[t],
    ensures
        aligned_score(c, q, a, n) == aligned_score(c, q, b, n),
    decreases n,
{
    if n > 0 {
        lemma_score_prefix(c, q, a, b, n - 1);
    }
}

fn is_word_bound(prev: char, curr: char, query_ch: char) -> (r: bool)
    ensures
        r == word_bound(prev, curr, query_ch),
{
    if prev == '/' || prev == '_' || prev == '-' || prev == '.' || prev == ' ' {
        true
    } else {
        prev.is_lowercase() && curr.is_uppercase() && query_ch.is_uppercase()
    }
}

fn char_bonus(c: &[char], i: usize, q: char) -> (r: i128)
    requires
        i < c@.len(),
    ensures
        r == place_bonus(c@, i as int, q),
        0 <= r <= 15,
{
    let mut b: i128 = 0;
    if i == 0 {
        b = b + BONUS_FIRST_CHAR as i128;
    }
    if i == 0 || is_word_bound(c[i - 1], c[i], q) {
        b = b + BONUS_BOUNDARY as i128;
    }
    b
}

/// A score as a number that is below all scores where there is none.
pub open spec fn held(v: i128, s: Option<int>) -> bool {
    match s {
        None => v == NEG,
        Some(x) => v == x && v > NEG,
    }
}

/// The scores of a row of the table.
pub open spec fn row_held(v: Seq<i128>, c: Seq<char>, q: Seq<char>, j: int) -> bool {
    &&& v.len() == c.len()
    &&& forall|i: int| 0 <= i < v.len() ==> held(#[trigger] v[i], best_at(c, q, j, i))
}

/// A row of the table of places before.
pub open spec fn parents_held(v: Seq<usize>, c: Seq<char>, q: Seq<char>, j: int, n: int) -> bool {
    &&& v.len() == c.len()
    &&& forall|i: int|
        0 <= i < n && best_at(c, q, j, i) is Some ==> {
            let k = #[trigger] v[i] as int;
            &&& 0 <= k < i
            &&& best_at(c, q, j - 1, k) is Some
            &&& best_before(c, q, j, i, i) == plus(best_at(c, q, j - 1, k), follow_bonus(k, i))
            &&& preferred(c, q, j, k, i)
        }
}

fn first_row(c: &[char], q: &[char]) -> (r: Vec<i128>)
    requires
        q@.len() > 0,
    ensures
        row_held(r@, c@, q@, 0),
{
    let mut v: Vec<i128> = Vec::new();
    let mut i: usize = 0;
    while i < c.len()
        invariant
            i <= c@.len(),
            q@.len() > 0,
            v@.len() == i,
            forall|k: int| 0 <= k < i ==> held(#[trigger] v@[k], best_at(c@, q@, 0, k)),
        decreases c@.len() - i,
    {
        if is_same_letter(c[i], q[0]) {
            v.push(char_bonus(c, i, q[0]));
        } else {
            v.push(NEG);
        }
        i = i + 1;
    }
    v
}

fn next_row(c: &[char], q: &[char], j: usize, prev: &Vec<i128>) -> (r: (
    Vec<i128>,
    Vec<usize>,
))
    requires
        0 < j < q@.len(),
        q@.len() <= c@.len(),
        row_held(prev@, c@, q@, j - 1),
    ensures
        row_held(r.0@, c@, q@, j as int),
        parents_held(r.1@, c@, q@, j as int, c@.len() as int),
{
    let qch = q[j];
    let n: usize = c.len();
    let mut curr: Vec<i128> = Vec::new();
    let mut parent: Vec<usize> = Vec::new();
    let mut running: i128 = NEG;
    let mut running_k: usize = 0;
    let mut i: usize = 0;
    while i < n
        invariant
            i <= n == c@.len(),
            0 < j < q@.len(),
            q@.len() <= c@.len(),
            qch == q@[j as int],
            row_held(prev@, c@, q@, j - 1),
            curr@.len() == i,
            parent@.len() == i,
            forall|k: int| 0 <= k < i ==> held(#[trigger] curr@[k], best_at(c@, q@, j as int, k)),
            forall|k: int|
                0 <= k < i && best_at(c@, q@, j as int, k) is Some ==> {
                    let m = #[trigger] parent@[k] as int;
                    &&& 0 <= m < k
                    &&& best_at(c@, q@, j - 1, m) is Some
                    &&& best_before(c@, q@, j as int, k, k) == plus(
                        best_at(c@, q@, j - 1, m),
                        follow_bonus(m, k),
                    )
                    &&& preferred(c@, q@, j as int, m, k)
                },
            held(running, best_running(c@, q@, j - 1, i - 1)),
            running > NEG ==> {
                &&& running_k < i - 1
                &&& best_at(c@, q@, j - 1, running_k as int) is Some
                &&& running == (best_at(c@, q@, j - 1, running_k as int)->0) + running_k
                &&& forall|m: int|
                    0 <= m < running_k ==> ((#[trigger] best_at(c@, q@, j - 1, m)) matches Some(
                        x,
                    ) ==> x + m < running)
            },
            running == NEG ==> forall|m: int|
                0 <= m < i - 1 ==> (#[trigger] best_at(c@, q@, j - 1, m)) is None,
            forall|m: int|
                0 <= m < i - 1 ==> ((#[trigger] best_at(c@, q@, j - 1, m)) matches Some(x) ==> x
                    + m <= running),
        decreases n - i,
    {
        let mut best: i128 = NEG;
        let mut best_k: usize = 0;
        let ghost bb = best_before(c@, q@, j as int, i as int, i as int);
        proof {
            lemma_before_bounds(c@, q@, j as int, i as int, i as int);
            if i >= 1 {
                lemma_running(c@, q@, j as int, i as int, i - 1);
                lemma_running_bounds(c@, q@, j - 1, i - 1);
                lemma_bounds(c@, q@, j - 1, i - 1);
                assert(held(prev@[i - 1], best_at(c@, q@, j - 1, i - 1)));
            }
        }
        if i >= 1 && prev[i - 1] > NEG {
            best = prev[i - 1] + BONUS_CONSECUTIVE as i128;
            best_k = i - 1;
        }
        if running > NEG {
            let gapped: i128 = running - PENALTY_GAP_START as i128 - (i as i128 - 2)
                * PENALTY_GAP_EXTEND as i128;
            if best == NEG || gapped > best {
                best = gapped;
                best_k = running_k;
            }
        }
        proof {
            if i == 0 {
                assert(bb is None);
            } else {
                let before = best_before(c@, q@, j as int, i as int, i - 1);
                let near = plus(best_at(c@, q@, j - 1, i - 1), follow_bonus(i - 1, i as int));
                assert(bb == larger(before, near));
            }
            assert(held(best, bb));
            if bb is Some {
                let k = best_k as int;
                assert(best_at(c@, q@, j - 1, k) is Some);
                assert(preferred(c@, q@, j as int, k, i as int));
            }
        }
        if best > NEG && is_same_letter(c[i], qch) {
            proof {
                lemma_bounds(c@, q@, j as int, i as int);
            }
            curr.push(char_bonus(c, i, qch) + best);
        } else {
            curr.push(NEG);
        }
        parent.push(best_k);
        if i >= 1 && prev[i - 1] > NEG {
            let val: i128 = prev[i - 1] + (i as i128 - 1) * PENALTY_GAP_EXTEND as i128;
            if running == NEG || val > running {
                running = val;
                running_k = i - 1;
            }
        }
        i = i + 1;
    }
    (curr, parent)
}

/// Whether a query is found in a candidate in the best way there is, with a score,
/// and at these places if they are asked for.
pub open spec fn is_best(
    c: Seq<char>,
    q: Seq<char>,
    track: bool,
    score: int,
    places: Seq<usize>,
) -> bool {
    let n = q.len() as int;
    &&& exists|p: Seq<int>|
        p.len() == n && #[trigger] alignment(c, q, p, n) && aligned_score(c, q, p, n) == score
    &&& forall|p: Seq<int>|
        p.len() == n && #[trigger] alignment(c, q, p, n) ==> aligned_score(c, q, p, n) <= score
    &&& track ==> {
        let p = Seq::new(places.len(), |i: int| places[i] as int);
        &&& places.len() == n
        &&& taken(c, q, p)
        &&& alignment(c, q, p, n)
        &&& aligned_score(c, q, p, n) == score
    }
    &&& !track ==> places.len() == 0
}

/// Whether a query is not found in a candidate.
pub open spec fn is_missing(c: Seq<char>, q: Seq<char>) -> bool {
    forall|p: Seq<int>| p.len() == q.len() ==> !#[trigger] alignment(c, q, p, q.len() as int)
}

/// Finds a query in a candidate in the best way there is: its score, and where
/// the characters are found if that is asked for. There is none where the
/// query is no part of the candidate in order.
pub fn fuzzy_align(candidate: &[char], query: &[char], track: bool) -> (r: Option<
    (i32, Vec<usize>),
>)
    requires
        candidate@.len() <= MAX_SCORED,
    ensures
        match r {
            None => is_missing(candidate@, query@),
            Some(x) => {
                &&& is_best(candidate@, query@, track, x.0 as int, x.1@)
                &&& -3 * query@.len() - candidate@.len() <= x.0 <= 18 * query@.len()
            },
        },
{
    match align_best(candidate, query, track) {
        None => None,
        Some((score, places)) => {
            proof {
                let q = query@;
                let n = q.len() as int;
                let p = choose|p: Seq<int>|
                    p.len() == n && #[trigger] alignment(candidate@, q, p, n) && aligned_score(
                        candidate@,
                        q,
                        p,
                        n,
                    ) == score;
                if n > 0 {
                    lemma_grows(candidate@, q, p, n - 1);
                    assert(p[n - 1] < candidate@.len());
                }
            }
            Some((score as i32, places))
        },
    }
}

/// Finds a query in a candidate of any length in the best way there is.
fn align_best(candidate: &[char], query: &[char], track: bool) -> (r: Option<(i128, Vec<usize>)>)
    ensures
        match r {
            None => is_missing(candidate@, query@),
            Some(x) => {
                &&& is_best(candidate@, query@, track, x.0 as int, x.1@)
                &&& -3 * query@.len() - candidate@.len() <= x.0 <= 18 * query@.len()
            },
        },
{
    let n: usize = candidate.len();
    let m: usize = query.len();
    if m == 0 {
        let v: Vec<usize> = Vec::new();
        proof {
            let p = Seq::<int>::empty();
            assert(alignment(candidate@, query@, p, 0));
            let x = Seq::new(v@.len(), |i: int| v@[i] as int);
            assert(alignment(candidate@, query@, x, 0));
        }
        return Some((0, v));
    }
    if m > n {
        proof {
            assert forall|p: Seq<int>| p.len() == query@.len() implies !#[trigger] alignment(
                candidate@,
                query@,
                p,
                query@.len() as int,
            ) by {
                if alignment(candidate@, query@, p, query@.len() as int) {
                    lemma_grows(candidate@, query@, p, query@.len() - 1);
                    assert(p[query@.len() - 1] < candidate@.len());
                }
            }
        }
        return None;
    }
    let mut prev = first_row(candidate, query);
    let mut parents: Vec<Vec<usize>> = Vec::new();
    let mut j: usize = 1;
    while j < m
        invariant
            1 <= j <= m == query@.len(),
            query@.len() <= candidate@.len(),
            row_held(prev@, candidate@, query@, j - 1),
            track ==> parents@.len() == j - 1,
            track ==> forall|t: int|
                1 <= t < j ==> parents_held(
                    (#[trigger] parents@[t - 1])@,
                    candidate@,
                    query@,
                    t,
                    candidate@.len() as int,
                ),
        decreases m - j,
    {
        let (curr, parent) = next_row(candidate, query, j, &prev);
        prev = curr;
        if track {
            parents.push(parent);
        }
        j = j + 1;
    }
    let mut best_score: i128 = NEG;
    let mut best_i: usize = 0;
    let mut i: usize = 0;
    while i < n
        invariant
            i <= n == candidate@.len(),
            m == query@.len(),
            row_held(prev@, candidate@, query@, m - 1),
            best_score >= NEG,
            best_score > NEG ==> best_i < i && prev@[best_i as int] == best_score,
            forall|k: int| 0 <= k < i ==> #[trigger] prev@[k] <= best_score,
            best_score > NEG ==> forall|k: int|
                0 <= k < best_i ==> #[trigger] prev@[k] < best_score,
        decreases n - i,
    {
        if prev[i] > best_score {
            best_score = prev[i];
            best_i = i;
        }
        i = i + 1;
    }
    proof {
        assert forall|p: Seq<int>|
            p.len() == query@.len() && #[trigger] alignment(
                candidate@,
                query@,
                p,
                query@.len() as int,
            ) implies best_score > NEG && aligned_score(
            candidate@,
            query@,
            p,
            query@.len() as int,
        ) <= best_score by {
            lemma_no_better(candidate@, query@, p, m - 1);
            let e = p[m - 1];
            assert(0 <= e < candidate@.len());
            assert(held(prev@[e], best_at(candidate@, query@, m - 1, e)));
        }
    }
    if best_score == NEG {
        return None;
    }
    proof {
        assert(held(
            prev@[best_i as int],
            best_at(candidate@, query@, m - 1, best_i as int),
        ));
        let p = lemma_reached(candidate@, query@, m - 1, best_i as int);
        assert(alignment(candidate@, query@, p, query@.len() as int));
        lemma_bounds(candidate@, query@, m - 1, best_i as int);
    }
    if !track {
        return Some((best_score, Vec::new()));
    }
    proof {
        assert forall|k: int| 0 <= k < candidate@.len() implies ((#[trigger] best_at(
            candidate@,
            query@,
            query@.len() - 1,
            k,
        )) matches Some(x) ==> x <= best_score && (k < best_i ==> x < best_score)) by {
            assert(held(prev@[k], best_at(candidate@, query@, m - 1, k)));
        }
        assert(ends_best(candidate@, query@, best_i as int));
    }
    let positions = walk_back(candidate, query, &parents, best_i);
    Some((best_score, positions))
}

proof fn lemma_grows(c: Seq<char>, q: Seq<char>, p: Seq<int>, t: int)
    requires
        0 <= t < q.len(),
        alignment(c, q, p, q.len() as int),
    ensures
        p[t] >= t,
    decreases t,
{
    if t > 0 {
        lemma_grows(c, q, p, t - 1);
        assert(p[t - 1] < p[t]);
    } else {
        assert(0 <= p[0]);
    }
}

/// Places from the last character of the query back to the first, each the
/// best before the next.
pub open spec fn walked_back(c: Seq<char>, q: Seq<char>, rev: Seq<usize>) -> bool {
    &&& forall|t: int|
        0 <= t < rev.len() ==> (#[trigger] rev[t]) < c.len() && best_at(
            c,
            q,
            q.len() - 1 - t,
            rev[t] as int,
        ) is Some
    &&& forall|t: int|
        0 < t < rev.len() ==> (#[trigger] rev[t]) < rev[t - 1] && best_before(
            c,
            q,
            q.len() - t,
            rev[t - 1] as int,
            rev[t - 1] as int,
        ) == plus(
            best_at(c, q, q.len() - t - 1, rev[t] as int),
            follow_bonus(rev[t] as int, rev[t - 1] as int),
        ) && preferred(c, q, q.len() - t, rev[t] as int, rev[t - 1] as int)
}

fn places_back(c: &[char], q: &[char], parents: &Vec<Vec<usize>>, end: usize) -> (rev: Vec<usize>)
    requires
        q@.len() > 0,
        end < c@.len(),
        best_at(c@, q@, q@.len() - 1, end as int) is Some,
        parents@.len() == q@.len() - 1,
        forall|t: int|
            1 <= t < q@.len() ==> parents_held(
                (#[trigger] parents@[t - 1])@,
                c@,
                q@,
                t,
                c@.len() as int,
            ),
    ensures
        rev@.len() == q@.len(),
        rev@[0] == end,
        walked_back(c@, q@, rev@),
{
    let m: usize = q.len();
    let mut rev: Vec<usize> = Vec::new();
    rev.push(end);
    let mut j: usize = m - 1;
    let mut i: usize = end;
    while j > 0
        invariant
            j < m == q@.len(),
            i < c@.len(),
            rev@.len() == m - j,
            rev@[rev@.len() - 1] == i,
            rev@[0] == end,
            best_at(c@, q@, j as int, i as int) is Some,
            parents@.len() == q@.len() - 1,
            forall|t: int|
                1 <= t < q@.len() ==> parents_held(
                    (#[trigger] parents@[t - 1])@,
                    c@,
                    q@,
                    t,
                    c@.len() as int,
                ),
            walked_back(c@, q@, rev@),
        decreases j,
    {
        assert(parents_held(parents@[j - 1]@, c@, q@, j as int, c@.len() as int));
        let ghost was = rev@;
        let k: usize = parents[j - 1][i];
        assert(parents@[j - 1]@[i as int] == k);
        rev.push(k);
        proof {
            lemma_walked_push(c@, q@, was, k, j as int);
        }
        i = k;
        j = j - 1;
    }
    rev
}

proof fn lemma_walked_push(c: Seq<char>, q: Seq<char>, rev: Seq<usize>, k: usize, j: int)
    requires
        0 < j < q.len(),
        rev.len() == q.len() - j,
        walked_back(c, q, rev),
        k < c.len(),
        k < rev.last(),
        best_at(c, q, j - 1, k as int) is Some,
        best_before(c, q, j, rev.last() as int, rev.last() as int) == plus(
            best_at(c, q, j - 1, k as int),
            follow_bonus(k as int, rev.last() as int),
        ),
        preferred(c, q, j, k as int, rev.last() as int),
    ensures
        walked_back(c, q, rev.push(k)),
{
    let r = rev.push(k);
    assert forall|t: int| 0 <= t < r.len() implies (#[trigger] r[t]) < c.len() && best_at(
        c,
        q,
        q.len() - 1 - t,
        r[t] as int,
    ) is Some by {
        if t < rev.len() {
            assert(r[t] == rev[t]);
        }
    }
    assert forall|t: int| 0 < t < r.len() implies (#[trigger] r[t]) < r[t - 1] && best_before(
        c,
        q,
        q.len() - t,
        r[t - 1] as int,
        r[t - 1] as int,
    ) == plus(
        best_at(c, q, q.len() - t - 1, r[t] as int),
        follow_bonus(r[t] as int, r[t - 1] as int),
    ) && preferred(c, q, q.len() - t, r[t] as int, r[t - 1] as int) by {
        if t < rev.len() {
            assert(r[t] == rev[t]);
            assert(r[t - 1] == rev[t - 1]);
        }
    }
}

fn walk_back(c: &[char], q: &[char], parents: &Vec<Vec<usize>>, end: usize) -> (r: Vec<usize>)
    requires
        q@.len() > 0,
        end < c@.len(),
        best_at(c@, q@, q@.len() - 1, end as int) is Some,
        ends_best(c@, q@, end as int),
        parents@.len() == q@.len() - 1,
        forall|t: int|
            1 <= t < q@.len() ==> parents_held(
                (#[trigger] parents@[t - 1])@,
                c@,
                q@,
                t,
                c@.len() as int,
            ),
    ensures
        r@.len() == q@.len(),
        ({
            let p = Seq::new(r@.len(), |i: int| r@[i] as int);
            &&& taken(c@, q@, p)
            &&& alignment(c@, q@, p, q@.len() as int)
            &&& aligned_score(c@, q@, p, q@.len() as int) == (best_at(
                c@,
                q@,
                q@.len() - 1,
                end as int,
            )->0)
        }),
{
    let m: usize = q.len();
    let rev = places_back(c, q, parents, end);
    let mut out: Vec<usize> = Vec::new();
    let mut t: usize = m;
    while t > 0
        invariant
            t <= m,
            rev@.len() == m,
            out@.len() == m - t,
            forall|k: int| 0 <= k < out@.len() ==> #[trigger] out@[k] == rev@[m - 1 - k],
        decreases t,
    {
        t = t - 1;
        out.push(rev[t]);
    }
    proof {
        let p = Seq::new(out@.len(), |i: int| out@[i] as int);
        lemma_walked_alignment(c@, q@, p, rev@);
        lemma_walk_score(c@, q@, p, rev@, m as int);
        assert(out@[m - 1] == rev@[0]);
        assert forall|t: int| 0 < t < q@.len() implies preferred(
            c@,
            q@,
            t,
            p[t - 1],
            #[trigger] p[t],
        ) by {
            let u = m - t;
            assert(p[t - 1] == rev@[u]);
            assert(p[t] == rev@[u - 1]);
            assert(rev@[u] < rev@[u - 1]);
        }
    }
    out
}

proof fn lemma_walked_alignment(c: Seq<char>, q: Seq<char>, p: Seq<int>, rev: Seq<usize>)
    requires
        p.len() == q.len(),
        rev.len() == q.len(),
        forall|t: int| 0 <= t < p.len() ==> #[trigger] p[t] == rev[q.len() - 1 - t],
        walked_back(c, q, rev),
    ensures
        alignment(c, q, p, q.len() as int),
{
    let m = q.len();
    assert forall|t: int| 0 <= t < m implies 0 <= #[trigger] p[t] < c.len()
        && unicode::same_letter(c[p[t]], q[t]) by {
        let u = m - 1 - t;
        assert(rev[u] < c.len());
        assert(best_at(c, q, m - 1 - u, rev[u] as int) is Some);
    }
    assert forall|t: int| 0 < t < m implies p[t - 1] < #[trigger] p[t] by {
        let u = m - t;
        assert(p[t - 1] == rev[u]);
        assert(p[t] == rev[u - 1]);
        assert(rev[u] < rev[u - 1]);
    }
}

proof fn lemma_walk_score(c: Seq<char>, q: Seq<char>, p: Seq<int>, rev: Seq<usize>, n: int)
    requires
        0 < n <= q.len(),
        p.len() == q.len(),
        rev.len() == q.len(),
        forall|t: int| 0 <= t < p.len() ==> #[trigger] p[t] == rev[q.len() - 1 - t],
        walked_back(c, q, rev),
    ensures
        best_at(c, q, n - 1, p[n - 1]) is Some,
        aligned_score(c, q, p, n) == best_at(c, q, n - 1, p[n - 1])->0,
    decreases n,
{
    let t = q.len() - n;
    assert(p[n - 1] == rev[t]);
    assert(best_at(c, q, q.len() - 1 - t, rev[t] as int) is Some);
    if n == 1 {
        assert(aligned_score(c, q, p, 0) == 0);
    } else {
        lemma_walk_score(c, q, p, rev, n - 1);
        assert(p[n - 2] == rev[t + 1]);
        assert(best_before(c, q, q.len() - (t + 1), rev[t] as int, rev[t] as int) == plus(
            best_at(c, q, q.len() - (t + 1) - 1, rev[t + 1] as int),
            follow_bonus(rev[t + 1] as int, rev[t] as int),
        ));
    }
}

/// The best score of a query in a candidate, `i32::MIN` where it is not found,
/// less twice the difference in length where that counts.
pub open spec fn is_match_score(c: Seq<char>, q: Seq<char>, penalize: bool, s: int) -> bool {
    if q.len() == 0 {
        s == 0
    } else if forall|p: Seq<int>|
        p.len() == q.len() ==> !#[trigger] alignment(c, q, p, q.len() as int) {
        s == i32::MIN
    } else {
        let best = s + (if penalize {
            2 * (c.len() - q.len())
        } else {
            0
        });
        &&& exists|p: Seq<int>|
            p.len() == q.len() && #[trigger] alignment(c, q, p, q.len() as int) && aligned_score(
                c,
                q,
                p,
                q.len() as int,
            ) == best
        &&& forall|p: Seq<int>|
            p.len() == q.len() && #[trigger] alignment(c, q, p, q.len() as int) ==> aligned_score(
                c,
                q,
                p,
                q.len() as int,
            ) <= best
    }
}

/// A query has one best score in a candidate.
pub proof fn match_score_is_unique(c: Seq<char>, q: Seq<char>, penalize: bool, a: int, b: int)
    requires
        is_match_score(c, q, penalize, a),
        is_match_score(c, q, penalize, b),
    ensures
        a == b,
{
}

/// Where a query is found, counting the difference in length takes twice that
/// difference off its score, and nothing else.
pub proof fn length_counts_twice(
    c: Seq<char>,
    q: Seq<char>,
    p: Seq<int>,
    plain: int,
    penalized: int,
)
    requires
        q.len() > 0,
        p.len() == q.len(),
        alignment(c, q, p, q.len() as int),
        is_match_score(c, q, false, plain),
        is_match_score(c, q, true, penalized),
    ensures
        penalized == plain - 2 * (c.len() - q.len()),
        q.len() <= c.len(),
{
    lemma_grows(c, q, p, q.len() - 1);
    assert(p[q.len() - 1] < c.len());
    match_score_is_unique(c, q, false, plain, penalized + 2 * (c.len() - q.len()));
}

/// The best place among the first `k` for the last character of a query.
proof fn lemma_best_end(c: Seq<char>, q: Seq<char>, k: int) -> (i: int)
    requires
        q.len() > 0,
        0 <= k <= c.len(),
        exists|x: int| 0 <= x < k && #[trigger] best_at(c, q, q.len() - 1, x) is Some,
    ensures
        0 <= i < k,
        best_at(c, q, q.len() - 1, i) is Some,
        forall|x: int|
            0 <= x < k && #[trigger] best_at(c, q, q.len() - 1, x) is Some ==> best_at(
                c,
                q,
                q.len() - 1,
                x,
            )->0 <= best_at(c, q, q.len() - 1, i)->0,
    decreases k,
{
    let j = q.len() - 1;
    if exists|x: int| 0 <= x < k - 1 && #[trigger] best_at(c, q, j, x) is Some {
        let i = lemma_best_end(c, q, k - 1);
        if best_at(c, q, j, k - 1) is Some && best_at(c, q, j, k - 1)->0 > best_at(c, q, j, i)->0 {
            k - 1
        } else {
            i
        }
    } else {
        k - 1
    }
}

/// A text that is not too long has a score for every query, and it is the lowest
/// exactly where the query is not found.
pub proof fn texts_have_scores(c: Seq<char>, q: Seq<char>, penalize: bool) -> (s: int)
    requires
        c.len() <= MAX_SCORED,
    ensures
        is_match_score(c, q, penalize, s),
        i32::MIN <= s <= i32::MAX,
        s == i32::MIN <==> forall|p: Seq<int>|
            p.len() == q.len() ==> !#[trigger] alignment(c, q, p, q.len() as int),
{
    let n = q.len() as int;
    if n == 0 {
        assert(alignment(c, q, Seq::<int>::empty(), 0));
        0
    } else if forall|p: Seq<int>| p.len() == n ==> !#[trigger] alignment(c, q, p, n) {
        i32::MIN as int
    } else {
        let p = choose|p: Seq<int>| p.len() == n && #[trigger] alignment(c, q, p, n);
        lemma_no_better(c, q, p, n - 1);
        lemma_grows(c, q, p, n - 1);
        assert(0 <= p[n - 1] < c.len());
        let i = lemma_best_end(c, q, c.len() as int);
        let best = best_at(c, q, n - 1, i)->0;
        let w = lemma_reached(c, q, n - 1, i);
        lemma_bounds(c, q, n - 1, i);
        assert forall|x: Seq<int>| x.len() == n && #[trigger] alignment(
            c,
            q,
            x,
            n,
        ) implies aligned_score(c, q, x, n) <= best by {
            lemma_no_better(c, q, x, n - 1);
            assert(0 <= x[n - 1] < c.len());
        }
        assert(w.len() == n && alignment(c, q, w, n) && aligned_score(c, q, w, n) == best);
        if penalize {
            best - 2 * (c.len() - n)
        } else {
            best
        }
    }
}

/// The best score of a query in a candidate.
pub fn fuzzy_match_score(candidate: &str, query_chars: &[char], penalize_len_diff: bool) -> (r: i32)
    requires
        candidate@.len() <= MAX_SCORED,
    ensures
        is_match_score(candidate@, query_chars@, penalize_len_diff, r as int),
{
    if query_chars.len() == 0 {
        return 0;
    }
    let c = chars_of(candidate);
    match fuzzy_align(c.as_slice(), query_chars, false) {
        None => i32::MIN,
        Some((score, _)) => {
            proof {
                let q = query_chars@;
                let p = choose|p: Seq<int>|
                    p.len() == q.len() && #[trigger] alignment(c@, q, p, q.len() as int)
                        && aligned_score(c@, q, p, q.len() as int) == score;
                lemma_grows(c@, q, p, q.len() - 1);
                assert(p[q.len() - 1] < c@.len());
            }
            if penalize_len_diff {
                let d: i32 = (c.len() - query_chars.len()) as i32;
                score - d * 2
            } else {
                score
            }
        },
    }
}

/// Whether places are where the characters of a query are found in a text in the
/// best way; none where they are not found.
pub open spec fn is_best_match(text: Seq<char>, query: Seq<char>, r: Seq<usize>) -> bool {
    let p = Seq::new(r.len(), |i: int| r[i] as int);
    let n = query.len() as int;
    if exists|x: Seq<int>| x.len() == n && #[trigger] alignment(text, query, x, n) {
        &&& r.len() == n
        &&& taken(text, query, p)
        &&& alignment(text, query, p, n)
        &&& forall|x: Seq<int>|
            x.len() == n && #[trigger] alignment(text, query, x, n) ==> aligned_score(
                text,
                query,
                x,
                n,
            ) <= aligned_score(text, query, p, n)
    } else {
        r.len() == 0
    }
}

/// Where the characters of a query are found in a text in the best way;
/// nothing where they are not.
pub fn match_positions(text: &str, query: &str) -> (r: Vec<usize>)
    ensures
        is_best_match(text@, query@, r@),
{
    let q = chars_of(query);
    let t = chars_of(text);
    if q.len() == 0 {
        let v: Vec<usize> = Vec::new();
        proof {
            let p = Seq::new(v@.len(), |i: int| v@[i] as int);
            assert(alignment(text@, query@, p, 0));
        }
        return v;
    }
    match align_best(t.as_slice(), q.as_slice(), true) {
        None => Vec::new(),
        Some((_, p)) => p,
    }
}

} // verus!
