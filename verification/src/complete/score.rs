//! Scores of candidates against what was typed.

use crate::complete::candidate::Candidate;
use crate::text::chars_of;
use crate::unicode;
use crate::unicode::is_same_letter;
use vstd::prelude::*;

verus! {

pub const BONUS_BOUNDARY: i32 = 10;

pub const BONUS_CONSECUTIVE: i32 = 8;

pub const BONUS_FIRST_CHAR: i32 = 5;

pub const PENALTY_GAP_START: i32 = 3;

pub const PENALTY_GAP_EXTEND: i32 = 1;

/// The longest candidate whose score a number can hold while it is found: a
/// character adds nineteen at most.
pub const MAX_SCORED: usize = 113_025_455;

/// A candidate with its score.
#[derive(Debug)]
pub struct ScoredCandidate {
    pub candidate: Candidate,
    pub score: Option<i32>,
    pub penalize_len_diff: bool,
}

/// Whether a word begins between two characters.
pub open spec fn word_bound(prev: char, curr: char) -> bool {
    ||| prev == '/' || prev == '_' || prev == '-' || prev == '.' || prev == ' '
    ||| unicode::lowercase(prev) && unicode::uppercase(curr)
}

/// The places among the first `n` characters where the query is found, each of
/// its characters as early as it can be.
pub open spec fn found_at(c: Seq<char>, q: Seq<char>, n: int) -> Seq<int>
    decreases n,
{
    if n <= 0 || n > c.len() {
        Seq::empty()
    } else {
        let p = found_at(c, q, n - 1);
        if p.len() < q.len() && unicode::same_letter(c[n - 1], q[p.len() as int]) {
            p.push(n - 1)
        } else {
            p
        }
    }
}

/// What one found character adds to the score: where it begins the text or a
/// word, and how far it is from the one before.
pub open spec fn gain(c: Seq<char>, p: Seq<int>, i: int) -> int {
    let first = if p[i] == 0 {
        BONUS_FIRST_CHAR as int
    } else {
        0
    };
    let word = if p[i] == 0 || word_bound(c[p[i] - 1], c[p[i]]) {
        BONUS_BOUNDARY as int
    } else {
        0
    };
    let near = if i == 0 {
        0
    } else if p[i] == p[i - 1] + 1 {
        BONUS_CONSECUTIVE as int
    } else {
        -(PENALTY_GAP_START + (p[i] - p[i - 1] - 2) * PENALTY_GAP_EXTEND)
    };
    first + word + near
}

/// What the first `n` found characters add to the score.
pub open spec fn gains(c: Seq<char>, p: Seq<int>, n: int) -> int
    decreases n,
{
    if n <= 0 {
        0
    } else {
        gains(c, p, n - 1) + gain(c, p, n - 1)
    }
}

/// The score of a candidate. A query of which something is missing scores
/// least of all.
pub open spec fn score_of(c: Seq<char>, q: Seq<char>, penalize: bool) -> int {
    let p = found_at(c, q, c.len() as int);
    if q.len() == 0 {
        0
    } else if p.len() != q.len() {
        i32::MIN as int
    } else {
        gains(c, p, p.len() as int) - (if penalize {
            2 * (c.len() - q.len())
        } else {
            0
        })
    }
}

proof fn lemma_found(c: Seq<char>, q: Seq<char>, n: int)
    requires
        0 <= n <= c.len(),
    ensures
        found_at(c, q, n).len() <= q.len(),
        found_at(c, q, n).len() <= n,
        forall|i: int| 0 <= i < found_at(c, q, n).len() ==> 0 <= #[trigger] found_at(c, q, n)[i] < n,
        forall|i: int, j: int|
            0 <= i < j < found_at(c, q, n).len() ==> found_at(c, q, n)[i] < found_at(c, q, n)[j],
    decreases n,
{
    if n > 0 {
        lemma_found(c, q, n - 1);
    }
}

proof fn lemma_gains_bound(c: Seq<char>, p: Seq<int>, n: int)
    requires
        0 <= n <= p.len(),
        forall|i: int| 0 <= i < p.len() ==> 0 <= #[trigger] p[i] < c.len(),
        forall|i: int, j: int| 0 <= i < j < p.len() ==> p[i] < p[j],
    ensures
        gains(c, p, n) <= 18 * n,
        n == 0 ==> gains(c, p, n) == 0,
        n > 0 ==> gains(c, p, n) >= -3 * n - p[n - 1],
    decreases n,
{
    if n > 0 {
        lemma_gains_bound(c, p, n - 1);
        if n > 1 {
            assert(p[n - 2] < p[n - 1]);
        }
    }
}

/// Found characters are those asked for, in order.
pub proof fn found_characters_match(c: Seq<char>, q: Seq<char>, n: int)
    requires
        0 <= n <= c.len(),
    ensures
        forall|i: int|
            0 <= i < found_at(c, q, n).len() ==> unicode::same_letter(
                c[#[trigger] found_at(c, q, n)[i]],
                q[i],
            ),
    decreases n,
{
    lemma_found(c, q, n);
    if n > 0 {
        lemma_found(c, q, n - 1);
        found_characters_match(c, q, n - 1);
    }
}

impl ScoredCandidate {
    pub fn new(candidate: Candidate) -> (r: Self)
        ensures
            r == (ScoredCandidate { candidate, score: None, penalize_len_diff: false }),
    {
        ScoredCandidate { candidate, score: None, penalize_len_diff: false }
    }

    pub fn with_len_penalty(self, enable: bool) -> (r: Self)
        ensures
            r == (ScoredCandidate { penalize_len_diff: enable, ..self }),
    {
        ScoredCandidate {
            candidate: self.candidate,
            score: self.score,
            penalize_len_diff: enable,
        }
    }

    fn is_word_bound(prev: char, curr: char) -> (r: bool)
        ensures
            r == word_bound(prev, curr),
    {
        if prev == '/' || prev == '_' || prev == '-' || prev == '.' || prev == ' ' {
            true
        } else {
            prev.is_lowercase() && curr.is_uppercase()
        }
    }

    /// Scores the candidate with a function of the candidate's text, the characters
    /// that were typed, and whether longer candidates count less.
    pub fn fuzzy_score_with<F: Fn(&str, &[char], bool) -> i32>(&mut self, other: &str, cb: F) -> (r:
        i32)
        requires
            forall|c: &str, q: &[char], p: bool| #[trigger] cb.requires((c, q, p)),
        ensures
            exists|c: &str, q: &[char]|
                c@ == old(self).candidate.content@ && q@ == other@ && #[trigger] cb.ensures(
                    (c, q, old(self).penalize_len_diff),
                    r,
                ),
            *final(self) == (ScoredCandidate { score: Some(r), ..*old(self) }),
    {
        let q = chars_of(other);
        let r: i32 = cb(self.candidate.content.as_str(), q.as_slice(), self.penalize_len_diff);
        self.score = Some(r);
        r
    }

    /// Scores the candidate against a query.
    pub fn fuzzy_score(&mut self, other: &str) -> (r: i32)
        requires
            old(self).candidate.content@.len() <= MAX_SCORED,
        ensures
            r == score_of(old(self).candidate.content@, other@, old(self).penalize_len_diff),
            *final(self) == (ScoredCandidate { score: Some(r), ..*old(self) }),
    {
        let q = chars_of(other);
        let c = chars_of(self.candidate.content.as_str());
        if q.len() == 0 {
            self.score = Some(0);
            return 0;
        }
        let mut p: Vec<usize> = Vec::new();
        let ghost mut pg: Seq<int> = Seq::empty();
        let mut ci: usize = 0;
        while ci < c.len()
            invariant
                ci <= c@.len(),
                pg == found_at(c@, q@, ci as int),
                p@.len() == pg.len(),
                pg.len() <= q@.len(),
                forall|i: int| 0 <= i < p@.len() ==> #[trigger] p@[i] == pg[i],
            decreases c@.len() - ci,
        {
            proof {
                lemma_found(c@, q@, ci + 1);
                pg = found_at(c@, q@, ci + 1);
            }
            if p.len() < q.len() && is_same_letter(c[ci], q[p.len()]) {
                p.push(ci);
            }
            ci = ci + 1;
        }
        if p.len() != q.len() {
            self.score = Some(i32::MIN);
            return i32::MIN;
        }
        proof {
            lemma_found(c@, q@, c@.len() as int);
        }
        let mut score: i64 = 0;
        let mut i: usize = 0;
        while i < p.len()
            invariant
                i <= p@.len(),
                p@.len() == pg.len(),
                p@.len() <= c@.len() <= MAX_SCORED,
                forall|i: int| 0 <= i < p@.len() ==> #[trigger] p@[i] == pg[i],
                forall|i: int| 0 <= i < pg.len() ==> 0 <= #[trigger] pg[i] < c@.len(),
                forall|i: int, j: int| 0 <= i < j < pg.len() ==> pg[i] < pg[j],
                score == gains(c@, pg, i as int),
                -(4 * MAX_SCORED) <= score <= 18 * i,
            decreases p@.len() - i,
        {
            proof {
                lemma_gains_bound(c@, pg, i + 1);
                assert(p@[i as int] == pg[i as int]);
                if i > 0 {
                    assert(p@[i - 1] == pg[i - 1]);
                }
            }
            let idx: usize = p[i];
            if idx == 0 {
                score = score + BONUS_FIRST_CHAR as i64;
            }
            if idx == 0 || ScoredCandidate::is_word_bound(c[idx - 1], c[idx]) {
                score = score + BONUS_BOUNDARY as i64;
            }
            if i > 0 {
                let gap: usize = idx - p[i - 1] - 1;
                if gap == 0 {
                    score = score + BONUS_CONSECUTIVE as i64;
                } else {
                    score = score - (PENALTY_GAP_START as i64 + (gap as i64 - 1)
                        * PENALTY_GAP_EXTEND as i64);
                }
            }
            i = i + 1;
        }
        if self.penalize_len_diff {
            score = score - 2 * (c.len() as i64 - q.len() as i64);
        }
        let score: i32 = score as i32;
        self.score = Some(score);
        score
    }
}

} // verus!
