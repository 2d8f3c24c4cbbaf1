//! The prompt and the status line.

use crate::complete::cells;
use crate::complete::cells::truncate_to_width;
use crate::linebuf::line;
use crate::term::width;
use crate::term::width::display_width;
use crate::term::width::WidthCalculator;
use crate::text;
use crate::text::owned;
use crate::text::push_repeated;
use vstd::prelude::*;

verus! {

/// The prompt that is used where none is set.
pub const DEFAULT_PS1: &'static str =
    "\\e[0m\\n\\e[1;0m\\u\\e[1;36m@\\e[1;31m\\h\\n\\e[1;36m\\W\\e[1;32m/\\n\\e[1;32m\\$\\e[0m ";

/// The line at the bottom of the screen: three parts, and whether they are out of
/// date.
#[derive(Debug)]
pub struct StatusLine {
    pub left: String,
    pub middle: String,
    pub right: String,
    pub dirty: bool,
}

/// How the columns of a line go to the parts of the status line.
#[derive(Debug, Clone, Copy, PartialEq, Eq, Structural)]
pub struct Shares {
    pub left: usize,
    pub middle: usize,
    pub right: usize,
    /// What is left over.
    pub rest: usize,
}

/// The smaller one.
pub open spec fn smaller(a: usize, b: usize) -> usize {
    if a <= b {
        a
    } else {
        b
    }
}

/// The right part gets what it needs first, then the middle, then the left.
pub open spec fn shares(lw: usize, mw: usize, rw: usize, term_width: usize) -> Shares {
    let right = smaller(rw, term_width);
    let middle = smaller(mw, (term_width - right) as usize);
    let left = smaller(lw, (term_width - right - middle) as usize);
    Shares { left, middle, right, rest: (term_width - right - middle - left) as usize }
}

/// The shares add up to the width of the line.
pub proof fn shares_fill_the_line(lw: usize, mw: usize, rw: usize, term_width: usize)
    ensures
        ({
            let s = shares(lw, mw, rw, term_width);
            s.left + s.middle + s.right + s.rest == term_width
        }),
{
}

/// The columns of a text, as far as they can be counted.
pub open spec fn columns(w: WidthCalculator, s: Seq<char>) -> usize {
    line::capped(width::shown_columns(w, s))
}

/// A text, if it fits in some columns, and else the start of it that fits with an
/// ellipsis behind it.
pub open spec fn ellipsized(w: WidthCalculator, s: Seq<char>, max: usize) -> Seq<char> {
    if columns(w, s) <= max {
        s
    } else if max == 0 {
        Seq::empty()
    } else {
        cells::truncated(w, s, (max - 1) as nat).push('\u{2026}')
    }
}

/// A text, if it fits in some columns, and else the start of it that fits with an
/// ellipsis behind it.
pub fn truncate_with_ellipsis(w: WidthCalculator, s: &str, max: usize) -> (r: String)
    ensures
        r@ == ellipsized(w, s@, max),
{
    if display_width(w, s) <= max {
        return owned(s);
    }
    if max == 0 {
        let r: String = String::new();
        assert(r@ =~= Seq::empty());
        return r;
    }
    let mut r = truncate_to_width(w, s, max - 1);
    r.push('\u{2026}');
    r
}

/// A part of the status line in its share of the columns.
pub open spec fn fitted(w: WidthCalculator, s: Seq<char>, share: usize) -> Seq<char> {
    if share < columns(w, s) {
        ellipsized(w, s, share)
    } else {
        s
    }
}

fn fit(w: WidthCalculator, s: &str, share: usize) -> (r: String)
    ensures
        r@ == fitted(w, s@, share),
{
    if share < display_width(w, s) {
        truncate_with_ellipsis(w, s, share)
    } else {
        owned(s)
    }
}

impl StatusLine {
    /// The status line of three parts.
    pub fn new(left: String, middle: String, right: String) -> (r: Self)
        ensures
            r == (StatusLine { left, middle, right, dirty: false }),
    {
        StatusLine { left, middle, right, dirty: false }
    }

    /// The parts, if they are up to date.
    pub fn parts(&self) -> (r: Option<(&str, &str, &str)>)
        ensures
            match r {
                Some((a, b, c)) => !self.dirty && a@ == self.left@ && b@ == self.middle@ && c@
                    == self.right@,
                None => self.dirty,
            },
    {
        if self.dirty {
            None
        } else {
            Some((self.left.as_str(), self.middle.as_str(), self.right.as_str()))
        }
    }

    /// What the line shows: the left part at the left edge, the right one at the
    /// right edge, and the middle one between equal gaps.
    pub open spec fn shown(self, w: WidthCalculator, term_width: usize) -> Seq<char> {
        let s = shares(
            columns(w, self.left@),
            columns(w, self.middle@),
            columns(w, self.right@),
            term_width,
        );
        fitted(w, self.left@, s.left) + text::repeated(' ', (s.rest / 2) as nat) + fitted(
            w,
            self.middle@,
            s.middle,
        ) + text::repeated(' ', (s.rest - s.rest / 2) as nat) + self.right@
    }

    /// The line as it shows.
    pub fn render(&self, w: WidthCalculator, term_width: usize) -> (r: String)
        ensures
            r@ == self.shown(w, term_width),
    {
        let lw = display_width(w, self.left.as_str());
        let mw = display_width(w, self.middle.as_str());
        let rw = display_width(w, self.right.as_str());
        let right: usize = if rw <= term_width {
            rw
        } else {
            term_width
        };
        let after_right: usize = term_width - right;
        let middle: usize = if mw <= after_right {
            mw
        } else {
            after_right
        };
        let after_middle: usize = after_right - middle;
        let left: usize = if lw <= after_middle {
            lw
        } else {
            after_middle
        };
        let rest: usize = after_middle - left;
        let mut out = fit(w, self.left.as_str(), left);
        push_repeated(&mut out, ' ', rest / 2);
        let m = fit(w, self.middle.as_str(), middle);
        out.push_str(m.as_str());
        push_repeated(&mut out, ' ', rest - rest / 2);
        out.push_str(self.right.as_str());
        out
    }

    pub fn refresh(&mut self)
        ensures
            *final(self) == (StatusLine { dirty: true, ..*old(self) }),
    {
        self.dirty = true;
    }

    /// Takes new parts.
    pub fn refresh_now(&mut self, left: String, middle: String, right: String)
        ensures
            *final(self) == (StatusLine { left, middle, right, dirty: false }),
    {
        *self = StatusLine::new(left, middle, right);
    }
}

/// The prompt, and whether it is out of date.
#[derive(Debug)]
pub struct Prompt {
    pub ps1_expanded: String,
    pub psr_expanded: Option<String>,
    pub dirty: bool,
}

impl Prompt {
    /// The prompt from what is set: where no prompt is set, or it cannot be
    /// expanded, the default one is used, and nothing stands at the right edge.
    pub fn new(
        ps1: Option<String>,
        psr: Option<String>,
        default_expanded: Option<String>,
    ) -> (r: Self)
        ensures
            !r.dirty,
            match ps1 {
                Some(p) => r.ps1_expanded == p && r.psr_expanded == psr,
                None => r.psr_expanded is None && r.ps1_expanded@ == match default_expanded {
                    Some(d) => d@,
                    None => DEFAULT_PS1@,
                },
            },
    {
        match ps1 {
            Some(p) => Prompt { ps1_expanded: p, psr_expanded: psr, dirty: false },
            None => Prompt {
                ps1_expanded: match default_expanded {
                    Some(d) => d,
                    None => owned(DEFAULT_PS1),
                },
                psr_expanded: None,
                dirty: false,
            },
        }
    }

    /// The prompt, if it is up to date.
    pub fn get_ps1(&self) -> (r: Option<&str>)
        ensures
            match r {
                Some(s) => !self.dirty && s@ == self.ps1_expanded@,
                None => self.dirty,
            },
    {
        if self.dirty {
            None
        } else {
            Some(self.ps1_expanded.as_str())
        }
    }

    pub fn refresh(&mut self)
        ensures
            *final(self) == (Prompt { dirty: true, ..*old(self) }),
    {
        self.dirty = true;
    }
}

} // verus!
