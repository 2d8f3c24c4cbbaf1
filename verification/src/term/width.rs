//! How many columns a text takes on the screen.

use crate::linebuf::line;
use crate::text::chars_of;
use crate::text::same_str;
use crate::unicode;
use crate::unicode::graphemes_of;
use crate::unicode::width_of_char;
use crate::unicode::width_of_str;
use vstd::prelude::*;

verus! {

/// The character that joins others into one glyph.
pub const ZWJ: char = '\u{200D}';

/// How a terminal counts columns.
#[derive(Debug, Clone, Copy, PartialEq, Eq, Structural)]
pub enum WidthCalculator {
    /// As the Unicode tables have it.
    UnicodeWidth,
    /// Character by character.
    WcWidth,
    /// As the Unicode tables have it, but two columns for joined glyphs.
    NoZwj,
}

/// The columns of a text that holds no escape sequences. Characters without a
/// width count for nothing.
pub open spec fn columns(w: WidthCalculator, s: Seq<char>) -> nat {
    match w {
        WidthCalculator::UnicodeWidth => unicode::str_columns(s) as nat,
        WidthCalculator::WcWidth => line::columns(s),
        WidthCalculator::NoZwj => if s.contains(ZWJ) {
            2
        } else {
            unicode::str_columns(s) as nat
        },
    }
}

/// How the terminal of an environment counts columns.
pub open spec fn calculator_for(
    term_program: Option<Seq<char>>,
    term: Option<Seq<char>>,
) -> WidthCalculator {
    match term_program {
        Some(p) => if p == "Apple_Terminal"@ || p == "iTerm.app"@ || p == "WezTerm"@ {
            WidthCalculator::UnicodeWidth
        } else {
            WidthCalculator::WcWidth
        },
        None => match term {
            Some(t) => if t == "xterm-kitty"@ {
                WidthCalculator::NoZwj
            } else {
                WidthCalculator::WcWidth
            },
            None => WidthCalculator::WcWidth,
        },
    }
}

/// The characters of an optional text.
pub open spec fn opt_str(s: Option<&str>) -> Option<Seq<char>> {
    match s {
        Some(x) => Some(x@),
        None => None,
    }
}

/// Picks how to count columns, from `TERM_PROGRAM` and `TERM`.
pub fn width_calculator(term_program: Option<&str>, term: Option<&str>) -> (r: WidthCalculator)
    ensures
        r == calculator_for(opt_str(term_program), opt_str(term)),
{
    match term_program {
        Some(p) => {
            if same_str(p, "Apple_Terminal") || same_str(p, "iTerm.app") || same_str(p, "WezTerm") {
                WidthCalculator::UnicodeWidth
            } else {
                WidthCalculator::WcWidth
            }
        },
        None => match term {
            Some(t) => {
                if same_str(t, "xterm-kitty") {
                    WidthCalculator::NoZwj
                } else {
                    WidthCalculator::WcWidth
                }
            },
            None => WidthCalculator::WcWidth,
        },
    }
}

impl WidthCalculator {
    /// The columns of a single character.
    pub fn cwidth(c: char) -> (r: usize)
        ensures
            r == line::columns(seq![c]),
    {
        proof {
            assert(seq![c].drop_last() =~= Seq::<char>::empty());
            assert(seq![c].last() == c);
            assert(line::columns(Seq::<char>::empty()) == 0);
        }
        match width_of_char(c) {
            Some(w) => w,
            None => 0,
        }
    }

    /// The columns of a text that holds no escape sequences.
    pub fn width(&self, s: &str) -> (r: usize)
        ensures
            r == line::capped(columns(*self, s@)),
    {
        match self {
            WidthCalculator::UnicodeWidth => width_of_str(s),
            WidthCalculator::WcWidth => {
                let v = chars_of(s);
                let mut i: usize = 0;
                let mut n: usize = 0;
                while i < v.len()
                    invariant
                        i <= v@.len(),
                        n == line::capped(line::columns(v@.take(i as int))),
                    decreases v@.len() - i,
                {
                    let w: usize = match width_of_char(v[i]) {
                        Some(w) => w,
                        None => 0,
                    };
                    n = n.saturating_add(w);
                    i = i + 1;
                    assert(v@.take(i as int).drop_last() =~= v@.take(i - 1));
                }
                assert(v@.take(i as int) =~= v@);
                n
            },
            WidthCalculator::NoZwj => {
                let v = chars_of(s);
                let mut i: usize = 0;
                while i < v.len()
                    invariant
                        i <= v@.len(),
                        v@ == s@,
                        forall|k: int| 0 <= k < i ==> v@[k] != ZWJ,
                        *self == WidthCalculator::NoZwj,
                    decreases v@.len() - i,
                {
                    if v[i] == ZWJ {
                        assert(s@.contains(ZWJ)) by {
                            assert(s@[i as int] == ZWJ);
                        }
                        return 2;
                    }
                    i = i + 1;
                }
                width_of_str(s)
            },
        }
    }
}

/// Where in an escape sequence a text is: outside, behind the escape, or among
/// its parameters.
#[derive(Debug, Clone, Copy, PartialEq, Eq, Structural)]
pub enum EscState {
    Outside,
    Escape,
    Params,
}

/// Whether a grapheme goes on with the parameters of an escape sequence.
pub open spec fn is_param(g: Seq<char>) -> bool {
    g == seq![';'] || (g.len() > 0 && unicode::ascii_digit(g[0]))
}

/// What a grapheme does to the state, and the columns it takes.
pub open spec fn esc_step(w: WidthCalculator, st: EscState, g: Seq<char>) -> (EscState, nat) {
    match st {
        EscState::Escape => (
            if g == seq!['['] {
                EscState::Params
            } else {
                EscState::Outside
            },
            0,
        ),
        EscState::Params => (
            if is_param(g) {
                EscState::Params
            } else {
                EscState::Outside
            },
            0,
        ),
        EscState::Outside => if g == seq!['\x1b'] {
            (EscState::Escape, 0)
        } else if g == seq!['\n'] {
            (EscState::Outside, 0)
        } else {
            (EscState::Outside, columns(w, g))
        },
    }
}

/// Reads one grapheme: the columns that it takes, and the state behind it.
pub fn grapheme_width(w: WidthCalculator, st: &mut EscState, g: &str) -> (r: usize)
    ensures
        ({
            let (s, n) = esc_step(w, *old(st), g@);
            *final(st) == s && r == line::capped(n)
        }),
{
    let v = chars_of(g);
    let one: bool = v.len() == 1;
    proof {
        assert forall|c: char| one && v@[0] == c implies v@ =~= seq![c] by {}
    }
    match *st {
        EscState::Escape => {
            if one && v[0] == '[' {
                assert(v@ =~= seq!['[']);
                *st = EscState::Params;
            } else {
                *st = EscState::Outside;
            }
            0
        },
        EscState::Params => {
            let first: bool = v.len() > 0 && unicode::is_ascii_digit(v[0]);
            let semi: bool = one && v[0] == ';';
            proof {
                if semi {
                    assert(v@ =~= seq![';']);
                }
            }
            if !(semi || first) {
                *st = EscState::Outside;
            }
            0
        },
        EscState::Outside => {
            if one && v[0] == '\x1b' {
                assert(v@ =~= seq!['\x1b']);
                *st = EscState::Escape;
                0
            } else if one && v[0] == '\n' {
                assert(v@ =~= seq!['\n']);
                0
            } else {
                w.width(g)
            }
        },
    }
}

/// The state and the columns after some graphemes.
pub open spec fn esc_walk(w: WidthCalculator, gs: Seq<Seq<char>>) -> (EscState, nat)
    decreases gs.len(),
{
    if gs.len() == 0 {
        (EscState::Outside, 0)
    } else {
        let (st, n) = esc_walk(w, gs.drop_last());
        let (s, k) = esc_step(w, st, gs.last());
        (s, n + k)
    }
}

/// The columns that a text takes on the screen. Escape sequences take none.
pub open spec fn shown_columns(w: WidthCalculator, s: Seq<char>) -> nat {
    esc_walk(w, unicode::clusters(s)).1
}

/// The columns that a text takes on the screen.
pub fn display_width(w: WidthCalculator, s: &str) -> (r: usize)
    ensures
        r == line::capped(shown_columns(w, s@)),
{
    let gs = graphemes_of(s);
    let ghost cl = unicode::clusters(s@);
    let mut st = EscState::Outside;
    let mut n: usize = 0;
    let mut i: usize = 0;
    assert(cl.take(0) =~= Seq::<Seq<char>>::empty());
    while i < gs.len()
        invariant
            i <= gs@.len(),
            gs@.len() == cl.len(),
            forall|k: int| 0 <= k < cl.len() ==> (#[trigger] gs@[k])@ == cl[k],
            st == esc_walk(w, cl.take(i as int)).0,
            n == line::capped(esc_walk(w, cl.take(i as int)).1),
        decreases gs@.len() - i,
    {
        assert(cl.take(i + 1).drop_last() =~= cl.take(i as int));
        let k: usize = grapheme_width(w, &mut st, gs[i].as_str());
        n = n.saturating_add(k);
        i = i + 1;
    }
    assert(cl.take(i as int) =~= cl);
    n
}

/// The columns that a text takes on the screen, as far as a terminal counts.
pub fn calc_str_width(w: WidthCalculator, s: &str) -> (r: u16)
    ensures
        r == (if shown_columns(w, s@) <= u16::MAX {
            shown_columns(w, s@) as u16
        } else {
            u16::MAX
        }),
{
    let n = display_width(w, s);
    if n <= u16::MAX as usize {
        n as u16
    } else {
        u16::MAX
    }
}

} // verus!
