//! What shows of a buffer, how deep a place of it is, and what numbers in it come to.

use crate::browse;
use crate::context::CtxTk;
use crate::context::CtxTkRule;
use crate::linebuf::buffer;
use crate::linebuf::concat;
use crate::linebuf::depth;
use crate::linebuf::depth::DepthEvent;
use crate::linebuf::depth::Nest;
use crate::linebuf::depth::Opener;
use crate::linebuf::line;
use crate::linebuf::lines;
use crate::linebuf::lines::Text;
use crate::linebuf::numbers;
use crate::linebuf::pos::Pos;
use crate::linebuf::pos::SelectMode;
use crate::linebuf::render;
use crate::linebuf::render::Placed;
use crate::linebuf::word_laws;
use crate::markers;
use crate::text;
use crate::unicode;
use vstd::prelude::*;

verus! {

/// What is selected in one row stands between two marks, its last grapheme included; the
/// rest of the row and the other rows stay as they are.
pub proof fn selections_are_marked(t: Text, r: int, s: Pos, e: Pos, back: bool)
    requires
        0 <= r < t.len(),
        s.row == e.row,
        s.row < t.len(),
        s.col <= e.col < t[s.row as int].len(),
    ensures
        ({
            let (c, p) = if back {
                (s, e)
            } else {
                (e, s)
            };
            let m = render::marked(t, c, Some(SelectMode::Char(p)));
            let row = t[r];
            &&& m.len() == t.len()
            &&& r != s.row ==> m[r] == row
            &&& r == s.row ==> m[r] == row.take(s.col as int) + seq![
                seq![markers::VISUAL_MODE_START],
            ] + row.subrange(s.col as int, e.col + 1) + seq![seq![markers::VISUAL_MODE_END]]
                + row.skip(e.col + 1)
        }),
        render::marked(t, s, None) == t,
{
    let (c, p) = if back {
        (s, e)
    } else {
        (e, s)
    };
    let m = render::marked(t, c, Some(SelectMode::Char(p)));
    let row = t[r];
    if r == s.row {
        assert(m[r] =~= row.take(s.col as int) + seq![seq![markers::VISUAL_MODE_START]]
            + row.subrange(s.col as int, e.col + 1) + seq![seq![markers::VISUAL_MODE_END]]
            + row.skip(e.col + 1));
    }
}

/// A selection over several rows is marked in each of them: from its start on in the
/// first, up to its end in the last, and all of those between.
pub proof fn long_selections_are_marked(t: Text, r: int, s: Pos, e: Pos, back: bool)
    requires
        0 <= r < t.len(),
        s.row < e.row < t.len(),
        s.col <= t[s.row as int].len(),
        e.col < t[e.row as int].len(),
    ensures
        ({
            let (c, p) = if back {
                (s, e)
            } else {
                (e, s)
            };
            let m = render::marked(t, c, Some(SelectMode::Char(p)));
            let row = t[r];
            let on = seq![seq![markers::VISUAL_MODE_START]];
            let off = seq![seq![markers::VISUAL_MODE_END]];
            &&& r < s.row || r > e.row ==> m[r] == row
            &&& r == s.row ==> m[r] == row.take(s.col as int) + on + row.skip(s.col as int) + off
            &&& s.row < r < e.row ==> m[r] == on + row + off
            &&& r == e.row ==> m[r] == on + row.take(e.col + 1) + off + row.skip(e.col + 1)
        }),
{
    let (c, p) = if back {
        (s, e)
    } else {
        (e, s)
    };
    let m = render::marked(t, c, Some(SelectMode::Char(p)));
    let row = t[r];
    let on = seq![seq![markers::VISUAL_MODE_START]];
    let off = seq![seq![markers::VISUAL_MODE_END]];
    if r == s.row {
        assert(m[r] =~= row.take(s.col as int) + on + row.skip(s.col as int) + off);
    }
    if s.row < r < e.row {
        assert(m[r] =~= on + row + off);
    }
    if r == e.row {
        assert(m[r] =~= on + row.take(e.col + 1) + off + row.skip(e.col + 1));
    }
}

/// Selected lines are marked from the start of each on, up to the end of the last.
pub proof fn selected_lines_are_marked(t: Text, r: int, a: Pos, b: Pos)
    requires
        0 <= r < t.len(),
        a.row <= b.row,
    ensures
        ({
            let m = render::marked(t, b, Some(SelectMode::Line(a)));
            let n = render::marked(t, a, Some(SelectMode::Line(b)));
            let on = seq![seq![markers::VISUAL_MODE_START]];
            let off = seq![seq![markers::VISUAL_MODE_END]];
            &&& m[r] == n[r]
            &&& r < a.row || r > b.row ==> m[r] == t[r]
            &&& a.row <= r < b.row ==> m[r] == on + t[r]
            &&& r == b.row ==> m[r] == on + t[r] + off
        }),
{
    let m = render::marked(t, b, Some(SelectMode::Line(a)));
    let on = seq![seq![markers::VISUAL_MODE_START]];
    let off = seq![seq![markers::VISUAL_MODE_END]];
    if a.row <= r < b.row {
        assert(m[r] =~= on + t[r]);
    }
    if r == b.row {
        assert(m[r] =~= on + t[r] + off);
    }
}

/// A shell command puts the cursor at a row and a column, or at a place; anything else
/// leaves it where it is.
pub proof fn places_are_read(row: nat, col: nat, s: Seq<char>)
    requires
        row <= usize::MAX,
        col <= usize::MAX,
    ensures
        render::placed(text::decimal(row) + seq![':'] + text::decimal(col)) == Placed::At(
            Pos { row: row as usize, col: col as usize },
        ),
        render::placed(text::decimal(row)) == Placed::Flat(row as usize),
        text::parsed_usize(s) is None && !s.contains(':') ==> render::placed(s) == Placed::Kept,
{
    let a = text::decimal(row);
    let b = text::decimal(col);
    text::decimal_reads_back(row);
    text::decimal_reads_back(col);
    assert(unicode::ascii_digit(a[0]));
    assert(unicode::ascii_digit(b[0]));
    assert(text::parsed_usize(a) == Some(row as usize));
    assert(text::parsed_usize(b) == Some(col as usize));
    let t = a + seq![':'] + b;
    assert forall|j: int| 0 <= j < a.len() implies (#[trigger] t[j]) != ':' by {
        assert(t[j] == a[j]);
        assert(unicode::ascii_digit(a[j]));
    }
    lemma_found(t, a.len() as int, 0);
    assert(t.take(a.len() as int) =~= a);
    assert(t.skip(a.len() as int + 1) =~= b);
    assert forall|j: int| 0 <= j < a.len() implies (#[trigger] a[j]) != ':' by {
        assert(unicode::ascii_digit(a[j]));
    }
    lemma_not_found(a, 0);
    if !s.contains(':') {
        assert forall|j: int| 0 <= j < s.len() implies (#[trigger] s[j]) != ':' by {
            assert(s.contains(s[j]));
        }
        lemma_not_found(s, 0);
    }
}

proof fn lemma_found(s: Seq<char>, k: int, i: int)
    requires
        0 <= i <= k < s.len(),
        s[k] == ':',
        forall|j: int| 0 <= j < k ==> (#[trigger] s[j]) != ':',
    ensures
        text::found_from(s, seq![':'], i) == Some(k),
    decreases k - i,
{
    let p = seq![':'];
    if i < k {
        assert(s.skip(i).take(1)[0] == s[i]);
        assert(p[0] == ':');
        lemma_found(s, k, i + 1);
    } else {
        assert(s.skip(i).take(1) =~= p);
    }
}

proof fn lemma_not_found(s: Seq<char>, i: int)
    requires
        0 <= i,
        forall|j: int| 0 <= j < s.len() ==> (#[trigger] s[j]) != ':',
    ensures
        text::found_from(s, seq![':'], i) is None,
    decreases s.len() - i + 1,
{
    let p = seq![':'];
    if i <= s.len() {
        if text::has_prefix(s.skip(i), p) {
            assert(s.skip(i).take(1)[0] == s[i]);
            assert(p[0] == ':');
        }
        lemma_not_found(s, i + 1);
    }
}

/// Every block that a keyword opens is closed by the keyword that ends it, and the blocks
/// around it stay open. It makes what is in it one deeper.
pub proof fn blocks_are_closed(n: Nest, a: usize, b: usize)
    ensures
        depth::keyword_step(depth::keyword_step(n, "if"@, a), "fi"@, b).0 == n.0,
        depth::keyword_step(depth::keyword_step(n, "for"@, a), "done"@, b).0 == n.0,
        depth::keyword_step(depth::keyword_step(n, "while"@, a), "done"@, b).0 == n.0,
        depth::keyword_step(depth::keyword_step(n, "until"@, a), "done"@, b).0 == n.0,
        depth::keyword_step(depth::keyword_step(n, "select"@, a), "done"@, b).0 == n.0,
        depth::keyword_step(depth::keyword_step(n, "case"@, a), "esac"@, b).0 == n.0,
        depth::operator_step(depth::operator_step(n, "{"@, a), "}"@, b).0 == n.0,
        !depth::on_top(n, Opener::Case) ==> depth::operator_step(
            depth::operator_step(n, "("@, a),
            ")"@,
            b,
        ).0 == n.0,
        depth::keyword_step(n, "if"@, a).0.len() == n.0.len() + 1,
        depth::keyword_step(n, "case"@, a).0.len() == n.0.len() + 1,
        depth::keyword_step(n, "while"@, a).1 == n.1.push(DepthEvent { at: a, deeper: true }),
        depth::operator_step(n, "{"@, a).1 == n.1.push(DepthEvent { at: a, deeper: true }),
{
    lemma_keywords();
    let c = depth::keyword_step(n, "case"@, a);
    assert(c.0.drop_last() =~= n.0);
    assert(n.0.push(Opener::If).drop_last() =~= n.0);
    assert(n.0.push(Opener::For).drop_last() =~= n.0);
    assert(n.0.push(Opener::Loop).drop_last() =~= n.0);
    assert(n.0.push(Opener::Select).drop_last() =~= n.0);
    assert(n.0.push(Opener::Case).drop_last() =~= n.0);
    assert(n.0.push(Opener::Brace).drop_last() =~= n.0);
    assert(n.0.push(Opener::Paren).drop_last() =~= n.0);
}

/// A keyword that ends a block of another kind closes nothing.
pub proof fn other_keywords_close_nothing(n: Nest, at: usize)
    ensures
        depth::on_top(n, Opener::If) ==> depth::keyword_step(n, "done"@, at) == n,
        depth::on_top(n, Opener::Loop) ==> depth::keyword_step(n, "fi"@, at) == n,
        depth::on_top(n, Opener::For) ==> depth::keyword_step(n, "esac"@, at) == n,
        depth::on_top(n, Opener::If) ==> depth::operator_step(n, "}"@, at) == n,
        n.0.len() == 0 ==> depth::keyword_step(n, "fi"@, at) == n && depth::keyword_step(
            n,
            "done"@,
            at,
        ) == n && depth::keyword_step(n, "esac"@, at) == n,
        depth::keyword_step(n, "then"@, at) == n,
        depth::keyword_step(n, "do"@, at) == n,
{
    lemma_keywords();
}

proof fn lemma_keywords()
    ensures
        depth::opens("fi"@) is None && depth::opens("done"@) is None && depth::opens("esac"@) is None,
        depth::opens("then"@) is None && depth::opens("do"@) is None,
        "fi"@ != "esac"@ && "done"@ != "esac"@ && "fi"@ != "done"@,
        "then"@ != "esac"@ && "do"@ != "esac"@ && "then"@ != "fi"@ && "do"@ != "fi"@ && "then"@
            != "done"@ && "do"@ != "done"@,
        "case"@ != "if"@ && "for"@ != "if"@ && "for"@ != "case"@,
        "while"@ != "if"@ && "while"@ != "case"@ && "while"@ != "for"@,
        "until"@ != "if"@ && "until"@ != "case"@ && "until"@ != "for"@,
        "select"@ != "if"@ && "select"@ != "case"@ && "select"@ != "for"@ && "select"@ != "while"@
            && "select"@ != "until"@,
        "}"@ != "{"@ && "}"@ != "("@ && ")"@ != "{"@ && ")"@ != "("@ && ")"@ != "}"@ && "("@
            != "{"@,
{
    reveal_strlit("if");
    reveal_strlit("fi");
    reveal_strlit("case");
    reveal_strlit("esac");
    reveal_strlit("for");
    reveal_strlit("while");
    reveal_strlit("until");
    reveal_strlit("select");
    reveal_strlit("done");
    reveal_strlit("then");
    reveal_strlit("do");
    reveal_strlit("{");
    reveal_strlit("}");
    reveal_strlit("(");
    reveal_strlit(")");
    assert("if"@[0] == 'i' && "if"@[1] == 'f' && "fi"@[0] == 'f' && "fi"@[1] == 'i');
    assert("case"@[0] == 'c' && "esac"@[0] == 'e' && "for"@[0] == 'f' && "for"@[1] == 'o');
    assert("while"@[0] == 'w' && "until"@[0] == 'u' && "select"@[0] == 's' && "done"@[0] == 'd');
    assert("then"@[0] == 't' && "do"@[0] == 'd' && "do"@.len() == 2 && "done"@.len() == 4);
    assert("{"@[0] == '{' && "}"@[0] == '}' && "("@[0] == '(' && ")"@[0] == ')');
}

/// The depth at a place is how many of the blocks that open before it are not closed
/// before it: one that opens adds one, one that closes takes one away, and what is not
/// before the place does not count.
pub proof fn depths_add_up(ev: Seq<DepthEvent>, e: DepthEvent, at: int)
    ensures
        depth::depth_sum(Seq::empty(), at) == 0,
        e.at >= at ==> depth::depth_sum(ev.push(e), at) == depth::depth_sum(ev, at),
        e.at < at && e.deeper ==> depth::depth_sum(ev.push(e), at) == depth::depth_sum(ev, at) + 1,
        e.at < at && !e.deeper ==> depth::depth_sum(ev.push(e), at) == depth::depth_sum(ev, at)
            - 1,
        depth::depth_at(ev, at) >= 0,
        depth::depth_sum(ev, at) >= 0 ==> depth::depth_at(ev, at) == depth::depth_sum(ev, at),
{
    assert(ev.push(e).drop_last() =~= ev);
}

proof fn lemma_zeros(k: nat, radix: nat)
    requires
        2 <= radix <= 36,
    ensures
        numbers::magnitude(text::repeated('0', k), radix) == Some(0nat),
    decreases k,
{
    let z = text::repeated('0', k);
    if k > 0 {
        lemma_zeros((k - 1) as nat, radix);
        assert(z.drop_last() =~= text::repeated('0', (k - 1) as nat));
        assert(z.last() == '0');
        assert(0 * radix == 0) by (nonlinear_arith);
    }
}

proof fn lemma_padded(k: nat, s: Seq<char>, radix: nat)
    requires
        2 <= radix <= 36,
    ensures
        numbers::magnitude(text::repeated('0', k) + s, radix) == numbers::magnitude(s, radix),
    decreases s.len(),
{
    let z = text::repeated('0', k);
    if s.len() > 0 {
        lemma_padded(k, s.drop_last(), radix);
        assert((z + s).drop_last() =~= z + s.drop_last());
        assert((z + s).last() == s.last());
    } else {
        lemma_zeros(k, radix);
        assert(z + s =~= z);
    }
}

proof fn lemma_in_radix(n: nat, radix: nat)
    requires
        2 <= radix <= 36,
    ensures
        numbers::magnitude(numbers::in_radix(n, radix), radix) == Some(n),
        numbers::in_radix(n, radix).len() > 0,
        numbers::in_radix(n, radix)[0] != '-' && numbers::in_radix(n, radix)[0] != '+',
    decreases n,
{
    let s = numbers::in_radix(n, radix);
    if n < radix {
        assert(s.drop_last() =~= Seq::<char>::empty());
        assert(numbers::magnitude(s.drop_last(), radix) == Some(0nat));
        assert(s.last() == numbers::radix_char(n));
        assert(0 * radix == 0) by (nonlinear_arith);
    } else {
        assert(n / radix < n) by (nonlinear_arith)
            requires
                radix >= 2,
                n >= radix,
        ;
        assert(n == (n / radix) * radix + n % radix && n % radix < radix) by (nonlinear_arith)
            requires
                radix >= 2,
        ;
        lemma_in_radix(n / radix, radix);
        let p = numbers::in_radix(n / radix, radix);
        assert(s.drop_last() =~= p);
        assert(s.last() == numbers::radix_char(n % radix));
        assert(s[0] == p[0]);
    }
}

/// A number that something is added to reads as the sum, with at least as many digits as
/// it had. `n` is the number that is written.
pub proof fn sums_read_back(word: Seq<char>, n: int, by: int)
    requires
        numbers::radix_prefix(word) is None,
        numbers::read_i64(word, 10) == Some(n),
    ensures
        i64::MIN <= n + by <= i64::MAX ==> {
            &&& numbers::added(word, by) is Some
            &&& numbers::read_i64(numbers::added(word, by)->0, 10) == Some(n + by)
            &&& (n + by < 0 <==> (numbers::added(word, by)->0)[0] == '-')
        },
        !(i64::MIN <= n + by <= i64::MAX) ==> numbers::added(word, by) is None,
{
    let sum = n + by;
    if i64::MIN <= sum <= i64::MAX {
        let digits = if n < 0 {
            word.len() - 1
        } else {
            word.len() as int
        };
        let m: nat = if sum < 0 {
            (-sum) as nat
        } else {
            sum as nat
        };
        lemma_in_radix(m, 10);
        let s = numbers::in_radix(m, 10);
        let p = numbers::padded(s, digits);
        if s.len() < digits {
            lemma_padded((digits - s.len()) as nat, s, 10);
            assert(p[0] == '0');
        }
        assert(numbers::magnitude(p, 10) == Some(m));
        if sum < 0 {
            assert((seq!['-'] + p).skip(1) =~= p);
        }
    }
}

/// A number with the prefix of a radix keeps it and reads as the sum in that radix, where
/// the sum is not negative.
pub proof fn sums_keep_their_radix(c: char, body: Seq<char>, n: int, by: int, radix: nat)
    requires
        radix == 16 && c == 'x' || radix == 8 && c == 'o' || radix == 2 && c == 'b',
        numbers::read_i64(body, radix) == Some(n),
        0 <= n + by <= i64::MAX,
    ensures
        ({
            let r = numbers::added(seq!['0', c] + body, by);
            &&& r is Some
            &&& r->0.len() >= 2 && r->0[0] == '0' && r->0[1] == c
            &&& numbers::read_i64(r->0.skip(2), radix) == Some(n + by)
            &&& r->0.len() >= 2 + body.len()
        }),
{
    let word = seq!['0', c] + body;
    assert(word[0] == '0' && word[1] == c);
    assert(word.skip(2) =~= body);
    assert(word.take(2) =~= seq!['0', c]);
    let m = (n + by) as nat;
    lemma_in_radix(m, radix);
    let s = numbers::in_radix(m, radix);
    let p = numbers::padded(s, body.len() as int);
    if s.len() < body.len() {
        lemma_padded((body.len() - s.len()) as nat, s, radix);
        assert(p[0] == '0');
    }
    assert((seq!['0', c] + p).skip(2) =~= p);
}

/// Entries that are joined have an and between them with shift, and else a semicolon.
pub proof fn entries_are_joined_by_their_sign()
    ensures
        browse::joiner(true) == seq![' ', '&', '&', ' '],
        browse::joiner(false) == seq![';', ' '],
{
    reveal_strlit(" && ");
    reveal_strlit("; ");
    assert(" && "@ =~= seq![' ', '&', '&', ' ']);
    assert("; "@ =~= seq![';', ' ']);
}

/// A command that is joined on the left comes before the buffer with the separator between
/// them, on the right behind it; the buffer's own text stays but for the whitespace where
/// they meet. Where the buffer ends with the separator none comes in.
pub proof fn joined_commands_stand_beside(t: Text, sep: Seq<char>, other: Seq<char>)
    requires
        t.len() == 1,
        lines::lines_of(other).len() == 1,
        !text::has_suffix(text::trimmed_right(lines::text_chars(t)), text::trimmed(sep)),
    ensures
        lines::attached(concat::left_part(t, sep, other), concat::kept_right(t)) == seq![
            lines::lines_of(other)[0] + unicode::clusters(sep) + line::trimmed_start(t[0]),
        ],
        lines::attached(concat::kept_left(t), concat::right_part(t, sep, other)) == seq![
            line::trimmed_end(t[0]) + unicode::clusters(sep) + lines::lines_of(other)[0],
        ],
{
    let o = lines::lines_of(other)[0];
    let c = unicode::clusters(sep);
    let l = concat::left_part(t, sep, other);
    assert(l =~= seq![o + c]);
    let k = concat::kept_right(t);
    assert(k =~= seq![line::trimmed_start(t[0])]);
    assert(lines::attached(l, k) =~= seq![o + c + line::trimmed_start(t[0])]);
    let a = concat::kept_left(t);
    assert(a =~= seq![line::trimmed_end(t[0])]);
    let r = concat::right_part(t, sep, other);
    assert(r =~= seq![c + o]);
    assert(line::trimmed_end(t[0]) + (c + o) =~= line::trimmed_end(t[0]) + c + o);
    assert(lines::attached(a, r) =~= seq![line::trimmed_end(t[0]) + c + o]);
}

/// The places of a text are counted row by row, the break behind each row as one.
pub proof fn places_count_rows(t: Text, p: Pos)
    requires
        word_laws::countable(t),
        p.row < t.len(),
        p.col <= t[p.row as int].len(),
    ensures
        render::flat_of(t, p) == lines::places(t.take(p.row as int)) + p.col,
        p.row > 0 ==> lines::places(t.take(p.row as int)) == lines::places(
            t.take(p.row - 1),
        ) + t[p.row - 1].len() + 1,
        lines::places(t.take(0)) == 0,
        buffer::unflat(t, 0) == (Pos { row: 0, col: 0 }),
{
    assert(t.take(0) =~= Seq::empty());
    if p.row > 0 {
        let u = t.take(p.row as int);
        assert(u.drop_last() =~= t.take(p.row - 1));
        assert(u.last() == t[p.row - 1]);
    }
}

/// What a subshell or a substitution leaves open ends with it; a list in brackets is one
/// level deeper inside; other tokens without parts change nothing.
pub proof fn tokens_have_their_depth(tk: CtxTk, n: Nest)
    requires
        tk.sub_tokens@.len() == 0,
    ensures
        depth::own_scope(tk.class) ==> depth::token_step(tk, n) == n,
        tk.class == CtxTkRule::Subshell || tk.class == CtxTkRule::CmdSub ==> depth::own_scope(
            tk.class,
        ),
        tk.class == CtxTkRule::ArrayLiteral && tk.text@.len() > 0 && tk.text@.last() == ')'
            && tk.span.end > 0 ==> depth::token_step(tk, n) == (
            n.0,
            n.1 + seq![
                DepthEvent { at: tk.span.start, deeper: true },
                DepthEvent { at: (tk.span.end - 1) as usize, deeper: false },
            ],
        ),
        tk.class == CtxTkRule::ArrayLiteral && tk.text@.len() > 0 && tk.text@.last() != ')'
            ==> depth::token_step(tk, n) == (
            n.0,
            n.1 + seq![DepthEvent { at: tk.span.start, deeper: true }],
        ),
        tk.class == CtxTkRule::Argument || tk.class == CtxTkRule::Comment ==> depth::token_step(
            tk,
            n,
        ) == n,
{
    let none = Seq::<Opener>::empty();
    let s = tk.sub_tokens@;
    assert(depth::tokens_walked(s, 0, (none, n.1)) == (none, n.1));
    assert(depth::ended(n.1, 0, tk.span.end) =~= n.1);
    let d = n.1.push(DepthEvent { at: tk.span.start, deeper: true });
    assert(depth::ended(d, 0, tk.span.end) =~= d);
    assert(d =~= n.1 + seq![DepthEvent { at: tk.span.start, deeper: true }]);
    if tk.span.end > 0 {
        let e = DepthEvent { at: (tk.span.end - 1) as usize, deeper: false };
        assert(d.push(e) =~= n.1 + seq![DepthEvent { at: tk.span.start, deeper: true }, e]);
    }
}

/// The graphemes of a text are gone through row by row, each with its place.
pub proof fn graphemes_have_their_places(t: Text, r: int, c: int)
    requires
        0 <= r < t.len(),
        0 <= c < t[r].len(),
        word_laws::countable(t),
    ensures
        ({
            let a = render::all_positions(t, r);
            let b = render::all_positions(t, r + 1);
            &&& b.len() == a.len() + t[r].len()
            &&& b.take(a.len() as int) == a
            &&& b[a.len() + c] == (Pos { row: r as usize, col: c as usize }, t[r][c])
        }),
{
    let a = render::all_positions(t, r);
    let b = render::all_positions(t, r + 1);
    assert(b.take(a.len() as int) =~= a);
}

/// The bytes before the cursor are those of the rows above, with a break behind each, and of
/// what stands before it in its row.
pub proof fn bytes_before_the_cursor(t: Text, p: Pos)
    requires
        p.row < t.len(),
        p.col <= t[p.row as int].len(),
        unicode::clusters(unicode::joined(t[p.row as int])) == t[p.row as int],
    ensures
        render::byte_pos(t, p) == render::bytes_above(t, p.row as int) + text::byte_len(
            unicode::joined(t[p.row as int].take(p.col as int)),
        ),
        p.row == 0 ==> render::bytes_above(t, p.row as int) == 0,
        p.row > 0 ==> render::bytes_above(t, p.row as int) == render::bytes_above(t, p.row - 1)
            + text::byte_len(unicode::joined(t[p.row - 1])) + 1,
{
}

proof fn lemma_no_linefeeds(s: Seq<char>, piece: Seq<char>)
    requires
        !s.contains('\n'),
    ensures
        render::after_linefeeds(s, piece) == s,
    decreases s.len(),
{
    if s.len() > 0 {
        assert(s.contains(s[s.len() - 1]));
        assert(!s.drop_last().contains('\n')) by {
            if s.drop_last().contains('\n') {
                let i = choose|i: int| 0 <= i < s.len() - 1 && s[i] == '\n';
                assert(s.contains(s[i]));
            }
        }
        lemma_no_linefeeds(s.drop_last(), piece);
        assert(s.drop_last().push(s.last()) =~= s);
    }
}

/// A hint of one row is shown dimmed, from its start to its end.
pub proof fn hints_are_dimmed(h: Text)
    requires
        !lines::text_chars(h).contains('\n'),
    ensures
        render::styled_hint(Some(h)) == seq!['\u{1b}', '[', '9', '0', 'm'] + lines::text_chars(h)
            + seq!['\u{1b}', '[', '0', 'm'],
        render::styled_hint(None) == Seq::<char>::empty(),
{
    reveal_strlit("\x1b[90m");
    reveal_strlit("\x1b[0m");
    let on = seq!['\u{1b}', '[', '9', '0', 'm'];
    let off = seq!['\u{1b}', '[', '0', 'm'];
    assert("\x1b[90m"@ =~= on);
    assert("\x1b[0m"@ =~= off);
    let c = lines::text_chars(h);
    let s = on + c + off;
    assert(!s.contains('\n')) by {
        if s.contains('\n') {
            let i = choose|i: int| 0 <= i < s.len() && s[i] == '\n';
            assert(5 <= i < 5 + c.len() ==> c.contains(c[i - 5]));
        }
    }
    lemma_no_linefeeds(s, on);
}

} // verus!
