//! Line breaking: fill, balance and hang
//!
//! Each algorithm walks the tokens from left to right and decides at
//! each break candidate whether to end the line there.  The line
//! ranges it settles on are stated by a spec function, and the lines
//! returned are the lines made of those ranges.

use vstd::prelude::*;

use crate::document::INDENT;
use crate::text::tokens::{spaces, TokenType};
use crate::text::{lemma_line_width, lemma_segments_of_width, segments_width, lemma_width_split, line_of, line_of_range, plain_segment, width_range, Line, Segment};

verus! {

/// Whether a line may or must be broken at the token
pub open spec fn is_break(t: TokenType) -> bool {
    t.frm_view().mlb || t.frm_view().dlb
}

/// Lookahead from token `j` with `u` characters already taken: adds
/// the widths up to the next break candidate, which counts too unless
/// it is dropped when broken at, and tells whether the sum is within `w`
pub open spec fn fits_from(toks: Seq<TokenType>, w: int, j: int, u: int) -> bool
    decreases toks.len() - j,
{
    if j >= toks.len() {
        u <= w
    } else {
        let f = toks[j].frm_view();
        if f.mlb {
            u <= w
        } else if f.dlb {
            if f.dob {
                u <= w
            } else {
                u + toks[j].width() <= w
            }
        } else {
            fits_from(toks, w, j + 1, u + toks[j].width())
        }
    }
}

/// Whether the text from token `i` up to the next break candidate fits
/// on a line that already holds `x` characters
pub open spec fn word_fits(toks: Seq<TokenType>, w: int, i: int, x: int) -> bool {
    fits_from(toks, w, i + 1, x + toks[i].width())
}

/// The range `[a, j)` if it is not empty
pub open spec fn emit(a: int, j: int) -> Seq<(int, int)> {
    if j > a {
        seq![(a, j)]
    } else {
        Seq::empty()
    }
}

/// The end of the line when it is broken at token `i`: the token is
/// kept unless it is dropped on a break
pub open spec fn break_end(toks: Seq<TokenType>, i: int) -> int {
    if toks[i].frm_view().dob {
        i
    } else {
        i + 1
    }
}

/// Greedy line ranges: the current line started at `a` and holds `x`
/// characters before token `i`.  A mandatory break always ends the
/// line; a discretionary break ends it when the lookahead does not fit.
/// The budget is `w0` until the first break and `w1` after it.
pub open spec fn greedy_from(
    toks: Seq<TokenType>,
    w0: int,
    w1: int,
    broken: bool,
    a: int,
    i: int,
    x: int,
) -> Seq<(int, int)>
    decreases toks.len() - i,
{
    if i >= toks.len() {
        emit(a, toks.len() as int)
    } else {
        let f = toks[i].frm_view();
        let w = if broken {
            w1
        } else {
            w0
        };
        if f.mlb {
            emit(a, i) + greedy_from(toks, w0, w1, true, i + 1, i + 1, 0)
        } else if f.dlb && !word_fits(toks, w, i, x) {
            emit(a, break_end(toks, i)) + greedy_from(toks, w0, w1, true, i + 1, i + 1, 0)
        } else {
            greedy_from(toks, w0, w1, broken, a, i + 1, x + toks[i].width())
        }
    }
}

/// Line ranges of the fill algorithm with budget `w`
pub open spec fn fill_ranges(toks: Seq<TokenType>, w: int) -> Seq<(int, int)> {
    greedy_from(toks, w, w, false, 0, 0, 0)
}

/// Budget of the lines after the first in a hanging paragraph: the
/// indent is taken off, but the budget stays at least 1
pub open spec fn hang_width(w: int) -> int {
    if w > INDENT {
        w - INDENT
    } else {
        1
    }
}

/// Line ranges of the hang algorithm with first-line budget `w`
pub open spec fn hang_ranges(toks: Seq<TokenType>, w: int) -> Seq<(int, int)> {
    greedy_from(toks, w, hang_width(w), false, 0, 0, 0)
}

/// Balanced line ranges: a discretionary break ends the line once the
/// line would reach the cutoff `c`
pub open spec fn balance_from(toks: Seq<TokenType>, c: int, a: int, i: int, x: int) -> Seq<(int, int)>
    decreases toks.len() - i,
{
    if i >= toks.len() {
        emit(a, toks.len() as int)
    } else {
        let f = toks[i].frm_view();
        if f.mlb {
            emit(a, i) + balance_from(toks, c, i + 1, i + 1, 0)
        } else if f.dlb && x + toks[i].width() >= c {
            emit(a, break_end(toks, i)) + balance_from(toks, c, i + 1, i + 1, 0)
        } else {
            balance_from(toks, c, a, i + 1, x + toks[i].width())
        }
    }
}

/// The per-line cutoff of the balance algorithm: the total width split
/// evenly over `L / w + 1` lines
pub open spec fn balance_cutoff(toks: Seq<TokenType>, w: int) -> int {
    let l = width_range(toks, 0, toks.len() as int) as int;
    l / (l / w + 1)
}

/// Line ranges of the balance algorithm with budget `w`
pub open spec fn balance_ranges(toks: Seq<TokenType>, w: int) -> Seq<(int, int)> {
    balance_from(toks, balance_cutoff(toks, w), 0, 0, 0)
}

/// Whether `lines` are the lines made of the token ranges `rs`
pub open spec fn lines_of(lines: Seq<Line>, toks: Seq<TokenType>, rs: Seq<(int, int)>) -> bool {
    &&& lines.len() == rs.len()
    &&& forall|k: int| 0 <= k < rs.len() ==> #[trigger] line_of(lines[k], toks, rs[k].0, rs[k].1)
}

/// Whether `lines` are the lines made of the token ranges `rs`, each
/// line after the first led by a segment of `INDENT` spaces
pub open spec fn hanging_lines_of(lines: Seq<Line>, toks: Seq<TokenType>, rs: Seq<(int, int)>) -> bool {
    &&& lines.len() == rs.len()
    &&& rs.len() > 0 ==> line_of(lines[0], toks, rs[0].0, rs[0].1)
    &&& forall|k: int|
        0 < k < rs.len() ==> {
            &&& (#[trigger] lines[k]).column == 0
            &&& lines[k].segments@.len() > 0
            &&& plain_segment(lines[k].segments@[0], spaces(INDENT as nat))
            &&& crate::text::segments_of(lines[k].segments@.drop_first(), toks, rs[k].0, rs[k].1)
            &&& crate::text::labels_of(lines[k].note_refs@, toks, rs[k].0, rs[k].1)
        }
}

/// Whether the token range `[a, b)` holds no break candidate but
/// possibly its last token: a single unit that cannot be broken
pub open spec fn unbreakable(toks: Seq<TokenType>, a: int, b: int) -> bool {
    forall|t: int| a <= t < b - 1 ==> !is_break(#[trigger] toks[t])
}

/// Whether a non-empty line range is within the budget or is a single
/// unbreakable unit
pub open spec fn within_budget(toks: Seq<TokenType>, w: int, r: (int, int)) -> bool {
    &&& r.0 < r.1
    &&& width_range(toks, r.0, r.1) <= w || unbreakable(toks, r.0, r.1)
}

proof fn lemma_greedy_within(toks: Seq<TokenType>, w0: int, w1: int, broken: bool, a: int, i: int, x: int)
    requires
        0 <= a <= i <= toks.len(),
        x == width_range(toks, a, i),
        (forall|t: int| a <= t < i ==> !is_break(#[trigger] toks[t])) || fits_from(
            toks,
            if broken {
                w1
            } else {
                w0
            },
            i,
            x,
        ),
    ensures
        forall|k: int|
            0 <= k < greedy_from(toks, w0, w1, broken, a, i, x).len() ==> {
                ||| within_budget(toks, w1, #[trigger] greedy_from(toks, w0, w1, broken, a, i, x)[k])
                ||| k == 0 && !broken && within_budget(toks, w0, greedy_from(toks, w0, w1, broken, a, i, x)[k])
            },
    decreases toks.len() - i,
{
    let r = greedy_from(toks, w0, w1, broken, a, i, x);
    let w = if broken {
        w1
    } else {
        w0
    };
    if i >= toks.len() {
        assert forall|k: int| 0 <= k < r.len() implies within_budget(toks, w1, #[trigger] r[k]) || (k == 0
            && !broken && within_budget(toks, w0, r[k])) by {
            assert(r[k] == (a, toks.len() as int));
            assert(within_budget(toks, w, r[k]));
        }
    } else {
        let f = toks[i].frm_view();
        let rest = greedy_from(toks, w0, w1, true, i + 1, i + 1, 0);
        if f.mlb || (f.dlb && !word_fits(toks, w, i, x)) {
            let j = if f.mlb {
                i
            } else {
                break_end(toks, i)
            };
            assert(width_range(toks, i + 1, i + 1) == 0);
            lemma_greedy_within(toks, w0, w1, true, i + 1, i + 1, 0);
            assert(r == emit(a, j) + rest);
            assert forall|k: int| 0 <= k < r.len() implies within_budget(toks, w1, #[trigger] r[k]) || (k == 0
                && !broken && within_budget(toks, w0, r[k])) by {
                assert(r[k] == (emit(a, j) + rest)[k]);
                if k < emit(a, j).len() {
                    assert(r[k] == (a, j));
                    if !(forall|t: int| a <= t < i ==> !is_break(#[trigger] toks[t])) {
                        assert(width_range(toks, a, i + 1) == x + toks[i].width());
                    }
                    assert(within_budget(toks, w, r[k]));
                } else {
                    assert(r[k] == rest[k - emit(a, j).len()]);
                    assert(within_budget(toks, w1, rest[k - emit(a, j).len()]));
                }
            }
        } else {
            lemma_greedy_within(toks, w0, w1, broken, a, i + 1, x + toks[i].width());
            assert(r == greedy_from(toks, w0, w1, broken, a, i + 1, x + toks[i].width()));
        }
    }
}

/// Every line range of the fill algorithm is within the budget, unless
/// it is a single unbreakable unit wider than the budget.
pub proof fn lemma_fill_ranges_within_budget(toks: Seq<TokenType>, w: int)
    ensures
        forall|k: int|
            0 <= k < fill_ranges(toks, w).len() ==> within_budget(toks, w, #[trigger] fill_ranges(toks, w)[k]),
{
    lemma_greedy_within(toks, w, w, false, 0, 0, 0);
}

/// Fill never exceeds the budget except for unbreakable units: every
/// line it makes is at most `w` characters wide, unless its tokens hold
/// no break candidate but the last one.
pub proof fn lemma_fill_within_budget(toks: Seq<TokenType>, w: int, lines: Seq<Line>)
    requires
        lines_of(lines, toks, fill_ranges(toks, w)),
    ensures
        forall|k: int|
            0 <= k < lines.len() ==> (#[trigger] lines[k]).width() <= w
                || unbreakable(toks, fill_ranges(toks, w)[k].0, fill_ranges(toks, w)[k].1),
{
    let rs = fill_ranges(toks, w);
    lemma_fill_ranges_within_budget(toks, w);
    assert forall|k: int| 0 <= k < lines.len() implies (#[trigger] lines[k]).width() <= w
        || unbreakable(toks, rs[k].0, rs[k].1) by {
        assert(within_budget(toks, w, rs[k]));
        assert(line_of(lines[k], toks, rs[k].0, rs[k].1));
        lemma_line_width(lines[k], toks, rs[k].0, rs[k].1);
    }
}

/// Whether a balanced line range `[a, b)` is balanced against the cutoff
/// `c`: at every discretionary break inside it the line was still short
/// of the cutoff, and unless it is the last line or ends at a mandatory
/// break, it reaches the cutoff counting the break that ends it.
pub open spec fn balanced(toks: Seq<TokenType>, c: int, r: (int, int)) -> bool {
    let (a, b) = r;
    &&& 0 <= a < b <= toks.len()
    &&& forall|t: int| a <= t < b - 1 && (#[trigger] toks[t].frm_view()).dlb ==> width_range(toks, a, t + 1) < c
    &&& {
        ||| b == toks.len()
        ||| toks[b].frm_view().mlb
        ||| toks[b].frm_view().dlb && toks[b].frm_view().dob && width_range(toks, a, b + 1) >= c
        ||| toks[b - 1].frm_view().dlb && !toks[b - 1].frm_view().dob && width_range(toks, a, b) >= c
    }
}

proof fn lemma_balance_from(toks: Seq<TokenType>, c: int, a: int, i: int, x: int)
    requires
        0 <= a <= i <= toks.len(),
        x == width_range(toks, a, i),
        forall|t: int| a <= t < i && (#[trigger] toks[t].frm_view()).dlb ==> width_range(toks, a, t + 1) < c,
    ensures
        forall|k: int|
            0 <= k < balance_from(toks, c, a, i, x).len()
                ==> balanced(toks, c, #[trigger] balance_from(toks, c, a, i, x)[k]),
    decreases toks.len() - i,
{
    let r = balance_from(toks, c, a, i, x);
    if i >= toks.len() {
        assert forall|k: int| 0 <= k < r.len() implies balanced(toks, c, #[trigger] r[k]) by {
            assert(r[k] == (a, toks.len() as int));
        }
    } else {
        let f = toks[i].frm_view();
        let rest = balance_from(toks, c, i + 1, i + 1, 0);
        if f.mlb || (f.dlb && x + toks[i].width() >= c) {
            let j = if f.mlb {
                i
            } else {
                break_end(toks, i)
            };
            assert(width_range(toks, i + 1, i + 1) == 0);
            lemma_balance_from(toks, c, i + 1, i + 1, 0);
            assert(r == emit(a, j) + rest);
            assert forall|k: int| 0 <= k < r.len() implies balanced(toks, c, #[trigger] r[k]) by {
                assert(r[k] == (emit(a, j) + rest)[k]);
                if k < emit(a, j).len() {
                    assert(r[k] == (a, j));
                    assert(width_range(toks, a, i + 1) == x + toks[i].width());
                } else {
                    assert(r[k] == rest[k - emit(a, j).len()]);
                }
            }
        } else {
            assert(width_range(toks, a, i + 1) == x + toks[i].width());
            lemma_balance_from(toks, c, a, i + 1, x + toks[i].width());
            assert(r == balance_from(toks, c, a, i + 1, x + toks[i].width()));
        }
    }
}

/// Balanced lines are even against the cutoff: every line of the balance
/// algorithm stays short of the cutoff at each discretionary break inside
/// it, and every line but the last, and those ended by a mandatory break,
/// reaches the cutoff counting the break that ends it.
pub proof fn lemma_balance_lines_even(toks: Seq<TokenType>, w: int)
    ensures
        forall|k: int|
            0 <= k < balance_ranges(toks, w).len() ==> balanced(
                toks,
                balance_cutoff(toks, w),
                #[trigger] balance_ranges(toks, w)[k],
            ),
{
    lemma_balance_from(toks, balance_cutoff(toks, w), 0, 0, 0);
}

/// Hanging lines keep to their budgets: the first line is at most `w`
/// characters wide and every later line, after its indent, at most the
/// reduced budget `hang_width(w)`, unless the line is a single
/// unbreakable unit.
pub proof fn lemma_hang_within_budget(toks: Seq<TokenType>, w: int, lines: Seq<Line>)
    requires
        w >= 1,
        hanging_lines_of(lines, toks, hang_ranges(toks, w)),
    ensures
        lines.len() > 0 ==> lines[0].width() <= w || unbreakable(
            toks,
            hang_ranges(toks, w)[0].0,
            hang_ranges(toks, w)[0].1,
        ),
        forall|k: int|
            0 < k < lines.len() ==> segments_width((#[trigger] lines[k]).segments@.drop_first()) <= hang_width(w)
                || unbreakable(toks, hang_ranges(toks, w)[k].0, hang_ranges(toks, w)[k].1),
{
    let rs = hang_ranges(toks, w);
    lemma_greedy_within(toks, w, hang_width(w), false, 0, 0, 0);
    if lines.len() > 0 {
        assert(within_budget(toks, hang_width(w), rs[0]) || within_budget(toks, w, rs[0]));
        lemma_line_width(lines[0], toks, rs[0].0, rs[0].1);
    }
    assert forall|k: int| 0 < k < lines.len() implies segments_width((#[trigger] lines[k]).segments@.drop_first())
        <= hang_width(w) || unbreakable(toks, rs[k].0, rs[k].1) by {
        assert(within_budget(toks, hang_width(w), rs[k]));
        lemma_segments_of_width(lines[k].segments@.drop_first(), toks, rs[k].0, rs[k].1);
    }
}

/// Looks ahead to the next break candidate and tells whether the text up
/// to it fits on the current line, which holds `x` characters before
/// token `i`
pub fn next_word_fits(tokens: &[TokenType], line_length: usize, i: usize, x: usize) -> (r: bool)
    requires
        i < tokens@.len(),
        x + width_range(tokens@, i as int, tokens@.len() as int) <= usize::MAX,
    ensures
        r == word_fits(tokens@, line_length as int, i as int, x as int),
{
    let ghost toks = tokens@;
    let n = tokens.len();
    proof {
        lemma_width_split(toks, i as int, i + 1, n as int);
        assert(width_range(toks, i as int, i as int) == 0);
    }
    let mut j = i + 1;
    let mut u = x + tokens[i].length();
    while j < n
        invariant
            i < j <= n == toks.len(),
            toks == tokens@,
            u == x + width_range(toks, i as int, j as int),
            x + width_range(toks, i as int, n as int) <= usize::MAX,
            fits_from(toks, line_length as int, j as int, u as int)
                == word_fits(toks, line_length as int, i as int, x as int),
        decreases n - j,
    {
        proof {
            lemma_width_split(toks, i as int, j + 1, n as int);
        }
        let frm = tokens[j].format_flags();
        let len = tokens[j].length();
        if frm.mlb {
            return u <= line_length;
        } else if frm.dlb {
            if frm.dob {
                return u <= line_length;
            } else {
                return u + len <= line_length;
            }
        } else {
            u = u + len;
        }
        j = j + 1;
    }
    u <= line_length
}

/// Appends the line made of the tokens over `[a, j)`, if that range is
/// not empty; with `indent`, a line that is not the first is led by an
/// indent segment.
fn push_line(lines: &mut Vec<Line>, tokens: &[TokenType], a: usize, j: usize, indent: bool)
    requires
        a <= j <= tokens@.len(),
    ensures
        j > a ==> final(lines)@.len() == old(lines)@.len() + 1,
        j <= a ==> final(lines)@ == old(lines)@,
        forall|k: int| 0 <= k < old(lines)@.len() ==> final(lines)@[k] == old(lines)@[k],
        j > a && (!indent || old(lines)@.len() == 0) ==> line_of(final(lines)@.last(), tokens@, a as int, j as int),
        j > a && indent && old(lines)@.len() > 0 ==> {
            let l = final(lines)@.last();
            &&& l.column == 0
            &&& l.segments@.len() > 0
            &&& plain_segment(l.segments@[0], spaces(INDENT as nat))
            &&& crate::text::segments_of(l.segments@.drop_first(), tokens@, a as int, j as int)
            &&& crate::text::labels_of(l.note_refs@, tokens@, a as int, j as int)
        },
{
    if j > a {
        let mut line = line_of_range(tokens, a, j);
        if indent && lines.len() > 0 {
            let pad = crate::text::tokens::space_string(INDENT);
            let seg = Segment::from_string(pad);
            let ghost old_segs = line.segments@;
            line.segments.insert(0, seg);
            assert(line.segments@.drop_first() =~= old_segs);
        }
        lines.push(line);
    }
}

/// Greedy line breaking with budget `w0` up to the first break and `w1`
/// after it
fn greedy_lines(tokens: &[TokenType], w0: usize, w1: usize, indent: bool) -> (r: Vec<Line>)
    requires
        width_range(tokens@, 0, tokens@.len() as int) <= usize::MAX,
    ensures
        !indent ==> lines_of(r@, tokens@, greedy_from(tokens@, w0 as int, w1 as int, false, 0, 0, 0)),
        indent ==> hanging_lines_of(r@, tokens@, greedy_from(tokens@, w0 as int, w1 as int, false, 0, 0, 0)),
{
    let ghost toks = tokens@;
    let ghost all = greedy_from(toks, w0 as int, w1 as int, false, 0, 0, 0);
    let n = tokens.len();
    let mut lines: Vec<Line> = Vec::new();
    let mut a: usize = 0;
    let mut x: usize = 0;
    let mut broken = false;
    let mut i: usize = 0;
    let ghost done: Seq<(int, int)> = Seq::empty();
    while i < n
        invariant
            a <= i <= n == toks.len(),
            toks == tokens@,
            width_range(toks, 0, n as int) <= usize::MAX,
            x == width_range(toks, a as int, i as int),
            done + greedy_from(toks, w0 as int, w1 as int, broken, a as int, i as int, x as int) == all,
            !indent ==> lines_of(lines@, toks, done),
            indent ==> hanging_lines_of(lines@, toks, done),
        decreases n - i,
    {
        proof {
            lemma_width_split(toks, 0, a as int, n as int);
            lemma_width_split(toks, a as int, i as int, n as int);
            lemma_width_split(toks, i as int, i + 1, n as int);
        }
        let frm = tokens[i].format_flags();
        let w = if broken {
            w1
        } else {
            w0
        };
        let ghost rest = greedy_from(toks, w0 as int, w1 as int, true, i + 1, i + 1, 0);
        if frm.mlb {
            push_line(&mut lines, tokens, a, i, indent);
            proof {
                assert((done + emit(a as int, i as int)) + rest =~= done + (emit(a as int, i as int) + rest));
                done = done + emit(a as int, i as int);
            }
            a = i + 1;
            x = 0;
            broken = true;
        } else if frm.dlb && !next_word_fits(tokens, w, i, x) {
            let j = if frm.dob {
                i
            } else {
                i + 1
            };
            push_line(&mut lines, tokens, a, j, indent);
            proof {
                assert((done + emit(a as int, j as int)) + rest =~= done + (emit(a as int, j as int) + rest));
                done = done + emit(a as int, j as int);
            }
            a = i + 1;
            x = 0;
            broken = true;
        } else {
            x = x + tokens[i].length();
        }
        i = i + 1;
    }
    push_line(&mut lines, tokens, a, n, indent);
    proof {
        assert(done + emit(a as int, n as int) =~= all);
    }
    lines
}

/// Breaks a token list into lines to fill a text block: each line as
/// full as the lookahead allows within `line_length` characters
pub fn linebreak_fill(tokens: &[TokenType], line_length: usize) -> (r: Vec<Line>)
    requires
        width_range(tokens@, 0, tokens@.len() as int) <= usize::MAX,
    ensures
        lines_of(r@, tokens@, fill_ranges(tokens@, line_length as int)),
{
    greedy_lines(tokens, line_length, line_length, false)
}

/// Breaks a token list into lines such that the first line hangs while
/// the subsequent lines are indented
pub fn linebreak_hang(tokens: &[TokenType], first_line_length: usize) -> (r: Vec<Line>)
    requires
        width_range(tokens@, 0, tokens@.len() as int) <= usize::MAX,
    ensures
        hanging_lines_of(r@, tokens@, hang_ranges(tokens@, first_line_length as int)),
{
    let rest = if first_line_length > INDENT {
        first_line_length - INDENT
    } else {
        1
    };
    greedy_lines(tokens, first_line_length, rest, true)
}

/// Breaks a token list into lines of about equal length, to be centered
/// on the page
pub fn linebreak_balance(tokens: &[TokenType], line_length: usize) -> (r: Vec<Line>)
    requires
        line_length > 0,
        width_range(tokens@, 0, tokens@.len() as int) < usize::MAX,
    ensures
        lines_of(r@, tokens@, balance_ranges(tokens@, line_length as int)),
{
    let ghost toks = tokens@;
    let n = tokens.len();
    let mut text_length: usize = 0;
    let mut k: usize = 0;
    while k < n
        invariant
            k <= n == toks.len(),
            toks == tokens@,
            width_range(toks, 0, n as int) <= usize::MAX,
            text_length == width_range(toks, 0, k as int),
        decreases n - k,
    {
        proof {
            lemma_width_split(toks, 0, k + 1, n as int);
        }
        text_length = text_length + tokens[k].length();
        k = k + 1;
    }
    assert(text_length / line_length <= text_length) by (nonlinear_arith)
        requires
            line_length > 0,
    ;
    let height = text_length / line_length + 1;
    let cutoff = text_length / height;
    let ghost all = balance_from(toks, cutoff as int, 0, 0, 0);
    let mut lines: Vec<Line> = Vec::new();
    let mut a: usize = 0;
    let mut x: usize = 0;
    let mut i: usize = 0;
    let ghost done: Seq<(int, int)> = Seq::empty();
    while i < n
        invariant
            a <= i <= n == toks.len(),
            toks == tokens@,
            width_range(toks, 0, n as int) <= usize::MAX,
            x == width_range(toks, a as int, i as int),
            done + balance_from(toks, cutoff as int, a as int, i as int, x as int) == all,
            lines_of(lines@, toks, done),
        decreases n - i,
    {
        proof {
            lemma_width_split(toks, 0, a as int, n as int);
            lemma_width_split(toks, a as int, i + 1, n as int);
            lemma_width_split(toks, a as int, i as int, i + 1);
        }
        let frm = tokens[i].format_flags();
        let len = tokens[i].length();
        let ghost rest = balance_from(toks, cutoff as int, i + 1, i + 1, 0);
        if frm.mlb {
            push_line(&mut lines, tokens, a, i, false);
            proof {
                assert((done + emit(a as int, i as int)) + rest =~= done + (emit(a as int, i as int) + rest));
                done = done + emit(a as int, i as int);
            }
            a = i + 1;
            x = 0;
        } else if frm.dlb && x + len >= cutoff {
            let j = if frm.dob {
                i
            } else {
                i + 1
            };
            push_line(&mut lines, tokens, a, j, false);
            proof {
                assert((done + emit(a as int, j as int)) + rest =~= done + (emit(a as int, j as int) + rest));
                done = done + emit(a as int, j as int);
            }
            a = i + 1;
            x = 0;
        } else {
            x = x + len;
        }
        i = i + 1;
    }
    push_line(&mut lines, tokens, a, n, false);
    proof {
        assert(done + emit(a as int, n as int) =~= all);
    }
    lines
}

} // verus!
