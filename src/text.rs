//! Low-level text processing
//!
//! A token list is a stream of typed characters.  The line breakers
//! cut it into [`Line`]s under a width budget, and each line is split
//! into [`Segment`]s, one for each run of tokens that share a display
//! state, since each display state needs its own Postscript commands.

use vstd::prelude::*;
use vstd::string::*;

use crate::text::escape::{escape_ps, ps_escaped};
use crate::text::tokens::{DisplayFlags, TokenType};

pub mod breaking;
pub mod escape;
pub mod tokens;

pub use crate::text::breaking::{linebreak_balance, linebreak_fill, linebreak_hang, next_word_fits};

verus! {

/// Sum of the token widths over the index range `[a, b)`
pub open spec fn width_range(toks: Seq<TokenType>, a: int, b: int) -> nat
    decreases b - a,
{
    if b <= a {
        0
    } else {
        width_range(toks, a, b - 1) + toks[b - 1].width()
    }
}

/// Total width of a token sequence
pub open spec fn total_width(toks: Seq<TokenType>) -> nat {
    width_range(toks, 0, toks.len() as int)
}

/// The characters of the tokens over the index range `[a, b)`
pub open spec fn text_range(toks: Seq<TokenType>, a: int, b: int) -> Seq<char>
    decreases b - a,
{
    if b <= a {
        Seq::empty()
    } else {
        text_range(toks, a, b - 1) + toks[b - 1].text_view()
    }
}

/// Postscript form of one token's characters, with the brackets and
/// backslashes that Postscript reserves escaped
pub open spec fn token_ps(t: TokenType) -> Seq<char> {
    match t {
        TokenType::Close(c) => if c.data.text@ == seq![')'] {
            seq!['\\', ')']
        } else {
            c.data.text@
        },
        TokenType::Open(o) => if o.data.text@ == seq!['('] {
            seq!['\\', '(']
        } else {
            o.data.text@
        },
        TokenType::Symbol(s) => if s.data.text@ == seq!['\\'] {
            seq!['\\', '\\']
        } else {
            s.data.text@
        },
        _ => t.text_view(),
    }
}

/// Postscript form of the characters of the tokens over `[a, b)`
pub open spec fn ps_range(toks: Seq<TokenType>, a: int, b: int) -> Seq<char>
    decreases b - a,
{
    if b <= a {
        Seq::empty()
    } else {
        ps_range(toks, a, b - 1) + token_ps(toks[b - 1])
    }
}

/// Display state of the run that starts at `a`
pub open spec fn run_dpy(toks: Seq<TokenType>, a: int, b: int) -> DisplayFlags {
    if a < b {
        toks[a].dpy_view()
    } else {
        DisplayFlags::plain()
    }
}

pub open spec fn ps_prefix(d: DisplayFlags) -> Seq<char> {
    if d.sub {
        "0 -6 rmoveto "@
    } else if d.sup {
        "0 6 rmoveto "@
    } else {
        Seq::empty()
    }
}

pub open spec fn ps_show(d: DisplayFlags) -> Seq<char> {
    if d.em {
        "ushow "@
    } else {
        "show "@
    }
}

pub open spec fn ps_suffix(d: DisplayFlags) -> Seq<char> {
    if d.sub {
        "0 6 rmoveto "@
    } else if d.sup {
        "0 -6 rmoveto "@
    } else {
        Seq::empty()
    }
}

/// The Postscript command that prints the tokens over `[a, b)` in the
/// display state of the first of them
pub open spec fn segment_ps(toks: Seq<TokenType>, a: int, b: int) -> Seq<char> {
    let d = run_dpy(toks, a, b);
    ps_prefix(d) + "("@ + ps_range(toks, a, b) + ") "@ + ps_show(d) + ps_suffix(d)
}

/// A line segment: a run of tokens that share a display state
#[derive(Debug, Clone)]
pub struct Segment {
    /// The text of the segment
    pub text: String,
    /// The Postscript command that prints the segment
    pub ps: String,
}

/// Whether `seg` is the segment made of the tokens over `[a, b)`
pub open spec fn segment_of(seg: Segment, toks: Seq<TokenType>, a: int, b: int) -> bool {
    seg.text@ == text_range(toks, a, b) && seg.ps@ == segment_ps(toks, a, b)
}

/// Whether `s` is exactly the one-character string `c`
fn is_char(s: &str, c: char) -> (r: bool)
    ensures
        r == (s@ == seq![c]),
{
    if s.unicode_len() == 1 {
        let d = s.get_char(0);
        assert(s@ =~= seq![s@[0]]);
        d == c
    } else {
        false
    }
}

/// Appends the characters of a token and its Postscript form.
pub(crate) fn push_token(text: &mut String, ps: &mut String, t: &TokenType)
    ensures
        final(text)@ == old(text)@ + t.text_view(),
        final(ps)@ == old(ps)@ + token_ps(*t),
{
    match t {
        TokenType::Close(c) => {
            text.append(c.data.text.as_str());
            if is_char(c.data.text.as_str(), ')') {
                proof {
                    reveal_strlit("\\)");
                }
                assert("\\)"@ =~= seq!['\\', ')']);
                ps.append("\\)");
            } else {
                ps.append(c.data.text.as_str());
            }
        },
        TokenType::Open(o) => {
            text.append(o.data.text.as_str());
            if is_char(o.data.text.as_str(), '(') {
                proof {
                    reveal_strlit("\\(");
                }
                assert("\\("@ =~= seq!['\\', '(']);
                ps.append("\\(");
            } else {
                ps.append(o.data.text.as_str());
            }
        },
        TokenType::Symbol(s) => {
            text.append(s.data.text.as_str());
            if is_char(s.data.text.as_str(), '\\') {
                proof {
                    reveal_strlit("\\\\");
                }
                assert("\\\\"@ =~= seq!['\\', '\\']);
                ps.append("\\\\");
            } else {
                ps.append(s.data.text.as_str());
            }
        },
        TokenType::LineBreak(_) => {
            assert(t.text_view() =~= Seq::<char>::empty());
            assert(old(text)@ + t.text_view() =~= old(text)@);
            assert(old(ps)@ + token_ps(*t) =~= old(ps)@);
        },
        TokenType::NoteRef(x) => {
            text.append(x.data.text.as_str());
            ps.append(x.data.text.as_str());
        },
        TokenType::Punct(x) => {
            text.append(x.data.text.as_str());
            ps.append(x.data.text.as_str());
        },
        TokenType::Space(x) => {
            text.append(x.data.text.as_str());
            ps.append(x.data.text.as_str());
        },
        TokenType::Word(x) => {
            text.append(x.data.text.as_str());
            ps.append(x.data.text.as_str());
        },
    }
}

/// The segment made of the tokens over `[a, b)`
fn segment_of_range(tokens: &[TokenType], a: usize, b: usize) -> (r: Segment)
    requires
        a <= b <= tokens@.len(),
    ensures
        segment_of(r, tokens@, a as int, b as int),
{
    let dpy = if a < b {
        tokens[a].display_flags()
    } else {
        DisplayFlags::default()
    };
    let mut text = String::new();
    let mut ps = String::new();
    if dpy.sub {
        ps.append("0 -6 rmoveto ");
    } else if dpy.sup {
        ps.append("0 6 rmoveto ");
    }
    ps.append("(");
    let ghost head = ps@;
    let mut i = a;
    while i < b
        invariant
            a <= i <= b <= tokens@.len(),
            text@ == text_range(tokens@, a as int, i as int),
            ps@ == head + ps_range(tokens@, a as int, i as int),
        decreases b - i,
    {
        push_token(&mut text, &mut ps, &tokens[i]);
        i = i + 1;
        assert(ps@ =~= head + ps_range(tokens@, a as int, i as int));
    }
    ps.append(") ");
    if dpy.em {
        ps.append("ushow ");
    } else {
        ps.append("show ");
    }
    if dpy.sub {
        ps.append("0 6 rmoveto ");
    } else if dpy.sup {
        ps.append("0 -6 rmoveto ");
    }
    assert(ps@ =~= segment_ps(tokens@, a as int, b as int));
    Segment { text, ps }
}

/// Whether `seg` prints the plain characters `s`
pub open spec fn plain_segment(seg: Segment, s: Seq<char>) -> bool {
    seg.text@ == s && seg.ps@ == "("@ + ps_escaped(s) + ") show "@
}

impl Segment {
    /// A plain segment printing the characters of `s`
    pub fn from_str(s: &str) -> (r: Segment)
        ensures
            plain_segment(r, s@),
    {
        let mut ps = String::from_str("(");
        let esc = escape_ps(s);
        ps.append(esc.as_str());
        ps.append(") show ");
        Segment { text: String::from_str(s), ps }
    }

    /// A plain segment printing the characters of `s`
    pub fn from_string(s: String) -> (r: Segment)
        ensures
            plain_segment(r, s@),
    {
        let mut ps = String::from_str("(");
        let esc = escape_ps(s.as_str());
        ps.append(esc.as_str());
        ps.append(") show ");
        Segment { text: s, ps }
    }

    /// The segment printing the tokens, all in the display state of the
    /// first one
    pub fn from_tokens(tokens: &[TokenType]) -> (r: Segment)
        ensures
            segment_of(r, tokens@, 0, tokens@.len() as int),
    {
        segment_of_range(tokens, 0, tokens.len())
    }
}

/// The runs of tokens of one display state in `[start, b)`, scanning
/// from `i` in display state `d`; line breaks leave the state as it is.
pub open spec fn runs_from(toks: Seq<TokenType>, b: int, start: int, i: int, d: DisplayFlags) -> Seq<(int, int)>
    decreases b - i,
{
    if i >= b {
        if b > start {
            seq![(start, b)]
        } else {
            Seq::empty()
        }
    } else if !(toks[i] is LineBreak) && toks[i].dpy_view() != d {
        let rest = runs_from(toks, b, i, i + 1, toks[i].dpy_view());
        if i > start {
            seq![(start, i)] + rest
        } else {
            rest
        }
    } else {
        runs_from(toks, b, start, i + 1, d)
    }
}

/// The maximal runs of tokens of one display state in `[a, b)`
pub open spec fn runs(toks: Seq<TokenType>, a: int, b: int) -> Seq<(int, int)> {
    runs_from(toks, b, a, a, run_dpy(toks, a, b))
}

/// The labels of the note references in `[a, b)`, in order
pub open spec fn note_labels(toks: Seq<TokenType>, a: int, b: int) -> Seq<Seq<char>>
    decreases b - a,
{
    if b <= a {
        Seq::empty()
    } else if let TokenType::NoteRef(t) = toks[b - 1] {
        note_labels(toks, a, b - 1).push(t.data.text@)
    } else {
        note_labels(toks, a, b - 1)
    }
}

/// A line of output
#[derive(Debug, Clone)]
pub struct Line {
    /// The start column
    pub column: usize,
    /// The segments, from left to right
    pub segments: Vec<Segment>,
    /// The labels of the note references on this line
    pub note_refs: Vec<String>,
}

/// Total number of characters in a segment sequence
pub open spec fn segments_width(segs: Seq<Segment>) -> nat
    decreases segs.len(),
{
    if segs.len() == 0 {
        0
    } else {
        segments_width(segs.drop_last()) + segs.last().text@.len()
    }
}

/// The Postscript commands of a segment sequence, in order
pub open spec fn segments_ps(segs: Seq<Segment>) -> Seq<char>
    decreases segs.len(),
{
    if segs.len() == 0 {
        Seq::empty()
    } else {
        segments_ps(segs.drop_last()) + segs.last().ps@
    }
}

/// Whether `segs` are the segments made of the tokens over `[a, b)`: one
/// for each run of one display state
pub open spec fn segments_of(segs: Seq<Segment>, toks: Seq<TokenType>, a: int, b: int) -> bool {
    let rs = runs(toks, a, b);
    &&& segs.len() == rs.len()
    &&& forall|k: int| 0 <= k < rs.len() ==> #[trigger] segment_of(segs[k], toks, rs[k].0, rs[k].1)
}

/// Whether `refs` are the labels of the note references over `[a, b)`
pub open spec fn labels_of(refs: Seq<String>, toks: Seq<TokenType>, a: int, b: int) -> bool {
    let labels = note_labels(toks, a, b);
    &&& refs.len() == labels.len()
    &&& forall|k: int| 0 <= k < labels.len() ==> #[trigger] refs[k]@ == labels[k]
}

/// Whether `line` is the line made of the tokens over `[a, b)`
pub open spec fn line_of(line: Line, toks: Seq<TokenType>, a: int, b: int) -> bool {
    &&& line.column == 0
    &&& segments_of(line.segments@, toks, a, b)
    &&& labels_of(line.note_refs@, toks, a, b)
}

impl Line {
    /// Number of characters in the line
    pub open spec fn width(&self) -> nat {
        segments_width(self.segments@)
    }

    /// The total number of characters in the line (capped at `usize::MAX`)
    pub fn length(&self) -> (r: usize)
        ensures
            r == crate::document::capped(self.width() as int),
    {
        let mut n: usize = 0;
        let mut k: usize = 0;
        while k < self.segments.len()
            invariant
                k <= self.segments@.len(),
                n == crate::document::capped(segments_width(self.segments@.take(k as int)) as int),
            decreases self.segments@.len() - k,
        {
            proof {
                assert(self.segments@.take(k + 1).drop_last() =~= self.segments@.take(k as int));
                assert(self.segments@.take(k + 1).last() == self.segments@[k as int]);
            }
            n = n.saturating_add(self.segments[k].text.as_str().unicode_len());
            k = k + 1;
        }
        assert(self.segments@.take(k as int) =~= self.segments@);
        n
    }

    /// The Postscript command that prints the line
    pub fn ps(&self) -> (r: String)
        ensures
            r@ == segments_ps(self.segments@),
    {
        let mut s = String::new();
        let mut k: usize = 0;
        while k < self.segments.len()
            invariant
                k <= self.segments@.len(),
                s@ == segments_ps(self.segments@.take(k as int)),
            decreases self.segments@.len() - k,
        {
            assert(self.segments@.take(k + 1).drop_last() =~= self.segments@.take(k as int));
            s.append(self.segments[k].ps.as_str());
            k = k + 1;
        }
        assert(self.segments@.take(k as int) =~= self.segments@);
        s
    }

    /// A line holding a single segment
    pub fn from_segment(segment: Segment) -> (r: Line)
        ensures
            r.column == 0,
            r.segments@ == seq![segment],
            r.note_refs@.len() == 0,
    {
        let mut segments = Vec::new();
        segments.push(segment);
        Line { column: 0, segments, note_refs: Vec::new() }
    }

    /// The line made of the tokens, one segment for each change of
    /// display state
    pub fn from_tokens(tokens: &[TokenType]) -> (r: Line)
        ensures
            line_of(r, tokens@, 0, tokens@.len() as int),
    {
        line_of_range(tokens, 0, tokens.len())
    }
}

/// Whether `rs` are non-empty ranges that cover `[a, b)` in order,
/// each one starting where the one before ends
pub open spec fn contiguous(rs: Seq<(int, int)>, a: int, b: int) -> bool {
    if rs.len() == 0 {
        a == b
    } else {
        &&& rs[0].0 == a
        &&& rs.last().1 == b
        &&& forall|k: int| 0 <= k < rs.len() ==> (#[trigger] rs[k]).0 < rs[k].1
        &&& forall|k: int| 0 <= k < rs.len() - 1 ==> (#[trigger] rs[k]).1 == rs[k + 1].0
    }
}

proof fn lemma_runs_contiguous(toks: Seq<TokenType>, b: int, start: int, i: int, d: DisplayFlags)
    requires
        start <= i <= b,
    ensures
        contiguous(runs_from(toks, b, start, i, d), start, b),
    decreases b - i,
{
    if i < b {
        if !(toks[i] is LineBreak) && toks[i].dpy_view() != d {
            let rest = runs_from(toks, b, i, i + 1, toks[i].dpy_view());
            lemma_runs_contiguous(toks, b, i, i + 1, toks[i].dpy_view());
            if i > start {
                let r = seq![(start, i)] + rest;
                assert(r.len() > 1);
                assert forall|k: int| 0 <= k < r.len() - 1 implies (#[trigger] r[k]).1 == r[k + 1].0 by {
                    if k > 0 {
                        assert(r[k] == rest[k - 1]);
                        assert(r[k + 1] == rest[k]);
                    }
                }
                assert forall|k: int| 0 <= k < r.len() implies (#[trigger] r[k]).0 < r[k].1 by {
                    if k > 0 {
                        assert(r[k] == rest[k - 1]);
                    }
                }
            }
        } else {
            lemma_runs_contiguous(toks, b, start, i + 1, d);
        }
    }
}

proof fn lemma_text_range_len(toks: Seq<TokenType>, a: int, b: int)
    ensures
        text_range(toks, a, b).len() == width_range(toks, a, b),
    decreases b - a,
{
    if b > a {
        lemma_text_range_len(toks, a, b - 1);
    }
}

/// Widths add up over adjacent ranges.
pub proof fn lemma_width_split(toks: Seq<TokenType>, a: int, b: int, c: int)
    requires
        a <= b <= c,
    ensures
        width_range(toks, a, c) == width_range(toks, a, b) + width_range(toks, b, c),
    decreases c - b,
{
    if b < c {
        lemma_width_split(toks, a, b, c - 1);
    }
}

proof fn lemma_segments_width(segs: Seq<Segment>, toks: Seq<TokenType>, rs: Seq<(int, int)>, a: int, b: int)
    requires
        segs.len() == rs.len(),
        forall|k: int| 0 <= k < rs.len() ==> #[trigger] segment_of(segs[k], toks, rs[k].0, rs[k].1),
        contiguous(rs, a, b),
    ensures
        segments_width(segs) == width_range(toks, a, b),
    decreases segs.len(),
{
    if segs.len() > 0 {
        let c = rs.last().0;
        let m = rs.len() - 1;
        assert(segment_of(segs[m], toks, rs[m].0, rs[m].1));
        lemma_text_range_len(toks, c, b);
        if rs.len() > 1 {
            assert(rs[m - 1].1 == rs[m].0);
            assert(contiguous(rs.drop_last(), a, c));
        } else {
            assert(contiguous(rs.drop_last(), a, c));
        }
        assert forall|k: int| 0 <= k < rs.drop_last().len() implies #[trigger] segment_of(segs.drop_last()[k], toks, rs.drop_last()[k].0, rs.drop_last()[k].1) by {
            assert(segment_of(segs[k], toks, rs[k].0, rs[k].1));
        }
        lemma_segments_width(segs.drop_last(), toks, rs.drop_last(), a, c);
        assert(a <= c) by {
            if rs.len() > 1 {
                assert forall|k: int| 0 <= k <= m implies rs[0].0 <= (#[trigger] rs[k]).0 by {
                    lemma_contiguous_starts(rs, a, b, k);
                }
            }
        }
        assert(c < b);
        lemma_width_split(toks, a, c, b);
    }
}

proof fn lemma_contiguous_starts(rs: Seq<(int, int)>, a: int, b: int, k: int)
    requires
        contiguous(rs, a, b),
        0 <= k < rs.len(),
    ensures
        a <= rs[k].0,
    decreases k,
{
    if k > 0 {
        lemma_contiguous_starts(rs, a, b, k - 1);
        assert(rs[k - 1].1 == rs[k].0);
    }
}

/// The width of the segments made of the tokens over `[a, b)` is the
/// sum of the widths of those tokens.
pub proof fn lemma_segments_of_width(segs: Seq<Segment>, toks: Seq<TokenType>, a: int, b: int)
    requires
        a <= b,
        segments_of(segs, toks, a, b),
    ensures
        segments_width(segs) == width_range(toks, a, b),
{
    lemma_runs_contiguous(toks, b, a, a, run_dpy(toks, a, b));
    lemma_segments_width(segs, toks, runs(toks, a, b), a, b);
}

/// The width of the line made of the tokens over `[a, b)` is the sum of
/// the widths of those tokens.
pub proof fn lemma_line_width(line: Line, toks: Seq<TokenType>, a: int, b: int)
    requires
        a <= b,
        line_of(line, toks, a, b),
    ensures
        line.width() == width_range(toks, a, b),
{
    lemma_runs_contiguous(toks, b, a, a, run_dpy(toks, a, b));
    lemma_segments_width(line.segments@, toks, runs(toks, a, b), a, b);
}

/// The line made of the tokens over `[a, b)`
pub(crate) fn line_of_range(tokens: &[TokenType], a: usize, b: usize) -> (r: Line)
    requires
        a <= b <= tokens@.len(),
    ensures
        line_of(r, tokens@, a as int, b as int),
{
    let ghost toks = tokens@;
    let mut segments: Vec<Segment> = Vec::new();
    let mut note_refs: Vec<String> = Vec::new();
    let mut dpy = if a < b {
        tokens[a].display_flags()
    } else {
        DisplayFlags::default()
    };
    let mut start = a;
    let mut i = a;
    let ghost done: Seq<(int, int)> = Seq::empty();
    while i < b
        invariant
            a <= start <= i <= b <= toks.len(),
            toks == tokens@,
            done + runs_from(toks, b as int, start as int, i as int, dpy) == runs(toks, a as int, b as int),
            segments@.len() == done.len(),
            forall|k: int| 0 <= k < done.len() ==> #[trigger] segment_of(segments@[k], toks, done[k].0, done[k].1),
            note_refs@.len() == note_labels(toks, a as int, i as int).len(),
            forall|k: int| 0 <= k < note_refs@.len() ==> #[trigger] note_refs@[k]@ == note_labels(toks, a as int, i as int)[k],
        decreases b - i,
    {
        let is_break = matches!(tokens[i], TokenType::LineBreak(_));
        let d = tokens[i].display_flags();
        if !is_break && d != dpy {
            if i > start {
                let seg = segment_of_range(tokens, start, i);
                segments.push(seg);
                proof {
                    assert(seq![(start as int, i as int)] + runs_from(toks, b as int, i as int, i + 1, d)
                        == runs_from(toks, b as int, start as int, i as int, dpy));
                    assert(done.push((start as int, i as int)) + runs_from(toks, b as int, i as int, i + 1, d)
                        =~= done + runs_from(toks, b as int, start as int, i as int, dpy));
                    done = done.push((start as int, i as int));
                }
            }
            start = i;
            dpy = d;
        }
        if let TokenType::NoteRef(t) = &tokens[i] {
            note_refs.push(t.data.text.clone());
        }
        i = i + 1;
    }
    if b > start {
        let seg = segment_of_range(tokens, start, b);
        segments.push(seg);
        proof {
            assert(done.push((start as int, b as int)) =~= runs(toks, a as int, b as int));
            done = done.push((start as int, b as int));
        }
    } else {
        assert(done =~= runs(toks, a as int, b as int));
    }
    Line { column: 0, segments, note_refs }
}

} // verus!
