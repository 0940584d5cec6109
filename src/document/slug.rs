//! Slug line text: the short title and the short author name printed
//! at the top of each page after the first

use vstd::prelude::*;

use crate::document::elements::{
    first_authors, first_head, first_sn, first_title, has_sn, Authors, ContainerElement, Head,
    Manuscript, Sn, TextElement, Title,
};
use crate::document::{capped, INDENT, LEFT_MARGIN, RIGHT_MARGIN};
use crate::text::breaking::break_end;
use crate::text::tokens::TokenType;
use crate::text::{push_token, token_ps, width_range, Segment};

verus! {

/// Upper case form of a string, as std's `str::to_uppercase` gives it
pub uninterp spec fn upper_of(s: Seq<char>) -> Seq<char>;

/// Relies on std's `str::to_uppercase`: the upper case mapping depends on
/// the characters alone.
#[verifier::external_body]
fn uppercase(s: &str) -> (r: String)
    ensures
        r@ == upper_of(s@),
{
    s.to_uppercase()
}

/// Characters a token adds to slug line text: note references and line
/// breaks add none.
pub open spec fn slug_text(t: TokenType) -> Seq<char> {
    match t {
        TokenType::NoteRef(_) => Seq::empty(),
        _ => t.text_view(),
    }
}

/// Characters a token adds to the printed slug line: words in upper case
pub open spec fn slug_ps(t: TokenType) -> Seq<char> {
    match t {
        TokenType::Word(w) => upper_of(w.data.text@),
        TokenType::NoteRef(_) => Seq::empty(),
        _ => token_ps(t),
    }
}

/// Characters a token adds to an upper case slug line text
pub open spec fn slug_upper(t: TokenType) -> Seq<char> {
    match t {
        TokenType::Word(w) => upper_of(w.data.text@),
        _ => slug_text(t),
    }
}

pub open spec fn slug_upper_range(toks: Seq<TokenType>, a: int, b: int) -> Seq<char>
    decreases b - a,
{
    if b <= a {
        Seq::empty()
    } else {
        slug_upper_range(toks, a, b - 1) + slug_upper(toks[b - 1])
    }
}

pub open spec fn slug_text_range(toks: Seq<TokenType>, a: int, b: int) -> Seq<char>
    decreases b - a,
{
    if b <= a {
        Seq::empty()
    } else {
        slug_text_range(toks, a, b - 1) + slug_text(toks[b - 1])
    }
}

pub open spec fn slug_ps_range(toks: Seq<TokenType>, a: int, b: int) -> Seq<char>
    decreases b - a,
{
    if b <= a {
        Seq::empty()
    } else {
        slug_ps_range(toks, a, b - 1) + slug_ps(toks[b - 1])
    }
}

/// Width of the slug line title
pub open spec fn slug_width() -> int {
    RIGHT_MARGIN - LEFT_MARGIN - 4 * INDENT
}

/// The end of the first line of a balanced title: scanning from `i`
/// with `x` characters taken, a mandatory break ends it, and so does a
/// discretionary break once the line would reach the cutoff `c`.
pub open spec fn cut_from(toks: Seq<TokenType>, c: int, i: int, x: int) -> int
    decreases toks.len() - i,
{
    if i < 0 || i >= toks.len() {
        toks.len() as int
    } else {
        let f = toks[i].frm_view();
        if f.mlb {
            i
        } else if f.dlb && x + toks[i].width() >= c {
            break_end(toks, i)
        } else {
            cut_from(toks, c, i + 1, x + toks[i].width())
        }
    }
}

/// The end of the first line of the title balanced over lines of the
/// slug width (the total width capped at `usize::MAX`)
pub open spec fn title_cut(toks: Seq<TokenType>) -> int {
    let l = capped(width_range(toks, 0, toks.len() as int) as int);
    cut_from(toks, l / (l / slug_width() + 1), 0, 0)
}

proof fn lemma_cut_bound(toks: Seq<TokenType>, c: int, i: int, x: int)
    ensures
        0 <= cut_from(toks, c, i, x) <= toks.len(),
    decreases toks.len() - i,
{
    if 0 <= i < toks.len() {
        lemma_cut_bound(toks, c, i + 1, x + toks[i].width());
    }
}

/// The number of leading title tokens that fit on the first line of the
/// title balanced over lines of the slug width
pub fn first_line_end(tokens: &[TokenType]) -> (r: usize)
    ensures
        r == title_cut(tokens@),
        r <= tokens@.len(),
{
    proof {
        let l = capped(width_range(tokens@, 0, tokens@.len() as int) as int);
        lemma_cut_bound(tokens@, l / (l / slug_width() + 1), 0, 0);
    }
    let ghost toks = tokens@;
    let n = tokens.len();
    let mut total: usize = 0;
    let mut k: usize = 0;
    while k < n
        invariant
            k <= n == toks.len(),
            toks == tokens@,
            total == capped(width_range(toks, 0, k as int) as int),
        decreases n - k,
    {
        total = total.saturating_add(tokens[k].length());
        k = k + 1;
    }
    let line_length = RIGHT_MARGIN - LEFT_MARGIN - 4 * INDENT;
    assert(line_length == 44);
    assert(total / line_length <= total / 2) by (nonlinear_arith)
        requires
            line_length == 44,
    ;
    let line_count = total / line_length + 1;
    let cutoff = total / line_count;
    let mut x: usize = 0;
    let mut i: usize = 0;
    let ghost gx: int = 0;
    while i < n
        invariant
            i <= n == toks.len(),
            toks == tokens@,
            gx >= 0,
            x == capped(gx),
            cutoff <= usize::MAX,
            cut_from(toks, cutoff as int, i as int, gx) == title_cut(toks),
        decreases n - i,
    {
        let len = tokens[i].length();
        let frm = tokens[i].format_flags();
        if frm.mlb {
            return i;
        } else if frm.dlb && x.saturating_add(len) >= cutoff {
            return if frm.dob {
                i
            } else {
                i + 1
            };
        }
        x = x.saturating_add(len);
        proof {
            gx = gx + len;
        }
        i = i + 1;
    }
    n
}

/// Appends a token's slug line characters and their printed form.
fn push_slug_token(text: &mut String, ps: &mut String, t: &TokenType, upper: bool)
    ensures
        final(text)@ == old(text)@ + (if upper {
            slug_upper(*t)
        } else {
            slug_text(*t)
        }),
        final(ps)@ == old(ps)@ + slug_ps(*t),
{
    match t {
        TokenType::NoteRef(_) => {
            assert(old(text)@ + slug_text(*t) =~= old(text)@);
            assert(old(ps)@ + slug_ps(*t) =~= old(ps)@);
        },
        TokenType::Word(w) => {
            let u = uppercase(w.data.text.as_str());
            if upper {
                text.append(u.as_str());
            } else {
                text.append(w.data.text.as_str());
            }
            ps.append(u.as_str());
        },
        _ => {
            push_token(text, ps, t);
            assert(slug_upper(*t) == slug_text(*t));
        },
    }
}

/// The slug line segment of the tokens over `[0, j)`: the text as it
/// is, printed in upper case, ending in an ellipsis if the tokens go on
fn slug_segment(tokens: &[TokenType], j: usize, ellipsis: bool, upper: bool) -> (r: Segment)
    requires
        j <= tokens@.len(),
    ensures
        r.text@ == (if upper {
            slug_upper_range(tokens@, 0, j as int)
        } else {
            slug_text_range(tokens@, 0, j as int)
        }) + (if ellipsis {
            " . . ."@
        } else {
            Seq::empty()
        }),
        r.ps@ == "("@ + slug_ps_range(tokens@, 0, j as int) + (if ellipsis {
            " . . ."@
        } else {
            Seq::empty()
        }) + ") show "@,
{
    let mut text = String::new();
    let mut ps = String::from_str("(");
    let ghost head = ps@;
    let mut i: usize = 0;
    while i < j
        invariant
            i <= j <= tokens@.len(),
            text@ == (if upper {
                slug_upper_range(tokens@, 0, i as int)
            } else {
                slug_text_range(tokens@, 0, i as int)
            }),
            ps@ == head + slug_ps_range(tokens@, 0, i as int),
        decreases j - i,
    {
        push_slug_token(&mut text, &mut ps, &tokens[i], upper);
        i = i + 1;
        assert(ps@ =~= head + slug_ps_range(tokens@, 0, i as int));
    }
    if ellipsis {
        text.append(" . . .");
        ps.append(" . . .");
    }
    ps.append(") show ");
    assert(text@ =~= (if upper {
        slug_upper_range(tokens@, 0, j as int)
    } else {
        slug_text_range(tokens@, 0, j as int)
    }) + (if ellipsis {
        " . . ."@
    } else {
        Seq::empty()
    }));
    assert(ps@ =~= "("@ + slug_ps_range(tokens@, 0, j as int) + (if ellipsis {
        " . . ."@
    } else {
        Seq::empty()
    }) + ") show "@);
    Segment { text, ps }
}

/// Whether `r` is the short title of the title element `t`: the first
/// line of the title, balanced as for a centered heading, with an
/// ellipsis if the title goes on; the text in mixed case, the printed
/// form in upper case; none if that line is empty.
pub open spec fn short_title_of(t: TextElement<Title>, r: Option<Segment>) -> bool {
    let toks = t.tokens@;
    let j = title_cut(toks);
    let more: Seq<char> = if j < toks.len() {
        " . . ."@
    } else {
        Seq::empty()
    };
    match r {
        Some(s) => j > 0 && s.text@ == slug_text_range(toks, 0, j) + more
            && s.ps@ == "("@ + slug_ps_range(toks, 0, j) + more + ") show "@,
        None => j == 0,
    }
}

/// Whether `s` is the slug line segment of the surname element `sn`:
/// its characters with words in upper case, printed plain
pub open spec fn author_segment_of(sn: TextElement<Sn>, s: Segment) -> bool {
    let toks = sn.tokens@;
    &&& s.text@ == slug_upper_range(toks, 0, toks.len() as int)
    &&& s.ps@ == "("@ + slug_ps_range(toks, 0, toks.len() as int) + ") show "@
}

impl TextElement<Title> {
    /// The short title for the slug line
    pub fn short_title(&self) -> (r: Option<Segment>)
        ensures
            short_title_of(*self, r),
    {
        let j = first_line_end(self.tokens.as_slice());
        if j > 0 {
            Some(slug_segment(self.tokens.as_slice(), j, j < self.tokens.len(), false))
        } else {
            None
        }
    }
}

impl ContainerElement<Authors> {
    /// The surname of the first author that has one, in upper case, for
    /// the slug line
    pub fn short_author_name(&self) -> (r: Option<Segment>)
        ensures
            match r {
                Some(s) => exists|sn: TextElement<Sn>| #[trigger] first_sn(self.children@, sn) && author_segment_of(sn, s),
                None => forall|k: int| 0 <= k < self.children@.len() ==> !has_sn(#[trigger] self.children@[k]),
            },
    {
        match self.first_sn() {
            Some(sn) => {
                let s = slug_segment(sn.tokens.as_slice(), sn.tokens.len(), false, true);
                assert(s.ps@ =~= "("@ + slug_ps_range(sn.tokens@, 0, sn.tokens@.len() as int) + ") show "@);
                assert(s.text@ =~= slug_upper_range(sn.tokens@, 0, sn.tokens@.len() as int));
                assert(first_sn(self.children@, *sn) && author_segment_of(*sn, s));
                Some(s)
            },
            None => None,
        }
    }
}

impl ContainerElement<Manuscript> {
    /// The short title of the first title of the first head
    pub fn short_title(&self) -> (r: Option<Segment>)
        ensures
            r.is_some() ==> exists|h: ContainerElement<Head>, t: TextElement<Title>|
                first_head(self.children@, h) && first_title(h.children@, t) && short_title_of(t, r),
            r.is_none() ==> forall|h: ContainerElement<Head>, t: TextElement<Title>|
                first_head(self.children@, h) && first_title(h.children@, t) ==> short_title_of(t, r),
    {
        match self.head() {
            Some(h) => match h.title() {
                Some(t) => t.short_title(),
                None => None,
            },
            None => None,
        }
    }

    /// The short author name of the first authors element of the first head
    pub fn short_author_name(&self) -> (r: Option<Segment>)
        ensures
            r.is_some() ==> exists|h: ContainerElement<Head>, a: ContainerElement<Authors>, sn: TextElement<Sn>|
                first_head(self.children@, h) && first_authors(h.children@, a) && first_sn(a.children@, sn)
                    && author_segment_of(sn, r->Some_0),
            r.is_none() ==> forall|h: ContainerElement<Head>, a: ContainerElement<Authors>, sn: TextElement<Sn>|
                first_head(self.children@, h) && first_authors(h.children@, a) ==> !first_sn(a.children@, sn),
    {
        match self.head() {
            Some(h) => match h.authors() {
                Some(a) => a.short_author_name(),
                None => None,
            },
            None => None,
        }
    }
}

/// Whether a page gets a slug line: every numbered page after the first,
/// and page 1 itself when the document has a title page of its own or
/// when nothing else (contact information, word count) is printed at
/// its top.
pub fn shows_slug_line(page_no: i32, has_structure: bool, has_contact: bool, has_word_count: bool) -> (r: bool)
    ensures
        r == (page_no > 1 || (page_no == 1 && (has_structure || (!has_contact && !has_word_count)))),
{
    page_no > 1 || (page_no == 1 && has_structure) || (page_no == 1 && !has_structure && !has_contact
        && !has_word_count)
}

} // verus!
