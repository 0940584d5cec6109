//! The page flow as a state machine
//!
//! The compositor's state is a list of pages, the last of which is
//! being filled, a table of pending footnotes, the number the next
//! page gets, and the padding asked for after the last block.  Each
//! spec function here is one step of the flow.

use vstd::prelude::*;

use crate::document::toc::leader;
use crate::document::{
    block_rows, capped, list_rows, Block, LineSpacing, PageView, Tag, CHAPTER_SKIP, LEFT_MARGIN,
    PAGE_HEIGHT, RIGHT_MARGIN,
};
use crate::text::plain_segment;
use crate::text::Line;

verus! {

/// State of the page flow
pub struct Flow {
    /// Pages so far; the last one is being filled.
    pub pages: Seq<PageView>,
    /// Pending footnotes, each under its label
    pub notes: Seq<(Seq<char>, Seq<Block>)>,
    /// Number of the next page
    pub next_page_no: int,
    /// Blank rows asked for after the last block
    pub last_padding_after: int,
}

/// The next page number: one more, held at `i32::MAX`
pub open spec fn next_no(n: int) -> int {
    if n < i32::MAX {
        n + 1
    } else {
        n
    }
}

/// The page being filled
pub open spec fn cur(f: Flow) -> PageView {
    f.pages.last()
}

/// Starts a new, empty page with the next page number.
pub open spec fn new_page(f: Flow) -> Flow {
    Flow {
        pages: f.pages.push(
            PageView {
                number: f.next_page_no,
                height: PAGE_HEIGHT as int,
                lines: Seq::empty(),
                footer: Seq::empty(),
            },
        ),
        next_page_no: next_no(f.next_page_no),
        ..f
    }
}

/// Replaces the page being filled.
pub open spec fn set_cur(f: Flow, p: PageView) -> Flow {
    Flow { pages: f.pages.update(f.pages.len() - 1, p), ..f }
}

/// Appends content rows to the page being filled.
pub open spec fn add_rows(f: Flow, rows: Seq<Option<Line>>) -> Flow {
    set_cur(f, PageView { lines: cur(f).lines + rows, ..cur(f) })
}

/// Appends footer rows to the page being filled.
pub open spec fn add_footer(f: Flow, rows: Seq<Option<Line>>) -> Flow {
    set_cur(f, PageView { footer: cur(f).footer + rows, ..cur(f) })
}

/// `n` blank rows
pub open spec fn blanks(n: int) -> Seq<Option<Line>> {
    Seq::new(n as nat, |i: int| None)
}

/// Index of the first pending footnote with the label, from `k` on, or -1
pub open spec fn find_note(notes: Seq<(Seq<char>, Seq<Block>)>, label: Seq<char>, k: int) -> int
    decreases notes.len() - k,
{
    if k < 0 || k >= notes.len() {
        -1
    } else if notes[k].0 == label {
        k
    } else {
        find_note(notes, label, k + 1)
    }
}

/// Index of the pending footnote with the label, or -1
pub open spec fn note_index(notes: Seq<(Seq<char>, Seq<Block>)>, label: Seq<char>) -> int {
    find_note(notes, label, 0)
}

/// Records a footnote; one with the same label is replaced.
pub open spec fn put_note(notes: Seq<(Seq<char>, Seq<Block>)>, e: (Seq<char>, Seq<Block>)) -> Seq<(Seq<char>, Seq<Block>)> {
    let k = note_index(notes, e.0);
    if k >= 0 {
        notes.update(k, e)
    } else {
        notes.push(e)
    }
}

/// Whether no two pending footnotes share a label
pub open spec fn labels_unique(notes: Seq<(Seq<char>, Seq<Block>)>) -> bool {
    forall|i: int, j: int| 0 <= i < j < notes.len() ==> (#[trigger] notes[i]).0 != (#[trigger] notes[j]).0
}

proof fn lemma_find_note(notes: Seq<(Seq<char>, Seq<Block>)>, label: Seq<char>, k: int)
    requires
        0 <= k,
    ensures
        find_note(notes, label, k) == -1 ==> forall|i: int| k <= i < notes.len() ==> (#[trigger] notes[i]).0 != label,
        find_note(notes, label, k) != -1 ==> k <= find_note(notes, label, k) < notes.len()
            && notes[find_note(notes, label, k)].0 == label,
    decreases notes.len() - k,
{
    if k < notes.len() && notes[k].0 != label {
        lemma_find_note(notes, label, k + 1);
    }
}

/// Recording a footnote keeps the labels of the pending footnotes
/// unique: a label already pending has its footnote replaced.
pub proof fn lemma_put_note_unique(notes: Seq<(Seq<char>, Seq<Block>)>, e: (Seq<char>, Seq<Block>))
    requires
        labels_unique(notes),
    ensures
        labels_unique(put_note(notes, e)),
{
    lemma_find_note(notes, e.0, 0);
    let r = put_note(notes, e);
    let k = note_index(notes, e.0);
    assert forall|i: int, j: int| 0 <= i < j < r.len() implies (#[trigger] r[i]).0 != (#[trigger] r[j]).0 by {
        if k < 0 {
            if j == notes.len() {
                assert(r[i] == notes[i]);
            } else {
                assert(r[i] == notes[i] && r[j] == notes[j]);
            }
        } else {
            if i == k {
                assert(notes[i].0 == e.0);
                assert(r[j] == notes[j]);
            } else if j == k {
                assert(notes[j].0 == e.0);
                assert(r[i] == notes[i]);
            } else {
                assert(r[i] == notes[i] && r[j] == notes[j]);
            }
        }
    }
}

/// Recording a block's footnotes keeps the pending labels unique.
pub proof fn lemma_put_notes_unique(notes: Seq<(Seq<char>, Seq<Block>)>, defs: Seq<(Seq<char>, Seq<Block>)>)
    requires
        labels_unique(notes),
    ensures
        labels_unique(put_notes(notes, defs)),
    decreases defs.len(),
{
    if defs.len() > 0 {
        lemma_put_notes_unique(notes, defs.drop_last());
        lemma_put_note_unique(put_notes(notes, defs.drop_last()), defs.last());
    }
}

/// Records footnotes in order.
pub open spec fn put_notes(notes: Seq<(Seq<char>, Seq<Block>)>, defs: Seq<(Seq<char>, Seq<Block>)>) -> Seq<(Seq<char>, Seq<Block>)>
    decreases defs.len(),
{
    if defs.len() == 0 {
        notes
    } else {
        put_note(put_notes(notes, defs.drop_last()), defs.last())
    }
}

/// The footnotes a block defines, as labels and block sequences
pub open spec fn note_defs(b: Block) -> Seq<(Seq<char>, Seq<Block>)> {
    b.footnotes@.map_values(|e: (String, Vec<Block>)| (e.0@, e.1@))
}

/// The labels of a line's note references
pub open spec fn ref_labels(line: Line) -> Seq<Seq<char>> {
    line.note_refs@.map_values(|s: String| s@)
}

/// Footer rows needed by the pending footnotes that the labels from
/// `k` on refer to, `j` of them having been counted already: each
/// footnote's rows, and one separating row before every label after
/// the first footnote found
pub open spec fn need_from(notes: Seq<(Seq<char>, Seq<Block>)>, labels: Seq<Seq<char>>, k: int, j: int) -> int
    decreases labels.len() - k,
{
    if k < 0 || k >= labels.len() {
        0
    } else {
        let sep: int = if j > 0 {
            1
        } else {
            0
        };
        let idx = note_index(notes, labels[k]);
        if idx >= 0 {
            sep + list_rows(notes[idx].1) + need_from(notes, labels, k + 1, j + 1)
        } else {
            sep + need_from(notes, labels, k + 1, j)
        }
    }
}

/// Footer rows of one footnote block, from line `k` on: its lines, with
/// a blank row after each one when double spaced, except after the
/// last line of the last block
pub open spec fn note_block_rows(b: Block, last: bool, k: int) -> Seq<Option<Line>>
    decreases b.lines@.len() - k,
{
    if k < 0 || k >= b.lines@.len() {
        Seq::empty()
    } else {
        let gap: Seq<Option<Line>> = if (!last || k < b.lines@.len() - 1) && b.line_spacing == LineSpacing::Double {
            seq![None]
        } else {
            Seq::empty()
        };
        seq![Some(b.lines@[k])] + gap + note_block_rows(b, last, k + 1)
    }
}

/// Footer rows of a footnote's blocks, from block `j` on
pub open spec fn note_rows(bs: Seq<Block>, j: int) -> Seq<Option<Line>>
    decreases bs.len() - j,
{
    if j < 0 || j >= bs.len() {
        Seq::empty()
    } else {
        note_block_rows(bs[j], j == bs.len() - 1, 0) + note_rows(bs, j + 1)
    }
}

/// Moves the pending footnotes that the labels from `k` on refer to
/// into the footer of the page being filled, a blank row between two
/// footnotes; a label with no pending footnote places nothing.
pub open spec fn place_notes(f: Flow, labels: Seq<Seq<char>>, k: int) -> Flow
    decreases labels.len() - k,
{
    if k < 0 || k >= labels.len() {
        f
    } else {
        let idx = note_index(f.notes, labels[k]);
        if idx >= 0 {
            let bs = f.notes[idx].1;
            let g = Flow { notes: f.notes.remove(idx), ..f };
            let sep: Seq<Option<Line>> = if cur(g).footer.len() > 0 {
                seq![None]
            } else {
                Seq::empty()
            };
            place_notes(add_footer(g, sep + note_rows(bs, 0)), labels, k + 1)
        } else {
            place_notes(f, labels, k + 1)
        }
    }
}

/// Rows left on the page being filled for a line whose footnotes need
/// `need` more footer rows, after a divider of two rows and, if the
/// footer already holds notes, a separating row
pub open spec fn room_with_notes(p: PageView, need: int) -> int {
    let used = if p.footer.len() > 0 {
        1 + p.footer.len()
    } else {
        0
    };
    p.height - p.lines.len() - 1 - need - 2 - used
}

/// Rows left on the page being filled after one more line
pub open spec fn room_for_line(p: PageView) -> int {
    let used = if p.footer.len() > 0 {
        p.footer.len() + 2
    } else {
        0
    };
    p.height - p.lines.len() - 1 - used
}

/// Places the footnotes of a line: a new page first if they do not
/// leave room for the line.
pub open spec fn place_line_notes(f: Flow, line: Line) -> Flow {
    let labels = ref_labels(line);
    if labels.len() == 0 {
        f
    } else {
        let g = if room_with_notes(cur(f), need_from(f.notes, labels, 0, 0)) < 1 {
            new_page(f)
        } else {
            f
        };
        place_notes(g, labels, 0)
    }
}

/// Composes one line of a block: its footnotes, then a new page if the
/// line does not fit, then the line, then with double spacing a blank
/// row if the line is not the block's last and the page has room.
pub open spec fn compose_line(f: Flow, line: Line, more: bool, double: bool) -> Flow {
    let g = place_line_notes(f, line);
    let h = if room_for_line(cur(g)) < 1 {
        new_page(g)
    } else {
        g
    };
    let k = add_rows(h, seq![Some(line)]);
    if more && double && cur(k).height - cur(k).lines.len() > 1 {
        add_rows(k, seq![None])
    } else {
        k
    }
}

/// Composes the lines of a block from line `i` on.
pub open spec fn compose_lines(f: Flow, lines: Seq<Line>, i: int, double: bool) -> Flow
    decreases lines.len() - i,
{
    if i < 0 || i >= lines.len() {
        f
    } else {
        compose_lines(compose_line(f, lines[i], i < lines.len() - 1, double), lines, i + 1, double)
    }
}

/// Composes a block's footnotes and lines.
pub open spec fn compose_block(f: Flow, b: Block) -> Flow {
    compose_lines(
        Flow { notes: put_notes(f.notes, note_defs(b)), ..f },
        b.lines@,
        0,
        b.line_spacing == LineSpacing::Double,
    )
}

/// Blank rows before a block: a negative padding starts a new page and
/// leaves `-padding - 1` rows; then the larger of the block's padding
/// and the padding asked for after the previous block
pub open spec fn pad_block(f: Flow, b: Block) -> Flow {
    let pb = b.padding_before as int;
    let g = if pb < 0 {
        Flow { last_padding_after: 0, ..new_page(f) }
    } else {
        f
    };
    let before = if pb < 0 {
        -pb - 1
    } else {
        pb
    };
    let pad = if before >= g.last_padding_after {
        before
    } else {
        g.last_padding_after
    };
    add_rows(Flow { last_padding_after: b.padding_after as int, ..g }, blanks(pad))
}

/// Composes a block: its padding, then its footnotes and lines.
pub open spec fn compose(f: Flow, b: Block) -> Flow {
    compose_block(pad_block(f, b), b)
}

/// Opens the first page: with a title page, the title page is
/// unnumbered and numbering starts at `first_page` after it; otherwise
/// the first page is numbered `first_page`.
pub open spec fn open_flow(f: Flow, first_page: int, has_structure: bool) -> Flow {
    if f.pages.len() > 0 {
        f
    } else if has_structure {
        Flow { next_page_no: first_page, ..new_page(f) }
    } else {
        new_page(Flow { next_page_no: first_page, ..f })
    }
}

/// Flows the blocks from `i` on: contact blocks are set aside, table
/// of contents entries are recorded with the number of the page being
/// filled, and every other block is composed.
pub open spec fn flow_blocks(
    f: Flow,
    contact: Option<Block>,
    toc: Seq<(int, Block)>,
    blocks: Seq<Block>,
    i: int,
) -> (Flow, Option<Block>, Seq<(int, Block)>)
    decreases blocks.len() - i,
{
    if i < 0 || i >= blocks.len() {
        (f, contact, toc)
    } else {
        let b = blocks[i];
        match b.tag {
            Some(Tag::Contact) => flow_blocks(f, Some(b), toc, blocks, i + 1),
            Some(Tag::ToC) => flow_blocks(f, contact, toc.push((cur(f).number, b)), blocks, i + 1),
            _ => flow_blocks(compose(f, b), contact, toc, blocks, i + 1),
        }
    }
}

/// Column of the table of contents heading: centered between the margins
pub open spec fn toc_heading_column(n: int) -> int {
    (LEFT_MARGIN + (RIGHT_MARGIN - LEFT_MARGIN) / 2) - n / 2 - n % 2
}

/// Whether `h` is the heading block of the table of contents: one
/// centered line, on a new page, followed by a chapter's padding
pub open spec fn toc_heading(h: Block) -> bool {
    let title = "Table of Contents"@;
    &&& h.lines@.len() == 1
    &&& h.lines@[0].column == toc_heading_column(title.len() as int)
    &&& h.lines@[0].segments@.len() == 1
    &&& plain_segment(h.lines@[0].segments@[0], title)
    &&& h.lines@[0].note_refs@.len() == 0
    &&& h.footnotes@.len() == 0
    &&& h.line_spacing == LineSpacing::Single
    &&& h.padding_before == -1
    &&& h.padding_after == CHAPTER_SKIP
    &&& h.tag == Some(Tag::ToC)
}

/// Whether `e` is the table of contents entry made of block `b` found
/// on page `page_no`: its first line gets the dot leader and the page
/// number as one more segment; all else stays.
pub open spec fn toc_entry(b: Block, e: Block, page_no: int) -> bool {
    let l = b.lines@[0];
    let m = e.lines@[0];
    &&& b.lines@.len() > 0
    &&& e.lines@.len() == b.lines@.len()
    &&& e.lines@.drop_first() == b.lines@.drop_first()
    &&& m.column == l.column
    &&& m.note_refs == l.note_refs
    &&& m.segments@.len() == l.segments@.len() + 1
    &&& m.segments@.drop_last() == l.segments@
    &&& plain_segment(m.segments@.last(), leader(capped(l.width() as int), page_no))
    &&& e.footnotes == b.footnotes
    &&& e.line_spacing == b.line_spacing
    &&& e.padding_before == b.padding_before
    &&& e.padding_after == b.padding_after
    &&& e.tag == b.tag
}

/// Whether `es` are the entries made of the recorded blocks `toc`, in
/// order; a block without lines makes none.
pub open spec fn entries_of(toc: Seq<(int, Block)>, es: Seq<Block>) -> bool
    decreases toc.len(),
{
    if toc.len() == 0 {
        es.len() == 0
    } else if toc.last().1.lines@.len() == 0 {
        entries_of(toc.drop_last(), es)
    } else {
        &&& es.len() > 0
        &&& toc_entry(toc.last().1, es.last(), toc.last().0)
        &&& entries_of(toc.drop_last(), es.drop_last())
    }
}

/// Recorded table of contents entries, with their page numbers as integers
pub open spec fn recorded(toc: Seq<(i32, Block)>) -> Seq<(int, Block)> {
    toc.map_values(|e: (i32, Block)| (e.0 as int, e.1))
}

/// Composes a table of contents entry, on a new page if it does not fit
/// whole, with a row to spare, on the page being filled.
pub open spec fn toc_step(f: Flow, e: Block) -> Flow {
    let p = cur(f);
    let g = if p.height - p.lines.len() - 2 < block_rows(e) {
        Flow { last_padding_after: 0, ..new_page(f) }
    } else {
        f
    };
    compose(g, e)
}

/// Composes table of contents entries in order.
pub open spec fn toc_steps(f: Flow, es: Seq<Block>) -> Flow
    decreases es.len(),
{
    if es.len() == 0 {
        f
    } else {
        toc_step(toc_steps(f, es.drop_last()), es.last())
    }
}

/// The table of contents after the main flow: its heading on a new,
/// unnumbered page, then each entry
pub open spec fn toc_flow(f: Flow, h: Block, es: Seq<Block>) -> Flow {
    toc_steps(compose(Flow { next_page_no: -1, ..f }, h), es)
}

pub proof fn lemma_add_rows_twice(f: Flow, a: Seq<Option<Line>>, b: Seq<Option<Line>>)
    requires
        f.pages.len() > 0,
    ensures
        add_rows(add_rows(f, a), b) == add_rows(f, a + b),
{
    assert((cur(f).lines + a) + b =~= cur(f).lines + (a + b));
    assert(add_rows(add_rows(f, a), b).pages =~= add_rows(f, a + b).pages);
}

pub proof fn lemma_add_footer_twice(f: Flow, a: Seq<Option<Line>>, b: Seq<Option<Line>>)
    requires
        f.pages.len() > 0,
    ensures
        add_footer(add_footer(f, a), b) == add_footer(f, a + b),
{
    assert((cur(f).footer + a) + b =~= cur(f).footer + (a + b));
    assert(add_footer(add_footer(f, a), b).pages =~= add_footer(f, a + b).pages);
}

pub proof fn lemma_add_empty(f: Flow)
    requires
        f.pages.len() > 0,
    ensures
        add_rows(f, Seq::empty()) == f,
        add_footer(f, Seq::empty()) == f,
{
    assert(cur(f).lines + Seq::<Option<Line>>::empty() =~= cur(f).lines);
    assert(cur(f).footer + Seq::<Option<Line>>::empty() =~= cur(f).footer);
    assert(add_rows(f, Seq::empty()).pages =~= f.pages);
    assert(add_footer(f, Seq::empty()).pages =~= f.pages);
}

/// Whether `g` has the pages of `f` with the same numbers, heights
/// and content rows, and the same counters; only footers may differ.
pub open spec fn same_rows(f: Flow, g: Flow) -> bool {
    &&& g.pages.len() == f.pages.len()
    &&& g.next_page_no == f.next_page_no
    &&& g.last_padding_after == f.last_padding_after
    &&& forall|p: int|
        0 <= p < f.pages.len() ==> {
            &&& (#[trigger] g.pages[p]).lines == f.pages[p].lines
            &&& g.pages[p].number == f.pages[p].number
            &&& g.pages[p].height == f.pages[p].height
        }
}

proof fn lemma_place_notes_rows(f: Flow, labels: Seq<Seq<char>>, k: int)
    requires
        f.pages.len() > 0,
    ensures
        same_rows(f, place_notes(f, labels, k)),
    decreases labels.len() - k,
{
    if 0 <= k < labels.len() {
        let idx = note_index(f.notes, labels[k]);
        if idx >= 0 {
            let bs = f.notes[idx].1;
            let g = Flow { notes: f.notes.remove(idx), ..f };
            let sep: Seq<Option<Line>> = if cur(g).footer.len() > 0 {
                seq![None]
            } else {
                Seq::empty()
            };
            let h = add_footer(g, sep + note_rows(bs, 0));
            lemma_place_notes_rows(h, labels, k + 1);
            assert(same_rows(f, h));
        } else {
            lemma_place_notes_rows(f, labels, k + 1);
        }
    }
}

proof fn lemma_compose_line_keeps(f: Flow, line: Line, more: bool, double: bool)
    requires
        f.pages.len() > 0,
    ensures
        compose_line(f, line, more, double).last_padding_after == f.last_padding_after,
        compose_line(f, line, more, double).pages.len() >= f.pages.len(),
        cur(compose_line(f, line, more, double)).lines.last() == Some(line) || (more && double),
{
    let labels = ref_labels(line);
    if labels.len() > 0 {
        let g = if room_with_notes(cur(f), need_from(f.notes, labels, 0, 0)) < 1 {
            new_page(f)
        } else {
            f
        };
        lemma_place_notes_rows(g, labels, 0);
    }
}

proof fn lemma_compose_lines_keeps(f: Flow, lines: Seq<Line>, i: int, double: bool)
    requires
        f.pages.len() > 0,
        0 <= i,
    ensures
        compose_lines(f, lines, i, double).last_padding_after == f.last_padding_after,
        compose_lines(f, lines, i, double).pages.len() >= f.pages.len(),
        i < lines.len() ==> cur(compose_lines(f, lines, i, double)).lines.last() == Some(lines.last()),
    decreases lines.len() - i,
{
    if i < lines.len() {
        let g = compose_line(f, lines[i], i < lines.len() - 1, double);
        lemma_compose_line_keeps(f, lines[i], i < lines.len() - 1, double);
        lemma_compose_lines_keeps(g, lines, i + 1, double);
        if i == lines.len() - 1 {
            assert(compose_lines(g, lines, i + 1, double) == g);
        }
    }
}

/// Padding collapses to the larger value, never the sum: after a block
/// that asks for `padding_after` blank rows, a block with a padding
/// before it of zero or more gets the larger of the two as blank rows.
pub proof fn lemma_padding_collapse(f: Flow, a: Block, b: Block)
    requires
        f.pages.len() > 0,
        b.padding_before >= 0,
    ensures
        ({
            let g = compose(f, a);
            let m = if (a.padding_after as int) >= (b.padding_before as int) {
                a.padding_after as int
            } else {
                b.padding_before as int
            };
            pad_block(g, b) == add_rows(Flow { last_padding_after: b.padding_after as int, ..g }, blanks(m))
        }),
{
    let p = pad_block(f, a);
    lemma_compose_lines_keeps(
        Flow { notes: put_notes(p.notes, note_defs(a)), ..p },
        a.lines@,
        0,
        a.line_spacing == LineSpacing::Double,
    );
}

/// A line whose footnotes do not fit on the page being filled starts a
/// new page before either is placed: the footnotes go to the footer of
/// the new page, and so does the line, unless the footnotes leave it no
/// room there.
pub proof fn lemma_footnote_overflow(f: Flow, line: Line, more: bool, double: bool)
    requires
        f.pages.len() > 0,
        ref_labels(line).len() > 0,
        room_with_notes(cur(f), need_from(f.notes, ref_labels(line), 0, 0)) < 1,
    ensures
        place_line_notes(f, line) == place_notes(new_page(f), ref_labels(line), 0),
        place_line_notes(f, line).pages.len() == f.pages.len() + 1,
        room_for_line(cur(place_line_notes(f, line))) >= 1 ==> {
            let c = compose_line(f, line, more, double);
            &&& c.pages.len() == f.pages.len() + 1
            &&& cur(c).lines[0] == Some(line)
        },
{
    let g = new_page(f);
    lemma_place_notes_rows(g, ref_labels(line), 0);
    let h = place_line_notes(f, line);
    assert(cur(h).lines == cur(g).lines);
}

/// Rows that lines `i` on of a block take: one per line, and with double
/// spacing one more between each two
pub open spec fn rest_rows(n: int, i: int, double: bool) -> int {
    if i >= n {
        0
    } else if double {
        2 * (n - i) - 1
    } else {
        n - i
    }
}

proof fn lemma_lines_rows(f: Flow, lines: Seq<Line>, i: int, double: bool)
    requires
        f.pages.len() > 0,
        cur(f).footer.len() == 0,
        0 <= i <= lines.len(),
        forall|k: int| 0 <= k < lines.len() ==> (#[trigger] lines[k]).note_refs@.len() == 0,
        cur(f).height - cur(f).lines.len() >= rest_rows(lines.len() as int, i, double) + 1,
    ensures
        compose_lines(f, lines, i, double).pages.len() == f.pages.len(),
        cur(compose_lines(f, lines, i, double)).lines.len() == cur(f).lines.len() + rest_rows(lines.len() as int, i, double),
        cur(compose_lines(f, lines, i, double)).footer.len() == 0,
    decreases lines.len() - i,
{
    if i < lines.len() {
        let line = lines[i];
        assert(ref_labels(line).len() == 0);
        let g = compose_line(f, line, i < lines.len() - 1, double);
        lemma_lines_rows(g, lines, i + 1, double);
    }
}

/// A block's lines fill as many content rows as it counts: n single
/// spaced, 2n - 1 double spaced, when they fit on the page being filled
/// with a row to spare, carry no note references, and the footer is empty.
pub proof fn lemma_block_rows_placed(f: Flow, b: Block)
    requires
        f.pages.len() > 0,
        cur(f).footer.len() == 0,
        forall|k: int| 0 <= k < b.lines@.len() ==> (#[trigger] b.lines@[k]).note_refs@.len() == 0,
        cur(f).height - cur(f).lines.len() >= block_rows(b) + 1,
    ensures
        compose_block(f, b).pages.len() == f.pages.len(),
        cur(compose_block(f, b)).lines.len() == cur(f).lines.len() + block_rows(b),
{
    let double = b.line_spacing == LineSpacing::Double;
    let g = Flow { notes: put_notes(f.notes, note_defs(b)), ..f };
    lemma_lines_rows(g, b.lines@, 0, double);
}

/// A table of contents entry that follows a block records the number of
/// the page that holds that block's last line.
pub proof fn lemma_toc_page_number(f: Flow, contact: Option<Block>, toc: Seq<(int, Block)>, b: Block, e: Block)
    requires
        f.pages.len() > 0,
        b.tag.is_none(),
        b.lines@.len() > 0,
        e.tag == Some(Tag::ToC),
    ensures
        ({
            let g = compose(f, b);
            &&& flow_blocks(f, contact, toc, seq![b, e], 0) == (g, contact, toc.push((cur(g).number, e)))
            &&& cur(g).lines.last() == Some(b.lines@.last())
        }),
{
    let p = pad_block(f, b);
    lemma_compose_lines_keeps(
        Flow { notes: put_notes(p.notes, note_defs(b)), ..p },
        b.lines@,
        0,
        b.line_spacing == LineSpacing::Double,
    );
    let g = compose(f, b);
    let bs = seq![b, e];
    assert(flow_blocks(g, contact, toc.push((cur(g).number, e)), bs, 2) == (g, contact, toc.push((cur(g).number, e))));
    assert(flow_blocks(g, contact, toc, bs, 1) == flow_blocks(g, contact, toc.push((cur(g).number, e)), bs, 2));
}

} // verus!
