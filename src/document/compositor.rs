//! Flows formatted text blocks into pages, splitting them at page
//! breaks where needed, placing footnotes in page footers and setting
//! table of contents entries aside until the page numbers are known

use vstd::prelude::*;

use crate::document::flow::{
    add_footer, add_rows, blanks, compose, compose_block, compose_line, compose_lines, cur,
    entries_of, find_note, flow_blocks, lemma_add_empty, lemma_add_footer_twice,
    lemma_add_rows_twice, need_from, new_page, note_block_rows, note_index, note_rows, open_flow,
    pad_block, place_line_notes, place_notes, put_note, put_notes, recorded, ref_labels,
    room_with_notes, toc_entry, toc_flow, toc_heading, toc_steps, Flow,
};
use crate::document::toc::leader_string;
use crate::document::{
    capped, count_lines, lemma_rows_from_nonneg, list_rows, Block, BlockList, LineSpacing, Page,
    PageList, PageView, Tag, CHAPTER_SKIP, LEFT_MARGIN, PAGE_HEIGHT, RIGHT_MARGIN,
};
use crate::text::{Line, Segment};

verus! {

/// Turns block lists into page lists
pub struct Compositor {
    /// Contact information found in the document, set aside for the writer
    pub contact: Option<Block>,
    /// The pages composed so far
    pub pages: PageList,
    /// Pending footnotes, each under its label.  A list of pairs stands
    /// for a map from labels to footnotes: with `String` keys Verus proves
    /// nothing of a hash map's contents.  Recording a footnote replaces
    /// one with the same label, so the labels stay unique
    /// (`lemma_put_notes_unique`).
    pub footnotes: Vec<(String, BlockList)>,
    /// Number of the first numbered page
    pub first_page: i32,
    /// Number of the next page
    pub next_page_no: i32,
    /// Whether the document has parts, chapters or sections, and so an
    /// unnumbered title page
    pub has_structure: bool,
    /// Blank rows asked for after the last block
    pub last_padding_after: usize,
}

impl Compositor {
    /// The state of the page flow
    pub open spec fn flow(&self) -> Flow {
        Flow {
            pages: self.pages@.map_values(|p: Page| p@),
            notes: self.footnotes@.map_values(|e: (String, Vec<Block>)| (e.0@, e.1@)),
            next_page_no: self.next_page_no as int,
            last_padding_after: self.last_padding_after as int,
        }
    }

    /// Fields the flow leaves alone
    pub open spec fn same_setup(&self, other: &Compositor) -> bool {
        &&& self.contact == other.contact
        &&& self.first_page == other.first_page
        &&& self.has_structure == other.has_structure
    }

    /// Create a new compositor that will start numbering at the given
    /// page number.  With `has_structure` the document has a title page,
    /// which is unnumbered.
    pub fn new(first_page: i32, has_structure: bool) -> (r: Self)
        ensures
            r.contact.is_none(),
            r.pages@.len() == 0,
            r.footnotes@.len() == 0,
            r.first_page == first_page,
            r.next_page_no == -1,
            r.has_structure == has_structure,
            r.last_padding_after == 0,
    {
        Compositor {
            contact: None,
            pages: Vec::new(),
            footnotes: Vec::new(),
            first_page,
            next_page_no: -1,
            has_structure,
            last_padding_after: 0,
        }
    }

    fn start_a_new_page(&mut self)
        ensures
            final(self).flow() == new_page(old(self).flow()),
            final(self).pages@.len() == old(self).pages@.len() + 1,
            final(self).same_setup(old(self)),
    {
        let page = Page {
            number: self.next_page_no,
            height: PAGE_HEIGHT,
            lines: Vec::new(),
            footer: Vec::new(),
        };
        self.pages.push(page);
        if self.next_page_no < i32::MAX {
            self.next_page_no = self.next_page_no + 1;
        }
        assert(self.flow().pages =~= new_page(old(self).flow()).pages);
    }

    fn push_row(&mut self, row: Option<Line>)
        requires
            old(self).pages@.len() > 0,
        ensures
            final(self).flow() == add_rows(old(self).flow(), seq![row]),
            final(self).pages@.len() == old(self).pages@.len(),
            final(self).same_setup(old(self)),
    {
        let mut p = self.pages.pop().unwrap();
        let ghost q = p@;
        p.lines.push(row);
        assert(p@.lines =~= q.lines + seq![row]);
        assert(p@ == PageView { lines: q.lines + seq![row], ..q });
        self.pages.push(p);
        assert(self.flow().pages =~= add_rows(old(self).flow(), seq![row]).pages);
    }

    fn push_footer_row(&mut self, row: Option<Line>)
        requires
            old(self).pages@.len() > 0,
        ensures
            final(self).flow() == add_footer(old(self).flow(), seq![row]),
            final(self).pages@.len() == old(self).pages@.len(),
            final(self).same_setup(old(self)),
    {
        let mut p = self.pages.pop().unwrap();
        let ghost q = p@;
        p.footer.push(row);
        assert(p@.footer =~= q.footer + seq![row]);
        assert(p@ == PageView { footer: q.footer + seq![row], ..q });
        self.pages.push(p);
        assert(self.flow().pages =~= add_footer(old(self).flow(), seq![row]).pages);
    }
}

impl Compositor {
    fn find_note(&self, label: &String) -> (r: Option<usize>)
        ensures
            match r {
                Some(k) => note_index(self.flow().notes, label@) == k as int && k < self.footnotes@.len(),
                None => note_index(self.flow().notes, label@) == -1,
            },
    {
        let ghost notes = self.flow().notes;
        let mut k: usize = 0;
        while k < self.footnotes.len()
            invariant
                k <= self.footnotes@.len() == notes.len(),
                notes == self.flow().notes,
                find_note(notes, label@, k as int) == note_index(notes, label@),
            decreases self.footnotes@.len() - k,
        {
            if self.footnotes[k].0 == *label {
                return Some(k);
            }
            k = k + 1;
        }
        None
    }

    fn put_note(&mut self, label: String, blocks: BlockList)
        ensures
            final(self).flow() == (Flow { notes: put_note(old(self).flow().notes, (label@, blocks@)), ..old(self).flow() }),
            final(self).pages == old(self).pages,
            final(self).same_setup(old(self)),
    {
        let ghost e = (label@, blocks@);
        match self.find_note(&label) {
            Some(k) => {
                self.footnotes.remove(k);
                self.footnotes.insert(k, (label, blocks));
                assert(self.flow().notes =~= old(self).flow().notes.update(k as int, e));
            },
            None => {
                self.footnotes.push((label, blocks));
                assert(self.flow().notes =~= old(self).flow().notes.push(e));
            },
        }
    }

    /// Records the footnotes that a block defines, in order.
    fn put_notes(&mut self, defs: Vec<(String, BlockList)>)
        ensures
            final(self).flow() == (Flow {
                notes: put_notes(old(self).flow().notes, defs@.map_values(|e: (String, Vec<Block>)| (e.0@, e.1@))),
                ..old(self).flow()
            }),
            final(self).pages == old(self).pages,
            final(self).same_setup(old(self)),
    {
        let ghost all = defs@.map_values(|e: (String, Vec<Block>)| (e.0@, e.1@));
        let ghost orig = defs@;
        let n = defs.len();
        let mut defs = defs;
        let mut i: usize = 0;
        assert(all.take(0) =~= Seq::empty());
        while defs.len() > 0
            invariant
                i + defs@.len() == orig.len() == n,
                defs@ == orig.skip(i as int),
                all == orig.map_values(|e: (String, Vec<Block>)| (e.0@, e.1@)),
                self.flow() == (Flow { notes: put_notes(old(self).flow().notes, all.take(i as int)), ..old(self).flow() }),
                self.pages == old(self).pages,
                self.same_setup(old(self)),
            decreases defs@.len(),
        {
            let (label, blocks) = defs.remove(0);
            proof {
                assert(all.take(i + 1).drop_last() =~= all.take(i as int));
                assert(orig[i as int] == (label, blocks));
            }
            self.put_note(label, blocks);
            i = i + 1;
            assert(defs@ =~= orig.skip(i as int));
        }
        assert(all.take(i as int) =~= all);
    }

    /// Footer rows the footnotes referred to by `refs` need (capped at
    /// `usize::MAX`)
    fn footer_need(&self, refs: &Vec<String>) -> (r: usize)
        ensures
            r == capped(need_from(self.flow().notes, refs@.map_values(|s: String| s@), 0, 0)),
    {
        let ghost notes = self.flow().notes;
        let ghost labels = refs@.map_values(|s: String| s@);
        let mut h: usize = 0;
        let mut j: usize = 0;
        let mut k: usize = 0;
        let ghost acc: int = 0;
        while k < refs.len()
            invariant
                k <= refs@.len() == labels.len(),
                j <= k,
                notes == self.flow().notes,
                labels == refs@.map_values(|s: String| s@),
                acc >= 0,
                h == capped(acc),
                acc + need_from(notes, labels, k as int, j as int) == need_from(notes, labels, 0, 0),
            decreases refs@.len() - k,
        {
            let sep: usize = if j > 0 {
                1
            } else {
                0
            };
            h = h.saturating_add(sep);
            proof {
                acc = acc + sep;
            }
            match self.find_note(&refs[k]) {
                Some(idx) => {
                    let c = count_lines(&self.footnotes[idx].1);
                    proof {
                        lemma_rows_from_nonneg(notes[idx as int].1, 0, 0);
                        acc = acc + list_rows(notes[idx as int].1);
                    }
                    h = h.saturating_add(c);
                    j = j + 1;
                },
                None => {},
            }
            k = k + 1;
        }
        h
    }

    /// Appends the rows of one footnote to the footer of the page being
    /// filled.
    fn place_note_blocks(&mut self, bs: BlockList)
        requires
            old(self).pages@.len() > 0,
        ensures
            final(self).flow() == add_footer(old(self).flow(), note_rows(bs@, 0)),
            final(self).pages@.len() == old(self).pages@.len(),
            final(self).same_setup(old(self)),
    {
        let ghost orig = bs@;
        let m = bs.len();
        let mut bs = bs;
        let mut j: usize = 0;
        proof {
            lemma_add_empty(self.flow());
        }
        while bs.len() > 0
            invariant
                j + bs@.len() == orig.len() == m,
                bs@ == orig.skip(j as int),
                self.pages@.len() == old(self).pages@.len() > 0,
                self.same_setup(old(self)),
                add_footer(self.flow(), note_rows(orig, j as int)) == add_footer(old(self).flow(), note_rows(orig, 0)),
            decreases bs@.len(),
        {
            let b = bs.remove(0);
            assert(orig[j as int] == b);
            let last = bs.len() == 0;
            let double = b.line_spacing == LineSpacing::Double;
            let ghost gb = b;
            let n = b.lines.len();
            let mut ls = b.lines;
            let mut k: usize = 0;
            let ghost f0 = self.flow();
            proof {
                lemma_add_footer_twice(f0, note_block_rows(gb, last, 0), note_rows(orig, j + 1));
                lemma_add_empty(f0);
            }
            while ls.len() > 0
                invariant
                    k + ls@.len() == gb.lines@.len() == n,
                    ls@ == gb.lines@.skip(k as int),
                    double == (gb.line_spacing == LineSpacing::Double),
                    self.pages@.len() == old(self).pages@.len() > 0,
                    self.same_setup(old(self)),
                    add_footer(self.flow(), note_block_rows(gb, last, k as int)) == add_footer(f0, note_block_rows(gb, last, 0)),
                decreases ls@.len(),
            {
                let l = ls.remove(0);
                assert(gb.lines@[k as int] == l);
                let ghost f1 = self.flow();
                let ghost gap: Seq<Option<Line>> = if (!last || k < n - 1) && double {
                    seq![None]
                } else {
                    Seq::empty()
                };
                proof {
                    assert(note_block_rows(gb, last, k as int) == seq![Some(l)] + gap + note_block_rows(gb, last, k + 1));
                    lemma_add_footer_twice(f1, seq![Some(l)] + gap, note_block_rows(gb, last, k + 1));
                    lemma_add_footer_twice(f1, seq![Some(l)], gap);
                }
                self.push_footer_row(Some(l));
                if (!last || k < n - 1) && double {
                    self.push_footer_row(None);
                } else {
                    proof {
                        lemma_add_empty(self.flow());
                    }
                }
                k = k + 1;
                assert(ls@ =~= gb.lines@.skip(k as int));
            }
            proof {
                assert(note_block_rows(gb, last, k as int) == Seq::<Option<Line>>::empty());
                lemma_add_empty(self.flow());
                assert(last == (j == orig.len() - 1));
            }
            j = j + 1;
            assert(bs@ =~= orig.skip(j as int));
        }
        proof {
            lemma_add_empty(self.flow());
        }
    }

    /// Moves the pending footnotes that `refs` refer to into the footer
    /// of the page being filled.
    fn place_notes(&mut self, refs: &Vec<String>)
        requires
            old(self).pages@.len() > 0,
        ensures
            final(self).flow() == place_notes(old(self).flow(), refs@.map_values(|s: String| s@), 0),
            final(self).pages@.len() == old(self).pages@.len(),
            final(self).same_setup(old(self)),
    {
        let ghost labels = refs@.map_values(|s: String| s@);
        let mut k: usize = 0;
        while k < refs.len()
            invariant
                k <= refs@.len() == labels.len(),
                labels == refs@.map_values(|s: String| s@),
                self.pages@.len() == old(self).pages@.len() > 0,
                self.same_setup(old(self)),
                place_notes(self.flow(), labels, k as int) == place_notes(old(self).flow(), labels, 0),
            decreases refs@.len() - k,
        {
            match self.find_note(&refs[k]) {
                Some(idx) => {
                    let ghost f = self.flow();
                    let (_, bs) = self.footnotes.remove(idx);
                    let ghost g = Flow { notes: f.notes.remove(idx as int), ..f };
                    assert(self.flow().notes =~= g.notes);
                    assert(bs@ == f.notes[idx as int].1);
                    let last = self.pages.len() - 1;
                    let ghost sep: Seq<Option<Line>> = if cur(g).footer.len() > 0 {
                        seq![None]
                    } else {
                        Seq::empty()
                    };
                    proof {
                        lemma_add_footer_twice(g, sep, note_rows(bs@, 0));
                    }
                    if self.pages[last].footer.len() > 0 {
                        self.push_footer_row(None);
                    } else {
                        proof {
                            lemma_add_empty(g);
                        }
                    }
                    self.place_note_blocks(bs);
                },
                None => {},
            }
            k = k + 1;
        }
    }

    /// Composes one line of a block; `more` tells that more lines of the
    /// block follow.
    fn compose_line(&mut self, line: Line, more: bool, double: bool)
        requires
            old(self).pages@.len() > 0,
        ensures
            final(self).flow() == compose_line(old(self).flow(), line, more, double),
            final(self).pages@.len() >= old(self).pages@.len(),
            final(self).same_setup(old(self)),
    {
        if line.note_refs.len() > 0 {
            let need = self.footer_need(&line.note_refs);
            let last = self.pages.len() - 1;
            let p = &self.pages[last];
            let used: i128 = if p.footer.len() > 0 {
                1 + p.footer.len() as i128
            } else {
                0
            };
            let room: i128 = p.height as i128 - p.lines.len() as i128 - 1 - need as i128 - 2 - used;
            proof {
                let exact = need_from(self.flow().notes, ref_labels(line), 0, 0);
                assert(ref_labels(line) == line.note_refs@.map_values(|s: String| s@));
                assert(cur(self.flow()) == p@);
                assert((room < 1) == (room_with_notes(p@, exact) < 1));
            }
            if room < 1 {
                self.start_a_new_page();
            }
            self.place_notes(&line.note_refs);
        }
        assert(self.flow() == place_line_notes(old(self).flow(), line));
        let last = self.pages.len() - 1;
        let p = &self.pages[last];
        let used: i128 = if p.footer.len() > 0 {
            p.footer.len() as i128 + 2
        } else {
            0
        };
        let room: i128 = p.height as i128 - p.lines.len() as i128 - 1 - used;
        assert(cur(self.flow()) == p@);
        if room < 1 {
            self.start_a_new_page();
        }
        self.push_row(Some(line));
        let last = self.pages.len() - 1;
        let p = &self.pages[last];
        assert(cur(self.flow()) == p@);
        if more && double && (p.height as i128 - p.lines.len() as i128) > 1 {
            self.push_row(None);
        }
    }

    /// Composes a block's footnotes and lines onto the pages.
    fn compose_block(&mut self, block: Block)
        requires
            old(self).pages@.len() > 0,
        ensures
            final(self).flow() == compose_block(old(self).flow(), block),
            final(self).pages@.len() >= old(self).pages@.len(),
            final(self).same_setup(old(self)),
    {
        let ghost b = block;
        let Block { lines, footnotes, line_spacing, .. } = block;
        self.put_notes(footnotes);
        let double = line_spacing == LineSpacing::Double;
        let n = lines.len();
        let mut ls = lines;
        let mut i: usize = 0;
        while ls.len() > 0
            invariant
                i + ls@.len() == b.lines@.len() == n,
                ls@ == b.lines@.skip(i as int),
                double == (b.line_spacing == LineSpacing::Double),
                self.pages@.len() >= old(self).pages@.len() > 0,
                self.same_setup(old(self)),
                compose_lines(self.flow(), b.lines@, i as int, double) == compose_block(old(self).flow(), b),
            decreases ls@.len(),
        {
            let l = ls.remove(0);
            assert(b.lines@[i as int] == l);
            self.compose_line(l, i < n - 1, double);
            i = i + 1;
            assert(ls@ =~= b.lines@.skip(i as int));
        }
    }

    /// Consumes a block, adding its padding, footnotes and lines to the
    /// pages.
    fn compose(&mut self, block: Block)
        requires
            old(self).pages@.len() > 0,
        ensures
            final(self).flow() == compose(old(self).flow(), block),
            final(self).pages@.len() >= old(self).pages@.len(),
            final(self).same_setup(old(self)),
    {
        let pb = block.padding_before as i64;
        if pb < 0 {
            self.start_a_new_page();
            self.last_padding_after = 0;
        }
        let before: usize = if pb < 0 {
            (-pb - 1) as usize
        } else {
            pb as usize
        };
        let pad = if before >= self.last_padding_after {
            before
        } else {
            self.last_padding_after
        };
        self.last_padding_after = block.padding_after;
        let ghost g = self.flow();
        let mut t: usize = 0;
        proof {
            assert(blanks(0) =~= Seq::<Option<Line>>::empty());
            lemma_add_empty(g);
        }
        while t < pad
            invariant
                t <= pad,
                g.pages.len() > 0,
                self.pages@.len() == g.pages.len(),
                self.flow() == add_rows(g, blanks(t as int)),
                self.same_setup(old(self)),
            decreases pad - t,
        {
            proof {
                lemma_add_rows_twice(g, blanks(t as int), seq![None]);
                assert(blanks(t as int) + seq![None] =~= blanks(t + 1));
            }
            self.push_row(None);
            t = t + 1;
        }
        assert(self.flow() == pad_block(old(self).flow(), block));
        self.compose_block(block);
    }

    /// Composes the table of contents after the main flow.
    fn compose_toc(&mut self, toc: Vec<(i32, Block)>) -> (w: Ghost<(Block, Seq<Block>)>)
        requires
            old(self).pages@.len() > 0,
        ensures
            toc_heading(w@.0),
            entries_of(recorded(toc@), w@.1),
            final(self).flow() == toc_flow(old(self).flow(), w@.0, w@.1),
            final(self).pages@.len() >= old(self).pages@.len(),
            final(self).same_setup(old(self)),
    {
        let ghost all = recorded(toc@);
        let title = "Table of Contents";
        let s = Segment::from_str(title);
        let n = s.text.as_str().unicode_len();
        proof {
            reveal_strlit("Table of Contents");
        }
        let center = LEFT_MARGIN + (RIGHT_MARGIN - LEFT_MARGIN) / 2;
        let mut segments = Vec::new();
        segments.push(s);
        let header = Line { column: center - n / 2 - n % 2, segments, note_refs: Vec::new() };
        let mut lines = Vec::new();
        lines.push(header);
        let heading = Block {
            lines,
            footnotes: Vec::new(),
            line_spacing: LineSpacing::Single,
            padding_before: -1,
            padding_after: CHAPTER_SKIP,
            tag: Some(Tag::ToC),
        };
        let ghost h = heading;
        assert(toc_heading(h));
        self.next_page_no = -1;
        assert(self.flow() == (Flow { next_page_no: -1, ..old(self).flow() }));
        self.compose(heading);
        let ghost f0 = self.flow();
        let ghost es: Seq<Block> = Seq::empty();
        assert(toc_steps(f0, es) == f0);
        let ghost orig = toc@;
        let m = toc.len();
        let mut toc = toc;
        let mut i: usize = 0;
        assert(all.take(0) =~= Seq::empty());
        while toc.len() > 0
            invariant
                i + toc@.len() == orig.len() == m,
                toc@ == orig.skip(i as int),
                all == recorded(orig),
                self.pages@.len() > 0,
                self.pages@.len() >= old(self).pages@.len(),
                self.same_setup(old(self)),
                entries_of(all.take(i as int), es),
                self.flow() == toc_steps(f0, es),
            decreases toc@.len(),
        {
            let (page_no, block) = toc.remove(0);
            let ghost b = block;
            proof {
                assert(orig[i as int] == (page_no, block));
                assert(all.take(i + 1).drop_last() =~= all.take(i as int));
                assert(all.take(i + 1).last() == (page_no as int, b));
            }
            if block.lines.len() > 0 {
                let mut block = block;
                let mut line = block.lines.remove(0);
                let ghost l = line;
                let w = line.length();
                let tail = leader_string(w, page_no);
                line.segments.push(Segment::from_string(tail));
                assert(line.segments@.drop_last() =~= l.segments@);
                block.lines.insert(0, line);
                assert(block.lines@.drop_first() =~= b.lines@.drop_first());
                let ghost e = block;
                assert(toc_entry(b, e, page_no as int));
                let last = self.pages.len() - 1;
                let p = &self.pages[last];
                let remainder: i128 = p.height as i128 - p.lines.len() as i128 - 1 - 1;
                let c = block.count_lines();
                assert(cur(self.flow()) == p@);
                if remainder < c as i128 {
                    self.start_a_new_page();
                    self.last_padding_after = 0;
                }
                self.compose(block);
                proof {
                    assert(es.push(e).drop_last() =~= es);
                    es = es.push(e);
                }
            }
            i = i + 1;
            assert(toc@ =~= orig.skip(i as int));
        }
        assert(all.take(i as int) =~= all);
        Ghost((h, es))
    }

    /// Flows a sequence of blocks into pages.  Contact blocks are set
    /// aside, table of contents entries are recorded with the number of
    /// the page being filled and composed after the rest, with a heading
    /// of their own.
    pub fn run(self, blocks: BlockList) -> (r: Self)
        ensures
            ({
                let (f, c, toc) = flow_blocks(
                    open_flow(self.flow(), self.first_page as int, self.has_structure),
                    self.contact,
                    Seq::empty(),
                    blocks@,
                    0,
                );
                &&& r.contact == c
                &&& r.first_page == self.first_page
                &&& r.has_structure == self.has_structure
                &&& toc.len() == 0 ==> r.flow() == f
                &&& toc.len() > 0 ==> exists|h: Block, es: Seq<Block>|
                    toc_heading(h) && entries_of(toc, es) && r.flow() == toc_flow(f, h, es)
            }),
    {
        let ghost f0 = open_flow(self.flow(), self.first_page as int, self.has_structure);
        let ghost all = flow_blocks(f0, self.contact, Seq::empty(), blocks@, 0);
        let mut this = self;
        if this.pages.len() == 0 {
            if this.has_structure {
                this.start_a_new_page();
                this.next_page_no = this.first_page;
            } else {
                this.next_page_no = this.first_page;
                this.start_a_new_page();
            }
        }
        assert(this.flow() == f0);
        let mut toc: Vec<(i32, Block)> = Vec::new();
        let ghost orig = blocks@;
        let n = blocks.len();
        let mut bs = blocks;
        let mut i: usize = 0;
        assert(recorded(toc@) =~= Seq::empty());
        while bs.len() > 0
            invariant
                i + bs@.len() == orig.len() == n,
                bs@ == orig.skip(i as int),
                this.pages@.len() > 0,
                this.first_page == self.first_page,
                this.has_structure == self.has_structure,
                flow_blocks(this.flow(), this.contact, recorded(toc@), orig, i as int) == all,
            decreases bs@.len(),
        {
            let block = bs.remove(0);
            assert(orig[i as int] == block);
            let ghost tv = recorded(toc@);
            match block.tag {
                Some(Tag::Contact) => {
                    this.contact = Some(block);
                },
                Some(Tag::ToC) => {
                    let last = this.pages.len() - 1;
                    let no = this.pages[last].number;
                    assert(cur(this.flow()).number == no as int);
                    toc.push((no, block));
                    assert(recorded(toc@) =~= tv.push((no as int, block)));
                },
                _ => {
                    this.compose(block);
                },
            }
            i = i + 1;
            assert(bs@ =~= orig.skip(i as int));
        }
        let ghost tv = recorded(toc@);
        assert(flow_blocks(this.flow(), this.contact, tv, orig, i as int) == (this.flow(), this.contact, tv));
        assert(all == (this.flow(), this.contact, tv));
        if toc.len() > 0 {
            let w = this.compose_toc(toc);
            assert(toc_heading(w@.0) && entries_of(all.2, w@.1) && this.flow() == toc_flow(all.0, w@.0, w@.1));
        } else {
            assert(all.2.len() == 0);
        }
        this
    }
}

} // verus!
