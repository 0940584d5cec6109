//! In-memory representation of a document: pages, blocks and the
//! element tree

use vstd::prelude::*;

use crate::text::Line;
use crate::text::Segment;
use vstd::string::*;

pub mod compositor;
pub mod flow;
pub mod toc;
pub mod elements;
pub mod slug;

verus! {

/// Default indent in spaces
pub const INDENT: usize = 5;

/// Left margin in spaces
pub const LEFT_MARGIN: usize = 10;

/// Right margin in spaces
pub const RIGHT_MARGIN: usize = 74;

/// Slug line height
pub const SLUG_LINE: usize = 62;

/// Line number of the top line
pub const TOP_LINE: usize = 59;

/// Line number of the middle of the page
pub const MIDDLE_LINE: usize = 27;

/// Line number of the bottom line
pub const BOTTOM_LINE: usize = 6;

/// Number of lines to skip after a part title
pub const PART_SKIP: usize = 5;

/// Number of lines to skip after a chapter title
pub const CHAPTER_SKIP: usize = 11;

/// Number of lines to skip after a section title
pub const SECTION_SKIP: usize = 5;

/// Number of content rows on a page
pub const PAGE_HEIGHT: usize = 54;

/// Numbered page with its content rows and its footer rows
#[derive(Debug)]
pub struct Page {
    /// Page number; a page numbered zero or less prints no number.
    pub number: i32,
    /// Height of the page in rows
    pub height: usize,
    /// Content rows; a blank row is `None`.
    pub lines: Vec<Option<Line>>,
    /// Footer rows, printed at the bottom of the page
    pub footer: Vec<Option<Line>>,
}

/// Mathematical view of a page
pub struct PageView {
    pub number: int,
    pub height: int,
    pub lines: Seq<Option<Line>>,
    pub footer: Seq<Option<Line>>,
}

impl View for Page {
    type V = PageView;

    open spec fn view(&self) -> PageView {
        PageView {
            number: self.number as int,
            height: self.height as int,
            lines: self.lines@,
            footer: self.footer@,
        }
    }
}

/// Sequence of pages
pub type PageList = Vec<Page>;

/// Sequence of composited pages plus slug line info
#[derive(Debug)]
pub struct Typescript {
    /// Contact information, printed in the top left corner of the title page
    pub contact: Option<Block>,
    /// Word count, printed in the top right corner of the title page
    pub word_count: Option<usize>,
    /// Whether the document has parts, chapters or sections
    pub has_structure: bool,
    /// The document title formatted for the slug line
    pub short_title: Segment,
    /// The surname of the first author, formatted for the slug line
    pub short_author_name: Segment,
    /// The pages to write out
    pub pages: PageList,
}

/// Document after line breaking but before page breaking
#[derive(Debug)]
pub struct Scroll {
    /// Page number of the first numbered page
    pub first_page: i32,
    /// Document title formatted for the slug line
    pub short_title: Segment,
    /// Document author formatted for the slug line
    pub short_author_name: Segment,
    /// Blocks of the document head
    pub head: BlockList,
    /// Blocks of the document body
    pub body: BlockList,
}

/// Marker for special-purpose blocks
#[derive(Debug, Clone, Copy, PartialEq, Eq, Structural)]
pub enum Tag {
    /// Contact information, set aside for the writer
    Contact,
    /// Head matter, kept in the flow but marked
    Head,
    /// A table of contents entry, set aside and composed after the rest
    ToC,
}

/// Line spacing of a block
#[derive(Debug, Clone, Copy, PartialEq, Eq, Structural)]
pub enum LineSpacing {
    Single,
    Double,
}

impl LineSpacing {
    /// `double` names double spacing; anything else is single spacing.
    pub fn from_name(s: &str) -> (r: LineSpacing)
        ensures
            r == (if s@ == "double"@ {
                LineSpacing::Double
            } else {
                LineSpacing::Single
            }),
    {
        if str_equal(s, "double") {
            LineSpacing::Double
        } else {
            LineSpacing::Single
        }
    }
}

/// Whether two strings hold the same characters
pub fn str_equal(s: &str, t: &str) -> (r: bool)
    ensures
        r == (s@ == t@),
{
    let n = s.unicode_len();
    if n != t.unicode_len() {
        return false;
    }
    let mut k: usize = 0;
    while k < n
        invariant
            k <= n == s@.len() == t@.len(),
            s@.take(k as int) == t@.take(k as int),
        decreases n - k,
    {
        if s.get_char(k) != t.get_char(k) {
            return false;
        }
        assert(s@.take(k + 1) =~= s@.take(k as int).push(s@[k as int]));
        assert(t@.take(k + 1) =~= t@.take(k as int).push(t@[k as int]));
        k = k + 1;
    }
    assert(s@ =~= s@.take(n as int));
    assert(t@ =~= t@.take(n as int));
    true
}

/// A text block: formatted lines with their footnotes and spacing
#[derive(Debug)]
pub struct Block {
    /// Formatted lines of text
    pub lines: Vec<Line>,
    /// Footnotes defined in the block, each under its label
    pub footnotes: Vec<(String, BlockList)>,
    /// Single or double spacing
    pub line_spacing: LineSpacing,
    /// Blank rows before the block; a negative value starts a new page
    /// and leaves `-padding_before - 1` blank rows at its top.
    pub padding_before: i32,
    /// Blank rows after the block
    pub padding_after: usize,
    /// Marker for special-purpose blocks
    pub tag: Option<Tag>,
}

/// Sequence of blocks
pub type BlockList = Vec<Block>;

/// Number of rows a block takes once rendered: with double spacing a
/// blank row goes between each two lines; a block without lines takes
/// no row.
pub open spec fn block_rows(b: Block) -> int {
    let n = b.lines@.len() as int;
    if b.line_spacing == LineSpacing::Double && n > 0 {
        2 * n - 1
    } else {
        n
    }
}

/// Rows of the blocks from `i` on, the block before `i` having asked for
/// `last` blank rows after it: between two blocks the larger of the two
/// paddings, and none before a block that starts a new page
pub open spec fn rows_from(blocks: Seq<Block>, i: int, last: int) -> int
    decreases blocks.len() - i,
{
    if i >= blocks.len() || i < 0 {
        0
    } else {
        let b = blocks[i];
        let pad = if i > 0 && b.padding_before >= 0 {
            if b.padding_before as int >= last {
                b.padding_before as int
            } else {
                last
            }
        } else {
            0
        };
        pad + block_rows(b) + rows_from(blocks, i + 1, b.padding_after as int)
    }
}

/// Rows of a block list
pub open spec fn list_rows(blocks: Seq<Block>) -> int {
    rows_from(blocks, 0, 0)
}

/// `n`, or `usize::MAX` if `n` is larger
pub open spec fn capped(n: int) -> int {
    if n > usize::MAX {
        usize::MAX as int
    } else {
        n
    }
}

impl Block {
    /// The number of rows this block takes once rendered with its line
    /// spacing (capped at `usize::MAX`): n single spaced, 2n - 1 double
    /// spaced.  A block without lines renders no row at all, whatever its
    /// spacing, so it counts 0.
    pub fn count_lines(&self) -> (r: usize)
        ensures
            r == capped(block_rows(*self)),
            self.lines@.len() == 0 ==> r == 0,
            self.lines@.len() > 0 && self.line_spacing == LineSpacing::Double
                ==> r == capped(2 * self.lines@.len() - 1),
            self.line_spacing == LineSpacing::Single ==> r == capped(self.lines@.len() as int),
    {
        let n = self.lines.len();
        match self.line_spacing {
            LineSpacing::Double => {
                if n == 0 {
                    0
                } else if n > usize::MAX / 2 {
                    usize::MAX
                } else {
                    n * 2 - 1
                }
            },
            LineSpacing::Single => n,
        }
    }
}

impl Default for Block {
    fn default() -> (r: Block)
        ensures
            r.lines@.len() == 0,
            r.footnotes@.len() == 0,
            r.line_spacing == LineSpacing::Single,
            r.padding_before == 0,
            r.padding_after == 0,
            r.tag.is_none(),
    {
        Block {
            lines: Vec::new(),
            footnotes: Vec::new(),
            line_spacing: LineSpacing::Single,
            padding_before: 0,
            padding_after: 0,
            tag: None,
        }
    }
}

pub proof fn lemma_rows_from_nonneg(blocks: Seq<Block>, i: int, last: int)
    requires
        last >= 0,
    ensures
        rows_from(blocks, i, last) >= 0,
    decreases blocks.len() - i,
{
    if 0 <= i < blocks.len() {
        lemma_rows_from_nonneg(blocks, i + 1, blocks[i].padding_after as int);
    }
}

/// Counts the rows of a block list: each block's rendered rows, and
/// between two blocks the larger of the two paddings (capped at `usize::MAX`)
pub fn count_lines(blocks: &BlockList) -> (r: usize)
    ensures
        r == capped(list_rows(blocks@)),
{
    let ghost bs = blocks@;
    let mut n: usize = 0;
    let mut last_padding_after: usize = 0;
    let mut i: usize = 0;
    while i < blocks.len()
        invariant
            i <= bs.len(),
            bs == blocks@,
            i == 0 ==> last_padding_after == 0,
            i > 0 ==> last_padding_after == bs[i - 1].padding_after,
            capped(list_rows(bs)) == capped(n + rows_from(bs, i as int, last_padding_after as int)),
        decreases bs.len() - i,
    {
        let block = &blocks[i];
        proof {
            lemma_rows_from_nonneg(bs, i + 1, block.padding_after as int);
        }
        if i > 0 && block.padding_before >= 0 {
            let pb = block.padding_before as usize;
            let pad = if pb >= last_padding_after {
                pb
            } else {
                last_padding_after
            };
            n = n.saturating_add(pad);
        }
        let c = block.count_lines();
        n = n.saturating_add(c);
        last_padding_after = block.padding_after;
        i = i + 1;
    }
    n
}

} // verus!
