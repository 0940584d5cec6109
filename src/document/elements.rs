//! The element tree of a manuscript
//!
//! Container elements hold other elements, text elements hold tokens
//! (with their footnote elements set aside), and empty elements hold
//! attributes only.

use vstd::prelude::*;

use crate::document::LineSpacing;
use crate::text::tokens::TokenList;

verus! {

/// Generic container element: other elements, no text
#[derive(Debug)]
pub struct ContainerElement<Attributes> {
    /// Parameter struct
    pub attributes: Attributes,
    /// Child elements in order
    pub children: ElementList,
}

impl<Attributes> ContainerElement<Attributes> {
    pub fn new(attributes: Attributes) -> (r: Self)
        ensures
            r.attributes == attributes,
            r.children@.len() == 0,
    {
        ContainerElement { attributes, children: Vec::new() }
    }
}

/// Generic empty element: attributes only
#[derive(Debug)]
pub struct EmptyElement<Attributes> {
    /// Parameter struct
    pub attributes: Attributes,
}

impl<Attributes> EmptyElement<Attributes> {
    pub fn new(attributes: Attributes) -> (r: Self)
        ensures
            r.attributes == attributes,
    {
        EmptyElement { attributes }
    }
}

/// Generic text element: mixed content, with footnote elements set aside
#[derive(Debug)]
pub struct TextElement<Attributes> {
    /// Parameter struct
    pub attributes: Attributes,
    /// Token sequence
    pub tokens: TokenList,
    /// Footnote elements
    pub footnotes: ElementList,
}

impl<Attributes> TextElement<Attributes> {
    pub fn new(attributes: Attributes) -> (r: Self)
        ensures
            r.attributes == attributes,
            r.tokens@.len() == 0,
            r.footnotes@.len() == 0,
    {
        TextElement { attributes, tokens: Vec::new(), footnotes: Vec::new() }
    }
}

/// Element type enum for the in-memory representation of the elements
#[derive(Debug)]
pub enum ElementType {
    Attribution(TextElement<Attribution>),
    Authors(ContainerElement<Authors>),
    Backmatter(ContainerElement<Backmatter>),
    BibRef(TextElement<BibRef>),
    Blockquote(ContainerElement<Blockquote>),
    Body(ContainerElement<Body>),
    Br(EmptyElement<Br>),
    Chapter(TextElement<Chapter>),
    Contact(TextElement<Contact>),
    Div(EmptyElement<Div>),
    Em(TextElement<Em>),
    Footnote(ContainerElement<Footnote>),
    Frontmatter(ContainerElement<Frontmatter>),
    Gn(TextElement<Gn>),
    Head(ContainerElement<Head>),
    Li(ContainerElement<Li>),
    Manuscript(ContainerElement<Manuscript>),
    NoteRef(EmptyElement<NoteRef>),
    Ol(ContainerElement<Ol>),
    P(TextElement<P>),
    PageBreak(EmptyElement<PageBreak>),
    Part(TextElement<Part>),
    Person(ContainerElement<Person>),
    Prefix(TextElement<Prefix>),
    Section(TextElement<Section>),
    Sn(TextElement<Sn>),
    Sub(TextElement<Sub>),
    Subtitle(TextElement<Subtitle>),
    Suffix(TextElement<Suffix>),
    Sup(TextElement<Sup>),
    Title(TextElement<Title>),
    Ul(ContainerElement<Ul>),
}

/// Element sequence
pub type ElementList = Vec<ElementType>;

#[derive(Debug)]
pub struct Body {}

#[derive(Debug)]
pub struct Br {}

#[derive(Debug)]
pub struct Div {}

#[derive(Debug)]
pub struct Em {}

#[derive(Debug)]
pub struct Gn {}

#[derive(Debug)]
pub struct Head {}

#[derive(Debug)]
pub struct PageBreak {}

#[derive(Debug)]
pub struct Person {}

#[derive(Debug)]
pub struct Prefix {}

#[derive(Debug)]
pub struct Sn {}

#[derive(Debug)]
pub struct Sub {}

#[derive(Debug)]
pub struct Sup {}

#[derive(Debug)]
pub struct Attribution {
    pub line_spacing: LineSpacing,
}

#[derive(Debug)]
pub struct Authors {
    pub line_spacing: LineSpacing,
}

#[derive(Debug)]
pub struct BibRef {
    pub line_spacing: LineSpacing,
}

#[derive(Debug)]
pub struct Blockquote {
    pub line_spacing: LineSpacing,
}

#[derive(Debug)]
pub struct Contact {
    pub line_spacing: LineSpacing,
}

#[derive(Debug)]
pub struct Subtitle {
    pub line_spacing: LineSpacing,
}

#[derive(Debug)]
pub struct Title {
    pub line_spacing: LineSpacing,
}

#[derive(Debug)]
pub struct Ul {
    pub line_spacing: LineSpacing,
}

/// Whether `e` is the first title element among `children`
pub open spec fn first_title(children: Seq<ElementType>, e: TextElement<Title>) -> bool {
    exists|k: int|
        0 <= k < children.len() && children[k] == ElementType::Title(e)
            && forall|j: int| 0 <= j < k ==> !(#[trigger] children[j] is Title)
}

/// Whether `e` is the first authors element among `children`
pub open spec fn first_authors(children: Seq<ElementType>, e: ContainerElement<Authors>) -> bool {
    exists|k: int|
        0 <= k < children.len() && children[k] == ElementType::Authors(e)
            && forall|j: int| 0 <= j < k ==> !(#[trigger] children[j] is Authors)
}

/// Whether `e` is the first head element among `children`
pub open spec fn first_head(children: Seq<ElementType>, e: ContainerElement<Head>) -> bool {
    exists|k: int|
        0 <= k < children.len() && children[k] == ElementType::Head(e)
            && forall|j: int| 0 <= j < k ==> !(#[trigger] children[j] is Head)
}

/// Whether `e` is the first surname element of the first person among
/// `children` that has one
pub open spec fn first_sn(children: Seq<ElementType>, e: TextElement<Sn>) -> bool {
    exists|k: int, m: int|
        0 <= k < children.len() && (children[k] is Person)
            && 0 <= m < children[k]->Person_0.children@.len()
            && #[trigger] children[k]->Person_0.children@[m] == ElementType::Sn(e)
            && (forall|j: int| 0 <= j < k ==> !has_sn(#[trigger] children[j]))
            && (forall|j: int| 0 <= j < m ==> !(#[trigger] children[k]->Person_0.children@[j] is Sn))
}

impl ContainerElement<Head> {
    /// The first title element of the head
    pub fn title(&self) -> (r: Option<&TextElement<Title>>)
        ensures
            match r {
                Some(e) => first_title(self.children@, *e),
                None => forall|k: int| 0 <= k < self.children@.len() ==> !(#[trigger] self.children@[k] is Title),
            },
    {
        let mut k: usize = 0;
        while k < self.children.len()
            invariant
                k <= self.children@.len(),
                forall|j: int| 0 <= j < k ==> !(#[trigger] self.children@[j] is Title),
            decreases self.children@.len() - k,
        {
            if let ElementType::Title(e) = &self.children[k] {
                return Some(e);
            }
            k = k + 1;
        }
        None
    }

    /// The first authors element of the head
    pub fn authors(&self) -> (r: Option<&ContainerElement<Authors>>)
        ensures
            match r {
                Some(e) => first_authors(self.children@, *e),
                None => forall|k: int| 0 <= k < self.children@.len() ==> !(#[trigger] self.children@[k] is Authors),
            },
    {
        let mut k: usize = 0;
        while k < self.children.len()
            invariant
                k <= self.children@.len(),
                forall|j: int| 0 <= j < k ==> !(#[trigger] self.children@[j] is Authors),
            decreases self.children@.len() - k,
        {
            if let ElementType::Authors(e) = &self.children[k] {
                return Some(e);
            }
            k = k + 1;
        }
        None
    }
}

impl ContainerElement<Manuscript> {
    /// The first head element of the manuscript
    pub fn head(&self) -> (r: Option<&ContainerElement<Head>>)
        ensures
            match r {
                Some(e) => first_head(self.children@, *e),
                None => forall|k: int| 0 <= k < self.children@.len() ==> !(#[trigger] self.children@[k] is Head),
            },
    {
        let mut k: usize = 0;
        while k < self.children.len()
            invariant
                k <= self.children@.len(),
                forall|j: int| 0 <= j < k ==> !(#[trigger] self.children@[j] is Head),
            decreases self.children@.len() - k,
        {
            if let ElementType::Head(e) = &self.children[k] {
                return Some(e);
            }
            k = k + 1;
        }
        None
    }
}

/// Index of the first body element among `children` from `k` on, or -1
pub open spec fn body_index(children: Seq<ElementType>, k: int) -> int
    decreases children.len() - k,
{
    if k < 0 || k >= children.len() {
        -1
    } else if children[k] is Body {
        k
    } else {
        body_index(children, k + 1)
    }
}

impl ContainerElement<Manuscript> {
    /// The first body element of the manuscript, to be changed in place
    pub fn body(&mut self) -> (r: Option<&mut ContainerElement<Body>>)
        ensures
            ({
                let k = body_index(old(self).children@, 0);
                match r {
                    Some(e) => {
                        &&& 0 <= k < old(self).children@.len()
                        &&& *e == old(self).children@[k]->Body_0
                        &&& final(self).children@ == old(self).children@.update(k, ElementType::Body(*final(e)))
                        &&& final(self).attributes == old(self).attributes
                    },
                    None => k == -1 && *final(self) == *old(self),
                }
            }),
    {
        let mut k: usize = 0;
        let n = self.children.len();
        while k < n
            invariant
                k <= n == self.children@.len(),
                body_index(self.children@, k as int) == body_index(self.children@, 0),
            ensures
                k <= n == self.children@.len(),
                k < n ==> body_index(self.children@, 0) == k,
                k < n ==> self.children@[k as int] is Body,
                k == n ==> body_index(self.children@, 0) == -1,
            decreases n - k,
        {
            if let ElementType::Body(_) = &self.children[k] {
                break;
            }
            k = k + 1;
        }
        if k < n {
            let child = &mut self.children[k];
            match child {
                ElementType::Body(e) => Some(e),
                _ => None,
            }
        } else {
            None
        }
    }
}

/// Whether `p` is a person element that has a surname element
pub open spec fn has_sn(p: ElementType) -> bool {
    match p {
        ElementType::Person(c) => exists|k: int| 0 <= k < c.children@.len() && (#[trigger] c.children@[k] is Sn),
        _ => false,
    }
}

impl ContainerElement<Authors> {
    /// The first surname element of the first person that has one
    pub fn first_sn(&self) -> (r: Option<&TextElement<Sn>>)
        ensures
            match r {
                Some(e) => first_sn(self.children@, *e),
                None => forall|k: int| 0 <= k < self.children@.len() ==> !has_sn(#[trigger] self.children@[k]),
            },
    {
        let mut k: usize = 0;
        while k < self.children.len()
            invariant
                k <= self.children@.len(),
                forall|j: int| 0 <= j < k ==> !has_sn(#[trigger] self.children@[j]),
            decreases self.children@.len() - k,
        {
            if let ElementType::Person(person) = &self.children[k] {
                let mut m: usize = 0;
                while m < person.children.len()
                    invariant
                        m <= person.children@.len(),
                        k < self.children@.len(),
                        forall|j: int| 0 <= j < k ==> !has_sn(#[trigger] self.children@[j]),
                        self.children@[k as int] == ElementType::Person(*person),
                        forall|j: int| 0 <= j < m ==> !(#[trigger] person.children@[j] is Sn),
                    decreases person.children@.len() - m,
                {
                    if let ElementType::Sn(sn) = &person.children[m] {
                        assert(self.children@[k as int]->Person_0.children@[m as int] == ElementType::Sn(*sn));
                        return Some(sn);
                    }
                    m = m + 1;
                }
                assert(!has_sn(self.children@[k as int]));
            }
            k = k + 1;
        }
        None
    }
}

#[derive(Debug)]
pub struct Backmatter {
    pub label: String,
}

#[derive(Debug)]
pub struct Chapter {
    pub number: i32,
    pub line_spacing: LineSpacing,
    pub depth: i32,
}

#[derive(Debug)]
pub struct Footnote {
    pub label: String,
    pub line_spacing: LineSpacing,
}

#[derive(Debug)]
pub struct Frontmatter {
    pub label: String,
}

#[derive(Debug)]
pub struct Li {
    pub number: Option<i32>,
    pub line_spacing: LineSpacing,
}

#[derive(Debug)]
pub struct Manuscript {
    pub first_page: i32,
    pub word_count: usize,
    pub has_structure: bool,
}

#[derive(Debug)]
pub struct NoteRef {
    pub label: String,
}

#[derive(Debug)]
pub struct Ol {
    pub start_no: i32,
    pub line_spacing: LineSpacing,
}

#[derive(Debug)]
pub struct P {
    pub indent: usize,
    pub line_spacing: LineSpacing,
    pub left_margin: usize,
    pub right_margin: usize,
}

#[derive(Debug)]
pub struct Part {
    pub number: i32,
    pub line_spacing: LineSpacing,
    pub depth: i32,
}

#[derive(Debug)]
pub struct Section {
    pub number: i32,
    pub line_spacing: LineSpacing,
    pub padding_before: i32,
    pub depth: i32,
}

#[derive(Debug)]
pub struct Suffix {
    pub comma: bool,
}

} // verus!
