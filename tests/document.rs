use kosik::document::elements::{
    Authors, Body, ContainerElement, ElementType, Head, Manuscript, Person, Sn, TextElement, Title,
};
use kosik::document::slug::{first_line_end, shows_slug_line};
use kosik::document::LineSpacing;
use kosik::lut::RomanNumerals;
use kosik::text::tokens::{NoteRefData, Token, TokenType, DisplayFlags, FormatFlags};

fn words(ws: &[&str]) -> Vec<TokenType> {
    let mut tokens = Vec::new();
    for (i, w) in ws.iter().enumerate() {
        if i > 0 {
            tokens.push(TokenType::Space(Token::space(1)));
        }
        tokens.push(TokenType::Word(Token::word(w)));
    }
    tokens
}

fn title(ws: &[&str]) -> TextElement<Title> {
    let mut t = TextElement::new(Title { line_spacing: LineSpacing::Single });
    t.tokens = words(ws);
    t
}

#[test]
fn short_title_whole() {
    let t = title(&["Youth"]);
    let s = t.short_title().unwrap();
    assert_eq!(s.text, "Youth");
    assert_eq!(s.ps, "(YOUTH) show ");
}

#[test]
fn short_title_cut_with_ellipsis() {
    // 49 characters over lines of 44: two lines, cutoff 24.
    let t = title(&["The", "Strange", "Case", "of", "Doctor", "Jekyll", "and", "Mister", "Hyde"]);
    let toks = &t.tokens[..];
    assert_eq!(first_line_end(toks), 9);
    let s = t.short_title().unwrap();
    assert_eq!(s.text, "The Strange Case of Doctor . . .");
    assert_eq!(s.ps, "(THE STRANGE CASE OF DOCTOR . . .) show ");
}

#[test]
fn short_title_empty() {
    let t = title(&[]);
    assert!(t.short_title().is_none());
}

#[test]
fn short_title_skips_note_references() {
    let mut t = title(&["Youth"]);
    t.tokens.push(TokenType::NoteRef(Token::new(
        NoteRefData { text: "*".to_string() },
        DisplayFlags { em: false, sub: false, sup: true },
        FormatFlags::default(),
    )));
    let s = t.short_title().unwrap();
    assert_eq!(s.text, "Youth");
    assert_eq!(s.ps, "(YOUTH) show ");
}

fn manuscript() -> ContainerElement<Manuscript> {
    let mut sn = TextElement::new(Sn {});
    sn.tokens = words(&["Conrad"]);
    let mut person = ContainerElement::new(Person {});
    person.children.push(ElementType::Sn(sn));
    let mut authors = ContainerElement::new(Authors { line_spacing: LineSpacing::Single });
    authors.children.push(ElementType::Person(ContainerElement::new(Person {})));
    authors.children.push(ElementType::Person(person));
    let mut head = ContainerElement::new(Head {});
    head.children.push(ElementType::Title(title(&["Youth"])));
    head.children.push(ElementType::Authors(authors));
    let mut m = ContainerElement::new(Manuscript { first_page: 1, word_count: 0, has_structure: false });
    m.children.push(ElementType::Head(head));
    m
}

#[test]
fn short_author_name_is_upper_case() {
    let m = manuscript();
    let s = m.short_author_name().unwrap();
    assert_eq!(s.text, "CONRAD");
    assert_eq!(s.ps, "(CONRAD) show ");
    let t = m.short_title().unwrap();
    assert_eq!(t.text, "Youth");
    let head = m.head().unwrap();
    assert!(head.title().is_some());
    let sn = head.authors().unwrap().first_sn().unwrap();
    assert_eq!(sn.tokens.len(), 1);
}

#[test]
fn no_head_no_slug() {
    let m = ContainerElement::new(Manuscript { first_page: 1, word_count: 0, has_structure: false });
    assert!(m.short_title().is_none());
    assert!(m.short_author_name().is_none());
}

#[test]
fn roman_numerals() {
    let table = RomanNumerals::from_text("I II III\nIV  V\tVI\n");
    assert_eq!(table.numerals.len(), 6);
    assert_eq!(table.numeral(1), Some("I"));
    assert_eq!(table.numeral(4), Some("IV"));
    assert_eq!(table.numeral(0), None);
    assert_eq!(table.numeral(6), Some("VI"));
    assert_eq!(table.numeral(7), None);
}

#[test]
fn body_is_changed_in_place() {
    let mut m = manuscript();
    assert!(m.body().is_none());
    m.children.push(ElementType::Body(ContainerElement::new(Body {})));
    let body = m.body().unwrap();
    body.children.push(ElementType::Title(title(&["x"])));
    match &m.children[1] {
        ElementType::Body(b) => assert_eq!(b.children.len(), 1),
        _ => panic!("expected a body element"),
    }
}

#[test]
fn slug_line_pages() {
    assert!(shows_slug_line(2, false, true, true));
    assert!(!shows_slug_line(0, true, false, false));
    assert!(shows_slug_line(1, true, true, true));
    assert!(!shows_slug_line(1, false, true, false));
    assert!(shows_slug_line(1, false, false, false));
}
