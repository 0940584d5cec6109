use kosik::document::compositor::Compositor;
use kosik::document::toc::{decimal_string, leader_string};
use kosik::document::{count_lines, Block, LineSpacing, Tag, CHAPTER_SKIP};
use kosik::text::{Line, Segment};

fn line(s: &str) -> Line {
    Line::from_segment(Segment::from_str(s))
}

fn block(texts: &[&str]) -> Block {
    let mut b: Block = Default::default();
    for t in texts {
        b.lines.push(line(t));
    }
    b
}

fn row_text(row: &Option<Line>) -> Option<String> {
    row.as_ref().map(|l| l.segments.iter().map(|s| s.text.clone()).collect::<String>())
}

#[test]
fn one_block_one_page() {
    let mut b: Block = Default::default();
    b.lines.push(Line::from_segment(Segment::from_str("foo")));
    let mut compositor = Compositor::new(1, false);
    compositor = compositor.run(vec![b]);
    assert_eq!(compositor.pages.len(), 1);
    assert_eq!(compositor.pages[0].number, 1);
    assert_eq!(compositor.pages[0].height, 54);
}

#[test]
fn title_page_is_unnumbered() {
    let compositor = Compositor::new(1, true).run(vec![block(&["foo"])]);
    assert_eq!(compositor.pages.len(), 1);
    assert_eq!(compositor.pages[0].number, -1);
    let mut b = block(&["bar"]);
    b.padding_before = -1;
    let compositor = Compositor::new(1, true).run(vec![block(&["foo"]), b]);
    assert_eq!(compositor.pages[1].number, 1);
}

#[test]
fn padding_collapse_is_max_not_sum() {
    let mut a = block(&["a"]);
    a.padding_after = 2;
    let mut b = block(&["b"]);
    b.padding_before = 3;
    let c = Compositor::new(1, false).run(vec![a, b]);
    let rows: Vec<Option<String>> = c.pages[0].lines.iter().map(row_text).collect();
    assert_eq!(rows, vec![Some("a".to_string()), None, None, None, Some("b".to_string())]);
}

#[test]
fn padding_collapse_keeps_larger_after() {
    let mut a = block(&["a"]);
    a.padding_after = 3;
    let mut b = block(&["b"]);
    b.padding_before = 1;
    let c = Compositor::new(1, false).run(vec![a, b]);
    let rows: Vec<Option<String>> = c.pages[0].lines.iter().map(row_text).collect();
    assert_eq!(rows, vec![Some("a".to_string()), None, None, None, Some("b".to_string())]);
}

#[test]
fn negative_padding_starts_a_new_page() {
    let mut b = block(&["b"]);
    b.padding_before = -4;
    let c = Compositor::new(1, false).run(vec![block(&["a"]), b]);
    assert_eq!(c.pages.len(), 2);
    assert_eq!(c.pages[1].number, 2);
    let rows: Vec<Option<String>> = c.pages[1].lines.iter().map(row_text).collect();
    assert_eq!(rows, vec![None, None, None, Some("b".to_string())]);
}

#[test]
fn footnote_overflow_forces_a_page_break() {
    let texts: Vec<String> = (0..52).map(|i| format!("line {}", i)).collect();
    let refs: Vec<&str> = texts.iter().map(|s| s.as_str()).collect();
    let filler = block(&refs);
    let mut note_line = line("see note");
    note_line.note_refs.push("1".to_string());
    let mut b: Block = Default::default();
    b.lines.push(note_line);
    b.footnotes.push(("1".to_string(), vec![block(&["n1", "n2", "n3", "n4", "n5"])]));
    let c = Compositor::new(1, false).run(vec![filler, b]);
    assert_eq!(c.pages[0].lines.len(), 52);
    assert_eq!(c.pages[0].footer.len(), 0);
    assert_eq!(c.pages.len(), 2);
    assert_eq!(c.pages[1].footer.len(), 5);
    assert_eq!(row_text(&c.pages[1].footer[0]), Some("n1".to_string()));
    assert_eq!(row_text(&c.pages[1].lines[0]), Some("see note".to_string()));
}

#[test]
fn footnote_fits_on_the_same_page() {
    let mut note_line = line("see note");
    note_line.note_refs.push("1".to_string());
    note_line.note_refs.push("2".to_string());
    let mut b: Block = Default::default();
    b.lines.push(note_line);
    b.footnotes.push(("1".to_string(), vec![block(&["n1"])]));
    b.footnotes.push(("2".to_string(), vec![block(&["n2"])]));
    let c = Compositor::new(1, false).run(vec![b]);
    assert_eq!(c.pages.len(), 1);
    let rows: Vec<Option<String>> = c.pages[0].footer.iter().map(row_text).collect();
    assert_eq!(rows, vec![Some("n1".to_string()), None, Some("n2".to_string())]);
}

#[test]
fn unreferenced_and_unresolved_notes() {
    let mut note_line = line("x");
    note_line.note_refs.push("missing".to_string());
    let mut b: Block = Default::default();
    b.lines.push(note_line);
    b.footnotes.push(("unused".to_string(), vec![block(&["never"])]));
    let c = Compositor::new(1, false).run(vec![b]);
    assert_eq!(c.pages[0].footer.len(), 0);
    assert_eq!(c.footnotes.len(), 1);
}

#[test]
fn block_rows_single_and_double() {
    let b = block(&["a", "b", "c"]);
    assert_eq!(b.count_lines(), 3);
    let mut d = block(&["a", "b", "c"]);
    d.line_spacing = LineSpacing::Double;
    assert_eq!(d.count_lines(), 5);
    let c = Compositor::new(1, false).run(vec![d]);
    assert_eq!(c.pages[0].lines.len(), 5);
    let rows: Vec<Option<String>> = c.pages[0].lines.iter().map(row_text).collect();
    assert_eq!(rows[1], None);
    assert_eq!(rows[4], Some("c".to_string()));
    let c = Compositor::new(1, false).run(vec![block(&["a", "b", "c"])]);
    assert_eq!(c.pages[0].lines.len(), 3);
}

#[test]
fn count_lines_of_a_block_list() {
    let mut a = block(&["a", "b"]);
    a.padding_after = 2;
    let mut b = block(&["c"]);
    b.padding_before = 1;
    b.line_spacing = LineSpacing::Double;
    let mut c = block(&["d", "e"]);
    c.padding_before = -1;
    c.line_spacing = LineSpacing::Double;
    // 2 + max(1, 2) + 1 + 3 (no padding before a new page)
    assert_eq!(count_lines(&vec![a, b, c]), 8);
    assert_eq!(count_lines(&vec![]), 0);
}

#[test]
fn contact_is_set_aside() {
    let mut contact = block(&["Jane Doe"]);
    contact.tag = Some(Tag::Contact);
    let c = Compositor::new(1, false).run(vec![contact, block(&["body"])]);
    assert!(c.contact.is_some());
    assert_eq!(c.pages[0].lines.len(), 1);
}

#[test]
fn toc_page_numbers_match_actual_placement() {
    let mut chapter = block(&["Chapter One"]);
    chapter.padding_before = -1;
    let mut entry = block(&["Chapter One"]);
    entry.tag = Some(Tag::ToC);
    let c = Compositor::new(1, false).run(vec![block(&["front"]), chapter, entry]);
    // The chapter heading went on page 2, the table of contents on a new
    // unnumbered page.
    assert_eq!(c.pages.len(), 3);
    assert_eq!(c.pages[1].number, 2);
    assert_eq!(row_text(&c.pages[1].lines[0]), Some("Chapter One".to_string()));
    let toc = &c.pages[2];
    assert_eq!(toc.number, -1);
    assert_eq!(row_text(&toc.lines[0]), Some("Table of Contents".to_string()));
    assert_eq!(toc.lines[0].as_ref().unwrap().column, 33);
    let entry_row = toc.lines[1 + CHAPTER_SKIP].as_ref().unwrap();
    let tail = &entry_row.segments.last().unwrap().text;
    assert!(tail.ends_with(" 2"));
    assert_eq!(tail, &format!(" {}2", ". ".repeat(26)));
}

#[test]
fn leader_strings() {
    // 11 characters, page 2: one space, 26 dots, no space before the number
    assert_eq!(leader_string(11, 2), format!(" {}2", ". ".repeat(26)));
    // 10 characters, page 12: two spaces, 25 dots, a space, the number
    assert_eq!(leader_string(10, 12), format!("  {} 12", ". ".repeat(25)));
    assert_eq!(decimal_string(-7), "-7");
    assert_eq!(decimal_string(0), "0");
    assert_eq!(decimal_string(2147483647), "2147483647");
    assert_eq!(decimal_string(-2147483648), "-2147483648");
}

#[test]
fn line_spacing_names() {
    assert_eq!(LineSpacing::from_name("double"), LineSpacing::Double);
    assert_eq!(LineSpacing::from_name("single"), LineSpacing::Single);
    assert_eq!(LineSpacing::from_name("doubles"), LineSpacing::Single);
}

#[test]
fn empty_block_counts_no_rows() {
    let mut d = block(&[]);
    d.line_spacing = LineSpacing::Double;
    assert_eq!(d.count_lines(), 0);
    assert_eq!(block(&[]).count_lines(), 0);
}
