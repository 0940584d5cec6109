use kosik::text::tokens::{
    DisplayFlags, FormatFlags, LineBreakData, NoteRefData, Token, TokenType,
};
use kosik::text::{linebreak_balance, linebreak_fill, linebreak_hang, next_word_fits, Line, Segment};

fn word(s: &str) -> TokenType {
    TokenType::Word(Token::word(s))
}

fn space() -> TokenType {
    TokenType::Space(Token::space(1))
}

fn mandatory_break() -> TokenType {
    let frm = FormatFlags { fs: false, dlb: false, mlb: true, dob: false };
    TokenType::LineBreak(Token::new(LineBreakData {}, DisplayFlags::default(), frm))
}

fn sentence(words: &[&str]) -> Vec<TokenType> {
    let mut tokens = Vec::new();
    for (i, w) in words.iter().enumerate() {
        if i > 0 {
            tokens.push(space());
        }
        tokens.push(word(w));
    }
    tokens
}

fn texts(lines: &[Line]) -> Vec<String> {
    lines
        .iter()
        .map(|l| l.segments.iter().map(|s| s.text.clone()).collect::<String>())
        .collect()
}

#[test]
fn next_word_fits_lookahead() {
    let tokens = vec![space(), word("foo"), space(), word("bar")];
    assert_eq!(next_word_fits(&tokens[..], 4, 0, 0), true);
    assert_eq!(next_word_fits(&tokens[..], 3, 0, 0), false);
}

#[test]
fn next_word_fits_keeps_a_kept_break() {
    // A break candidate that is not dropped counts toward the width.
    let frm = FormatFlags { fs: false, dlb: true, mlb: false, dob: false };
    let dash = TokenType::Punct(Token::new(
        kosik::text::tokens::PunctData { text: "-".to_string() },
        DisplayFlags::default(),
        frm,
    ));
    let tokens = vec![space(), word("foo"), dash, word("bar")];
    assert_eq!(next_word_fits(&tokens[..], 5, 0, 0), true);
    assert_eq!(next_word_fits(&tokens[..], 4, 0, 0), false);
}

#[test]
fn fill_two_lines() {
    let tokens = sentence(&["foo", "bar"]);
    let lines = linebreak_fill(&tokens[..], 6);
    assert_eq!(lines.len(), 2);
    assert_eq!(texts(&lines), vec!["foo", "bar"]);
}

#[test]
fn fill_one_line_when_it_fits() {
    let tokens = sentence(&["foo", "bar"]);
    let lines = linebreak_fill(&tokens[..], 7);
    assert_eq!(texts(&lines), vec!["foo bar"]);
}

#[test]
fn fill_within_budget() {
    let tokens = sentence(&["the", "quick", "brown", "fox", "jumps", "over", "the", "lazy", "dog"]);
    let lines = linebreak_fill(&tokens[..], 10);
    for line in lines.iter() {
        assert!(line.length() <= 10);
    }
    assert_eq!(texts(&lines), vec!["the quick", "brown fox", "jumps over", "the lazy", "dog"]);
}

#[test]
fn fill_overflows_only_for_unbreakable_units() {
    let tokens = sentence(&["a", "extraordinarily", "b"]);
    let lines = linebreak_fill(&tokens[..], 5);
    assert_eq!(texts(&lines), vec!["a", "extraordinarily", "b"]);
    assert_eq!(lines[1].length(), 15);
}

#[test]
fn fill_empty_tokens() {
    let tokens: Vec<TokenType> = Vec::new();
    assert_eq!(linebreak_fill(&tokens[..], 10).len(), 0);
}

#[test]
fn mandatory_breaks_are_exact() {
    let tokens = vec![word("foo"), mandatory_break(), word("bar")];
    let lines = linebreak_fill(&tokens[..], 80);
    assert_eq!(texts(&lines), vec!["foo", "bar"]);
}

#[test]
fn adjacent_mandatory_breaks_make_no_blank_line() {
    let tokens = vec![word("foo"), mandatory_break(), mandatory_break(), word("bar")];
    let lines = linebreak_fill(&tokens[..], 80);
    assert_eq!(texts(&lines), vec!["foo", "bar"]);
}

#[test]
fn balance_two_lines() {
    let tokens = sentence(&["foo", "bar"]);
    let lines = linebreak_balance(&tokens[..], 6);
    assert_eq!(lines.len(), 2);
}

#[test]
fn balance_near_equal_lines() {
    // L = 34, w = 20: L / w + 1 = 2 lines, cutoff 34 / 2 = 17.
    let tokens = sentence(&["aaaa", "bbbb", "cccc", "dddd", "eeee", "ffff", "gggg"]);
    let lines = linebreak_balance(&tokens[..], 20);
    assert_eq!(texts(&lines), vec!["aaaa bbbb cccc dddd", "eeee ffff gggg"]);
    let fill = linebreak_fill(&tokens[..], 20);
    assert_eq!(texts(&fill), vec!["aaaa bbbb cccc dddd", "eeee ffff gggg"]);
    let a = lines[0].length() as i64;
    let b = lines[1].length() as i64;
    assert!((a - b).abs() <= 5);
}

#[test]
fn balance_splits_evenly_not_greedily() {
    // L = 27, w = 25: two lines, cutoff 13, where fill would pack 23 on the first.
    let tokens = sentence(&["one", "two", "three", "four", "five", "six"]);
    let lines = linebreak_balance(&tokens[..], 25);
    assert_eq!(texts(&lines), vec!["one two three", "four five six"]);
    let fill = linebreak_fill(&tokens[..], 25);
    assert_eq!(texts(&fill), vec!["one two three four five", "six"]);
}

#[test]
fn hang_two_lines() {
    let tokens = sentence(&["garply", "waldo"]);
    let lines = linebreak_hang(&tokens[..], 11);
    assert_eq!(lines.len(), 2);
}

#[test]
fn hang_indents_all_lines_after_the_first() {
    let tokens = sentence(&["aaaa", "bbbb", "cccc", "dddd", "eeee"]);
    // First line budget 10, later lines 10 - 5 = 5.
    let lines = linebreak_hang(&tokens[..], 10);
    assert_eq!(texts(&lines), vec!["aaaa bbbb", "     cccc", "     dddd", "     eeee"]);
    assert_eq!(lines[0].segments[0].text, "aaaa bbbb");
    for line in lines.iter().skip(1) {
        assert_eq!(line.segments[0].text, "     ");
        assert_eq!(line.segments[0].ps, "(     ) show ");
    }
}

#[test]
fn segment_escapes_reserved_characters() {
    let s = Segment::from_str("a(b)\\c");
    assert_eq!(s.text, "a(b)\\c");
    assert_eq!(s.ps, "(a\\(b\\)\\\\c) show ");
}

#[test]
fn segments_follow_display_state() {
    let em = DisplayFlags { em: true, sub: false, sup: false };
    let sup = DisplayFlags { em: false, sub: false, sup: true };
    let tokens = vec![
        word("foo"),
        space(),
        TokenType::Word(Token::new(kosik::text::tokens::WordData::from_str("bar"), em, FormatFlags::default())),
        TokenType::NoteRef(Token::new(NoteRefData { text: "1".to_string() }, sup, FormatFlags::default())),
    ];
    let line = Line::from_tokens(&tokens[..]);
    assert_eq!(line.segments.len(), 3);
    assert_eq!(line.segments[0].ps, "(foo ) show ");
    assert_eq!(line.segments[1].ps, "(bar) ushow ");
    assert_eq!(line.segments[2].ps, "0 6 rmoveto (1) show 0 -6 rmoveto ");
    assert_eq!(line.note_refs, vec!["1".to_string()]);
    assert_eq!(line.length(), 8);
    assert_eq!(line.ps(), "(foo ) show (bar) ushow 0 6 rmoveto (1) show 0 -6 rmoveto ");
}

#[test]
fn token_brackets_are_escaped() {
    let open = TokenType::Open(Token::new(
        kosik::text::tokens::OpenData { text: "(".to_string() },
        DisplayFlags::default(),
        FormatFlags::default(),
    ));
    let close = TokenType::Close(Token::new(
        kosik::text::tokens::CloseData { text: ")".to_string() },
        DisplayFlags::default(),
        FormatFlags::default(),
    ));
    let tokens = vec![open, word("x"), close, TokenType::Symbol(Token::symbol("\\"))];
    let seg = Segment::from_tokens(&tokens[..]);
    assert_eq!(seg.text, "(x)\\");
    assert_eq!(seg.ps, "(\\(x\\)\\\\) show ");
}

#[test]
fn punctuation_flags() {
    assert!(Token::punct(".").frm.fs);
    assert!(Token::punct("?").frm.fs);
    assert!(!Token::punct(",").frm.fs);
    let sp = Token::space(2);
    assert_eq!(sp.data.text, "  ");
    assert!(sp.frm.dlb && sp.frm.dob);
}

#[test]
fn token_accessors() {
    let t = word("héllo");
    assert_eq!(t.length(), 5);
    assert_eq!(t.text(), "héllo");
    assert_eq!(mandatory_break().length(), 0);
    assert!(mandatory_break().format_flags().mlb);
    let mut d = DisplayFlags { em: true, sub: true, sup: false };
    d.clear();
    assert_eq!(d, DisplayFlags::default());
    let mut f = FormatFlags { fs: true, dlb: true, mlb: true, dob: true };
    f.clear();
    assert_eq!(f, FormatFlags::default());
}

#[test]
fn hang_budget_never_below_one() {
    // First line budget 3, later lines 1: every later word goes alone.
    let tokens = sentence(&["a", "b", "c"]);
    let lines = linebreak_hang(&tokens[..], 3);
    assert_eq!(texts(&lines), vec!["a b", "     c"]);
    let tokens = sentence(&["ab", "cd", "ef", "gh"]);
    let lines = linebreak_hang(&tokens[..], 3);
    assert_eq!(texts(&lines), vec!["ab", "     cd", "     ef", "     gh"]);
}

#[test]
fn hang_zero_budget_keeps_later_budget_at_one() {
    // After the first break the budget is 1, so the second space fits.
    let tokens = vec![space(), space()];
    let lines = linebreak_hang(&tokens[..], 0);
    assert_eq!(lines.len(), 1);
    assert_eq!(texts(&lines), vec![" "]);
}
