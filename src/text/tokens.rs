//! Text tokens
//!
//! A token is an atomic span of typed text: a word, a punctuation
//! mark, a space, a bracket, a symbol, a note reference or a forced
//! line break.  Each one carries a display state, which decides how
//! it is printed, and format flags, which decide where a line may be
//! broken.

use vstd::prelude::*;
use vstd::string::*;

verus! {

/// Display state of a token
#[derive(Debug, Clone, Copy, PartialEq, Eq, Structural)]
pub struct DisplayFlags {
    /// Emphasis (underlined on a typewriter)
    pub em: bool,
    /// Subscript
    pub sub: bool,
    /// Superscript
    pub sup: bool,
}

impl DisplayFlags {
    /// The plain display state
    pub open spec fn plain() -> DisplayFlags {
        DisplayFlags { em: false, sub: false, sup: false }
    }

    /// Reset to the plain display state
    pub fn clear(&mut self)
        ensures
            *final(self) == DisplayFlags::plain(),
    {
        self.em = false;
        self.sub = false;
        self.sup = false;
    }
}

impl Default for DisplayFlags {
    fn default() -> (r: DisplayFlags)
        ensures
            r == DisplayFlags::plain(),
    {
        DisplayFlags { em: false, sub: false, sup: false }
    }
}

/// Format flags of a token, which govern line breaking
#[derive(Debug, Clone, Copy, PartialEq, Eq, Structural)]
pub struct FormatFlags {
    /// The token ends a sentence.
    pub fs: bool,
    /// A line may be broken at this token (discretionary break).
    pub dlb: bool,
    /// A line must be broken at this token (mandatory break).
    pub mlb: bool,
    /// The token is dropped when a line is broken at it.
    pub dob: bool,
}

impl FormatFlags {
    /// No flags set
    pub open spec fn none() -> FormatFlags {
        FormatFlags { fs: false, dlb: false, mlb: false, dob: false }
    }

    /// Clear every flag
    pub fn clear(&mut self)
        ensures
            *final(self) == FormatFlags::none(),
    {
        self.fs = false;
        self.dlb = false;
        self.mlb = false;
        self.dob = false;
    }
}

impl Default for FormatFlags {
    fn default() -> (r: FormatFlags)
        ensures
            r == FormatFlags::none(),
    {
        FormatFlags { fs: false, dlb: false, mlb: false, dob: false }
    }
}

/// Generic token: a payload with its display state and format flags
#[derive(Debug, Clone)]
pub struct Token<Data> {
    /// Payload
    pub data: Data,
    /// Display state
    pub dpy: DisplayFlags,
    /// Format flags
    pub frm: FormatFlags,
}

impl<Data> Token<Data> {
    /// Construct a new token
    pub fn new(data: Data, dpy: DisplayFlags, frm: FormatFlags) -> (r: Self)
        ensures
            r.data == data,
            r.dpy == dpy,
            r.frm == frm,
    {
        Token { data, dpy, frm }
    }
}

/// A closing bracket or quotation mark
#[derive(Debug, Clone)]
pub struct CloseData {
    pub text: String,
}

/// An escaped character sequence
#[derive(Debug, Clone)]
pub struct EscapeData {
    pub text: String,
    pub count: u32,
}

/// A forced line break
#[derive(Debug, Clone)]
pub struct LineBreakData {}

/// A footnote reference label
#[derive(Debug, Clone)]
pub struct NoteRefData {
    pub text: String,
}

/// An opening bracket or quotation mark
#[derive(Debug, Clone)]
pub struct OpenData {
    pub text: String,
}

/// A punctuation mark
#[derive(Debug, Clone)]
pub struct PunctData {
    pub text: String,
}

/// A run of spaces
#[derive(Debug, Clone)]
pub struct SpaceData {
    pub text: String,
}

/// A symbol
#[derive(Debug, Clone)]
pub struct SymbolData {
    pub text: String,
}

/// A word
#[derive(Debug, Clone)]
pub struct WordData {
    pub text: String,
}

/// Token enum
#[derive(Debug, Clone)]
pub enum TokenType {
    Close(Token<CloseData>),
    LineBreak(Token<LineBreakData>),
    NoteRef(Token<NoteRefData>),
    Open(Token<OpenData>),
    Punct(Token<PunctData>),
    Space(Token<SpaceData>),
    Symbol(Token<SymbolData>),
    Word(Token<WordData>),
}

/// Token sequence
pub type TokenList = Vec<TokenType>;

/// `n` space characters
pub open spec fn spaces(n: nat) -> Seq<char> {
    Seq::new(n, |i: int| ' ')
}

impl TokenType {
    /// The characters of the token (none for a line break)
    pub open spec fn text_view(&self) -> Seq<char> {
        match self {
            TokenType::Close(t) => t.data.text@,
            TokenType::LineBreak(_) => Seq::empty(),
            TokenType::NoteRef(t) => t.data.text@,
            TokenType::Open(t) => t.data.text@,
            TokenType::Punct(t) => t.data.text@,
            TokenType::Space(t) => t.data.text@,
            TokenType::Symbol(t) => t.data.text@,
            TokenType::Word(t) => t.data.text@,
        }
    }

    /// Width of the token in characters
    pub open spec fn width(&self) -> nat {
        self.text_view().len()
    }

    pub open spec fn dpy_view(&self) -> DisplayFlags {
        match self {
            TokenType::Close(t) => t.dpy,
            TokenType::LineBreak(t) => t.dpy,
            TokenType::NoteRef(t) => t.dpy,
            TokenType::Open(t) => t.dpy,
            TokenType::Punct(t) => t.dpy,
            TokenType::Space(t) => t.dpy,
            TokenType::Symbol(t) => t.dpy,
            TokenType::Word(t) => t.dpy,
        }
    }

    pub open spec fn frm_view(&self) -> FormatFlags {
        match self {
            TokenType::Close(t) => t.frm,
            TokenType::LineBreak(t) => t.frm,
            TokenType::NoteRef(t) => t.frm,
            TokenType::Open(t) => t.frm,
            TokenType::Punct(t) => t.frm,
            TokenType::Space(t) => t.frm,
            TokenType::Symbol(t) => t.frm,
            TokenType::Word(t) => t.frm,
        }
    }

    /// Number of characters in the token (zero for a line break)
    pub fn length(&self) -> (r: usize)
        ensures
            r == self.width(),
    {
        match self {
            TokenType::Close(t) => t.data.text.as_str().unicode_len(),
            TokenType::LineBreak(_) => 0,
            TokenType::NoteRef(t) => t.data.text.as_str().unicode_len(),
            TokenType::Open(t) => t.data.text.as_str().unicode_len(),
            TokenType::Punct(t) => t.data.text.as_str().unicode_len(),
            TokenType::Space(t) => t.data.text.as_str().unicode_len(),
            TokenType::Symbol(t) => t.data.text.as_str().unicode_len(),
            TokenType::Word(t) => t.data.text.as_str().unicode_len(),
        }
    }

    /// A copy of the token's characters
    pub fn text(&self) -> (r: String)
        ensures
            r@ == self.text_view(),
    {
        match self {
            TokenType::Close(t) => t.data.text.clone(),
            TokenType::LineBreak(_) => String::new(),
            TokenType::NoteRef(t) => t.data.text.clone(),
            TokenType::Open(t) => t.data.text.clone(),
            TokenType::Punct(t) => t.data.text.clone(),
            TokenType::Space(t) => t.data.text.clone(),
            TokenType::Symbol(t) => t.data.text.clone(),
            TokenType::Word(t) => t.data.text.clone(),
        }
    }

    pub fn display_flags(&self) -> (r: DisplayFlags)
        ensures
            r == self.dpy_view(),
    {
        match self {
            TokenType::Close(t) => t.dpy,
            TokenType::LineBreak(t) => t.dpy,
            TokenType::NoteRef(t) => t.dpy,
            TokenType::Open(t) => t.dpy,
            TokenType::Punct(t) => t.dpy,
            TokenType::Space(t) => t.dpy,
            TokenType::Symbol(t) => t.dpy,
            TokenType::Word(t) => t.dpy,
        }
    }

    pub fn format_flags(&self) -> (r: FormatFlags)
        ensures
            r == self.frm_view(),
    {
        match self {
            TokenType::Close(t) => t.frm,
            TokenType::LineBreak(t) => t.frm,
            TokenType::NoteRef(t) => t.frm,
            TokenType::Open(t) => t.frm,
            TokenType::Punct(t) => t.frm,
            TokenType::Space(t) => t.frm,
            TokenType::Symbol(t) => t.frm,
            TokenType::Word(t) => t.frm,
        }
    }
}

/// A string of `n` spaces
pub fn space_string(n: usize) -> (r: String)
    ensures
        r@ == spaces(n as nat),
{
    let mut s = String::new();
    let mut i: usize = 0;
    proof {
        reveal_strlit(" ");
    }
    while i < n
        invariant
            i <= n,
            s@ == spaces(i as nat),
        decreases n - i,
    {
        proof {
            reveal_strlit(" ");
        }
        assert(" "@ =~= seq![' ']);
        s.append(" ");
        i = i + 1;
        assert(s@ =~= spaces(i as nat));
    }
    s
}

impl SpaceData {
    /// A run of `n` spaces
    pub fn of_width(n: usize) -> (r: SpaceData)
        ensures
            r.text@ == spaces(n as nat),
    {
        SpaceData { text: space_string(n) }
    }
}

impl SymbolData {
    pub fn from_string(text: String) -> (r: SymbolData)
        ensures
            r.text == text,
    {
        SymbolData { text }
    }
}

impl WordData {
    pub fn from_str(text: &str) -> (r: WordData)
        ensures
            r.text@ == text@,
    {
        WordData { text: String::from_str(text) }
    }

    pub fn from_string(text: String) -> (r: WordData)
        ensures
            r.text == text,
    {
        WordData { text }
    }
}

/// Whether `s` is one of the marks that end a sentence: `.`, `?`, `!`, `:`
pub open spec fn ends_sentence(s: Seq<char>) -> bool {
    s == seq!['.'] || s == seq!['?'] || s == seq!['!'] || s == seq![':']
}

impl Token<PunctData> {
    /// A plain punctuation token; full stops get the sentence-end flag.
    pub fn punct(s: &str) -> (r: Token<PunctData>)
        ensures
            r.data.text@ == s@,
            r.dpy == DisplayFlags::plain(),
            r.frm == (FormatFlags { fs: ends_sentence(s@), ..FormatFlags::none() }),
    {
        let n = s.unicode_len();
        let fs = n == 1 && {
            let c = s.get_char(0);
            c == '.' || c == '?' || c == '!' || c == ':'
        };
        assert(fs == ends_sentence(s@)) by {
            if n == 1 {
                assert(s@ =~= seq![s@[0]]);
            }
        }
        Token {
            data: PunctData { text: String::from_str(s) },
            dpy: DisplayFlags::default(),
            frm: FormatFlags { fs, dlb: false, mlb: false, dob: false },
        }
    }
}

impl Token<SpaceData> {
    /// A plain run of `n` spaces, a discretionary break dropped when broken at
    pub fn space(n: usize) -> (r: Token<SpaceData>)
        ensures
            r.data.text@ == spaces(n as nat),
            r.dpy == DisplayFlags::plain(),
            r.frm == (FormatFlags { dlb: true, dob: true, ..FormatFlags::none() }),
    {
        Token {
            data: SpaceData::of_width(n),
            dpy: DisplayFlags::default(),
            frm: FormatFlags { fs: false, dlb: true, mlb: false, dob: true },
        }
    }
}

impl Token<SymbolData> {
    /// A plain symbol token
    pub fn symbol(s: &str) -> (r: Token<SymbolData>)
        ensures
            r.data.text@ == s@,
            r.dpy == DisplayFlags::plain(),
            r.frm == FormatFlags::none(),
    {
        Token {
            data: SymbolData { text: String::from_str(s) },
            dpy: DisplayFlags::default(),
            frm: FormatFlags::default(),
        }
    }
}

impl Token<WordData> {
    /// A plain word token
    pub fn word(w: &str) -> (r: Token<WordData>)
        ensures
            r.data.text@ == w@,
            r.dpy == DisplayFlags::plain(),
            r.frm == FormatFlags::none(),
    {
        Token {
            data: WordData::from_str(w),
            dpy: DisplayFlags::default(),
            frm: FormatFlags::default(),
        }
    }
}

} // verus!
