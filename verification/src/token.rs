use vstd::prelude::*;

verus! {

/// The category of a token.
#[derive(Debug, Clone, Copy, PartialEq, Eq, Structural)]
pub enum Tag {
    // Single-character tokens
    LeftParen,
    RightParen,
    LeftBrace,
    RightBrace,
    Comma,
    Dot,
    Minus,
    Plus,
    Semicolon,
    Slash,
    Star,
    // One or two character tokens
    Bang,
    BangEqual,
    Equal,
    EqualEqual,
    Greater,
    GreaterEqual,
    Less,
    LessEqual,
    // Literals
    Identifier,
    String,
    Number,
    // Keywords
    KeywordAnd,
    KeywordClass,
    KeywordElse,
    KeywordFalse,
    KeywordFun,
    KeywordFor,
    KeywordIf,
    KeywordNil,
    KeywordOr,
    KeywordPrint,
    KeywordReturn,
    KeywordSuper,
    KeywordThis,
    KeywordTrue,
    KeywordVar,
    KeywordWhile,
    // Sentinels
    Eof,
    Invalid,
}

/// A half-open byte range `[start, end)` into the scanned buffer.
#[derive(Debug, Clone, Copy, PartialEq, Eq, Structural)]
pub struct Loc {
    pub start: usize,
    pub end: usize,
}

/// A classified piece of the scanned buffer.
#[derive(Debug, Clone, Copy, PartialEq, Eq, Structural)]
pub struct Token {
    pub tag: Tag,
    pub loc: Loc,
}

/// A token as the grammar speaks of it: a category and unbounded offsets.
pub struct Lexeme {
    pub tag: Tag,
    pub start: int,
    pub end: int,
}

impl View for Token {
    type V = Lexeme;

    open spec fn view(&self) -> Lexeme {
        Lexeme { tag: self.tag, start: self.loc.start as int, end: self.loc.end as int }
    }
}

/// The tokens of `tokens` as the grammar speaks of them.
pub open spec fn lexemes_of(tokens: Seq<Token>) -> Seq<Lexeme> {
    tokens.map_values(|t: Token| t@)
}

impl Loc {
    /// The bytes of `buffer` that the range covers, if it lies inside
    /// `buffer`.
    pub fn slice<'b>(&self, buffer: &'b [u8]) -> (bytes: Option<&'b [u8]>)
        ensures
            bytes is Some <==> self.start <= self.end <= buffer@.len(),
            bytes matches Some(b) ==> b@ == buffer@.subrange(self.start as int, self.end as int),
    {
        if self.start <= self.end && self.end <= buffer.len() {
            Some(&buffer[self.start..self.end])
        } else {
            None
        }
    }
}

} // verus!
