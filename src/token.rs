use vstd::prelude::*;

verus! {

/// The closed set of lexical categories.
#[derive(Debug, Clone, Copy, PartialEq, Eq, Structural)]
pub enum TokenKind {
    Invalid,
    End,
    WhiteSpace,
    LineBreak,
    Comment,
    Identifier,
    Struct,
    Union,
    Trait,
    Or,
    And,
    Colon,
    DoubleColon,
    Dot,
    ParenL,
    ParenR,
    SquareL,
    SquareR,
    CurlyL,
    CurlyR,
    At,
    Hashtag,
    Plus,
    DoublePlus,
    Equals,
    DoubleEquals,
    ThinArrow,
    ThickArrow,
    Comma,
    Minus,
    Times,
    Div,
    String,
    Char,
    Int,
    Float,
}

impl TokenKind {
    /// Whitespace, line breaks and comments: kept in the stream, meaningless to a parser.
    pub open spec fn is_trivia(self) -> bool {
        self == TokenKind::WhiteSpace || self == TokenKind::LineBreak || self == TokenKind::Comment
    }
}

/// A classified token: its kind and the byte span `[start, end)` of its lexeme.
#[derive(Debug, Clone, Copy, PartialEq, Eq, Structural)]
pub struct Token {
    pub kind: TokenKind,
    pub start: usize,
    pub end: usize,
}

impl Token {
    pub fn new(kind: TokenKind, start: usize, end: usize) -> (t: Token)
        ensures
            t.kind == kind,
            t.start == start,
            t.end == end,
    {
        Token { kind, start, end }
    }
}

} // verus!
