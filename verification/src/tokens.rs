//! The vocabulary of the scanner: token kinds, tokens, and the result of a
//! classifier that may or may not recognise something.

use vstd::prelude::*;

verus! {

/// The closed set of lexical categories.
#[derive(Debug, PartialEq, Eq, Clone)]
pub enum TokenKind {
    // Grouping
    RPar,
    LPar,
    RBrac,
    LBrac,
    RCurl,
    LCurl,
    // Punctuation
    Ampersand,
    Dot,
    Comma,
    Semicolon,
    Colon,
    Bar,
    // Arithmetic operators
    Slash,
    Plus,
    Minus,
    PlusEqual,
    MinusEqual,
    Star,
    // Comparison and logic
    MoreThan,
    MoreEqual,
    LessThan,
    LessEqual,
    Bang,
    BangEqual,
    Equal,
    EqualEqual,
    And,
    Or,
    // Reserved words
    Func,
    Matrix,
    Out,
    If,
    Elif,
    Else,
    For,
    While,
    Const,
    End,
    // Literals, each with its text
    Type(String),
    StringLiteral(String),
    NumberLiteral(String),
    // Structure
    EndOfFile,
    Empty,
    Newline,
}

/// A token kind as contracts speak of it: the same variants, with the text
/// of a literal as a sequence of characters.
pub enum KindView {
    // Grouping
    RPar,
    LPar,
    RBrac,
    LBrac,
    RCurl,
    LCurl,
    // Punctuation
    Ampersand,
    Dot,
    Comma,
    Semicolon,
    Colon,
    Bar,
    // Arithmetic operators
    Slash,
    Plus,
    Minus,
    PlusEqual,
    MinusEqual,
    Star,
    // Comparison and logic
    MoreThan,
    MoreEqual,
    LessThan,
    LessEqual,
    Bang,
    BangEqual,
    Equal,
    EqualEqual,
    And,
    Or,
    // Reserved words
    Func,
    Matrix,
    Out,
    If,
    Elif,
    Else,
    For,
    While,
    Const,
    End,
    // Literals, each with its text
    Type(Seq<char>),
    StringLiteral(Seq<char>),
    NumberLiteral(Seq<char>),
    // Structure
    EndOfFile,
    Empty,
    Newline,
}

impl View for TokenKind {
    type V = KindView;

    open spec fn view(&self) -> KindView {
        match self {
            TokenKind::RPar => KindView::RPar,
            TokenKind::LPar => KindView::LPar,
            TokenKind::RBrac => KindView::RBrac,
            TokenKind::LBrac => KindView::LBrac,
            TokenKind::RCurl => KindView::RCurl,
            TokenKind::LCurl => KindView::LCurl,
            TokenKind::Ampersand => KindView::Ampersand,
            TokenKind::Dot => KindView::Dot,
            TokenKind::Comma => KindView::Comma,
            TokenKind::Semicolon => KindView::Semicolon,
            TokenKind::Colon => KindView::Colon,
            TokenKind::Bar => KindView::Bar,
            TokenKind::Slash => KindView::Slash,
            TokenKind::Plus => KindView::Plus,
            TokenKind::Minus => KindView::Minus,
            TokenKind::PlusEqual => KindView::PlusEqual,
            TokenKind::MinusEqual => KindView::MinusEqual,
            TokenKind::Star => KindView::Star,
            TokenKind::MoreThan => KindView::MoreThan,
            TokenKind::MoreEqual => KindView::MoreEqual,
            TokenKind::LessThan => KindView::LessThan,
            TokenKind::LessEqual => KindView::LessEqual,
            TokenKind::Bang => KindView::Bang,
            TokenKind::BangEqual => KindView::BangEqual,
            TokenKind::Equal => KindView::Equal,
            TokenKind::EqualEqual => KindView::EqualEqual,
            TokenKind::And => KindView::And,
            TokenKind::Or => KindView::Or,
            TokenKind::Func => KindView::Func,
            TokenKind::Matrix => KindView::Matrix,
            TokenKind::Out => KindView::Out,
            TokenKind::If => KindView::If,
            TokenKind::Elif => KindView::Elif,
            TokenKind::Else => KindView::Else,
            TokenKind::For => KindView::For,
            TokenKind::While => KindView::While,
            TokenKind::Const => KindView::Const,
            TokenKind::End => KindView::End,
            TokenKind::EndOfFile => KindView::EndOfFile,
            TokenKind::Empty => KindView::Empty,
            TokenKind::Newline => KindView::Newline,
            TokenKind::Type(text) => KindView::Type(text@),
            TokenKind::StringLiteral(text) => KindView::StringLiteral(text@),
            TokenKind::NumberLiteral(text) => KindView::NumberLiteral(text@),
        }
    }
}

/// One classified unit of source text. `line` is the line on which the
/// scanner began to read it.
#[derive(Debug, PartialEq, Eq, Clone)]
pub struct Token {
    pub lex: String,
    pub kind: TokenKind,
    pub line: usize,
}

/// A token as contracts speak of it.
pub struct TokenView {
    pub kind: KindView,
    pub lex: Seq<char>,
    pub line: nat,
}

impl View for Token {
    type V = TokenView;

    open spec fn view(&self) -> TokenView {
        TokenView { kind: self.kind@, lex: self.lex@, line: self.line as nat }
    }
}

/// What a classifier hands back: a token, or nothing recognised.
#[derive(Debug, PartialEq, Eq, Clone)]
pub enum MatchResult {
    Match(Token),
    NoMatch,
}

/// The lexeme of the token that closes every token sequence.
pub open spec fn end_lexeme() -> Seq<char> {
    "<END OF FILE>"@
}

/// The token that closes every token sequence, on line `line`.
pub open spec fn end_token(line: nat) -> TokenView {
    TokenView { kind: KindView::EndOfFile, lex: end_lexeme(), line }
}

/// The token that stands in for text the scanner could not classify.
pub open spec fn placeholder(line: nat) -> TokenView {
    TokenView { kind: KindView::Empty, lex: Seq::empty(), line }
}

/// The views of a vector of tokens, in order.
pub open spec fn token_views(tokens: Seq<Token>) -> Seq<TokenView> {
    Seq::new(tokens.len(), |i: int| tokens[i]@)
}

impl Token {
    /// A token of kind `kind` with lexeme `lex`, begun on line `line`.
    pub fn new(kind: TokenKind, lex: &str, line: &usize) -> (token: Self)
        ensures
            token.kind == kind,
            token.lex@ == lex@,
            token.line == *line,
            token@ == (TokenView { kind: kind@, lex: lex@, line: *line as nat }),
    {
        Self { kind, lex: lex.to_owned(), line: *line }
    }

    /// The end-of-input token for line `line`.
    pub fn end(line: &usize) -> (token: Self)
        ensures
            token@ == end_token(*line as nat),
    {
        Self { kind: TokenKind::EndOfFile, lex: "<END OF FILE>".to_owned(), line: *line }
    }
}

} // verus!
