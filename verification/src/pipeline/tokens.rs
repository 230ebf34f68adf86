//! Tokens: what a scanner makes of a source text.

use vstd::prelude::*;

verus! {

/// Where a token ends in its source: line and column.
#[derive(Debug, Clone, Copy, PartialEq, Eq, Structural)]
pub struct TokenMeta {
    line: usize,
    column: usize,
}

impl TokenMeta {
    pub closed spec fn spec_line(&self) -> usize {
        self.line
    }

    pub closed spec fn spec_column(&self) -> usize {
        self.column
    }

    /// The meta of a token that ends at `line` and `column`.
    pub closed spec fn at(line: usize, column: usize) -> TokenMeta {
        TokenMeta { line, column }
    }

    /// A meta is known by its line and column.
    pub proof fn lemma_at(line: usize, column: usize)
        ensures
            TokenMeta::at(line, column).spec_line() == line,
            TokenMeta::at(line, column).spec_column() == column,
    {
    }

    pub fn new(line: usize, column: usize) -> (meta: Self)
        ensures
            meta == TokenMeta::at(line, column),
            meta.spec_line() == line,
            meta.spec_column() == column,
    {
        Self { line, column }
    }

    #[verifier::when_used_as_spec(spec_line)]
    pub fn line(&self) -> (line: usize)
        ensures
            line == self.spec_line(),
    {
        self.line
    }

    #[verifier::when_used_as_spec(spec_column)]
    pub fn column(&self) -> (column: usize)
        ensures
            column == self.spec_column(),
    {
        self.column
    }
}

/// The kind of a token, with the text that a literal or a name carries. A
/// number literal carries its digits as written.
#[derive(Debug, PartialEq)]
pub enum TokenInfo {
    LeftParen,
    RightParen,
    LeftBrace,
    RightBrace,
    Colon,
    Comma,
    Dot,
    Minus,
    Plus,
    QuestionMark,
    Semicolon,
    Slash,
    Star,
    // One or two character tokens
    Bang,
    BangEqual,
    Equal,
    EqualEqual,
    Greater,
    GreaterEqual,
    Less,
    LessEqual,
    // Literals
    Identifier(String),
    StringLiteral(String),
    NumberLiteral(String),
    // Keywords
    And,
    Class,
    Else,
    False,
    Fun,
    For,
    If,
    Nil,
    Or,
    Return,
    Super,
    This,
    True,
    Var,
    While,
    // EOF
    EOF,
}

/// The kind of a token, with its text as plain characters.
pub enum TokenInfoView {
    LeftParen,
    RightParen,
    LeftBrace,
    RightBrace,
    Colon,
    Comma,
    Dot,
    Minus,
    Plus,
    QuestionMark,
    Semicolon,
    Slash,
    Star,
    Bang,
    BangEqual,
    Equal,
    EqualEqual,
    Greater,
    GreaterEqual,
    Less,
    LessEqual,
    Identifier(Seq<char>),
    StringLiteral(Seq<char>),
    NumberLiteral(Seq<char>),
    And,
    Class,
    Else,
    False,
    Fun,
    For,
    If,
    Nil,
    Or,
    Return,
    Super,
    This,
    True,
    Var,
    While,
    EOF,
}

impl View for TokenInfo {
    type V = TokenInfoView;

    open spec fn view(&self) -> TokenInfoView {
        match self {
            TokenInfo::LeftParen => TokenInfoView::LeftParen,
            TokenInfo::RightParen => TokenInfoView::RightParen,
            TokenInfo::LeftBrace => TokenInfoView::LeftBrace,
            TokenInfo::RightBrace => TokenInfoView::RightBrace,
            TokenInfo::Colon => TokenInfoView::Colon,
            TokenInfo::Comma => TokenInfoView::Comma,
            TokenInfo::Dot => TokenInfoView::Dot,
            TokenInfo::Minus => TokenInfoView::Minus,
            TokenInfo::Plus => TokenInfoView::Plus,
            TokenInfo::QuestionMark => TokenInfoView::QuestionMark,
            TokenInfo::Semicolon => TokenInfoView::Semicolon,
            TokenInfo::Slash => TokenInfoView::Slash,
            TokenInfo::Star => TokenInfoView::Star,
            TokenInfo::Bang => TokenInfoView::Bang,
            TokenInfo::BangEqual => TokenInfoView::BangEqual,
            TokenInfo::Equal => TokenInfoView::Equal,
            TokenInfo::EqualEqual => TokenInfoView::EqualEqual,
            TokenInfo::Greater => TokenInfoView::Greater,
            TokenInfo::GreaterEqual => TokenInfoView::GreaterEqual,
            TokenInfo::Less => TokenInfoView::Less,
            TokenInfo::LessEqual => TokenInfoView::LessEqual,
            TokenInfo::Identifier(name) => TokenInfoView::Identifier(name@),
            TokenInfo::StringLiteral(text) => TokenInfoView::StringLiteral(text@),
            TokenInfo::NumberLiteral(digits) => TokenInfoView::NumberLiteral(digits@),
            TokenInfo::And => TokenInfoView::And,
            TokenInfo::Class => TokenInfoView::Class,
            TokenInfo::Else => TokenInfoView::Else,
            TokenInfo::False => TokenInfoView::False,
            TokenInfo::Fun => TokenInfoView::Fun,
            TokenInfo::For => TokenInfoView::For,
            TokenInfo::If => TokenInfoView::If,
            TokenInfo::Nil => TokenInfoView::Nil,
            TokenInfo::Or => TokenInfoView::Or,
            TokenInfo::Return => TokenInfoView::Return,
            TokenInfo::Super => TokenInfoView::Super,
            TokenInfo::This => TokenInfoView::This,
            TokenInfo::True => TokenInfoView::True,
            TokenInfo::Var => TokenInfoView::Var,
            TokenInfo::While => TokenInfoView::While,
            TokenInfo::EOF => TokenInfoView::EOF,
        }
    }
}

/// A token: its text in the source, its kind, and where it ends.
#[derive(Debug, PartialEq)]
pub struct Token {
    lexeme: String,
    info: TokenInfo,
    meta: TokenMeta,
}

/// What a token holds, as plain values.
pub struct TokenView {
    pub lexeme: Seq<char>,
    pub info: TokenInfoView,
    pub meta: TokenMeta,
}

impl View for Token {
    type V = TokenView;

    closed spec fn view(&self) -> TokenView {
        TokenView { lexeme: self.lexeme@, info: self.info@, meta: self.meta }
    }
}

impl Token {
    pub fn new(lexeme: String, info: TokenInfo, meta: TokenMeta) -> (token: Self)
        ensures
            token@.lexeme == lexeme@,
            token@.info == info@,
            token@.meta == meta,
    {
        Self { lexeme, info, meta }
    }

    pub fn meta(&self) -> (meta: &TokenMeta)
        ensures
            *meta == self@.meta,
    {
        &self.meta
    }

    pub fn lexeme(&self) -> (lexeme: &str)
        ensures
            lexeme@ == self@.lexeme,
    {
        self.lexeme.as_str()
    }

    pub fn info(&self) -> (info: &TokenInfo)
        ensures
            info@ == self@.info,
    {
        &self.info
    }
}

} // verus!
