//! Tokens and source spans shared by every stage.

use vstd::prelude::*;

verus! {

/// Half-open byte range `[start, end)` into the source text.
#[derive(Debug, PartialEq, Eq, Clone, Copy)]
pub struct Span {
    pub start: usize,
    pub end: usize,
}

/// Something that may point at a place in the source text.
pub trait Spanned {
    /// The span this value points at, if it has one.
    spec fn span_spec(&self) -> Option<Span>;

    fn span(&self) -> (s: Option<Span>)
        ensures
            s == self.span_spec(),
    ;
}

/// What a token is.
#[derive(Debug, PartialEq, Clone)]
pub enum TokenKind {
    Plus,
    Minus,
    Mul,
    Div,
    Pow,
    Eq,
    Neq,
    Gt,
    GtEq,
    Lt,
    LtEq,
    Assign,
    Num(i32),
    Ident(String),
    LeftParen,
    RightParen,
    LeftBlock,
    RightBlock,
    Semicolon,
    If,
    While,
    For,
}

/// Mathematical value of a [`TokenKind`]: an identifier is its characters.
pub enum KindView {
    Plus,
    Minus,
    Mul,
    Div,
    Pow,
    Eq,
    Neq,
    Gt,
    GtEq,
    Lt,
    LtEq,
    Assign,
    Num(i32),
    Ident(Seq<char>),
    LeftParen,
    RightParen,
    LeftBlock,
    RightBlock,
    Semicolon,
    If,
    While,
    For,
}

impl View for TokenKind {
    type V = KindView;

    open spec fn view(&self) -> KindView {
        match self {
            TokenKind::Plus => KindView::Plus,
            TokenKind::Minus => KindView::Minus,
            TokenKind::Mul => KindView::Mul,
            TokenKind::Div => KindView::Div,
            TokenKind::Pow => KindView::Pow,
            TokenKind::Eq => KindView::Eq,
            TokenKind::Neq => KindView::Neq,
            TokenKind::Gt => KindView::Gt,
            TokenKind::GtEq => KindView::GtEq,
            TokenKind::Lt => KindView::Lt,
            TokenKind::LtEq => KindView::LtEq,
            TokenKind::Assign => KindView::Assign,
            TokenKind::Num(n) => KindView::Num(*n),
            TokenKind::Ident(s) => KindView::Ident(s@),
            TokenKind::LeftParen => KindView::LeftParen,
            TokenKind::RightParen => KindView::RightParen,
            TokenKind::LeftBlock => KindView::LeftBlock,
            TokenKind::RightBlock => KindView::RightBlock,
            TokenKind::Semicolon => KindView::Semicolon,
            TokenKind::If => KindView::If,
            TokenKind::While => KindView::While,
            TokenKind::For => KindView::For,
        }
    }
}

/// A token and the place where it stands.
#[derive(Debug, PartialEq, Clone)]
pub struct Token {
    pub span: Span,
    pub kind: TokenKind,
}

/// Mathematical value of a [`Token`].
pub struct TokenView {
    pub span: Span,
    pub kind: KindView,
}

impl View for Token {
    type V = TokenView;

    open spec fn view(&self) -> TokenView {
        TokenView { span: self.span, kind: self.kind@ }
    }
}

/// The views of a run of tokens, in order.
pub open spec fn token_views(tokens: Seq<Token>) -> Seq<TokenView> {
    Seq::new(tokens.len(), |i: int| tokens[i]@)
}

impl TokenKind {
    /// Copies a token kind.
    pub fn duplicate(&self) -> (k: TokenKind)
        ensures
            k@ == self@,
    {
        match self {
            TokenKind::Plus => TokenKind::Plus,
            TokenKind::Minus => TokenKind::Minus,
            TokenKind::Mul => TokenKind::Mul,
            TokenKind::Div => TokenKind::Div,
            TokenKind::Pow => TokenKind::Pow,
            TokenKind::Eq => TokenKind::Eq,
            TokenKind::Neq => TokenKind::Neq,
            TokenKind::Gt => TokenKind::Gt,
            TokenKind::GtEq => TokenKind::GtEq,
            TokenKind::Lt => TokenKind::Lt,
            TokenKind::LtEq => TokenKind::LtEq,
            TokenKind::Assign => TokenKind::Assign,
            TokenKind::Num(n) => TokenKind::Num(*n),
            TokenKind::Ident(s) => TokenKind::Ident(s.clone()),
            TokenKind::LeftParen => TokenKind::LeftParen,
            TokenKind::RightParen => TokenKind::RightParen,
            TokenKind::LeftBlock => TokenKind::LeftBlock,
            TokenKind::RightBlock => TokenKind::RightBlock,
            TokenKind::Semicolon => TokenKind::Semicolon,
            TokenKind::If => TokenKind::If,
            TokenKind::While => TokenKind::While,
            TokenKind::For => TokenKind::For,
        }
    }
}

impl TokenKind {
    /// Whether two token kinds are the same, identifiers by their names.
    pub fn same(&self, other: &TokenKind) -> (b: bool)
        ensures
            b == (self@ == other@),
    {
        match (self, other) {
            (TokenKind::Plus, TokenKind::Plus) => true,
            (TokenKind::Minus, TokenKind::Minus) => true,
            (TokenKind::Mul, TokenKind::Mul) => true,
            (TokenKind::Div, TokenKind::Div) => true,
            (TokenKind::Pow, TokenKind::Pow) => true,
            (TokenKind::Eq, TokenKind::Eq) => true,
            (TokenKind::Neq, TokenKind::Neq) => true,
            (TokenKind::Gt, TokenKind::Gt) => true,
            (TokenKind::GtEq, TokenKind::GtEq) => true,
            (TokenKind::Lt, TokenKind::Lt) => true,
            (TokenKind::LtEq, TokenKind::LtEq) => true,
            (TokenKind::Assign, TokenKind::Assign) => true,
            (TokenKind::Num(a), TokenKind::Num(b)) => *a == *b,
            (TokenKind::Ident(a), TokenKind::Ident(b)) => *a == *b,
            (TokenKind::LeftParen, TokenKind::LeftParen) => true,
            (TokenKind::RightParen, TokenKind::RightParen) => true,
            (TokenKind::LeftBlock, TokenKind::LeftBlock) => true,
            (TokenKind::RightBlock, TokenKind::RightBlock) => true,
            (TokenKind::Semicolon, TokenKind::Semicolon) => true,
            (TokenKind::If, TokenKind::If) => true,
            (TokenKind::While, TokenKind::While) => true,
            (TokenKind::For, TokenKind::For) => true,
            _ => false,
        }
    }
}

impl Token {
    /// Copies a token.
    pub fn duplicate(&self) -> (t: Token)
        ensures
            t@ == self@,
    {
        Token { span: self.span, kind: self.kind.duplicate() }
    }
}

} // verus!
