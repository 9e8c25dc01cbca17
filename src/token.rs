use vstd::prelude::*;

verus! {

/// A decimal number as written in the source: a sign, the digits before the
/// point and the digits after it (both ASCII, either possibly empty, not both).
/// The value is kept exactly; rounding it to a binary float is up to the caller.
#[derive(Debug, Clone, PartialEq)]
pub struct Decimal {
    pub negative: bool,
    pub integer: String,
    pub fraction: String,
}

pub ghost struct DecimalView {
    pub negative: bool,
    pub integer: Seq<char>,
    pub fraction: Seq<char>,
}

impl View for Decimal {
    type V = DecimalView;

    open spec fn view(&self) -> DecimalView {
        DecimalView { negative: self.negative, integer: self.integer@, fraction: self.fraction@ }
    }
}

/// The kind of a token, with its payload.
#[derive(Debug, Clone, PartialEq)]
pub enum TokenKind {
    /// Reserved: whitespace is skipped, never returned.
    Whitespace,
    CurlyBracketOpen,
    CurlyBracketClose,
    Colon,
    Semicolon,
    Comma,
    ParenthesisOpen,
    ParenthesisClose,
    Identifier(String),
    /// Reserved: no scan produces it.
    Function(String),
    AtKeyword(String),
    Hash(String),
    StringLiteral(String),
    /// Reserved: no scan produces it.
    BadString,
    /// Reserved: no scan produces it.
    Percentage(Decimal),
    /// Reserved: no scan produces it.
    Dimension(Decimal, String),
    Number(Decimal),
    /// Reserved: no scan produces it.
    Uri(String),
    /// Reserved: no scan produces it.
    UnicodeRange(String),
}

pub ghost enum TokenKindView {
    Whitespace,
    CurlyBracketOpen,
    CurlyBracketClose,
    Colon,
    Semicolon,
    Comma,
    ParenthesisOpen,
    ParenthesisClose,
    Identifier(Seq<char>),
    Function(Seq<char>),
    AtKeyword(Seq<char>),
    Hash(Seq<char>),
    StringLiteral(Seq<char>),
    BadString,
    Percentage(DecimalView),
    Dimension(DecimalView, Seq<char>),
    Number(DecimalView),
    Uri(Seq<char>),
    UnicodeRange(Seq<char>),
}

impl View for TokenKind {
    type V = TokenKindView;

    open spec fn view(&self) -> TokenKindView {
        match self {
            TokenKind::Whitespace => TokenKindView::Whitespace,
            TokenKind::CurlyBracketOpen => TokenKindView::CurlyBracketOpen,
            TokenKind::CurlyBracketClose => TokenKindView::CurlyBracketClose,
            TokenKind::Colon => TokenKindView::Colon,
            TokenKind::Semicolon => TokenKindView::Semicolon,
            TokenKind::Comma => TokenKindView::Comma,
            TokenKind::ParenthesisOpen => TokenKindView::ParenthesisOpen,
            TokenKind::ParenthesisClose => TokenKindView::ParenthesisClose,
            TokenKind::Identifier(s) => TokenKindView::Identifier(s@),
            TokenKind::Function(s) => TokenKindView::Function(s@),
            TokenKind::AtKeyword(s) => TokenKindView::AtKeyword(s@),
            TokenKind::Hash(s) => TokenKindView::Hash(s@),
            TokenKind::StringLiteral(s) => TokenKindView::StringLiteral(s@),
            TokenKind::BadString => TokenKindView::BadString,
            TokenKind::Percentage(d) => TokenKindView::Percentage(d@),
            TokenKind::Dimension(d, u) => TokenKindView::Dimension(d@, u@),
            TokenKind::Number(d) => TokenKindView::Number(d@),
            TokenKind::Uri(s) => TokenKindView::Uri(s@),
            TokenKind::UnicodeRange(s) => TokenKindView::UnicodeRange(s@),
        }
    }
}

/// A token: its kind and the half-open range `[start, end)` of byte offsets
/// that it covers in the scanned text.
#[derive(Debug, PartialEq)]
pub struct Token {
    pub kind: TokenKind,
    pub range: (usize, usize),
}

pub ghost struct TokenView {
    pub kind: TokenKindView,
    pub start: nat,
    pub end: nat,
}

impl View for Token {
    type V = TokenView;

    open spec fn view(&self) -> TokenView {
        TokenView { kind: self.kind@, start: self.range.0 as nat, end: self.range.1 as nat }
    }
}

impl Clone for Token {
    fn clone(&self) -> (t: Self)
        ensures
            t.range == self.range,
    {
        Token { kind: self.kind.clone(), range: self.range }
    }
}

impl Token {
    pub fn new(kind: TokenKind, range: (usize, usize)) -> (t: Self)
        ensures
            t == (Token { kind, range }),
    {
        Token { kind, range }
    }
}

} // verus!
