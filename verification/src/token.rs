use vstd::prelude::*;
use crate::span::Span;

verus! {

/// A token: what was read, and where in the source it was read.
#[derive(Debug, Clone, PartialEq)]
pub struct Token {
    pub kind: TokenKind,
    pub span: Span,
}

impl Token {
    pub fn new(kind: TokenKind, span: Span) -> (t: Self)
        ensures
            t == (Token { kind, span }),
    {
        Self { kind, span }
    }
}

/// The kinds of token. A number literal keeps the text that denotes its value,
/// a string literal its contents, a variable its letter and an error token the
/// text that could not be read.
#[allow(non_camel_case_types)]
#[derive(Debug, Clone, PartialEq)]
pub enum TokenKind {
    If,
    Then,
    Else,
    For,
    While,
    Repeat,
    End,
    Pause,
    Lbl,
    Goto,
    IS,
    DS,
    Menu,
    Prgm,
    Return,
    Stop,
    DelVar,
    GraphStyle,
    Input,
    Prompt,
    Disp,
    DispGraph,
    DispTable,
    Output,
    GetKey,
    ClrHome,
    ClrTable,
    GetCalc,
    Get,
    Send_,

    LParen,
    RParen,
    Comma,
    Dot,
    Minus,
    Plus,
    Slash,
    Star,
    Bang,
    BangEqual,
    Equal,
    Less,
    LessEqual,
    Greater,
    GreaterEqual,
    And,
    Or,
    Xor,
    Arrow,

    NumberLit(String),
    StringLit(String),
    Var(char),

    Newline,
    Error(String),
    EOF,
}

/// The kind of a token without its contents: what the parser compares when it
/// looks for a kind of token.
#[allow(non_camel_case_types)]
#[derive(Debug, Clone, Copy, PartialEq, Eq, Structural)]
pub enum TokenTag {
    If,
    Then,
    Else,
    For,
    While,
    Repeat,
    End,
    Pause,
    Lbl,
    Goto,
    IS,
    DS,
    Menu,
    Prgm,
    Return,
    Stop,
    DelVar,
    GraphStyle,
    Input,
    Prompt,
    Disp,
    DispGraph,
    DispTable,
    Output,
    GetKey,
    ClrHome,
    ClrTable,
    GetCalc,
    Get,
    Send_,

    LParen,
    RParen,
    Comma,
    Dot,
    Minus,
    Plus,
    Slash,
    Star,
    Bang,
    BangEqual,
    Equal,
    Less,
    LessEqual,
    Greater,
    GreaterEqual,
    And,
    Or,
    Xor,
    Arrow,

    NumberLit,
    StringLit,
    Var,

    Newline,
    Error,
    EOF,
}

/// What a token holds, as the contracts speak of it: its kind without the
/// contents, the contents as characters, and its span.
pub struct TokenView {
    pub tag: TokenTag,
    pub text: Seq<char>,
    pub span: Span,
}

impl View for Token {
    type V = TokenView;

    open spec fn view(&self) -> TokenView {
        TokenView { tag: self.kind.tag(), text: self.kind.text(), span: self.span }
    }
}

impl TokenKind {
    /// The variant of this kind.
    pub open spec fn tag(self) -> TokenTag {
        match self {
            TokenKind::If => TokenTag::If,
            TokenKind::Then => TokenTag::Then,
            TokenKind::Else => TokenTag::Else,
            TokenKind::For => TokenTag::For,
            TokenKind::While => TokenTag::While,
            TokenKind::Repeat => TokenTag::Repeat,
            TokenKind::End => TokenTag::End,
            TokenKind::Pause => TokenTag::Pause,
            TokenKind::Lbl => TokenTag::Lbl,
            TokenKind::Goto => TokenTag::Goto,
            TokenKind::IS => TokenTag::IS,
            TokenKind::DS => TokenTag::DS,
            TokenKind::Menu => TokenTag::Menu,
            TokenKind::Prgm => TokenTag::Prgm,
            TokenKind::Return => TokenTag::Return,
            TokenKind::Stop => TokenTag::Stop,
            TokenKind::DelVar => TokenTag::DelVar,
            TokenKind::GraphStyle => TokenTag::GraphStyle,
            TokenKind::Input => TokenTag::Input,
            TokenKind::Prompt => TokenTag::Prompt,
            TokenKind::Disp => TokenTag::Disp,
            TokenKind::DispGraph => TokenTag::DispGraph,
            TokenKind::DispTable => TokenTag::DispTable,
            TokenKind::Output => TokenTag::Output,
            TokenKind::GetKey => TokenTag::GetKey,
            TokenKind::ClrHome => TokenTag::ClrHome,
            TokenKind::ClrTable => TokenTag::ClrTable,
            TokenKind::GetCalc => TokenTag::GetCalc,
            TokenKind::Get => TokenTag::Get,
            TokenKind::Send_ => TokenTag::Send_,
            TokenKind::LParen => TokenTag::LParen,
            TokenKind::RParen => TokenTag::RParen,
            TokenKind::Comma => TokenTag::Comma,
            TokenKind::Dot => TokenTag::Dot,
            TokenKind::Minus => TokenTag::Minus,
            TokenKind::Plus => TokenTag::Plus,
            TokenKind::Slash => TokenTag::Slash,
            TokenKind::Star => TokenTag::Star,
            TokenKind::Bang => TokenTag::Bang,
            TokenKind::BangEqual => TokenTag::BangEqual,
            TokenKind::Equal => TokenTag::Equal,
            TokenKind::Less => TokenTag::Less,
            TokenKind::LessEqual => TokenTag::LessEqual,
            TokenKind::Greater => TokenTag::Greater,
            TokenKind::GreaterEqual => TokenTag::GreaterEqual,
            TokenKind::And => TokenTag::And,
            TokenKind::Or => TokenTag::Or,
            TokenKind::Xor => TokenTag::Xor,
            TokenKind::Arrow => TokenTag::Arrow,
            TokenKind::NumberLit(_) => TokenTag::NumberLit,
            TokenKind::StringLit(_) => TokenTag::StringLit,
            TokenKind::Var(_) => TokenTag::Var,
            TokenKind::Newline => TokenTag::Newline,
            TokenKind::Error(_) => TokenTag::Error,
            TokenKind::EOF => TokenTag::EOF,
        }
    }

    /// The text that a kind carries: the digits of a number, the contents of a
    /// string, the letter of a variable, the text of an error; empty otherwise.
    pub open spec fn text(self) -> Seq<char> {
        match self {
            TokenKind::NumberLit(s) => s@,
            TokenKind::StringLit(s) => s@,
            TokenKind::Var(c) => seq![c],
            TokenKind::Error(s) => s@,
            _ => Seq::empty(),
        }
    }

    /// The variant of this kind, computed.
    pub fn variant(&self) -> (t: TokenTag)
        ensures
            t == self.tag(),
    {
        match self {
            TokenKind::If => TokenTag::If,
            TokenKind::Then => TokenTag::Then,
            TokenKind::Else => TokenTag::Else,
            TokenKind::For => TokenTag::For,
            TokenKind::While => TokenTag::While,
            TokenKind::Repeat => TokenTag::Repeat,
            TokenKind::End => TokenTag::End,
            TokenKind::Pause => TokenTag::Pause,
            TokenKind::Lbl => TokenTag::Lbl,
            TokenKind::Goto => TokenTag::Goto,
            TokenKind::IS => TokenTag::IS,
            TokenKind::DS => TokenTag::DS,
            TokenKind::Menu => TokenTag::Menu,
            TokenKind::Prgm => TokenTag::Prgm,
            TokenKind::Return => TokenTag::Return,
            TokenKind::Stop => TokenTag::Stop,
            TokenKind::DelVar => TokenTag::DelVar,
            TokenKind::GraphStyle => TokenTag::GraphStyle,
            TokenKind::Input => TokenTag::Input,
            TokenKind::Prompt => TokenTag::Prompt,
            TokenKind::Disp => TokenTag::Disp,
            TokenKind::DispGraph => TokenTag::DispGraph,
            TokenKind::DispTable => TokenTag::DispTable,
            TokenKind::Output => TokenTag::Output,
            TokenKind::GetKey => TokenTag::GetKey,
            TokenKind::ClrHome => TokenTag::ClrHome,
            TokenKind::ClrTable => TokenTag::ClrTable,
            TokenKind::GetCalc => TokenTag::GetCalc,
            TokenKind::Get => TokenTag::Get,
            TokenKind::Send_ => TokenTag::Send_,
            TokenKind::LParen => TokenTag::LParen,
            TokenKind::RParen => TokenTag::RParen,
            TokenKind::Comma => TokenTag::Comma,
            TokenKind::Dot => TokenTag::Dot,
            TokenKind::Minus => TokenTag::Minus,
            TokenKind::Plus => TokenTag::Plus,
            TokenKind::Slash => TokenTag::Slash,
            TokenKind::Star => TokenTag::Star,
            TokenKind::Bang => TokenTag::Bang,
            TokenKind::BangEqual => TokenTag::BangEqual,
            TokenKind::Equal => TokenTag::Equal,
            TokenKind::Less => TokenTag::Less,
            TokenKind::LessEqual => TokenTag::LessEqual,
            TokenKind::Greater => TokenTag::Greater,
            TokenKind::GreaterEqual => TokenTag::GreaterEqual,
            TokenKind::And => TokenTag::And,
            TokenKind::Or => TokenTag::Or,
            TokenKind::Xor => TokenTag::Xor,
            TokenKind::Arrow => TokenTag::Arrow,
            TokenKind::NumberLit(_) => TokenTag::NumberLit,
            TokenKind::StringLit(_) => TokenTag::StringLit,
            TokenKind::Var(_) => TokenTag::Var,
            TokenKind::Newline => TokenTag::Newline,
            TokenKind::Error(_) => TokenTag::Error,
            TokenKind::EOF => TokenTag::EOF,
        }
    }

    /// A copy of this kind.
    pub fn duplicate(&self) -> (k: TokenKind)
        ensures
            k == *self,
    {
        match self {
            TokenKind::If => TokenKind::If,
            TokenKind::Then => TokenKind::Then,
            TokenKind::Else => TokenKind::Else,
            TokenKind::For => TokenKind::For,
            TokenKind::While => TokenKind::While,
            TokenKind::Repeat => TokenKind::Repeat,
            TokenKind::End => TokenKind::End,
            TokenKind::Pause => TokenKind::Pause,
            TokenKind::Lbl => TokenKind::Lbl,
            TokenKind::Goto => TokenKind::Goto,
            TokenKind::IS => TokenKind::IS,
            TokenKind::DS => TokenKind::DS,
            TokenKind::Menu => TokenKind::Menu,
            TokenKind::Prgm => TokenKind::Prgm,
            TokenKind::Return => TokenKind::Return,
            TokenKind::Stop => TokenKind::Stop,
            TokenKind::DelVar => TokenKind::DelVar,
            TokenKind::GraphStyle => TokenKind::GraphStyle,
            TokenKind::Input => TokenKind::Input,
            TokenKind::Prompt => TokenKind::Prompt,
            TokenKind::Disp => TokenKind::Disp,
            TokenKind::DispGraph => TokenKind::DispGraph,
            TokenKind::DispTable => TokenKind::DispTable,
            TokenKind::Output => TokenKind::Output,
            TokenKind::GetKey => TokenKind::GetKey,
            TokenKind::ClrHome => TokenKind::ClrHome,
            TokenKind::ClrTable => TokenKind::ClrTable,
            TokenKind::GetCalc => TokenKind::GetCalc,
            TokenKind::Get => TokenKind::Get,
            TokenKind::Send_ => TokenKind::Send_,
            TokenKind::LParen => TokenKind::LParen,
            TokenKind::RParen => TokenKind::RParen,
            TokenKind::Comma => TokenKind::Comma,
            TokenKind::Dot => TokenKind::Dot,
            TokenKind::Minus => TokenKind::Minus,
            TokenKind::Plus => TokenKind::Plus,
            TokenKind::Slash => TokenKind::Slash,
            TokenKind::Star => TokenKind::Star,
            TokenKind::Bang => TokenKind::Bang,
            TokenKind::BangEqual => TokenKind::BangEqual,
            TokenKind::Equal => TokenKind::Equal,
            TokenKind::Less => TokenKind::Less,
            TokenKind::LessEqual => TokenKind::LessEqual,
            TokenKind::Greater => TokenKind::Greater,
            TokenKind::GreaterEqual => TokenKind::GreaterEqual,
            TokenKind::And => TokenKind::And,
            TokenKind::Or => TokenKind::Or,
            TokenKind::Xor => TokenKind::Xor,
            TokenKind::Arrow => TokenKind::Arrow,
            TokenKind::NumberLit(s) => TokenKind::NumberLit(s.clone()),
            TokenKind::StringLit(s) => TokenKind::StringLit(s.clone()),
            TokenKind::Var(c) => TokenKind::Var(*c),
            TokenKind::Newline => TokenKind::Newline,
            TokenKind::Error(s) => TokenKind::Error(s.clone()),
            TokenKind::EOF => TokenKind::EOF,
        }
    }
}

impl Token {
    /// A copy of this token.
    pub fn duplicate(&self) -> (t: Token)
        ensures
            t == *self,
    {
        Token { kind: self.kind.duplicate(), span: self.span }
    }
}

} // verus!
