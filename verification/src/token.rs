//! The token model: what the lexer produces and the parser consumes.
//!
//! Numeric literals are 64-bit signed integers. A piece of source text that
//! no rule recognises (an unknown character, a malformed number, an
//! unterminated string) becomes an [`Token::Unknown`] token, which the parser
//! turns into a diagnostic rather than a crash.

use vstd::prelude::*;

verus! {

#[derive(Clone, Debug)]
pub enum Token {
    // keywords
    Let,
    Const,
    Pub,
    Use,
    Func,
    Enum,
    Struct,
    If,
    Else,
    Loop,
    Break,

    // literals
    String(Vec<char>),
    Number(i64),
    True,
    False,
    Nil,

    // symbols
    Arrow,
    Assign,
    Eq,
    Gt,
    GtEq,
    Lt,
    LtEq,
    Dot,
    Question,
    At,
    Comma,
    Semicolon,
    Not,
    NotEq,
    Add,
    AddEq,
    Sub,
    SubEq,
    Mul,
    MulEq,
    Div,
    DivEq,
    Pow,
    PowEq,
    Mod,
    ModEq,
    And,
    Or,

    // misc
    Identifier(Vec<char>),
    LParen,
    RParen,
    LBrace,
    RBrace,
    LBracket,
    RBracket,

    /// Source text that no lexical rule recognises.
    Unknown,

    Start,
    Eof,
}

// Binding precedences, low to high: assignment < logical-or < logical-and
// < equality < comparison < additive < multiplicative < power < unary
// < call < dot < primary.
pub const PREC_NONE: u8 = 0;
pub const PREC_ASSIGN: u8 = 1;
pub const PREC_OR: u8 = 2;
pub const PREC_AND: u8 = 3;
pub const PREC_EQ: u8 = 4;
pub const PREC_COMP: u8 = 5;
pub const PREC_TERM: u8 = 6;
pub const PREC_FACTOR: u8 = 7;
pub const PREC_POW: u8 = 8;
pub const PREC_UNARY: u8 = 9;
pub const PREC_CALL: u8 = 10;
pub const PREC_DOT: u8 = 11;
pub const PREC_PRIMARY: u8 = 12;

/// The binding precedence of a token when it appears in infix position.
pub open spec fn spec_prec(t: Token) -> u8 {
    match t {
        Token::Add | Token::Sub => PREC_TERM,
        Token::Mul | Token::Div | Token::Mod => PREC_FACTOR,
        Token::Pow => PREC_POW,
        Token::Gt | Token::GtEq | Token::Lt | Token::LtEq => PREC_COMP,
        Token::Eq => PREC_EQ,
        Token::And => PREC_AND,
        Token::Or => PREC_OR,
        Token::Assign
        | Token::AddEq
        | Token::SubEq
        | Token::MulEq
        | Token::DivEq
        | Token::PowEq
        | Token::ModEq => PREC_ASSIGN,
        Token::LParen => PREC_CALL,
        Token::Dot => PREC_DOT,
        _ => PREC_NONE,
    }
}

/// How a token in infix position is parsed.
#[derive(Clone, Copy, Debug, PartialEq, Eq, Structural)]
pub enum InfixKind {
    /// `(`: a call argument list follows.
    CallArgs,
    /// `.`: member access, desugared to a map lookup by string key.
    DotAccess,
    /// `=` and the compound-assignment operators.
    Assignment,
    /// An ordinary binary operator.
    BinaryOp,
}

impl Token {
    pub fn prec(&self) -> (p: u8)
        ensures
            p == spec_prec(*self),
    {
        match self {
            Token::Add | Token::Sub => PREC_TERM,
            Token::Mul | Token::Div | Token::Mod => PREC_FACTOR,
            Token::Pow => PREC_POW,
            Token::Gt | Token::GtEq | Token::Lt | Token::LtEq => PREC_COMP,
            Token::Eq => PREC_EQ,
            Token::And => PREC_AND,
            Token::Or => PREC_OR,
            Token::Assign
            | Token::AddEq
            | Token::SubEq
            | Token::MulEq
            | Token::DivEq
            | Token::PowEq
            | Token::ModEq => PREC_ASSIGN,
            Token::LParen => PREC_CALL,
            Token::Dot => PREC_DOT,
            _ => PREC_NONE,
        }
    }

    /// The infix handler selected by this token's precedence class, or `None`
    /// for a token that cannot stand in infix position.
    pub fn infix(&self) -> (k: Option<InfixKind>)
        ensures
            k == spec_infix(*self),
    {
        let p = self.prec();
        if p == PREC_NONE {
            None
        } else if p == PREC_CALL {
            Some(InfixKind::CallArgs)
        } else if p == PREC_DOT {
            Some(InfixKind::DotAccess)
        } else if p == PREC_ASSIGN {
            Some(InfixKind::Assignment)
        } else {
            Some(InfixKind::BinaryOp)
        }
    }

    /// Whether `self` and `other` are the same kind of token, payloads
    /// disregarded.
    pub fn same_kind(&self, other: &Token) -> (r: bool)
        ensures
            r == (spec_kind(*self) == spec_kind(*other)),
    {
        self.kind_id() == other.kind_id()
    }

    pub fn kind_id(&self) -> (k: u8)
        ensures
            k == spec_kind(*self),
    {
        match self {
            Token::Let => 0,
            Token::Const => 1,
            Token::Pub => 2,
            Token::Use => 3,
            Token::Func => 4,
            Token::Enum => 5,
            Token::Struct => 6,
            Token::If => 7,
            Token::Else => 8,
            Token::Loop => 9,
            Token::Break => 10,
            Token::String(_) => 11,
            Token::Number(_) => 12,
            Token::True => 13,
            Token::False => 14,
            Token::Nil => 15,
            Token::Arrow => 16,
            Token::Assign => 17,
            Token::Eq => 18,
            Token::Gt => 19,
            Token::GtEq => 20,
            Token::Lt => 21,
            Token::LtEq => 22,
            Token::Dot => 23,
            Token::Question => 24,
            Token::At => 25,
            Token::Comma => 26,
            Token::Semicolon => 27,
            Token::Not => 28,
            Token::NotEq => 29,
            Token::Add => 30,
            Token::AddEq => 31,
            Token::Sub => 32,
            Token::SubEq => 33,
            Token::Mul => 34,
            Token::MulEq => 35,
            Token::Div => 36,
            Token::DivEq => 37,
            Token::Pow => 38,
            Token::PowEq => 39,
            Token::Mod => 40,
            Token::ModEq => 41,
            Token::And => 42,
            Token::Or => 43,
            Token::Identifier(_) => 44,
            Token::LParen => 45,
            Token::RParen => 46,
            Token::LBrace => 47,
            Token::RBrace => 48,
            Token::LBracket => 49,
            Token::RBracket => 50,
            Token::Unknown => 51,
            Token::Start => 52,
            Token::Eof => 53,
        }
    }
}

pub open spec fn spec_infix(t: Token) -> Option<InfixKind> {
    if spec_prec(t) == PREC_NONE {
        None
    } else if spec_prec(t) == PREC_CALL {
        Some(InfixKind::CallArgs)
    } else if spec_prec(t) == PREC_DOT {
        Some(InfixKind::DotAccess)
    } else if spec_prec(t) == PREC_ASSIGN {
        Some(InfixKind::Assignment)
    } else {
        Some(InfixKind::BinaryOp)
    }
}

/// The mathematical view of a token: the same shape, with text payloads as
/// character sequences.
pub ghost enum TokenV {
    Let,
    Const,
    Pub,
    Use,
    Func,
    Enum,
    Struct,
    If,
    Else,
    Loop,
    Break,
    String(Seq<char>),
    Number(i64),
    True,
    False,
    Nil,
    Arrow,
    Assign,
    Eq,
    Gt,
    GtEq,
    Lt,
    LtEq,
    Dot,
    Question,
    At,
    Comma,
    Semicolon,
    Not,
    NotEq,
    Add,
    AddEq,
    Sub,
    SubEq,
    Mul,
    MulEq,
    Div,
    DivEq,
    Pow,
    PowEq,
    Mod,
    ModEq,
    And,
    Or,
    Identifier(Seq<char>),
    LParen,
    RParen,
    LBrace,
    RBrace,
    LBracket,
    RBracket,
    Unknown,
    Start,
    Eof,
}

pub open spec fn token_view(t: Token) -> TokenV {
    match t {
        Token::Let => TokenV::Let,
        Token::Const => TokenV::Const,
        Token::Pub => TokenV::Pub,
        Token::Use => TokenV::Use,
        Token::Func => TokenV::Func,
        Token::Enum => TokenV::Enum,
        Token::Struct => TokenV::Struct,
        Token::If => TokenV::If,
        Token::Else => TokenV::Else,
        Token::Loop => TokenV::Loop,
        Token::Break => TokenV::Break,
        Token::String(s) => TokenV::String(s@),
        Token::Number(n) => TokenV::Number(n),
        Token::True => TokenV::True,
        Token::False => TokenV::False,
        Token::Nil => TokenV::Nil,
        Token::Arrow => TokenV::Arrow,
        Token::Assign => TokenV::Assign,
        Token::Eq => TokenV::Eq,
        Token::Gt => TokenV::Gt,
        Token::GtEq => TokenV::GtEq,
        Token::Lt => TokenV::Lt,
        Token::LtEq => TokenV::LtEq,
        Token::Dot => TokenV::Dot,
        Token::Question => TokenV::Question,
        Token::At => TokenV::At,
        Token::Comma => TokenV::Comma,
        Token::Semicolon => TokenV::Semicolon,
        Token::Not => TokenV::Not,
        Token::NotEq => TokenV::NotEq,
        Token::Add => TokenV::Add,
        Token::AddEq => TokenV::AddEq,
        Token::Sub => TokenV::Sub,
        Token::SubEq => TokenV::SubEq,
        Token::Mul => TokenV::Mul,
        Token::MulEq => TokenV::MulEq,
        Token::Div => TokenV::Div,
        Token::DivEq => TokenV::DivEq,
        Token::Pow => TokenV::Pow,
        Token::PowEq => TokenV::PowEq,
        Token::Mod => TokenV::Mod,
        Token::ModEq => TokenV::ModEq,
        Token::And => TokenV::And,
        Token::Or => TokenV::Or,
        Token::Identifier(s) => TokenV::Identifier(s@),
        Token::LParen => TokenV::LParen,
        Token::RParen => TokenV::RParen,
        Token::LBrace => TokenV::LBrace,
        Token::RBrace => TokenV::RBrace,
        Token::LBracket => TokenV::LBracket,
        Token::RBracket => TokenV::RBracket,
        Token::Unknown => TokenV::Unknown,
        Token::Start => TokenV::Start,
        Token::Eof => TokenV::Eof,
    }
}

/// The binding precedence, over the token's mathematical view.
pub open spec fn spec_prec_v(t: TokenV) -> u8 {
    match t {
        TokenV::Add | TokenV::Sub => PREC_TERM,
        TokenV::Mul | TokenV::Div | TokenV::Mod => PREC_FACTOR,
        TokenV::Pow => PREC_POW,
        TokenV::Gt | TokenV::GtEq | TokenV::Lt | TokenV::LtEq => PREC_COMP,
        TokenV::Eq => PREC_EQ,
        TokenV::And => PREC_AND,
        TokenV::Or => PREC_OR,
        TokenV::Assign
        | TokenV::AddEq
        | TokenV::SubEq
        | TokenV::MulEq
        | TokenV::DivEq
        | TokenV::PowEq
        | TokenV::ModEq => PREC_ASSIGN,
        TokenV::LParen => PREC_CALL,
        TokenV::Dot => PREC_DOT,
        _ => PREC_NONE,
    }
}

/// A token's precedence is determined by its view.
pub proof fn lemma_prec_view(t: Token)
    ensures
        spec_prec(t) == spec_prec_v(token_view(t)),
{
}

pub open spec fn spec_kind(t: Token) -> u8 {
    match t {
        Token::Let => 0,
        Token::Const => 1,
        Token::Pub => 2,
        Token::Use => 3,
        Token::Func => 4,
        Token::Enum => 5,
        Token::Struct => 6,
        Token::If => 7,
        Token::Else => 8,
        Token::Loop => 9,
        Token::Break => 10,
        Token::String(_) => 11,
        Token::Number(_) => 12,
        Token::True => 13,
        Token::False => 14,
        Token::Nil => 15,
        Token::Arrow => 16,
        Token::Assign => 17,
        Token::Eq => 18,
        Token::Gt => 19,
        Token::GtEq => 20,
        Token::Lt => 21,
        Token::LtEq => 22,
        Token::Dot => 23,
        Token::Question => 24,
        Token::At => 25,
        Token::Comma => 26,
        Token::Semicolon => 27,
        Token::Not => 28,
        Token::NotEq => 29,
        Token::Add => 30,
        Token::AddEq => 31,
        Token::Sub => 32,
        Token::SubEq => 33,
        Token::Mul => 34,
        Token::MulEq => 35,
        Token::Div => 36,
        Token::DivEq => 37,
        Token::Pow => 38,
        Token::PowEq => 39,
        Token::Mod => 40,
        Token::ModEq => 41,
        Token::And => 42,
        Token::Or => 43,
        Token::Identifier(_) => 44,
        Token::LParen => 45,
        Token::RParen => 46,
        Token::LBrace => 47,
        Token::RBrace => 48,
        Token::LBracket => 49,
        Token::RBracket => 50,
        Token::Unknown => 51,
        Token::Start => 52,
        Token::Eof => 53,
    }
}

} // verus!
