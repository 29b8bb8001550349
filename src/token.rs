use vstd::prelude::*;

verus! {

/// Half-open byte range `[start, end)` into the source text.
#[derive(Debug, Clone, Copy, PartialEq, Eq, Structural)]
pub struct Span {
    pub start: usize,
    pub end: usize,
}

/// The token vocabulary handed over by the lexer.
#[derive(Debug, Clone, PartialEq, Eq)]
pub enum Token {
    Ident(String),
    /// An integer literal's decimal digits.
    Integer(String),
    /// A string literal as written, quotes included.
    Str(String),
    Plus,
    Minus,
    Asterisk,
    Slash,
    Bang,
    Ampersand,
    EqEq,
    BangEq,
    Eq,
    Comma,
    Colon,
    Semi,
    Arrow,
    ParenO,
    ParenC,
    BraceO,
    BraceC,
    BracketO,
    BracketC,
    Fn,
    Struct,
    If,
    Else,
    While,
    Let,
    Ptr,
    /// Text the lexer could not read as a token; no rule accepts it.
    Unknown,
}

/// A token with the span of source text it was lexed from.
#[derive(Debug, Clone, PartialEq, Eq)]
pub struct SpannedToken {
    pub token: Token,
    pub span: Span,
}

pub const IDENT: u64 = 0x1;
pub const INTEGER: u64 = 0x2;
pub const STRING: u64 = 0x4;
pub const PLUS: u64 = 0x8;
pub const MINUS: u64 = 0x10;
pub const ASTERISK: u64 = 0x20;
pub const SLASH: u64 = 0x40;
pub const BANG: u64 = 0x80;
pub const AMPERSAND: u64 = 0x100;
pub const EQ_EQ: u64 = 0x200;
pub const BANG_EQ: u64 = 0x400;
pub const EQ: u64 = 0x800;
pub const COMMA: u64 = 0x1000;
pub const COLON: u64 = 0x2000;
pub const SEMI: u64 = 0x4000;
pub const ARROW: u64 = 0x8000;
pub const PAREN_O: u64 = 0x10000;
pub const PAREN_C: u64 = 0x20000;
pub const BRACE_O: u64 = 0x40000;
pub const BRACE_C: u64 = 0x80000;
pub const BRACKET_O: u64 = 0x100000;
pub const BRACKET_C: u64 = 0x200000;
pub const FN: u64 = 0x400000;
pub const STRUCT: u64 = 0x800000;
pub const IF: u64 = 0x1000000;
pub const ELSE: u64 = 0x2000000;
pub const WHILE: u64 = 0x4000000;
pub const LET: u64 = 0x8000000;
pub const PTR: u64 = 0x10000000;
pub const UNKNOWN: u64 = 0x80000000;

/// Not a token kind but a description of what was expected: an integer
/// literal whose value fits in 64 bits.
pub const INTEGER_IN_RANGE: u64 = 0x20000000;

/// Not a token kind: the input nests deeper than the grammar admits.
pub const SHALLOWER_NESTING: u64 = 0x40000000;

/// The kind of a token as a single bit; sets of kinds are unions of these bits.
pub open spec fn spec_kind(t: Token) -> u64 {
    match t {
        Token::Ident(_) => IDENT,
        Token::Integer(_) => INTEGER,
        Token::Str(_) => STRING,
        Token::Plus => PLUS,
        Token::Minus => MINUS,
        Token::Asterisk => ASTERISK,
        Token::Slash => SLASH,
        Token::Bang => BANG,
        Token::Ampersand => AMPERSAND,
        Token::EqEq => EQ_EQ,
        Token::BangEq => BANG_EQ,
        Token::Eq => EQ,
        Token::Comma => COMMA,
        Token::Colon => COLON,
        Token::Semi => SEMI,
        Token::Arrow => ARROW,
        Token::ParenO => PAREN_O,
        Token::ParenC => PAREN_C,
        Token::BraceO => BRACE_O,
        Token::BraceC => BRACE_C,
        Token::BracketO => BRACKET_O,
        Token::BracketC => BRACKET_C,
        Token::Fn => FN,
        Token::Struct => STRUCT,
        Token::If => IF,
        Token::Else => ELSE,
        Token::While => WHILE,
        Token::Let => LET,
        Token::Ptr => PTR,
        Token::Unknown => UNKNOWN,
    }
}

impl Token {
    /// The kind bit of this token.
    pub fn kind(&self) -> (r: u64)
        ensures
            r == spec_kind(*self),
    {
        match self {
            Token::Ident(_) => IDENT,
            Token::Integer(_) => INTEGER,
            Token::Str(_) => STRING,
            Token::Plus => PLUS,
            Token::Minus => MINUS,
            Token::Asterisk => ASTERISK,
            Token::Slash => SLASH,
            Token::Bang => BANG,
            Token::Ampersand => AMPERSAND,
            Token::EqEq => EQ_EQ,
            Token::BangEq => BANG_EQ,
            Token::Eq => EQ,
            Token::Comma => COMMA,
            Token::Colon => COLON,
            Token::Semi => SEMI,
            Token::Arrow => ARROW,
            Token::ParenO => PAREN_O,
            Token::ParenC => PAREN_C,
            Token::BraceO => BRACE_O,
            Token::BraceC => BRACE_C,
            Token::BracketO => BRACKET_O,
            Token::BracketC => BRACKET_C,
            Token::Fn => FN,
            Token::Struct => STRUCT,
            Token::If => IF,
            Token::Else => ELSE,
            Token::While => WHILE,
            Token::Let => LET,
            Token::Ptr => PTR,
            Token::Unknown => UNKNOWN,
        }
    }
}

} // verus!
