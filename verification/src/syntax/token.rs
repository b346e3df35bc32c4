//! All tokens in the Nova language.
//!
//! `BlockStart` and `BlockEnd` are synthetic: the lexer never produces them;
//! the preprocessor inserts them where significant indentation opens and
//! closes a block. A float literal is held as its source text (digits, a
//! point, digits), from which its value is read when it is needed.
use vstd::prelude::*;

verus! {

#[derive(Debug, Clone, PartialEq)]
pub enum Token {
    // ── Literals ────────────────────────────────────────────────────────────
    Int(i64),
    /// The literal's digits, point and fraction digits.
    Float(String),
    Str(String),
    True,
    False,
    // ── Keywords ─────────────────────────────────────────────────────────────
    Fn,
    Let,
    Var,
    Return,
    If,
    Elif,
    Else,
    For,
    While,
    In,
    Break,
    Continue,
    Module,
    Import,
    From,
    As,
    Struct,
    Dist,
    Parallel,
    /// The keyword `map`.
    MapKw,
    Pass,
    // ── Types ─────────────────────────────────────────────────────────────────
    TypeI8,
    TypeI16,
    TypeI32,
    TypeI64,
    TypeU8,
    TypeU16,
    TypeU32,
    TypeU64,
    TypeF32,
    TypeF64,
    TypeBool,
    TypeStr,
    TypeVoid,
    // ── Decorators and identifiers ───────────────────────────────────────────
    Decorator(String),
    Ident(String),
    // ── Operators ─────────────────────────────────────────────────────────────
    Plus,
    Minus,
    Star,
    Slash,
    Percent,
    EqEq,
    BangEq,
    Lt,
    LtEq,
    Gt,
    GtEq,
    AmpAmp,
    PipePipe,
    Bang,
    Eq,
    PlusEq,
    MinusEq,
    StarEq,
    SlashEq,
    Arrow,
    Colon,
    ColonColon,
    Comma,
    Dot,
    DotDot,
    // ── Delimiters ────────────────────────────────────────────────────────────
    LParen,
    RParen,
    LBracket,
    RBracket,
    // ── Layout tokens (significant whitespace) ────────────────────────────────
    Newline,
    /// A line break followed by indentation of the given width (a tab
    /// counts four).
    Indent(usize),
    // ── Synthetic block tokens ───────────────────────────────────────────────
    BlockStart,
    BlockEnd,
}

/// The value of a token: the same variants with character sequences in
/// place of `String`s.
pub enum TokenM {
    Int(i64),
    Float(Seq<char>),
    Str(Seq<char>),
    True,
    False,
    Fn,
    Let,
    Var,
    Return,
    If,
    Elif,
    Else,
    For,
    While,
    In,
    Break,
    Continue,
    Module,
    Import,
    From,
    As,
    Struct,
    Dist,
    Parallel,
    MapKw,
    Pass,
    TypeI8,
    TypeI16,
    TypeI32,
    TypeI64,
    TypeU8,
    TypeU16,
    TypeU32,
    TypeU64,
    TypeF32,
    TypeF64,
    TypeBool,
    TypeStr,
    TypeVoid,
    Decorator(Seq<char>),
    Ident(Seq<char>),
    Plus,
    Minus,
    Star,
    Slash,
    Percent,
    EqEq,
    BangEq,
    Lt,
    LtEq,
    Gt,
    GtEq,
    AmpAmp,
    PipePipe,
    Bang,
    Eq,
    PlusEq,
    MinusEq,
    StarEq,
    SlashEq,
    Arrow,
    Colon,
    ColonColon,
    Comma,
    Dot,
    DotDot,
    LParen,
    RParen,
    LBracket,
    RBracket,
    Newline,
    Indent(usize),
    BlockStart,
    BlockEnd,
}

impl View for Token {
    type V = TokenM;

    open spec fn view(&self) -> TokenM {
        match self {
            Token::Int(x) => TokenM::Int(*x),
            Token::Float(s) => TokenM::Float(s@),
            Token::Str(s) => TokenM::Str(s@),
            Token::True => TokenM::True,
            Token::False => TokenM::False,
            Token::Fn => TokenM::Fn,
            Token::Let => TokenM::Let,
            Token::Var => TokenM::Var,
            Token::Return => TokenM::Return,
            Token::If => TokenM::If,
            Token::Elif => TokenM::Elif,
            Token::Else => TokenM::Else,
            Token::For => TokenM::For,
            Token::While => TokenM::While,
            Token::In => TokenM::In,
            Token::Break => TokenM::Break,
            Token::Continue => TokenM::Continue,
            Token::Module => TokenM::Module,
            Token::Import => TokenM::Import,
            Token::From => TokenM::From,
            Token::As => TokenM::As,
            Token::Struct => TokenM::Struct,
            Token::Dist => TokenM::Dist,
            Token::Parallel => TokenM::Parallel,
            Token::MapKw => TokenM::MapKw,
            Token::Pass => TokenM::Pass,
            Token::TypeI8 => TokenM::TypeI8,
            Token::TypeI16 => TokenM::TypeI16,
            Token::TypeI32 => TokenM::TypeI32,
            Token::TypeI64 => TokenM::TypeI64,
            Token::TypeU8 => TokenM::TypeU8,
            Token::TypeU16 => TokenM::TypeU16,
            Token::TypeU32 => TokenM::TypeU32,
            Token::TypeU64 => TokenM::TypeU64,
            Token::TypeF32 => TokenM::TypeF32,
            Token::TypeF64 => TokenM::TypeF64,
            Token::TypeBool => TokenM::TypeBool,
            Token::TypeStr => TokenM::TypeStr,
            Token::TypeVoid => TokenM::TypeVoid,
            Token::Decorator(s) => TokenM::Decorator(s@),
            Token::Ident(s) => TokenM::Ident(s@),
            Token::Plus => TokenM::Plus,
            Token::Minus => TokenM::Minus,
            Token::Star => TokenM::Star,
            Token::Slash => TokenM::Slash,
            Token::Percent => TokenM::Percent,
            Token::EqEq => TokenM::EqEq,
            Token::BangEq => TokenM::BangEq,
            Token::Lt => TokenM::Lt,
            Token::LtEq => TokenM::LtEq,
            Token::Gt => TokenM::Gt,
            Token::GtEq => TokenM::GtEq,
            Token::AmpAmp => TokenM::AmpAmp,
            Token::PipePipe => TokenM::PipePipe,
            Token::Bang => TokenM::Bang,
            Token::Eq => TokenM::Eq,
            Token::PlusEq => TokenM::PlusEq,
            Token::MinusEq => TokenM::MinusEq,
            Token::StarEq => TokenM::StarEq,
            Token::SlashEq => TokenM::SlashEq,
            Token::Arrow => TokenM::Arrow,
            Token::Colon => TokenM::Colon,
            Token::ColonColon => TokenM::ColonColon,
            Token::Comma => TokenM::Comma,
            Token::Dot => TokenM::Dot,
            Token::DotDot => TokenM::DotDot,
            Token::LParen => TokenM::LParen,
            Token::RParen => TokenM::RParen,
            Token::LBracket => TokenM::LBracket,
            Token::RBracket => TokenM::RBracket,
            Token::Newline => TokenM::Newline,
            Token::Indent(x) => TokenM::Indent(*x),
            Token::BlockStart => TokenM::BlockStart,
            Token::BlockEnd => TokenM::BlockEnd,
        }
    }
}

impl Token {
    /// An equal copy of this token.
    pub fn duplicate(&self) -> (r: Token)
        ensures
            r == *self,
    {
        match self {
            Token::Int(n) => Token::Int(*n),
            Token::Float(s) => Token::Float(s.clone()),
            Token::Str(s) => Token::Str(s.clone()),
            Token::Decorator(s) => Token::Decorator(s.clone()),
            Token::Ident(s) => Token::Ident(s.clone()),
            Token::Indent(n) => Token::Indent(*n),
            Token::True => Token::True,
            Token::False => Token::False,
            Token::Fn => Token::Fn,
            Token::Let => Token::Let,
            Token::Var => Token::Var,
            Token::Return => Token::Return,
            Token::If => Token::If,
            Token::Elif => Token::Elif,
            Token::Else => Token::Else,
            Token::For => Token::For,
            Token::While => Token::While,
            Token::In => Token::In,
            Token::Break => Token::Break,
            Token::Continue => Token::Continue,
            Token::Module => Token::Module,
            Token::Import => Token::Import,
            Token::From => Token::From,
            Token::As => Token::As,
            Token::Struct => Token::Struct,
            Token::Dist => Token::Dist,
            Token::Parallel => Token::Parallel,
            Token::MapKw => Token::MapKw,
            Token::Pass => Token::Pass,
            Token::TypeI8 => Token::TypeI8,
            Token::TypeI16 => Token::TypeI16,
            Token::TypeI32 => Token::TypeI32,
            Token::TypeI64 => Token::TypeI64,
            Token::TypeU8 => Token::TypeU8,
            Token::TypeU16 => Token::TypeU16,
            Token::TypeU32 => Token::TypeU32,
            Token::TypeU64 => Token::TypeU64,
            Token::TypeF32 => Token::TypeF32,
            Token::TypeF64 => Token::TypeF64,
            Token::TypeBool => Token::TypeBool,
            Token::TypeStr => Token::TypeStr,
            Token::TypeVoid => Token::TypeVoid,
            Token::Plus => Token::Plus,
            Token::Minus => Token::Minus,
            Token::Star => Token::Star,
            Token::Slash => Token::Slash,
            Token::Percent => Token::Percent,
            Token::EqEq => Token::EqEq,
            Token::BangEq => Token::BangEq,
            Token::Lt => Token::Lt,
            Token::LtEq => Token::LtEq,
            Token::Gt => Token::Gt,
            Token::GtEq => Token::GtEq,
            Token::AmpAmp => Token::AmpAmp,
            Token::PipePipe => Token::PipePipe,
            Token::Bang => Token::Bang,
            Token::Eq => Token::Eq,
            Token::PlusEq => Token::PlusEq,
            Token::MinusEq => Token::MinusEq,
            Token::StarEq => Token::StarEq,
            Token::SlashEq => Token::SlashEq,
            Token::Arrow => Token::Arrow,
            Token::Colon => Token::Colon,
            Token::ColonColon => Token::ColonColon,
            Token::Comma => Token::Comma,
            Token::Dot => Token::Dot,
            Token::DotDot => Token::DotDot,
            Token::LParen => Token::LParen,
            Token::RParen => Token::RParen,
            Token::LBracket => Token::LBracket,
            Token::RBracket => Token::RBracket,
            Token::Newline => Token::Newline,
            Token::BlockStart => Token::BlockStart,
            Token::BlockEnd => Token::BlockEnd,
        }
    }
}

} // verus!
