//! Tokens of the Nova compiler front end: their kinds, positions and text.
use vstd::prelude::*;

verus! {

/// All token types in the Nova language
#[derive(Debug, Clone, Copy, PartialEq, Eq, Structural)]
pub enum TokenKind {
    // ── Keywords ──────────────────────────────────────────────
    /// `fn`
    Fn,
    /// `let`
    Let,
    /// `mut`
    Mut,
    /// `const`
    Const,
    /// `return`
    Return,
    /// `if`
    If,
    /// `elif`
    Elif,
    /// `else`
    Else,
    /// `for`
    For,
    /// `while`
    While,
    /// `break`
    Break,
    /// `continue`
    Continue,
    /// `match`
    Match,
    /// `case`
    Case,
    /// `import`
    Import,
    /// `from`
    From,
    /// `as`
    As,
    /// `foreign`
    Foreign,
    /// `struct`
    Struct,
    /// `enum`
    Enum,
    /// `trait`
    Trait,
    /// `impl`
    Impl,
    /// `self`
    SelfKw,
    /// `true`
    True,
    /// `false`
    False,
    /// `none`
    NoneKw,
    /// `and`
    And,
    /// `or`
    Or,
    /// `not`
    Not,
    /// `in`
    In,
    /// `is`
    Is,
    /// `async`
    Async,
    /// `await`
    Await,
    /// `spawn`
    Spawn,
    /// `yield`
    Yield,
    /// `type`
    Type,
    /// `pub`
    Pub,
    /// `require`
    Require,
    /// `ensure`
    Ensure,
    /// `pure`
    Pure,
    // ── Nova-specific keywords are among the above: `require`, `ensure`, `pure`
    // ── Literals ──────────────────────────────────────────────
    /// Digits, possibly with `_` separators
    IntLiteral,
    /// Digits, a point, digits
    FloatLiteral,
    /// A double-quoted string with backslash escapes
    StringLiteral,
    /// `f` followed by a string literal
    FStringLiteral,
    /// One character or escape in single quotes
    CharLiteral,
    /// A letter or `_`, then letters, digits and `_`
    Identifier,
    // ── Operators and delimiters ──────────────────────────────
    /// `+`
    Plus,
    /// `-`
    Minus,
    /// `*`
    Star,
    /// `/`
    Slash,
    /// `//`
    DoubleSlash,
    /// `%`
    Percent,
    /// `**`
    Power,
    /// `=`
    Assign,
    /// `+=`
    PlusAssign,
    /// `-=`
    MinusAssign,
    /// `*=`
    StarAssign,
    /// `/=`
    SlashAssign,
    /// `==`
    Eq,
    /// `!=`
    NotEq,
    /// `<`
    Lt,
    /// `>`
    Gt,
    /// `<=`
    LtEq,
    /// `>=`
    GtEq,
    /// `|>`
    Pipe,
    /// `->`
    Arrow,
    /// `=>`
    FatArrow,
    /// `(`
    LParen,
    /// `)`
    RParen,
    /// `[`
    LBracket,
    /// `]`
    RBracket,
    /// `{`
    LBrace,
    /// `}`
    RBrace,
    /// `,`
    Comma,
    /// `:`
    Colon,
    /// `;`
    Semicolon,
    /// `.`
    Dot,
    /// `..`
    DotDot,
    /// `@`
    At,
    /// `&`
    Ampersand,
    // ── Indentation & structure (emitted by the tokenizer) ────
    Indent,
    Dedent,
    Newline,
    Comment,
    DocComment,
    Eof,
}

/// A single token with its kind, source location, and text
#[derive(Debug)]
pub struct Token {
    pub kind: TokenKind,
    /// (line, column, length), column and length in bytes
    pub span: (usize, usize, usize),
    pub text: String,
}

/// The keyword that `w` spells, if any.
pub open spec fn keyword_kind(w: Seq<char>) -> Option<TokenKind> {
    if w == "fn"@ {
        Some(TokenKind::Fn)
    } else if w == "let"@ {
        Some(TokenKind::Let)
    } else if w == "mut"@ {
        Some(TokenKind::Mut)
    } else if w == "const"@ {
        Some(TokenKind::Const)
    } else if w == "return"@ {
        Some(TokenKind::Return)
    } else if w == "if"@ {
        Some(TokenKind::If)
    } else if w == "elif"@ {
        Some(TokenKind::Elif)
    } else if w == "else"@ {
        Some(TokenKind::Else)
    } else if w == "for"@ {
        Some(TokenKind::For)
    } else if w == "while"@ {
        Some(TokenKind::While)
    } else if w == "break"@ {
        Some(TokenKind::Break)
    } else if w == "continue"@ {
        Some(TokenKind::Continue)
    } else if w == "match"@ {
        Some(TokenKind::Match)
    } else if w == "case"@ {
        Some(TokenKind::Case)
    } else if w == "import"@ {
        Some(TokenKind::Import)
    } else if w == "from"@ {
        Some(TokenKind::From)
    } else if w == "as"@ {
        Some(TokenKind::As)
    } else if w == "foreign"@ {
        Some(TokenKind::Foreign)
    } else if w == "struct"@ {
        Some(TokenKind::Struct)
    } else if w == "enum"@ {
        Some(TokenKind::Enum)
    } else if w == "trait"@ {
        Some(TokenKind::Trait)
    } else if w == "impl"@ {
        Some(TokenKind::Impl)
    } else if w == "self"@ {
        Some(TokenKind::SelfKw)
    } else if w == "true"@ {
        Some(TokenKind::True)
    } else if w == "false"@ {
        Some(TokenKind::False)
    } else if w == "none"@ {
        Some(TokenKind::NoneKw)
    } else if w == "and"@ {
        Some(TokenKind::And)
    } else if w == "or"@ {
        Some(TokenKind::Or)
    } else if w == "not"@ {
        Some(TokenKind::Not)
    } else if w == "in"@ {
        Some(TokenKind::In)
    } else if w == "is"@ {
        Some(TokenKind::Is)
    } else if w == "async"@ {
        Some(TokenKind::Async)
    } else if w == "await"@ {
        Some(TokenKind::Await)
    } else if w == "spawn"@ {
        Some(TokenKind::Spawn)
    } else if w == "yield"@ {
        Some(TokenKind::Yield)
    } else if w == "type"@ {
        Some(TokenKind::Type)
    } else if w == "pub"@ {
        Some(TokenKind::Pub)
    } else if w == "require"@ {
        Some(TokenKind::Require)
    } else if w == "ensure"@ {
        Some(TokenKind::Ensure)
    } else if w == "pure"@ {
        Some(TokenKind::Pure)
    } else {
        None
    }
}

/// How a token kind is described in messages.
pub open spec fn kind_name(k: TokenKind) -> Seq<char> {
    match k {
        TokenKind::Fn => "fn"@,
        TokenKind::Let => "let"@,
        TokenKind::Mut => "mut"@,
        TokenKind::Const => "Const"@,
        TokenKind::Return => "return"@,
        TokenKind::If => "if"@,
        TokenKind::Elif => "Elif"@,
        TokenKind::Else => "else"@,
        TokenKind::For => "For"@,
        TokenKind::While => "While"@,
        TokenKind::Break => "Break"@,
        TokenKind::Continue => "Continue"@,
        TokenKind::Match => "Match"@,
        TokenKind::Case => "Case"@,
        TokenKind::Import => "Import"@,
        TokenKind::From => "From"@,
        TokenKind::As => "As"@,
        TokenKind::Foreign => "Foreign"@,
        TokenKind::Struct => "Struct"@,
        TokenKind::Enum => "Enum"@,
        TokenKind::Trait => "Trait"@,
        TokenKind::Impl => "Impl"@,
        TokenKind::SelfKw => "SelfKw"@,
        TokenKind::True => "True"@,
        TokenKind::False => "False"@,
        TokenKind::NoneKw => "None"@,
        TokenKind::And => "And"@,
        TokenKind::Or => "Or"@,
        TokenKind::Not => "Not"@,
        TokenKind::In => "In"@,
        TokenKind::Is => "Is"@,
        TokenKind::Async => "Async"@,
        TokenKind::Await => "Await"@,
        TokenKind::Spawn => "Spawn"@,
        TokenKind::Yield => "Yield"@,
        TokenKind::Type => "Type"@,
        TokenKind::Pub => "Pub"@,
        TokenKind::Require => "Require"@,
        TokenKind::Ensure => "Ensure"@,
        TokenKind::Pure => "Pure"@,
        TokenKind::IntLiteral => "integer"@,
        TokenKind::FloatLiteral => "float"@,
        TokenKind::StringLiteral => "string"@,
        TokenKind::FStringLiteral => "FStringLiteral"@,
        TokenKind::CharLiteral => "CharLiteral"@,
        TokenKind::Identifier => "identifier"@,
        TokenKind::Plus => "Plus"@,
        TokenKind::Minus => "Minus"@,
        TokenKind::Star => "Star"@,
        TokenKind::Slash => "Slash"@,
        TokenKind::DoubleSlash => "DoubleSlash"@,
        TokenKind::Percent => "Percent"@,
        TokenKind::Power => "Power"@,
        TokenKind::Assign => "Assign"@,
        TokenKind::PlusAssign => "PlusAssign"@,
        TokenKind::MinusAssign => "MinusAssign"@,
        TokenKind::StarAssign => "StarAssign"@,
        TokenKind::SlashAssign => "SlashAssign"@,
        TokenKind::Eq => "Eq"@,
        TokenKind::NotEq => "NotEq"@,
        TokenKind::Lt => "Lt"@,
        TokenKind::Gt => "Gt"@,
        TokenKind::LtEq => "LtEq"@,
        TokenKind::GtEq => "GtEq"@,
        TokenKind::Pipe => "|>"@,
        TokenKind::Arrow => "->"@,
        TokenKind::FatArrow => "FatArrow"@,
        TokenKind::LParen => "LParen"@,
        TokenKind::RParen => "RParen"@,
        TokenKind::LBracket => "LBracket"@,
        TokenKind::RBracket => "RBracket"@,
        TokenKind::LBrace => "LBrace"@,
        TokenKind::RBrace => "RBrace"@,
        TokenKind::Comma => "Comma"@,
        TokenKind::Colon => "Colon"@,
        TokenKind::Semicolon => "Semicolon"@,
        TokenKind::Dot => "Dot"@,
        TokenKind::DotDot => "DotDot"@,
        TokenKind::At => "@"@,
        TokenKind::Ampersand => "Ampersand"@,
        TokenKind::Indent => "Indent"@,
        TokenKind::Dedent => "Dedent"@,
        TokenKind::Newline => "Newline"@,
        TokenKind::Comment => "Comment"@,
        TokenKind::DocComment => "DocComment"@,
        TokenKind::Eof => "end of file"@,
    }
}

impl Token {
    /// An equal copy of this token.
    pub fn duplicate(&self) -> (r: Token)
        ensures
            r.kind == self.kind,
            r.span == self.span,
            r.text@ == self.text@,
    {
        Token { kind: self.kind, span: self.span, text: self.text.clone() }
    }
}

impl TokenKind {
    /// How the kind is described in messages: a few by their spelling or
    /// class, the others by their name.
    pub fn name(self) -> (r: &'static str)
        ensures
            r@ == kind_name(self),
    {
        match self {
            TokenKind::Fn => "fn",
            TokenKind::Let => "let",
            TokenKind::Mut => "mut",
            TokenKind::Const => "Const",
            TokenKind::Return => "return",
            TokenKind::If => "if",
            TokenKind::Elif => "Elif",
            TokenKind::Else => "else",
            TokenKind::For => "For",
            TokenKind::While => "While",
            TokenKind::Break => "Break",
            TokenKind::Continue => "Continue",
            TokenKind::Match => "Match",
            TokenKind::Case => "Case",
            TokenKind::Import => "Import",
            TokenKind::From => "From",
            TokenKind::As => "As",
            TokenKind::Foreign => "Foreign",
            TokenKind::Struct => "Struct",
            TokenKind::Enum => "Enum",
            TokenKind::Trait => "Trait",
            TokenKind::Impl => "Impl",
            TokenKind::SelfKw => "SelfKw",
            TokenKind::True => "True",
            TokenKind::False => "False",
            TokenKind::NoneKw => "None",
            TokenKind::And => "And",
            TokenKind::Or => "Or",
            TokenKind::Not => "Not",
            TokenKind::In => "In",
            TokenKind::Is => "Is",
            TokenKind::Async => "Async",
            TokenKind::Await => "Await",
            TokenKind::Spawn => "Spawn",
            TokenKind::Yield => "Yield",
            TokenKind::Type => "Type",
            TokenKind::Pub => "Pub",
            TokenKind::Require => "Require",
            TokenKind::Ensure => "Ensure",
            TokenKind::Pure => "Pure",
            TokenKind::IntLiteral => "integer",
            TokenKind::FloatLiteral => "float",
            TokenKind::StringLiteral => "string",
            TokenKind::FStringLiteral => "FStringLiteral",
            TokenKind::CharLiteral => "CharLiteral",
            TokenKind::Identifier => "identifier",
            TokenKind::Plus => "Plus",
            TokenKind::Minus => "Minus",
            TokenKind::Star => "Star",
            TokenKind::Slash => "Slash",
            TokenKind::DoubleSlash => "DoubleSlash",
            TokenKind::Percent => "Percent",
            TokenKind::Power => "Power",
            TokenKind::Assign => "Assign",
            TokenKind::PlusAssign => "PlusAssign",
            TokenKind::MinusAssign => "MinusAssign",
            TokenKind::StarAssign => "StarAssign",
            TokenKind::SlashAssign => "SlashAssign",
            TokenKind::Eq => "Eq",
            TokenKind::NotEq => "NotEq",
            TokenKind::Lt => "Lt",
            TokenKind::Gt => "Gt",
            TokenKind::LtEq => "LtEq",
            TokenKind::GtEq => "GtEq",
            TokenKind::Pipe => "|>",
            TokenKind::Arrow => "->",
            TokenKind::FatArrow => "FatArrow",
            TokenKind::LParen => "LParen",
            TokenKind::RParen => "RParen",
            TokenKind::LBracket => "LBracket",
            TokenKind::RBracket => "RBracket",
            TokenKind::LBrace => "LBrace",
            TokenKind::RBrace => "RBrace",
            TokenKind::Comma => "Comma",
            TokenKind::Colon => "Colon",
            TokenKind::Semicolon => "Semicolon",
            TokenKind::Dot => "Dot",
            TokenKind::DotDot => "DotDot",
            TokenKind::At => "@",
            TokenKind::Ampersand => "Ampersand",
            TokenKind::Indent => "Indent",
            TokenKind::Dedent => "Dedent",
            TokenKind::Newline => "Newline",
            TokenKind::Comment => "Comment",
            TokenKind::DocComment => "DocComment",
            TokenKind::Eof => "end of file",
        }
    }
}

} // verus!
