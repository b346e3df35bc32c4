//! The lexer: Nova source text to tokens with their byte spans.
//!
//! Spaces, tabs, carriage returns and `#` comments are skipped. A line break
//! followed by spaces or tabs is one `Indent` token (a tab counts four); a
//! bare line break is a `Newline`. At each position the longest token is
//! taken; a word that spells a keyword or a type name is that keyword. A
//! character that starts no token is reported and skipped, and so is an
//! integer literal too large for `i64` or an unterminated string.
use vstd::prelude::*;
use crate::syntax::span::Span;
use crate::syntax::token::{Token, TokenM};
use crate::check::types::spells;
use vstd::std_specs::iter::IteratorSpec;

verus! {

broadcast use vstd::std_specs::vec::group_vec_axioms;

/// An error found while lexing.
#[derive(Debug, Clone, PartialEq)]
pub enum LexError {
    /// A character, at the start of `span`, that begins no token.
    UnexpectedChar { ch: char, span: Span },
}

// ── Character classes ────────────────────────────────────────────────────────

pub open spec fn is_digit(c: char) -> bool {
    '0' <= c <= '9'
}

pub open spec fn is_alpha(c: char) -> bool {
    ('a' <= c <= 'z') || ('A' <= c <= 'Z')
}

pub open spec fn is_ident_start(c: char) -> bool {
    is_alpha(c) || c == '_'
}

pub open spec fn is_ident_char(c: char) -> bool {
    is_ident_start(c) || is_digit(c)
}

/// Skipped whitespace: space, tab, carriage return.
pub open spec fn is_blank(c: char) -> bool {
    c == ' ' || c == '\t' || c == '\r'
}

/// Indentation: space or tab.
pub open spec fn is_indent(c: char) -> bool {
    c == ' ' || c == '\t'
}

// ── Runs ─────────────────────────────────────────────────────────────────────

/// The end of the run of digits that starts at `i`.
pub open spec fn digit_end(cs: Seq<char>, i: int) -> int
    decreases cs.len() - i,
{
    if 0 <= i < cs.len() && is_digit(cs[i]) {
        digit_end(cs, i + 1)
    } else {
        i
    }
}

/// The end of the run of identifier characters that starts at `i`.
pub open spec fn ident_end(cs: Seq<char>, i: int) -> int
    decreases cs.len() - i,
{
    if 0 <= i < cs.len() && is_ident_char(cs[i]) {
        ident_end(cs, i + 1)
    } else {
        i
    }
}

/// The end of the run of spaces and tabs that starts at `i`.
pub open spec fn indent_end(cs: Seq<char>, i: int) -> int
    decreases cs.len() - i,
{
    if 0 <= i < cs.len() && is_indent(cs[i]) {
        indent_end(cs, i + 1)
    } else {
        i
    }
}

/// The end of the comment that starts at `i`: the next line break, or the
/// end of the text.
pub open spec fn comment_end(cs: Seq<char>, i: int) -> int
    decreases cs.len() - i,
{
    if 0 <= i < cs.len() && cs[i] != '\n' {
        comment_end(cs, i + 1)
    } else {
        i
    }
}

/// The end of a string literal whose body starts at `j` (just after the
/// opening quote): just after the closing quote. A backslash escapes any
/// character but a line break. `None` when the literal is not closed.
pub open spec fn string_end(cs: Seq<char>, j: int) -> Option<int>
    decreases cs.len() - j,
{
    if j < 0 || j >= cs.len() {
        None
    } else if cs[j] == '"' {
        Some(j + 1)
    } else if cs[j] == '\\' {
        if j + 1 < cs.len() && cs[j + 1] != '\n' {
            string_end(cs, j + 2)
        } else {
            None
        }
    } else {
        string_end(cs, j + 1)
    }
}

/// The indentation width of `cs[a..b]`: four for a tab, one otherwise.
pub open spec fn width(cs: Seq<char>, a: int, b: int) -> nat
    decreases b - a,
{
    if a >= b {
        0
    } else {
        width(cs, a, b - 1) + if cs[b - 1] == '\t' {
            4nat
        } else {
            1nat
        }
    }
}

/// The value of the decimal digits `cs[a..b]`.
pub open spec fn digits_value(cs: Seq<char>, a: int, b: int) -> nat
    decreases b - a,
{
    if a >= b {
        0
    } else {
        digits_value(cs, a, b - 1) * 10 + (cs[b - 1] as nat - '0' as nat) as nat
    }
}

/// Where the runs end: no earlier than they start, no later than the text.
pub proof fn lemma_runs(cs: Seq<char>, i: int)
    requires
        0 <= i <= cs.len(),
    ensures
        i <= digit_end(cs, i) <= cs.len(),
        i <= ident_end(cs, i) <= cs.len(),
        i <= indent_end(cs, i) <= cs.len(),
        i <= comment_end(cs, i) <= cs.len(),
        i < cs.len() && is_digit(cs[i]) ==> i < digit_end(cs, i),
        i < cs.len() && is_ident_char(cs[i]) ==> i < ident_end(cs, i),
        i < cs.len() && cs[i] != '\n' ==> i < comment_end(cs, i),
        forall|k: int| i <= k < digit_end(cs, i) ==> is_digit(#[trigger] cs[k]),
        forall|k: int| i <= k < ident_end(cs, i) ==> is_ident_char(#[trigger] cs[k]),
        forall|k: int| i <= k < indent_end(cs, i) ==> is_indent(#[trigger] cs[k]),
    decreases cs.len() - i,
{
    if i < cs.len() {
        lemma_runs(cs, i + 1);
    }
}

/// A closed string literal ends after its body starts, within the text.
pub proof fn lemma_string_end(cs: Seq<char>, j: int)
    requires
        0 <= j,
    ensures
        string_end(cs, j) matches Some(k) ==> j < k <= cs.len() && cs[k - 1] == '"',
    decreases cs.len() - j,
{
    if 0 <= j < cs.len() {
        if cs[j] == '\\' {
            if j + 1 < cs.len() && cs[j + 1] != '\n' {
                lemma_string_end(cs, j + 2);
            }
        } else if cs[j] != '"' {
            lemma_string_end(cs, j + 1);
        }
    }
}

// ── Words and operators ──────────────────────────────────────────────────────

/// The keyword or type name that the word `w` spells.
pub open spec fn keyword(w: Seq<char>) -> Option<TokenM> {
    if w == "true"@ { Some(TokenM::True) }
    else if w == "false"@ { Some(TokenM::False) }
    else if w == "fn"@ { Some(TokenM::Fn) }
    else if w == "let"@ { Some(TokenM::Let) }
    else if w == "var"@ { Some(TokenM::Var) }
    else if w == "return"@ { Some(TokenM::Return) }
    else if w == "if"@ { Some(TokenM::If) }
    else if w == "elif"@ { Some(TokenM::Elif) }
    else if w == "else"@ { Some(TokenM::Else) }
    else if w == "for"@ { Some(TokenM::For) }
    else if w == "while"@ { Some(TokenM::While) }
    else if w == "in"@ { Some(TokenM::In) }
    else if w == "break"@ { Some(TokenM::Break) }
    else if w == "continue"@ { Some(TokenM::Continue) }
    else if w == "module"@ { Some(TokenM::Module) }
    else if w == "import"@ { Some(TokenM::Import) }
    else if w == "from"@ { Some(TokenM::From) }
    else if w == "as"@ { Some(TokenM::As) }
    else if w == "struct"@ { Some(TokenM::Struct) }
    else if w == "dist"@ { Some(TokenM::Dist) }
    else if w == "parallel"@ { Some(TokenM::Parallel) }
    else if w == "map"@ { Some(TokenM::MapKw) }
    else if w == "pass"@ { Some(TokenM::Pass) }
    else if w == "i8"@ { Some(TokenM::TypeI8) }
    else if w == "i16"@ { Some(TokenM::TypeI16) }
    else if w == "i32"@ { Some(TokenM::TypeI32) }
    else if w == "i64"@ { Some(TokenM::TypeI64) }
    else if w == "u8"@ { Some(TokenM::TypeU8) }
    else if w == "u16"@ { Some(TokenM::TypeU16) }
    else if w == "u32"@ { Some(TokenM::TypeU32) }
    else if w == "u64"@ { Some(TokenM::TypeU64) }
    else if w == "f32"@ { Some(TokenM::TypeF32) }
    else if w == "f64"@ { Some(TokenM::TypeF64) }
    else if w == "bool"@ { Some(TokenM::TypeBool) }
    else if w == "str"@ { Some(TokenM::TypeStr) }
    else if w == "void"@ { Some(TokenM::TypeVoid) }
    else { None }
}

/// The operator or delimiter at `i`, longest first, with its length.
pub open spec fn operator(cs: Seq<char>, i: int) -> Option<(TokenM, int)> {
    let c = cs[i];
    let n = if i < cs.len() - 1 {
        cs[i + 1]
    } else {
        '\0'
    };
    if c == '+' {
        if n == '=' { Some((TokenM::PlusEq, 2)) } else { Some((TokenM::Plus, 1)) }
    } else if c == '-' {
        if n == '=' { Some((TokenM::MinusEq, 2)) } else if n == '>' { Some((TokenM::Arrow, 2)) } else { Some((TokenM::Minus, 1)) }
    } else if c == '*' {
        if n == '=' { Some((TokenM::StarEq, 2)) } else { Some((TokenM::Star, 1)) }
    } else if c == '/' {
        if n == '=' { Some((TokenM::SlashEq, 2)) } else { Some((TokenM::Slash, 1)) }
    } else if c == '%' {
        Some((TokenM::Percent, 1))
    } else if c == '=' {
        if n == '=' { Some((TokenM::EqEq, 2)) } else { Some((TokenM::Eq, 1)) }
    } else if c == '!' {
        if n == '=' { Some((TokenM::BangEq, 2)) } else { Some((TokenM::Bang, 1)) }
    } else if c == '<' {
        if n == '=' { Some((TokenM::LtEq, 2)) } else { Some((TokenM::Lt, 1)) }
    } else if c == '>' {
        if n == '=' { Some((TokenM::GtEq, 2)) } else { Some((TokenM::Gt, 1)) }
    } else if c == '&' {
        if n == '&' { Some((TokenM::AmpAmp, 2)) } else { None }
    } else if c == '|' {
        if n == '|' { Some((TokenM::PipePipe, 2)) } else { None }
    } else if c == ':' {
        if n == ':' { Some((TokenM::ColonColon, 2)) } else { Some((TokenM::Colon, 1)) }
    } else if c == ',' {
        Some((TokenM::Comma, 1))
    } else if c == '.' {
        if n == '.' { Some((TokenM::DotDot, 2)) } else { Some((TokenM::Dot, 1)) }
    } else if c == '(' {
        Some((TokenM::LParen, 1))
    } else if c == ')' {
        Some((TokenM::RParen, 1))
    } else if c == '[' {
        Some((TokenM::LBracket, 1))
    } else if c == ']' {
        Some((TokenM::RBracket, 1))
    } else {
        None
    }
}

// ── The lexing function ──────────────────────────────────────────────────────

/// What the lexer finds at one place: a token, or a character that starts
/// none, over the character range `start..end`.
pub enum Piece {
    Tok(TokenM, int, int),
    Bad(char, int, int),
}

/// What the lexer finds at position `i` (a piece, or nothing for skipped
/// text) and where it goes on.
pub open spec fn step(cs: Seq<char>, i: int) -> (Option<Piece>, int) {
    let c = cs[i];
    if is_blank(c) {
        (None, i + 1)
    } else if c == '#' {
        (None, comment_end(cs, i))
    } else if c == '\n' {
        let j = indent_end(cs, i + 1);
        if j > i + 1 {
            (Some(Piece::Tok(TokenM::Indent(width(cs, i + 1, j) as usize), i, j)), j)
        } else {
            (Some(Piece::Tok(TokenM::Newline, i, i + 1)), i + 1)
        }
    } else if is_digit(c) {
        let j = digit_end(cs, i);
        if j + 1 < cs.len() && cs[j] == '.' && is_digit(cs[j + 1]) {
            let k = digit_end(cs, j + 1);
            (Some(Piece::Tok(TokenM::Float(cs.subrange(i, k)), i, k)), k)
        } else if digits_value(cs, i, j) <= i64::MAX {
            (Some(Piece::Tok(TokenM::Int(digits_value(cs, i, j) as i64), i, j)), j)
        } else {
            (Some(Piece::Bad(c, i, j)), j)
        }
    } else if c == '"' {
        match string_end(cs, i + 1) {
            Some(k) => (Some(Piece::Tok(TokenM::Str(cs.subrange(i + 1, k - 1)), i, k)), k),
            None => (Some(Piece::Bad(c, i, i + 1)), i + 1),
        }
    } else if c == '@' {
        if i + 1 < cs.len() && is_ident_start(cs[i + 1]) {
            let k = ident_end(cs, i + 1);
            (Some(Piece::Tok(TokenM::Decorator(cs.subrange(i + 1, k)), i, k)), k)
        } else {
            (Some(Piece::Bad(c, i, i + 1)), i + 1)
        }
    } else if is_ident_start(c) {
        let k = ident_end(cs, i);
        let w = cs.subrange(i, k);
        let t = match keyword(w) {
            Some(t) => t,
            None => TokenM::Ident(w),
        };
        (Some(Piece::Tok(t, i, k)), k)
    } else {
        match operator(cs, i) {
            Some((t, n)) => (Some(Piece::Tok(t, i, i + n)), i + n),
            None => (Some(Piece::Bad(c, i, i + 1)), i + 1),
        }
    }
}

/// The lexer always moves on, and never past the end of the text.
pub proof fn lemma_step_advances(cs: Seq<char>, i: int)
    requires
        0 <= i < cs.len(),
    ensures
        i < step(cs, i).1 <= cs.len(),
{
    lemma_runs(cs, i);
    lemma_runs(cs, i + 1);
    lemma_string_end(cs, i + 1);
    let j = digit_end(cs, i);
    if is_digit(cs[i]) && j + 1 < cs.len() {
        lemma_runs(cs, j + 1);
    }
}

/// The pieces of `cs` from position `i` on.
pub open spec fn lex_from(cs: Seq<char>, i: int) -> Seq<Piece>
    decreases cs.len() - i,
{
    if i < 0 || i >= cs.len() {
        seq![]
    } else {
        proof {
            lemma_step_advances(cs, i);
        }
        let (p, k) = step(cs, i);
        match p {
            Some(p) => seq![p] + lex_from(cs, k),
            None => lex_from(cs, k),
        }
    }
}

// ── Byte offsets ─────────────────────────────────────────────────────────────

/// The number of bytes of `c` in UTF-8.
pub open spec fn utf8_width(c: char) -> nat {
    if (c as u32) < 0x80 {
        1
    } else if (c as u32) < 0x800 {
        2
    } else if (c as u32) < 0x10000 {
        3
    } else {
        4
    }
}

/// The byte offset of character `i` of `cs` in UTF-8.
pub open spec fn byte_at(cs: Seq<char>, i: int) -> nat
    decreases i,
{
    if i <= 0 || cs.len() == 0 {
        0
    } else if i > cs.len() {
        byte_at(cs, cs.len() as int)
    } else {
        byte_at(cs, i - 1) + utf8_width(cs[i - 1])
    }
}

/// The byte span of the character range `a..b`.
pub open spec fn span_of(cs: Seq<char>, a: int, b: int) -> Span {
    Span { start: byte_at(cs, a) as usize, end: byte_at(cs, b) as usize }
}

/// The tokens among pieces, with their byte spans.
pub open spec fn tokens_of(cs: Seq<char>, ps: Seq<Piece>) -> Seq<(TokenM, Span)>
    decreases ps.len(),
{
    if ps.len() == 0 {
        seq![]
    } else {
        tokens_of(cs, ps.drop_last()) + match ps.last() {
            Piece::Tok(t, a, b) => seq![(t, span_of(cs, a, b))],
            Piece::Bad(_, _, _) => seq![],
        }
    }
}

/// The errors among pieces, with their byte spans.
pub open spec fn errors_of(cs: Seq<char>, ps: Seq<Piece>) -> Seq<(char, Span)>
    decreases ps.len(),
{
    if ps.len() == 0 {
        seq![]
    } else {
        errors_of(cs, ps.drop_last()) + match ps.last() {
            Piece::Tok(_, _, _) => seq![],
            Piece::Bad(c, a, b) => seq![(c, span_of(cs, a, b))],
        }
    }
}

/// The values of the lexer's tokens.
pub open spec fn token_values(v: Seq<(Token, Span)>) -> Seq<(TokenM, Span)> {
    Seq::new(v.len(), |k: int| (v[k].0@, v[k].1))
}

/// The values of the lexer's errors.
pub open spec fn error_values(v: Seq<LexError>) -> Seq<(char, Span)> {
    Seq::new(
        v.len(),
        |k: int|
            match v[k] {
                LexError::UnexpectedChar { ch, span } => (ch, span),
            },
    )
}

/// Byte offsets grow with the position, by at most four per character.
pub proof fn lemma_byte_at(cs: Seq<char>, i: int)
    requires
        0 <= i <= cs.len(),
    ensures
        byte_at(cs, i) <= 4 * i,
        forall|k: int| 0 <= k <= i ==> byte_at(cs, k) <= byte_at(cs, i),
    decreases i,
{
    if i > 0 {
        lemma_byte_at(cs, i - 1);
    }
}

pub fn char_width(c: char) -> (w: usize)
    ensures
        w == utf8_width(c),
{
    let u = c as u32;
    if u < 0x80 {
        1
    } else if u < 0x800 {
        2
    } else if u < 0x10000 {
        3
    } else {
        4
    }
}

/// The characters of `s`.
pub fn chars_of(s: &str) -> (cs: Vec<char>)
    ensures
        cs@ == s@,
{
    broadcast use vstd::string::axiom_spec_iter, vstd::string::next_postcondition;

    let mut it = s.chars();
    let mut cs: Vec<char> = Vec::new();
    loop
        invariant
            cs@ + it.remaining() == s@,
            it.decrease() is Some,
        ensures
            cs@ == s@,
        decreases it.decrease()->0,
    {
        match it.next() {
            Some(c) => {
                assert(cs@.push(c) + it.remaining() =~= s@);
                cs.push(c);
            },
            None => {
                assert(cs@ =~= s@);
                break;
            },
        }
    }
    cs
}

/// The byte offset of every character position, and of the end.
pub fn offsets(cs: &Vec<char>) -> (offs: Vec<usize>)
    requires
        cs@.len() <= usize::MAX / 4,
    ensures
        offs@.len() == cs@.len() + 1,
        forall|k: int| 0 <= k <= cs@.len() ==> #[trigger] offs@[k] == byte_at(cs@, k),
{
    let mut offs: Vec<usize> = vec![0];
    let mut acc: usize = 0;
    let mut i: usize = 0;
    while i < cs.len()
        invariant
            cs@.len() <= usize::MAX / 4,
            i <= cs@.len(),
            offs@.len() == i + 1,
            acc == byte_at(cs@, i as int),
            forall|k: int| 0 <= k <= i ==> #[trigger] offs@[k] == byte_at(cs@, k),
        decreases cs@.len() - i,
    {
        proof {
            lemma_byte_at(cs@, i as int + 1);
        }
        acc = acc + char_width(cs[i]);
        offs.push(acc);
        i = i + 1;
    }
    offs
}

// ── Scanning ─────────────────────────────────────────────────────────────────

pub fn is_digit_x(c: char) -> (r: bool)
    ensures
        r == is_digit(c),
{
    '0' <= c && c <= '9'
}

pub fn is_ident_start_x(c: char) -> (r: bool)
    ensures
        r == is_ident_start(c),
{
    ('a' <= c && c <= 'z') || ('A' <= c && c <= 'Z') || c == '_'
}

pub fn is_ident_char_x(c: char) -> (r: bool)
    ensures
        r == is_ident_char(c),
{
    is_ident_start_x(c) || is_digit_x(c)
}

fn scan_digits(cs: &Vec<char>, i: usize) -> (j: usize)
    requires
        i <= cs@.len(),
    ensures
        j == digit_end(cs@, i as int),
{
    let mut j = i;
    while j < cs.len() && is_digit_x(cs[j])
        invariant
            i <= j <= cs@.len(),
            digit_end(cs@, i as int) == digit_end(cs@, j as int),
        decreases cs@.len() - j,
    {
        j = j + 1;
    }
    j
}

pub fn scan_ident(cs: &Vec<char>, i: usize) -> (j: usize)
    requires
        i <= cs@.len(),
    ensures
        j == ident_end(cs@, i as int),
{
    let mut j = i;
    while j < cs.len() && is_ident_char_x(cs[j])
        invariant
            i <= j <= cs@.len(),
            ident_end(cs@, i as int) == ident_end(cs@, j as int),
        decreases cs@.len() - j,
    {
        j = j + 1;
    }
    j
}

fn scan_indent(cs: &Vec<char>, i: usize) -> (j: usize)
    requires
        i <= cs@.len(),
    ensures
        j == indent_end(cs@, i as int),
{
    let mut j = i;
    while j < cs.len() && (cs[j] == ' ' || cs[j] == '\t')
        invariant
            i <= j <= cs@.len(),
            indent_end(cs@, i as int) == indent_end(cs@, j as int),
        decreases cs@.len() - j,
    {
        j = j + 1;
    }
    j
}

fn scan_comment(cs: &Vec<char>, i: usize) -> (j: usize)
    requires
        i <= cs@.len(),
    ensures
        j == comment_end(cs@, i as int),
{
    let mut j = i;
    while j < cs.len() && cs[j] != '\n'
        invariant
            i <= j <= cs@.len(),
            comment_end(cs@, i as int) == comment_end(cs@, j as int),
        decreases cs@.len() - j,
    {
        j = j + 1;
    }
    j
}

pub fn scan_string(cs: &Vec<char>, j0: usize) -> (r: Option<usize>)
    requires
        j0 <= cs@.len(),
    ensures
        match r {
            Some(k) => string_end(cs@, j0 as int) == Some(k as int),
            None => string_end(cs@, j0 as int) is None,
        },
{
    let mut j = j0;
    while j < cs.len()
        invariant
            j0 <= j,
            string_end(cs@, j0 as int) == string_end(cs@, j as int),
        decreases cs@.len() - j,
    {
        if cs[j] == '"' {
            return Some(j + 1);
        } else if cs[j] == '\\' {
            if j + 1 < cs.len() && cs[j + 1] != '\n' {
                j = j + 2;
            } else {
                return None;
            }
        } else {
            j = j + 1;
        }
    }
    None
}

fn indent_width(cs: &Vec<char>, a: usize, b: usize) -> (w: usize)
    requires
        a <= b <= cs@.len(),
        cs@.len() <= usize::MAX / 4,
    ensures
        w == width(cs@, a as int, b as int),
{
    let mut w: usize = 0;
    let mut k = a;
    while k < b
        invariant
            a <= k <= b <= cs@.len(),
            cs@.len() <= usize::MAX / 4,
            w == width(cs@, a as int, k as int),
            w <= 4 * (k - a),
        decreases b - k,
    {
        w = w + if cs[k] == '\t' {
            4
        } else {
            1
        };
        k = k + 1;
    }
    w
}

/// Prefixes of a digit string have no larger value.
proof fn lemma_digits_monotone(cs: Seq<char>, a: int, k: int, b: int)
    requires
        a <= k <= b <= cs.len(),
        forall|x: int| a <= x < b ==> is_digit(#[trigger] cs[x]),
    ensures
        digits_value(cs, a, k) <= digits_value(cs, a, b),
    decreases b - k,
{
    if k < b {
        lemma_digits_monotone(cs, a, k, b - 1);
    }
}

/// The value of the digits `cs[a..b]`, if it fits in `i64`.
fn digits_i64(cs: &Vec<char>, a: usize, b: usize) -> (r: Option<i64>)
    requires
        a <= b <= cs@.len(),
        forall|x: int| a <= x < b ==> is_digit(#[trigger] cs@[x]),
    ensures
        match r {
            Some(v) => digits_value(cs@, a as int, b as int) <= i64::MAX && v == digits_value(cs@, a as int, b as int),
            None => digits_value(cs@, a as int, b as int) > i64::MAX,
        },
{
    let mut acc: i64 = 0;
    let mut k = a;
    while k < b
        invariant
            a <= k <= b <= cs@.len(),
            forall|x: int| a <= x < b ==> is_digit(#[trigger] cs@[x]),
            acc == digits_value(cs@, a as int, k as int),
            acc >= 0,
        decreases b - k,
    {
        let d = (cs[k] as u32 - '0' as u32) as i64;
        assert(is_digit(cs@[k as int]));
        let next = match acc.checked_mul(10) {
            Some(m) => m.checked_add(d),
            None => None,
        };
        match next {
            Some(n) => {
                acc = n;
                k = k + 1;
            },
            None => {
                proof {
                    lemma_digits_monotone(cs@, a as int, k as int + 1, b as int);
                }
                return None;
            },
        }
    }
    Some(acc)
}

/// The keyword or type name that the word `w` spells.
fn keyword_token(w: &String) -> (r: Option<Token>)
    ensures
        match r {
            Some(t) => keyword(w@) == Some(t@),
            None => keyword(w@) is None,
        },
{
    proof {
        reveal_strlit("true");
        reveal_strlit("false");
        reveal_strlit("fn");
        reveal_strlit("let");
        reveal_strlit("var");
        reveal_strlit("return");
        reveal_strlit("if");
        reveal_strlit("elif");
        reveal_strlit("else");
        reveal_strlit("for");
        reveal_strlit("while");
        reveal_strlit("in");
        reveal_strlit("break");
        reveal_strlit("continue");
        reveal_strlit("module");
        reveal_strlit("import");
        reveal_strlit("from");
        reveal_strlit("as");
        reveal_strlit("struct");
        reveal_strlit("dist");
        reveal_strlit("parallel");
        reveal_strlit("map");
        reveal_strlit("pass");
        reveal_strlit("i8");
        reveal_strlit("i16");
        reveal_strlit("i32");
        reveal_strlit("i64");
        reveal_strlit("u8");
        reveal_strlit("u16");
        reveal_strlit("u32");
        reveal_strlit("u64");
        reveal_strlit("f32");
        reveal_strlit("f64");
        reveal_strlit("bool");
        reveal_strlit("str");
        reveal_strlit("void");
    }
    if spells(w, "true") {
        Some(Token::True)
    } else if spells(w, "false") {
        Some(Token::False)
    } else if spells(w, "fn") {
        Some(Token::Fn)
    } else if spells(w, "let") {
        Some(Token::Let)
    } else if spells(w, "var") {
        Some(Token::Var)
    } else if spells(w, "return") {
        Some(Token::Return)
    } else if spells(w, "if") {
        Some(Token::If)
    } else if spells(w, "elif") {
        Some(Token::Elif)
    } else if spells(w, "else") {
        Some(Token::Else)
    } else if spells(w, "for") {
        Some(Token::For)
    } else if spells(w, "while") {
        Some(Token::While)
    } else if spells(w, "in") {
        Some(Token::In)
    } else if spells(w, "break") {
        Some(Token::Break)
    } else if spells(w, "continue") {
        Some(Token::Continue)
    } else if spells(w, "module") {
        Some(Token::Module)
    } else if spells(w, "import") {
        Some(Token::Import)
    } else if spells(w, "from") {
        Some(Token::From)
    } else if spells(w, "as") {
        Some(Token::As)
    } else if spells(w, "struct") {
        Some(Token::Struct)
    } else if spells(w, "dist") {
        Some(Token::Dist)
    } else if spells(w, "parallel") {
        Some(Token::Parallel)
    } else if spells(w, "map") {
        Some(Token::MapKw)
    } else if spells(w, "pass") {
        Some(Token::Pass)
    } else if spells(w, "i8") {
        Some(Token::TypeI8)
    } else if spells(w, "i16") {
        Some(Token::TypeI16)
    } else if spells(w, "i32") {
        Some(Token::TypeI32)
    } else if spells(w, "i64") {
        Some(Token::TypeI64)
    } else if spells(w, "u8") {
        Some(Token::TypeU8)
    } else if spells(w, "u16") {
        Some(Token::TypeU16)
    } else if spells(w, "u32") {
        Some(Token::TypeU32)
    } else if spells(w, "u64") {
        Some(Token::TypeU64)
    } else if spells(w, "f32") {
        Some(Token::TypeF32)
    } else if spells(w, "f64") {
        Some(Token::TypeF64)
    } else if spells(w, "bool") {
        Some(Token::TypeBool)
    } else if spells(w, "str") {
        Some(Token::TypeStr)
    } else if spells(w, "void") {
        Some(Token::TypeVoid)
    } else {
        None
    }
}

/// The operator or delimiter at `i`, with its length.
fn operator_token(cs: &Vec<char>, i: usize) -> (r: Option<(Token, usize)>)
    requires
        i < cs@.len(),
    ensures
        match r {
            Some((t, n)) => operator(cs@, i as int) == Some((t@, n as int)),
            None => operator(cs@, i as int) is None,
        },
{
    let c = cs[i];
    let n = if i < cs.len() - 1 {
        cs[i + 1]
    } else {
        '\0'
    };
    if c == '+' {
        if n == '=' { Some((Token::PlusEq, 2)) } else { Some((Token::Plus, 1)) }
    } else if c == '-' {
        if n == '=' { Some((Token::MinusEq, 2)) } else if n == '>' { Some((Token::Arrow, 2)) } else { Some((Token::Minus, 1)) }
    } else if c == '*' {
        if n == '=' { Some((Token::StarEq, 2)) } else { Some((Token::Star, 1)) }
    } else if c == '/' {
        if n == '=' { Some((Token::SlashEq, 2)) } else { Some((Token::Slash, 1)) }
    } else if c == '%' {
        Some((Token::Percent, 1))
    } else if c == '=' {
        if n == '=' { Some((Token::EqEq, 2)) } else { Some((Token::Eq, 1)) }
    } else if c == '!' {
        if n == '=' { Some((Token::BangEq, 2)) } else { Some((Token::Bang, 1)) }
    } else if c == '<' {
        if n == '=' { Some((Token::LtEq, 2)) } else { Some((Token::Lt, 1)) }
    } else if c == '>' {
        if n == '=' { Some((Token::GtEq, 2)) } else { Some((Token::Gt, 1)) }
    } else if c == '&' {
        if n == '&' { Some((Token::AmpAmp, 2)) } else { None }
    } else if c == '|' {
        if n == '|' { Some((Token::PipePipe, 2)) } else { None }
    } else if c == ':' {
        if n == ':' { Some((Token::ColonColon, 2)) } else { Some((Token::Colon, 1)) }
    } else if c == ',' {
        Some((Token::Comma, 1))
    } else if c == '.' {
        if n == '.' { Some((Token::DotDot, 2)) } else { Some((Token::Dot, 1)) }
    } else if c == '(' {
        Some((Token::LParen, 1))
    } else if c == ')' {
        Some((Token::RParen, 1))
    } else if c == '[' {
        Some((Token::LBracket, 1))
    } else if c == ']' {
        Some((Token::RBracket, 1))
    } else {
        None
    }
}

proof fn lemma_push_assoc(a: Seq<Piece>, p: Piece, r: Seq<Piece>)
    ensures
        a.push(p) + r == a + (seq![p] + r),
{
    assert(a.push(p) + r =~= a + (seq![p] + r));
}







proof fn lemma_tokens_push(cs: Seq<char>, ps: Seq<Piece>, p: Piece)
    ensures
        tokens_of(cs, ps.push(p)) == tokens_of(cs, ps) + match p {
            Piece::Tok(t, a, b) => seq![(t, span_of(cs, a, b))],
            Piece::Bad(_, _, _) => seq![],
        },
        errors_of(cs, ps.push(p)) == errors_of(cs, ps) + match p {
            Piece::Tok(_, _, _) => seq![],
            Piece::Bad(c, a, b) => seq![(c, span_of(cs, a, b))],
        },
{
    assert(ps.push(p).drop_last() =~= ps);
}

/// Lex a Nova source text into tokens with their byte spans, and the
/// errors for the characters that start no token. Lexing goes on after an
/// error.
pub fn lex(source: &str) -> (r: (Vec<(Token, Span)>, Vec<LexError>))
    requires
        source@.len() <= usize::MAX / 4,
    ensures
        token_values(r.0@) == tokens_of(source@, lex_from(source@, 0)),
        error_values(r.1@) == errors_of(source@, lex_from(source@, 0)),
{
    let cs = chars_of(source);
    let offs = offsets(&cs);
    let ghost all = lex_from(cs@, 0);
    let mut tokens: Vec<(Token, Span)> = Vec::new();
    let mut errors: Vec<LexError> = Vec::new();
    let ghost mut done: Seq<Piece> = seq![];
    let mut i: usize = 0;
    assert(all == done + lex_from(cs@, 0));
    while i < cs.len()
        invariant
            cs@ == source@,
            cs@.len() <= usize::MAX / 4,
            i <= cs@.len(),
            offs@.len() == cs@.len() + 1,
            forall|k: int| 0 <= k <= cs@.len() ==> #[trigger] offs@[k] == byte_at(cs@, k),
            all == lex_from(cs@, 0),
            all == done + lex_from(cs@, i as int),
            token_values(tokens@) == tokens_of(cs@, done),
            error_values(errors@) == errors_of(cs@, done),
        decreases cs@.len() - i,
    {
        let ghost cs_v = cs@;
        proof {
            lemma_runs(cs_v, i as int);
            lemma_runs(cs_v, i as int + 1);
            lemma_string_end(cs_v, i as int + 1);
        }
        let c = cs[i];
        // the piece found at i, and where lexing goes on
        let mut next: usize = i + 1;
        let mut found: Option<(Token, usize, usize)> = None;
        let mut bad: Option<(char, usize, usize)> = None;
        if c == ' ' || c == '\t' || c == '\r' {
        } else if c == '#' {
            next = scan_comment(&cs, i);
        } else if c == '\n' {
            let j = scan_indent(&cs, i + 1);
            if j > i + 1 {
                let w = indent_width(&cs, i + 1, j);
                found = Some((Token::Indent(w), i, j));
                next = j;
            } else {
                found = Some((Token::Newline, i, i + 1));
            }
        } else if is_digit_x(c) {
            let j = scan_digits(&cs, i);
            if j + 1 < cs.len() && cs[j] == '.' && is_digit_x(cs[j + 1]) {
                let k = scan_digits(&cs, j + 1);
                proof {
                    lemma_runs(cs_v, j as int + 1);
                }
                let text = String::from_str(source.substring_char(i, k));
                found = Some((Token::Float(text), i, k));
                next = k;
            } else {
                match digits_i64(&cs, i, j) {
                    Some(v) => {
                        found = Some((Token::Int(v), i, j));
                    },
                    None => {
                        bad = Some((c, i, j));
                    },
                }
                next = j;
            }
        } else if c == '"' {
            match scan_string(&cs, i + 1) {
                Some(k) => {
                    let text = String::from_str(source.substring_char(i + 1, k - 1));
                    found = Some((Token::Str(text), i, k));
                    next = k;
                },
                None => {
                    bad = Some((c, i, i + 1));
                },
            }
        } else if c == '@' {
            if i + 1 < cs.len() && is_ident_start_x(cs[i + 1]) {
                let k = scan_ident(&cs, i + 1);
                let text = String::from_str(source.substring_char(i + 1, k));
                found = Some((Token::Decorator(text), i, k));
                next = k;
            } else {
                bad = Some((c, i, i + 1));
            }
        } else if is_ident_start_x(c) {
            let k = scan_ident(&cs, i);
            let w = String::from_str(source.substring_char(i, k));
            let t = match keyword_token(&w) {
                Some(t) => t,
                None => Token::Ident(w),
            };
            found = Some((t, i, k));
            next = k;
        } else {
            match operator_token(&cs, i) {
                Some((t, n)) => {
                    found = Some((t, i, i + n));
                    next = i + n;
                },
                None => {
                    bad = Some((c, i, i + 1));
                },
            }
        }
        proof {
            let p = match &found {
                Some((t, a, b)) => Some(Piece::Tok(t@, *a as int, *b as int)),
                None => match &bad {
                    Some((ch, a, b)) => Some(Piece::Bad(*ch, *a as int, *b as int)),
                    None => None,
                },
            };
            assert(step(cs_v, i as int) == (p, next as int));
            lemma_step_advances(cs_v, i as int);
        }
        match found {
            Some((t, a, b)) => {
                let span = Span { start: offs[a], end: offs[b] };
                proof {
                    let p = Piece::Tok(t@, a as int, b as int);
                    lemma_tokens_push(cs_v, done, p);
                    lemma_push_assoc(done, p, lex_from(cs_v, next as int));
                    done = done.push(p);
                }
                tokens.push((t, span));
                proof {
                    assert(token_values(tokens@) =~= tokens_of(cs_v, done));
                }
            },
            None => match bad {
                Some((ch, a, b)) => {
                    let span = Span { start: offs[a], end: offs[b] };
                    proof {
                        let p = Piece::Bad(ch, a as int, b as int);
                        lemma_tokens_push(cs_v, done, p);
                        lemma_push_assoc(done, p, lex_from(cs_v, next as int));
                        done = done.push(p);
                    }
                    errors.push(LexError::UnexpectedChar { ch, span });
                    proof {
                        assert(error_values(errors@) =~= errors_of(cs_v, done));
                    }
                },
                None => {},
            },
        }
        i = next;
    }
    proof {
        assert(lex_from(cs@, i as int) == Seq::<Piece>::empty());
        assert(done + Seq::<Piece>::empty() =~= done);
    }
    (tokens, errors)
}

} // verus!
