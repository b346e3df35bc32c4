//! The tokenizer: Nova source to tokens, line by line, with indentation
//! turned into `Indent` and `Dedent` tokens.
//!
//! Inside a line, spaces and tabs are skipped and the longest token is
//! taken at each position; a word that spells a keyword is that keyword.
//! A line that is blank or a comment gives a comment token (a `##` doc
//! comment also closes deeper indentation). Inside open brackets, and on a
//! line that starts with a continuation operator, indentation is ignored.
//! Every line outside brackets ends with a `Newline`; at the end the open
//! indentation levels are closed and an `Eof` token follows.
use vstd::prelude::*;
use crate::frontend::token::{Token, TokenKind, keyword_kind};
use crate::syntax::lexer::{byte_at, ident_end, is_digit, is_ident_char, is_ident_start, string_end, utf8_width};

verus! {

broadcast use vstd::std_specs::vec::group_vec_axioms;

/// A character that begins no token, at byte `span.0` of its line, `span.1`
/// bytes long.
#[derive(Debug)]
pub struct LexError {
    pub span: (usize, usize),
}

impl LexError {
    /// The one-line message of the error.
    pub fn message(&self) -> (r: &'static str)
        ensures
            r@ == "unexpected character"@,
    {
        "unexpected character"
    }
}

// ── Characters ──────────────────────────────────────────────

/// Unicode white space, which trimming removes.
pub open spec fn is_space(c: char) -> bool {
    ('\u{9}' <= c <= '\u{d}') || c == ' ' || c == '\u{85}' || c == '\u{a0}' || c == '\u{1680}' || (
    '\u{2000}' <= c <= '\u{200a}') || c == '\u{2028}' || c == '\u{2029}' || c == '\u{202f}' || c
        == '\u{205f}' || c == '\u{3000}'
}

/// The start of the text after the white space that begins at `i`.
pub open spec fn lead_end(cs: Seq<char>, i: int) -> int
    decreases cs.len() - i,
{
    if 0 <= i < cs.len() && is_space(cs[i]) {
        lead_end(cs, i + 1)
    } else {
        i
    }
}

/// The end of the text before the white space that ends at `j`.
pub open spec fn trail_start(cs: Seq<char>, j: int) -> int
    decreases j,
{
    if 0 < j <= cs.len() && is_space(cs[j - 1]) {
        trail_start(cs, j - 1)
    } else {
        j
    }
}

/// `cs` without white space at either end.
pub open spec fn trim_m(cs: Seq<char>) -> Seq<char> {
    let a = lead_end(cs, 0);
    if a >= cs.len() {
        Seq::empty()
    } else {
        cs.subrange(a, trail_start(cs, cs.len() as int))
    }
}

/// `cs` without the `#` characters it starts with.
pub open spec fn strip_hashes(cs: Seq<char>) -> Seq<char>
    decreases cs.len(),
{
    if cs.len() > 0 && cs[0] == '#' {
        strip_hashes(cs.drop_first())
    } else {
        cs
    }
}

/// The end of the run of digits and `_` that starts at `i`.
pub open spec fn number_end(cs: Seq<char>, i: int) -> int
    decreases cs.len() - i,
{
    if 0 <= i < cs.len() && (is_digit(cs[i]) || cs[i] == '_') {
        number_end(cs, i + 1)
    } else {
        i
    }
}

/// `cs` has `p` at position `i`.
pub open spec fn has_at(cs: Seq<char>, i: int, p: Seq<char>) -> bool {
    0 <= i && i + p.len() <= cs.len() && cs.subrange(i, i + p.len()) == p
}

// ── Tokens of a line ────────────────────────────────────────

/// The two-character operator at `i`, if any.
pub open spec fn double_op(a: char, b: char) -> Option<TokenKind> {
    if a == '/' && b == '/' {
        Some(TokenKind::DoubleSlash)
    } else if a == '*' && b == '*' {
        Some(TokenKind::Power)
    } else if a == '+' && b == '=' {
        Some(TokenKind::PlusAssign)
    } else if a == '-' && b == '=' {
        Some(TokenKind::MinusAssign)
    } else if a == '*' && b == '=' {
        Some(TokenKind::StarAssign)
    } else if a == '/' && b == '=' {
        Some(TokenKind::SlashAssign)
    } else if a == '=' && b == '=' {
        Some(TokenKind::Eq)
    } else if a == '!' && b == '=' {
        Some(TokenKind::NotEq)
    } else if a == '<' && b == '=' {
        Some(TokenKind::LtEq)
    } else if a == '>' && b == '=' {
        Some(TokenKind::GtEq)
    } else if a == '|' && b == '>' {
        Some(TokenKind::Pipe)
    } else if a == '-' && b == '>' {
        Some(TokenKind::Arrow)
    } else if a == '=' && b == '>' {
        Some(TokenKind::FatArrow)
    } else if a == '.' && b == '.' {
        Some(TokenKind::DotDot)
    } else {
        None
    }
}

/// The one-character operator or delimiter `c`, if it is one.
pub open spec fn single_op(c: char) -> Option<TokenKind> {
    if c == '+' {
        Some(TokenKind::Plus)
    } else if c == '-' {
        Some(TokenKind::Minus)
    } else if c == '*' {
        Some(TokenKind::Star)
    } else if c == '/' {
        Some(TokenKind::Slash)
    } else if c == '%' {
        Some(TokenKind::Percent)
    } else if c == '=' {
        Some(TokenKind::Assign)
    } else if c == '<' {
        Some(TokenKind::Lt)
    } else if c == '>' {
        Some(TokenKind::Gt)
    } else if c == '(' {
        Some(TokenKind::LParen)
    } else if c == ')' {
        Some(TokenKind::RParen)
    } else if c == '[' {
        Some(TokenKind::LBracket)
    } else if c == ']' {
        Some(TokenKind::RBracket)
    } else if c == '{' {
        Some(TokenKind::LBrace)
    } else if c == '}' {
        Some(TokenKind::RBrace)
    } else if c == ',' {
        Some(TokenKind::Comma)
    } else if c == ':' {
        Some(TokenKind::Colon)
    } else if c == ';' {
        Some(TokenKind::Semicolon)
    } else if c == '.' {
        Some(TokenKind::Dot)
    } else if c == '@' {
        Some(TokenKind::At)
    } else if c == '&' {
        Some(TokenKind::Ampersand)
    } else {
        None
    }
}

/// Distinct two-character operators lex to distinct token kinds.
pub proof fn lemma_double_op_injective(a: char, b: char, c: char, d: char)
    ensures
        double_op(a, b) is Some && double_op(a, b) == double_op(c, d) ==> a == c && b == d,
{
}

/// Distinct one-character operators and delimiters lex to distinct token
/// kinds.
pub proof fn lemma_single_op_injective(a: char, c: char)
    ensures
        single_op(a) is Some && single_op(a) == single_op(c) ==> a == c,
{
}

/// A two-character operator, a one-character one and a keyword never lex to
/// the same token kind.
pub proof fn lemma_op_kinds_apart(a: char, b: char, c: char, w: Seq<char>)
    ensures
        double_op(a, b) is Some ==> single_op(c) != double_op(a, b) && keyword_kind(w) != double_op(a, b),
        single_op(c) is Some ==> keyword_kind(w) != single_op(c),
{
}

/// The end of a character literal whose quote is at `i`: one character
/// other than a quote or backslash, or a backslash and any character, then
/// a closing quote.
pub open spec fn char_end(cs: Seq<char>, i: int) -> Option<int> {
    if i + 3 < cs.len() + 1 && cs[i + 1] == '\\' && i + 3 < cs.len() && cs[i + 3] == '\'' {
        Some(i + 4)
    } else if i + 2 < cs.len() && cs[i + 1] != '\'' && cs[i + 1] != '\\' && cs[i + 2] == '\'' {
        Some(i + 3)
    } else {
        None
    }
}

/// The longest token that starts at `i`, which is not a space or tab: its
/// kind and end. `None` when no token starts there.
pub open spec fn next_token(cs: Seq<char>, i: int) -> Option<(TokenKind, int)> {
    let c = cs[i];
    if c == 'f' && i + 1 < cs.len() && cs[i + 1] == '"' && string_end(cs, i + 2) is Some {
        Some((TokenKind::FStringLiteral, string_end(cs, i + 2)->0))
    } else if is_ident_start(c) {
        let e = ident_end(cs, i);
        match keyword_kind(cs.subrange(i, e)) {
            Some(k) => Some((k, e)),
            None => Some((TokenKind::Identifier, e)),
        }
    } else if is_digit(c) {
        let e = number_end(cs, i);
        if e + 1 < cs.len() && cs[e] == '.' && is_digit(cs[e + 1]) {
            Some((TokenKind::FloatLiteral, number_end(cs, e + 1)))
        } else {
            Some((TokenKind::IntLiteral, e))
        }
    } else if c == '"' {
        match string_end(cs, i + 1) {
            Some(e) => Some((TokenKind::StringLiteral, e)),
            None => None,
        }
    } else if c == '\'' {
        match char_end(cs, i) {
            Some(e) => Some((TokenKind::CharLiteral, e)),
            None => None,
        }
    } else if i + 1 < cs.len() && double_op(c, cs[i + 1]) is Some {
        Some((double_op(c, cs[i + 1])->0, i + 2))
    } else {
        match single_op(c) {
            Some(k) => Some((k, i + 1)),
            None => None,
        }
    }
}

/// The tokens from position `i` of a line on, as kinds with their start and
/// end positions, and the position of a character that begins no token, if
/// scanning stopped at one.
pub open spec fn scan_m(cs: Seq<char>, i: int) -> (Seq<(TokenKind, int, int)>, Option<int>)
    decreases cs.len() - i,
{
    if i < 0 || i >= cs.len() {
        (Seq::empty(), None)
    } else if cs[i] == ' ' || cs[i] == '\t' {
        scan_m(cs, i + 1)
    } else {
        match next_token(cs, i) {
            Some((k, e)) => if i < e <= cs.len() {
                let (ts, err) = scan_m(cs, e);
                (seq![(k, i, e)] + ts, err)
            } else {
                (Seq::empty(), Some(i))
            },
            None => (Seq::empty(), Some(i)),
        }
    }
}

// ── Lines ───────────────────────────────────────────────────

/// A token as a value: kind, (line, column, length) and text.
pub type TokM = (TokenKind, (nat, nat, nat), Seq<char>);

/// The value of a token.
pub open spec fn tok_view(t: Token) -> TokM {
    (t.kind, (t.span.0 as nat, t.span.1 as nat, t.span.2 as nat), t.text@)
}

/// The indentation levels open, outermost (zero) first, and how many
/// brackets are open.
pub struct LexState {
    pub stack: Seq<nat>,
    pub depth: nat,
}

/// The structural token `k` with no text.
pub open spec fn mark(k: TokenKind, ln: nat, col: nat, len: nat) -> TokM {
    (k, (ln, col, len), Seq::empty())
}

/// Closing the levels deeper than `indent`: the levels left, and how many
/// were closed.
pub open spec fn close_levels(stack: Seq<nat>, indent: nat) -> (Seq<nat>, nat)
    decreases stack.len(),
{
    if stack.len() > 0 && indent < stack.last() {
        let (s, k) = close_levels(stack.drop_last(), indent);
        (s, k + 1)
    } else {
        (stack, 0)
    }
}

/// `n` dedent tokens on line `ln`.
pub open spec fn dedents(n: nat, ln: nat) -> Seq<TokM> {
    Seq::new(n, |i: int| mark(TokenKind::Dedent, ln, 0, 0))
}

/// A line that starts with one of these continues the previous one.
pub open spec fn continues(content: Seq<char>) -> bool {
    has_at(content, 0, "|>"@) || has_at(content, 0, "+ "@) || has_at(content, 0, "- "@) || has_at(
        content,
        0,
        "* "@,
    ) || has_at(content, 0, "/ "@) || has_at(content, 0, "and "@) || has_at(content, 0, "or "@)
        || has_at(content, 0, "."@) || has_at(content, 0, ","@) || has_at(content, 0, ")"@) || has_at(
        content,
        0,
        "]"@,
    ) || has_at(content, 0, "}"@)
}

/// The bracket depth after a token of kind `k`: opening brackets add one,
/// closing ones take one away, never below zero.
pub open spec fn depth_after(depth: nat, k: TokenKind) -> nat {
    if k == TokenKind::LParen || k == TokenKind::LBracket || k == TokenKind::LBrace {
        depth + 1
    } else if k == TokenKind::RParen || k == TokenKind::RBracket || k == TokenKind::RBrace {
        if depth > 0 {
            (depth - 1) as nat
        } else {
            0
        }
    } else {
        depth
    }
}

/// The tokens `ts` of line `ln` (from `scan_m`) with their byte positions
/// and text, and the bracket depth after them.
pub open spec fn place(cs: Seq<char>, ln: nat, ts: Seq<(TokenKind, int, int)>, depth: nat) -> (Seq<TokM>, nat)
    decreases ts.len(),
{
    if ts.len() == 0 {
        (Seq::empty(), depth)
    } else {
        let (ps, d) = place(cs, ln, ts.drop_last(), depth);
        let (k, a, e) = ts.last();
        (
            ps.push((k, (ln, byte_at(cs, a), (byte_at(cs, e) - byte_at(cs, a)) as nat), cs.subrange(a, e))),
            depth_after(d, k),
        )
    }
}

/// The tokens of line `cs`, numbered `ln`, from state `st`, and the state
/// after it; or the byte position and length of a character that begins
/// no token.
pub open spec fn line_m(st: LexState, cs: Seq<char>, ln: nat) -> Result<(Seq<TokM>, LexState), (nat, nat)> {
    let t = trim_m(cs);
    let lead = lead_end(cs, 0);
    let indent = byte_at(cs, lead);
    let end = byte_at(cs, cs.len() as int);
    let newline = if st.depth == 0 {
        seq![(TokenKind::Newline, (ln, end, 1nat), "\n"@)]
    } else {
        Seq::empty()
    };
    if t.len() == 0 || t[0] == '#' {
        let is_doc = t.len() >= 2 && t[0] == '#' && t[1] == '#';
        let (stack, closed) = if is_doc && st.depth == 0 {
            close_levels(st.stack, indent)
        } else {
            (st.stack, 0)
        };
        let note = if is_doc {
            seq![(TokenKind::DocComment, (ln, 0nat, end), trim_m(strip_hashes(t)))]
        } else if t.len() > 0 {
            seq![(TokenKind::Comment, (ln, 0nat, end), t)]
        } else {
            Seq::empty()
        };
        Ok((dedents(closed, ln) + note + newline, LexState { stack, depth: st.depth }))
    } else {
        let cont = st.depth > 0 || continues(cs.subrange(lead, cs.len() as int));
        let (stack, opening) = if cont {
            (st.stack, Seq::empty())
        } else if indent > st.stack.last() {
            (st.stack.push(indent), seq![mark(TokenKind::Indent, ln, 0, indent)])
        } else {
            let (s, k) = close_levels(st.stack, indent);
            (s, dedents(k, ln))
        };
        let (ts, err) = scan_m(cs, lead);
        match err {
            Some(p) => Err((byte_at(cs, p), utf8_width(cs[p]))),
            None => {
                let (placed, depth) = place(cs, ln, ts, st.depth);
                let nl = if depth == 0 {
                    seq![(TokenKind::Newline, (ln, end, 1nat), "\n"@)]
                } else {
                    Seq::empty()
                };
                Ok((opening + placed + nl, LexState { stack, depth }))
            },
        }
    }
}

/// The end of the line that starts at `i`: the next line feed, or the end.
pub open spec fn line_end(cs: Seq<char>, i: int) -> int
    decreases cs.len() - i,
{
    if 0 <= i < cs.len() && cs[i] != '\n' {
        line_end(cs, i + 1)
    } else {
        i
    }
}

/// A line without the carriage return that ended it, if any.
pub open spec fn strip_cr(l: Seq<char>) -> Seq<char> {
    if l.len() > 0 && l.last() == '\r' {
        l.drop_last()
    } else {
        l
    }
}

/// The lines of `cs` from position `i`: split at line feeds, a carriage
/// return before a line feed dropped, and no empty line after a final line
/// feed.
pub open spec fn lines_from(cs: Seq<char>, i: int) -> Seq<Seq<char>>
    decreases cs.len() - i,
{
    if i < 0 || i >= cs.len() {
        Seq::empty()
    } else {
        let j = line_end(cs, i);
        if i <= j < cs.len() {
            seq![strip_cr(cs.subrange(i, j))] + lines_from(cs, j + 1)
        } else {
            seq![cs.subrange(i, cs.len() as int)]
        }
    }
}

/// The tokens of lines `ls`, the first numbered `ln`, from state `st`.
pub open spec fn lines_m(st: LexState, ls: Seq<Seq<char>>, ln: nat) -> Result<(Seq<TokM>, LexState), (nat, nat)>
    decreases ls.len(),
{
    if ls.len() == 0 {
        Ok((Seq::empty(), st))
    } else {
        match lines_m(st, ls.drop_last(), ln) {
            Err(e) => Err(e),
            Ok((ts, st1)) => match line_m(st1, ls.last(), (ln + ls.len() - 1) as nat) {
                Err(e) => Err(e),
                Ok((ts2, st2)) => Ok((ts + ts2, st2)),
            },
        }
    }
}

/// The tokens of a whole source text, or the position and length of the
/// first character that begins no token.
pub open spec fn tokenize_m(src: Seq<char>) -> Result<Seq<TokM>, (nat, nat)> {
    match lines_m(LexState { stack: seq![0nat], depth: 0 }, lines_from(src, 0), 0) {
        Err(e) => Err(e),
        Ok((ts, st)) => Ok(ts + dedents((st.stack.len() - 1) as nat, 0) + seq![mark(TokenKind::Eof, 0, 0, 0)]),
    }
}

// ── Scanning ────────────────────────────────────────────────

/// The values of tokens.
pub open spec fn toks_view(v: Seq<Token>) -> Seq<TokM> {
    Seq::new(v.len(), |i: int| tok_view(v[i]))
}

/// The levels of an indentation stack.
pub open spec fn levels(v: Seq<usize>) -> Seq<nat> {
    Seq::new(v.len(), |i: int| v[i] as nat)
}

proof fn lemma_toks_push(v: Seq<Token>, t: Token)
    ensures
        toks_view(v.push(t)) == toks_view(v).push(tok_view(t)),
{
    assert(toks_view(v.push(t)) =~= toks_view(v).push(tok_view(t)));
}

pub(crate) proof fn lemma_runs(cs: Seq<char>, i: int)
    requires
        0 <= i <= cs.len(),
    ensures
        i <= lead_end(cs, i) <= cs.len(),
        i <= number_end(cs, i) <= cs.len(),
        i <= line_end(cs, i) <= cs.len(),
        line_end(cs, i) < cs.len() ==> cs[line_end(cs, i)] == '\n',
        lead_end(cs, i) < cs.len() ==> !is_space(cs[lead_end(cs, i)]),
        i < cs.len() && (is_digit(cs[i]) || cs[i] == '_') ==> i < number_end(cs, i),
        forall|k: int| i <= k < lead_end(cs, i) ==> is_space(#[trigger] cs[k]),
    decreases cs.len() - i,
{
    if i < cs.len() {
        lemma_runs(cs, i + 1);
    }
}

proof fn lemma_trail(cs: Seq<char>, j: int)
    requires
        0 <= j <= cs.len(),
    ensures
        0 <= trail_start(cs, j) <= j,
    decreases j,
{
    if j > 0 {
        lemma_trail(cs, j - 1);
    }
}

/// Closing levels keeps a prefix of the stack, and keeps the outermost
/// level zero.
proof fn lemma_close_levels(stack: Seq<nat>, indent: nat)
    requires
        stack.len() >= 1,
        stack[0] == 0,
    ensures
        close_levels(stack, indent).0.len() >= 1,
        close_levels(stack, indent).0.len() + close_levels(stack, indent).1 == stack.len(),
        close_levels(stack, indent).0 == stack.take(close_levels(stack, indent).0.len() as int),
    decreases stack.len(),
{
    if stack.len() > 0 && indent < stack.last() {
        if stack.len() == 1 {
            assert(stack.last() == 0);
        } else {
            lemma_close_levels(stack.drop_last(), indent);
            let r = close_levels(stack.drop_last(), indent).0;
            assert(r =~= stack.take(r.len() as int));
        }
    } else {
        assert(stack =~= stack.take(stack.len() as int));
    }
}

fn is_space_x(c: char) -> (r: bool)
    ensures
        r == is_space(c),
{
    ('\u{9}' <= c && c <= '\u{d}') || c == ' ' || c == '\u{85}' || c == '\u{a0}' || c == '\u{1680}' || (
    '\u{2000}' <= c && c <= '\u{200a}') || c == '\u{2028}' || c == '\u{2029}' || c == '\u{202f}' || c
        == '\u{205f}' || c == '\u{3000}'
}

pub(crate) fn lead_x(cs: &Vec<char>, i: usize) -> (j: usize)
    requires
        i <= cs@.len(),
    ensures
        j == lead_end(cs@, i as int),
{
    let mut j = i;
    while j < cs.len() && is_space_x(cs[j])
        invariant
            i <= j <= cs@.len(),
            lead_end(cs@, i as int) == lead_end(cs@, j as int),
        decreases cs@.len() - j,
    {
        j = j + 1;
    }
    j
}

pub(crate) fn trail_x(cs: &Vec<char>, j: usize) -> (k: usize)
    requires
        j <= cs@.len(),
    ensures
        k == trail_start(cs@, j as int),
{
    let mut k = j;
    while k > 0 && is_space_x(cs[k - 1])
        invariant
            k <= j <= cs@.len(),
            trail_start(cs@, j as int) == trail_start(cs@, k as int),
        decreases k,
    {
        k = k - 1;
    }
    k
}

fn number_x(cs: &Vec<char>, i: usize) -> (j: usize)
    requires
        i <= cs@.len(),
    ensures
        j == number_end(cs@, i as int),
{
    let mut j = i;
    while j < cs.len() && (crate::syntax::lexer::is_digit_x(cs[j]) || cs[j] == '_')
        invariant
            i <= j <= cs@.len(),
            number_end(cs@, i as int) == number_end(cs@, j as int),
        decreases cs@.len() - j,
    {
        j = j + 1;
    }
    j
}

/// The characters `cs[a..b]`.
pub(crate) fn copy_range(cs: &Vec<char>, a: usize, b: usize) -> (r: Vec<char>)
    requires
        a <= b <= cs@.len(),
    ensures
        r@ == cs@.subrange(a as int, b as int),
{
    let mut r: Vec<char> = Vec::new();
    let mut k = a;
    while k < b
        invariant
            a <= k <= b <= cs@.len(),
            r@ == cs@.subrange(a as int, k as int),
        decreases b - k,
    {
        r.push(cs[k]);
        assert(r@ =~= cs@.subrange(a as int, k + 1));
        k = k + 1;
    }
    r
}

/// Where the trimmed text of `cs` lies.
pub(crate) fn trim_bounds(cs: &Vec<char>) -> (r: (usize, usize))
    ensures
        r.0 <= r.1 <= cs@.len(),
        cs@.subrange(r.0 as int, r.1 as int) == trim_m(cs@),
{
    proof {
        lemma_runs(cs@, 0);
        lemma_trail(cs@, cs@.len() as int);
    }
    let a = lead_x(cs, 0);
    if a >= cs.len() {
        assert(cs@.subrange(0, 0) =~= trim_m(cs@));
        (0, 0)
    } else {
        let b = trail_x(cs, cs.len());
        proof {
            // the last character that is not a space lies at or after `a`
            assert(!is_space(cs@[a as int]));
            lemma_trail_past(cs@, a as int, cs@.len() as int);
        }
        (a, b)
    }
}

/// Trailing white space is not trimmed past a character that is not white
/// space.
pub(crate) proof fn lemma_trail_past(cs: Seq<char>, a: int, j: int)
    requires
        0 <= a < j <= cs.len(),
        !is_space(cs[a]),
    ensures
        a < trail_start(cs, j) <= j,
    decreases j,
{
    if j - 1 > a && is_space(cs[j - 1]) {
        lemma_trail_past(cs, a, j - 1);
    }
}

/// The number of `#` characters `cs` starts with.
fn hash_count(cs: &Vec<char>) -> (h: usize)
    ensures
        h <= cs@.len(),
        cs@.subrange(h as int, cs@.len() as int) == strip_hashes(cs@),
{
    let mut h: usize = 0;
    assert(cs@.subrange(0, cs@.len() as int) =~= cs@);
    while h < cs.len() && cs[h] == '#'
        invariant
            h <= cs@.len(),
            strip_hashes(cs@) == strip_hashes(cs@.subrange(h as int, cs@.len() as int)),
        decreases cs@.len() - h,
    {
        assert(cs@.subrange(h as int, cs@.len() as int).drop_first() =~= cs@.subrange(h + 1, cs@.len() as int));
        h = h + 1;
    }
    h
}

/// The two-character operator `a b`, if any.
fn double_op_x(a: char, b: char) -> (r: Option<TokenKind>)
    ensures
        r == double_op(a, b),
{
    if a == '/' && b == '/' {
        Some(TokenKind::DoubleSlash)
    } else if a == '*' && b == '*' {
        Some(TokenKind::Power)
    } else if a == '+' && b == '=' {
        Some(TokenKind::PlusAssign)
    } else if a == '-' && b == '=' {
        Some(TokenKind::MinusAssign)
    } else if a == '*' && b == '=' {
        Some(TokenKind::StarAssign)
    } else if a == '/' && b == '=' {
        Some(TokenKind::SlashAssign)
    } else if a == '=' && b == '=' {
        Some(TokenKind::Eq)
    } else if a == '!' && b == '=' {
        Some(TokenKind::NotEq)
    } else if a == '<' && b == '=' {
        Some(TokenKind::LtEq)
    } else if a == '>' && b == '=' {
        Some(TokenKind::GtEq)
    } else if a == '|' && b == '>' {
        Some(TokenKind::Pipe)
    } else if a == '-' && b == '>' {
        Some(TokenKind::Arrow)
    } else if a == '=' && b == '>' {
        Some(TokenKind::FatArrow)
    } else if a == '.' && b == '.' {
        Some(TokenKind::DotDot)
    } else {
        None
    }
}

/// The one-character operator or delimiter `c`, if it is one.
fn single_op_x(c: char) -> (r: Option<TokenKind>)
    ensures
        r == single_op(c),
{
    if c == '+' {
        Some(TokenKind::Plus)
    } else if c == '-' {
        Some(TokenKind::Minus)
    } else if c == '*' {
        Some(TokenKind::Star)
    } else if c == '/' {
        Some(TokenKind::Slash)
    } else if c == '%' {
        Some(TokenKind::Percent)
    } else if c == '=' {
        Some(TokenKind::Assign)
    } else if c == '<' {
        Some(TokenKind::Lt)
    } else if c == '>' {
        Some(TokenKind::Gt)
    } else if c == '(' {
        Some(TokenKind::LParen)
    } else if c == ')' {
        Some(TokenKind::RParen)
    } else if c == '[' {
        Some(TokenKind::LBracket)
    } else if c == ']' {
        Some(TokenKind::RBracket)
    } else if c == '{' {
        Some(TokenKind::LBrace)
    } else if c == '}' {
        Some(TokenKind::RBrace)
    } else if c == ',' {
        Some(TokenKind::Comma)
    } else if c == ':' {
        Some(TokenKind::Colon)
    } else if c == ';' {
        Some(TokenKind::Semicolon)
    } else if c == '.' {
        Some(TokenKind::Dot)
    } else if c == '@' {
        Some(TokenKind::At)
    } else if c == '&' {
        Some(TokenKind::Ampersand)
    } else {
        None
    }
}

/// Whether `cs[a..b]` is the text `lit`.
fn matches_range(cs: &Vec<char>, a: usize, b: usize, lit: &str) -> (r: bool)
    requires
        a <= b <= cs@.len(),
    ensures
        r == (cs@.subrange(a as int, b as int) == lit@),
{
    let n = lit.unicode_len();
    if b - a != n {
        assert(cs@.subrange(a as int, b as int).len() != lit@.len());
        return false;
    }
    let mut k: usize = 0;
    while k < n
        invariant
            k <= n,
            n == lit@.len(),
            b - a == n,
            a <= b <= cs@.len(),
            forall|j: int| 0 <= j < k ==> cs@[a + j] == lit@[j],
        decreases n - k,
    {
        if cs[a + k] != lit.get_char(k) {
            assert(cs@.subrange(a as int, b as int)[k as int] != lit@[k as int]);
            return false;
        }
        k = k + 1;
    }
    assert(cs@.subrange(a as int, b as int) =~= lit@);
    true
}

/// Whether `cs` has the text `lit` at position `i`.
fn matches_at(cs: &Vec<char>, i: usize, lit: &str) -> (r: bool)
    requires
        i <= cs@.len(),
    ensures
        r == has_at(cs@, i as int, lit@),
{
    let n = lit.unicode_len();
    if n > cs.len() - i {
        return false;
    }
    matches_range(cs, i, i + n, lit)
}

/// The keyword that `cs[a..b]` spells, if any.
fn keyword_x(cs: &Vec<char>, a: usize, b: usize) -> (r: Option<TokenKind>)
    requires
        a <= b <= cs@.len(),
    ensures
        r == keyword_kind(cs@.subrange(a as int, b as int)),
{
    if matches_range(cs, a, b, "fn") {
        return Some(TokenKind::Fn);
    }
    if matches_range(cs, a, b, "let") {
        return Some(TokenKind::Let);
    }
    if matches_range(cs, a, b, "mut") {
        return Some(TokenKind::Mut);
    }
    if matches_range(cs, a, b, "const") {
        return Some(TokenKind::Const);
    }
    if matches_range(cs, a, b, "return") {
        return Some(TokenKind::Return);
    }
    if matches_range(cs, a, b, "if") {
        return Some(TokenKind::If);
    }
    if matches_range(cs, a, b, "elif") {
        return Some(TokenKind::Elif);
    }
    if matches_range(cs, a, b, "else") {
        return Some(TokenKind::Else);
    }
    if matches_range(cs, a, b, "for") {
        return Some(TokenKind::For);
    }
    if matches_range(cs, a, b, "while") {
        return Some(TokenKind::While);
    }
    if matches_range(cs, a, b, "break") {
        return Some(TokenKind::Break);
    }
    if matches_range(cs, a, b, "continue") {
        return Some(TokenKind::Continue);
    }
    if matches_range(cs, a, b, "match") {
        return Some(TokenKind::Match);
    }
    if matches_range(cs, a, b, "case") {
        return Some(TokenKind::Case);
    }
    if matches_range(cs, a, b, "import") {
        return Some(TokenKind::Import);
    }
    if matches_range(cs, a, b, "from") {
        return Some(TokenKind::From);
    }
    if matches_range(cs, a, b, "as") {
        return Some(TokenKind::As);
    }
    if matches_range(cs, a, b, "foreign") {
        return Some(TokenKind::Foreign);
    }
    if matches_range(cs, a, b, "struct") {
        return Some(TokenKind::Struct);
    }
    if matches_range(cs, a, b, "enum") {
        return Some(TokenKind::Enum);
    }
    if matches_range(cs, a, b, "trait") {
        return Some(TokenKind::Trait);
    }
    if matches_range(cs, a, b, "impl") {
        return Some(TokenKind::Impl);
    }
    if matches_range(cs, a, b, "self") {
        return Some(TokenKind::SelfKw);
    }
    if matches_range(cs, a, b, "true") {
        return Some(TokenKind::True);
    }
    if matches_range(cs, a, b, "false") {
        return Some(TokenKind::False);
    }
    if matches_range(cs, a, b, "none") {
        return Some(TokenKind::NoneKw);
    }
    if matches_range(cs, a, b, "and") {
        return Some(TokenKind::And);
    }
    if matches_range(cs, a, b, "or") {
        return Some(TokenKind::Or);
    }
    if matches_range(cs, a, b, "not") {
        return Some(TokenKind::Not);
    }
    if matches_range(cs, a, b, "in") {
        return Some(TokenKind::In);
    }
    if matches_range(cs, a, b, "is") {
        return Some(TokenKind::Is);
    }
    if matches_range(cs, a, b, "async") {
        return Some(TokenKind::Async);
    }
    if matches_range(cs, a, b, "await") {
        return Some(TokenKind::Await);
    }
    if matches_range(cs, a, b, "spawn") {
        return Some(TokenKind::Spawn);
    }
    if matches_range(cs, a, b, "yield") {
        return Some(TokenKind::Yield);
    }
    if matches_range(cs, a, b, "type") {
        return Some(TokenKind::Type);
    }
    if matches_range(cs, a, b, "pub") {
        return Some(TokenKind::Pub);
    }
    if matches_range(cs, a, b, "require") {
        return Some(TokenKind::Require);
    }
    if matches_range(cs, a, b, "ensure") {
        return Some(TokenKind::Ensure);
    }
    if matches_range(cs, a, b, "pure") {
        return Some(TokenKind::Pure);
    }
    None
}

/// Whether the text from `lead` on starts with a continuation operator.
fn continues_x(cs: &Vec<char>, lead: usize) -> (r: bool)
    requires
        lead <= cs@.len(),
    ensures
        r == continues(cs@.subrange(lead as int, cs@.len() as int)),
{
    let ghost c = cs@.subrange(lead as int, cs@.len() as int);
    assert forall|p: Seq<char>| #[trigger] has_at(c, 0, p) == has_at(cs@, lead as int, p) by {
        if p.len() <= c.len() {
            assert(c.subrange(0, p.len() as int) =~= cs@.subrange(lead as int, lead + p.len()));
        }
    }
    matches_at(cs, lead, "|>") || matches_at(cs, lead, "+ ") || matches_at(cs, lead, "- ") || matches_at(
        cs,
        lead,
        "* ",
    ) || matches_at(cs, lead, "/ ") || matches_at(cs, lead, "and ") || matches_at(cs, lead, "or ")
        || matches_at(cs, lead, ".") || matches_at(cs, lead, ",") || matches_at(cs, lead, ")")
        || matches_at(cs, lead, "]") || matches_at(cs, lead, "}")
}

/// The longest token that starts at `i`: its kind and end.
fn next_token_x(cs: &Vec<char>, i: usize) -> (r: Option<(TokenKind, usize)>)
    requires
        i < cs@.len(),
        cs@.len() <= usize::MAX / 4,
    ensures
        match r {
            Some((k, e)) => next_token(cs@, i as int) == Some((k, e as int)) && i < e <= cs@.len(),
            None => next_token(cs@, i as int) is None,
        },
{
    let c = cs[i];
    proof {
        crate::syntax::lexer::lemma_runs(cs@, i as int);
        lemma_runs(cs@, i as int);
    }
    if c == 'f' && i + 1 < cs.len() && cs[i + 1] == '"' {
        proof {
            crate::syntax::lexer::lemma_string_end(cs@, i + 2);
        }
        if let Some(e) = crate::syntax::lexer::scan_string(cs, i + 2) {
            return Some((TokenKind::FStringLiteral, e));
        }
    }
    if crate::syntax::lexer::is_ident_start_x(c) {
        let e = crate::syntax::lexer::scan_ident(cs, i);
        match keyword_x(cs, i, e) {
            Some(k) => Some((k, e)),
            None => Some((TokenKind::Identifier, e)),
        }
    } else if crate::syntax::lexer::is_digit_x(c) {
        let e = number_x(cs, i);
        if e + 1 < cs.len() && cs[e] == '.' && crate::syntax::lexer::is_digit_x(cs[e + 1]) {
            proof {
                lemma_runs(cs@, e + 1);
            }
            Some((TokenKind::FloatLiteral, number_x(cs, e + 1)))
        } else {
            Some((TokenKind::IntLiteral, e))
        }
    } else if c == '"' {
        proof {
            crate::syntax::lexer::lemma_string_end(cs@, i + 1);
        }
        match crate::syntax::lexer::scan_string(cs, i + 1) {
            Some(e) => Some((TokenKind::StringLiteral, e)),
            None => None,
        }
    } else if c == '\'' {
        if i + 3 < cs.len() + 1 && cs[i + 1] == '\\' && i + 3 < cs.len() && cs[i + 3] == '\'' {
            Some((TokenKind::CharLiteral, i + 4))
        } else if i + 2 < cs.len() && cs[i + 1] != '\'' && cs[i + 1] != '\\' && cs[i + 2] == '\'' {
            Some((TokenKind::CharLiteral, i + 3))
        } else {
            None
        }
    } else {
        if i + 1 < cs.len() {
            if let Some(k) = double_op_x(c, cs[i + 1]) {
                return Some((k, i + 2));
            }
        }
        match single_op_x(c) {
            Some(k) => Some((k, i + 1)),
            None => None,
        }
    }
}

/// A structural token with no text.
fn mark_token(kind: TokenKind, ln: usize, col: usize, len: usize) -> (t: Token)
    ensures
        tok_view(t) == mark(kind, ln as nat, col as nat, len as nat),
{
    let t = Token { kind, span: (ln, col, len), text: String::new() };
    assert(t.text@ =~= Seq::<char>::empty());
    t
}

/// The newline token that ends line `ln`, whose text is `end` bytes long.
fn newline_token(ln: usize, end: usize) -> (t: Token)
    ensures
        tok_view(t) == (TokenKind::Newline, (ln as nat, end as nat, 1nat), "\n"@),
{
    Token { kind: TokenKind::Newline, span: (ln, end, 1), text: String::from_str("\n") }
}

/// Close the indentation levels deeper than `indent`, with a dedent token
/// for each.
fn close_to(indent: usize, ln: usize, stack: &mut Vec<usize>, tokens: &mut Vec<Token>)
    requires
        old(stack)@.len() >= 1,
        old(stack)@[0] == 0,
    ensures
        ({
            let (s, k) = close_levels(levels(old(stack)@), indent as nat);
            &&& levels(final(stack)@) == s
            &&& toks_view(final(tokens)@) == toks_view(old(tokens)@) + dedents(k, ln as nat)
        }),
        final(stack)@.len() >= 1,
        final(stack)@[0] == 0,
{
    let ghost orig = levels(stack@);
    let ghost base = toks_view(tokens@);
    let n0 = stack.len();
    let mut k: usize = 0;
    proof {
        lemma_close_levels(orig, indent as nat);
        assert(dedents(0, ln as nat) =~= Seq::<TokM>::empty());
        assert(base + dedents(0, ln as nat) =~= base);
    }
    while indent < stack[stack.len() - 1]
        invariant
            stack@.len() >= 1,
            stack@[0] == 0,
            k + stack@.len() == orig.len(),
            orig.len() == n0,
            levels(stack@) == orig.take(stack@.len() as int),
            close_levels(orig, indent as nat) == ({
                let (s, j) = close_levels(levels(stack@), indent as nat);
                (s, (j + k) as nat)
            }),
            toks_view(tokens@) == base + dedents(k as nat, ln as nat),
        decreases stack@.len(),
    {
        proof {
            if stack@.len() == 1 {
                assert(levels(stack@)[0] == 0);
                assert(false);
            }
            assert(levels(stack@).drop_last() =~= levels(stack@.drop_last()));
            assert(levels(stack@).last() == stack@.last() as nat);
        }
        stack.pop();
        let ghost before = tokens@;
        tokens.push(mark_token(TokenKind::Dedent, ln, 0, 0));
        proof {
            lemma_toks_push(before, tokens@.last());
            assert(dedents((k + 1) as nat, ln as nat) =~= dedents(k as nat, ln as nat).push(mark(TokenKind::Dedent, ln as nat, 0, 0)));
            assert(levels(stack@) =~= orig.take(stack@.len() as int));
        }
        k = k + 1;
    }
    proof {
        assert(levels(stack@).last() == stack@.last() as nat);
    }
}

/// Tokenize one line, numbered `ln`, continuing from the indentation stack
/// and bracket depth left by the lines before it.
fn lex_line(line: &str, ln: usize, stack: &mut Vec<usize>, depth: &mut usize, tokens: &mut Vec<Token>) -> (r: Result<
    (),
    LexError,
>)
    requires
        line@.len() <= usize::MAX / 4,
        *old(depth) + line@.len() <= usize::MAX / 4,
        old(stack)@.len() >= 1,
        old(stack)@[0] == 0,
    ensures
        match line_m(LexState { stack: levels(old(stack)@), depth: *old(depth) as nat }, line@, ln as nat) {
            Ok((ts, st)) => {
                &&& r is Ok
                &&& toks_view(final(tokens)@) == toks_view(old(tokens)@) + ts
                &&& levels(final(stack)@) == st.stack
                &&& *final(depth) as nat == st.depth
                &&& final(stack)@.len() >= 1
                &&& final(stack)@[0] == 0
                &&& *final(depth) <= *old(depth) + line@.len()
            },
            Err((p, l)) => r matches Err(e) && e.span.0 as nat == p && e.span.1 as nat == l,
        },
{
    let cs = crate::syntax::lexer::chars_of(line);
    let offs = crate::syntax::lexer::offsets(&cs);
    let (ta, tb) = trim_bounds(&cs);
    proof {
        lemma_runs(cs@, 0);
        crate::syntax::lexer::lemma_byte_at(cs@, cs@.len() as int);
    }
    let lead = lead_x(&cs, 0);
    let indent = offs[lead];
    let end = offs[cs.len()];
    let ghost st = LexState { stack: levels(stack@), depth: *depth as nat };
    let ghost base = toks_view(tokens@);
    let ghost t = trim_m(cs@);
    if ta == tb || cs[ta] == '#' {
        let is_doc = tb - ta >= 2 && cs[ta] == '#' && cs[ta + 1] == '#';
        let ghost closed: nat = 0;
        if is_doc && *depth == 0 {
            close_to(indent, ln, stack, tokens);
            proof {
                closed = close_levels(st.stack, indent as nat).1;
            }
        } else {
            assert(dedents(0, ln as nat) =~= Seq::<TokM>::empty());
            assert(base + dedents(0, ln as nat) =~= base);
        }
        let ghost mid = toks_view(tokens@);
        if is_doc {
            let tv = copy_range(&cs, ta, tb);
            let h = hash_count(&tv);
            let u = copy_range(&tv, h, tv.len());
            let (ua, ub) = trim_bounds(&u);
            let text = String::from_str(line.substring_char(ta + h + ua, ta + h + ub));
            assert(text@ =~= u@.subrange(ua as int, ub as int));
            let ghost before = tokens@;
            tokens.push(Token { kind: TokenKind::DocComment, span: (ln, 0, end), text });
            proof {
                lemma_toks_push(before, tokens@.last());
            }
        } else if tb > ta {
            let text = String::from_str(line.substring_char(ta, tb));
            let ghost before = tokens@;
            tokens.push(Token { kind: TokenKind::Comment, span: (ln, 0, end), text });
            proof {
                lemma_toks_push(before, tokens@.last());
            }
        }
        if *depth == 0 {
            let ghost before = tokens@;
            tokens.push(newline_token(ln, end));
            proof {
                lemma_toks_push(before, tokens@.last());
            }
        }
        assert(toks_view(tokens@) =~= base + line_m(st, cs@, ln as nat)->Ok_0.0);
        return Ok(());
    }
    // A line of code
    assert(t.len() > 0 && t[0] == cs@[ta as int]);
    let cont = *depth > 0 || continues_x(&cs, lead);
    if !cont {
        let top = stack[stack.len() - 1];
        if indent > top {
            stack.push(indent);
            let ghost before = tokens@;
            tokens.push(mark_token(TokenKind::Indent, ln, 0, indent));
            proof {
                lemma_toks_push(before, tokens@.last());
                assert(levels(stack@) =~= st.stack.push(indent as nat));
                assert(st.stack.last() == top as nat);
            }
        } else {
            proof {
                assert(st.stack.last() == top as nat);
            }
            close_to(indent, ln, stack, tokens);
        }
    } else {
        assert(base + Seq::<TokM>::empty() =~= base);
    }
    let ghost open = toks_view(tokens@);
    let ghost d0 = *depth as nat;
    let ghost stack_after = levels(stack@);
    // Scan the tokens of the line
    let mut i = lead;
    let ghost mut done: Seq<(TokenKind, int, int)> = Seq::empty();
    assert(Seq::<(TokenKind, int, int)>::empty() + scan_m(cs@, lead as int).0 =~= scan_m(cs@, lead as int).0);
    assert(open + Seq::<TokM>::empty() =~= open);
    while i < cs.len()
        invariant
            lead <= i <= cs@.len(),
            cs@ == line@,
            cs@.len() <= usize::MAX / 4,
            offs@.len() == cs@.len() + 1,
            forall|k: int| 0 <= k <= cs@.len() ==> #[trigger] offs@[k] == byte_at(cs@, k),
            scan_m(cs@, lead as int) == (done + scan_m(cs@, i as int).0, scan_m(cs@, i as int).1),
            toks_view(tokens@) == open + place(cs@, ln as nat, done, d0).0,
            *depth as nat == place(cs@, ln as nat, done, d0).1,
            *depth <= d0 + i,
            d0 + cs@.len() <= usize::MAX / 4,
            levels(stack@) == stack_after,
            stack@.len() >= 1,
            stack@[0] == 0,
            lead as int == lead_end(cs@, 0),
            trim_m(cs@).len() > 0 && trim_m(cs@)[0] != '#',
            st == (LexState { stack: levels(old(stack)@), depth: *old(depth) as nat }),
        decreases cs@.len() - i,
    {
        if cs[i] == ' ' || cs[i] == '\t' {
            i = i + 1;
        } else {
            match next_token_x(&cs, i) {
                Some((k, e)) => {
                    proof {
                        crate::syntax::lexer::lemma_byte_at(cs@, e as int);
                    }
                    match k {
                        TokenKind::LParen | TokenKind::LBracket | TokenKind::LBrace => {
                            *depth = *depth + 1;
                        },
                        TokenKind::RParen | TokenKind::RBracket | TokenKind::RBrace => {
                            if *depth > 0 {
                                *depth = *depth - 1;
                            }
                        },
                        _ => {},
                    }
                    let text = String::from_str(line.substring_char(i, e));
                    let ghost before = tokens@;
                    tokens.push(Token { kind: k, span: (ln, offs[i], offs[e] - offs[i]), text });
                    proof {
                        lemma_toks_push(before, tokens@.last());
                        let ghost d2 = done.push((k, i as int, e as int));
                        assert(d2.drop_last() =~= done);
                        assert(done + scan_m(cs@, i as int).0 =~= d2 + scan_m(cs@, e as int).0);
                        done = d2;
                    }
                    i = e;
                },
                None => {
                    assert(scan_m(cs@, i as int) == (Seq::<(TokenKind, int, int)>::empty(), Some(i as int)));
                    assert(scan_m(cs@, lead as int).1 == Some(i as int));
                    return Err(LexError { span: (offs[i], crate::syntax::lexer::char_width(cs[i])) });
                },
            }
        }
    }
    assert(done + Seq::<(TokenKind, int, int)>::empty() =~= done);
    if *depth == 0 {
        let ghost before = tokens@;
        tokens.push(newline_token(ln, end));
        proof {
            lemma_toks_push(before, tokens@.last());
        }
    }
    assert(toks_view(tokens@) =~= base + line_m(st, cs@, ln as nat)->Ok_0.0);
    Ok(())
}

/// The lines that `ranges` select from `cs`.
pub open spec fn ranges_view(cs: Seq<char>, ranges: Seq<(usize, usize)>) -> Seq<Seq<char>> {
    Seq::new(ranges.len(), |i: int| cs.subrange(ranges[i].0 as int, ranges[i].1 as int))
}

/// Where the lines of `cs` lie, in order.
pub fn line_ranges(cs: &Vec<char>) -> (r: Vec<(usize, usize)>)
    ensures
        ranges_view(cs@, r@) == lines_from(cs@, 0),
        forall|i: int| 0 <= i < r@.len() ==> #[trigger] r@[i].0 <= r@[i].1 <= cs@.len(),
        forall|i: int| 0 < i < r@.len() ==> r@[i - 1].1 <= #[trigger] r@[i].0,
{
    let mut r: Vec<(usize, usize)> = Vec::new();
    let mut i: usize = 0;
    assert(ranges_view(cs@, r@) + lines_from(cs@, 0) =~= lines_from(cs@, 0));
    while i < cs.len()
        invariant
            i <= cs@.len(),
            ranges_view(cs@, r@) + lines_from(cs@, i as int) == lines_from(cs@, 0),
            forall|k: int| 0 <= k < r@.len() ==> #[trigger] r@[k].0 <= r@[k].1 <= i,
            forall|k: int| 0 < k < r@.len() ==> r@[k - 1].1 <= #[trigger] r@[k].0,
        decreases cs@.len() - i,
    {
        proof {
            lemma_runs(cs@, i as int);
        }
        let mut j = i;
        while j < cs.len() && cs[j] != '\n'
            invariant
                i <= j <= cs@.len(),
                line_end(cs@, i as int) == line_end(cs@, j as int),
            decreases cs@.len() - j,
        {
            j = j + 1;
        }
        let ghost rv = ranges_view(cs@, r@);
        if j < cs.len() {
            let mut b = j;
            if b > i && cs[b - 1] == '\r' {
                b = b - 1;
            }
            assert(cs@.subrange(i as int, b as int) =~= strip_cr(cs@.subrange(i as int, j as int)));
            let ghost old_r = r@;
            r.push((i, b));
            assert(r@[old_r.len() as int] == (i, b));
            let ni = j + 1;
            assert forall|k: int| 0 <= k < r@.len() implies #[trigger] r@[k].0 <= r@[k].1 <= ni by {
                if k < old_r.len() {
                    assert(r@[k] == old_r[k]);
                    assert(old_r[k].0 <= old_r[k].1);
                }
            }
            assert forall|k: int| 0 < k < r@.len() implies r@[k - 1].1 <= #[trigger] r@[k].0 by {
                if k < old_r.len() {
                    assert(r@[k] == old_r[k]);
                    assert(r@[k - 1] == old_r[k - 1]);
                } else {
                    assert(r@[k - 1] == old_r[k - 1]);
                    assert(old_r[k - 1].0 <= old_r[k - 1].1);
                }
            }
            assert(ranges_view(cs@, r@) =~= rv.push(strip_cr(cs@.subrange(i as int, j as int))));
            assert(ranges_view(cs@, r@) + lines_from(cs@, j + 1) =~= rv + lines_from(cs@, i as int));
            i = ni;
        } else {
            let ghost old_r = r@;
            r.push((i, cs.len()));
            assert(r@[old_r.len() as int] == (i, cs@.len() as usize));
            assert forall|k: int| 0 <= k < r@.len() implies #[trigger] r@[k].0 <= r@[k].1 <= cs@.len() by {
                if k < old_r.len() {
                    assert(r@[k] == old_r[k]);
                    assert(old_r[k].0 <= old_r[k].1);
                }
            }
            assert forall|k: int| 0 < k < r@.len() implies r@[k - 1].1 <= #[trigger] r@[k].0 by {
                if k < old_r.len() {
                    assert(r@[k] == old_r[k]);
                    assert(r@[k - 1] == old_r[k - 1]);
                } else {
                    assert(r@[k - 1] == old_r[k - 1]);
                    assert(old_r[k - 1].0 <= old_r[k - 1].1);
                }
            }
            assert(ranges_view(cs@, r@) =~= rv.push(cs@.subrange(i as int, cs@.len() as int)));
            assert(ranges_view(cs@, r@) + lines_from(cs@, cs@.len() as int) =~= rv + lines_from(cs@, i as int));
            i = cs.len();
        }
    }
    assert(ranges_view(cs@, r@) + Seq::<Seq<char>>::empty() =~= ranges_view(cs@, r@));
    r
}

/// Once a line fails, the whole text fails the same way.
proof fn lemma_lines_err(st: LexState, ls: Seq<Seq<char>>, k: int, ln: nat)
    requires
        0 <= k <= ls.len(),
        lines_m(st, ls.take(k), ln) is Err,
    ensures
        lines_m(st, ls, ln) == lines_m(st, ls.take(k), ln),
    decreases ls.len() - k,
{
    if k < ls.len() {
        assert(ls.take(k + 1).drop_last() =~= ls.take(k));
        lemma_lines_err(st, ls, k + 1, ln);
    } else {
        assert(ls.take(k) =~= ls);
    }
}

/// Tokenize Nova source code into a list of tokens.
///
/// Handles indentation-based scoping by emitting `Indent`/`Dedent` tokens.
/// Supports line continuation in two cases:
///   1. Inside open brackets (), [], {}: indentation is ignored
///   2. When the next line starts with a continuation operator (|>, +, -, etc.)
pub fn tokenize(source: &str) -> (r: Result<Vec<Token>, LexError>)
    requires
        source@.len() <= usize::MAX / 4,
    ensures
        match tokenize_m(source@) {
            Ok(ts) => r matches Ok(v) && toks_view(v@) == ts,
            Err((p, l)) => r matches Err(e) && e.span.0 as nat == p && e.span.1 as nat == l,
        },
{
    let src = crate::syntax::lexer::chars_of(source);
    let ranges = line_ranges(&src);
    let ghost ls = lines_from(src@, 0);
    let ghost init = LexState { stack: seq![0nat], depth: 0 };
    let mut stack: Vec<usize> = vec![0];
    let mut depth: usize = 0;
    let mut tokens: Vec<Token> = Vec::new();
    let mut i: usize = 0;
    assert(levels(stack@) =~= seq![0nat]);
    assert(ls.take(0) =~= Seq::<Seq<char>>::empty());
    assert(toks_view(tokens@) =~= Seq::<TokM>::empty());
    while i < ranges.len()
        invariant
            i <= ranges@.len(),
            src@ == source@,
            src@.len() <= usize::MAX / 4,
            ls == lines_from(src@, 0),
            init == (LexState { stack: seq![0nat], depth: 0 }),
            ranges_view(src@, ranges@) == ls,
            forall|k: int| 0 <= k < ranges@.len() ==> #[trigger] ranges@[k].0 <= ranges@[k].1 <= src@.len(),
            forall|k: int| 0 < k < ranges@.len() ==> ranges@[k - 1].1 <= #[trigger] ranges@[k].0,
            lines_m(init, ls.take(i as int), 0) == Ok::<(Seq<TokM>, LexState), (nat, nat)>(
                (toks_view(tokens@), LexState { stack: levels(stack@), depth: depth as nat }),
            ),
            stack@.len() >= 1,
            stack@[0] == 0,
            i < ranges@.len() ==> depth <= ranges@[i as int].0,
        decreases ranges@.len() - i,
    {
        let (a, b) = ranges[i];
        let line = source.substring_char(a, b);
        assert(line@ == ls[i as int]);
        assert(ls.take(i + 1).drop_last() =~= ls.take(i as int));
        assert(ls.take(i + 1).last() == ls[i as int]);
        let ghost st1 = LexState { stack: levels(stack@), depth: depth as nat };
        assert(lines_m(init, ls.take(i + 1), 0) == match line_m(st1, ls[i as int], i as nat) {
            Err(e) => Err(e),
            Ok((ts2, st2)) => Ok::<(Seq<TokM>, LexState), (nat, nat)>((toks_view(tokens@) + ts2, st2)),
        });
        match lex_line(line, i, &mut stack, &mut depth, &mut tokens) {
            Err(e) => {
                proof {
                    assert(line_m(st1, ls[i as int], i as nat) is Err);
                    assert(lines_m(init, ls.take(i + 1), 0) is Err);
                    lemma_lines_err(init, ls, i + 1, 0);
                    let pl = line_m(st1, ls[i as int], i as nat)->Err_0;
                    assert(lines_m(init, ls, 0) == Err::<(Seq<TokM>, LexState), (nat, nat)>(pl));
                    assert(e.span.0 as nat == pl.0 && e.span.1 as nat == pl.1);
                    assert(lines_from(source@, 0) == ls);
                    assert(init == (LexState { stack: seq![0nat], depth: 0 }));
                    assert(tokenize_m(source@) == Err::<Seq<TokM>, (nat, nat)>(pl));
                }
                return Err(e);
            },
            Ok(()) => {},
        }
        proof {
            if i + 1 < ranges@.len() {
                assert(ranges@[i as int].1 <= ranges@[i + 1].0);
            }
        }
        i = i + 1;
    }
    assert(ls.take(ranges@.len() as int) =~= ls);
    // Close the indentation levels left open
    let ghost body = toks_view(tokens@);
    let ghost open_levels = stack@.len();
    let n0 = stack.len();
    let mut k: usize = 0;
    assert(body + dedents(0, 0) =~= body);
    while stack.len() > 1
        invariant
            stack@.len() >= 1,
            k + stack@.len() == open_levels,
            open_levels == n0,
            toks_view(tokens@) == body + dedents(k as nat, 0),
        decreases stack@.len(),
    {
        stack.pop();
        let ghost before = tokens@;
        tokens.push(mark_token(TokenKind::Dedent, 0, 0, 0));
        proof {
            lemma_toks_push(before, tokens@.last());
            assert(dedents((k + 1) as nat, 0) =~= dedents(k as nat, 0).push(mark(TokenKind::Dedent, 0, 0, 0)));
        }
        k = k + 1;
    }
    let ghost before = tokens@;
    tokens.push(mark_token(TokenKind::Eof, 0, 0, 0));
    proof {
        lemma_toks_push(before, tokens@.last());
    }
    Ok(tokens)
}

} // verus!
