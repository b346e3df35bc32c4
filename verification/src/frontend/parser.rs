//! The parser: tokens of the tokenizer to the syntax tree.
//!
//! Blocks are introduced by `:` and an indented run of statements, or by
//! braces with statements separated by `;`. Expressions bind, loosest
//! first: `|>`, `or`, `and`, comparisons and `in`/`is`, `+` `-`,
//! `*` `/` `//` `%`, then `**` (to the right), prefix `-` and `not`, then
//! calls, struct literals, field and method accesses and indexing. The first
//! error stops the parse.
use vstd::prelude::*;
use crate::check::types::spells;
use crate::frontend::grammar::{
    args_prefix, binary_of, comparison_of, cont_end, digits_value, inits_prefix, int_value,
    lemma_args_close, lemma_args_empty, lemma_args_step, lemma_await, lemma_binary, lemma_call,
    lemma_digits_prefix, lemma_field, lemma_int_value_none, float_shape, lemma_without_underscores_prefix, lemma_index, lemma_inits_close, lemma_inits_empty, lemma_inits_step,
    lemma_lambda, lemma_lift, lemma_list, lemma_literal, lemma_method, lemma_paren, lemma_pipe,
    lemma_pipe_start, lemma_power, lemma_prefix, lemma_struct, literal_at, noise_end, quotes_end,
    quotes_start, spells_args, spells_expression, unquoted, without_underscores, expression_end, pipes_end,
    level_end, ops_end, unary_end as unary_ends, postfix_end, calls_end, fields_end, args_end, primary_end,
    kind_is,
};
use crate::frontend::lexer::tokenize;
use crate::frontend::statements::{
    arms_end, block_end, block_stmts_end, brace_end, brace_stmts_end, cases_end, const_end, decorators_end,
    doc_end, dotted_end, effects_end, elifs_end, enum_end, fn_end, foreign_args_end, has_blank,
    if_end, impl_end, import_end, is_at, let_end, for_end, while_end, return_end, trait_end, else_end,
    exprstmt_end, match_end, params_end, program_count, pub_end,
    str_items_end, stmt_end, struct_end, type_args_end, type_end, type_params_end, variant_fields_end,
};
use crate::frontend::token::{Token, TokenKind};
use crate::infer::ast::{
    BinaryOperator, Decorator, EnumVariant, Expression, FStringPart, Field, MatchArm, Parameter,
    Pattern, Program, Statement, TypeExpr, UnaryOperator,
};

verus! {

broadcast use vstd::std_specs::vec::group_vec_axioms;

/// Why parsing failed.
#[derive(Debug)]
pub enum ParseError {
    UnexpectedToken { expected: String, got: String, line: usize },
    UnexpectedEof,
    InvalidSyntax { line: usize, message: String },
}

/// The message of a parse error.
pub open spec fn parse_error_text(e: ParseError) -> Seq<char> {
    match e {
        ParseError::UnexpectedToken { expected, got, line } => "unexpected token: expected "@
            + expected@ + ", got "@ + got@ + " at line "@ + crate::check::error::decimal_text(
            line as nat,
        ),
        ParseError::UnexpectedEof => "unexpected end of file"@,
        ParseError::InvalidSyntax { line, message } => "invalid syntax at line "@
            + crate::check::error::decimal_text(line as nat) + ": "@ + message@,
    }
}

impl ParseError {
    /// The one-line message of the error.
    pub fn message(&self) -> (r: String)
        ensures
            r@ == parse_error_text(*self),
    {
        match self {
            ParseError::UnexpectedToken { expected, got, line } => {
                let mut s = String::from_str("unexpected token: expected ");
                s.append(expected.as_str());
                s.append(", got ");
                s.append(got.as_str());
                s.append(" at line ");
                s.append(crate::check::error::decimal_string(*line).as_str());
                s
            },
            ParseError::UnexpectedEof => String::from_str("unexpected end of file"),
            ParseError::InvalidSyntax { line, message } => {
                let mut s = String::from_str("invalid syntax at line ");
                s.append(crate::check::error::decimal_string(*line).as_str());
                s.append(": ");
                s.append(message.as_str());
                s
            },
        }
    }
}

/// A parse: the value and the position after it.
pub type Parsed<T> = Result<(T, usize), ParseError>;

/// A successful parse ends within the stream, no earlier than it began.
pub open spec fn within<T>(r: Parsed<T>, p: int, len: int) -> bool {
    match r {
        Ok((_, q)) => p <= q <= len,
        Err(_) => true,
    }
}

/// A successful parse takes at least one token and ends within the stream.
pub open spec fn moves<T>(r: Parsed<T>, p: int, len: int) -> bool {
    match r {
        Ok((_, q)) => p < q <= len,
        Err(_) => true,
    }
}

/// The kind of the token at `p`; `Eof` past the end.
pub open spec fn kind_at_m(toks: Seq<Token>, p: int) -> TokenKind {
    if 0 <= p < toks.len() {
        toks[p].kind
    } else {
        TokenKind::Eof
    }
}

/// Where a parsed expression ends and whether it is a bare name, or
/// `None` for a failure.
pub open spec fn outcome(r: Parsed<Expression>) -> Option<(int, bool)> {
    match r {
        Ok((e, q)) => Some((q as int, e is Identifier)),
        Err(_) => None,
    }
}

/// Where a parse ends, or `None` for a failure.
pub open spec fn reached<T>(r: Parsed<T>) -> Option<int> {
    match r {
        Ok((_, q)) => Some(q as int),
        Err(_) => None,
    }
}

/// Where a parsed list ends, or `None` for a failure.
pub open spec fn list_outcome(r: Parsed<Vec<Expression>>) -> Option<int> {
    match r {
        Ok((_, q)) => Some(q as int),
        Err(_) => None,
    }
}

// ── Helpers ─────────────────────────────────────────────────

fn kind_at(toks: &Vec<Token>, p: usize) -> (k: TokenKind)
    ensures
        k == kind_at_m(toks@, p as int),
        k != TokenKind::Eof ==> p < toks@.len(),
        toks@.len() <= usize::MAX,
{
    if p < toks.len() {
        toks[p].kind
    } else {
        TokenKind::Eof
    }
}

fn at(toks: &Vec<Token>, p: usize, kind: TokenKind) -> (r: bool)
    ensures
        r == (kind_at_m(toks@, p as int) == kind),
        r && kind != TokenKind::Eof ==> p < toks@.len(),
        toks@.len() <= usize::MAX,
{
    kind_at(toks, p) == kind
}

/// The line of the token at `p`; zero past the end.
pub open spec fn line_of(toks: Seq<Token>, p: int) -> usize {
    if 0 <= p < toks.len() {
        toks[p].span.0
    } else {
        0
    }
}

/// `e` reports that the token at `p` is not `expected`.
pub open spec fn unexpected_at(toks: Seq<Token>, p: int, expected: Seq<char>, e: ParseError) -> bool {
    e matches ParseError::UnexpectedToken { expected: x, got, line } && x@ == expected && got@
        == crate::frontend::token::kind_name(kind_at_m(toks, p)) && line == line_of(toks, p)
}

/// The position after line breaks and comments, doc comments included.
pub open spec fn blank_end(toks: Seq<Token>, p: int) -> int
    decreases toks.len() - p,
{
    if 0 <= p < toks.len() && (toks[p].kind == TokenKind::Newline || toks[p].kind == TokenKind::Comment
        || toks[p].kind == TokenKind::DocComment) {
        blank_end(toks, p + 1)
    } else {
        p
    }
}

/// The line of the token at `p`; zero past the end.
fn line_at(toks: &Vec<Token>, p: usize) -> (r: usize)
    ensures
        r == line_of(toks@, p as int),
{
    if p < toks.len() {
        toks[p].span.0
    } else {
        0
    }
}

/// The error for a token that is not the one expected.
fn unexpected(toks: &Vec<Token>, p: usize, expected: &str) -> (r: ParseError)
    ensures
        unexpected_at(toks@, p as int, expected@, r),
{
    ParseError::UnexpectedToken {
        expected: expected.to_string(),
        got: kind_at(toks, p).name().to_string(),
        line: line_at(toks, p),
    }
}

/// The error for invalid syntax at `p`.
fn invalid(toks: &Vec<Token>, p: usize, message: &str) -> (r: ParseError)
    ensures
        r matches ParseError::InvalidSyntax { line, message: m } && line == line_of(toks@, p as int) && m@
            == message@,
{
    ParseError::InvalidSyntax { line: line_at(toks, p), message: message.to_string() }
}

/// The position after the token at `p`, which must be of kind `kind`.
fn expect(toks: &Vec<Token>, p: usize, kind: TokenKind) -> (r: Result<usize, ParseError>)
    requires
        p <= toks@.len(),
    ensures
        r matches Ok(q) ==> q == p + 1 && q <= toks@.len() && toks@[p as int].kind == kind,
        r is Ok <==> (p < toks@.len() && toks@[p as int].kind == kind),
        r matches Err(e) ==> unexpected_at(toks@, p as int, crate::frontend::token::kind_name(kind), e),
{
    if p < toks.len() && toks[p].kind == kind {
        Ok(p + 1)
    } else {
        Err(unexpected(toks, p, kind.name()))
    }
}

/// The text of the token at `p`, which must be of kind `kind`, and the
/// position after it.
fn expect_text(toks: &Vec<Token>, p: usize, kind: TokenKind) -> (r: Parsed<String>)
    requires
        p <= toks@.len(),
    ensures
        r matches Ok((s, q)) ==> q == p + 1 && q <= toks@.len() && toks@[p as int].kind == kind
            && s@ == toks@[p as int].text@,
        r is Ok <==> (p < toks@.len() && toks@[p as int].kind == kind),
{
    if p < toks.len() && toks[p].kind == kind {
        Ok((toks[p].text.clone(), p + 1))
    } else {
        Err(unexpected(toks, p, kind.name()))
    }
}

/// The position after line breaks and comments, doc comments included.
fn skip_newlines(toks: &Vec<Token>, p: usize) -> (q: usize)
    requires
        p <= toks@.len(),
    ensures
        p <= q <= toks@.len(),
        q == blank_end(toks@, p as int),
{
    let mut q = p;
    while q < toks.len() && (toks[q].kind == TokenKind::Newline || toks[q].kind == TokenKind::Comment
        || toks[q].kind == TokenKind::DocComment)
        invariant
            p <= q <= toks@.len(),
            blank_end(toks@, q as int) == blank_end(toks@, p as int),
        decreases toks@.len() - q,
    {
        q = q + 1;
    }
    q
}

/// The position after line breaks and comments, but not doc comments.
fn skip_non_doc_noise(toks: &Vec<Token>, p: usize) -> (q: usize)
    requires
        p <= toks@.len(),
    ensures
        p <= q <= toks@.len(),
        q == noise_end(toks@, p as int),
{
    let mut q = p;
    while q < toks.len() && (toks[q].kind == TokenKind::Newline || toks[q].kind == TokenKind::Comment)
        invariant
            p <= q <= toks@.len(),
            noise_end(toks@, q as int) == noise_end(toks@, p as int),
        decreases toks@.len() - q,
    {
        q = q + 1;
    }
    q
}

/// The kind of the first token at or after `p` that is not a line break or
/// comment, if there is one.
fn peek_past_newlines(toks: &Vec<Token>, p: usize) -> (r: Option<TokenKind>)
    requires
        p <= toks@.len(),
    ensures
        r == (if noise_end(toks@, p as int) < toks@.len() {
            Some(toks@[noise_end(toks@, p as int)].kind)
        } else {
            None::<TokenKind>
        }),
{
    let mut i = p;
    while i < toks.len()
        invariant
            p <= i <= toks@.len(),
            noise_end(toks@, i as int) == noise_end(toks@, p as int),
        decreases toks@.len() - i,
    {
        let kind = toks[i].kind;
        if kind == TokenKind::Newline || kind == TokenKind::Comment {
            i = i + 1;
        } else {
            return Some(kind);
        }
    }
    None
}

/// The position after line breaks, when the next token continues the
/// expression (a pipe, an arithmetic or logical operator, or a dot).
fn skip_newlines_if_continuation(toks: &Vec<Token>, p: usize) -> (q: usize)
    requires
        p <= toks@.len(),
    ensures
        p <= q <= toks@.len(),
        q == cont_end(toks@, p as int),
{
    let next = peek_past_newlines(toks, p);
    if matches!(
        next,
        Some(TokenKind::Pipe) | Some(TokenKind::Plus) | Some(TokenKind::Minus) | Some(TokenKind::Star)
            | Some(TokenKind::Slash) | Some(TokenKind::And) | Some(TokenKind::Or) | Some(TokenKind::Dot)
    ) {
        skip_non_doc_noise(toks, p)
    } else {
        p
    }
}

/// Consecutive doc comments at `p`, joined by line feeds. A blank line
/// between doc comments drops the lines before it.
fn collect_doc_comments(toks: &Vec<Token>, p: usize) -> (r: (Option<String>, usize))
    requires
        p <= toks@.len(),
    ensures
        p <= r.1 <= toks@.len(),
        r.1 == doc_end(toks@, p as int),
{
    let ghost t = toks@;
    let mut doc_lines: Vec<String> = Vec::new();
    let mut q = p;
    loop
        invariant_except_break
            doc_end(t, p as int) == doc_end(t, q as int),
        invariant
            p <= q <= toks@.len(),
            t == toks@,
        ensures
            p <= q <= toks@.len(),
            doc_end(t, p as int) == q,
        decreases toks@.len() - q,
    {
        if q >= toks.len() {
            break;
        }
        let kind = toks[q].kind;
        match kind {
            TokenKind::DocComment => {
                doc_lines.push(toks[q].text.clone());
                q = q + 1;
            },
            TokenKind::Newline => {
                // Keep collecting when the next token past line breaks is
                // another doc comment
                q = q + 1;
                match peek_past_newlines(toks, q) {
                    Some(TokenKind::DocComment) => {
                        // A blank line before it starts a new block
                        let mut blank = false;
                        let mut i = q;
                        while i < toks.len()
                            invariant
                                q <= i <= toks@.len(),
                                t == toks@,
                                has_blank(t, q as int) == (blank || has_blank(t, i as int)),
                            ensures
                                blank == has_blank(t, q as int),
                            decreases toks@.len() - i,
                        {
                            let kind = toks[i].kind;
                            if kind == TokenKind::Newline {
                                blank = true;
                            } else if kind != TokenKind::Comment {
                                break;
                            }
                            i = i + 1;
                        }
                        if blank {
                            doc_lines = Vec::new();
                            q = skip_non_doc_noise(toks, q);
                        }
                    },
                    _ => break,
                }
            },
            TokenKind::Comment => {
                q = q + 1;
            },
            _ => break,
        }
    }
    if doc_lines.len() == 0 {
        (None, q)
    } else {
        let mut text = String::new();
        crate::formatter::exprs::write_texts(&mut text, &doc_lines, "\n");
        (Some(text), q)
    }
}

// ── Literals ────────────────────────────────────────────────

/// `s` without the quotes at either end.
fn trim_quotes(s: &String) -> (r: String)
    ensures
        r@ == unquoted(s@),
{
    let cs = crate::syntax::lexer::chars_of(s.as_str());
    let mut a: usize = 0;
    while a < cs.len() && cs[a] == '"'
        invariant
            a <= cs@.len(),
            quotes_end(cs@, a as int) == quotes_end(cs@, 0),
        decreases cs@.len() - a,
    {
        a = a + 1;
    }
    let mut b: usize = cs.len();
    while b > a && cs[b - 1] == '"'
        invariant
            a <= b <= cs@.len(),
            a == quotes_end(cs@, 0),
            quotes_start(cs@, a as int, b as int) == quotes_start(cs@, a as int, cs@.len() as int),
        decreases b,
    {
        b = b - 1;
    }
    String::from_str(s.as_str().substring_char(a, b))
}

/// When the digits `ds[start..=i]` are a prefix of the body `ds[start..]`
/// and the body is all digits, the body's value is no less.
proof fn lemma_too_long(ds: Seq<char>, start: int, i: int, body: Seq<char>)
    requires
        0 <= start <= i < ds.len(),
        body == ds.subrange(start, ds.len() as int),
    ensures
        (forall|j: int| 0 <= j < body.len() ==> '0' <= #[trigger] body[j] <= '9') ==> digits_value(
            ds.subrange(start, i + 1),
        ) <= digits_value(body),
{
    if forall|j: int| 0 <= j < body.len() ==> '0' <= #[trigger] body[j] <= '9' {
        assert(body.subrange(0, i + 1 - start) == ds.subrange(start, i + 1));
        lemma_digits_prefix(body, i + 1 - start);
    }
}

/// The value of an integer literal's text, `_` separators ignored, as `str`
/// parsing to `i64` reads it: an optional sign, then decimal digits.
fn parse_int_text(text: &String) -> (r: Result<i64, &'static str>)
    ensures
        r matches Ok(v) ==> int_value(text@) == Some(v),
        r is Ok <==> int_value(text@) is Some,
{
    let cs = crate::syntax::lexer::chars_of(text.as_str());
    let mut digits: Vec<char> = Vec::new();
    let mut k: usize = 0;
    while k < cs.len()
        invariant
            k <= cs@.len(),
            digits@ == without_underscores(cs@.subrange(0, k as int)),
        decreases cs@.len() - k,
    {
        assert(cs@.subrange(0, k + 1).drop_last() == cs@.subrange(0, k as int));
        if cs[k] != '_' {
            digits.push(cs[k]);
        }
        k = k + 1;
    }
    assert(cs@.subrange(0, cs@.len() as int) == text@);
    if digits.len() == 0 {
        return Err("cannot parse integer from empty string");
    }
    let negative = digits[0] == '-';
    let start: usize = if digits[0] == '-' || digits[0] == '+' {
        1
    } else {
        0
    };
    if start == digits.len() {
        return Err("invalid digit found in string");
    }
    let ghost ds = digits@;
    let ghost body = ds.subrange(start as int, ds.len() as int);
    assert(ds == without_underscores(text@));
    let mut value: i64 = 0;
    let mut i = start;
    while i < digits.len()
        invariant
            start <= i <= digits@.len(),
            ds == digits@,
            ds.len() > 0,
            negative == (ds[0] == '-'),
            start == (if ds[0] == '-' || ds[0] == '+' { 1int } else { 0int }),
            negative ==> value <= 0,
            !negative ==> value >= 0,
            value == (if negative {
                -digits_value(ds.subrange(start as int, i as int))
            } else {
                digits_value(ds.subrange(start as int, i as int))
            }),
            forall|j: int| start <= j < i ==> '0' <= #[trigger] ds[j] <= '9',
            ds == without_underscores(text@),
            body == ds.subrange(start as int, ds.len() as int),
        decreases digits@.len() - i,
    {
        assert(ds.subrange(start as int, i + 1).drop_last() == ds.subrange(start as int, i as int));
        let c = digits[i];
        if !('0' <= c && c <= '9') {
            proof {
                assert(body[i - start] == c);
                assert(!('0' <= body[i - start] <= '9'));
                assert(!(forall|j: int| 0 <= j < body.len() ==> '0' <= #[trigger] body[j] <= '9'));
                lemma_int_value_none(text@, start as int, body);
            }
            return Err("invalid digit found in string");
        }
        let d = (c as u32 - '0' as u32) as i64;
        if negative {
            if value < (i64::MIN + d) / 10 {
                proof {
                    let x: int = i64::MIN + d;
                    let m: int = (i64::MIN + d) / 10;
                    assert(m * 10 <= x + 9) by (nonlinear_arith)
                        requires
                            m == x / 10,
                    ;
                    assert(value * 10 - d < i64::MIN);
                    assert(digits_value(ds.subrange(start as int, i + 1)) == -(value * 10 - d));
                    lemma_too_long(ds, start as int, i as int, body);
                    lemma_int_value_none(text@, start as int, body);
                }
                return Err("number too small to fit in target type");
            }
            value = value * 10 - d;
        } else {
            if value > (i64::MAX - d) / 10 {
                proof {
                    let x: int = i64::MAX - d;
                    let m: int = (i64::MAX - d) / 10;
                    assert(m * 10 + 9 >= x) by (nonlinear_arith)
                        requires
                            x >= 0,
                            m == x / 10,
                    ;
                    assert(value * 10 + d > i64::MAX);
                    assert(digits_value(ds.subrange(start as int, i + 1)) == value * 10 + d);
                    lemma_too_long(ds, start as int, i as int, body);
                    lemma_int_value_none(text@, start as int, body);
                }
                return Err("number too large to fit in target type");
            }
            value = value * 10 + d;
        }
        i = i + 1;
    }
    proof {
        assert(ds.subrange(start as int, i as int) == body);
        assert forall|j: int| 0 <= j < body.len() implies '0' <= #[trigger] body[j] <= '9' by {
            assert(body[j] == ds[start + j]);
        }
    }
    Ok(value)
}

/// A float literal's text without its `_` separators, if it has the shape
/// digits, point, digits.
fn float_text(text: &String) -> (r: Option<String>)
    ensures
        r matches Some(t) ==> t@ == without_underscores(text@),
        r is Some <==> float_shape(without_underscores(text@)),
{
    let cs = crate::syntax::lexer::chars_of(text.as_str());
    let ghost w = without_underscores(text@);
    let ghost mut pt: int = 0;
    let mut out = String::new();
    let mut before: usize = 0;
    let mut after: usize = 0;
    let mut seen_point = false;
    let mut k: usize = 0;
    while k < cs.len()
        invariant
            k <= cs@.len(),
            cs@ == text@,
            before <= k,
            after <= k,
            out@ == without_underscores(cs@.subrange(0, k as int)),
            w == without_underscores(text@),
            !seen_point ==> after == 0 && before == out@.len() && forall|j: int| 0 <= j < out@.len() ==> '0' <= #[trigger] out@[j] <= '9',
            seen_point ==> 0 <= pt < out@.len() && out@[pt] == '.' && before == pt && after == out@.len() - pt - 1
                && forall|j: int| 0 <= j < out@.len() && j != pt ==> '0' <= #[trigger] out@[j] <= '9',
        decreases cs@.len() - k,
    {
        assert(cs@.subrange(0, k + 1).drop_last() == cs@.subrange(0, k as int));
        proof {
            reveal_strlit(".");
        }
        let ghost o0 = out@;
        let c = cs[k];
        proof {
            if c != '_' {
                assert(without_underscores(cs@.subrange(0, k + 1)) == o0.push(c));
            } else {
                assert(without_underscores(cs@.subrange(0, k + 1)) == o0);
            }
        }
        if '0' <= c && c <= '9' {
            if seen_point {
                after = after + 1;
                out.append(text.as_str().substring_char(k, k + 1));
            } else {
                before = before + 1;
                out.append(text.as_str().substring_char(k, k + 1));
            }
        } else if c == '.' && !seen_point {
            proof {
                pt = out@.len() as int;
            }
            seen_point = true;
            out.append(".");
        } else if c != '_' {
            proof {
                let wk = without_underscores(cs@.subrange(0, k + 1));
                assert(wk == out@.push(c));
                lemma_without_underscores_prefix(text@, k + 1);
                assert(text@.subrange(0, k + 1) == cs@.subrange(0, k + 1));
                assert(w.subrange(0, wk.len() as int) == wk);
                let n = out@.len() as int;
                assert(wk[n] == c);
                assert(w.subrange(0, wk.len() as int)[n] == w[n]);
                assert(w[n] == c);
                if float_shape(w) {
                    let i = choose|i: int|
                        #![trigger w[i]]
                        0 < i < w.len() - 1 && w[i] == '.' && (forall|j: int|
                            0 <= j < w.len() && j != i ==> '0' <= #[trigger] w[j] <= '9');
                    if i != n {
                        assert('0' <= w[n] <= '9');
                    } else {
                        assert(seen_point);
                        assert(w.subrange(0, wk.len() as int)[pt] == w[pt]);
                        assert(wk[pt] == out@[pt]);
                        assert(w[pt] == out@[pt]);
                        assert('0' <= w[pt] <= '9');
                    }
                }
            }
            return None;
        }
        k = k + 1;
    }
    assert(cs@.subrange(0, cs@.len() as int) == text@);
    assert(out@ == w);
    proof {
        if float_shape(w) {
            let i = choose|i: int|
                #![trigger w[i]]
                0 < i < w.len() - 1 && w[i] == '.' && (forall|j: int|
                    0 <= j < w.len() && j != i ==> '0' <= #[trigger] w[j] <= '9');
            if !seen_point {
                assert('0' <= w[i] <= '9');
            } else if i != pt {
                assert('0' <= w[pt] <= '9');
            }
        }
        if seen_point && before > 0 && after > 0 {
            assert(w[pt] == '.');
        }
    }
    if seen_point && before > 0 && after > 0 {
        Some(out)
    } else {
        None
    }
}

/// The first position from `x` before `b` whose character is not white
/// space, or `b`.
pub open spec fn space_skip(cs: Seq<char>, x: int, b: int) -> int
    decreases b - x,
{
    if 0 <= x < b && b <= cs.len() && crate::frontend::lexer::is_space(cs[x]) {
        space_skip(cs, x + 1, b)
    } else {
        x
    }
}

/// The position after the last character before `y` that is not white
/// space, but not before `x`.
pub open spec fn space_back(cs: Seq<char>, x: int, y: int) -> int
    decreases y - x,
{
    if 0 <= x < y && y <= cs.len() && crate::frontend::lexer::is_space(cs[y - 1]) {
        space_back(cs, x, y - 1)
    } else {
        y
    }
}

/// `cs[a..b]` without white space at either end.
pub open spec fn trimmed(cs: Seq<char>, a: int, b: int) -> Seq<char> {
    let x = space_skip(cs, a, b);
    cs.subrange(x, space_back(cs, x, b))
}

/// `cs[a..b]` without white space at either end.
fn trimmed_text(s: &str, cs: &Vec<char>, a: usize, b: usize) -> (r: String)
    requires
        a <= b <= cs@.len(),
        cs@ == s@,
    ensures
        r@ == trimmed(cs@, a as int, b as int),
{
    let mut x = a;
    while x < b && is_space_char(cs[x])
        invariant
            a <= x <= b <= cs@.len(),
            space_skip(cs@, x as int, b as int) == space_skip(cs@, a as int, b as int),
        decreases b - x,
    {
        x = x + 1;
    }
    let mut y = b;
    while y > x && is_space_char(cs[y - 1])
        invariant
            a <= x <= y <= b <= cs@.len(),
            cs@ == s@,
            x == space_skip(cs@, a as int, b as int),
            space_back(cs@, x as int, y as int) == space_back(cs@, x as int, b as int),
        decreases y,
    {
        y = y - 1;
    }
    String::from_str(s.substring_char(x, y))
}

fn is_space_char(c: char) -> (r: bool)
    ensures
        r == crate::frontend::lexer::is_space(c),
{
    ('\u{9}' <= c && c <= '\u{d}') || c == ' ' || c == '\u{85}' || c == '\u{a0}' || c == '\u{1680}' || (
    '\u{2000}' <= c && c <= '\u{200a}') || c == '\u{2028}' || c == '\u{2029}' || c == '\u{202f}' || c
        == '\u{205f}' || c == '\u{3000}'
}

// ── Types ───────────────────────────────────────────────────

/// A type: a name (or `none`, `Self`), with type arguments in brackets.
fn parse_type(toks: &Vec<Token>, p: usize) -> (r: Parsed<TypeExpr>)
    requires
        p <= toks@.len(),
    ensures
        moves(r, p as int, toks@.len() as int),
        reached(r) == type_end(toks@, p as int),
    decreases toks@.len() - p,
{
    let ghost t = toks@;
    // Allow keyword types: none, Self
    let (name, mut q) = if at(toks, p, TokenKind::NoneKw) {
        ("none".to_string(), p + 1)
    } else if at(toks, p, TokenKind::SelfKw) {
        ("Self".to_string(), p + 1)
    } else {
        expect_text(toks, p, TokenKind::Identifier)?
    };
    // Generic types: list[int], dict[str, int]
    if at(toks, q, TokenKind::LBracket) {
        q = q + 1;
        let (first, q2) = parse_type(toks, q)?;
        q = q2;
        let mut type_args = vec![first];
        while at(toks, q, TokenKind::Comma)
            invariant
                p < q <= toks@.len(),
                t == toks@,
                type_end(t, p as int) == type_args_end(t, q as int),
            decreases toks@.len() - q,
        {
            q = q + 1;
            let (t, q3) = parse_type(toks, q)?;
            type_args.push(t);
            q = q3;
        }
        let q4 = expect(toks, q, TokenKind::RBracket)?;
        return Ok((TypeExpr::Generic(name, type_args), q4));
    }
    Ok((TypeExpr::Named(name), q))
}

// ── Expressions (precedence climbing) ───────────────────────

/// An expression.
pub fn parse_expression(toks: &Vec<Token>, p: usize, budget: usize) -> (r: Parsed<Expression>)
    requires
        p <= toks@.len(),
    ensures
        moves(r, p as int, toks@.len() as int),
        r matches Ok((e, q)) ==> spells_expression(toks@, p as int, q as int, e, 7),
        outcome(r) == expression_end(toks@, p as int),
    decreases budget, toks@.len() - p, 20nat,
{
    parse_pipe(toks, p, budget)
}

/// `a |> f |> g`, a pipe may continue on the next line.
fn parse_pipe(toks: &Vec<Token>, p: usize, budget: usize) -> (r: Parsed<Expression>)
    requires
        p <= toks@.len(),
    ensures
        moves(r, p as int, toks@.len() as int),
        r matches Ok((e, q)) ==> spells_expression(toks@, p as int, q as int, e, 7),
        outcome(r) == expression_end(toks@, p as int),
    decreases budget, toks@.len() - p, 19nat,
{
    let (mut left, mut q) = parse_or(toks, p, budget)?;
    let ghost m0 = q as int;
    // Allow pipe continuation across newlines
    q = skip_newlines_if_continuation(toks, q);
    proof {
        lemma_pipe_start(toks@, p as int, m0, q as int, left);
    }
    while at(toks, q, TokenKind::Pipe)
        invariant
            p < q <= toks@.len(),
            spells_expression(toks@, p as int, q as int, left, 7),
            expression_end(toks@, p as int) == pipes_end(toks@, q as int, left is Identifier),
        decreases toks@.len() - q,
    {
        let ghost m = q as int;
        q = q + 1;
        // Skip any newlines/comments after the pipe operator
        q = skip_non_doc_noise(toks, q);
        let ghost a = q as int;
        let (right, q2) = parse_or(toks, q, budget)?;
        let ghost l0 = left;
        left = Expression::Pipe { left: Box::new(left), right: Box::new(right) };
        q = skip_newlines_if_continuation(toks, q2);
        proof {
            lemma_pipe(toks@, p as int, m, a, q2 as int, q as int, l0, right);
        }
    }
    Ok((left, q))
}

fn parse_or(toks: &Vec<Token>, p: usize, budget: usize) -> (r: Parsed<Expression>)
    requires
        p <= toks@.len(),
    ensures
        moves(r, p as int, toks@.len() as int),
        r matches Ok((e, q)) ==> spells_expression(toks@, p as int, q as int, e, 6),
        outcome(r) == level_end(toks@, p as int, 6),
    decreases budget, toks@.len() - p, 18nat,
{
    let (mut left, mut q) = parse_and(toks, p, budget)?;
    proof {
        lemma_lift(toks@, p as int, q as int, left, 5);
    }
    while at(toks, q, TokenKind::Or)
        invariant
            p < q <= toks@.len(),
            spells_expression(toks@, p as int, q as int, left, 6),
            level_end(toks@, p as int, 6) == ops_end(toks@, q as int, 6, left is Identifier),
        decreases toks@.len() - q,
    {
        let (right, q2) = parse_and(toks, q + 1, budget)?;
        let ghost l0 = left;
        let ghost m = q as int;
        left = Expression::BinaryOp { left: Box::new(left), op: BinaryOperator::Or, right: Box::new(right) };
        q = q2;
        proof {
            lemma_binary(toks@, p as int, m, q as int, l0, BinaryOperator::Or, right, 6);
        }
    }
    Ok((left, q))
}

fn parse_and(toks: &Vec<Token>, p: usize, budget: usize) -> (r: Parsed<Expression>)
    requires
        p <= toks@.len(),
    ensures
        moves(r, p as int, toks@.len() as int),
        r matches Ok((e, q)) ==> spells_expression(toks@, p as int, q as int, e, 5),
        outcome(r) == level_end(toks@, p as int, 5),
    decreases budget, toks@.len() - p, 17nat,
{
    let (mut left, mut q) = parse_comparison(toks, p, budget)?;
    proof {
        lemma_lift(toks@, p as int, q as int, left, 4);
    }
    while at(toks, q, TokenKind::And)
        invariant
            p < q <= toks@.len(),
            spells_expression(toks@, p as int, q as int, left, 5),
            level_end(toks@, p as int, 5) == ops_end(toks@, q as int, 5, left is Identifier),
        decreases toks@.len() - q,
    {
        let (right, q2) = parse_comparison(toks, q + 1, budget)?;
        let ghost l0 = left;
        let ghost m = q as int;
        left = Expression::BinaryOp { left: Box::new(left), op: BinaryOperator::And, right: Box::new(right) };
        q = q2;
        proof {
            lemma_binary(toks@, p as int, m, q as int, l0, BinaryOperator::And, right, 5);
        }
    }
    Ok((left, q))
}

/// The comparison operator at `p`, if any.
fn comparison_op(toks: &Vec<Token>, p: usize) -> (r: Option<BinaryOperator>)
    ensures
        r is Some ==> p < toks@.len(),
        r == comparison_of(kind_at_m(toks@, p as int)),
        toks@.len() <= usize::MAX,
{
    match kind_at(toks, p) {
        TokenKind::Eq => Some(BinaryOperator::Eq),
        TokenKind::NotEq => Some(BinaryOperator::NotEq),
        TokenKind::Lt => Some(BinaryOperator::Lt),
        TokenKind::Gt => Some(BinaryOperator::Gt),
        TokenKind::LtEq => Some(BinaryOperator::LtEq),
        TokenKind::GtEq => Some(BinaryOperator::GtEq),
        TokenKind::In => Some(BinaryOperator::In),
        TokenKind::Is => Some(BinaryOperator::Is),
        _ => None,
    }
}

fn parse_comparison(toks: &Vec<Token>, p: usize, budget: usize) -> (r: Parsed<Expression>)
    requires
        p <= toks@.len(),
    ensures
        moves(r, p as int, toks@.len() as int),
        r matches Ok((e, q)) ==> spells_expression(toks@, p as int, q as int, e, 4),
        outcome(r) == level_end(toks@, p as int, 4),
    decreases budget, toks@.len() - p, 16nat,
{
    let (mut left, mut q) = parse_addition(toks, p, budget)?;
    proof {
        lemma_lift(toks@, p as int, q as int, left, 3);
    }
    loop
        invariant
            p < q <= toks@.len(),
            spells_expression(toks@, p as int, q as int, left, 4),
            level_end(toks@, p as int, 4) == ops_end(toks@, q as int, 4, left is Identifier),
        ensures
            p < q <= toks@.len(),
            spells_expression(toks@, p as int, q as int, left, 4),
            level_end(toks@, p as int, 4) == ops_end(toks@, q as int, 4, left is Identifier),
            ops_end(toks@, q as int, 4, left is Identifier) == Some::<(int, bool)>((q as int, left is Identifier)),
        decreases toks@.len() - q,
    {
        let op = match comparison_op(toks, q) {
            Some(op) => op,
            None => break,
        };
        let (right, q2) = parse_addition(toks, q + 1, budget)?;
        let ghost l0 = left;
        let ghost m = q as int;
        left = Expression::BinaryOp { left: Box::new(left), op, right: Box::new(right) };
        q = q2;
        proof {
            assert(kind_at_m(toks@, m) == toks@[m].kind);
            lemma_binary(toks@, p as int, m, q as int, l0, op, right, 4);
        }
    }
    Ok((left, q))
}

fn parse_addition(toks: &Vec<Token>, p: usize, budget: usize) -> (r: Parsed<Expression>)
    requires
        p <= toks@.len(),
    ensures
        moves(r, p as int, toks@.len() as int),
        r matches Ok((e, q)) ==> spells_expression(toks@, p as int, q as int, e, 3),
        outcome(r) == level_end(toks@, p as int, 3),
    decreases budget, toks@.len() - p, 15nat,
{
    let (mut left, mut q) = parse_multiplication(toks, p, budget)?;
    proof {
        lemma_lift(toks@, p as int, q as int, left, 2);
    }
    loop
        invariant
            p < q <= toks@.len(),
            spells_expression(toks@, p as int, q as int, left, 3),
            level_end(toks@, p as int, 3) == ops_end(toks@, q as int, 3, left is Identifier),
        ensures
            p < q <= toks@.len(),
            spells_expression(toks@, p as int, q as int, left, 3),
            level_end(toks@, p as int, 3) == ops_end(toks@, q as int, 3, left is Identifier),
            ops_end(toks@, q as int, 3, left is Identifier) == Some::<(int, bool)>((q as int, left is Identifier)),
        decreases toks@.len() - q,
    {
        let op = match kind_at(toks, q) {
            TokenKind::Plus => BinaryOperator::Add,
            TokenKind::Minus => BinaryOperator::Sub,
            _ => break,
        };
        let (right, q2) = parse_multiplication(toks, q + 1, budget)?;
        let ghost l0 = left;
        let ghost m = q as int;
        left = Expression::BinaryOp { left: Box::new(left), op, right: Box::new(right) };
        q = q2;
        proof {
            assert(kind_at_m(toks@, m) == toks@[m].kind);
            lemma_binary(toks@, p as int, m, q as int, l0, op, right, 3);
        }
    }
    Ok((left, q))
}

fn parse_multiplication(toks: &Vec<Token>, p: usize, budget: usize) -> (r: Parsed<Expression>)
    requires
        p <= toks@.len(),
    ensures
        moves(r, p as int, toks@.len() as int),
        r matches Ok((e, q)) ==> spells_expression(toks@, p as int, q as int, e, 2),
        outcome(r) == level_end(toks@, p as int, 2),
    decreases budget, toks@.len() - p, 14nat,
{
    let (mut left, mut q) = parse_power(toks, p, budget)?;
    proof {
        lemma_lift(toks@, p as int, q as int, left, 1);
    }
    loop
        invariant
            p < q <= toks@.len(),
            spells_expression(toks@, p as int, q as int, left, 2),
            level_end(toks@, p as int, 2) == ops_end(toks@, q as int, 2, left is Identifier),
        ensures
            p < q <= toks@.len(),
            spells_expression(toks@, p as int, q as int, left, 2),
            level_end(toks@, p as int, 2) == ops_end(toks@, q as int, 2, left is Identifier),
            ops_end(toks@, q as int, 2, left is Identifier) == Some::<(int, bool)>((q as int, left is Identifier)),
        decreases toks@.len() - q,
    {
        let op = match kind_at(toks, q) {
            TokenKind::Star => BinaryOperator::Mul,
            TokenKind::Slash => BinaryOperator::Div,
            TokenKind::DoubleSlash => BinaryOperator::IntDiv,
            TokenKind::Percent => BinaryOperator::Mod,
            _ => break,
        };
        let (right, q2) = parse_power(toks, q + 1, budget)?;
        let ghost l0 = left;
        let ghost m = q as int;
        left = Expression::BinaryOp { left: Box::new(left), op, right: Box::new(right) };
        q = q2;
        proof {
            assert(kind_at_m(toks@, m) == toks@[m].kind);
            lemma_binary(toks@, p as int, m, q as int, l0, op, right, 2);
        }
    }
    Ok((left, q))
}

/// `a ** b`, to the right: `2 ** 3 ** 2` is `2 ** (3 ** 2)`.
fn parse_power(toks: &Vec<Token>, p: usize, budget: usize) -> (r: Parsed<Expression>)
    requires
        p <= toks@.len(),
    ensures
        moves(r, p as int, toks@.len() as int),
        r matches Ok((e, q)) ==> spells_expression(toks@, p as int, q as int, e, 1),
        outcome(r) == level_end(toks@, p as int, 1),
    decreases budget, toks@.len() - p, 13nat,
{
    let (base, q) = parse_unary(toks, p, budget)?;
    if at(toks, q, TokenKind::Power) {
        let (exponent, q2) = parse_power(toks, q + 1, budget)?;
        let e = Expression::BinaryOp { left: Box::new(base), op: BinaryOperator::Power, right: Box::new(exponent) };
        proof {
            lemma_power(toks@, p as int, q as int, q2 as int, base, exponent);
        }
        Ok((e, q2))
    } else {
        proof {
            lemma_lift(toks@, p as int, q as int, base, 0);
        }
        Ok((base, q))
    }
}

fn parse_unary(toks: &Vec<Token>, p: usize, budget: usize) -> (r: Parsed<Expression>)
    requires
        p <= toks@.len(),
    ensures
        moves(r, p as int, toks@.len() as int),
        r matches Ok((e, q)) ==> spells_expression(toks@, p as int, q as int, e, 0),
        outcome(r) == unary_ends(toks@, p as int),
    decreases budget, toks@.len() - p, 12nat,
{
    match kind_at(toks, p) {
        TokenKind::Minus => {
            let (operand, q) = parse_unary(toks, p + 1, budget)?;
            let e = Expression::UnaryOp { op: UnaryOperator::Neg, operand: Box::new(operand) };
            proof {
                lemma_prefix(toks@, p as int, q as int, UnaryOperator::Neg, operand);
            }
            Ok((e, q))
        },
        TokenKind::Not => {
            let (operand, q) = parse_unary(toks, p + 1, budget)?;
            let e = Expression::UnaryOp { op: UnaryOperator::Not, operand: Box::new(operand) };
            proof {
                lemma_prefix(toks@, p as int, q as int, UnaryOperator::Not, operand);
            }
            Ok((e, q))
        },
        _ => {
            let (e, q) = parse_postfix(toks, p, budget)?;
            proof {
                lemma_lift(toks@, p as int, q as int, e, -1);
            }
            Ok((e, q))
        },
    }
}

/// Expressions separated by optional commas, up to the closing token
/// `close`, which is taken.
fn parse_expr_list(toks: &Vec<Token>, p: usize, close: TokenKind, budget: usize) -> (r: Parsed<Vec<Expression>>)
    requires
        p <= toks@.len(),
    ensures
        moves(r, p as int, toks@.len() as int),
        r matches Ok((items, q)) ==> spells_args(toks@, p as int, q as int, items@, close),
        list_outcome(r) == args_end(toks@, p as int, close),
    decreases budget, toks@.len() - p, 21nat,
{
    let mut items: Vec<Expression> = Vec::new();
    let mut q = p;
    proof {
        lemma_args_empty(toks@, p as int);
        assert(items@ == Seq::<Expression>::empty());
    }
    while !at(toks, q, close)
        invariant
            p <= q <= toks@.len(),
            args_prefix(toks@, p as int, q as int, items@),
            args_end(toks@, p as int, close) == args_end(toks@, q as int, close),
        decreases toks@.len() - q,
    {
        let ghost a = q as int;
        let ghost old_items = items@;
        let (e, q2) = parse_expression(toks, q, budget)?;
        items.push(e);
        q = q2;
        if at(toks, q, TokenKind::Comma) {
            q = q + 1;
        }
        proof {
            lemma_args_step(toks@, p as int, a, q2 as int, q as int, old_items, e);
        }
    }
    let q3 = expect(toks, q, close)?;
    proof {
        lemma_args_close(toks@, p as int, q as int, items@, close);
    }
    Ok((items, q3))
}

/// Calls, struct literals, field and method accesses and indexing after a
/// primary expression.
#[verifier::spinoff_prover]
#[verifier::rlimit(50)]
fn parse_postfix(toks: &Vec<Token>, p: usize, budget: usize) -> (r: Parsed<Expression>)
    requires
        p <= toks@.len(),
    ensures
        moves(r, p as int, toks@.len() as int),
        r matches Ok((e, q)) ==> spells_expression(toks@, p as int, q as int, e, -1),
        outcome(r) == postfix_end(toks@, p as int),
    decreases budget, toks@.len() - p, 11nat,
{
    let (mut expr, mut q) = parse_primary(toks, p, budget)?;
    proof {
        lemma_lift(toks@, p as int, q as int, expr, -2);
    }
    loop
        invariant
            p < q <= toks@.len(),
            spells_expression(toks@, p as int, q as int, expr, -1),
            postfix_end(toks@, p as int) == calls_end(toks@, q as int, expr is Identifier),
        ensures
            p < q <= toks@.len(),
            spells_expression(toks@, p as int, q as int, expr, -1),
            postfix_end(toks@, p as int) == calls_end(toks@, q as int, expr is Identifier),
            calls_end(toks@, q as int, expr is Identifier) == Some::<(int, bool)>((q as int, expr is Identifier)),
        decreases toks@.len() - q,
    {
        let ghost m = q as int;
        let ghost e0 = expr;
        match kind_at(toks, q) {
            TokenKind::LBrace => {
                // Struct init: Name { field: value, ... }, only after a name
                if let Expression::Identifier(name) = &expr {
                    let name = name.clone();
                    let mut fields: Vec<(String, Expression)> = Vec::new();
                    let mut k = q + 1;
                    proof {
                        lemma_inits_empty(toks@, q + 1);
                        assert(fields@ == Seq::<(String, Expression)>::empty());
                    }
                    while !at(toks, k, TokenKind::RBrace)
                        invariant
                            p < q < k <= toks@.len(),
                            inits_prefix(toks@, q + 1, k as int, fields@),
                            fields_end(toks@, q + 1) == fields_end(toks@, k as int),
                            postfix_end(toks@, p as int) == calls_end(toks@, q as int, true),
                            kind_is(toks@, q as int, TokenKind::LBrace),
                        decreases toks@.len() - k,
                    {
                        let ghost a = k as int;
                        let ghost old_fields = fields@;
                        let (field_name, k2) = expect_text(toks, k, TokenKind::Identifier)?;
                        let k3 = expect(toks, k2, TokenKind::Colon)?;
                        let (field_value, k4) = parse_expression(toks, k3, budget)?;
                        fields.push((field_name, field_value));
                        k = k4;
                        if at(toks, k, TokenKind::Comma) {
                            k = k + 1;
                        }
                        proof {
                            lemma_inits_step(toks@, q + 1, a, k4 as int, k as int, old_fields, field_name, field_value);
                        }
                    }
                    q = expect(toks, k, TokenKind::RBrace)?;
                    expr = Expression::StructInit { name, fields };
                    proof {
                        lemma_inits_close(toks@, m + 1, k as int, fields@);
                        lemma_struct(toks@, p as int, m, q as int, name, fields);
                    }
                } else {
                    break;
                }
            },
            TokenKind::LParen => {
                let (args, q2) = parse_expr_list(toks, q + 1, TokenKind::RParen, budget)?;
                expr = Expression::Call { function: Box::new(expr), args };
                q = q2;
                proof {
                    lemma_call(toks@, p as int, m, q as int, e0, args);
                }
            },
            TokenKind::Dot => {
                let (field, q2) = expect_text(toks, q + 1, TokenKind::Identifier)?;
                if at(toks, q2, TokenKind::LParen) {
                    let (args, q3) = parse_expr_list(toks, q2 + 1, TokenKind::RParen, budget)?;
                    expr = Expression::MethodCall { object: Box::new(expr), method: field, args };
                    q = q3;
                    proof {
                        lemma_method(toks@, p as int, m, q as int, e0, field, args);
                    }
                } else {
                    expr = Expression::FieldAccess { object: Box::new(expr), field };
                    q = q2;
                    proof {
                        lemma_field(toks@, p as int, q as int, e0, field);
                    }
                }
            },
            TokenKind::LBracket => {
                let (index, q2) = parse_expression(toks, q + 1, budget)?;
                let q3 = expect(toks, q2, TokenKind::RBracket)?;
                expr = Expression::Index { object: Box::new(expr), index: Box::new(index) };
                q = q3;
                proof {
                    lemma_index(toks@, p as int, m, q as int, e0, index);
                }
            },
            _ => break,
        }
    }
    Ok((expr, q))
}

/// A literal, a name (or a one-parameter lambda `x => body`), a
/// parenthesized expression, a list, or `await` and an expression.
#[verifier::spinoff_prover]
#[verifier::rlimit(40)]
fn parse_primary(toks: &Vec<Token>, p: usize, budget: usize) -> (r: Parsed<Expression>)
    requires
        p <= toks@.len(),
    ensures
        moves(r, p as int, toks@.len() as int),
        r matches Ok((e, q)) ==> spells_expression(toks@, p as int, q as int, e, -2),
        outcome(r) == primary_end(toks@, p as int),
    decreases budget, toks@.len() - p, 10nat,
{
    let kind = kind_at(toks, p);
    match kind {
        TokenKind::IntLiteral => {
            match parse_int_text(&toks[p].text) {
                Ok(v) => {
                    let e = Expression::IntLiteral(v);
                    proof {
                        lemma_literal(toks@, p as int, e);
                    }
                    Ok((e, p + 1))
                },
                Err(message) => Err(invalid(toks, p, message)),
            }
        },
        TokenKind::FloatLiteral => {
            match float_text(&toks[p].text) {
                Some(t) => {
                    let e = Expression::FloatLiteral(t);
                    proof {
                        lemma_literal(toks@, p as int, e);
                    }
                    Ok((e, p + 1))
                },
                None => Err(invalid(toks, p, "invalid float literal")),
            }
        },
        TokenKind::StringLiteral => {
            let e = Expression::StringLiteral(trim_quotes(&toks[p].text));
            proof {
                lemma_literal(toks@, p as int, e);
            }
            Ok((e, p + 1))
        },
        TokenKind::True => {
            proof {
                lemma_literal(toks@, p as int, Expression::BoolLiteral(true));
            }
            Ok((Expression::BoolLiteral(true), p + 1))
        },
        TokenKind::False => {
            proof {
                lemma_literal(toks@, p as int, Expression::BoolLiteral(false));
            }
            Ok((Expression::BoolLiteral(false), p + 1))
        },
        TokenKind::NoneKw => {
            proof {
                lemma_literal(toks@, p as int, Expression::NoneLiteral);
            }
            Ok((Expression::NoneLiteral, p + 1))
        },
        TokenKind::SelfKw => {
            let e = Expression::Identifier("self".to_string());
            proof {
                lemma_literal(toks@, p as int, e);
            }
            Ok((e, p + 1))
        },
        TokenKind::FStringLiteral => {
            // the text is f"...": the part between the quotes
            let text = toks[p].text.as_str();
            let n = text.unicode_len();
            let inner = if n >= 3 {
                text.substring_char(2, n - 1)
            } else {
                ""
            };
            let parts = if inner.unicode_len() < budget {
                parse_fstring_parts(inner, budget)
            } else {
                vec![FStringPart::Literal(inner.to_string())]
            };
            let e = Expression::FString(parts);
            proof {
                lemma_literal(toks@, p as int, e);
            }
            Ok((e, p + 1))
        },
        TokenKind::Identifier => {
            let name = toks[p].text.clone();
            // Check for lambda: `x => expr`
            if at(toks, p + 1, TokenKind::FatArrow) {
                let (body, q) = parse_expression(toks, p + 2, budget)?;
                let params = vec![name];
                proof {
                    lemma_lambda(toks@, p as int, q as int, params, body);
                }
                return Ok((Expression::Lambda { params, body: Box::new(body) }, q));
            }
            let e = Expression::Identifier(name);
            proof {
                lemma_literal(toks@, p as int, e);
            }
            Ok((e, p + 1))
        },
        TokenKind::LParen => {
            let (expr, q) = parse_expression(toks, p + 1, budget)?;
            let q2 = expect(toks, q, TokenKind::RParen)?;
            proof {
                lemma_paren(toks@, p as int, q2 as int, expr);
            }
            Ok((expr, q2))
        },
        TokenKind::LBracket => {
            let (elements, q) = parse_expr_list(toks, p + 1, TokenKind::RBracket, budget)?;
            proof {
                lemma_list(toks@, p as int, q as int, elements);
            }
            Ok((Expression::List(elements), q))
        },
        TokenKind::Await => {
            let (expr, q) = parse_expression(toks, p + 1, budget)?;
            proof {
                lemma_await(toks@, p as int, q as int, expr);
            }
            Ok((Expression::Await(Box::new(expr)), q))
        },
        _ => Err(unexpected(toks, p, "expression")),
    }
}

/// Scanning `cs` from `j` with `depth` braces open: the position of the
/// brace that closes the last of them, or `none` when none does.
pub open spec fn close_from(cs: Seq<char>, j: int, depth: int, none: int) -> int
    decreases cs.len() - j,
{
    if j < 0 || j >= cs.len() {
        none
    } else if cs[j] == '{' {
        close_from(cs, j + 1, depth + 1, none)
    } else if cs[j] == '}' {
        if depth - 1 == 0 {
            j
        } else {
            close_from(cs, j + 1, depth - 1, none)
        }
    } else {
        close_from(cs, j + 1, depth, none)
    }
}

/// The position of the brace that closes the one just before `start`, or
/// `start` when none does.
fn closing_brace(cs: &Vec<char>, start: usize) -> (r: usize)
    requires
        start <= cs@.len(),
        cs@.len() < usize::MAX,
    ensures
        start <= r <= cs@.len(),
        r == start || r < cs@.len(),
        r == close_from(cs@, start as int, 1, start as int),
{
    let mut depth: usize = 1;
    let mut j = start;
    while j < cs.len()
        invariant
            start <= j <= cs@.len(),
            cs@.len() < usize::MAX,
            1 <= depth <= j - start + 1,
            close_from(cs@, j as int, depth as int, start as int) == close_from(cs@, start as int, 1, start as int),
        decreases cs@.len() - j,
    {
        if cs[j] == '{' {
            depth = depth + 1;
        } else if cs[j] == '}' {
            depth = depth - 1;
            if depth == 0 {
                return j;
            }
        }
        j = j + 1;
    }
    start
}

/// The expression that `src` holds, when it tokenizes and parses to a
/// program whose last statement is an expression.
fn parse_nested(src: &str, budget: usize) -> (r: Option<Expression>)
    requires
        src@.len() <= budget,
    ensures
        r is Some ==> src@.len() <= usize::MAX / 4 && crate::frontend::lexer::tokenize_m(src@) is Ok,
    decreases budget + 1, 0nat, 0nat,
{
    if src.unicode_len() > usize::MAX / 4 {
        return None;
    }
    match tokenize(src) {
        Err(_) => None,
        Ok(tokens) => match parse_program_with(&tokens, budget) {
            Err(_) => None,
            Ok(mut program) => match program.statements.pop() {
                Some(Statement::Expression(e)) => Some(e),
                _ => None,
            },
        },
    }
}

/// The parts of an f-string's text `cs`, scanned from `i` with the
/// current literal starting at `ls`: the text of each literal part, and
/// `None` for each part in braces.
pub open spec fn fstring_layout(cs: Seq<char>, i: int, ls: int) -> Seq<Option<Seq<char>>>
    decreases cs.len() + 1 - i,
{
    if i < 0 || i >= cs.len() {
        if 0 <= ls < cs.len() {
            seq![Some(cs.subrange(ls, cs.len() as int))]
        } else {
            Seq::empty()
        }
    } else if cs[i] == '{' {
        let lit: Seq<Option<Seq<char>>> = if 0 <= ls < i {
            seq![Some(cs.subrange(ls, i))]
        } else {
            Seq::empty()
        };
        let e = close_from(cs, i + 1, 1, i + 1);
        if i < e && e <= cs.len() {
            lit.push(None) + fstring_layout(cs, e + 1, e + 1)
        } else {
            lit.push(None)
        }
    } else {
        fstring_layout(cs, i + 1, ls)
    }
}

/// `parts` follow the layout `lay`: a literal of the same text where it has
/// one, an expression where it has a part in braces.
pub open spec fn parts_follow(parts: Seq<FStringPart>, lay: Seq<Option<Seq<char>>>) -> bool {
    &&& parts.len() == lay.len()
    &&& forall|k: int|
        0 <= k < lay.len() ==> match #[trigger] lay[k] {
            Some(text) => parts[k] matches FStringPart::Literal(s) && s@ == text,
            None => parts[k] is Expression,
        }
}

/// One more part after parts that follow a layout.
proof fn lemma_follow_push(parts: Seq<FStringPart>, lay: Seq<Option<Seq<char>>>, p: FStringPart, o: Option<Seq<char>>)
    requires
        parts_follow(parts, lay),
        match o {
            Some(text) => p matches FStringPart::Literal(s) && s@ == text,
            None => p is Expression,
        },
    ensures
        parts_follow(parts.push(p), lay.push(o)),
{
    assert forall|k: int| 0 <= k < lay.push(o).len() implies match #[trigger] lay.push(o)[k] {
        Some(text) => parts.push(p)[k] matches FStringPart::Literal(s) && s@ == text,
        None => parts.push(p)[k] is Expression,
    } by {
        if k < lay.len() {
            assert(lay.push(o)[k] == lay[k]);
            assert(parts.push(p)[k] == parts[k]);
        }
    }
}

/// The literal and expression parts of an f-string's text. An expression in
/// braces is parsed on its own; when it does not parse as one expression
/// statement it stands as a name for its trimmed text.
fn parse_fstring_parts(inner: &str, budget: usize) -> (parts: Vec<FStringPart>)
    requires
        inner@.len() < budget,
    ensures
        parts_follow(parts@, fstring_layout(inner@, 0, 0)),
    decreases budget as int, 0nat, 0nat,
{
    let cs = crate::syntax::lexer::chars_of(inner);
    let n = cs.len();
    let mut parts: Vec<FStringPart> = Vec::new();
    let mut literal_start: usize = 0;
    let mut i: usize = 0;
    let ghost mut acc: Seq<Option<Seq<char>>> = Seq::empty();
    while i < n
        invariant
            n == cs@.len(),
            cs@ == inner@,
            n < budget,
            i <= n + 1,
            literal_start <= i,
            parts_follow(parts@, acc),
            acc + fstring_layout(cs@, i as int, literal_start as int) == fstring_layout(cs@, 0, 0),
        decreases n + 1 - i,
    {
        if cs[i] == '{' {
            let ghost lay = fstring_layout(cs@, i as int, literal_start as int);
            let ghost acc0 = acc;
            // Flush literal before this brace
            if i > literal_start {
                let lit = FStringPart::Literal(inner.substring_char(literal_start, i).to_string());
                proof {
                    lemma_follow_push(parts@, acc, lit, Some(cs@.subrange(literal_start as int, i as int)));
                    acc = acc.push(Some(cs@.subrange(literal_start as int, i as int)));
                }
                parts.push(lit);
            }
            let expr_start = i + 1;
            let expr_end = closing_brace(&cs, expr_start);
            let expr_src = inner.substring_char(expr_start, expr_end);
            i = expr_end + 1;
            literal_start = i;
            let src_len = expr_src.unicode_len();
            let parsed = match parse_nested(expr_src, src_len) {
                Some(e) => e,
                None => {
                    let src_chars = crate::syntax::lexer::chars_of(expr_src);
                    Expression::Identifier(trimmed_text(expr_src, &src_chars, 0, src_len))
                },
            };
            let part = FStringPart::Expression(parsed);
            proof {
                lemma_follow_push(parts@, acc, part, None);
                acc = acc.push(None::<Seq<char>>);
                assert(acc + fstring_layout(cs@, i as int, literal_start as int) =~= acc0 + lay);
            }
            parts.push(part);
        } else {
            i = i + 1;
        }
    }
    // Remaining literal
    if literal_start < n {
        let lit = FStringPart::Literal(inner.substring_char(literal_start, n).to_string());
        proof {
            lemma_follow_push(parts@, acc, lit, Some(cs@.subrange(literal_start as int, n as int)));
            acc = acc.push(Some(cs@.subrange(literal_start as int, n as int)));
            assert(acc =~= fstring_layout(cs@, 0, 0));
        }
        parts.push(lit);
    } else {
        assert(acc =~= fstring_layout(cs@, 0, 0));
    }
    parts
}

// ── Programs and blocks ─────────────────────────────────────

/// The stream holds nothing but line breaks and comments before its end.
pub open spec fn blank_stream(toks: Seq<Token>) -> bool {
    kind_at_m(toks, noise_end(toks, 0)) == TokenKind::Eof
}

/// What is known of a parse of a whole stream: it succeeds exactly when
/// each statement in turn parses, with one statement for each; a blank
/// stream is the empty program, and only a blank stream is.
pub open spec fn program_parse(toks: Seq<Token>, r: Result<Program, ParseError>) -> bool {
    &&& (r is Ok <==> program_count(toks, noise_end(toks, 0)) is Some)
    &&& r matches Ok(prog) ==> program_count(toks, noise_end(toks, 0)) == Some(prog.statements@.len())
    &&& blank_stream(toks) ==> (r matches Ok(prog) && prog.statements@.len() == 0)
    &&& r matches Ok(prog) ==> (prog.statements@.len() == 0 <==> blank_stream(toks))
}

/// A whole program: statements up to the end of the stream.
fn parse_program_with(toks: &Vec<Token>, budget: usize) -> (r: Result<Program, ParseError>)
    ensures
        program_parse(toks@, r),
    decreases budget, toks@.len() + 1, 0nat,
{
    let mut statements: Vec<Statement> = Vec::new();
    let mut q = skip_non_doc_noise(toks, 0);
    while !at(toks, q, TokenKind::Eof)
        invariant
            q <= toks@.len(),
            statements@.len() == 0 ==> q == noise_end(toks@, 0),
            blank_stream(toks@) ==> statements@.len() == 0,
            program_count(toks@, noise_end(toks@, 0)) == match program_count(toks@, q as int) {
                Some(k) => Some((k + statements@.len()) as nat),
                None => None,
            },
        decreases toks@.len() - q,
    {
        let (stmt, q2) = parse_statement(toks, q, budget)?;
        statements.push(stmt);
        q = skip_non_doc_noise(toks, q2);
    }
    Ok(Program { statements })
}

/// An indented block: an `Indent`, statements, and the `Dedent` that
/// closes it (or the end of the stream).
fn parse_indented_block(toks: &Vec<Token>, p: usize, budget: usize) -> (r: Parsed<Vec<Statement>>)
    requires
        p <= toks@.len(),
    ensures
        moves(r, p as int, toks@.len() as int),
        reached(r) == block_end(toks@, p as int),
    decreases budget, toks@.len() - p, 47nat,
{
    let ghost t = toks@;
    let q0 = skip_non_doc_noise(toks, p);
    let mut q = expect(toks, q0, TokenKind::Indent)?;
    let mut stmts: Vec<Statement> = Vec::new();
    // Inside blocks doc comments are skipped: they only attach to
    // top-level declarations
    q = skip_newlines(toks, q);
    while !at(toks, q, TokenKind::Dedent) && !at(toks, q, TokenKind::Eof)
        invariant
            p < q <= toks@.len(),
            t == toks@,
            block_end(t, p as int) == block_stmts_end(t, q as int),
        decreases toks@.len() - q,
    {
        let (stmt, q2) = parse_statement(toks, q, budget)?;
        stmts.push(stmt);
        q = skip_newlines(toks, q2);
    }
    if at(toks, q, TokenKind::Dedent) {
        q = q + 1;
    }
    Ok((stmts, q))
}

/// A block in braces, its statements separated by optional semicolons.
fn parse_brace_block(toks: &Vec<Token>, p: usize, budget: usize) -> (r: Parsed<Vec<Statement>>)
    requires
        p <= toks@.len(),
    ensures
        moves(r, p as int, toks@.len() as int),
        reached(r) == brace_end(toks@, p as int),
    decreases budget, toks@.len() - p, 47nat,
{
    let ghost t = toks@;
    let q1 = expect(toks, p, TokenKind::LBrace)?;
    let mut stmts: Vec<Statement> = Vec::new();
    let mut q = skip_non_doc_noise(toks, q1);
    while !at(toks, q, TokenKind::RBrace) && !at(toks, q, TokenKind::Eof)
        invariant
            p < q <= toks@.len(),
            t == toks@,
            brace_end(t, p as int) == brace_stmts_end(t, q as int),
        decreases toks@.len() - q,
    {
        let (stmt, q2) = parse_statement(toks, q, budget)?;
        stmts.push(stmt);
        q = q2;
        // In brace mode, semicolons separate statements
        if at(toks, q, TokenKind::Semicolon) {
            q = q + 1;
        }
        q = skip_newlines(toks, q);
    }
    let q3 = expect(toks, q, TokenKind::RBrace)?;
    Ok((stmts, q3))
}

// ── Statements ──────────────────────────────────────────────

/// A statement, with the doc comments before it for a declaration.
pub fn parse_statement(toks: &Vec<Token>, p: usize, budget: usize) -> (r: Parsed<Statement>)
    requires
        p <= toks@.len(),
    ensures
        moves(r, p as int, toks@.len() as int),
        kind_at_m(toks@, noise_end(toks@, p as int)) == TokenKind::Break ==> (r matches Ok((st, q)) && st
            is Break && q == noise_end(toks@, p as int) + 1),
        kind_at_m(toks@, noise_end(toks@, p as int)) == TokenKind::Continue ==> (r matches Ok((st, q)) && st
            is Continue && q == noise_end(toks@, p as int) + 1),
        reached(r) == stmt_end(toks@, p as int),
    decreases budget, toks@.len() - p, 50nat,
{
    let q0 = skip_non_doc_noise(toks, p);
    // Doc comments precede declarations
    let (doc, q) = if at(toks, q0, TokenKind::DocComment) {
        collect_doc_comments(toks, q0)
    } else {
        (None, q0)
    };
    match kind_at(toks, q) {
        TokenKind::At => parse_decorated(toks, q, doc, budget),
        TokenKind::Fn => parse_function_def(toks, q, Vec::new(), false, doc, budget),
        TokenKind::Pure => parse_function_def(toks, q + 1, Vec::new(), false, doc, budget),
        TokenKind::Pub => parse_pub_item(toks, q, doc, budget),
        TokenKind::Let => parse_let_binding(toks, q, false, budget),
        TokenKind::Const => parse_const_binding(toks, q, budget),
        TokenKind::If => parse_if(toks, q, budget),
        TokenKind::For => parse_for(toks, q, budget),
        TokenKind::While => parse_while(toks, q, budget),
        TokenKind::Return => parse_return(toks, q, budget),
        TokenKind::Require => {
            let (e, q2) = parse_expression(toks, q + 1, budget)?;
            Ok((Statement::Require(e), q2))
        },
        TokenKind::Ensure => {
            let (e, q2) = parse_expression(toks, q + 1, budget)?;
            Ok((Statement::Ensure(e), q2))
        },
        TokenKind::Struct => parse_struct(toks, q, false, doc, budget),
        TokenKind::Enum => parse_enum(toks, q, false, doc),
        TokenKind::Trait => parse_trait(toks, q, false, doc, budget),
        TokenKind::Impl => parse_impl(toks, q, budget),
        TokenKind::Import => parse_import(toks, q, budget),
        TokenKind::Match => parse_match(toks, q, budget),
        TokenKind::Break => Ok((Statement::Break, q + 1)),
        TokenKind::Continue => Ok((Statement::Continue, q + 1)),
        _ => parse_expression_statement(toks, q, budget),
    }
}

/// Decorators `@name` or `@name(args)`, each on its own line, then the
/// function or struct they decorate.
fn parse_decorated(toks: &Vec<Token>, p: usize, doc: Option<String>, budget: usize) -> (r: Parsed<Statement>)
    requires
        p <= toks@.len(),
    ensures
        moves(r, p as int, toks@.len() as int),
        reached(r) == decorators_end(toks@, p as int),
    decreases budget, toks@.len() - p, 49nat,
{
    let ghost t = toks@;
    let mut decorators: Vec<Decorator> = Vec::new();
    let mut q = p;
    while at(toks, q, TokenKind::At)
        invariant
            p <= q <= toks@.len(),
            t == toks@,
            decorators_end(t, p as int) == decorators_end(t, q as int),
        decreases toks@.len() - q,
    {
        let (name, q2) = expect_text(toks, q + 1, TokenKind::Identifier)?;
        let (args, q3) = if at(toks, q2, TokenKind::LParen) {
            parse_expr_list(toks, q2 + 1, TokenKind::RParen, budget)?
        } else {
            (Vec::new(), q2)
        };
        decorators.push(Decorator { name, args });
        q = skip_newlines(toks, q3);
    }
    match kind_at(toks, q) {
        TokenKind::Fn => parse_function_def(toks, q, decorators, false, doc, budget),
        TokenKind::Pure => parse_function_def(toks, q + 1, decorators, false, doc, budget),
        TokenKind::Struct => parse_struct(toks, q, false, doc, budget),
        TokenKind::Pub => {
            // pub after decorators
            match kind_at(toks, q + 1) {
                TokenKind::Fn => parse_function_def(toks, q + 1, decorators, true, doc, budget),
                TokenKind::Pure => parse_function_def(toks, q + 2, decorators, true, doc, budget),
                TokenKind::Struct => parse_struct(toks, q + 1, true, doc, budget),
                _ => Err(invalid(toks, q + 1, "decorator + pub must be followed by fn or struct")),
            }
        },
        _ => Err(invalid(toks, q, "decorator must be followed by fn or struct")),
    }
}

/// `pub` and the function, struct, enum or trait it makes public.
fn parse_pub_item(toks: &Vec<Token>, p: usize, doc: Option<String>, budget: usize) -> (r: Parsed<Statement>)
    requires
        p < toks@.len(),
        toks@.len() <= usize::MAX,
    ensures
        moves(r, p as int, toks@.len() as int),
        reached(r) == pub_end(toks@, p as int),
    decreases budget, toks@.len() - p, 49nat,
{
    let q = p + 1;
    match kind_at(toks, q) {
        TokenKind::Fn => parse_function_def(toks, q, Vec::new(), true, doc, budget),
        TokenKind::Pure => parse_function_def(toks, q + 1, Vec::new(), true, doc, budget),
        TokenKind::Struct => parse_struct(toks, q, true, doc, budget),
        TokenKind::Enum => parse_enum(toks, q, true, doc),
        TokenKind::Trait => parse_trait(toks, q, true, doc, budget),
        _ => Err(invalid(toks, q, "pub must be followed by fn, struct, enum, or trait")),
    }
}

/// `fn name(params) -> T [effects]` and a body: an indented block, a block
/// in braces, or none (a trait method's signature).
fn parse_function_def(
    toks: &Vec<Token>,
    p: usize,
    decorators: Vec<Decorator>,
    is_pub: bool,
    doc_comment: Option<String>,
    budget: usize,
) -> (r: Parsed<Statement>)
    requires
        p <= toks@.len(),
    ensures
        moves(r, p as int, toks@.len() as int),
        reached(r) == fn_end(toks@, p as int),
    decreases budget, toks@.len() - p, 48nat,
{
    let ghost t = toks@;
    let q1 = expect(toks, p, TokenKind::Fn)?;
    let (name, q2) = expect_text(toks, q1, TokenKind::Identifier)?;
    // Parameters
    let mut q = expect(toks, q2, TokenKind::LParen)?;
    let mut params: Vec<Parameter> = Vec::new();
    while !at(toks, q, TokenKind::RParen)
        invariant
            p < q <= toks@.len(),
            t == toks@,
            is_at(t, p as int, TokenKind::Fn) && is_at(t, p + 1, TokenKind::Identifier) && is_at(t, p + 2, TokenKind::LParen),
            params_end(t, p + 3) == params_end(t, q as int),
        decreases toks@.len() - q,
    {
        // Allow `self` keyword as parameter name
        let (pname, k) = if at(toks, q, TokenKind::SelfKw) {
            ("self".to_string(), q + 1)
        } else {
            expect_text(toks, q, TokenKind::Identifier)?
        };
        // `self` alone has no type annotation
        let (ptype, k2) = if at(toks, k, TokenKind::Colon) {
            parse_type(toks, k + 1)?
        } else {
            (TypeExpr::Named("Self".to_string()), k)
        };
        params.push(Parameter { name: pname, type_annotation: ptype, default: None });
        q = k2;
        if at(toks, q, TokenKind::Comma) {
            q = q + 1;
        }
    }
    q = expect(toks, q, TokenKind::RParen)?;
    let ghost a = q as int;
    assert(params_end(t, p + 3) == Some(a));
    // Return type
    let return_type = if at(toks, q, TokenKind::Arrow) {
        let (t, k) = parse_type(toks, q + 1)?;
        q = k;
        Some(t)
    } else {
        None
    };
    // Effect annotations [io, error]
    let mut effects: Vec<String> = Vec::new();
    let ghost b = q as int;
    if at(toks, q, TokenKind::LBracket) {
        q = q + 1;
        while !at(toks, q, TokenKind::RBracket)
            invariant
                p < b < q <= toks@.len(),
                t == toks@,
                effects_end(t, b + 1) == effects_end(t, q as int),
                is_at(t, p as int, TokenKind::Fn) && is_at(t, p + 1, TokenKind::Identifier) && is_at(t, p + 2, TokenKind::LParen),
                params_end(t, p + 3) == Some(a),
                (if is_at(t, a, TokenKind::Arrow) {
                    type_end(t, a + 1)
                } else {
                    Some(a)
                }) == Some(b),
                is_at(t, b, TokenKind::LBracket),
            decreases toks@.len() - q,
        {
            let (e, k) = expect_text(toks, q, TokenKind::Identifier)?;
            effects.push(e);
            q = k;
            if at(toks, q, TokenKind::Comma) {
                q = q + 1;
            }
        }
        q = expect(toks, q, TokenKind::RBracket)?;
    }
    // Body: `:` and an indented block, `{` inline `}`, or absent
    let (body, q_end) = if at(toks, q, TokenKind::Colon) {
        parse_indented_block(toks, q + 1, budget)?
    } else if at(toks, q, TokenKind::LBrace) {
        parse_brace_block(toks, q, budget)?
    } else if matches!(kind_at(toks, q), TokenKind::Newline | TokenKind::Dedent | TokenKind::Eof) {
        // Trait method signature: no body
        (Vec::new(), q)
    } else {
        return Err(invalid(toks, q, "expected ':' or '{' after function signature"));
    };
    Ok((Statement::FunctionDef { name, params, return_type, effects, body, decorators, is_pub, doc_comment }, q_end))
}

/// `let [mut] name [: T] [= value]`; without a value (allowed only where
/// `require_value` is false) the value is `none`.
fn parse_let_binding(toks: &Vec<Token>, p: usize, require_value: bool, budget: usize) -> (r: Parsed<Statement>)
    requires
        p <= toks@.len(),
    ensures
        moves(r, p as int, toks@.len() as int),
        reached(r) == let_end(toks@, p as int, require_value),
    decreases budget, toks@.len() - p, 48nat,
{
    let mut q = expect(toks, p, TokenKind::Let)?;
    let mutable = if at(toks, q, TokenKind::Mut) {
        q = q + 1;
        true
    } else {
        false
    };
    let (name, q2) = expect_text(toks, q, TokenKind::Identifier)?;
    q = q2;
    let type_annotation = if at(toks, q, TokenKind::Colon) {
        let (t, k) = parse_type(toks, q + 1)?;
        q = k;
        Some(t)
    } else {
        None
    };
    // Value is optional in struct field declarations
    let value = if at(toks, q, TokenKind::Assign) {
        let (v, k) = parse_expression(toks, q + 1, budget)?;
        q = k;
        v
    } else if !require_value {
        Expression::NoneLiteral
    } else {
        return Err(invalid(toks, q, "expected '=' in let binding"));
    };
    Ok((Statement::LetBinding { name, type_annotation, value, mutable }, q))
}

/// `const NAME [: T] = value`.
fn parse_const_binding(toks: &Vec<Token>, p: usize, budget: usize) -> (r: Parsed<Statement>)
    requires
        p <= toks@.len(),
    ensures
        moves(r, p as int, toks@.len() as int),
        reached(r) == const_end(toks@, p as int),
    decreases budget, toks@.len() - p, 48nat,
{
    let q1 = expect(toks, p, TokenKind::Const)?;
    let (name, mut q) = expect_text(toks, q1, TokenKind::Identifier)?;
    let type_annotation = if at(toks, q, TokenKind::Colon) {
        let (t, k) = parse_type(toks, q + 1)?;
        q = k;
        Some(t)
    } else {
        None
    };
    let q2 = expect(toks, q, TokenKind::Assign)?;
    let (value, q3) = parse_expression(toks, q2, budget)?;
    Ok((Statement::ConstBinding { name, type_annotation, value }, q3))
}

/// `if c: block`, then `elif c: block` clauses and an `else: block`.
#[verifier::spinoff_prover]
#[verifier::rlimit(40)]
fn parse_if(toks: &Vec<Token>, p: usize, budget: usize) -> (r: Parsed<Statement>)
    requires
        p <= toks@.len(),
    ensures
        moves(r, p as int, toks@.len() as int),
        reached(r) == if_end(toks@, p as int),
    decreases budget, toks@.len() - p, 48nat,
{
    let ghost t = toks@;
    let q1 = expect(toks, p, TokenKind::If)?;
    let (condition, q2) = parse_expression(toks, q1, budget)?;
    let q3 = expect(toks, q2, TokenKind::Colon)?;
    let (body, q4) = parse_indented_block(toks, q3, budget)?;
    let mut elif_clauses: Vec<(Expression, Vec<Statement>)> = Vec::new();
    let mut q = skip_newlines(toks, q4);
    let ghost e0 = q as int;
    assert(if_end(t, p as int) == else_end(t, p as int, elifs_end(t, e0)));
    while at(toks, q, TokenKind::Elif)
        invariant
            p < q <= toks@.len(),
            t == toks@,
            elifs_end(t, e0) == elifs_end(t, q as int),
            if_end(t, p as int) == else_end(t, p as int, elifs_end(t, e0)),
            p < e0 <= q,
        decreases toks@.len() - q,
    {
        let (elif_cond, k1) = parse_expression(toks, q + 1, budget)?;
        let k2 = expect(toks, k1, TokenKind::Colon)?;
        let (elif_body, k3) = parse_indented_block(toks, k2, budget)?;
        elif_clauses.push((elif_cond, elif_body));
        q = skip_newlines(toks, k3);
    }
    let else_body = if at(toks, q, TokenKind::Else) {
        let k1 = expect(toks, q + 1, TokenKind::Colon)?;
        let (b, k2) = parse_indented_block(toks, k1, budget)?;
        q = k2;
        Some(b)
    } else {
        None
    };
    Ok((Statement::If { condition, body, elif_clauses, else_body }, q))
}

/// `for x in iterable: block`.
fn parse_for(toks: &Vec<Token>, p: usize, budget: usize) -> (r: Parsed<Statement>)
    requires
        p <= toks@.len(),
    ensures
        moves(r, p as int, toks@.len() as int),
        reached(r) == for_end(toks@, p as int),
    decreases budget, toks@.len() - p, 48nat,
{
    let q1 = expect(toks, p, TokenKind::For)?;
    let (variable, q2) = expect_text(toks, q1, TokenKind::Identifier)?;
    let q3 = expect(toks, q2, TokenKind::In)?;
    let (iterable, q4) = parse_expression(toks, q3, budget)?;
    let q5 = expect(toks, q4, TokenKind::Colon)?;
    let (body, q6) = parse_indented_block(toks, q5, budget)?;
    Ok((Statement::ForLoop { variable, iterable, body }, q6))
}

/// `while c: block`.
fn parse_while(toks: &Vec<Token>, p: usize, budget: usize) -> (r: Parsed<Statement>)
    requires
        p <= toks@.len(),
    ensures
        moves(r, p as int, toks@.len() as int),
        reached(r) == while_end(toks@, p as int),
    decreases budget, toks@.len() - p, 48nat,
{
    let q1 = expect(toks, p, TokenKind::While)?;
    let (condition, q2) = parse_expression(toks, q1, budget)?;
    let q3 = expect(toks, q2, TokenKind::Colon)?;
    let (body, q4) = parse_indented_block(toks, q3, budget)?;
    Ok((Statement::WhileLoop { condition, body }, q4))
}

/// `return`, with a value unless the line or block ends there.
fn parse_return(toks: &Vec<Token>, p: usize, budget: usize) -> (r: Parsed<Statement>)
    requires
        p < toks@.len(),
        toks@.len() <= usize::MAX,
    ensures
        moves(r, p as int, toks@.len() as int),
        reached(r) == return_end(toks@, p as int),
    decreases budget, toks@.len() - p, 48nat,
{
    let q = p + 1;
    if at(toks, q, TokenKind::Newline) || at(toks, q, TokenKind::Eof) || at(toks, q, TokenKind::Dedent) {
        Ok((Statement::Return(None), q))
    } else {
        let (e, q2) = parse_expression(toks, q, budget)?;
        Ok((Statement::Return(Some(e)), q2))
    }
}

/// `struct Name:` and a block of `let` field declarations; a field without
/// a type has type `any`, and one without a value has no default.
fn parse_struct(toks: &Vec<Token>, p: usize, is_pub: bool, doc_comment: Option<String>, budget: usize) -> (r: Parsed<Statement>)
    requires
        p <= toks@.len(),
    ensures
        moves(r, p as int, toks@.len() as int),
        reached(r) == struct_end(toks@, p as int),
    decreases budget, toks@.len() - p, 48nat,
{
    let q1 = expect(toks, p, TokenKind::Struct)?;
    let (name, q2) = expect_text(toks, q1, TokenKind::Identifier)?;
    let q3 = expect(toks, q2, TokenKind::Colon)?;
    let (mut body, q4) = parse_indented_block(toks, q3, budget)?;
    let mut fields: Vec<Field> = Vec::new();
    while body.len() > 0
        decreases body@.len(),
    {
        let stmt = body.remove(0);
        if let Statement::LetBinding { name, type_annotation, value, .. } = stmt {
            // `none` signals "no default" for fields without `= value`
            let default = match value {
                Expression::NoneLiteral => None,
                other => Some(other),
            };
            let ty = match type_annotation {
                Some(t) => t,
                None => TypeExpr::Named("any".to_string()),
            };
            fields.push(Field { name, type_annotation: ty, default, is_pub: true });
        }
    }
    Ok((Statement::StructDef { name, fields, is_pub, doc_comment }, q4))
}

/// A variant's payload types, `T` or `name: T`, up to `)`.
fn parse_variant_fields(toks: &Vec<Token>, p: usize) -> (r: Parsed<Vec<TypeExpr>>)
    requires
        p <= toks@.len(),
    ensures
        moves(r, p as int, toks@.len() as int),
        reached(r) == variant_fields_end(toks@, p as int),
{
    let ghost t = toks@;
    let mut types: Vec<TypeExpr> = Vec::new();
    let mut q = p;
    while !at(toks, q, TokenKind::RParen)
        invariant
            p <= q <= toks@.len(),
            t == toks@,
            variant_fields_end(t, p as int) == variant_fields_end(t, q as int),
        decreases toks@.len() - q,
    {
        // Allow `name: Type` or just `Type`
        let (t, k) = if at(toks, q, TokenKind::Identifier) && at(toks, q + 1, TokenKind::Colon) {
            parse_type(toks, q + 2)?
        } else {
            parse_type(toks, q)?
        };
        types.push(t);
        q = k;
        if at(toks, q, TokenKind::Comma) {
            q = q + 1;
        }
    }
    let q2 = expect(toks, q, TokenKind::RParen)?;
    Ok((types, q2))
}

/// `enum Name[T, ...]:` and an indented run of `case Variant(payload)`.
fn parse_enum(toks: &Vec<Token>, p: usize, is_pub: bool, doc_comment: Option<String>) -> (r: Parsed<Statement>)
    requires
        p <= toks@.len(),
    ensures
        moves(r, p as int, toks@.len() as int),
        reached(r) == enum_end(toks@, p as int),
{
    let ghost t = toks@;
    let q1 = expect(toks, p, TokenKind::Enum)?;
    let (name, mut q) = expect_text(toks, q1, TokenKind::Identifier)?;
    // Optional generic type parameters: enum Result[T, E]:
    if at(toks, q, TokenKind::LBracket) {
        q = q + 1;
        while !at(toks, q, TokenKind::RBracket)
            invariant
                p < q <= toks@.len(),
                t == toks@,
                type_params_end(t, p + 3) == type_params_end(t, q as int),
                is_at(t, p as int, TokenKind::Enum) && is_at(t, p + 1, TokenKind::Identifier) && is_at(t, p + 2, TokenKind::LBracket),
            decreases toks@.len() - q,
        {
            let (_, k) = expect_text(toks, q, TokenKind::Identifier)?;
            q = k;
            if at(toks, q, TokenKind::Comma) {
                q = q + 1;
            }
        }
        q = expect(toks, q, TokenKind::RBracket)?;
    }
    q = expect(toks, q, TokenKind::Colon)?;
    q = skip_newlines(toks, q);
    q = expect(toks, q, TokenKind::Indent)?;
    q = skip_newlines(toks, q);
    let ghost j0 = q as int;
    assert(enum_end(t, p as int) == cases_end(t, j0));
    let mut variants: Vec<EnumVariant> = Vec::new();
    while !at(toks, q, TokenKind::Dedent) && !at(toks, q, TokenKind::Eof)
        invariant
            p < q <= toks@.len(),
            t == toks@,
            cases_end(t, j0) == cases_end(t, q as int),
            enum_end(t, p as int) == cases_end(t, j0),
        decreases toks@.len() - q,
    {
        let q_before = q;
        if at(toks, q, TokenKind::Case) {
            let (vname, k) = expect_text(toks, q + 1, TokenKind::Identifier)?;
            // Optional payload: case Some(T) or case Ok(value: T)
            let (fields, k2) = if at(toks, k, TokenKind::LParen) {
                let (ts, k3) = parse_variant_fields(toks, k + 1)?;
                (Some(ts), k3)
            } else {
                (None, k)
            };
            variants.push(EnumVariant { name: vname, fields });
            q = k2;
        }
        q = skip_newlines(toks, q);
        if q == q_before {
            // Neither a variant nor a line break: no progress is possible
            return Err(invalid(toks, q, "expected 'case' in enum body"));
        }
    }
    if at(toks, q, TokenKind::Dedent) {
        q = q + 1;
    }
    Ok((Statement::EnumDef { name, variants, is_pub, doc_comment }, q))
}

/// `trait Name:` and a block; the methods of the block are not kept.
fn parse_trait(toks: &Vec<Token>, p: usize, is_pub: bool, doc_comment: Option<String>, budget: usize) -> (r: Parsed<Statement>)
    requires
        p <= toks@.len(),
    ensures
        moves(r, p as int, toks@.len() as int),
        reached(r) == trait_end(toks@, p as int),
    decreases budget, toks@.len() - p, 48nat,
{
    let q1 = expect(toks, p, TokenKind::Trait)?;
    let (name, q2) = expect_text(toks, q1, TokenKind::Identifier)?;
    let q3 = expect(toks, q2, TokenKind::Colon)?;
    let (_body, q4) = parse_indented_block(toks, q3, budget)?;
    Ok((Statement::TraitDef { name, methods: Vec::new(), is_pub, doc_comment }, q4))
}

/// `impl [Trait for] Type:` and a block of methods.
fn parse_impl(toks: &Vec<Token>, p: usize, budget: usize) -> (r: Parsed<Statement>)
    requires
        p <= toks@.len(),
    ensures
        moves(r, p as int, toks@.len() as int),
        reached(r) == impl_end(toks@, p as int),
    decreases budget, toks@.len() - p, 48nat,
{
    let q1 = expect(toks, p, TokenKind::Impl)?;
    let (first, q2) = expect_text(toks, q1, TokenKind::Identifier)?;
    let (trait_name, target_type, q3) = if at(toks, q2, TokenKind::For) {
        let (target, k) = expect_text(toks, q2 + 1, TokenKind::Identifier)?;
        (Some(first), target, k)
    } else {
        (None, first, q2)
    };
    let q4 = expect(toks, q3, TokenKind::Colon)?;
    let (body, q5) = parse_indented_block(toks, q4, budget)?;
    Ok((Statement::ImplBlock { trait_name, target_type, methods: body }, q5))
}

/// `import a.b.c`, or `import foreign("header.h", lang: "c", items: [...])`.
fn parse_import(toks: &Vec<Token>, p: usize, budget: usize) -> (r: Parsed<Statement>)
    requires
        p <= toks@.len(),
    ensures
        moves(r, p as int, toks@.len() as int),
        reached(r) == import_end(toks@, p as int),
    decreases budget, toks@.len() - p, 48nat,
{
    let ghost t = toks@;
    let q1 = expect(toks, p, TokenKind::Import)?;
    if at(toks, q1, TokenKind::Foreign) {
        let q2 = expect(toks, q1 + 1, TokenKind::LParen)?;
        let (path_text, mut q) = expect_text(toks, q2, TokenKind::StringLiteral)?;
        let path = trim_quotes(&path_text);
        let mut lang = "c".to_string();
        let mut items: Option<Vec<String>> = None;
        // Optional named arguments
        while at(toks, q, TokenKind::Comma)
            invariant
                p < q <= toks@.len(),
                t == toks@,
                foreign_args_end(t, p + 4) == foreign_args_end(t, q as int),
                import_end(t, p as int) == foreign_args_end(t, p + 4),
            decreases toks@.len() - q,
        {
            let (key, k1) = expect_text(toks, q + 1, TokenKind::Identifier)?;
            let k2 = expect(toks, k1, TokenKind::Colon)?;
            if spells(&key, "lang") {
                let (l, k3) = expect_text(toks, k2, TokenKind::StringLiteral)?;
                lang = trim_quotes(&l);
                q = k3;
            } else if spells(&key, "items") {
                let mut k = expect(toks, k2, TokenKind::LBracket)?;
                let ghost k0 = k as int;
                let mut item_list: Vec<String> = Vec::new();
                while !at(toks, k, TokenKind::RBracket)
                    invariant
                        p < q < k0 <= k <= toks@.len(),
                        t == toks@,
                        str_items_end(t, k0) == str_items_end(t, k as int),
                        import_end(t, p as int) == foreign_args_end(t, p + 4),
                        foreign_args_end(t, p + 4) == foreign_args_end(t, q as int),
                        k0 == q + 4 && is_at(t, q as int, TokenKind::Comma) && is_at(t, q + 1, TokenKind::Identifier)
                            && is_at(t, q + 2, TokenKind::Colon) && is_at(t, q + 3, TokenKind::LBracket),
                        t[q + 1].text@ == "items"@,
                    decreases toks@.len() - k,
                {
                    let (it, k4) = expect_text(toks, k, TokenKind::StringLiteral)?;
                    item_list.push(trim_quotes(&it));
                    k = k4;
                    if at(toks, k, TokenKind::Comma) {
                        k = k + 1;
                    }
                }
                q = expect(toks, k, TokenKind::RBracket)?;
                items = Some(item_list);
            } else {
                let (_, k3) = parse_expression(toks, k2, budget)?;
                q = k3;
            }
        }
        let q_end = expect(toks, q, TokenKind::RParen)?;
        return Ok((Statement::ForeignImport { path, lang, items }, q_end));
    }
    let (first, mut q) = expect_text(toks, q1, TokenKind::Identifier)?;
    let mut path: Vec<String> = vec![first];
    while at(toks, q, TokenKind::Dot)
        invariant
            p < q <= toks@.len(),
            t == toks@,
            dotted_end(t, p + 2) == dotted_end(t, q as int),
            import_end(t, p as int) == dotted_end(t, p + 2),
        decreases toks@.len() - q,
    {
        let (part, k) = expect_text(toks, q + 1, TokenKind::Identifier)?;
        path.push(part);
        q = k;
    }
    Ok((Statement::Import { path, items: None }, q))
}

/// `match subject:` and an indented run of `case pattern: block`; a pattern
/// is `_` or an expression.
fn parse_match(toks: &Vec<Token>, p: usize, budget: usize) -> (r: Parsed<Statement>)
    requires
        p <= toks@.len(),
    ensures
        moves(r, p as int, toks@.len() as int),
        reached(r) == match_end(toks@, p as int),
    decreases budget, toks@.len() - p, 48nat,
{
    let ghost t = toks@;
    let q1 = expect(toks, p, TokenKind::Match)?;
    let (subject, q2) = parse_expression(toks, q1, budget)?;
    let mut q = expect(toks, q2, TokenKind::Colon)?;
    q = skip_newlines(toks, q);
    q = expect(toks, q, TokenKind::Indent)?;
    q = skip_newlines(toks, q);
    let ghost j0 = q as int;
    assert(match_end(t, p as int) == arms_end(t, j0));
    let mut arms: Vec<MatchArm> = Vec::new();
    while !at(toks, q, TokenKind::Dedent) && !at(toks, q, TokenKind::Eof)
        invariant
            p < q <= toks@.len(),
            t == toks@,
            arms_end(t, j0) == arms_end(t, q as int),
            match_end(t, p as int) == arms_end(t, j0),
        decreases toks@.len() - q,
    {
        let q_before = q;
        if at(toks, q, TokenKind::Case) {
            let k = q + 1;
            let (pattern, k2) = if at(toks, k, TokenKind::Identifier) && spells(&toks[k].text, "_") {
                (Pattern::Wildcard, k + 1)
            } else {
                let (e, k3) = parse_expression(toks, k, budget)?;
                (Pattern::Literal(e), k3)
            };
            let k4 = expect(toks, k2, TokenKind::Colon)?;
            let (body, k5) = parse_indented_block(toks, k4, budget)?;
            arms.push(MatchArm { pattern, guard: None, body });
            q = k5;
        }
        q = skip_newlines(toks, q);
        if q == q_before {
            // Neither an arm nor a line break: no progress is possible
            return Err(invalid(toks, q, "expected 'case' in match body"));
        }
    }
    if at(toks, q, TokenKind::Dedent) {
        q = q + 1;
    }
    Ok((Statement::Match { subject, arms }, q))
}

/// An expression, or an assignment `target = value`.
fn parse_expression_statement(toks: &Vec<Token>, p: usize, budget: usize) -> (r: Parsed<Statement>)
    requires
        p <= toks@.len(),
    ensures
        moves(r, p as int, toks@.len() as int),
        reached(r) == exprstmt_end(toks@, p as int),
    decreases budget, toks@.len() - p, 48nat,
{
    let (expr, q) = parse_expression(toks, p, budget)?;
    // Check for assignment
    if at(toks, q, TokenKind::Assign) {
        let (value, q2) = parse_expression(toks, q + 1, budget)?;
        return Ok((Statement::Assignment { target: expr, value }, q2));
    }
    Ok((Statement::Expression(expr), q))
}

// ── The parser ──────────────────────────────────────────────

/// The Nova parser: transforms a token stream into a syntax tree.
pub struct Parser {
    tokens: Vec<Token>,
    pos: usize,
}

/// Parse a token stream into a Nova syntax tree.
pub fn parse(tokens: Vec<Token>) -> (r: Result<Program, ParseError>)
    ensures
        program_parse(tokens@, r),
{
    let mut parser = Parser::new(tokens);
    parser.parse_program()
}

impl Parser {
    /// The token stream.
    pub closed spec fn stream(&self) -> Seq<Token> {
        self.tokens@
    }

    /// The position reached in the stream.
    pub closed spec fn position(&self) -> usize {
        self.pos
    }

    pub fn new(tokens: Vec<Token>) -> (r: Self)
        ensures
            r.stream() == tokens@,
            r.position() == 0,
    {
        Self { tokens, pos: 0 }
    }

    /// Parse the whole stream into a program.
    pub fn parse_program(&mut self) -> (r: Result<Program, ParseError>)
        ensures
            program_parse(old(self).stream(), r),
            final(self).stream() == old(self).stream(),
            final(self).position() == old(self).stream().len(),
    {
        let r = parse_program_with(&self.tokens, usize::MAX);
        self.pos = self.tokens.len();
        r
    }
}

} // verus!
