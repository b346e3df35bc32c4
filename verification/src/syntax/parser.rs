//! The parser: tokens with block markers to the syntax tree.
//!
//! Expressions bind, loosest first: `||`, `&&`, `==` `!=`, `<` `<=` `>`
//! `>=`, `+` `-`, `*` `/` `%`, prefix `-` `!`, then calls, field accesses
//! and indexing; all binary operators associate to the left. Statements of a
//! block are separated by line breaks. An item that does not parse is
//! reported, the parser skips to the next top-level line, and goes on.
use vstd::prelude::*;
use crate::syntax::ast::{
    BinOp, Decorator, DecoratorArg, Expr, Function, ImportDecl, Item, ModuleDecl, Param, Program,
    RuntimeConfig, Stmt, StructDecl, StructField, TypeExpr, UnaryOp,
};
use crate::syntax::span::Span;
use crate::syntax::token::Token;
use crate::syntax::lexer::{LexError, error_values, errors_of, lex, lex_from, token_values, tokens_of};
use crate::syntax::preprocess::{layout_from, preprocess};
use crate::check::types::spells;
use crate::syntax::grammar::{
    assign_of, between, binop_of, block_prefix, closes, elifs_prefix, list_prefix, literal, merge_m,
    nl_end, prefixed, span_of, spells_annotation, spells_block, spells_expr, spells_list, spells_named,
    spells_stmt, spells_type, unop_of, dec_args_prefix, decorators_prefix, entries_prefix, fields_prefix,
    import_path, module_prefix, params_prefix, spells_dec_arg, spells_dec_args, spells_decorator,
    spells_entry, spells_field, spells_fields, spells_function, spells_item, spells_module_items,
    spells_param, spells_params, spelled_item, Ending, expr_end, ops_end, unary_end, postfix_end, calls_end,
    primary_end, list_end, items_end, named_end, type_end, annotation_end, binding_end, stmt_end, if_end,
    elifs_end, block_end, stmts_end, fail_at, dec_args_end, decorators_end, param_end, params_end,
    function_end, fields_rest_end, fields_end, entries_end, path_end, import_end, item_end,
    module_body_end, module_rest_end,
};

verus! {

broadcast use vstd::std_specs::vec::group_vec_axioms;

/// A token stream with spans.
pub type Toks = Vec<(Token, Span)>;

/// Where and why parsing failed: the position of the offending token (the
/// length of the stream at its end) and what was expected there.
pub type Fail = (usize, &'static str);

/// A parse of something that takes at least one token: its value and the
/// position after it.
pub type Parsed<T> = Result<(T, usize), Fail>;

/// A successful parse from `pos` moves forward within the stream; a failure
/// points into the stream or at its end.
pub open spec fn advances<T>(r: Parsed<T>, pos: int, len: int) -> bool {
    match r {
        Ok((_, p)) => pos < p <= len,
        Err((at, _)) => at <= len,
    }
}

/// Where a parse ends, or where and why it failed.
pub open spec fn ending<T>(r: Parsed<T>) -> Ending {
    match r {
        Ok((_, q)) => Ok(q as int),
        Err(f) => Err(f),
    }
}

/// The span from the start of `a` to the end of `b`.
pub fn merge(a: Span, b: Span) -> (r: Span)
    ensures
        r == merge_m(a, b),
        r.start == if a.start <= b.start {
            a.start
        } else {
            b.start
        },
        r.end == if a.end >= b.end {
            a.end
        } else {
            b.end
        },
{
    Span {
        start: if a.start <= b.start {
            a.start
        } else {
            b.start
        },
        end: if a.end >= b.end {
            a.end
        } else {
            b.end
        },
    }
}

/// The span of an expression.
pub fn expr_span(e: &Expr) -> (r: Span)
    ensures
        r == span_of(*e),
{
    match e {
        Expr::Int(_, sp) => *sp,
        Expr::Float(_, sp) => *sp,
        Expr::Str(_, sp) => *sp,
        Expr::Bool(_, sp) => *sp,
        Expr::Ident(_, sp) => *sp,
        Expr::Array(_, sp) => *sp,
        Expr::FStr(_, sp) => *sp,
        Expr::BinOp { span, .. } => *span,
        Expr::UnaryOp { span, .. } => *span,
        Expr::Call { span, .. } => *span,
        Expr::Field { span, .. } => *span,
        Expr::Index { span, .. } => *span,
    }
}

/// The span from token `a` to token `b` (inclusive).
fn span_between(toks: &Toks, a: usize, b: usize) -> (r: Span)
    requires
        a < toks@.len(),
        b < toks@.len(),
    ensures
        r == between(toks@, a as int, b as int),
{
    Span { start: toks[a].1.start, end: toks[b].1.end }
}

/// Whether token `p` is a line break.
fn is_newline(toks: &Toks, p: usize) -> (r: bool)
    ensures
        r == (p < toks@.len() && toks@[p as int].0 is Newline),
        toks@.len() <= usize::MAX,
{
    let n = toks.len();
    p < n && matches!(toks[p].0, Token::Newline)
}

/// The position after any line breaks at `p`.
fn skip_newlines(toks: &Toks, p: usize) -> (q: usize)
    requires
        p <= toks@.len(),
    ensures
        p <= q <= toks@.len(),
        q == nl_end(toks@, p as int),
{
    let mut q = p;
    while is_newline(toks, q)
        invariant
            p <= q <= toks@.len(),
            nl_end(toks@, p as int) == nl_end(toks@, q as int),
        decreases toks@.len() - q,
    {
        q = q + 1;
    }
    q
}

/// The position after token `p`, if it is the one that `is` picks.
fn expect(toks: &Toks, p: usize, ok: bool, what: &'static str) -> (r: Result<usize, Fail>)
    requires
        p <= toks@.len(),
        ok ==> p < toks@.len(),
        toks@.len() <= usize::MAX,
    ensures
        match r {
            Ok(q) => q == p + 1 && q <= toks@.len() && ok,
            Err((at, _)) => at <= toks@.len(),
        },
        r == if ok {
            Ok::<usize, Fail>((p + 1) as usize)
        } else {
            Err::<usize, Fail>((p, what))
        },
{
    if ok {
        Ok(p + 1)
    } else {
        Err((p, what))
    }
}

fn is_tok(toks: &Toks, p: usize, t: &Token) -> (r: bool)
    ensures
        r ==> p < toks@.len() && toks@[p as int].0 == *t,
        r == (p < toks@.len() && toks@[p as int].0 == *t && kind_token(*t)),
        toks@.len() <= usize::MAX,
{
    let n = toks.len();
    p < n && same_kind(&toks[p].0, t)
}

/// The tokens without payload that the parser tests for by kind:
/// operators, keywords, delimiters and layout.
pub open spec fn kind_token(t: Token) -> bool {
    t is True || t is False || t is Fn || t is Let || t is Var || t is Return || t is If || t is Elif || t is Else || t is For || t is While || t is In || t is Break || t is Continue || t is Module || t is Import || t is As || t is Struct || t is Pass || t is Plus || t is Minus || t is Star || t is Slash || t is Percent || t is EqEq || t is BangEq || t is Lt || t is LtEq || t is Gt || t is GtEq || t is AmpAmp || t is PipePipe || t is Bang || t is Eq || t is PlusEq || t is MinusEq || t is StarEq || t is SlashEq || t is Arrow || t is Colon || t is Comma || t is Dot || t is LParen || t is RParen || t is LBracket || t is RBracket || t is Newline || t is BlockStart || t is BlockEnd
}

/// Whether two tokens are the same token without payload (operators,
/// keywords, delimiters and layout).
fn same_kind(a: &Token, b: &Token) -> (r: bool)
    ensures
        r == (*a == *b && kind_token(*a)),
{
    match (a, b) {
        (Token::True, Token::True) | (Token::False, Token::False) | (Token::Fn, Token::Fn)
        | (Token::Let, Token::Let) | (Token::Var, Token::Var) | (Token::Return, Token::Return)
        | (Token::If, Token::If) | (Token::Elif, Token::Elif) | (Token::Else, Token::Else)
        | (Token::For, Token::For) | (Token::While, Token::While) | (Token::In, Token::In)
        | (Token::Break, Token::Break) | (Token::Continue, Token::Continue)
        | (Token::Module, Token::Module) | (Token::Import, Token::Import)
        | (Token::As, Token::As) | (Token::Struct, Token::Struct) | (Token::Pass, Token::Pass)
        | (Token::Plus, Token::Plus) | (Token::Minus, Token::Minus) | (Token::Star, Token::Star)
        | (Token::Slash, Token::Slash) | (Token::Percent, Token::Percent)
        | (Token::EqEq, Token::EqEq) | (Token::BangEq, Token::BangEq) | (Token::Lt, Token::Lt)
        | (Token::LtEq, Token::LtEq) | (Token::Gt, Token::Gt) | (Token::GtEq, Token::GtEq)
        | (Token::AmpAmp, Token::AmpAmp) | (Token::PipePipe, Token::PipePipe)
        | (Token::Bang, Token::Bang) | (Token::Eq, Token::Eq) | (Token::PlusEq, Token::PlusEq)
        | (Token::MinusEq, Token::MinusEq) | (Token::StarEq, Token::StarEq)
        | (Token::SlashEq, Token::SlashEq) | (Token::Arrow, Token::Arrow)
        | (Token::Colon, Token::Colon) | (Token::Comma, Token::Comma) | (Token::Dot, Token::Dot)
        | (Token::LParen, Token::LParen) | (Token::RParen, Token::RParen)
        | (Token::LBracket, Token::LBracket) | (Token::RBracket, Token::RBracket)
        | (Token::Newline, Token::Newline) | (Token::BlockStart, Token::BlockStart)
        | (Token::BlockEnd, Token::BlockEnd) => true,
        _ => false,
    }
}

/// An identifier at `p`.
fn ident(toks: &Toks, p: usize) -> (r: Parsed<String>)
    requires
        p <= toks@.len(),
    ensures
        advances(r, p as int, toks@.len() as int),
        r matches Ok((name, q)) ==> q == p + 1 && (toks@[p as int].0 matches Token::Ident(n) && n@ == name@),
        r is Ok <==> (p < toks@.len() && toks@[p as int].0 is Ident),
        r is Err ==> r == Err::<(String, usize), Fail>((p, "identifier")),
{
    if p < toks.len() {
        if let Token::Ident(name) = &toks[p].0 {
            return Ok((name.clone(), p + 1));
        }
    }
    Err((p, "identifier"))
}

// ── Types ────────────────────────────────────────────────────────────────────

/// A primitive type keyword or a type name at `p`.
fn named_type(toks: &Toks, p: usize) -> (r: Parsed<TypeExpr>)
    requires
        p <= toks@.len(),
    ensures
        advances(r, p as int, toks@.len() as int),
        r matches Ok((ty, q)) ==> q == p + 1 && spells_named(toks@, p as int, ty),
        ending(r) == named_end(toks@, p as int),
{
    if p >= toks.len() {
        return Err((p, "type"));
    }
    let sp = toks[p].1;
    let name = match &toks[p].0 {
        Token::TypeI8 => "i8",
        Token::TypeI16 => "i16",
        Token::TypeI32 => "i32",
        Token::TypeI64 => "i64",
        Token::TypeU8 => "u8",
        Token::TypeU16 => "u16",
        Token::TypeU32 => "u32",
        Token::TypeU64 => "u64",
        Token::TypeF32 => "f32",
        Token::TypeF64 => "f64",
        Token::TypeBool => "bool",
        Token::TypeStr => "str",
        Token::TypeVoid => "void",
        Token::Ident(n) => {
            return Ok((TypeExpr::Named(n.clone(), sp), p + 1));
        },
        _ => {
            return Err((p, "type"));
        },
    };
    Ok((TypeExpr::Named(String::from_str(name), sp), p + 1))
}

/// A type: `[]T` or a named type.
fn type_expr(toks: &Toks, p: usize) -> (r: Parsed<TypeExpr>)
    requires
        p <= toks@.len(),
    ensures
        advances(r, p as int, toks@.len() as int),
        r matches Ok((ty, q)) ==> spells_type(toks@, p as int, q as int, ty),
        ending(r) == type_end(toks@, p as int),
{
    if is_tok(toks, p, &Token::LBracket) && is_tok(toks, p + 1, &Token::RBracket) {
        let (inner, q) = named_type(toks, p + 2)?;
        let sp = span_between(toks, p, q - 1);
        return Ok((TypeExpr::Array(Box::new(inner), sp), q));
    }
    named_type(toks, p)
}

/// An optional `: type` annotation at `p`.
fn annotation(toks: &Toks, p: usize) -> (r: Result<(Option<TypeExpr>, usize), Fail>)
    requires
        p <= toks@.len(),
    ensures
        match r {
            Ok((ty, q)) => p <= q <= toks@.len() && spells_annotation(toks@, p as int, q as int, ty),
            Err((at, _)) => at <= toks@.len(),
        },
        match r {
            Ok((_, q)) => annotation_end(toks@, p as int) == Ok::<int, Fail>(q as int),
            Err(f) => annotation_end(toks@, p as int) == Err::<int, Fail>(f),
        },
{
    if is_tok(toks, p, &Token::Colon) {
        let (t, q) = type_expr(toks, p + 1)?;
        Ok((Some(t), q))
    } else {
        Ok((None, p))
    }
}

// ── Expressions ──────────────────────────────────────────────────────────────

/// An expression at `p`.
pub fn expr_parser(toks: &Toks, p: usize) -> (r: Parsed<Expr>)
    requires
        p <= toks@.len(),
    ensures
        advances(r, p as int, toks@.len() as int),
        r matches Ok((e, q)) ==> spells_expr(toks@, p as int, q as int, e, 6),
        ending(r) == expr_end(toks@, p as int, 6),
    decreases toks@.len() - p, 20nat,
{
    binary_level(toks, p, 6)
}

/// The binary operator of precedence `level` at `p` (6 loosest, 1 tightest).
fn binop_at(toks: &Toks, p: usize, level: usize) -> (r: Option<BinOp>)
    ensures
        r is Some ==> p < toks@.len(),
        p < toks@.len() ==> r == binop_of(toks@[p as int].0, level as int),
{
    if p >= toks.len() {
        return None;
    }
    let t = &toks[p].0;
    match level {
        6 => if matches!(t, Token::PipePipe) { Some(BinOp::Or) } else { None },
        5 => if matches!(t, Token::AmpAmp) { Some(BinOp::And) } else { None },
        4 => match t {
            Token::EqEq => Some(BinOp::Eq),
            Token::BangEq => Some(BinOp::NotEq),
            _ => None,
        },
        3 => match t {
            Token::LtEq => Some(BinOp::LtEq),
            Token::GtEq => Some(BinOp::GtEq),
            Token::Lt => Some(BinOp::Lt),
            Token::Gt => Some(BinOp::Gt),
            _ => None,
        },
        2 => match t {
            Token::Plus => Some(BinOp::Add),
            Token::Minus => Some(BinOp::Sub),
            _ => None,
        },
        1 => match t {
            Token::Star => Some(BinOp::Mul),
            Token::Slash => Some(BinOp::Div),
            Token::Percent => Some(BinOp::Mod),
            _ => None,
        },
        _ => None,
    }
}

/// Operands of precedence `level` joined by its operators, to the left.
fn binary_level(toks: &Toks, p: usize, level: usize) -> (r: Parsed<Expr>)
    requires
        p <= toks@.len(),
        level <= 6,
    ensures
        advances(r, p as int, toks@.len() as int),
        r matches Ok((e, q)) ==> spells_expr(toks@, p as int, q as int, e, level as int),
        ending(r) == expr_end(toks@, p as int, level as int),
    decreases toks@.len() - p, level + 12,
{
    let (mut lhs, mut q) = if level == 0 {
        unary(toks, p)?
    } else {
        binary_level(toks, p, level - 1)?
    };
    if level == 0 {
        return Ok((lhs, q));
    }
    assert(spells_expr(toks@, p as int, q as int, lhs, level as int));
    assert(expr_end(toks@, p as int, level as int) == ops_end(toks@, q as int, level as int));
    while q < toks.len()
        invariant
            p < q <= toks@.len(),
            1 <= level <= 6,
            spells_expr(toks@, p as int, q as int, lhs, level as int),
            expr_end(toks@, p as int, level as int) == ops_end(toks@, q as int, level as int),
        ensures
            p < q <= toks@.len(),
            spells_expr(toks@, p as int, q as int, lhs, level as int),
            expr_end(toks@, p as int, level as int) == ops_end(toks@, q as int, level as int),
            ops_end(toks@, q as int, level as int) == Ok::<int, Fail>(q as int),
        decreases toks@.len() - q,
    {
        let op = match binop_at(toks, q, level) {
            Some(op) => op,
            None => break,
        };
        let (rhs, q2) = binary_level(toks, q + 1, level - 1)?;
        let ghost l0 = lhs;
        let ghost r0 = rhs;
        let sp = merge(expr_span(&lhs), expr_span(&rhs));
        lhs = Expr::BinOp { op, lhs: Box::new(lhs), rhs: Box::new(rhs), span: sp };
        proof {
            let t = toks@;
            assert(p < q && q < q2 && binop_of(t[q as int].0, level as int) == Some(op) && spells_expr(
                t,
                p as int,
                q as int,
                l0,
                level as int,
            ) && spells_expr(t, q + 1, q2 as int, r0, level - 1) && sp == merge_m(span_of(l0), span_of(r0)));
            assert(spells_expr(t, p as int, q2 as int, lhs, level as int));
        }
        q = q2;
    }
    Ok((lhs, q))
}

/// Prefix `-` and `!` operators, then a postfix expression. Every operator
/// node has the span of the whole prefix expression.
fn unary(toks: &Toks, p: usize) -> (r: Parsed<Expr>)
    requires
        p <= toks@.len(),
    ensures
        advances(r, p as int, toks@.len() as int),
        r matches Ok((e, q)) ==> spells_expr(toks@, p as int, q as int, e, 0),
        ending(r) == unary_end(toks@, p as int),
    decreases toks@.len() - p, 11nat,
{
    let mut ops: Vec<UnaryOp> = Vec::new();
    let mut q = p;
    while q < toks.len() && (matches!(toks[q].0, Token::Minus) || matches!(toks[q].0, Token::Bang))
        invariant
            p <= q <= toks@.len(),
            unary_end(toks@, p as int) == unary_end(toks@, q as int),
            q == p + ops@.len(),
            forall|j: int| 0 <= j < ops@.len() ==> unop_of(#[trigger] toks@[p + j].0) == Some(ops@[j]),
        decreases toks@.len() - q,
    {
        ops.push(if matches!(toks[q].0, Token::Minus) {
            UnaryOp::Neg
        } else {
            UnaryOp::Not
        });
        q = q + 1;
    }
    assert(unary_end(toks@, q as int) == postfix_end(toks@, q as int));
    let (mut e, end) = postfix(toks, q)?;
    let sp = span_between(toks, p, end - 1);
    let mut k = ops.len();
    while k > 0
        invariant
            k <= ops@.len(),
            q == p + ops@.len(),
            q < end <= toks@.len(),
            forall|j: int| 0 <= j < ops@.len() ==> unop_of(#[trigger] toks@[p + j].0) == Some(ops@[j]),
            k == ops@.len() ==> spells_expr(toks@, p + k, end as int, e, -1),
            k < ops@.len() ==> prefixed(toks@, p + k, end as int, e, sp),
        decreases k,
    {
        k = k - 1;
        let ghost e0 = e;
        e = Expr::UnaryOp { op: ops[k], expr: Box::new(e), span: sp };
        proof {
            assert(unop_of(toks@[p + k].0) == Some(ops@[k as int]));
            assert(spells_expr(toks@, p + k + 1, end as int, e0, -1) || prefixed(toks@, p + k + 1, end as int, e0, sp));
            assert(prefixed(toks@, p + k, end as int, e, sp));
        }
    }
    proof {
        if ops@.len() > 0 {
            assert(unop_of(toks@[p + 0].0) == Some(ops@[0]));
            assert(sp == between(toks@, p as int, end - 1));
        }
    }
    Ok((e, end))
}

/// Expressions separated by commas (line breaks allowed around them), with
/// an optional trailing comma, up to the closing delimiter `close`; `p` is
/// just after the opening one. Returns the position after `close`.
fn expr_list(toks: &Toks, p: usize, close: &Token) -> (r: Parsed<Vec<Expr>>)
    requires
        p <= toks@.len(),
        *close is RBracket || *close is RParen,
    ensures
        advances(r, p as int, toks@.len() as int),
        r matches Ok((items, q)) ==> spells_list(toks@, p as int, q as int, items@, *close is RBracket),
        ending(r) == list_end(toks@, p as int, *close is RBracket),
    decreases toks@.len() - p, 21nat,
{
    let ghost t = toks@;
    let ghost bracket = *close is RBracket;
    let mut items: Vec<Expr> = Vec::new();
    let mut q = skip_newlines(toks, p);
    let ghost mut a: int = p as int;
    loop
        invariant
            t == toks@,
            bracket == (*close is RBracket),
            *close is RBracket || *close is RParen,
            p <= a <= q <= toks@.len(),
            q == nl_end(t, a),
            list_prefix(t, p as int, a, items@),
            list_end(t, p as int, bracket) == items_end(t, q as int, bracket),
        decreases toks@.len() - q,
    {
        if is_tok(toks, q, close) {
            proof {
                assert(closes(t[q as int].0, bracket));
                assert(p <= a && a < q + 1 && list_prefix(t, p as int, a, items@) && nl_end(t, a) == q + 1 - 1);
                assert(t[a] == t[a]);
                assert(spells_list(t, p as int, q + 1, items@, bracket));
            }
            return Ok((items, q + 1));
        }
        let (e, q2) = expr_parser(toks, q)?;
        let ghost before = items@;
        let ghost b: int = q as int;
        items.push(e);
        assert(items@.drop_last() =~= before);
        assert(items@.last() == e);
        q = skip_newlines(toks, q2);
        if is_tok(toks, q, &Token::Comma) {
            proof {
                assert(p <= a && a <= b && b < q2 && q2 < q + 1 && b == nl_end(t, a) && list_prefix(
                    t,
                    p as int,
                    a,
                    items@.drop_last(),
                ) && spells_expr(t, b, q2 as int, items@.last(), 6) && nl_end(t, q2 as int) == q + 1 - 1
                    && t[q + 1 - 1].0 is Comma);
                assert(t[a] == t[a] && t[b] == t[b] && t[q2 as int] == t[q2 as int]);
                assert(list_prefix(t, p as int, q + 1, items@));
                a = q + 1;
            }
            q = skip_newlines(toks, q + 1);
        } else if is_tok(toks, q, close) {
            proof {
                assert(closes(t[q as int].0, bracket));
                assert(items@.len() > 0 && p <= a && a <= b && b < q2 && q2 < q + 1 && b == nl_end(t, a)
                    && list_prefix(t, p as int, a, items@.drop_last()) && spells_expr(
                    t,
                    b,
                    q2 as int,
                    items@.last(),
                    6,
                ) && nl_end(t, q2 as int) == q + 1 - 1);
                assert(t[a] == t[a] && t[b] == t[b] && t[q2 as int] == t[q2 as int]);
                assert(spells_list(t, p as int, q + 1, items@, bracket));
            }
            return Ok((items, q + 1));
        } else {
            return Err((q, "`,` or closing delimiter"));
        }
    }
}

/// A literal, array literal, parenthesized expression or identifier.
fn primary(toks: &Toks, p: usize) -> (r: Parsed<Expr>)
    requires
        p <= toks@.len(),
    ensures
        advances(r, p as int, toks@.len() as int),
        r matches Ok((e, q)) ==> spells_expr(toks@, p as int, q as int, e, -2),
        ending(r) == primary_end(toks@, p as int),
    decreases toks@.len() - p, 9nat,
{
    if p >= toks.len() {
        return Err((p, "expression"));
    }
    let sp = toks[p].1;
    match &toks[p].0 {
        Token::Int(n) => Ok((Expr::Int(*n, sp), p + 1)),
        Token::Float(f) => Ok((Expr::Float(f.clone(), sp), p + 1)),
        Token::Str(s) => Ok((Expr::Str(s.clone(), sp), p + 1)),
        Token::True => Ok((Expr::Bool(true, sp), p + 1)),
        Token::False => Ok((Expr::Bool(false, sp), p + 1)),
        Token::Ident(name) => Ok((Expr::Ident(name.clone(), sp), p + 1)),
        Token::LBracket => {
            let (elems, q) = expr_list(toks, p + 1, &Token::RBracket)?;
            let span = span_between(toks, p, q - 1);
            Ok((Expr::Array(elems, span), q))
        },
        Token::LParen => {
            let (e, q) = expr_parser(toks, p + 1)?;
            let q2 = expect(toks, q, is_tok(toks, q, &Token::RParen), "`)`")?;
            Ok((e, q2))
        },
        _ => Err((p, "expression")),
    }
}

/// A primary expression followed by calls, field accesses and indexing.
fn postfix(toks: &Toks, p: usize) -> (r: Parsed<Expr>)
    requires
        p <= toks@.len(),
    ensures
        advances(r, p as int, toks@.len() as int),
        r matches Ok((e, q)) ==> spells_expr(toks@, p as int, q as int, e, -1),
        ending(r) == postfix_end(toks@, p as int),
    decreases toks@.len() - p, 10nat,
{
    let ghost t = toks@;
    let (mut e, mut q) = primary(toks, p)?;
    assert(spells_expr(t, p as int, q as int, e, -1));
    assert(postfix_end(t, p as int) == calls_end(t, q as int));
    while q < toks.len()
        invariant
            t == toks@,
            p < q <= toks@.len(),
            spells_expr(t, p as int, q as int, e, -1),
            postfix_end(t, p as int) == calls_end(t, q as int),
        ensures
            t == toks@,
            p < q <= toks@.len(),
            spells_expr(t, p as int, q as int, e, -1),
            postfix_end(t, p as int) == calls_end(t, q as int),
            calls_end(t, q as int) == Ok::<int, Fail>(q as int),
        decreases toks@.len() - q,
    {
        let obj_sp = expr_span(&e);
        let ghost e0 = e;
        if is_tok(toks, q, &Token::LParen) {
            let (args, q2) = expr_list(toks, q + 1, &Token::RParen)?;
            let sp = merge(obj_sp, span_between(toks, q, q2 - 1));
            e = Expr::Call { callee: Box::new(e), args, span: sp };
            proof {
                assert(p < q && q < q2 && t[q as int].0 is LParen && spells_expr(t, p as int, q as int, e0, -1)
                    && spells_list(t, q + 1, q2 as int, args@, false) && sp == merge_m(
                    span_of(e0),
                    between(t, q as int, q2 - 1),
                ));
                assert(spells_expr(t, p as int, q2 as int, e, -1));
            }
            q = q2;
        } else if is_tok(toks, q, &Token::Dot) {
            let (field, q2) = ident(toks, q + 1)?;
            let sp = merge(obj_sp, span_between(toks, q, q2 - 1));
            e = Expr::Field { object: Box::new(e), field, span: sp };
            proof {
                assert(q2 - 2 == q);
                assert(spells_expr(t, p as int, q2 as int, e, -1));
            }
            q = q2;
        } else if is_tok(toks, q, &Token::LBracket) {
            let (index, q2) = expr_parser(toks, q + 1)?;
            let q3 = expect(toks, q2, is_tok(toks, q2, &Token::RBracket), "`]`")?;
            let sp = merge(obj_sp, span_between(toks, q, q3 - 1));
            let ghost i0 = index;
            e = Expr::Index { object: Box::new(e), index: Box::new(index), span: sp };
            proof {
                assert(p < q && q < q3 - 1 && t[q as int].0 is LBracket && t[q3 - 1].0 is RBracket
                    && spells_expr(t, p as int, q as int, e0, -1) && spells_expr(t, q + 1, q3 - 1, i0, 6)
                    && sp == merge_m(span_of(e0), between(t, q as int, q3 - 1)));
                assert(spells_expr(t, p as int, q3 as int, e, -1));
            }
            q = q3;
        } else {
            break;
        }
    }
    Ok((e, q))
}

// ── Statements ───────────────────────────────────────────────────────────────

/// An assignment operator at `p`: plain `=`, or the operator that a
/// compound assignment applies.
fn assign_op(toks: &Toks, p: usize) -> (r: Option<Option<BinOp>>)
    ensures
        r is Some ==> p < toks@.len(),
        p < toks@.len() ==> r == assign_of(toks@[p as int].0),
{
    if p >= toks.len() {
        return None;
    }
    match &toks[p].0 {
        Token::Eq => Some(None),
        Token::PlusEq => Some(Some(BinOp::Add)),
        Token::MinusEq => Some(Some(BinOp::Sub)),
        Token::StarEq => Some(Some(BinOp::Mul)),
        Token::SlashEq => Some(Some(BinOp::Div)),
        _ => None,
    }
}

/// `let` or `var`: the keyword at `p`, a name, an optional annotation, `=`
/// and the value.
fn binding(toks: &Toks, p: usize, mutable: bool) -> (r: Parsed<Stmt>)
    requires
        p < toks@.len(),
        if mutable {
            toks@[p as int].0 is Var
        } else {
            toks@[p as int].0 is Let
        },
    ensures
        advances(r, p as int, toks@.len() as int),
        r matches Ok((st, q)) ==> spells_stmt(toks@, p as int, q as int, st),
        ending(r) == binding_end(toks@, p as int),
    decreases toks@.len() - p, 29nat,
{
    let n = toks.len();
    assert(p < n);
    let (name, q) = ident(toks, p + 1)?;
    let (ty, a) = annotation(toks, q)?;
    let b = expect(toks, a, is_tok(toks, a, &Token::Eq), "`=`")?;
    let (value, q) = expr_parser(toks, b)?;
    let span = span_between(toks, p, q - 1);
    proof {
        let t = toks@;
        assert(p + 2 <= a && a < b && b < q && (t[p + 1].0 matches Token::Ident(x) && x@ == name@)
            && spells_annotation(t, p + 2, a as int, ty) && t[a as int].0 is Eq && b == a + 1
            && spells_expr(t, b as int, q as int, value, 6));
        assert(t[a as int] == t[a as int] && t[b as int] == t[b as int]);
        assert(crate::syntax::grammar::spells_binding(t, p as int, q as int, name@, ty, value));
    }
    if mutable {
        Ok((Stmt::Var { name, ty, value, span }, q))
    } else {
        Ok((Stmt::Let { name, ty, value, span }, q))
    }
}

/// A statement at `p`.
pub fn stmt_parser(toks: &Toks, p: usize) -> (r: Parsed<Stmt>)
    requires
        p <= toks@.len(),
    ensures
        advances(r, p as int, toks@.len() as int),
        r matches Ok((st, q)) ==> spells_stmt(toks@, p as int, q as int, st),
        p < toks@.len() && (toks@[p as int].0 is Break || toks@[p as int].0 is Continue || toks@[p as int].0 is Pass)
            ==> (r matches Ok((st, q)) && q == p + 1),
        p < toks@.len() && toks@[p as int].0 is Return ==> r is Ok,
        ending(r) == stmt_end(toks@, p as int),
    decreases toks@.len() - p, 30nat,
{
    let ghost t = toks@;
    if p >= toks.len() {
        return Err((p, "statement"));
    }
    let sp = toks[p].1;
    match &toks[p].0 {
        Token::Let => binding(toks, p, false),
        Token::Var => binding(toks, p, true),
        Token::Return => {
            match expr_parser(toks, p + 1) {
                Ok((value, q)) => {
                    let span = span_between(toks, p, q - 1);
                    Ok((Stmt::Return { value: Some(value), span }, q))
                },
                Err(_) => Ok((Stmt::Return { value: None, span: sp }, p + 1)),
            }
        },
        Token::Break => Ok((Stmt::Break { span: sp }, p + 1)),
        Token::Continue => Ok((Stmt::Continue { span: sp }, p + 1)),
        Token::Pass => Ok((Stmt::Pass { span: sp }, p + 1)),
        Token::If => if_stmt(toks, p),
        Token::While => {
            let (condition, c) = expr_parser(toks, p + 1)?;
            let q = expect(toks, c, is_tok(toks, c, &Token::Colon), "`:`")?;
            let (body, q) = block(toks, q)?;
            let span = span_between(toks, p, q - 1);
            proof {
                assert(p + 1 < c && c + 1 < q && spells_expr(t, p + 1, c as int, condition, 6)
                    && t[c as int].0 is Colon && spells_block(t, c + 1, q as int, body@));
            }
            Ok((Stmt::While { condition, body, span }, q))
        },
        Token::For => {
            let (var, q) = ident(toks, p + 1)?;
            let q = expect(toks, q, is_tok(toks, q, &Token::In), "`in`")?;
            let (iter, c) = expr_parser(toks, q)?;
            let q = expect(toks, c, is_tok(toks, c, &Token::Colon), "`:`")?;
            let (body, q) = block(toks, q)?;
            let span = span_between(toks, p, q - 1);
            proof {
                assert(p + 3 < c && c + 1 < q && t[p + 2].0 is In && spells_expr(t, p + 3, c as int, iter, 6)
                    && t[c as int].0 is Colon && spells_block(t, c + 1, q as int, body@));
            }
            Ok((Stmt::For { var, iter, body, span }, q))
        },
        _ => {
            // An expression, made an assignment by a following `=` or
            // compound assignment operator.
            let (target, q) = expr_parser(toks, p)?;
            match assign_op(toks, q) {
                None => Ok((Stmt::Expr(target), q)),
                Some(op) => {
                    let (rhs, q2) = expr_parser(toks, q + 1)?;
                    let ghost r0 = rhs;
                    let value = match op {
                        None => rhs,
                        Some(bin_op) => {
                            let tsp = merge(expr_span(&target), expr_span(&rhs));
                            Expr::BinOp {
                                op: bin_op,
                                lhs: Box::new(target.duplicate()),
                                rhs: Box::new(rhs),
                                span: tsp,
                            }
                        },
                    };
                    let span = span_between(toks, p, q2 - 1);
                    proof {
                        assert(assign_of(t[q as int].0) == Some(op));
                        assert(p < q && q + 1 < q2 && spells_expr(t, p as int, q as int, target, 6));
                        assert(t[q as int] == t[q as int]);
                    }
                    Ok((Stmt::Assign { target, value, span }, q2))
                },
            }
        },
    }
}

/// `if` at `p`: condition, `:`, block; then any `elif` branches and an
/// optional `else` branch, each possibly after line breaks.
#[verifier::spinoff_prover]
#[verifier::rlimit(40)]
fn if_stmt(toks: &Toks, p: usize) -> (r: Parsed<Stmt>)
    requires
        p < toks@.len(),
        toks@[p as int].0 is If,
    ensures
        advances(r, p as int, toks@.len() as int),
        r matches Ok((st, q)) ==> spells_stmt(toks@, p as int, q as int, st),
        ending(r) == if_end(toks@, p as int),
    decreases toks@.len() - p, 29nat,
{
    let ghost t = toks@;
    let n = toks.len();
    assert(p < n);
    let (condition, c) = expr_parser(toks, p + 1)?;
    let q = expect(toks, c, is_tok(toks, c, &Token::Colon), "`:`")?;
    let (then_body, mut q) = block(toks, q)?;
    let ghost d: int = q as int;
    let mut elif_branches: Vec<(Expr, Vec<Stmt>)> = Vec::new();
    loop
        invariant
            t == toks@,
            p < c < d <= q <= toks@.len(),
            elifs_prefix(t, d, q as int, elif_branches@),
            elifs_end(t, d) == elifs_end(t, q as int),
            forall|f: Fail| elifs_end(t, d) == Err::<int, Fail>(f) ==> if_end(t, p as int) == Err::<int, Fail>(f),
        ensures
            t == toks@,
            p < c < d <= q <= toks@.len(),
            elifs_prefix(t, d, q as int, elif_branches@),
            elifs_end(t, d) == elifs_end(t, q as int),
            elifs_end(t, q as int) == Ok::<int, Fail>(q as int),
        decreases toks@.len() - q,
    {
        let k = skip_newlines(toks, q);
        if !is_tok(toks, k, &Token::Elif) {
            break;
        }
        let (cond, k2) = expr_parser(toks, k + 1)?;
        let k3 = expect(toks, k2, is_tok(toks, k2, &Token::Colon), "`:`")?;
        let (body, k4) = block(toks, k3)?;
        let ghost before = elif_branches@;
        let ghost c0 = cond;
        let ghost b0 = body;
        elif_branches.push((cond, body));
        proof {
            let brs = elif_branches@;
            assert(brs.drop_last() =~= before);
            assert(brs.last() == (c0, b0));
            assert(d <= q && q <= k && k + 1 < k2 && k2 < k4 && k == nl_end(t, q as int) && elifs_prefix(
                t,
                d,
                q as int,
                brs.drop_last(),
            ) && t[k as int].0 is Elif && spells_expr(t, k + 1, k2 as int, brs.last().0, 6)
                && t[k2 as int].0 is Colon && spells_block(t, k2 + 1, k4 as int, brs.last().1@));
            assert(t[q as int] == t[q as int] && t[k as int] == t[k as int] && t[k2 as int] == t[k2 as int]);
            assert(elifs_prefix(t, d, k4 as int, brs));
        }
        q = k4;
    }
    let ghost e: int = q as int;
    let mut else_body: Option<Vec<Stmt>> = None;
    let k = skip_newlines(toks, q);
    if is_tok(toks, k, &Token::Else) {
        let k2 = expect(toks, k + 1, is_tok(toks, k + 1, &Token::Colon), "`:`")?;
        let (body, k3) = block(toks, k2)?;
        proof {
            assert(e <= k && k + 2 < k3 && k == nl_end(t, e) && t[k as int].0 is Else && t[k + 1].0 is Colon
                && spells_block(t, k + 2, k3 as int, body@));
        }
        else_body = Some(body);
        q = k3;
    }
    let span = span_between(toks, p, q - 1);
    proof {
        assert(p + 1 < c && c < d && d <= e && e <= q && spells_expr(t, p + 1, c as int, condition, 6)
            && t[c as int].0 is Colon && spells_block(t, c + 1, d, then_body@) && elifs_prefix(
            t,
            d,
            e,
            elif_branches@,
        ));
        assert(t[c as int] == t[c as int] && t[d] == t[d] && t[e] == t[e]);
        if else_body is Some {
            assert(t[k as int] == t[k as int]);
        }
    }
    Ok((Stmt::If { condition, then_body, elif_branches, else_body, span }, q))
}

/// A block at `p`: `BlockStart`, statements separated by line breaks, and
/// `BlockEnd`.
fn block(toks: &Toks, p: usize) -> (r: Parsed<Vec<Stmt>>)
    requires
        p <= toks@.len(),
    ensures
        advances(r, p as int, toks@.len() as int),
        r matches Ok((sts, q)) ==> spells_block(toks@, p as int, q as int, sts@),
        ending(r) == block_end(toks@, p as int),
    decreases toks@.len() - p, 31nat,
{
    let ghost t = toks@;
    let mut q = expect(toks, p, is_tok(toks, p, &Token::BlockStart), "an indented block")?;
    let mut stmts: Vec<Stmt> = Vec::new();
    let mut separated = true;
    loop
        invariant
            t == toks@,
            p < q <= toks@.len(),
            t[p as int].0 is BlockStart,
            separated == (stmts@.len() == 0),
            block_prefix(t, p as int, q as int, stmts@),
            block_end(t, p as int) == stmts_end(t, q as int, separated),
        decreases toks@.len() - q,
    {
        let k = skip_newlines(toks, q);
        let ghost fresh = separated;
        if k > q {
            separated = true;
        }
        if is_tok(toks, k, &Token::BlockEnd) {
            proof {
                assert(p < q && q < k + 1 && block_prefix(t, p as int, q as int, stmts@) && nl_end(t, q as int)
                    == k + 1 - 1);
                assert(t[q as int] == t[q as int]);
                assert(spells_block(t, p as int, k + 1, stmts@));
            }
            return Ok((stmts, k + 1));
        }
        if !separated {
            return Err((k, "a line break"));
        }
        let (st, k2) = stmt_parser(toks, k)?;
        let ghost before = stmts@;
        let ghost s0 = st;
        stmts.push(st);
        proof {
            let sts = stmts@;
            assert(sts.drop_last() =~= before);
            assert(sts.last() == s0);
            assert(p < q && q <= k && k < k2 && k == nl_end(t, q as int) && (sts.len() == 1 || q < k)
                && block_prefix(t, p as int, q as int, sts.drop_last()) && spells_stmt(t, k as int, k2 as int, sts.last()));
            assert(t[q as int] == t[q as int] && t[k as int] == t[k as int]);
            assert(block_prefix(t, p as int, k2 as int, sts));
        }
        separated = false;
        q = k2;
    }
}

// ── Items ────────────────────────────────────────────────────────────────────

/// The arguments of a decorator, after its `(` at `p`, up to `)`.
fn decorator_args(toks: &Toks, p: usize) -> (r: Parsed<Vec<DecoratorArg>>)
    requires
        p <= toks@.len(),
    ensures
        advances(r, p as int, toks@.len() as int),
        r matches Ok((args, q)) ==> spells_dec_args(toks@, p as int, q as int, args@),
        ending(r) == dec_args_end(toks@, p as int),
{
    let ghost t = toks@;
    let mut args: Vec<DecoratorArg> = Vec::new();
    let mut q = p;
    loop
        invariant
            t == toks@,
            p <= q <= toks@.len(),
            dec_args_prefix(t, p as int, q as int, args@),
            dec_args_end(t, p as int) == dec_args_end(t, q as int),
        decreases toks@.len() - q,
    {
        if is_tok(toks, q, &Token::RParen) {
            return Ok((args, q + 1));
        }
        let (key, k) = ident(toks, q)?;
        let ghost before = args@;
        let mut m = k;
        if is_tok(toks, k, &Token::Eq) {
            if k + 1 >= toks.len() {
                return Err((k + 1, "a string or a name"));
            }
            let value = match &toks[k + 1].0 {
                Token::Str(v) => v.clone(),
                Token::Ident(v) => v.clone(),
                _ => {
                    return Err((k + 1, "a string or a name"));
                },
            };
            args.push(DecoratorArg::KeyValue { key, value });
            m = k + 2;
        } else {
            args.push(DecoratorArg::Ident(key));
        }
        proof {
            assert(args@.drop_last() =~= before);
            assert(spells_dec_arg(t, q as int, m as int, args@.last()));
        }
        if is_tok(toks, m, &Token::Comma) {
            proof {
                assert(t[q as int] == t[q as int] && t[m as int] == t[m as int]);
                assert(dec_args_prefix(t, p as int, m + 1, args@));
            }
            q = m + 1;
        } else if is_tok(toks, m, &Token::RParen) {
            proof {
                assert(t[q as int] == t[q as int]);
                assert(spells_dec_args(t, p as int, m + 1, args@));
            }
            return Ok((args, m + 1));
        } else {
            return Err((m, "`,` or `)`"));
        }
    }
}

/// Any decorators at `p`, each optionally followed by a line break.
fn decorators(toks: &Toks, p: usize) -> (r: Result<(Vec<Decorator>, usize), Fail>)
    requires
        p <= toks@.len(),
    ensures
        match r {
            Ok((decs, q)) => p <= q <= toks@.len() && decorators_prefix(toks@, p as int, q as int, decs@),
            Err((at, _)) => at <= toks@.len(),
        },
        ending(r) == decorators_end(toks@, p as int),
{
    let ghost t = toks@;
    let mut out: Vec<Decorator> = Vec::new();
    let mut q = p;
    while q < toks.len()
        invariant
            t == toks@,
            p <= q <= toks@.len(),
            decorators_prefix(t, p as int, q as int, out@),
            decorators_end(t, p as int) == decorators_end(t, q as int),
        ensures
            p <= q <= toks@.len(),
            decorators_prefix(t, p as int, q as int, out@),
            decorators_end(t, p as int) == Ok::<int, Fail>(q as int),
        decreases toks@.len() - q,
    {
        let name = match &toks[q].0 {
            Token::Decorator(n) => n.clone(),
            _ => break,
        };
        let span = toks[q].1;
        let mut k = q + 1;
        let mut args: Vec<DecoratorArg> = Vec::new();
        if is_tok(toks, k, &Token::LParen) {
            let (a, k2) = decorator_args(toks, k + 1)?;
            args = a;
            k = k2;
        }
        let ghost k0 = k;
        if is_newline(toks, k) {
            k = k + 1;
        }
        let ghost before = out@;
        out.push(Decorator { name, args, span });
        proof {
            assert(out@.drop_last() =~= before);
            let d = out@.last();
            assert(t[k0 as int] == t[k0 as int]);
            assert(spells_decorator(t, q as int, k as int, d));
            assert(t[q as int] == t[q as int]);
            assert(decorators_prefix(t, p as int, k as int, out@));
        }
        q = k;
    }
    Ok((out, q))
}

/// A parameter at `p`: a name and an optional annotation.
fn param(toks: &Toks, p: usize) -> (r: Parsed<Param>)
    requires
        p <= toks@.len(),
    ensures
        advances(r, p as int, toks@.len() as int),
        r matches Ok((prm, q)) ==> spells_param(toks@, p as int, q as int, prm),
        ending(r) == param_end(toks@, p as int),
{
    let (name, q) = ident(toks, p)?;
    let (ty, q) = annotation(toks, q)?;
    let span = span_between(toks, p, q - 1);
    Ok((Param { name, ty, span }, q))
}

/// A function at `p`: decorators, `fn`, name, parameters in parentheses,
/// an optional `-> type`, `:` and the body.
#[verifier::spinoff_prover]
#[verifier::rlimit(40)]
fn function(toks: &Toks, p: usize) -> (r: Parsed<Function>)
    requires
        p <= toks@.len(),
    ensures
        advances(r, p as int, toks@.len() as int),
        r matches Ok((f, q)) ==> spells_function(toks@, p as int, q as int, f),
        ending(r) == function_end(toks@, p as int),
    decreases toks@.len() - p, 35nat,
{
    let ghost t = toks@;
    let (decs, a) = decorators(toks, p)?;
    let q = expect(toks, a, is_tok(toks, a, &Token::Fn), "`fn`")?;
    let (name, q) = ident(toks, q)?;
    let mut q = expect(toks, q, is_tok(toks, q, &Token::LParen), "`(`")?;
    let ghost a3: int = q as int;
    let mut params: Vec<Param> = Vec::new();
    loop
        invariant_except_break
            params_prefix(t, a3, q as int, params@),
            params_end(t, a3) == params_end(t, q as int),
        invariant
            t == toks@,
            a3 == a + 3,
            p <= a,
            a3 <= q <= toks@.len(),
            decorators_end(t, p as int) == Ok::<int, Fail>(a as int),
            t[a as int].0 is Fn && t[a + 1].0 is Ident && t[a + 2].0 is LParen,
        ensures
            a3 < q <= toks@.len(),
            spells_params(t, a3, q as int, params@),
            params_end(t, a3) == Ok::<int, Fail>(q as int),
        decreases toks@.len() - q,
    {
        if is_tok(toks, q, &Token::RParen) {
            q = q + 1;
            break;
        }
        let (prm, k) = param(toks, q)?;
        let ghost before = params@;
        let ghost pr = prm;
        params.push(prm);
        assert(params@.drop_last() =~= before);
        assert(params@.last() == pr);
        if is_tok(toks, k, &Token::Comma) {
            proof {
                assert(t[q as int] == t[q as int] && t[k as int] == t[k as int]);
                assert(params_prefix(t, a3, k + 1, params@));
            }
            q = k + 1;
        } else if is_tok(toks, k, &Token::RParen) {
            proof {
                assert(t[q as int] == t[q as int]);
                assert(spells_params(t, a3, k + 1, params@));
            }
            q = k + 1;
            break;
        } else {
            return Err((k, "`,` or `)`"));
        }
    }
    let ghost b: int = q as int;
    let mut return_ty: Option<TypeExpr> = None;
    if is_tok(toks, q, &Token::Arrow) {
        let (ty, k) = type_expr(toks, q + 1)?;
        return_ty = Some(ty);
        q = k;
    }
    let ghost c: int = q as int;
    let q = expect(toks, q, is_tok(toks, q, &Token::Colon), "`:`")?;
    let (body, q) = block(toks, q)?;
    let span = span_between(toks, p, q - 1);
    let f = Function { decorators: decs, name, params, return_ty, body, span };
    proof {
        assert(t[a as int] == t[a as int] && t[b] == t[b] && t[c] == t[c]);
        assert(spells_function(t, p as int, q as int, f));
    }
    Ok((f, q))
}

/// The body of a module at `p`: `BlockStart`, items, `BlockEnd`.
fn module_items(toks: &Toks, p: usize) -> (r: Parsed<Vec<Item>>)
    requires
        p <= toks@.len(),
    ensures
        advances(r, p as int, toks@.len() as int),
        r matches Ok((items, q)) ==> spells_module_items(toks@, p as int, q as int, items@),
        ending(r) == module_body_end(toks@, p as int),
    decreases toks@.len() - p, 36nat,
{
    let ghost t = toks@;
    let mut q = expect(toks, p, is_tok(toks, p, &Token::BlockStart), "an indented block")?;
    let mut items: Vec<Item> = Vec::new();
    loop
        invariant
            t == toks@,
            p < q <= toks@.len(),
            t[p as int].0 is BlockStart,
            module_prefix(t, p as int, q as int, items@),
            module_body_end(t, p as int) == module_rest_end(t, q as int),
        decreases toks@.len() - q,
    {
        let k = skip_newlines(toks, q);
        if is_tok(toks, k, &Token::BlockEnd) {
            proof {
                assert(t[q as int] == t[q as int]);
                assert(spells_module_items(t, p as int, k + 1, items@));
            }
            return Ok((items, k + 1));
        }
        let (it, k2) = parse_item(toks, k)?;
        let ghost before = items@;
        let ghost i0 = it;
        items.push(it);
        proof {
            assert(items@.drop_last() =~= before);
            assert(items@.last() == i0);
            assert(t[q as int] == t[q as int] && t[k as int] == t[k as int]);
            assert(module_prefix(t, p as int, k2 as int, items@));
        }
        q = k2;
    }
}

/// A struct's fields at `p`: `BlockStart`, `name: type` lines, `BlockEnd`.
fn struct_fields(toks: &Toks, p: usize) -> (r: Parsed<Vec<StructField>>)
    requires
        p <= toks@.len(),
    ensures
        advances(r, p as int, toks@.len() as int),
        r matches Ok((fs, q)) ==> spells_fields(toks@, p as int, q as int, fs@),
        ending(r) == fields_end(toks@, p as int),
{
    let ghost t = toks@;
    let mut q = expect(toks, p, is_tok(toks, p, &Token::BlockStart), "an indented block")?;
    let mut fields: Vec<StructField> = Vec::new();
    loop
        invariant
            t == toks@,
            p < q <= toks@.len(),
            t[p as int].0 is BlockStart,
            fields_prefix(t, p as int, q as int, fields@),
            fields_end(t, p as int) == fields_rest_end(t, q as int),
        decreases toks@.len() - q,
    {
        if is_tok(toks, q, &Token::BlockEnd) {
            return Ok((fields, q + 1));
        }
        let (name, k) = ident(toks, q)?;
        let k = expect(toks, k, is_tok(toks, k, &Token::Colon), "`:`")?;
        let (ty, k2) = type_expr(toks, k)?;
        let k3 = if is_newline(toks, k2) {
            k2 + 1
        } else {
            k2
        };
        let span = span_between(toks, q, k3 - 1);
        let ghost before = fields@;
        fields.push(StructField { name, ty, span });
        proof {
            assert(fields@.drop_last() =~= before);
            assert(t[k2 as int] == t[k2 as int]);
            assert(spells_field(t, q as int, k3 as int, fields@.last()));
            assert(t[q as int] == t[q as int]);
            assert(fields_prefix(t, p as int, k3 as int, fields@));
        }
        q = k3;
    }
}

/// `@runtime:` at `p` and its block of `key: value` lines.
fn runtime_config(toks: &Toks, p: usize) -> (r: Parsed<RuntimeConfig>)
    requires
        p + 1 < toks@.len(),
    ensures
        advances(r, p as int, toks@.len() as int),
        r matches Ok((rc, q)) ==> p + 3 < q && toks@[p + 2].0 is BlockStart && toks@[q - 1].0 is BlockEnd
            && entries_prefix(toks@, p + 3, q - 1, rc.entries@) && rc.span == between(toks@, p as int, q - 1),
        ending(r) == if p + 2 < toks@.len() && toks@[p + 2].0 is BlockStart {
            entries_end(toks@, p + 3)
        } else {
            fail_at(p + 2, "an indented block")
        },
{
    let ghost t = toks@;
    let n = toks.len();
    assert(p + 1 < n);
    let mut q = expect(toks, p + 2, is_tok(toks, p + 2, &Token::BlockStart), "an indented block")?;
    let mut entries: Vec<(String, String)> = Vec::new();
    loop
        invariant
            t == toks@,
            p + 3 <= q <= toks@.len(),
            t[p + 2].0 is BlockStart,
            entries_prefix(t, p + 3, q as int, entries@),
            entries_end(t, p + 3) == entries_end(t, q as int),
        decreases toks@.len() - q,
    {
        if is_tok(toks, q, &Token::BlockEnd) {
            let span = span_between(toks, p, q);
            return Ok((RuntimeConfig { entries, span }, q + 1));
        }
        let (key, k) = ident(toks, q)?;
        let k = expect(toks, k, is_tok(toks, k, &Token::Colon), "`:`")?;
        let (value, k) = ident(toks, k)?;
        let k = if is_newline(toks, k) {
            k + 1
        } else {
            k
        };
        let ghost before = entries@;
        entries.push((key, value));
        proof {
            assert(entries@.drop_last() =~= before);
            assert(spells_entry(t, q as int, k as int, entries@.last()));
            assert(t[q as int] == t[q as int]);
            assert(entries_prefix(t, p + 3, k as int, entries@));
        }
        q = k;
    }
}

/// Whether the decorator at `p` is `@runtime` followed by `:`.
fn at_runtime_config(toks: &Toks, p: usize) -> (r: bool)
    ensures
        r == (p + 1 < toks@.len() && (toks@[p as int].0 matches Token::Decorator(n) && n@ == "runtime"@)
            && toks@[p + 1].0 is Colon),
{
    if p < toks.len() && is_tok(toks, p + 1, &Token::Colon) {
        if let Token::Decorator(name) = &toks[p].0 {
            return spells(name, "runtime");
        }
    }
    false
}

/// An import at `p`: `import`, a dotted path and an optional `as name`.
fn import_decl(toks: &Toks, p: usize) -> (r: Parsed<ImportDecl>)
    requires
        p < toks@.len(),
        toks@[p as int].0 is Import,
    ensures
        advances(r, p as int, toks@.len() as int),
        r matches Ok((d, q)) ==> spells_item(toks@, p as int, q as int, Item::Import(d)),
        ending(r) == import_end(toks@, p as int),
{
    let ghost t = toks@;
    let n = toks.len();
    assert(p < n);
    let (first, q) = ident(toks, p + 1)?;
    let ghost f0 = first;
    let mut path: Vec<String> = vec![first];
    let mut q = q;
    proof {
        assert(path@.len() == 1 && path@[0] == f0);
        assert(import_path(t, p as int, q as int, path@));
    }
    while is_tok(toks, q, &Token::Dot)
        invariant
            t == toks@,
            p < q <= toks@.len(),
            import_path(t, p as int, q as int, path@),
            path_end(t, p + 2) == path_end(t, q as int),
            p + 1 < t.len() && t[p + 1].0 is Ident,
        decreases toks@.len() - q,
    {
        let (seg, k) = ident(toks, q + 1)?;
        let ghost before = path@;
        path.push(seg);
        proof {
            assert(path@.drop_last() =~= before);
            assert(t[q as int] == t[q as int]);
            assert(import_path(t, p as int, k as int, path@));
        }
        q = k;
    }
    let ghost c: int = q as int;
    assert(path_end(t, p + 2) == Ok::<int, Fail>(c));
    let mut alias: Option<String> = None;
    if is_tok(toks, q, &Token::As) {
        let (a, k) = ident(toks, q + 1)?;
        alias = Some(a);
        q = k;
    }
    let span = span_between(toks, p, q - 1);
    let d = ImportDecl { path, alias, span };
    proof {
        assert(t[c] == t[c]);
        assert(spells_item(t, p as int, q as int, Item::Import(d)));
    }
    Ok((d, q))
}

/// An item at `p`: a runtime configuration, a function, a module, a
/// struct, an import, or an expression.
#[verifier::spinoff_prover]
#[verifier::rlimit(60)]
pub fn parse_item(toks: &Toks, p: usize) -> (r: Parsed<Item>)
    requires
        p <= toks@.len(),
    ensures
        advances(r, p as int, toks@.len() as int),
        r matches Ok((it, q)) ==> spells_item(toks@, p as int, q as int, it),
        ending(r) == item_end(toks@, p as int),
    decreases toks@.len() - p, 40nat,
{
    let ghost t = toks@;
    if p >= toks.len() {
        return Err((p, "item"));
    }
    if at_runtime_config(toks, p) {
        let (rc, q) = runtime_config(toks, p)?;
        return Ok((Item::RuntimeConfig(rc), q));
    }
    if let Token::Import = &toks[p].0 {
        let (d, q) = import_decl(toks, p)?;
        return Ok((Item::Import(d), q));
    }
    let starts_decl = match &toks[p].0 {
        Token::Decorator(_) | Token::Fn | Token::Module | Token::Struct => true,
        _ => false,
    };
    if !starts_decl {
        let (e, q) = expr_parser(toks, p)?;
        return Ok((Item::Expr(e), q));
    }
    let (decs, q) = decorators(toks, p)?;
    if is_tok(toks, q, &Token::Fn) {
        let (f, k) = function(toks, p)?;
        return Ok((Item::Function(f), k));
    }
    if is_tok(toks, q, &Token::Module) {
        let (name, k) = ident(toks, q + 1)?;
        let k = expect(toks, k, is_tok(toks, k, &Token::Colon), "`:`")?;
        let (items, k) = module_items(toks, k)?;
        let span = span_between(toks, p, k - 1);
        let m = ModuleDecl { decorators: decs, name, items, span };
        proof {
            assert(t[q as int] == t[q as int]);
            assert(spells_item(t, p as int, k as int, Item::Module(m)));
        }
        return Ok((Item::Module(m), k));
    }
    if is_tok(toks, q, &Token::Struct) {
        let (name, k) = ident(toks, q + 1)?;
        let k = expect(toks, k, is_tok(toks, k, &Token::Colon), "`:`")?;
        let (fields, k) = struct_fields(toks, k)?;
        let span = span_between(toks, p, k - 1);
        let sd = StructDecl { decorators: decs, name, fields, span };
        proof {
            assert(t[q as int] == t[q as int]);
            assert(spells_item(t, p as int, k as int, Item::Struct(sd)));
        }
        return Ok((Item::Struct(sd), k));
    }
    Err((q, "`fn`, `module` or `struct`"))
}

/// From `q` at block depth `depth`: the position of the next line break at
/// depth zero, or just after a block end that closes depth one or less, or
/// the end of the stream.
pub open spec fn top_line_from(t: Seq<(Token, Span)>, q: int, depth: int) -> int
    decreases t.len() - q,
{
    if q < 0 || q >= t.len() {
        q
    } else if t[q].0 is BlockStart {
        top_line_from(t, q + 1, depth + 1)
    } else if t[q].0 is BlockEnd {
        if depth <= 1 {
            q + 1
        } else {
            top_line_from(t, q + 1, depth - 1)
        }
    } else if t[q].0 is Newline && depth == 0 {
        q
    } else {
        top_line_from(t, q + 1, depth)
    }
}

/// The position of the next line break outside any block at or after `p`,
/// or just after a block that closes back to the top level, or the end of
/// the stream.
fn next_top_line(toks: &Toks, p: usize) -> (q: usize)
    requires
        p <= toks@.len(),
    ensures
        p <= q <= toks@.len(),
        q == top_line_from(toks@, p as int, 0),
{
    let mut depth: usize = 0;
    let mut q = p;
    while q < toks.len()
        invariant
            p <= q <= toks@.len(),
            depth <= q - p,
            top_line_from(toks@, q as int, depth as int) == top_line_from(toks@, p as int, 0),
        decreases toks@.len() - q,
    {
        match &toks[q].0 {
            Token::BlockStart => {
                depth = depth + 1;
            },
            Token::BlockEnd => {
                if depth <= 1 {
                    return q + 1;
                }
                depth = depth - 1;
            },
            Token::Newline => {
                if depth == 0 {
                    return q;
                }
            },
            _ => {},
        }
        q = q + 1;
    }
    q
}

/// What parsing items from `q` on gives: how many items parse, and the
/// failures in order. After an item the parser skips line breaks; after a
/// failure it goes on at the next top-level line.
pub open spec fn run_from(t: Seq<(Token, Span)>, q: int) -> (nat, Seq<Fail>)
    decreases t.len() - q,
{
    if q < 0 || q >= t.len() {
        (0, Seq::empty())
    } else {
        match item_end(t, q) {
            Ok(k) => {
                let n = nl_end(t, k);
                if q < n <= t.len() {
                    let rest = run_from(t, n);
                    ((rest.0 + 1) as nat, rest.1)
                } else {
                    (1, Seq::empty())
                }
            },
            Err(f) => {
                let n = nl_end(
                    t,
                    top_line_from(
                        t,
                        if f.0 > q {
                            f.0 as int
                        } else {
                            q + 1
                        },
                        0,
                    ),
                );
                if q < n <= t.len() {
                    let rest = run_from(t, n);
                    (rest.0, seq![f] + rest.1)
                } else {
                    (0, seq![f])
                }
            },
        }
    }
}

/// Parse a whole token stream into items. An item that fails to parse is
/// reported with where it failed; parsing then goes on at the next
/// top-level line.
pub fn program_parser(toks: &Toks) -> (r: (Vec<Item>, Vec<Fail>))
    ensures
        forall|k: int| 0 <= k < r.1@.len() ==> (#[trigger] r.1@[k]).0 <= toks@.len(),
        forall|i: int| 0 <= i < r.0@.len() ==> spelled_item(toks@, #[trigger] r.0@[i]),
        r.0@.len() + r.1@.len() == 0 <==> nl_end(toks@, 0) == toks@.len(),
        r.0@.len() == run_from(toks@, nl_end(toks@, 0)).0,
        r.1@ == run_from(toks@, nl_end(toks@, 0)).1,
{
    let mut items: Vec<Item> = Vec::new();
    let mut fails: Vec<Fail> = Vec::new();
    let mut q = skip_newlines(toks, 0);
    while q < toks.len()
        invariant
            q <= toks@.len(),
            items@.len() + fails@.len() == 0 ==> q == nl_end(toks@, 0),
            nl_end(toks@, 0) == toks@.len() ==> items@.len() + fails@.len() == 0,
            forall|k: int| 0 <= k < fails@.len() ==> (#[trigger] fails@[k]).0 <= toks@.len(),
            forall|i: int| 0 <= i < items@.len() ==> spelled_item(toks@, #[trigger] items@[i]),
            run_from(toks@, nl_end(toks@, 0)).0 == items@.len() + run_from(toks@, q as int).0,
            run_from(toks@, nl_end(toks@, 0)).1 == fails@ + run_from(toks@, q as int).1,
        decreases toks@.len() - q,
    {
        let ghost f0 = fails@;
        match parse_item(toks, q) {
            Ok((it, k)) => {
                let ghost before = items@;
                let ghost i0 = it;
                items.push(it);
                proof {
                    assert forall|i: int| 0 <= i < items@.len() implies spelled_item(toks@, #[trigger] items@[i]) by {
                        if i < before.len() {
                            assert(items@[i] == before[i]);
                        } else {
                            assert(items@[i] == i0);
                            assert(spells_item(toks@, q as int, k as int, i0));
                        }
                    }
                }
                q = skip_newlines(toks, k);
            },
            Err(f) => {
                fails.push(f);
                let k = next_top_line(toks, if f.0 > q { f.0 } else { q + 1 });
                let ghost q0 = q;
                q = skip_newlines(toks, k);
                proof {
                    let rest = run_from(toks@, q as int);
                    assert(run_from(toks@, q0 as int) == (rest.0, seq![f] + rest.1));
                    assert(fails@ + rest.1 =~= f0 + (seq![f] + rest.1));
                }
            },
        }
    }
    assert(fails@ + run_from(toks@, q as int).1 =~= fails@);
    (items, fails)
}

/// An error found while parsing a source text.
#[derive(Debug)]
pub enum ParseError {
    /// A character that starts no token.
    Lex(LexError),
    /// A token where something else was expected.
    UnexpectedToken { message: String, span: Span },
    /// The end of the text where something was expected.
    UnexpectedEof,
}

/// `e` is the error that reports the failure `f` in the tokens `t`: the end
/// of the text, or the offending token's span and what was expected.
pub open spec fn reports(t: Seq<(Token, Span)>, f: Fail, e: ParseError) -> bool {
    &&& f.0 <= t.len()
    &&& f.0 == t.len() ==> e is UnexpectedEof
    &&& f.0 < t.len() ==> (e matches ParseError::UnexpectedToken { message, span } && span == t[f.0 as int].1
        && message@ == "expected "@ + f.1@)
}

/// The error for a failure `f` in the token stream `toks`.
fn failure(toks: &Toks, f: Fail) -> (e: ParseError)
    requires
        f.0 <= toks@.len(),
    ensures
        reports(toks@, f, e),
{
    proof {
        reveal_strlit("expected ");
    }
    if f.0 < toks.len() {
        let mut message = String::from_str("expected ");
        message.append(f.1);
        ParseError::UnexpectedToken { message, span: toks[f.0].1 }
    } else {
        ParseError::UnexpectedEof
    }
}

/// Parse a Nova source text into a program: lex it, turn its indentation
/// into block markers, and parse the tokens. The lexer's errors come first,
/// then the parser's; the program holds every item that parsed.
pub fn parse(source: &str, filename: &str) -> (r: (Program, Vec<ParseError>))
    requires
        source@.len() <= usize::MAX / 4,
    ensures
        r.0.source_file@ == filename@,
        r.1@.len() >= errors_of(source@, lex_from(source@, 0)).len(),
        forall|k: int|
            0 <= k < errors_of(source@, lex_from(source@, 0)).len() ==> (#[trigger] r.1@[k] matches ParseError::Lex(
                LexError::UnexpectedChar { ch, span },
            ) && (ch, span) == errors_of(source@, lex_from(source@, 0))[k]),
        exists|raw: Seq<(Token, Span)>|
            #![trigger token_values(raw)]
            token_values(raw) == tokens_of(source@, lex_from(source@, 0)) && {
                let ts = layout_from(raw, 0, seq![0usize]);
                let run = run_from(ts, nl_end(ts, 0));
                let lexed = errors_of(source@, lex_from(source@, 0)).len();
                &&& forall|i: int| 0 <= i < r.0.items@.len() ==> spelled_item(ts, #[trigger] r.0.items@[i])
                &&& (r.0.items@.len() + r.1@.len() == lexed <==> nl_end(ts, 0) == ts.len())
                &&& r.0.items@.len() == run.0
                &&& r.1@.len() == lexed + run.1.len()
                &&& forall|k: int| 0 <= k < run.1.len() ==> reports(ts, #[trigger] run.1[k], r.1@[lexed + k])
            },
{
    let (raw, lex_errors) = lex(source);
    let ghost raw_v = raw@;
    let mut errors: Vec<ParseError> = Vec::new();
    let ghost le = error_values(lex_errors@);
    let mut i: usize = 0;
    while i < lex_errors.len()
        invariant
            i <= lex_errors@.len(),
            le == error_values(lex_errors@),
            errors@.len() == i,
            forall|k: int|
                0 <= k < i ==> (#[trigger] errors@[k] matches ParseError::Lex(LexError::UnexpectedChar { ch, span })
                    && (ch, span) == le[k]),
        decreases lex_errors@.len() - i,
    {
        let e = match &lex_errors[i] {
            LexError::UnexpectedChar { ch, span } => LexError::UnexpectedChar { ch: *ch, span: *span },
        };
        errors.push(ParseError::Lex(e));
        i = i + 1;
    }
    let tokens = preprocess(raw);
    let (items, fails) = program_parser(&tokens);
    let mut j: usize = 0;
    while j < fails.len()
        invariant
            j <= fails@.len(),
            errors@.len() == le.len() + j,
            forall|k: int| 0 <= k < fails@.len() ==> (#[trigger] fails@[k]).0 <= tokens@.len(),
            forall|k: int|
                0 <= k < le.len() ==> (#[trigger] errors@[k] matches ParseError::Lex(LexError::UnexpectedChar { ch, span })
                    && (ch, span) == le[k]),
            forall|k: int| 0 <= k < j ==> reports(tokens@, #[trigger] fails@[k], errors@[le.len() + k]),
        decreases fails@.len() - j,
    {
        errors.push(failure(&tokens, fails[j]));
        j = j + 1;
    }
    let program = Program { items, source_file: filename.to_owned() };
    proof {
        let ts = layout_from(raw_v, 0, seq![0usize]);
        assert(tokens@ == ts);
        assert(errors@.len() == le.len() + fails@.len());
        assert(le.len() == errors_of(source@, lex_from(source@, 0)).len());
        assert(token_values(raw_v) == tokens_of(source@, lex_from(source@, 0)));
    }
    (program, errors)
}

} // verus!
