//! The grammar of expressions, types, statements and items: when a tree is
//! what a range of tokens spells.
//!
//! Levels of binding, loosest first: 6 `||`, 5 `&&`, 4 `==` `!=`, 3 `<`
//! `<=` `>` `>=`, 2 `+` `-`, 1 `*` `/` `%`, 0 prefix `-` `!`, -1 calls,
//! field accesses and indexing, -2 literals, names, array literals and
//! parenthesized expressions. Binary operators associate to the left.
use vstd::prelude::*;
use crate::syntax::ast::{
    BinOp, Decorator, DecoratorArg, Expr, Function, ImportDecl, Item, ModuleDecl, Param, RuntimeConfig, Stmt,
    StructDecl, StructField, TypeExpr, UnaryOp,
};
use crate::syntax::span::Span;
use crate::syntax::token::Token;
use crate::syntax::lexer::operator;
use crate::check::rules::op_text;

verus! {

/// Tokens with their spans.
pub type TokSeq = Seq<(Token, Span)>;

/// The span from the start of `a` to the end of `b`.
pub open spec fn merge_m(a: Span, b: Span) -> Span {
    Span {
        start: if a.start <= b.start {
            a.start
        } else {
            b.start
        },
        end: if a.end >= b.end {
            a.end
        } else {
            b.end
        },
    }
}

/// The span from token `a` to token `b`.
pub open spec fn between(t: TokSeq, a: int, b: int) -> Span {
    Span { start: t[a].1.start, end: t[b].1.end }
}

/// The span of an expression.
pub open spec fn span_of(e: Expr) -> Span {
    match e {
        Expr::Int(_, sp) => sp,
        Expr::Float(_, sp) => sp,
        Expr::Str(_, sp) => sp,
        Expr::Bool(_, sp) => sp,
        Expr::Ident(_, sp) => sp,
        Expr::Array(_, sp) => sp,
        Expr::FStr(_, sp) => sp,
        Expr::BinOp { span, .. } => span,
        Expr::UnaryOp { span, .. } => span,
        Expr::Call { span, .. } => span,
        Expr::Field { span, .. } => span,
        Expr::Index { span, .. } => span,
    }
}

/// The position after the line breaks at `p`.
pub open spec fn nl_end(t: TokSeq, p: int) -> int
    decreases t.len() - p,
{
    if 0 <= p < t.len() && t[p].0 is Newline {
        nl_end(t, p + 1)
    } else {
        p
    }
}

/// The binary operator of binding level `level` that a token stands for.
pub open spec fn binop_of(tk: Token, level: int) -> Option<BinOp> {
    match tk {
        Token::PipePipe => if level == 6 {
            Some(BinOp::Or)
        } else {
            None
        },
        Token::AmpAmp => if level == 5 {
            Some(BinOp::And)
        } else {
            None
        },
        Token::EqEq => if level == 4 {
            Some(BinOp::Eq)
        } else {
            None
        },
        Token::BangEq => if level == 4 {
            Some(BinOp::NotEq)
        } else {
            None
        },
        Token::LtEq => if level == 3 {
            Some(BinOp::LtEq)
        } else {
            None
        },
        Token::GtEq => if level == 3 {
            Some(BinOp::GtEq)
        } else {
            None
        },
        Token::Lt => if level == 3 {
            Some(BinOp::Lt)
        } else {
            None
        },
        Token::Gt => if level == 3 {
            Some(BinOp::Gt)
        } else {
            None
        },
        Token::Plus => if level == 2 {
            Some(BinOp::Add)
        } else {
            None
        },
        Token::Minus => if level == 2 {
            Some(BinOp::Sub)
        } else {
            None
        },
        Token::Star => if level == 1 {
            Some(BinOp::Mul)
        } else {
            None
        },
        Token::Slash => if level == 1 {
            Some(BinOp::Div)
        } else {
            None
        },
        Token::Percent => if level == 1 {
            Some(BinOp::Mod)
        } else {
            None
        },
        _ => None,
    }
}

/// Each operator token stands for the operator that is written as that
/// token: the lexer, reading how the operator is written, gives back the
/// same token, and reads all of it.
pub proof fn lemma_binop_spelling(tk: Token, level: int)
    ensures
        binop_of(tk, level) matches Some(op) ==> operator(op_text(op), 0) == Some(
            (tk@, op_text(op).len() as int),
        ),
{
    reveal_strlit("+");
    reveal_strlit("-");
    reveal_strlit("*");
    reveal_strlit("/");
    reveal_strlit("%");
    reveal_strlit("==");
    reveal_strlit("!=");
    reveal_strlit("<");
    reveal_strlit("<=");
    reveal_strlit(">");
    reveal_strlit(">=");
    reveal_strlit("&&");
    reveal_strlit("||");
}

/// Distinct operator tokens, or one token at distinct levels, stand for
/// distinct operators.
pub proof fn lemma_binop_of_injective(t1: Token, l1: int, t2: Token, l2: int)
    ensures
        binop_of(t1, l1) is Some && binop_of(t1, l1) == binop_of(t2, l2) ==> t1 == t2 && l1 == l2,
{
}

/// The prefix operator a token stands for.
pub open spec fn unop_of(tk: Token) -> Option<UnaryOp> {
    match tk {
        Token::Minus => Some(UnaryOp::Neg),
        Token::Bang => Some(UnaryOp::Not),
        _ => None,
    }
}

/// The token for negation is the one for subtraction, and the token for
/// logical not is the one the lexer reads from `!`.
pub proof fn lemma_unop_tokens(tk: Token)
    ensures
        unop_of(tk) == Some(UnaryOp::Neg) <==> binop_of(tk, 2) == Some(BinOp::Sub),
        unop_of(tk) == Some(UnaryOp::Not) ==> operator("!"@, 0) == Some((tk@, 1int)),
{
    reveal_strlit("!");
}

/// Whether `e` is the literal or name that the token spells, with its span.
pub open spec fn literal(tk: Token, sp: Span, e: Expr) -> bool {
    match tk {
        Token::Int(n) => e == Expr::Int(n, sp),
        Token::Float(a) => e matches Expr::Float(b, s) && b@ == a@ && s == sp,
        Token::Str(a) => e matches Expr::Str(b, s) && b@ == a@ && s == sp,
        Token::True => e == Expr::Bool(true, sp),
        Token::False => e == Expr::Bool(false, sp),
        Token::Ident(a) => e matches Expr::Ident(b, s) && b@ == a@ && s == sp,
        _ => false,
    }
}

/// `e` is the expression that tokens `p..q` spell at binding level `level`.
pub open spec fn spells_expr(t: TokSeq, p: int, q: int, e: Expr, level: int) -> bool
    decreases q - p, level + 3,
{
    if !(0 <= p && p < q && q <= t.len() && -2 <= level <= 6) {
        false
    } else if level >= 1 {
        ||| spells_expr(t, p, q, e, level - 1)
        ||| (e matches Expr::BinOp { op, lhs, rhs, span } && exists|m: int|
            #![trigger t[m]]
            p < m && m < q && binop_of(t[m].0, level) == Some(op) && spells_expr(t, p, m, *lhs, level)
                && spells_expr(t, m + 1, q, *rhs, level - 1) && span == merge_m(
                span_of(*lhs),
                span_of(*rhs),
            ))
    } else if level == 0 {
        ||| spells_expr(t, p, q, e, -1)
        ||| (unop_of(t[p].0) is Some && prefixed(t, p, q, e, between(t, p, q - 1)))
    } else if level == -1 {
        ||| spells_expr(t, p, q, e, -2)
        ||| (e matches Expr::Call { callee, args, span } && exists|m: int|
            #![trigger t[m]]
            p < m && m < q && t[m].0 is LParen && spells_expr(t, p, m, *callee, -1) && spells_list(
                t,
                m + 1,
                q,
                args@,
                false,
            ) && span == merge_m(span_of(*callee), between(t, m, q - 1)))
        ||| (e matches Expr::Field { object, field, span } && p < q - 2 && t[q - 2].0 is Dot && (
        t[q - 1].0 matches Token::Ident(n) && n@ == field@) && spells_expr(t, p, q - 2, *object, -1)
            && span == merge_m(span_of(*object), between(t, q - 2, q - 1)))
        ||| (e matches Expr::Index { object, index, span } && exists|m: int|
            #![trigger t[m]]
            p < m && m < q - 1 && t[m].0 is LBracket && t[q - 1].0 is RBracket && spells_expr(
                t,
                p,
                m,
                *object,
                -1,
            ) && spells_expr(t, m + 1, q - 1, *index, 6) && span == merge_m(
                span_of(*object),
                between(t, m, q - 1),
            ))
    } else {
        ||| (q == p + 1 && literal(t[p].0, t[p].1, e))
        ||| (t[p].0 is LBracket && (e matches Expr::Array(elems, span) && spells_list(
            t,
            p + 1,
            q,
            elems@,
            true,
        ) && span == between(t, p, q - 1)))
        ||| (t[p].0 is LParen && t[q - 1].0 is RParen && spells_expr(t, p + 1, q - 1, e, 6))
    }
}

/// `e` is a chain of prefix operators, the first at `p`, applied to a
/// postfix expression that ends at `q`; every operator node has span `sp`.
pub open spec fn prefixed(t: TokSeq, p: int, q: int, e: Expr, sp: Span) -> bool
    decreases q - p, 1int,
{
    if !(0 <= p && p < q && q <= t.len()) {
        false
    } else {
        match unop_of(t[p].0) {
            Some(op) => e matches Expr::UnaryOp { op: o, expr, span } && o == op && span == sp && (
            spells_expr(t, p + 1, q, *expr, -1) || prefixed(t, p + 1, q, *expr, sp)),
            None => false,
        }
    }
}

/// The closing delimiter of a list: `]` or `)`.
pub open spec fn closes(tk: Token, bracket: bool) -> bool {
    if bracket {
        tk is RBracket
    } else {
        tk is RParen
    }
}

/// Tokens `p..q` spell `items`, each followed by a comma, line breaks
/// allowed around them; `q` is just after the last comma.
pub open spec fn list_prefix(t: TokSeq, p: int, q: int, items: Seq<Expr>) -> bool
    decreases q - p, 0int,
{
    if items.len() == 0 {
        q == p
    } else if !(0 <= p && p < q && q <= t.len()) {
        false
    } else {
        exists|a: int, b: int, m: int|
            #![trigger t[a], t[b], t[m]]
            p <= a && a <= b && b < m && m < q && b == nl_end(t, a) && list_prefix(
                t,
                p,
                a,
                items.drop_last(),
            ) && spells_expr(t, b, m, items.last(), 6) && nl_end(t, m) == q - 1 && t[q - 1].0 is Comma
    }
}

/// Tokens `p..q` spell the items of a list and its closing delimiter:
/// items separated by commas, line breaks allowed around them, an optional
/// trailing comma.
pub open spec fn spells_list(t: TokSeq, p: int, q: int, items: Seq<Expr>, bracket: bool) -> bool
    decreases q - p, 2int,
{
    if !(0 <= p && p < q && q <= t.len()) {
        false
    } else {
        &&& closes(t[q - 1].0, bracket)
        &&& {
        ||| (exists|a: int|
            #![trigger t[a]]
            p <= a && a < q && list_prefix(t, p, a, items) && nl_end(t, a) == q - 1)
        ||| (items.len() > 0 && exists|a: int, b: int, m: int|
            #![trigger t[a], t[b], t[m]]
            p <= a && a <= b && b < m && m < q && b == nl_end(t, a) && list_prefix(
                t,
                p,
                a,
                items.drop_last(),
            ) && spells_expr(t, b, m, items.last(), 6) && nl_end(t, m) == q - 1)
        }
    }
}

// ── Types ─────────────────────────────────────────────────────────────

/// The name a type token stands for: a primitive type keyword or a name.
pub open spec fn named_type_of(tk: Token) -> Option<Seq<char>> {
    match tk {
        Token::TypeI8 => Some("i8"@),
        Token::TypeI16 => Some("i16"@),
        Token::TypeI32 => Some("i32"@),
        Token::TypeI64 => Some("i64"@),
        Token::TypeU8 => Some("u8"@),
        Token::TypeU16 => Some("u16"@),
        Token::TypeU32 => Some("u32"@),
        Token::TypeU64 => Some("u64"@),
        Token::TypeF32 => Some("f32"@),
        Token::TypeF64 => Some("f64"@),
        Token::TypeBool => Some("bool"@),
        Token::TypeStr => Some("str"@),
        Token::TypeVoid => Some("void"@),
        Token::Ident(n) => Some(n@),
        _ => None,
    }
}

/// The named type that token `p` spells.
pub open spec fn spells_named(t: TokSeq, p: int, ty: TypeExpr) -> bool {
    0 <= p < t.len() && named_type_of(t[p].0) is Some && (ty matches TypeExpr::Named(n, sp) && n@
        == named_type_of(t[p].0)->0 && sp == t[p].1)
}

/// Tokens `p..q` spell the type `ty`: `[]` and a named type, or a named
/// type.
pub open spec fn spells_type(t: TokSeq, p: int, q: int, ty: TypeExpr) -> bool {
    ||| (q == p + 1 && spells_named(t, p, ty))
    ||| (q == p + 3 && 0 <= p && q <= t.len() && t[p].0 is LBracket && t[p + 1].0 is RBracket && (
    ty matches TypeExpr::Array(inner, sp) && spells_named(t, p + 2, *inner) && sp == between(
        t,
        p,
        q - 1,
    )))
}

/// Tokens `p..q` spell an optional annotation: nothing, or `:` and a type.
pub open spec fn spells_annotation(t: TokSeq, p: int, q: int, ty: Option<TypeExpr>) -> bool {
    match ty {
        None => q == p,
        Some(x) => 0 <= p < t.len() && t[p].0 is Colon && spells_type(t, p + 1, q, x),
    }
}

// ── Statements ────────────────────────────────────────────────────────

/// The operator a compound assignment token applies; plain `=` applies
/// none.
pub open spec fn assign_of(tk: Token) -> Option<Option<BinOp>> {
    match tk {
        Token::Eq => Some(None),
        Token::PlusEq => Some(Some(BinOp::Add)),
        Token::MinusEq => Some(Some(BinOp::Sub)),
        Token::StarEq => Some(Some(BinOp::Mul)),
        Token::SlashEq => Some(Some(BinOp::Div)),
        _ => None,
    }
}

/// `let` or `var` at `p`: a name, an optional annotation, `=` and the value,
/// ending at `q`.
pub open spec fn spells_binding(t: TokSeq, p: int, q: int, name: Seq<char>, ty: Option<TypeExpr>, value: Expr) -> bool {
    exists|a: int, b: int|
        #![trigger t[a], t[b]]
        p + 2 <= a && a < b && b < q && (t[p + 1].0 matches Token::Ident(n) && n@ == name)
            && spells_annotation(t, p + 2, a, ty) && t[a].0 is Eq && b == a + 1 && spells_expr(
            t,
            b,
            q,
            value,
            6,
        )
}

/// `st` is the statement that tokens `p..q` spell. Statements that end in
/// a block end with its `BlockEnd`. A compound assignment `x op= e` stands
/// for `x = x op e`, whose left operand is a copy of the target.
pub open spec fn spells_stmt(t: TokSeq, p: int, q: int, st: Stmt) -> bool
    decreases q - p, 3int,
{
    if !(0 <= p && p < q && q <= t.len()) {
        false
    } else {
        match st {
            Stmt::Let { name, ty, value, span } => t[p].0 is Let && spells_binding(t, p, q, name@, ty, value)
                && span == between(t, p, q - 1),
            Stmt::Var { name, ty, value, span } => t[p].0 is Var && spells_binding(t, p, q, name@, ty, value)
                && span == between(t, p, q - 1),
            Stmt::Return { value, span } => t[p].0 is Return && match value {
                Some(v) => spells_expr(t, p + 1, q, v, 6) && span == between(t, p, q - 1),
                None => q == p + 1 && span == t[p].1,
            },
            Stmt::Break { span } => t[p].0 is Break && q == p + 1 && span == t[p].1,
            Stmt::Continue { span } => t[p].0 is Continue && q == p + 1 && span == t[p].1,
            Stmt::Pass { span } => t[p].0 is Pass && q == p + 1 && span == t[p].1,
            Stmt::If { condition, then_body, elif_branches, else_body, span } => {
                &&& t[p].0 is If
                &&& span == between(t, p, q - 1)
                &&& exists|c: int, d: int, e: int|
                    #![trigger t[c], t[d], t[e]]
                    p + 1 < c && c < d && d <= e && e <= q && spells_expr(t, p + 1, c, condition, 6)
                        && t[c].0 is Colon && spells_block(t, c + 1, d, then_body@) && elifs_prefix(
                        t,
                        d,
                        e,
                        elif_branches@,
                    ) && match else_body {
                        None => q == e,
                        Some(b) => exists|k: int|
                            #![trigger t[k]]
                            e <= k && k + 2 < q && k == nl_end(t, e) && t[k].0 is Else && t[k + 1].0 is Colon
                                && spells_block(t, k + 2, q, b@),
                    }
            },
            Stmt::While { condition, body, span } => {
                &&& t[p].0 is While
                &&& span == between(t, p, q - 1)
                &&& exists|c: int|
                    #![trigger t[c]]
                    p + 1 < c && c + 1 < q && spells_expr(t, p + 1, c, condition, 6) && t[c].0 is Colon
                        && spells_block(t, c + 1, q, body@)
            },
            Stmt::For { var, iter, body, span } => {
                &&& t[p].0 is For
                &&& span == between(t, p, q - 1)
                &&& (t[p + 1].0 matches Token::Ident(n) && n@ == var@)
                &&& exists|c: int|
                    #![trigger t[c]]
                    p + 3 < c && c + 1 < q && t[p + 2].0 is In && spells_expr(t, p + 3, c, iter, 6)
                        && t[c].0 is Colon && spells_block(t, c + 1, q, body@)
            },
            Stmt::Expr(e) => spells_expr(t, p, q, e, 6),
            Stmt::Assign { target, value, span } => {
                &&& span == between(t, p, q - 1)
                &&& exists|m: int|
                    #![trigger t[m]]
                    p < m && m + 1 < q && spells_expr(t, p, m, target, 6) && match assign_of(t[m].0) {
                        Some(None) => spells_expr(t, m + 1, q, value, 6),
                        Some(Some(op)) => value matches Expr::BinOp { op: o, lhs: _, rhs, span: vs } && o
                            == op && spells_expr(t, m + 1, q, *rhs, 6) && vs == merge_m(
                            span_of(target),
                            span_of(*rhs),
                        ),
                        None => false,
                    }
            },
        }
    }
}

/// The `elif` branches after an `if` block that ends at `p`, each possibly
/// after line breaks, ending at `q`.
pub open spec fn elifs_prefix(t: TokSeq, p: int, q: int, brs: Seq<(Expr, Vec<Stmt>)>) -> bool
    decreases q - p, 1int,
{
    if brs.len() == 0 {
        q == p
    } else if !(0 <= p && p < q && q <= t.len()) {
        false
    } else {
        exists|f: int, k: int, c: int|
            #![trigger t[f], t[k], t[c]]
            p <= f && f <= k && k + 1 < c && c < q && k == nl_end(t, f) && elifs_prefix(
                t,
                p,
                f,
                brs.drop_last(),
            ) && t[k].0 is Elif && spells_expr(t, k + 1, c, brs.last().0, 6) && t[c].0 is Colon
                && spells_block(t, c + 1, q, brs.last().1@)
    }
}

/// The statements of a block from its `BlockStart` at `p`, ending at `q`
/// just after the last of them; a statement after the first follows a line
/// break.
pub open spec fn block_prefix(t: TokSeq, p: int, q: int, sts: Seq<Stmt>) -> bool
    decreases q - p, 1int,
{
    if sts.len() == 0 {
        q == p + 1
    } else if !(0 <= p && p < q && q <= t.len()) {
        false
    } else {
        exists|c: int, k: int|
            #![trigger t[c], t[k]]
            p < c && c <= k && k < q && k == nl_end(t, c) && (sts.len() == 1 || c < k) && block_prefix(
                t,
                p,
                c,
                sts.drop_last(),
            ) && spells_stmt(t, k, q, sts.last())
    }
}

/// Tokens `p..q` spell a block: `BlockStart`, its statements separated by
/// line breaks, and `BlockEnd`.
pub open spec fn spells_block(t: TokSeq, p: int, q: int, sts: Seq<Stmt>) -> bool
    decreases q - p, 2int,
{
    if !(0 <= p && p < q && q <= t.len()) {
        false
    } else {
        &&& t[p].0 is BlockStart
        &&& t[q - 1].0 is BlockEnd
        &&& exists|c: int|
            #![trigger t[c]]
            p < c && c < q && block_prefix(t, p, c, sts) && nl_end(t, c) == q - 1
    }
}

// ── Items ─────────────────────────────────────────────────────────────

/// Tokens `a..m` spell one decorator argument: a name, or `name = value`
/// with a string or a name as the value.
pub open spec fn spells_dec_arg(t: TokSeq, a: int, m: int, arg: DecoratorArg) -> bool {
    0 <= a && m <= t.len() && a < m && (t[a].0 matches Token::Ident(k) && match arg {
        DecoratorArg::Ident(x) => m == a + 1 && x@ == k@,
        DecoratorArg::KeyValue { key, value } => m == a + 3 && key@ == k@ && t[a + 1].0 is Eq && (
        (t[a + 2].0 matches Token::Str(v) && v@ == value@) || (t[a + 2].0 matches Token::Ident(v)
            && v@ == value@)),
    })
}

/// Decorator arguments from `p`, each followed by a comma; `q` is just
/// after the last comma.
pub open spec fn dec_args_prefix(t: TokSeq, p: int, q: int, args: Seq<DecoratorArg>) -> bool
    decreases args.len(),
{
    if args.len() == 0 {
        q == p
    } else {
        exists|a: int, m: int|
            #![trigger t[a], t[m]]
            p <= a && a < m && m + 1 == q && dec_args_prefix(t, p, a, args.drop_last()) && spells_dec_arg(
                t,
                a,
                m,
                args.last(),
            ) && t[m].0 is Comma
    }
}

/// The arguments of a decorator from `p`, just after its `(`, through the
/// `)` that ends at `q`; a trailing comma is allowed.
pub open spec fn spells_dec_args(t: TokSeq, p: int, q: int, args: Seq<DecoratorArg>) -> bool {
    &&& p < q <= t.len()
    &&& t[q - 1].0 is RParen
    &&& {
        ||| dec_args_prefix(t, p, q - 1, args)
        ||| (args.len() > 0 && exists|a: int|
            #![trigger t[a]]
            p <= a && a < q - 1 && dec_args_prefix(t, p, a, args.drop_last()) && spells_dec_arg(
                t,
                a,
                q - 1,
                args.last(),
            ))
    }
}

/// Tokens `p..q` spell a decorator: its token, arguments in parentheses if
/// any, and a line break if one follows.
pub open spec fn spells_decorator(t: TokSeq, p: int, q: int, d: Decorator) -> bool {
    &&& 0 <= p < t.len()
    &&& (t[p].0 matches Token::Decorator(n) && n@ == d.name@)
    &&& d.span == t[p].1
    &&& exists|k: int|
        #![trigger t[k]]
        p < k && k <= q && q <= t.len() && ((d.args@.len() == 0 && k == p + 1) || (p + 1 < t.len()
            && t[p + 1].0 is LParen && spells_dec_args(t, p + 2, k, d.args@))) && (q == k || (q == k
            + 1 && t[k].0 is Newline))
}

/// Decorators from `p` to `q`, one after another.
pub open spec fn decorators_prefix(t: TokSeq, p: int, q: int, decs: Seq<Decorator>) -> bool
    decreases decs.len(),
{
    if decs.len() == 0 {
        q == p
    } else {
        exists|c: int|
            #![trigger t[c]]
            p <= c && c < q && decorators_prefix(t, p, c, decs.drop_last()) && spells_decorator(
                t,
                c,
                q,
                decs.last(),
            )
    }
}

/// Tokens `a..m` spell a parameter: a name and an optional annotation.
pub open spec fn spells_param(t: TokSeq, a: int, m: int, prm: Param) -> bool {
    0 <= a && a < m && m <= t.len() && (t[a].0 matches Token::Ident(n) && n@ == prm.name@)
        && spells_annotation(t, a + 1, m, prm.ty) && prm.span == between(t, a, m - 1)
}

/// Parameters from `p`, each followed by a comma; `q` is just after the
/// last comma.
pub open spec fn params_prefix(t: TokSeq, p: int, q: int, ps: Seq<Param>) -> bool
    decreases ps.len(),
{
    if ps.len() == 0 {
        q == p
    } else {
        exists|a: int, m: int|
            #![trigger t[a], t[m]]
            p <= a && a < m && m + 1 == q && params_prefix(t, p, a, ps.drop_last()) && spells_param(
                t,
                a,
                m,
                ps.last(),
            ) && t[m].0 is Comma
    }
}

/// The parameters of a function from `p`, just after its `(`, through the
/// `)` that ends at `q`; a trailing comma is allowed.
pub open spec fn spells_params(t: TokSeq, p: int, q: int, ps: Seq<Param>) -> bool {
    &&& p < q <= t.len()
    &&& t[q - 1].0 is RParen
    &&& {
        ||| params_prefix(t, p, q - 1, ps)
        ||| (ps.len() > 0 && exists|a: int|
            #![trigger t[a]]
            p <= a && a < q - 1 && params_prefix(t, p, a, ps.drop_last()) && spells_param(
                t,
                a,
                q - 1,
                ps.last(),
            ))
    }
}

/// Tokens `p..q` spell a function: decorators, `fn`, its name, parameters
/// in parentheses, an optional `-> type`, `:` and the body.
pub open spec fn spells_function(t: TokSeq, p: int, q: int, f: Function) -> bool {
    &&& 0 <= p < q <= t.len()
    &&& f.span == between(t, p, q - 1)
    &&& exists|a: int, b: int, c: int|
        #![trigger t[a], t[b], t[c]]
        p <= a && a + 3 < b && b <= c && c < q && decorators_prefix(t, p, a, f.decorators@) && t[a].0 is Fn
            && (t[a + 1].0 matches Token::Ident(n) && n@ == f.name@) && t[a + 2].0 is LParen
            && spells_params(t, a + 3, b, f.params@) && match f.return_ty {
            None => c == b,
            Some(ty) => t[b].0 is Arrow && spells_type(t, b + 1, c, ty),
        } && t[c].0 is Colon && spells_block(t, c + 1, q, f.body@)
}

/// Tokens `a..m` spell a struct field: `name: type` and a line break if one
/// follows.
pub open spec fn spells_field(t: TokSeq, a: int, m: int, f: StructField) -> bool {
    &&& 0 <= a && a + 2 < m <= t.len()
    &&& (t[a].0 matches Token::Ident(n) && n@ == f.name@)
    &&& t[a + 1].0 is Colon
    &&& f.span == between(t, a, m - 1)
    &&& exists|k: int|
        #![trigger t[k]]
        a + 2 < k && k <= m && spells_type(t, a + 2, k, f.ty) && (m == k || (m == k + 1 && t[k].0 is Newline))
}

/// Struct fields after the `BlockStart` at `p`, ending at `q`.
pub open spec fn fields_prefix(t: TokSeq, p: int, q: int, fs: Seq<StructField>) -> bool
    decreases fs.len(),
{
    if fs.len() == 0 {
        q == p + 1
    } else {
        exists|c: int|
            #![trigger t[c]]
            p < c && c < q && fields_prefix(t, p, c, fs.drop_last()) && spells_field(t, c, q, fs.last())
    }
}

/// A block of struct fields: `BlockStart`, fields, `BlockEnd`.
pub open spec fn spells_fields(t: TokSeq, p: int, q: int, fs: Seq<StructField>) -> bool {
    0 <= p && p + 1 < q && q <= t.len() && t[p].0 is BlockStart && t[q - 1].0 is BlockEnd && fields_prefix(
        t,
        p,
        q - 1,
        fs,
    )
}

/// Tokens `a..m` spell a configuration entry: `key: value` and a line
/// break if one follows.
pub open spec fn spells_entry(t: TokSeq, a: int, m: int, e: (String, String)) -> bool {
    &&& 0 <= a && a + 3 <= m <= t.len()
    &&& (t[a].0 matches Token::Ident(k) && k@ == e.0@)
    &&& t[a + 1].0 is Colon
    &&& (t[a + 2].0 matches Token::Ident(v) && v@ == e.1@)
    &&& (m == a + 3 || (m == a + 4 && t[a + 3].0 is Newline))
}

/// Configuration entries from `p` to `q`, one after another.
pub open spec fn entries_prefix(t: TokSeq, p: int, q: int, es: Seq<(String, String)>) -> bool
    decreases es.len(),
{
    if es.len() == 0 {
        q == p
    } else {
        exists|c: int|
            #![trigger t[c]]
            p <= c && c < q && entries_prefix(t, p, c, es.drop_last()) && spells_entry(t, c, q, es.last())
    }
}

/// The path of an import from its `import` keyword at `p`: names separated
/// by dots, ending at `q`.
pub open spec fn import_path(t: TokSeq, p: int, q: int, path: Seq<String>) -> bool
    decreases path.len(),
{
    if path.len() == 0 {
        false
    } else if path.len() == 1 {
        q == p + 2 && p + 1 < t.len() && (t[p + 1].0 matches Token::Ident(n) && n@ == path[0]@)
    } else {
        exists|c: int|
            #![trigger t[c]]
            p < c && c + 2 == q && q <= t.len() && import_path(t, p, c, path.drop_last()) && t[c].0 is Dot
                && (t[c + 1].0 matches Token::Ident(n) && n@ == path.last()@)
    }
}

/// `it` is the item that tokens `p..q` spell.
pub open spec fn spells_item(t: TokSeq, p: int, q: int, it: Item) -> bool
    decreases q - p, 3int,
{
    if !(0 <= p && p < q && q <= t.len()) {
        false
    } else {
        match it {
            Item::Function(f) => spells_function(t, p, q, f),
            Item::Module(m) => {
                &&& m.span == between(t, p, q - 1)
                &&& exists|a: int|
                    #![trigger t[a]]
                    p <= a && a + 3 < q && decorators_prefix(t, p, a, m.decorators@) && t[a].0 is Module
                        && (t[a + 1].0 matches Token::Ident(n) && n@ == m.name@) && t[a + 2].0 is Colon
                        && spells_module_items(t, a + 3, q, m.items@)
            },
            Item::Struct(sd) => {
                &&& sd.span == between(t, p, q - 1)
                &&& exists|a: int|
                    #![trigger t[a]]
                    p <= a && a + 3 < q && decorators_prefix(t, p, a, sd.decorators@) && t[a].0 is Struct
                        && (t[a + 1].0 matches Token::Ident(n) && n@ == sd.name@) && t[a + 2].0 is Colon
                        && spells_fields(t, a + 3, q, sd.fields@)
            },
            Item::Import(d) => {
                &&& t[p].0 is Import
                &&& d.span == between(t, p, q - 1)
                &&& exists|c: int|
                    #![trigger t[c]]
                    p < c && c <= q && import_path(t, p, c, d.path@) && match d.alias {
                        None => q == c,
                        Some(a) => q == c + 2 && t[c].0 is As && (t[c + 1].0 matches Token::Ident(n) && n@
                            == a@),
                    }
            },
            Item::RuntimeConfig(rc) => {
                &&& p + 3 < q
                &&& (t[p].0 matches Token::Decorator(n) && n@ == "runtime"@)
                &&& t[p + 1].0 is Colon
                &&& t[p + 2].0 is BlockStart
                &&& t[q - 1].0 is BlockEnd
                &&& entries_prefix(t, p + 3, q - 1, rc.entries@)
                &&& rc.span == between(t, p, q - 1)
            },
            Item::Expr(e) => spells_expr(t, p, q, e, 6),
        }
    }
}

/// Items of a module after the `BlockStart` at `p`, each possibly after
/// line breaks, ending at `q`.
pub open spec fn module_prefix(t: TokSeq, p: int, q: int, items: Seq<Item>) -> bool
    decreases q - p, 1int,
{
    if items.len() == 0 {
        q == p + 1
    } else if !(0 <= p && p < q && q <= t.len()) {
        false
    } else {
        exists|c: int, k: int|
            #![trigger t[c], t[k]]
            p < c && c <= k && k < q && k == nl_end(t, c) && module_prefix(t, p, c, items.drop_last())
                && spells_item(t, k, q, items.last())
    }
}

/// Tokens `p..q` spell the body of a module: `BlockStart`, items, line
/// breaks, `BlockEnd`.
pub open spec fn spells_module_items(t: TokSeq, p: int, q: int, items: Seq<Item>) -> bool
    decreases q - p, 2int,
{
    if !(0 <= p && p < q && q <= t.len()) {
        false
    } else {
        &&& t[p].0 is BlockStart
        &&& t[q - 1].0 is BlockEnd
        &&& exists|c: int|
            #![trigger t[c]]
            p < c && c < q && module_prefix(t, p, c, items) && nl_end(t, c) == q - 1
    }
}

/// Some range of tokens spells the item `it`.
pub open spec fn spelled_item(t: TokSeq, it: Item) -> bool {
    exists|a: int, b: int| #[trigger] spells_item(t, a, b, it)
}

// ── Where an expression parse ends ───────────────────────────────────────────

/// Where a parse ends: the position after what it read, or where and why it
/// failed.
pub type Ending = Result<int, (usize, &'static str)>;

/// A failure at `q`, expecting `what`.
pub open spec fn fail_at(q: int, what: &'static str) -> Ending {
    Err((q as usize, what))
}

/// Where the operands of binding level `level` joined by its operators,
/// read from `p`, end (levels 0 and below: a prefix expression).
pub open spec fn expr_end(t: TokSeq, p: int, level: int) -> Ending
    decreases t.len() - p, if level > 0 {
        level + 10
    } else {
        10
    },
{
    if p < 0 || p > t.len() {
        fail_at(p, "expression")
    } else if level <= 0 {
        unary_end(t, p)
    } else {
        match expr_end(t, p, level - 1) {
            Ok(q) => if p < q <= t.len() {
                ops_end(t, q, level)
            } else {
                Ok(q)
            },
            Err(f) => Err(f),
        }
    }
}

/// Where the operators of level `level` and their operands, read from `q`
/// after a first operand, end.
pub open spec fn ops_end(t: TokSeq, q: int, level: int) -> Ending
    decreases t.len() - q, 1int,
{
    if 0 <= q < t.len() && level > 0 && binop_of(t[q].0, level) is Some {
        match expr_end(t, q + 1, level - 1) {
            Ok(q2) => if q < q2 <= t.len() {
                ops_end(t, q2, level)
            } else {
                Ok(q2)
            },
            Err(f) => Err(f),
        }
    } else {
        Ok(q)
    }
}

/// Where prefix operators and then a postfix expression, read from `p`,
/// end.
pub open spec fn unary_end(t: TokSeq, p: int) -> Ending
    decreases t.len() - p, 9int,
{
    if 0 <= p < t.len() && unop_of(t[p].0) is Some {
        unary_end(t, p + 1)
    } else {
        postfix_end(t, p)
    }
}

/// Where a primary expression and the calls, field accesses and indexing
/// after it, read from `p`, end.
pub open spec fn postfix_end(t: TokSeq, p: int) -> Ending
    decreases t.len() - p, 8int,
{
    match primary_end(t, p) {
        Ok(q) => if p < q <= t.len() {
            calls_end(t, q)
        } else {
            Ok(q)
        },
        Err(f) => Err(f),
    }
}

/// Where the calls, field accesses and indexing from `q` end.
pub open spec fn calls_end(t: TokSeq, q: int) -> Ending
    decreases t.len() - q, 1int,
{
    if 0 <= q < t.len() && t[q].0 is LParen {
        match list_end(t, q + 1, false) {
            Ok(q2) => if q < q2 <= t.len() {
                calls_end(t, q2)
            } else {
                Ok(q2)
            },
            Err(f) => Err(f),
        }
    } else if 0 <= q < t.len() && t[q].0 is Dot {
        if q + 1 < t.len() && t[q + 1].0 is Ident {
            calls_end(t, q + 2)
        } else {
            fail_at(q + 1, "identifier")
        }
    } else if 0 <= q < t.len() && t[q].0 is LBracket {
        match expr_end(t, q + 1, 6) {
            Ok(q2) => if q < q2 < t.len() && t[q2].0 is RBracket {
                calls_end(t, q2 + 1)
            } else {
                fail_at(q2, "`]`")
            },
            Err(f) => Err(f),
        }
    } else {
        Ok(q)
    }
}

/// Where a literal, a name, an array literal or a parenthesized
/// expression at `p` ends.
pub open spec fn primary_end(t: TokSeq, p: int) -> Ending
    decreases t.len() - p, 7int,
{
    if p < 0 || p >= t.len() {
        fail_at(p, "expression")
    } else {
        match t[p].0 {
            Token::Int(_) | Token::Float(_) | Token::Str(_) | Token::True | Token::False | Token::Ident(
                _,
            ) => Ok(p + 1),
            Token::LBracket => list_end(t, p + 1, true),
            Token::LParen => match expr_end(t, p + 1, 6) {
                Ok(q) => if 0 <= q < t.len() && t[q].0 is RParen {
                    Ok(q + 1)
                } else {
                    fail_at(q, "`)`")
                },
                Err(f) => Err(f),
            },
            _ => fail_at(p, "expression"),
        }
    }
}

/// Where a comma-separated list, read from `p` just after its opening
/// delimiter, ends: just after its closing one.
pub open spec fn list_end(t: TokSeq, p: int, bracket: bool) -> Ending
    decreases t.len() - p, 30int,
{
    let q = nl_end(t, p);
    if p <= q <= t.len() {
        items_end(t, q, bracket)
    } else {
        Ok(q)
    }
}

/// Where the rest of a list, read from `q` (at an item or at the closing
/// delimiter), ends.
pub open spec fn items_end(t: TokSeq, q: int, bracket: bool) -> Ending
    decreases t.len() - q, 29int,
{
    if 0 <= q < t.len() && closes(t[q].0, bracket) {
        Ok(q + 1)
    } else {
        match expr_end(t, q, 6) {
            Ok(q2) => {
                let q3 = nl_end(t, q2);
                if 0 <= q3 < t.len() && t[q3].0 is Comma {
                    let q4 = nl_end(t, q3 + 1);
                    if q < q4 <= t.len() {
                        items_end(t, q4, bracket)
                    } else {
                        Ok(q4)
                    }
                } else if 0 <= q3 < t.len() && closes(t[q3].0, bracket) {
                    Ok(q3 + 1)
                } else {
                    fail_at(q3, "`,` or closing delimiter")
                }
            },
            Err(f) => Err(f),
        }
    }
}

// ── Where a statement parse ends ─────────────────────────────────────────────

/// Where a named type (a primitive type keyword or a name) at `p` ends.
pub open spec fn named_end(t: TokSeq, p: int) -> Ending {
    if 0 <= p < t.len() && named_type_of(t[p].0) is Some {
        Ok(p + 1)
    } else {
        fail_at(p, "type")
    }
}

/// Where a type (`[]` and a named type, or a named type) at `p` ends.
pub open spec fn type_end(t: TokSeq, p: int) -> Ending {
    if 0 <= p && p + 1 < t.len() && t[p].0 is LBracket && t[p + 1].0 is RBracket {
        named_end(t, p + 2)
    } else {
        named_end(t, p)
    }
}

/// Where an optional `: type` at `p` ends.
pub open spec fn annotation_end(t: TokSeq, p: int) -> Ending {
    if 0 <= p < t.len() && t[p].0 is Colon {
        type_end(t, p + 1)
    } else {
        Ok(p)
    }
}

/// Where `let`/`var`, a name, an optional annotation, `=` and a value,
/// read from `p`, end.
pub open spec fn binding_end(t: TokSeq, p: int) -> Ending {
    if !(0 <= p + 1 < t.len() && t[p + 1].0 is Ident) {
        fail_at(p + 1, "identifier")
    } else {
        match annotation_end(t, p + 2) {
            Ok(a) => if 0 <= a < t.len() && t[a].0 is Eq {
                expr_end(t, a + 1, 6)
            } else {
                fail_at(a, "`=`")
            },
            Err(f) => Err(f),
        }
    }
}

/// Where a statement at `p` ends.
pub open spec fn stmt_end(t: TokSeq, p: int) -> Ending
    decreases t.len() - p, 50int,
{
    if p < 0 || p >= t.len() {
        fail_at(p, "statement")
    } else {
        match t[p].0 {
            Token::Let | Token::Var => binding_end(t, p),
            Token::Return => match expr_end(t, p + 1, 6) {
                Ok(q) => Ok(q),
                Err(_) => Ok(p + 1),
            },
            Token::Break | Token::Continue | Token::Pass => Ok(p + 1),
            Token::If => if_end(t, p),
            Token::While => match expr_end(t, p + 1, 6) {
                Ok(c) => if p < c < t.len() && t[c].0 is Colon {
                    block_end(t, c + 1)
                } else {
                    fail_at(c, "`:`")
                },
                Err(f) => Err(f),
            },
            Token::For => if !(p + 1 < t.len() && t[p + 1].0 is Ident) {
                fail_at(p + 1, "identifier")
            } else if !(p + 2 < t.len() && t[p + 2].0 is In) {
                fail_at(p + 2, "`in`")
            } else {
                match expr_end(t, p + 3, 6) {
                    Ok(c) => if p < c < t.len() && t[c].0 is Colon {
                        block_end(t, c + 1)
                    } else {
                        fail_at(c, "`:`")
                    },
                    Err(f) => Err(f),
                }
            },
            _ => match expr_end(t, p, 6) {
                Ok(q) => if 0 <= q < t.len() && assign_of(t[q].0) is Some {
                    expr_end(t, q + 1, 6)
                } else {
                    Ok(q)
                },
                Err(f) => Err(f),
            },
        }
    }
}

/// Where an `if` statement at `p` ends: condition, `:`, block, `elif`
/// clauses and an optional `else` clause.
pub open spec fn if_end(t: TokSeq, p: int) -> Ending
    decreases t.len() - p, 40int,
{
    match expr_end(t, p + 1, 6) {
        Ok(c) => if 0 <= p < c < t.len() && t[c].0 is Colon {
            match block_end(t, c + 1) {
                Ok(d) => if c < d <= t.len() {
                    match elifs_end(t, d) {
                        Ok(e) => {
                            let k = nl_end(t, e);
                            if 0 <= k < t.len() && t[k].0 is Else {
                                if k + 1 < t.len() && t[k + 1].0 is Colon {
                                    if d <= e <= k {
                                        block_end(t, k + 2)
                                    } else {
                                        Ok(e)
                                    }
                                } else {
                                    fail_at(k + 1, "`:`")
                                }
                            } else {
                                Ok(e)
                            }
                        },
                        Err(f) => Err(f),
                    }
                } else {
                    Ok(d)
                },
                Err(f) => Err(f),
            }
        } else {
            fail_at(c, "`:`")
        },
        Err(f) => Err(f),
    }
}

/// Where the `elif` clauses from `q` end.
pub open spec fn elifs_end(t: TokSeq, q: int) -> Ending
    decreases t.len() - q, 39int,
{
    let k = nl_end(t, q);
    if 0 <= q <= k < t.len() && t[k].0 is Elif {
        match expr_end(t, k + 1, 6) {
            Ok(k2) => if k < k2 < t.len() && t[k2].0 is Colon {
                match block_end(t, k2 + 1) {
                    Ok(k4) => if q < k4 <= t.len() {
                        elifs_end(t, k4)
                    } else {
                        Ok(k4)
                    },
                    Err(f) => Err(f),
                }
            } else {
                fail_at(k2, "`:`")
            },
            Err(f) => Err(f),
        }
    } else {
        Ok(q)
    }
}

/// Where an indented block at `p` ends: its `BlockStart`, statements on
/// lines of their own and its `BlockEnd`.
pub open spec fn block_end(t: TokSeq, p: int) -> Ending
    decreases t.len() - p, 70int,
{
    if 0 <= p < t.len() && t[p].0 is BlockStart {
        stmts_end(t, p + 1, true)
    } else {
        fail_at(p, "an indented block")
    }
}

/// Where the statements of a block from `q` and its `BlockEnd` end; the
/// next statement needs a line break before it unless `first`.
pub open spec fn stmts_end(t: TokSeq, q: int, first: bool) -> Ending
    decreases t.len() - q, 60int,
{
    let k = nl_end(t, q);
    if !(0 <= q <= k <= t.len()) {
        fail_at(k, "a line break")
    } else if k < t.len() && t[k].0 is BlockEnd {
        Ok(k + 1)
    } else if !(first || k > q) {
        fail_at(k, "a line break")
    } else {
        match stmt_end(t, k) {
            Ok(k2) => if k < k2 <= t.len() {
                stmts_end(t, k2, false)
            } else {
                Ok(k2)
            },
            Err(f) => Err(f),
        }
    }
}

// ── Where an item parse ends ─────────────────────────────────────────────────

/// Where decorator arguments from `q` (just after `(` or a comma) end: just
/// after the closing `)`.
pub open spec fn dec_args_end(t: TokSeq, q: int) -> Ending
    decreases t.len() - q, 1int,
{
    if 0 <= q < t.len() && t[q].0 is RParen {
        Ok(q + 1)
    } else if !(0 <= q < t.len() && t[q].0 is Ident) {
        fail_at(q, "identifier")
    } else if q + 1 < t.len() && t[q + 1].0 is Eq {
        if q + 2 < t.len() && (t[q + 2].0 is Str || t[q + 2].0 is Ident) {
            dec_sep_end(t, q + 3)
        } else {
            fail_at(q + 2, "a string or a name")
        }
    } else {
        dec_sep_end(t, q + 1)
    }
}

/// Where decorator arguments end, read from `m` just after an argument.
pub open spec fn dec_sep_end(t: TokSeq, m: int) -> Ending
    decreases t.len() - m, 0int,
{
    if 0 <= m < t.len() && t[m].0 is Comma {
        dec_args_end(t, m + 1)
    } else if 0 <= m < t.len() && t[m].0 is RParen {
        Ok(m + 1)
    } else {
        fail_at(m, "`,` or `)`")
    }
}

/// Where the decorators from `q` end, each with its arguments and a line
/// break if one follows.
pub open spec fn decorators_end(t: TokSeq, q: int) -> Ending
    decreases t.len() - q,
{
    if 0 <= q < t.len() && t[q].0 is Decorator {
        if q + 1 < t.len() && t[q + 1].0 is LParen {
            match dec_args_end(t, q + 2) {
                Ok(k) => if q < k <= t.len() {
                    decorators_end(
                        t,
                        if k < t.len() && t[k].0 is Newline {
                            k + 1
                        } else {
                            k
                        },
                    )
                } else {
                    Ok(k)
                },
                Err(f) => Err(f),
            }
        } else {
            decorators_end(
                t,
                if q + 1 < t.len() && t[q + 1].0 is Newline {
                    q + 2
                } else {
                    q + 1
                },
            )
        }
    } else {
        Ok(q)
    }
}

/// Where a parameter (a name and an optional annotation) at `q` ends.
pub open spec fn param_end(t: TokSeq, q: int) -> Ending {
    if 0 <= q < t.len() && t[q].0 is Ident {
        annotation_end(t, q + 1)
    } else {
        fail_at(q, "identifier")
    }
}

/// Where the parameters from `q` (just after `(` or a comma) end: just
/// after the closing `)`.
pub open spec fn params_end(t: TokSeq, q: int) -> Ending
    decreases t.len() - q,
{
    if 0 <= q < t.len() && t[q].0 is RParen {
        Ok(q + 1)
    } else {
        match param_end(t, q) {
            Ok(k) => if !(q < k) {
                Ok(k)
            } else if 0 <= k < t.len() && t[k].0 is Comma {
                params_end(t, k + 1)
            } else if 0 <= k < t.len() && t[k].0 is RParen {
                Ok(k + 1)
            } else {
                fail_at(k, "`,` or `)`")
            },
            Err(f) => Err(f),
        }
    }
}

/// Where a function at `p` ends: decorators, `fn`, name, parameters, an
/// optional `-> type`, `:` and the body.
pub open spec fn function_end(t: TokSeq, p: int) -> Ending {
    match decorators_end(t, p) {
        Ok(a) => if !(0 <= a < t.len() && t[a].0 is Fn) {
            fail_at(a, "`fn`")
        } else if !(a + 1 < t.len() && t[a + 1].0 is Ident) {
            fail_at(a + 1, "identifier")
        } else if !(a + 2 < t.len() && t[a + 2].0 is LParen) {
            fail_at(a + 2, "`(`")
        } else {
            match params_end(t, a + 3) {
                Ok(b) => match (if 0 <= b < t.len() && t[b].0 is Arrow {
                    type_end(t, b + 1)
                } else {
                    Ok(b)
                }) {
                    Ok(c) => if 0 <= c < t.len() && t[c].0 is Colon {
                        block_end(t, c + 1)
                    } else {
                        fail_at(c, "`:`")
                    },
                    Err(f) => Err(f),
                },
                Err(f) => Err(f),
            }
        },
        Err(f) => Err(f),
    }
}

/// Where the struct fields from `q` and the closing `BlockEnd` end.
pub open spec fn fields_rest_end(t: TokSeq, q: int) -> Ending
    decreases t.len() - q,
{
    if 0 <= q < t.len() && t[q].0 is BlockEnd {
        Ok(q + 1)
    } else if !(0 <= q < t.len() && t[q].0 is Ident) {
        fail_at(q, "identifier")
    } else if !(q + 1 < t.len() && t[q + 1].0 is Colon) {
        fail_at(q + 1, "`:`")
    } else {
        match type_end(t, q + 2) {
            Ok(k) => if q < k <= t.len() {
                fields_rest_end(
                    t,
                    if k < t.len() && t[k].0 is Newline {
                        k + 1
                    } else {
                        k
                    },
                )
            } else {
                Ok(k)
            },
            Err(f) => Err(f),
        }
    }
}

/// Where a block of struct fields at `p` ends.
pub open spec fn fields_end(t: TokSeq, p: int) -> Ending {
    if 0 <= p < t.len() && t[p].0 is BlockStart {
        fields_rest_end(t, p + 1)
    } else {
        fail_at(p, "an indented block")
    }
}

/// Where the configuration entries from `q` and the closing `BlockEnd`
/// end.
pub open spec fn entries_end(t: TokSeq, q: int) -> Ending
    decreases t.len() - q,
{
    if 0 <= q < t.len() && t[q].0 is BlockEnd {
        Ok(q + 1)
    } else if !(0 <= q < t.len() && t[q].0 is Ident) {
        fail_at(q, "identifier")
    } else if !(q + 1 < t.len() && t[q + 1].0 is Colon) {
        fail_at(q + 1, "`:`")
    } else if !(q + 2 < t.len() && t[q + 2].0 is Ident) {
        fail_at(q + 2, "identifier")
    } else {
        entries_end(
            t,
            if q + 3 < t.len() && t[q + 3].0 is Newline {
                q + 4
            } else {
                q + 3
            },
        )
    }
}

/// Whether `@runtime` and `:` start at `p`.
pub open spec fn runtime_at(t: TokSeq, p: int) -> bool {
    0 <= p && p + 1 < t.len() && (t[p].0 matches Token::Decorator(n) && n@ == "runtime"@) && t[p + 1].0 is Colon
}

/// Where the dotted rest of an import path from `q` ends.
pub open spec fn path_end(t: TokSeq, q: int) -> Ending
    decreases t.len() - q,
{
    if 0 <= q < t.len() && t[q].0 is Dot {
        if q + 1 < t.len() && t[q + 1].0 is Ident {
            path_end(t, q + 2)
        } else {
            fail_at(q + 1, "identifier")
        }
    } else {
        Ok(q)
    }
}

/// Where an import at `p` ends: its path and an optional `as name`.
pub open spec fn import_end(t: TokSeq, p: int) -> Ending {
    if !(0 <= p && p + 1 < t.len() && t[p + 1].0 is Ident) {
        fail_at(p + 1, "identifier")
    } else {
        match path_end(t, p + 2) {
            Ok(c) => if 0 <= c < t.len() && t[c].0 is As {
                if c + 1 < t.len() && t[c + 1].0 is Ident {
                    Ok(c + 2)
                } else {
                    fail_at(c + 1, "identifier")
                }
            } else {
                Ok(c)
            },
            Err(f) => Err(f),
        }
    }
}

/// Where an item at `p` ends.
pub open spec fn item_end(t: TokSeq, p: int) -> Ending
    decreases t.len() - p, 1int,
{
    if p < 0 || p >= t.len() {
        fail_at(p, "item")
    } else if runtime_at(t, p) {
        if p + 2 < t.len() && t[p + 2].0 is BlockStart {
            entries_end(t, p + 3)
        } else {
            fail_at(p + 2, "an indented block")
        }
    } else if t[p].0 is Import {
        import_end(t, p)
    } else if !(t[p].0 is Decorator || t[p].0 is Fn || t[p].0 is Module || t[p].0 is Struct) {
        expr_end(t, p, 6)
    } else {
        match decorators_end(t, p) {
            Ok(q) => if !(p <= q < t.len()) {
                fail_at(q, "`fn`, `module` or `struct`")
            } else if t[q].0 is Fn {
                function_end(t, p)
            } else if t[q].0 is Module || t[q].0 is Struct {
                if !(q + 1 < t.len() && t[q + 1].0 is Ident) {
                    fail_at(q + 1, "identifier")
                } else if !(q + 2 < t.len() && t[q + 2].0 is Colon) {
                    fail_at(q + 2, "`:`")
                } else if t[q].0 is Module {
                    module_body_end(t, q + 3)
                } else {
                    fields_end(t, q + 3)
                }
            } else {
                fail_at(q, "`fn`, `module` or `struct`")
            },
            Err(f) => Err(f),
        }
    }
}

/// Where the body of a module at `p` ends.
pub open spec fn module_body_end(t: TokSeq, p: int) -> Ending
    decreases t.len() - p, 3int,
{
    if 0 <= p < t.len() && t[p].0 is BlockStart {
        module_rest_end(t, p + 1)
    } else {
        fail_at(p, "an indented block")
    }
}

/// Where the items of a module from `q` and its `BlockEnd` end.
pub open spec fn module_rest_end(t: TokSeq, q: int) -> Ending
    decreases t.len() - q, 2int,
{
    let k = nl_end(t, q);
    if !(0 <= q <= k <= t.len()) {
        fail_at(k, "item")
    } else if k < t.len() && t[k].0 is BlockEnd {
        Ok(k + 1)
    } else {
        match item_end(t, k) {
            Ok(k2) => if k < k2 <= t.len() {
                module_rest_end(t, k2)
            } else {
                Ok(k2)
            },
            Err(f) => Err(f),
        }
    }
}

} // verus!
