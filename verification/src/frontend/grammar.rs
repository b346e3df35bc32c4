//! The grammar of expressions: when an expression tree is what a range of
//! tokens spells.
//!
//! Levels of binding, loosest first: 7 pipes `|>` (which may continue on
//! the next line), 6 `or`, 5 `and`, 4 comparisons, `in` and `is`, 3 `+`
//! `-`, 2 `*` `/` `//` `%`, 1 `**` (to the right), 0 prefix `-` and `not`,
//! -1 struct literals, calls, method calls, field accesses and indexing, -2
//! literals, names, lambdas, parenthesized expressions, lists and `await`.
use vstd::prelude::*;
use crate::frontend::token::{Token, TokenKind};
use crate::infer::ast::{BinaryOperator, Expression, UnaryOperator};

verus! {

/// The position after the line breaks and comments at `p`, doc comments
/// not included.
pub open spec fn noise_end(t: Seq<Token>, p: int) -> int
    decreases t.len() - p,
{
    if 0 <= p < t.len() && (t[p].kind == TokenKind::Newline || t[p].kind == TokenKind::Comment) {
        noise_end(t, p + 1)
    } else {
        p
    }
}

/// Whether a token kind continues an expression on the next line.
pub open spec fn continues_kind(k: TokenKind) -> bool {
    k == TokenKind::Pipe || k == TokenKind::Plus || k == TokenKind::Minus || k == TokenKind::Star
        || k == TokenKind::Slash || k == TokenKind::And || k == TokenKind::Or || k == TokenKind::Dot
}

/// The position after the line breaks at `p` when the token after them
/// continues the expression; `p` otherwise.
pub open spec fn cont_end(t: Seq<Token>, p: int) -> int {
    let k = noise_end(t, p);
    if k < t.len() && continues_kind(t[k].kind) {
        k
    } else {
        p
    }
}

/// The comparison operator a token kind stands for.
pub open spec fn comparison_of(k: TokenKind) -> Option<BinaryOperator> {
    if k == TokenKind::Eq {
        Some(BinaryOperator::Eq)
    } else if k == TokenKind::NotEq {
        Some(BinaryOperator::NotEq)
    } else if k == TokenKind::Lt {
        Some(BinaryOperator::Lt)
    } else if k == TokenKind::Gt {
        Some(BinaryOperator::Gt)
    } else if k == TokenKind::LtEq {
        Some(BinaryOperator::LtEq)
    } else if k == TokenKind::GtEq {
        Some(BinaryOperator::GtEq)
    } else if k == TokenKind::In {
        Some(BinaryOperator::In)
    } else if k == TokenKind::Is {
        Some(BinaryOperator::Is)
    } else {
        None
    }
}

/// The left-associative binary operator of level `level` (6 to 2) that a
/// token kind stands for.
pub open spec fn binary_of(k: TokenKind, level: int) -> Option<BinaryOperator> {
    if level == 6 {
        if k == TokenKind::Or {
            Some(BinaryOperator::Or)
        } else {
            None
        }
    } else if level == 5 {
        if k == TokenKind::And {
            Some(BinaryOperator::And)
        } else {
            None
        }
    } else if level == 4 {
        comparison_of(k)
    } else if level == 3 {
        if k == TokenKind::Plus {
            Some(BinaryOperator::Add)
        } else if k == TokenKind::Minus {
            Some(BinaryOperator::Sub)
        } else {
            None
        }
    } else if level == 2 {
        if k == TokenKind::Star {
            Some(BinaryOperator::Mul)
        } else if k == TokenKind::Slash {
            Some(BinaryOperator::Div)
        } else if k == TokenKind::DoubleSlash {
            Some(BinaryOperator::IntDiv)
        } else if k == TokenKind::Percent {
            Some(BinaryOperator::Mod)
        } else {
            None
        }
    } else {
        None
    }
}

/// `cs` without `_` separators.
pub open spec fn without_underscores(cs: Seq<char>) -> Seq<char>
    decreases cs.len(),
{
    if cs.len() == 0 {
        Seq::empty()
    } else if cs.last() == '_' {
        without_underscores(cs.drop_last())
    } else {
        without_underscores(cs.drop_last()).push(cs.last())
    }
}

/// The text without separators of a prefix of `cs` begins the text
/// without separators of `cs`.
pub proof fn lemma_without_underscores_prefix(cs: Seq<char>, k: int)
    requires
        0 <= k <= cs.len(),
    ensures
        without_underscores(cs.subrange(0, k)).len() <= without_underscores(cs).len(),
        without_underscores(cs).subrange(0, without_underscores(cs.subrange(0, k)).len() as int)
            == without_underscores(cs.subrange(0, k)),
    decreases cs.len(),
{
    if k == cs.len() {
        assert(cs.subrange(0, k) == cs);
        assert(without_underscores(cs).subrange(0, without_underscores(cs).len() as int) == without_underscores(cs));
    } else {
        let cl = cs.drop_last();
        assert(cl.subrange(0, k) == cs.subrange(0, k));
        lemma_without_underscores_prefix(cl, k);
        let w = without_underscores(cs);
        let wl = without_underscores(cl);
        let n = without_underscores(cs.subrange(0, k)).len() as int;
        if cs.last() != '_' {
            assert(w == wl.push(cs.last()));
            assert(w.subrange(0, n) == wl.subrange(0, n));
        }
    }
}

/// A float literal's text without separators: digits, one point, digits,
/// with at least one digit on either side.
pub open spec fn float_shape(w: Seq<char>) -> bool {
    exists|i: int|
        #![trigger w[i]]
        0 < i < w.len() - 1 && w[i] == '.' && (forall|j: int|
            0 <= j < w.len() && j != i ==> '0' <= #[trigger] w[j] <= '9')
}

/// The value of decimal digits.
pub open spec fn digits_value(ds: Seq<char>) -> int
    decreases ds.len(),
{
    if ds.len() == 0 {
        0
    } else {
        digits_value(ds.drop_last()) * 10 + (ds.last() as int - '0' as int)
    }
}

/// The value of decimal digits is no less than that of any of their
/// prefixes.
pub proof fn lemma_digits_prefix(ds: Seq<char>, k: int)
    requires
        0 <= k <= ds.len(),
        forall|i: int| 0 <= i < ds.len() ==> '0' <= #[trigger] ds[i] <= '9',
    ensures
        0 <= digits_value(ds.subrange(0, k)) <= digits_value(ds),
    decreases ds.len(),
{
    if k == ds.len() {
        assert(ds.subrange(0, k) == ds);
        if ds.len() > 0 {
            lemma_digits_prefix(ds.drop_last(), 0);
        }
    } else {
        let dl = ds.drop_last();
        assert(dl.subrange(0, k) == ds.subrange(0, k));
        lemma_digits_prefix(dl, k);
    }
}

/// Every character of `s` is a decimal digit.
pub open spec fn all_digits(s: Seq<char>) -> bool {
    forall|i: int| 0 <= i < s.len() ==> '0' <= #[trigger] s[i] <= '9'
}

/// The value of an integer literal's text, `_` separators ignored: an
/// optional sign and decimal digits, when it fits in an `i64`.
pub open spec fn int_value(text: Seq<char>) -> Option<i64> {
    let ds = without_underscores(text);
    if ds.len() == 0 {
        None
    } else {
        let start: int = if ds[0] == '-' || ds[0] == '+' {
            1
        } else {
            0
        };
        let body = ds.subrange(start, ds.len() as int);
        let v = if ds[0] == '-' {
            -digits_value(body)
        } else {
            digits_value(body)
        };
        if body.len() > 0 && all_digits(body) && i64::MIN <= v <= i64::MAX {
            Some(v as i64)
        } else {
            None
        }
    }
}

/// An integer literal's text has no value when its body, after the sign,
/// holds a character that is not a digit, or when its value does not fit.
pub proof fn lemma_int_value_none(text: Seq<char>, start: int, body: Seq<char>)
    requires
        without_underscores(text).len() > 0,
        start == (if without_underscores(text)[0] == '-' || without_underscores(text)[0] == '+' {
            1int
        } else {
            0int
        }),
        body == without_underscores(text).subrange(start, without_underscores(text).len() as int),
        !(forall|j: int| 0 <= j < body.len() ==> '0' <= #[trigger] body[j] <= '9') || (
        without_underscores(text)[0] != '-' && digits_value(body) > i64::MAX) || (without_underscores(
            text,
        )[0] == '-' && -digits_value(body) < i64::MIN),
    ensures
        int_value(text) is None,
{
    let ds = without_underscores(text);
    assert(ds.subrange(start, ds.len() as int) == body);
    if !(forall|j: int| 0 <= j < body.len() ==> '0' <= #[trigger] body[j] <= '9') {
        assert(!all_digits(body));
    }
}

/// `e` is the literal or name the token at `p` spells: values of integer
/// literals are read in decimal, float literals keep their text without
/// separators, string literals lose their quotes.
pub open spec fn literal_at(t: Seq<Token>, p: int, e: Expression) -> bool {
    let k = t[p].kind;
    let text = t[p].text@;
    if k == TokenKind::IntLiteral {
        e matches Expression::IntLiteral(v) && int_value(text) == Some(v)
    } else if k == TokenKind::FloatLiteral {
        e matches Expression::FloatLiteral(f) && f@ == without_underscores(text)
    } else if k == TokenKind::StringLiteral {
        e matches Expression::StringLiteral(s) && s@ == unquoted(text)
    } else if k == TokenKind::True {
        e matches Expression::BoolLiteral(b) && b
    } else if k == TokenKind::False {
        e matches Expression::BoolLiteral(b) && !b
    } else if k == TokenKind::NoneKw {
        e is NoneLiteral
    } else if k == TokenKind::SelfKw {
        e matches Expression::Identifier(n) && n@ == "self"@
    } else if k == TokenKind::Identifier {
        e matches Expression::Identifier(n) && n@ == text
    } else if k == TokenKind::FStringLiteral {
        e is FString
    } else {
        false
    }
}

/// The position of the first character of `cs` from `i` that is not a
/// quote.
pub open spec fn quotes_end(cs: Seq<char>, i: int) -> int
    decreases cs.len() - i,
{
    if 0 <= i < cs.len() && cs[i] == '"' {
        quotes_end(cs, i + 1)
    } else {
        i
    }
}

/// The position after the last character of `cs` before `j` that is not a
/// quote, but not before `a`.
pub open spec fn quotes_start(cs: Seq<char>, a: int, j: int) -> int
    decreases j - a,
{
    if a < j && cs[j - 1] == '"' {
        quotes_start(cs, a, j - 1)
    } else {
        j
    }
}

/// `cs` without the quotes at either end.
pub open spec fn unquoted(cs: Seq<char>) -> Seq<char> {
    let a = quotes_end(cs, 0);
    cs.subrange(a, quotes_start(cs, a, cs.len() as int))
}

/// `e` is the expression that tokens `p..q` spell at binding level `level`.
#[verifier::opaque]
pub open spec fn spells_expression(t: Seq<Token>, p: int, q: int, e: Expression, level: int) -> bool
    decreases q - p, level + 3,
{
    if !(0 <= p && p < q && q <= t.len() && -2 <= level <= 7) {
        false
    } else if level == 7 {
        ||| exists|m: int|
            #![trigger t[m]]
            p < m && m <= q && spells_expression(t, p, m, e, 6) && q == cont_end(t, m)
        ||| (e matches Expression::Pipe { left, right } && exists|m: int, a: int, b: int|
            #![trigger t[m], t[a], t[b]]
            p < m && m < a && a < b && b <= q && spells_expression(t, p, m, *left, 7) && t[m].kind
                == TokenKind::Pipe && a == noise_end(t, m + 1) && spells_expression(t, a, b, *right, 6)
                && q == cont_end(t, b))
    } else if level >= 2 {
        ||| spells_expression(t, p, q, e, level - 1)
        ||| (e matches Expression::BinaryOp { left, op, right } && exists|m: int|
            #![trigger t[m]]
            p < m && m < q && binary_of(t[m].kind, level) == Some(op) && spells_expression(
                t,
                p,
                m,
                *left,
                level,
            ) && spells_expression(t, m + 1, q, *right, level - 1))
    } else if level == 1 {
        ||| spells_expression(t, p, q, e, 0)
        ||| (e matches Expression::BinaryOp { left, op, right } && op == BinaryOperator::Power
            && exists|m: int|
            #![trigger t[m]]
            p < m && m < q && t[m].kind == TokenKind::Power && spells_expression(t, p, m, *left, 0)
                && spells_expression(t, m + 1, q, *right, 1))
    } else if level == 0 {
        ||| spells_expression(t, p, q, e, -1)
        ||| (t[p].kind == TokenKind::Minus && (e matches Expression::UnaryOp { op, operand } && op
            == UnaryOperator::Neg && spells_expression(t, p + 1, q, *operand, 0)))
        ||| (t[p].kind == TokenKind::Not && (e matches Expression::UnaryOp { op, operand } && op
            == UnaryOperator::Not && spells_expression(t, p + 1, q, *operand, 0)))
    } else if level == -1 {
        ||| spells_expression(t, p, q, e, -2)
        ||| (e matches Expression::StructInit { name, fields } && exists|m: int|
            #![trigger t[m]]
            p < m && m < q && t[m].kind == TokenKind::LBrace && spells_expression(
                t,
                p,
                m,
                Expression::Identifier(name),
                -1,
            ) && spells_inits(t, m + 1, q, fields@))
        ||| (e matches Expression::Call { function, args } && exists|m: int|
            #![trigger t[m]]
            p < m && m < q && t[m].kind == TokenKind::LParen && spells_expression(t, p, m, *function, -1)
                && spells_args(t, m + 1, q, args@, TokenKind::RParen))
        ||| (e matches Expression::MethodCall { object, method, args } && exists|m: int, n: int, k: int|
            #![trigger t[m], t[n], t[k]]
            p < m && n == m + 1 && k == n + 1 && k < q && t[m].kind == TokenKind::Dot && t[n].kind
                == TokenKind::Identifier && t[n].text@ == method@ && t[k].kind == TokenKind::LParen
                && spells_expression(t, p, m, *object, -1) && spells_args(t, k + 1, q, args@, TokenKind::RParen))
        ||| (e matches Expression::FieldAccess { object, field } && p < q - 2 && t[q - 2].kind
            == TokenKind::Dot && t[q - 1].kind == TokenKind::Identifier && t[q - 1].text@ == field@
            && spells_expression(t, p, q - 2, *object, -1))
        ||| (e matches Expression::Index { object, index } && exists|m: int|
            #![trigger t[m]]
            p < m && m + 1 < q - 1 && t[m].kind == TokenKind::LBracket && t[q - 1].kind == TokenKind::RBracket
                && spells_expression(t, p, m, *object, -1) && spells_expression(t, m + 1, q - 1, *index, 7))
    } else {
        ||| (q == p + 1 && literal_at(t, p, e))
        ||| (t[p].kind == TokenKind::Identifier && p + 2 < q && t[p + 1].kind == TokenKind::FatArrow && (
        e matches Expression::Lambda { params, body } && params@.len() == 1 && params@[0]@
            == t[p].text@ && spells_expression(t, p + 2, q, *body, 7)))
        ||| (t[p].kind == TokenKind::LParen && t[q - 1].kind == TokenKind::RParen && spells_expression(
            t,
            p + 1,
            q - 1,
            e,
            7,
        ))
        ||| (t[p].kind == TokenKind::LBracket && (e matches Expression::List(elements) && spells_args(
            t,
            p + 1,
            q,
            elements@,
            TokenKind::RBracket,
        )))
        ||| (t[p].kind == TokenKind::Await && (e matches Expression::Await(inner) && spells_expression(
            t,
            p + 1,
            q,
            *inner,
            7,
        )))
    }
}

/// Expressions from `p`, each followed by a comma or not; `q` is just
/// after the last of them (or its comma).
#[verifier::opaque]
pub open spec fn args_prefix(t: Seq<Token>, p: int, q: int, items: Seq<Expression>) -> bool
    decreases q - p, 11int,
{
    if items.len() == 0 {
        q == p
    } else if !(0 <= p && p < q && q <= t.len()) {
        false
    } else {
        exists|a: int, m: int|
            #![trigger t[a], t[m]]
            p <= a && a < m && m <= q && args_prefix(t, p, a, items.drop_last()) && spells_expression(
                t,
                a,
                m,
                items.last(),
                7,
            ) && (q == m || (q == m + 1 && t[m].kind == TokenKind::Comma))
    }
}

/// Tokens `p..q` spell expressions, separated by optional commas, and the
/// closing token `close`.
#[verifier::opaque]
pub open spec fn spells_args(t: Seq<Token>, p: int, q: int, items: Seq<Expression>, close: TokenKind) -> bool
    decreases q - p, 1int,
{
    if !(0 <= p && p < q && q <= t.len()) {
        false
    } else {
        t[q - 1].kind == close && args_prefix(t, p, q - 1, items)
    }
}

/// Field initializers `name: value` from `p`, each followed by a comma or
/// not; `q` is just after the last of them (or its comma).
#[verifier::opaque]
pub open spec fn inits_prefix(t: Seq<Token>, p: int, q: int, fields: Seq<(String, Expression)>) -> bool
    decreases q - p, 0int,
{
    if fields.len() == 0 {
        q == p
    } else if !(0 <= p && p < q && q <= t.len()) {
        false
    } else {
        exists|a: int, c: int, m: int|
            #![trigger t[a], t[c], t[m]]
            p <= a && c == a + 1 && c + 1 < m && m <= q && inits_prefix(t, p, a, fields.drop_last())
                && t[a].kind == TokenKind::Identifier && t[a].text@ == fields.last().0@ && t[c].kind
                == TokenKind::Colon && spells_expression(t, c + 1, m, fields.last().1, 7) && (q == m || (q
                == m + 1 && t[m].kind == TokenKind::Comma))
    }
}

/// Tokens `p..q` spell the field initializers of a struct literal and its
/// closing `}`.
#[verifier::opaque]
pub open spec fn spells_inits(t: Seq<Token>, p: int, q: int, fields: Seq<(String, Expression)>) -> bool
    decreases q - p, 1int,
{
    if !(0 <= p && p < q && q <= t.len()) {
        false
    } else {
        t[q - 1].kind == TokenKind::RBrace && inits_prefix(t, p, q - 1, fields)
    }
}

/// An expression of one level is one of each looser level up to 6.
pub proof fn lemma_lift(t: Seq<Token>, p: int, q: int, e: Expression, level: int)
    requires
        -2 <= level <= 5,
        spells_expression(t, p, q, e, level),
    ensures
        spells_expression(t, p, q, e, level + 1),
{
    reveal(spells_expression);
}

/// An operand of a pipe is a pipe expression, line breaks before a
/// continuing token taken.
pub proof fn lemma_pipe_start(t: Seq<Token>, p: int, m: int, q: int, e: Expression)
    requires
        p < m <= q,
        spells_expression(t, p, m, e, 6),
        q == cont_end(t, m),
    ensures
        spells_expression(t, p, q, e, 7),
{
    reveal(spells_expression);
}

/// A pipe `l |> r`.
pub proof fn lemma_pipe(t: Seq<Token>, p: int, m: int, a: int, b: int, q: int, l: Expression, r: Expression)
    requires
        p < m && m < a && a < b && b <= q,
        spells_expression(t, p, m, l, 7),
        t[m].kind == TokenKind::Pipe,
        a == noise_end(t, m + 1),
        spells_expression(t, a, b, r, 6),
        q == cont_end(t, b),
    ensures
        spells_expression(t, p, q, Expression::Pipe { left: Box::new(l), right: Box::new(r) }, 7),
{
    reveal(spells_expression);
}

/// A left-associative binary operation `l op r` of level 2 to 6.
pub proof fn lemma_binary(
    t: Seq<Token>,
    p: int,
    m: int,
    q: int,
    l: Expression,
    op: BinaryOperator,
    r: Expression,
    level: int,
)
    requires
        2 <= level <= 6,
        p < m < q,
        binary_of(t[m].kind, level) == Some(op),
        spells_expression(t, p, m, l, level),
        spells_expression(t, m + 1, q, r, level - 1),
    ensures
        spells_expression(t, p, q, Expression::BinaryOp { left: Box::new(l), op, right: Box::new(r) }, level),
{
    reveal(spells_expression);
}

/// A power `l ** r`, to the right.
pub proof fn lemma_power(t: Seq<Token>, p: int, m: int, q: int, l: Expression, r: Expression)
    requires
        p < m < q,
        t[m].kind == TokenKind::Power,
        spells_expression(t, p, m, l, 0),
        spells_expression(t, m + 1, q, r, 1),
    ensures
        spells_expression(
            t,
            p,
            q,
            Expression::BinaryOp { left: Box::new(l), op: BinaryOperator::Power, right: Box::new(r) },
            1,
        ),
{
    reveal(spells_expression);
}

/// A prefix `-x` or `not x`.
pub proof fn lemma_prefix(t: Seq<Token>, p: int, q: int, op: UnaryOperator, x: Expression)
    requires
        0 <= p,
        (t[p].kind == TokenKind::Minus && op == UnaryOperator::Neg) || (t[p].kind == TokenKind::Not && op
            == UnaryOperator::Not),
        spells_expression(t, p + 1, q, x, 0),
    ensures
        spells_expression(t, p, q, Expression::UnaryOp { op, operand: Box::new(x) }, 0),
{
    reveal(spells_expression);
}

/// A struct literal `Name { field: value, .. }`.
pub proof fn lemma_struct(
    t: Seq<Token>,
    p: int,
    m: int,
    q: int,
    name: String,
    fields: Vec<(String, Expression)>,
)
    requires
        p < m < q,
        t[m].kind == TokenKind::LBrace,
        spells_expression(t, p, m, Expression::Identifier(name), -1),
        q <= t.len(),
        spells_inits(t, m + 1, q, fields@),
    ensures
        spells_expression(t, p, q, Expression::StructInit { name, fields }, -1),
{
    reveal(spells_inits);
    reveal(spells_expression);
}

/// A call `f(args)`.
pub proof fn lemma_call(t: Seq<Token>, p: int, m: int, q: int, f: Expression, args: Vec<Expression>)
    requires
        p < m < q,
        t[m].kind == TokenKind::LParen,
        spells_expression(t, p, m, f, -1),
        q <= t.len(),
        spells_args(t, m + 1, q, args@, TokenKind::RParen),
    ensures
        spells_expression(t, p, q, Expression::Call { function: Box::new(f), args }, -1),
{
    reveal(spells_args);
    reveal(spells_expression);
}

/// A method call `o.method(args)`.
pub proof fn lemma_method(
    t: Seq<Token>,
    p: int,
    m: int,
    q: int,
    o: Expression,
    method: String,
    args: Vec<Expression>,
)
    requires
        p < m && m + 2 < q,
        t[m].kind == TokenKind::Dot,
        t[m + 1].kind == TokenKind::Identifier,
        t[m + 1].text@ == method@,
        t[m + 2].kind == TokenKind::LParen,
        spells_expression(t, p, m, o, -1),
        q <= t.len(),
        spells_args(t, m + 3, q, args@, TokenKind::RParen),
    ensures
        spells_expression(t, p, q, Expression::MethodCall { object: Box::new(o), method, args }, -1),
{
    reveal(spells_args);
    reveal(spells_expression);
    assert(t[m + 1] == t[m + 1] && t[m + 2] == t[m + 2]);
}

/// A field access `o.field`.
pub proof fn lemma_field(t: Seq<Token>, p: int, q: int, o: Expression, field: String)
    requires
        p < q - 2,
        q <= t.len(),
        t[q - 2].kind == TokenKind::Dot,
        t[q - 1].kind == TokenKind::Identifier,
        t[q - 1].text@ == field@,
        spells_expression(t, p, q - 2, o, -1),
    ensures
        spells_expression(t, p, q, Expression::FieldAccess { object: Box::new(o), field }, -1),
{
    reveal(spells_expression);
}

/// Indexing `o[i]`.
pub proof fn lemma_index(t: Seq<Token>, p: int, m: int, q: int, o: Expression, i: Expression)
    requires
        p < m && m + 1 < q - 1,
        q <= t.len(),
        t[m].kind == TokenKind::LBracket,
        t[q - 1].kind == TokenKind::RBracket,
        spells_expression(t, p, m, o, -1),
        spells_expression(t, m + 1, q - 1, i, 7),
    ensures
        spells_expression(t, p, q, Expression::Index { object: Box::new(o), index: Box::new(i) }, -1),
{
    reveal(spells_expression);
}

/// A literal or a name, one token.
pub proof fn lemma_literal(t: Seq<Token>, p: int, e: Expression)
    requires
        0 <= p < t.len(),
        literal_at(t, p, e),
    ensures
        spells_expression(t, p, p + 1, e, -2),
{
    reveal(spells_expression);
}

/// A one-parameter lambda `x => body`.
pub proof fn lemma_lambda(t: Seq<Token>, p: int, q: int, params: Vec<String>, body: Expression)
    requires
        0 <= p,
        p + 2 < q,
        t[p].kind == TokenKind::Identifier,
        t[p + 1].kind == TokenKind::FatArrow,
        params@.len() == 1,
        params@[0]@ == t[p].text@,
        spells_expression(t, p + 2, q, body, 7),
    ensures
        spells_expression(t, p, q, Expression::Lambda { params, body: Box::new(body) }, -2),
{
    reveal(spells_expression);
}

/// A parenthesized expression.
pub proof fn lemma_paren(t: Seq<Token>, p: int, q: int, e: Expression)
    requires
        0 <= p,
        q <= t.len(),
        t[p].kind == TokenKind::LParen,
        t[q - 1].kind == TokenKind::RParen,
        spells_expression(t, p + 1, q - 1, e, 7),
    ensures
        spells_expression(t, p, q, e, -2),
{
    reveal(spells_expression);
}

/// A list `[a, b, ..]`.
pub proof fn lemma_list(t: Seq<Token>, p: int, q: int, elements: Vec<Expression>)
    requires
        0 <= p,
        t[p].kind == TokenKind::LBracket,
        p + 1 < q <= t.len(),
        spells_args(t, p + 1, q, elements@, TokenKind::RBracket),
    ensures
        spells_expression(t, p, q, Expression::List(elements), -2),
{
    reveal(spells_args);
    reveal(spells_expression);
}

/// `await` and an expression.
pub proof fn lemma_await(t: Seq<Token>, p: int, q: int, inner: Expression)
    requires
        0 <= p,
        t[p].kind == TokenKind::Await,
        spells_expression(t, p + 1, q, inner, 7),
    ensures
        spells_expression(t, p, q, Expression::Await(Box::new(inner)), -2),
{
    reveal(spells_expression);
}

/// No expressions take no tokens.
pub proof fn lemma_args_empty(t: Seq<Token>, p: int)
    ensures
        args_prefix(t, p, p, Seq::empty()),
{
    reveal(args_prefix);
}

/// One more expression, and the comma after it if there is one.
pub proof fn lemma_args_step(t: Seq<Token>, p: int, a: int, m: int, q: int, items: Seq<Expression>, e: Expression)
    requires
        p <= a < m <= q <= t.len(),
        args_prefix(t, p, a, items),
        spells_expression(t, a, m, e, 7),
        q == m || (q == m + 1 && t[m].kind == TokenKind::Comma),
    ensures
        args_prefix(t, p, q, items.push(e)),
{
    reveal(spells_expression);
    reveal(args_prefix);
    assert(items.push(e).drop_last() == items);
}

/// The closing token after the expressions.
pub proof fn lemma_args_close(t: Seq<Token>, p: int, q: int, items: Seq<Expression>, close: TokenKind)
    requires
        0 <= p <= q < t.len(),
        args_prefix(t, p, q, items),
        t[q].kind == close,
    ensures
        spells_args(t, p, q + 1, items, close),
{
    reveal(args_prefix);
    reveal(spells_args);
}

/// No field initializers take no tokens.
pub proof fn lemma_inits_empty(t: Seq<Token>, p: int)
    ensures
        inits_prefix(t, p, p, Seq::empty()),
{
    reveal(inits_prefix);
}

/// One more field initializer `name: e`, and the comma after it if there
/// is one.
pub proof fn lemma_inits_step(
    t: Seq<Token>,
    p: int,
    a: int,
    m: int,
    q: int,
    fields: Seq<(String, Expression)>,
    name: String,
    e: Expression,
)
    requires
        0 <= p <= a && a + 2 < m && m <= q && q <= t.len(),
        inits_prefix(t, p, a, fields),
        t[a].kind == TokenKind::Identifier,
        t[a].text@ == name@,
        t[a + 1].kind == TokenKind::Colon,
        spells_expression(t, a + 2, m, e, 7),
        q == m || (q == m + 1 && t[m].kind == TokenKind::Comma),
    ensures
        inits_prefix(t, p, q, fields.push((name, e))),
{
    reveal(spells_expression);
    reveal(inits_prefix);
    let f2 = fields.push((name, e));
    assert(f2.drop_last() == fields);
    assert(f2.last() == (name, e));
    assert(t[a + 1] == t[a + 1] && t[m] == t[m]);
}

/// The closing `}` after the field initializers.
pub proof fn lemma_inits_close(t: Seq<Token>, p: int, q: int, fields: Seq<(String, Expression)>)
    requires
        0 <= p <= q < t.len(),
        inits_prefix(t, p, q, fields),
        t[q].kind == TokenKind::RBrace,
    ensures
        spells_inits(t, p, q + 1, fields),
{
    reveal(inits_prefix);
    reveal(spells_inits);
}

// ── Where an expression parse ends ───────────────────────────────────────────

/// Whether the token at `q` is of kind `k`.
pub open spec fn kind_is(t: Seq<Token>, q: int, k: TokenKind) -> bool {
    0 <= q < t.len() && t[q].kind == k
}

/// Where an expression read from `p` ends, and whether it is a bare name;
/// `None` when it fails.
pub open spec fn expression_end(t: Seq<Token>, p: int) -> Option<(int, bool)>
    decreases t.len() - p, 30int,
{
    match level_end(t, p, 6) {
        Some((q, id)) => {
            let c = cont_end(t, q);
            if p < q <= c <= t.len() {
                pipes_end(t, c, id)
            } else {
                None
            }
        },
        None => None,
    }
}

/// Where the pipes read from `q`, after a first operand that is a bare
/// name when `id`, end.
pub open spec fn pipes_end(t: Seq<Token>, q: int, id: bool) -> Option<(int, bool)>
    decreases t.len() - q, 1int,
{
    if kind_is(t, q, TokenKind::Pipe) {
        let a = noise_end(t, q + 1);
        if q < a <= t.len() {
            match level_end(t, a, 6) {
                Some((q2, _)) => {
                    let c = cont_end(t, q2);
                    if q < q2 <= c <= t.len() {
                        pipes_end(t, c, false)
                    } else {
                        None
                    }
                },
                None => None,
            }
        } else {
            None
        }
    } else {
        Some((q, id))
    }
}

/// Where the operands of binding level `level` (6 `or` to 2 `*`, 1 `**`,
/// 0 and below: a prefix expression) joined by its operators end.
pub open spec fn level_end(t: Seq<Token>, p: int, level: int) -> Option<(int, bool)>
    decreases t.len() - p, if level > 0 {
        level + 10
    } else {
        10
    },
{
    if p < 0 || p > t.len() {
        None
    } else if level <= 0 {
        unary_end(t, p)
    } else if level == 1 {
        match unary_end(t, p) {
            Some((q, id)) => if p < q < t.len() && t[q].kind == TokenKind::Power {
                match level_end(t, q + 1, 1) {
                    Some((q2, _)) => Some((q2, false)),
                    None => None,
                }
            } else {
                Some((q, id))
            },
            None => None,
        }
    } else {
        match level_end(t, p, level - 1) {
            Some((q, id)) => if p < q <= t.len() {
                ops_end(t, q, level, id)
            } else {
                None
            },
            None => None,
        }
    }
}

/// Where the operators of level `level` and their operands, read from `q`
/// after a first operand, end.
pub open spec fn ops_end(t: Seq<Token>, q: int, level: int, id: bool) -> Option<(int, bool)>
    decreases t.len() - q, 1int,
{
    if 0 <= q < t.len() && level >= 2 && binary_of(t[q].kind, level) is Some {
        match level_end(t, q + 1, level - 1) {
            Some((q2, _)) => if q < q2 <= t.len() {
                ops_end(t, q2, level, false)
            } else {
                None
            },
            None => None,
        }
    } else {
        Some((q, id))
    }
}

/// Where prefix `-` and `not` and then a postfix expression end.
pub open spec fn unary_end(t: Seq<Token>, p: int) -> Option<(int, bool)>
    decreases t.len() - p, 9int,
{
    if 0 <= p < t.len() && (t[p].kind == TokenKind::Minus || t[p].kind == TokenKind::Not) {
        match unary_end(t, p + 1) {
            Some((q, _)) => Some((q, false)),
            None => None,
        }
    } else {
        postfix_end(t, p)
    }
}

/// Where a primary expression and the postfix forms after it end.
pub open spec fn postfix_end(t: Seq<Token>, p: int) -> Option<(int, bool)>
    decreases t.len() - p, 8int,
{
    match primary_end(t, p) {
        Some((q, id)) => if p < q <= t.len() {
            calls_end(t, q, id)
        } else {
            None
        },
        None => None,
    }
}

/// Where the struct literal, calls, method calls, field accesses and
/// indexing from `q` end, after an expression that is a bare name when
/// `id` (only a bare name takes a struct literal).
pub open spec fn calls_end(t: Seq<Token>, q: int, id: bool) -> Option<(int, bool)>
    decreases t.len() - q, 1int,
{
    if kind_is(t, q, TokenKind::LBrace) {
        if id {
            match fields_end(t, q + 1) {
                Some(k) => if q < k <= t.len() {
                    calls_end(t, k, false)
                } else {
                    None
                },
                None => None,
            }
        } else {
            Some((q, id))
        }
    } else if kind_is(t, q, TokenKind::LParen) {
        match args_end(t, q + 1, TokenKind::RParen) {
            Some(q2) => if q < q2 <= t.len() {
                calls_end(t, q2, false)
            } else {
                None
            },
            None => None,
        }
    } else if kind_is(t, q, TokenKind::Dot) {
        if kind_is(t, q + 1, TokenKind::Identifier) {
            if kind_is(t, q + 2, TokenKind::LParen) {
                match args_end(t, q + 3, TokenKind::RParen) {
                    Some(q3) => if q < q3 <= t.len() {
                        calls_end(t, q3, false)
                    } else {
                        None
                    },
                    None => None,
                }
            } else {
                calls_end(t, q + 2, false)
            }
        } else {
            None
        }
    } else if kind_is(t, q, TokenKind::LBracket) {
        match expression_end(t, q + 1) {
            Some((q2, _)) => if q < q2 && kind_is(t, q2, TokenKind::RBracket) {
                calls_end(t, q2 + 1, false)
            } else {
                None
            },
            None => None,
        }
    } else {
        Some((q, id))
    }
}

/// Where the field initializers of a struct literal, read from `k`, and
/// its closing `}` end.
pub open spec fn fields_end(t: Seq<Token>, k: int) -> Option<int>
    decreases t.len() - k, 2int,
{
    if kind_is(t, k, TokenKind::RBrace) {
        Some(k + 1)
    } else if kind_is(t, k, TokenKind::Identifier) && kind_is(t, k + 1, TokenKind::Colon) {
        match expression_end(t, k + 2) {
            Some((k4, _)) => {
                let k5 = if kind_is(t, k4, TokenKind::Comma) {
                    k4 + 1
                } else {
                    k4
                };
                if k < k5 <= t.len() {
                    fields_end(t, k5)
                } else {
                    None
                }
            },
            None => None,
        }
    } else {
        None
    }
}

/// Where expressions separated by optional commas, read from `q`, and the
/// closing token `close` end.
pub open spec fn args_end(t: Seq<Token>, q: int, close: TokenKind) -> Option<int>
    decreases t.len() - q, 40int,
{
    if q < 0 || q > t.len() {
        None
    } else if kind_is(t, q, close) {
        Some(q + 1)
    } else {
        match expression_end(t, q) {
            Some((q2, _)) => {
                let q3 = if kind_is(t, q2, TokenKind::Comma) {
                    q2 + 1
                } else {
                    q2
                };
                if q < q3 <= t.len() {
                    args_end(t, q3, close)
                } else {
                    None
                }
            },
            None => None,
        }
    }
}

/// Where a literal, a name (or a lambda), a parenthesized expression, a
/// list or an `await` at `p` ends, and whether it is a bare name.
pub open spec fn primary_end(t: Seq<Token>, p: int) -> Option<(int, bool)>
    decreases t.len() - p, 7int,
{
    if p < 0 || p >= t.len() {
        None
    } else {
        let k = t[p].kind;
        if k == TokenKind::IntLiteral {
            if int_value(t[p].text@) is Some {
                Some((p + 1, false))
            } else {
                None
            }
        } else if k == TokenKind::FloatLiteral {
            if float_shape(without_underscores(t[p].text@)) {
                Some((p + 1, false))
            } else {
                None
            }
        } else if k == TokenKind::StringLiteral || k == TokenKind::True || k == TokenKind::False || k
            == TokenKind::NoneKw || k == TokenKind::FStringLiteral {
            Some((p + 1, false))
        } else if k == TokenKind::SelfKw {
            Some((p + 1, true))
        } else if k == TokenKind::Identifier {
            if kind_is(t, p + 1, TokenKind::FatArrow) {
                match expression_end(t, p + 2) {
                    Some((q, _)) => Some((q, false)),
                    None => None,
                }
            } else {
                Some((p + 1, true))
            }
        } else if k == TokenKind::LParen {
            match expression_end(t, p + 1) {
                Some((q, id)) => if kind_is(t, q, TokenKind::RParen) {
                    Some((q + 1, id))
                } else {
                    None
                },
                None => None,
            }
        } else if k == TokenKind::LBracket {
            match args_end(t, p + 1, TokenKind::RBracket) {
                Some(q) => Some((q, false)),
                None => None,
            }
        } else if k == TokenKind::Await {
            match expression_end(t, p + 1) {
                Some((q, _)) => Some((q, false)),
                None => None,
            }
        } else {
            None
        }
    }
}

} // verus!
