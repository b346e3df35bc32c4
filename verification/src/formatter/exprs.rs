//! Writing expressions, type annotations and patterns.
use vstd::prelude::*;
use crate::check::error::decimal_text;
use crate::formatter::layout::{
    entry_texts, expr_text, expr_texts, init_texts, int_text_m, join_m, op_text, parts_text,
    pattern_text, pattern_texts, texts, type_text, type_texts, unary_text,
};
use crate::infer::ast::{BinaryOperator, Expression, FStringPart, Pattern, TypeExpr, UnaryOperator};

verus! {

/// Adding an item to a list adds it, after the separator, to the joined text.
pub proof fn lemma_join_push(xs: Seq<Seq<char>>, x: Seq<char>, sep: Seq<char>)
    ensures
        join_m(xs.push(x), sep) == if xs.len() == 0 {
            x
        } else {
            join_m(xs, sep) + sep + x
        },
{
    assert(xs.push(x).drop_last() =~= xs);
}

/// The decimal notation of `n`.
pub fn decimal_u64(n: u64) -> (r: String)
    ensures
        r@ == decimal_text(n as nat),
    decreases n,
{
    let ds = "0123456789";
    proof {
        reveal_strlit("0123456789");
    }
    if n < 10 {
        let d = n as usize;
        String::from_str(ds.substring_char(d, d + 1))
    } else {
        let mut s = decimal_u64(n / 10);
        let d = (n % 10) as usize;
        s.append(ds.substring_char(d, d + 1));
        s
    }
}

/// The decimal notation of an integer, with a minus sign when negative.
pub fn int_text(n: i64) -> (r: String)
    ensures
        r@ == int_text_m(n),
{
    if n < 0 {
        let magnitude = (0i128 - n as i128) as u64;
        let mut s = String::from_str("-");
        s.append(decimal_u64(magnitude).as_str());
        s
    } else {
        decimal_u64(n as u64)
    }
}

/// How a binary operator is written.
pub fn binary_op_text(op: BinaryOperator) -> (r: &'static str)
    ensures
        r@ == op_text(op),
{
    match op {
        BinaryOperator::Add => "+",
        BinaryOperator::Sub => "-",
        BinaryOperator::Mul => "*",
        BinaryOperator::Div => "/",
        BinaryOperator::IntDiv => "//",
        BinaryOperator::Mod => "%",
        BinaryOperator::Power => "**",
        BinaryOperator::Eq => "==",
        BinaryOperator::NotEq => "!=",
        BinaryOperator::Lt => "<",
        BinaryOperator::Gt => ">",
        BinaryOperator::LtEq => "<=",
        BinaryOperator::GtEq => ">=",
        BinaryOperator::And => "and",
        BinaryOperator::Or => "or",
        BinaryOperator::In => "in",
        BinaryOperator::Is => "is",
    }
}

/// Append strings separated by `sep`.
pub fn write_texts(out: &mut String, items: &Vec<String>, sep: &str)
    ensures
        final(out)@ == old(out)@ + join_m(texts(items@), sep@),
{
    let ghost start = out@;
    let mut i: usize = 0;
    assert(texts(items@.take(0)) =~= Seq::<Seq<char>>::empty());
    while i < items.len()
        invariant
            i <= items@.len(),
            out@ == start + join_m(texts(items@.take(i as int)), sep@),
        decreases items@.len() - i,
    {
        proof {
            lemma_join_push(texts(items@.take(i as int)), items@[i as int]@, sep@);
            assert(texts(items@.take(i + 1)) =~= texts(items@.take(i as int)).push(items@[i as int]@));
        }
        if i > 0 {
            out.append(sep);
        }
        out.append(items[i].as_str());
        assert(out@ =~= start + join_m(texts(items@.take(i + 1)), sep@));
        i = i + 1;
    }
    assert(items@.take(items@.len() as int) =~= items@);
}

/// Append a type annotation.
pub fn write_type(out: &mut String, t: &TypeExpr)
    ensures
        final(out)@ == old(out)@ + type_text(*t),
    decreases t,
{
    let ghost start = out@;
    match t {
        TypeExpr::Named(name) => {
            out.append(name.as_str());
        },
        TypeExpr::Generic(name, args) => {
            out.append(name.as_str());
            out.append("[");
            write_types(out, args);
            out.append("]");
        },
        TypeExpr::Function(params, ret) => {
            out.append("(");
            write_types(out, params);
            out.append(") -> ");
            write_type(out, ret);
        },
        TypeExpr::Optional(inner) => {
            write_type(out, inner);
            out.append("?");
        },
        TypeExpr::Result(ok, err) => {
            write_type(out, ok);
            out.append(" or ");
            write_type(out, err);
        },
        TypeExpr::Tuple(elements) => {
            out.append("(");
            write_types(out, elements);
            out.append(")");
        },
    }
    assert(out@ =~= start + type_text(*t));
}

/// Append type annotations separated by commas.
pub fn write_types(out: &mut String, ts: &Vec<TypeExpr>)
    ensures
        final(out)@ == old(out)@ + join_m(type_texts(ts@), ", "@),
    decreases ts,
{
    let ghost start = out@;
    let mut i: usize = 0;
    assert(type_texts(ts@.take(0)) =~= Seq::<Seq<char>>::empty());
    while i < ts.len()
        invariant
            i <= ts@.len(),
            out@ == start + join_m(type_texts(ts@.take(i as int)), ", "@),
        decreases ts@.len() - i,
    {
        assert(decreases_to!(ts => ts@[i as int]));
        proof {
            lemma_join_push(type_texts(ts@.take(i as int)), type_text(ts@[i as int]), ", "@);
            assert(ts@.take(i + 1).drop_last() =~= ts@.take(i as int));
        }
        if i > 0 {
            out.append(", ");
        }
        write_type(out, &ts[i]);
        assert(out@ =~= start + join_m(type_texts(ts@.take(i + 1)), ", "@));
        i = i + 1;
    }
    assert(ts@.take(ts@.len() as int) =~= ts@);
}

/// Append an expression.
pub fn write_expr(out: &mut String, e: &Expression)
    ensures
        final(out)@ == old(out)@ + expr_text(*e),
    decreases e,
{
    let ghost start = out@;
    match e {
        Expression::IntLiteral(n) => {
            out.append(int_text(*n).as_str());
        },
        Expression::FloatLiteral(t) => {
            out.append(t.as_str());
        },
        Expression::StringLiteral(s) => {
            out.append("\"");
            out.append(s.as_str());
            out.append("\"");
        },
        Expression::BoolLiteral(b) => {
            if *b {
                out.append("true");
            } else {
                out.append("false");
            }
        },
        Expression::NoneLiteral => {
            out.append("none");
        },
        Expression::Identifier(name) => {
            out.append(name.as_str());
        },
        Expression::BinaryOp { left, op, right } => {
            write_expr(out, left);
            out.append(" ");
            out.append(binary_op_text(*op));
            out.append(" ");
            write_expr(out, right);
        },
        Expression::UnaryOp { op, operand } => {
            match op {
                UnaryOperator::Neg => out.append("-"),
                UnaryOperator::Not => out.append("not "),
            }
            write_expr(out, operand);
        },
        Expression::Call { function, args } => {
            write_expr(out, function);
            out.append("(");
            write_exprs(out, args);
            out.append(")");
        },
        Expression::MethodCall { object, method, args } => {
            write_expr(out, object);
            out.append(".");
            out.append(method.as_str());
            out.append("(");
            write_exprs(out, args);
            out.append(")");
        },
        Expression::FieldAccess { object, field } => {
            write_expr(out, object);
            out.append(".");
            out.append(field.as_str());
        },
        Expression::Index { object, index } => {
            write_expr(out, object);
            out.append("[");
            write_expr(out, index);
            out.append("]");
        },
        Expression::Pipe { left, right } => {
            write_expr(out, left);
            out.append(" |> ");
            write_expr(out, right);
        },
        Expression::Lambda { params, body } => {
            let ghost head = if params@.len() == 1 {
                params@[0]@
            } else {
                "("@ + join_m(texts(params@), ", "@) + ")"@
            };
            if params.len() == 1 {
                out.append(params[0].as_str());
            } else {
                out.append("(");
                write_texts(out, params, ", ");
                out.append(")");
            }
            assert(out@ =~= start + head);
            out.append(" => ");
            write_expr(out, body);
            assert(out@ =~= start + expr_text(*e));
        },
        Expression::List(elements) => {
            out.append("[");
            write_exprs(out, elements);
            out.append("]");
        },
        Expression::Dict(entries) => {
            out.append("{");
            write_entries(out, entries);
            out.append("}");
        },
        Expression::StructInit { name, fields } => {
            out.append(name.as_str());
            out.append(" { ");
            write_inits(out, fields);
            out.append(" }");
        },
        Expression::FString(parts) => {
            out.append("f\"");
            write_parts(out, parts);
            out.append("\"");
        },
        Expression::Await(inner) => {
            out.append("await ");
            write_expr(out, inner);
        },
        Expression::ResultExpr { value, error_type } => {
            write_expr(out, value);
            out.append(" or ");
            out.append(error_type.as_str());
        },
    }
    assert(out@ =~= start + expr_text(*e));
}

/// Append expressions separated by commas.
pub fn write_exprs(out: &mut String, es: &Vec<Expression>)
    ensures
        final(out)@ == old(out)@ + join_m(expr_texts(es@), ", "@),
    decreases es,
{
    let ghost start = out@;
    let mut i: usize = 0;
    assert(expr_texts(es@.take(0)) =~= Seq::<Seq<char>>::empty());
    while i < es.len()
        invariant
            i <= es@.len(),
            out@ == start + join_m(expr_texts(es@.take(i as int)), ", "@),
        decreases es@.len() - i,
    {
        assert(decreases_to!(es => es@[i as int]));
        proof {
            lemma_join_push(expr_texts(es@.take(i as int)), expr_text(es@[i as int]), ", "@);
            assert(es@.take(i + 1).drop_last() =~= es@.take(i as int));
        }
        if i > 0 {
            out.append(", ");
        }
        write_expr(out, &es[i]);
        assert(out@ =~= start + join_m(expr_texts(es@.take(i + 1)), ", "@));
        i = i + 1;
    }
    assert(es@.take(es@.len() as int) =~= es@);
}

/// Append dictionary entries `key: value` separated by commas.
fn write_entries(out: &mut String, es: &Vec<(Expression, Expression)>)
    ensures
        final(out)@ == old(out)@ + join_m(entry_texts(es@), ", "@),
    decreases es,
{
    let ghost start = out@;
    let mut i: usize = 0;
    assert(entry_texts(es@.take(0)) =~= Seq::<Seq<char>>::empty());
    while i < es.len()
        invariant
            i <= es@.len(),
            out@ == start + join_m(entry_texts(es@.take(i as int)), ", "@),
        decreases es@.len() - i,
    {
        assert(decreases_to!(es => es@[i as int]));
        assert(decreases_to!(es@[i as int] => es@[i as int].0));
        assert(decreases_to!(es@[i as int] => es@[i as int].1));
        let ghost item = expr_text(es@[i as int].0) + ": "@ + expr_text(es@[i as int].1);
        proof {
            lemma_join_push(entry_texts(es@.take(i as int)), item, ", "@);
            assert(es@.take(i + 1).drop_last() =~= es@.take(i as int));
        }
        if i > 0 {
            out.append(", ");
        }
        write_expr(out, &es[i].0);
        out.append(": ");
        write_expr(out, &es[i].1);
        assert(out@ =~= start + join_m(entry_texts(es@.take(i + 1)), ", "@));
        i = i + 1;
    }
    assert(es@.take(es@.len() as int) =~= es@);
}

/// Append field initializers `name: value` separated by commas.
fn write_inits(out: &mut String, fs: &Vec<(String, Expression)>)
    ensures
        final(out)@ == old(out)@ + join_m(init_texts(fs@), ", "@),
    decreases fs,
{
    let ghost start = out@;
    let mut i: usize = 0;
    assert(init_texts(fs@.take(0)) =~= Seq::<Seq<char>>::empty());
    while i < fs.len()
        invariant
            i <= fs@.len(),
            out@ == start + join_m(init_texts(fs@.take(i as int)), ", "@),
        decreases fs@.len() - i,
    {
        assert(decreases_to!(fs => fs@[i as int]));
        assert(decreases_to!(fs@[i as int] => fs@[i as int].1));
        let ghost item = fs@[i as int].0@ + ": "@ + expr_text(fs@[i as int].1);
        proof {
            lemma_join_push(init_texts(fs@.take(i as int)), item, ", "@);
            assert(fs@.take(i + 1).drop_last() =~= fs@.take(i as int));
        }
        if i > 0 {
            out.append(", ");
        }
        out.append(fs[i].0.as_str());
        out.append(": ");
        write_expr(out, &fs[i].1);
        assert(out@ =~= start + join_m(init_texts(fs@.take(i + 1)), ", "@));
        i = i + 1;
    }
    assert(fs@.take(fs@.len() as int) =~= fs@);
}

/// Append the parts of an f-string.
fn write_parts(out: &mut String, ps: &Vec<FStringPart>)
    ensures
        final(out)@ == old(out)@ + parts_text(ps@),
    decreases ps,
{
    let ghost start = out@;
    let mut i: usize = 0;
    assert(ps@.take(0) =~= Seq::<FStringPart>::empty());
    while i < ps.len()
        invariant
            i <= ps@.len(),
            out@ == start + parts_text(ps@.take(i as int)),
        decreases ps@.len() - i,
    {
        assert(decreases_to!(ps => ps@[i as int]));
        assert(ps@.take(i + 1).drop_last() =~= ps@.take(i as int));
        match &ps[i] {
            FStringPart::Literal(s) => {
                out.append(s.as_str());
            },
            FStringPart::Expression(e) => {
                out.append("{");
                write_expr(out, e);
                out.append("}");
            },
        }
        assert(out@ =~= start + parts_text(ps@.take(i + 1)));
        i = i + 1;
    }
    assert(ps@.take(ps@.len() as int) =~= ps@);
}

/// Append a pattern.
pub fn write_pattern(out: &mut String, p: &Pattern)
    ensures
        final(out)@ == old(out)@ + pattern_text(*p),
    decreases p,
{
    let ghost start = out@;
    match p {
        Pattern::Literal(e) => write_expr(out, e),
        Pattern::Variable(name) => {
            out.append(name.as_str());
        },
        Pattern::Variant(name, fields) => {
            out.append(name.as_str());
            if fields.len() > 0 {
                out.append("(");
                write_patterns(out, fields);
                out.append(")");
            }
        },
        Pattern::Wildcard => {
            out.append("_");
        },
    }
    assert(out@ =~= start + pattern_text(*p));
}

/// Append patterns separated by commas.
fn write_patterns(out: &mut String, ps: &Vec<Pattern>)
    ensures
        final(out)@ == old(out)@ + join_m(pattern_texts(ps@), ", "@),
    decreases ps,
{
    let ghost start = out@;
    let mut i: usize = 0;
    assert(pattern_texts(ps@.take(0)) =~= Seq::<Seq<char>>::empty());
    while i < ps.len()
        invariant
            i <= ps@.len(),
            out@ == start + join_m(pattern_texts(ps@.take(i as int)), ", "@),
        decreases ps@.len() - i,
    {
        assert(decreases_to!(ps => ps@[i as int]));
        proof {
            lemma_join_push(pattern_texts(ps@.take(i as int)), pattern_text(ps@[i as int]), ", "@);
            assert(ps@.take(i + 1).drop_last() =~= ps@.take(i as int));
        }
        if i > 0 {
            out.append(", ");
        }
        write_pattern(out, &ps[i]);
        assert(out@ =~= start + join_m(pattern_texts(ps@.take(i + 1)), ", "@));
        i = i + 1;
    }
    assert(ps@.take(ps@.len() as int) =~= ps@);
}

} // verus!
