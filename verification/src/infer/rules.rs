//! The inference rules of the checker: the type each expression gets, how
//! each statement changes the environment, and how many fresh type
//! variables each draws. None of this depends on the substitution, so the
//! checker is proved to follow these rules exactly.
use vstd::prelude::*;
use crate::infer::ast::{BinaryOperator, Expression, Parameter, Statement, UnaryOperator, Field, Decorator};
use crate::infer::env::{
    ScopeM, SigM, bump, define_fn_m, define_type_m, define_var_m, empty_scope, function_scope,
    lookup_fn_m, lookup_type_m, lookup_var_m, pop_m, resolve_m,
};
use crate::infer::types::{EffectM, StructM, TypeM, TypeVarId, parse_effect};

verus! {

/// Numeric: `int` or `float`.
pub open spec fn numeric_m(t: TypeM) -> bool {
    t is Int || t is Float
}

/// The type of a binary operation on operands of types `l` and `r`.
/// Arithmetic on two strings with `+` concatenates; an unknown operand takes
/// the other's numeric type; two numeric operands give `float` if either is
/// one, else `int`; anything else is an error. `//` wants numbers and gives
/// `int`. Comparisons, logic, `in` and `is` give `bool`.
pub open spec fn binop_m(l: TypeM, op: BinaryOperator, r: TypeM) -> TypeM {
    match op {
        BinaryOperator::Add | BinaryOperator::Sub | BinaryOperator::Mul | BinaryOperator::Div
        | BinaryOperator::Mod | BinaryOperator::Power => {
            if op == BinaryOperator::Add && l is Str && r is Str {
                TypeM::Str
            } else if l is Var && numeric_m(r) {
                r
            } else if r is Var && numeric_m(l) {
                l
            } else if l is Var && r is Var {
                l
            } else if !numeric_m(l) || !numeric_m(r) {
                TypeM::Error
            } else if l is Float || r is Float {
                TypeM::Float
            } else {
                TypeM::Int
            }
        },
        BinaryOperator::IntDiv => if !numeric_m(l) || !numeric_m(r) {
            TypeM::Error
        } else {
            TypeM::Int
        },
        _ => TypeM::Bool,
    }
}

/// The type of the first field named `name`.
pub open spec fn field_of(fs: Seq<(Seq<char>, TypeM)>, name: Seq<char>) -> Option<TypeM>
    decreases fs.len(),
{
    if fs.len() == 0 {
        None
    } else if fs[0].0 == name {
        Some(fs[0].1)
    } else {
        field_of(fs.drop_first(), name)
    }
}

/// The result of built-in method `m` on a value of type `t`, if it is one.
pub open spec fn method_m(t: TypeM, m: Seq<char>) -> Option<TypeM> {
    match t {
        TypeM::Str => if m == "len"@ {
            Some(TypeM::Int)
        } else if m == "upper"@ || m == "lower"@ || m == "trim"@ || m == "strip"@ {
            Some(TypeM::Str)
        } else if m == "split"@ {
            Some(TypeM::List(Box::new(TypeM::Str)))
        } else if m == "contains"@ || m == "starts_with"@ || m == "ends_with"@ {
            Some(TypeM::Bool)
        } else {
            None
        },
        TypeM::List(inner) => if m == "len"@ {
            Some(TypeM::Int)
        } else if m == "pop"@ {
            Some(*inner)
        } else if m == "push"@ || m == "append"@ {
            Some(TypeM::NoneT)
        } else if m == "contains"@ {
            Some(TypeM::Bool)
        } else {
            None
        },
        TypeM::Error => Some(TypeM::Error),
        _ => None,
    }
}

/// The type of `e` in scopes `s`, and the counter of fresh type variables
/// after inferring it from `n` on. Sub-expressions are inferred left to right.
pub open spec fn infer_m(s: Seq<ScopeM>, e: Expression, n: TypeVarId) -> (TypeM, TypeVarId)
    decreases e,
{
    match e {
        Expression::IntLiteral(_) => (TypeM::Int, n),
        Expression::FloatLiteral(_) => (TypeM::Float, n),
        Expression::StringLiteral(_) => (TypeM::Str, n),
        Expression::BoolLiteral(_) => (TypeM::Bool, n),
        Expression::NoneLiteral => (TypeM::NoneT, n),
        Expression::FString(_) => (TypeM::Str, n),
        Expression::Identifier(name) => match lookup_var_m(s, name@) {
            Some(b) => (b.0, n),
            None => match lookup_fn_m(s, name@) {
                Some(sig) => (sig_type_m(sig), n),
                None => (TypeM::Error, n),
            },
        },
        Expression::BinaryOp { left, op, right } => {
            let (lt, n1) = infer_m(s, *left, n);
            let (rt, n2) = infer_m(s, *right, n1);
            (binop_m(lt, op, rt), n2)
        },
        Expression::UnaryOp { op, operand } => {
            let (t, n1) = infer_m(s, *operand, n);
            match op {
                UnaryOperator::Neg => (if numeric_m(t) {
                    t
                } else {
                    TypeM::Error
                }, n1),
                UnaryOperator::Not => (TypeM::Bool, n1),
            }
        },
        Expression::Call { function, args } => {
            let (ft, n1) = infer_m(s, *function, n);
            let (_, n2) = infer_list_m(s, args@, n1);
            match ft {
                TypeM::Function(_, r, _) => (*r, n2),
                TypeM::Var(_) => (TypeM::Var(n2), bump(n2)),
                _ => (TypeM::Error, n2),
            }
        },
        Expression::FieldAccess { object, field } => {
            let (ot, n1) = infer_m(s, *object, n);
            (match ot {
                TypeM::Struct(st) => match field_of(st.fields, field@) {
                    Some(t) => t,
                    None => TypeM::Error,
                },
                _ => TypeM::Error,
            }, n1)
        },
        Expression::MethodCall { object, method, args } => {
            let (ot, n1) = infer_m(s, *object, n);
            let (_, n2) = infer_list_m(s, args@, n1);
            match method_m(ot, method@) {
                Some(t) => (t, n2),
                None => (TypeM::Var(n2), bump(n2)),
            }
        },
        Expression::Index { object, index } => {
            let (ot, n1) = infer_m(s, *object, n);
            let (_, n2) = infer_m(s, *index, n1);
            (match ot {
                TypeM::List(inner) => *inner,
                TypeM::Dict(_, v) => *v,
                TypeM::Str => TypeM::Char,
                _ => TypeM::Error,
            }, n2)
        },
        Expression::Pipe { left, right } => {
            let (_, n1) = infer_m(s, *left, n);
            let (ft, n2) = infer_m(s, *right, n1);
            match ft {
                TypeM::Function(_, r, _) => (*r, n2),
                _ => (TypeM::Var(n2), bump(n2)),
            }
        },
        Expression::Lambda { params, body } => {
            let (s1, pts, n1) = lambda_params_m(s.push(empty_scope()), params@, n);
            let (bt, n2) = infer_m(s1, *body, n1);
            (TypeM::Function(pts, Box::new(bt), Seq::empty()), n2)
        },
        Expression::List(elements) => if elements@.len() == 0 {
            (TypeM::List(Box::new(TypeM::Var(n))), bump(n))
        } else {
            let (ft, n1) = infer_m(s, elements@[0], n);
            let (_, n2) = infer_list_m(s, elements@.drop_first(), n1);
            (TypeM::List(Box::new(ft)), n2)
        },
        Expression::Dict(entries) => if entries@.len() == 0 {
            (TypeM::Dict(Box::new(TypeM::Var(n)), Box::new(TypeM::Var(bump(n)))), bump(bump(n)))
        } else {
            let (kt, n1) = infer_m(s, entries@[0].0, n);
            let (vt, n2) = infer_m(s, entries@[0].1, n1);
            let n3 = infer_pairs_m(s, entries@.drop_first(), n2);
            (TypeM::Dict(Box::new(kt), Box::new(vt)), n3)
        },
        Expression::StructInit { name, fields } => match lookup_type_m(s, name@) {
            Some(t) => (t, if t is Struct {
                infer_inits_m(s, fields@, n)
            } else {
                n
            }),
            None => (TypeM::Error, n),
        },
        Expression::Await(inner) => {
            let (_, n1) = infer_m(s, *inner, n);
            (TypeM::Var(n1), bump(n1))
        },
        Expression::ResultExpr { value, .. } => {
            let (vt, n1) = infer_m(s, *value, n);
            (TypeM::Result(Box::new(vt), Box::new(TypeM::Named("Error"@))), n1)
        },
    }
}

/// A function used as a value: its parameter types, result and effects.
pub open spec fn sig_type_m(sig: SigM) -> TypeM {
    TypeM::Function(
        Seq::new(sig.params.len(), |i: int| sig.params[i].1),
        Box::new(sig.ret),
        sig.effects,
    )
}

/// The types of `es`, inferred left to right from counter `n`.
pub open spec fn infer_list_m(s: Seq<ScopeM>, es: Seq<Expression>, n: TypeVarId) -> (Seq<TypeM>, TypeVarId)
    decreases es,
{
    if es.len() == 0 {
        (Seq::empty(), n)
    } else {
        let (ts, n1) = infer_list_m(s, es.drop_last(), n);
        let (t, n2) = infer_m(s, es.last(), n1);
        (ts.push(t), n2)
    }
}

/// The counter after inferring each key, then value, of `ps`.
pub open spec fn infer_pairs_m(s: Seq<ScopeM>, ps: Seq<(Expression, Expression)>, n: TypeVarId) -> TypeVarId
    decreases ps,
{
    if ps.len() == 0 {
        n
    } else {
        let n1 = infer_pairs_m(s, ps.drop_last(), n);
        let n2 = infer_m(s, ps.last().0, n1).1;
        infer_m(s, ps.last().1, n2).1
    }
}

/// The counter after inferring the value of each field initializer of `fs`.
pub open spec fn infer_inits_m(s: Seq<ScopeM>, fs: Seq<(String, Expression)>, n: TypeVarId) -> TypeVarId
    decreases fs,
{
    if fs.len() == 0 {
        n
    } else {
        let n1 = infer_inits_m(s, fs.drop_last(), n);
        infer_m(s, fs.last().1, n1).1
    }
}

/// The scopes after binding each lambda parameter of `ps` to a fresh type
/// variable, those variables, and the counter after them.
pub open spec fn lambda_params_m(s: Seq<ScopeM>, ps: Seq<String>, n: TypeVarId) -> (Seq<ScopeM>, Seq<TypeM>, TypeVarId)
    decreases ps.len(),
{
    if ps.len() == 0 {
        (s, Seq::empty(), n)
    } else {
        let (s1, ts, n1) = lambda_params_m(s, ps.drop_last(), n);
        (define_var_m(s1, ps.last()@, TypeM::Var(n1), false), ts.push(TypeM::Var(n1)), bump(n1))
    }
}

// ── Statements ──────────────────────────────────────────────

/// The effects named in a function header.
pub open spec fn effects_of(es: Seq<String>) -> Seq<EffectM> {
    Seq::new(es.len(), |i: int| parse_effect(es[i]@))
}

/// Whether a function is decorated `@pure`.
pub open spec fn is_pure_m(ds: Seq<Decorator>) -> bool {
    exists|k: int| 0 <= k < ds.len() && #[trigger] ds[k].name@ == "pure"@
}

/// The declared result type of a function: its annotation's, or `none`.
pub open spec fn ret_of(s: Seq<ScopeM>, rt: Option<crate::infer::ast::TypeExpr>) -> TypeM {
    match rt {
        Some(t) => resolve_m(s, t),
        None => TypeM::NoneT,
    }
}

/// The scopes after binding each parameter of `ps`, immutable, to the type
/// its annotation denotes.
pub open spec fn params_m(s: Seq<ScopeM>, ps: Seq<Parameter>) -> Seq<ScopeM>
    decreases ps.len(),
{
    if ps.len() == 0 {
        s
    } else {
        let s1 = params_m(s, ps.drop_last());
        define_var_m(s1, ps.last().name@, resolve_m(s1, ps.last().type_annotation), false)
    }
}

/// The scopes after statement `st`, and the counter of fresh type variables.
pub open spec fn stmt_m(s: Seq<ScopeM>, st: Statement, n: TypeVarId) -> (Seq<ScopeM>, TypeVarId)
    decreases st,
{
    match st {
        Statement::FunctionDef { params, return_type, effects, body, decorators, .. } => {
            let s1 = s.push(function_scope(ret_of(s, return_type), effects_of(effects@), is_pure_m(decorators@)));
            let (s2, n1) = stmts_m(params_m(s1, params@), body@, n);
            (pop_m(s2), n1)
        },
        Statement::LetBinding { name, type_annotation, value, mutable } => {
            let (vt, n1) = infer_m(s, value, n);
            let t = match type_annotation {
                Some(te) => resolve_m(s, te),
                None => vt,
            };
            (define_var_m(s, name@, t, mutable), n1)
        },
        Statement::ConstBinding { name, value, .. } => {
            let (vt, n1) = infer_m(s, value, n);
            (define_var_m(s, name@, vt, false), n1)
        },
        Statement::Assignment { target, value } => {
            let n1 = infer_m(s, target, n).1;
            (s, infer_m(s, value, n1).1)
        },
        Statement::If { condition, body, elif_clauses, else_body } => {
            let n1 = infer_m(s, condition, n).1;
            let (s1, n2) = stmts_m(s.push(empty_scope()), body@, n1);
            let (s2, n3) = elifs_m(pop_m(s1), elif_clauses@, n2);
            match else_body {
                Some(b) => {
                    let (s3, n4) = stmts_m(s2.push(empty_scope()), b@, n3);
                    (pop_m(s3), n4)
                },
                None => (s2, n3),
            }
        },
        Statement::WhileLoop { condition, body } => {
            let n1 = infer_m(s, condition, n).1;
            let (s1, n2) = stmts_m(s.push(empty_scope()), body@, n1);
            (pop_m(s1), n2)
        },
        Statement::ForLoop { variable, iterable, body } => {
            let (it, n1) = infer_m(s, iterable, n);
            let (et, n2) = match it {
                TypeM::List(inner) => (*inner, n1),
                TypeM::Str => (TypeM::Char, n1),
                _ => (TypeM::Var(n1), bump(n1)),
            };
            let s1 = define_var_m(s.push(empty_scope()), variable@, et, false);
            let (s2, n3) = stmts_m(s1, body@, n2);
            (pop_m(s2), n3)
        },
        Statement::Return(e) => match e {
            Some(x) => (s, infer_m(s, x, n).1),
            None => (s, n),
        },
        Statement::Expression(e) => (s, infer_m(s, e, n).1),
        _ => (s, n),
    }
}

/// The scopes and counter after statements `sts`, in order.
pub open spec fn stmts_m(s: Seq<ScopeM>, sts: Seq<Statement>, n: TypeVarId) -> (Seq<ScopeM>, TypeVarId)
    decreases sts,
{
    if sts.len() == 0 {
        (s, n)
    } else {
        let (s1, n1) = stmts_m(s, sts.drop_last(), n);
        stmt_m(s1, sts.last(), n1)
    }
}

/// The scopes and counter after the `elif` clauses `cs`: each condition is
/// inferred and each body checked in a scope of its own.
pub open spec fn elifs_m(s: Seq<ScopeM>, cs: Seq<(Expression, Vec<Statement>)>, n: TypeVarId) -> (Seq<ScopeM>, TypeVarId)
    decreases cs,
{
    if cs.len() == 0 {
        (s, n)
    } else {
        let (s1, n1) = elifs_m(s, cs.drop_last(), n);
        let n2 = infer_m(s1, cs.last().0, n1).1;
        let (s2, n3) = stmts_m(s1.push(empty_scope()), cs.last().1@, n2);
        (pop_m(s2), n3)
    }
}

// ── Declarations ────────────────────────────────────────────

/// The signature that a function definition declares.
pub open spec fn declared_sig_m(
    s: Seq<ScopeM>,
    name: Seq<char>,
    params: Seq<Parameter>,
    rt: Option<crate::infer::ast::TypeExpr>,
    effects: Seq<String>,
    decorators: Seq<Decorator>,
    is_pub: bool,
) -> SigM {
    SigM {
        name,
        params: Seq::new(params.len(), |i: int| (params[i].name@, resolve_m(s, params[i].type_annotation))),
        ret: ret_of(s, rt),
        effects: effects_of(effects),
        is_pure: is_pure_m(decorators),
        is_pub,
    }
}

/// The struct type that a struct definition declares.
pub open spec fn declared_struct_m(s: Seq<ScopeM>, name: Seq<char>, fields: Seq<Field>, is_pub: bool) -> TypeM {
    TypeM::Struct(
        StructM {
            name,
            fields: Seq::new(fields.len(), |i: int| (fields[i].name@, resolve_m(s, fields[i].type_annotation))),
            is_pub,
        },
    )
}

/// The scopes after registering the declaration `st`: a function's
/// signature or a struct's type is defined in the innermost scope.
pub open spec fn register_m(s: Seq<ScopeM>, st: Statement) -> Seq<ScopeM> {
    match st {
        Statement::FunctionDef { name, params, return_type, effects, decorators, is_pub, .. } =>
            define_fn_m(
            s,
            declared_sig_m(s, name@, params@, return_type, effects@, decorators@, is_pub),
        ),
        Statement::StructDef { name, fields, is_pub, .. } => define_type_m(
            s,
            name@,
            declared_struct_m(s, name@, fields@, is_pub),
        ),
        _ => s,
    }
}

/// The scopes after registering each declaration of `sts`, in order.
pub open spec fn registers_m(s: Seq<ScopeM>, sts: Seq<Statement>) -> Seq<ScopeM>
    decreases sts.len(),
{
    if sts.len() == 0 {
        s
    } else {
        register_m(registers_m(s, sts.drop_last()), sts.last())
    }
}

/// A whole program: every declaration is registered first, then every
/// statement is checked.
pub open spec fn program_m(s: Seq<ScopeM>, sts: Seq<Statement>, n: TypeVarId) -> (Seq<ScopeM>, TypeVarId) {
    stmts_m(registers_m(s, sts), sts, n)
}

// ── Laws ────────────────────────────────────────────────────

/// A statement changes at most the innermost scope: function bodies,
/// branches and loop bodies are checked in scopes of their own, which are
/// left again, so nothing bound inside them is visible afterwards.
pub proof fn lemma_stmt_frame(s: Seq<ScopeM>, st: Statement, n: TypeVarId)
    requires
        s.len() >= 1,
    ensures
        stmt_m(s, st, n).0.len() == s.len(),
        stmt_m(s, st, n).0.drop_last() == s.drop_last(),
        (st is FunctionDef || st is If || st is WhileLoop || st is ForLoop) ==> stmt_m(s, st, n).0 == s,
    decreases st, 0nat,
{
    match st {
        Statement::FunctionDef { params, return_type, effects, body, decorators, .. } => {
            let s1 = s.push(function_scope(ret_of(s, return_type), effects_of(effects@), is_pure_m(decorators@)));
            lemma_params_frame(s1, params@);
            lemma_stmts_frame(params_m(s1, params@), body@, n);
            assert(s1.drop_last() =~= s);
        },
        Statement::LetBinding { name, type_annotation, value, mutable } => {
            let t = match type_annotation {
                Some(te) => resolve_m(s, te),
                None => infer_m(s, value, n).0,
            };
            assert(define_var_m(s, name@, t, mutable).drop_last() =~= s.drop_last());
        },
        Statement::ConstBinding { name, value, .. } => {
            assert(define_var_m(s, name@, infer_m(s, value, n).0, false).drop_last() =~= s.drop_last());
        },
        Statement::If { condition, body, elif_clauses, else_body } => {
            let n1 = infer_m(s, condition, n).1;
            let p = s.push(empty_scope());
            lemma_stmts_frame(p, body@, n1);
            assert(p.drop_last() =~= s);
            let (s1, n2) = stmts_m(p, body@, n1);
            lemma_elifs_frame(pop_m(s1), elif_clauses@, n2);
            let (s2, n3) = elifs_m(pop_m(s1), elif_clauses@, n2);
            match else_body {
                Some(b) => {
                    lemma_stmts_frame(s2.push(empty_scope()), b@, n3);
                    assert(s2.push(empty_scope()).drop_last() =~= s2);
                },
                None => {},
            }
        },
        Statement::WhileLoop { condition, body } => {
            let n1 = infer_m(s, condition, n).1;
            let p = s.push(empty_scope());
            lemma_stmts_frame(p, body@, n1);
            assert(p.drop_last() =~= s);
        },
        Statement::ForLoop { variable, iterable, body } => {
            let (it, n1) = infer_m(s, iterable, n);
            let (et, n2) = match it {
                TypeM::List(inner) => (*inner, n1),
                TypeM::Str => (TypeM::Char, n1),
                _ => (TypeM::Var(n1), bump(n1)),
            };
            let p = s.push(empty_scope());
            let s1 = define_var_m(p, variable@, et, false);
            assert(s1.drop_last() =~= s);
            lemma_stmts_frame(s1, body@, n2);
        },
        _ => {},
    }
}

/// Statements in sequence change at most the innermost scope.
pub proof fn lemma_stmts_frame(s: Seq<ScopeM>, sts: Seq<Statement>, n: TypeVarId)
    requires
        s.len() >= 1,
    ensures
        stmts_m(s, sts, n).0.len() == s.len(),
        stmts_m(s, sts, n).0.drop_last() == s.drop_last(),
    decreases sts, 0nat,
{
    if sts.len() > 0 {
        lemma_stmts_frame(s, sts.drop_last(), n);
        let (s1, n1) = stmts_m(s, sts.drop_last(), n);
        lemma_stmt_frame(s1, sts.last(), n1);
    }
}

/// `elif` clauses leave the scopes as they were.
pub proof fn lemma_elifs_frame(s: Seq<ScopeM>, cs: Seq<(Expression, Vec<Statement>)>, n: TypeVarId)
    requires
        s.len() >= 1,
    ensures
        elifs_m(s, cs, n).0 == s,
    decreases cs, 0nat,
{
    if cs.len() > 0 {
        lemma_elifs_frame(s, cs.drop_last(), n);
        let (s1, n1) = elifs_m(s, cs.drop_last(), n);
        let n2 = infer_m(s1, cs.last().0, n1).1;
        lemma_stmts_frame(s1.push(empty_scope()), cs.last().1@, n2);
        assert(s1.push(empty_scope()).drop_last() =~= s1);
    }
}

/// Binding parameters changes at most the innermost scope.
pub proof fn lemma_params_frame(s: Seq<ScopeM>, ps: Seq<Parameter>)
    requires
        s.len() >= 1,
    ensures
        params_m(s, ps).len() == s.len(),
        params_m(s, ps).drop_last() == s.drop_last(),
    decreases ps.len(),
{
    if ps.len() > 0 {
        lemma_params_frame(s, ps.drop_last());
        let s1 = params_m(s, ps.drop_last());
        assert(define_var_m(s1, ps.last().name@, resolve_m(s1, ps.last().type_annotation), false).drop_last() =~= s1.drop_last());
    }
}


/// The built-in methods of strings and lists have fixed result types,
/// whatever the object expression and the scopes: on a string, `len` gives
/// `int`; `upper`, `lower`, `trim` and `strip` give `str`; `split` gives
/// `list[str]`; `contains`, `starts_with` and `ends_with` give `bool`. On a
/// list of `T`, `len` gives `int`, `pop` gives `T`, `push` and `append` give
/// `none`, and `contains` gives `bool`.
pub proof fn lemma_builtin_method_types(
    s: Seq<ScopeM>,
    object: Expression,
    method: String,
    args: Vec<Expression>,
    n: TypeVarId,
)
    ensures
        ({
            let ot = infer_m(s, object, n).0;
            let call = (Expression::MethodCall { object: Box::new(object), method, args });
            let ct = infer_m(s, call, n).0;
            let m = method@;
            &&& (ot is Str || ot is List) && m == "len"@ ==> ct == TypeM::Int
            &&& ot is Str && (m == "upper"@ || m == "lower"@ || m == "trim"@ || m == "strip"@) ==> ct == TypeM::Str
            &&& ot is Str && m == "split"@ ==> ct == TypeM::List(Box::new(TypeM::Str))
            &&& (ot is Str || ot is List) && m == "contains"@ ==> ct == TypeM::Bool
            &&& ot is Str && (m == "starts_with"@ || m == "ends_with"@) ==> ct == TypeM::Bool
            &&& (ot is List && m == "pop"@) ==> ct == *ot->List_0
            &&& ot is List && (m == "push"@ || m == "append"@) ==> ct == TypeM::NoneT
        }),
{    reveal_strlit("len");
    assert("len"@ =~= seq!['l', 'e', 'n']);
    reveal_strlit("upper");
    assert("upper"@ =~= seq!['u', 'p', 'p', 'e', 'r']);
    reveal_strlit("lower");
    assert("lower"@ =~= seq!['l', 'o', 'w', 'e', 'r']);
    reveal_strlit("trim");
    assert("trim"@ =~= seq!['t', 'r', 'i', 'm']);
    reveal_strlit("strip");
    assert("strip"@ =~= seq!['s', 't', 'r', 'i', 'p']);
    reveal_strlit("split");
    assert("split"@ =~= seq!['s', 'p', 'l', 'i', 't']);
    reveal_strlit("contains");
    assert("contains"@ =~= seq!['c', 'o', 'n', 't', 'a', 'i', 'n', 's']);
    reveal_strlit("starts_with");
    assert("starts_with"@ =~= seq!['s', 't', 'a', 'r', 't', 's', '_', 'w', 'i', 't', 'h']);
    reveal_strlit("ends_with");
    assert("ends_with"@ =~= seq!['e', 'n', 'd', 's', '_', 'w', 'i', 't', 'h']);
    reveal_strlit("pop");
    assert("pop"@ =~= seq!['p', 'o', 'p']);
    reveal_strlit("push");
    assert("push"@ =~= seq!['p', 'u', 's', 'h']);
    reveal_strlit("append");
    assert("append"@ =~= seq!['a', 'p', 'p', 'e', 'n', 'd']);
}


/// Comparisons, equality and membership tests and logical operations are
/// truth values, whatever their operands.
pub proof fn lemma_tests_are_bool(l: TypeM, op: BinaryOperator, r: TypeM)
    requires
        op is Eq || op is NotEq || op is Lt || op is Gt || op is LtEq || op is GtEq || op is And || op is Or
            || op is In || op is Is,
    ensures
        binop_m(l, op, r) == TypeM::Bool,
{
}

/// Arithmetic on two integers gives an integer, and on two numbers one of
/// which is a float gives a float; integer division of numbers gives an
/// integer.
pub proof fn lemma_arithmetic_types(l: TypeM, op: BinaryOperator, r: TypeM)
    requires
        l is Int || l is Float,
        r is Int || r is Float,
    ensures
        (op is Add || op is Sub || op is Mul || op is Div || op is Mod || op is Power) ==> binop_m(l, op, r) == if l
            is Float || r is Float {
            TypeM::Float
        } else {
            TypeM::Int
        },
        op is IntDiv ==> binop_m(l, op, r) == TypeM::Int,
{
}

} // verus!
