//! The typing rules of the surface language: the type of each expression,
//! the errors that each construct reports, and how declarations extend the
//! environment. The checker is proved to follow them.
use vstd::prelude::*;
use crate::check::env::{BindingM, EnvM, ScopeM, define_scopes, lookup_m};
use crate::check::error::TypeErrorM;
use crate::check::types::{
    TyM, annotation_type, compatible, default_of, is_float_m, is_integer_m, is_poisoned_m, tys_view,
};
use crate::syntax::ast::{BinOp, Expr, Function, Item, ModuleDecl, Param, Stmt, UnaryOp};
use crate::syntax::span::Span;

verus! {

broadcast use vstd::std_specs::vec::group_vec_axioms;

// ── Environments ─────────────────────────────────────────────────────────────

/// `e` with a new, empty innermost scope.
pub open spec fn push_m(e: EnvM) -> EnvM {
    EnvM { scopes: e.scopes.push(Seq::empty()), ..e }
}

/// `e` without its innermost scope.
pub open spec fn pop_m(e: EnvM) -> EnvM {
    EnvM { scopes: e.scopes.drop_last(), ..e }
}

/// `e` with `name` bound to `b` in the innermost scope.
pub open spec fn define_m(e: EnvM, name: Seq<char>, b: BindingM) -> EnvM {
    EnvM { scopes: define_scopes(e.scopes, name, b), ..e }
}

/// `e` inside a loop body.
pub open spec fn looping(e: EnvM) -> EnvM {
    EnvM { in_loop: true, ..e }
}

// ── Operators ────────────────────────────────────────────────────────────────

/// How a binary operator is written.
pub open spec fn op_text(op: BinOp) -> Seq<char> {
    match op {
        BinOp::Add => "+"@,
        BinOp::Sub => "-"@,
        BinOp::Mul => "*"@,
        BinOp::Div => "/"@,
        BinOp::Mod => "%"@,
        BinOp::Eq => "=="@,
        BinOp::NotEq => "!="@,
        BinOp::Lt => "<"@,
        BinOp::LtEq => "<="@,
        BinOp::Gt => ">"@,
        BinOp::GtEq => ">="@,
        BinOp::And => "&&"@,
        BinOp::Or => "||"@,
    }
}

/// Numeric: an integer or a float type.
pub open spec fn is_numeric_m(t: TyM) -> bool {
    is_integer_m(t) || is_float_m(t)
}

/// The type of a binary operation on operands of types `l` and `r`, and the
/// errors it reports. A poisoned operand gives the error type silently.
/// Arithmetic wants numeric, compatible operands and has their type (an
/// integer literal on the left takes the right operand's defaulted type).
/// Ordering wants the same and gives `bool`; equality wants compatible
/// operands; `&&` and `||` want `bool` on both sides.
pub open spec fn binop_m(op: BinOp, l: TyM, r: TyM, span: Span) -> (TyM, Seq<TypeErrorM>) {
    let mismatch = seq![TypeErrorM::BinOpMismatch(op_text(op), l, r, span)];
    if is_poisoned_m(l) || is_poisoned_m(r) {
        (TyM::Error, seq![])
    } else {
        match op {
            BinOp::Add | BinOp::Sub | BinOp::Mul | BinOp::Div | BinOp::Mod => {
                if !is_numeric_m(l) || !compatible(l, r) {
                    (TyM::Error, mismatch)
                } else if l is IntLiteral {
                    (default_of(r), seq![])
                } else {
                    (l, seq![])
                }
            },
            BinOp::Lt | BinOp::LtEq | BinOp::Gt | BinOp::GtEq => {
                (TyM::Bool, if !is_numeric_m(l) || !compatible(l, r) {
                    mismatch
                } else {
                    seq![]
                })
            },
            BinOp::Eq | BinOp::NotEq => {
                (TyM::Bool, if !compatible(l, r) {
                    mismatch
                } else {
                    seq![]
                })
            },
            BinOp::And | BinOp::Or => {
                (
                    TyM::Bool,
                    want_bool(l, span) + want_bool(r, span),
                )
            },
        }
    }
}

/// The error for a value of type `t` where a `bool` is wanted, if any.
pub open spec fn want_bool(t: TyM, span: Span) -> Seq<TypeErrorM> {
    if !compatible(TyM::Bool, t) {
        seq![TypeErrorM::Mismatch(TyM::Bool, t, span)]
    } else {
        seq![]
    }
}

/// The type of a unary operation on an operand of type `t`, and its errors.
pub open spec fn unary_m(op: UnaryOp, t: TyM, span: Span) -> (TyM, Seq<TypeErrorM>) {
    if is_poisoned_m(t) {
        (TyM::Error, seq![])
    } else {
        match op {
            UnaryOp::Neg => if !is_numeric_m(t) {
                (TyM::Error, seq![TypeErrorM::InvalidUnary("-"@, t, span)])
            } else {
                (t, seq![])
            },
            UnaryOp::Not => if !compatible(TyM::Bool, t) {
                (TyM::Error, seq![TypeErrorM::Mismatch(TyM::Bool, t, span)])
            } else {
                (TyM::Bool, seq![])
            },
        }
    }
}

/// Whether a parameter list has an `Unknown` parameter (a variadic built-in).
pub open spec fn has_unknown(ps: Seq<TyM>) -> bool {
    exists|k: int| 0 <= k < ps.len() && #[trigger] ps[k] is Unknown
}

// ── Expressions ──────────────────────────────────────────────────────────────

/// The type of expression `e` in scopes `s`, and the errors that inferring
/// it reports, in order.
pub open spec fn infer_m(e: Expr, s: Seq<ScopeM>) -> (TyM, Seq<TypeErrorM>)
    decreases e,
{
    match e {
        Expr::Int(_, _) => (TyM::IntLiteral, seq![]),
        Expr::Float(_, _) => (TyM::FloatLiteral, seq![]),
        Expr::Str(_, _) => (TyM::Str, seq![]),
        Expr::Bool(_, _) => (TyM::Bool, seq![]),
        Expr::FStr(_, _) => (TyM::Str, seq![]),
        Expr::Ident(name, span) => match lookup_m(s, name@) {
            Some(b) => (b.0, seq![]),
            None => (TyM::Error, seq![TypeErrorM::Undefined(name@, span)]),
        },
        Expr::BinOp { op, lhs, rhs, span } => {
            let (lt, le) = infer_m(*lhs, s);
            let (rt, re) = infer_m(*rhs, s);
            let (t, be) = binop_m(op, lt, rt, span);
            (t, le + re + be)
        },
        Expr::UnaryOp { op, expr, span } => {
            let (t, te) = infer_m(*expr, s);
            let (u, ue) = unary_m(op, t, span);
            (u, te + ue)
        },
        Expr::Call { callee, args, span } => {
            let (ct, ce) = infer_m(*callee, s);
            match ct {
                TyM::Function(ps, r) => if !has_unknown(ps) && ps.len() != args@.len() {
                    (*r, ce.push(TypeErrorM::ArgCount(ps.len(), args@.len(), span)))
                } else {
                    (*r, ce + call_args_m(ps, args@, s, span))
                },
                TyM::Error => (TyM::Error, ce + all_errors_m(args@, s)),
                TyM::Unknown => (TyM::Error, ce + all_errors_m(args@, s)),
                other => (TyM::Error, ce.push(TypeErrorM::NotCallable(other, span)) + all_errors_m(args@, s)),
            }
        },
        Expr::Field { object, .. } => (TyM::Unknown, infer_m(*object, s).1),
        Expr::Index { object, index, span } => {
            let (ot, oe) = infer_m(*object, s);
            let (it, ie) = infer_m(*index, s);
            let ix = if !is_integer_m(it) && !is_poisoned_m(it) {
                seq![TypeErrorM::Mismatch(TyM::I64, it, span)]
            } else {
                seq![]
            };
            match ot {
                TyM::Array(inner) => (*inner, oe + ie + ix),
                TyM::Str => (TyM::Str, oe + ie + ix),
                TyM::Unknown => (TyM::Unknown, oe + ie + ix),
                TyM::Error => (TyM::Unknown, oe + ie + ix),
                other => (TyM::Error, (oe + ie + ix).push(TypeErrorM::NotIndexable(other, span))),
            }
        },
        Expr::Array(elems, span) => if elems@.len() == 0 {
            (TyM::Array(Box::new(TyM::Unknown)), seq![])
        } else {
            let (ft, fe) = infer_m(elems@[0], s);
            let first = default_of(ft);
            (TyM::Array(Box::new(first)), fe + array_rest_m(first, elems@, s, span))
        },
    }
}

/// The errors of the arguments `es` of a call to a function with parameter
/// types `ps`: each argument that has a parameter is inferred and checked
/// against it; the others are only inferred.
pub open spec fn call_args_m(ps: Seq<TyM>, es: Seq<Expr>, s: Seq<ScopeM>, span: Span) -> Seq<TypeErrorM>
    decreases es,
{
    if es.len() == 0 {
        seq![]
    } else {
        let k = es.len() - 1;
        let (t, te) = infer_m(es.last(), s);
        call_args_m(ps, es.drop_last(), s, span) + if k < ps.len() {
            te + if !compatible(ps[k], t) {
                seq![TypeErrorM::Mismatch(ps[k], t, span)]
            } else {
                seq![]
            }
        } else {
            te
        }
    }
}

/// The errors of inferring each of `es`, in order.
pub open spec fn all_errors_m(es: Seq<Expr>, s: Seq<ScopeM>) -> Seq<TypeErrorM>
    decreases es,
{
    if es.len() == 0 {
        seq![]
    } else {
        all_errors_m(es.drop_last(), s) + infer_m(es.last(), s).1
    }
}

/// The errors of the elements of an array literal after the first: each is
/// inferred and checked against the first element's defaulted type.
pub open spec fn array_rest_m(first: TyM, es: Seq<Expr>, s: Seq<ScopeM>, span: Span) -> Seq<TypeErrorM>
    decreases es,
{
    if es.len() <= 1 {
        seq![]
    } else {
        let (t, te) = infer_m(es.last(), s);
        array_rest_m(first, es.drop_last(), s, span) + te + if !compatible(first, t) {
            seq![TypeErrorM::Mismatch(first, t, span)]
        } else {
            seq![]
        }
    }
}

// ── Statements ───────────────────────────────────────────────────────────────

/// The type a binding gets: its annotation's type if it has one, else the
/// defaulted type of its value; and the mismatch between the two, if any.
pub open spec fn binding_type_m(declared: Option<crate::syntax::ast::TypeExpr>, inferred: TyM, span: Span) -> (
    TyM,
    Seq<TypeErrorM>,
) {
    match declared {
        Some(te) => {
            let d = annotation_type(te);
            (d, if !compatible(d, inferred) {
                seq![TypeErrorM::Mismatch(d, inferred, span)]
            } else {
                seq![]
            })
        },
        None => (default_of(inferred), seq![]),
    }
}

/// The element type of a `for` loop over a value of type `t`, and the error
/// when `t` cannot be iterated.
pub open spec fn element_m(t: TyM, span: Span) -> (TyM, Seq<TypeErrorM>) {
    match t {
        TyM::Array(inner) => (*inner, seq![]),
        TyM::Str => (TyM::Str, seq![]),
        TyM::Unknown => (TyM::Unknown, seq![]),
        TyM::Error => (TyM::Unknown, seq![]),
        other => (TyM::Error, seq![TypeErrorM::NotIterable(other, span)]),
    }
}

/// The environment after statement `st` in `e`, and the errors that
/// checking it reports. Only `let` and `var` change the environment: they
/// bind a name in the innermost scope.
pub open spec fn stmt_m(st: Stmt, e: EnvM) -> (EnvM, Seq<TypeErrorM>)
    decreases st, 0nat,
{
    match st {
        Stmt::Let { name, ty, value, span } => {
            let (vt, ve) = infer_m(value, e.scopes);
            let (t, me) = binding_type_m(ty, vt, span);
            (define_m(e, name@, (t, false)), ve + me)
        },
        Stmt::Var { name, ty, value, span } => {
            let (vt, ve) = infer_m(value, e.scopes);
            let (t, me) = binding_type_m(ty, vt, span);
            (define_m(e, name@, (t, true)), ve + me)
        },
        Stmt::Assign { target, value, span } => {
            if target matches Expr::Ident(n, isp) && (lookup_m(e.scopes, n@) matches Some(b) && !b.1) {
                (e, seq![TypeErrorM::ImmutableAssign(target->Ident_0@, target->Ident_1)])
            } else {
                let (tt, te) = infer_m(target, e.scopes);
                let (vt, ve) = infer_m(value, e.scopes);
                (e, te + ve + if !compatible(tt, vt) {
                    seq![TypeErrorM::Mismatch(tt, vt, span)]
                } else {
                    seq![]
                })
            }
        },
        Stmt::Return { value, span } => {
            let expected = match e.ret {
                Some(t) => t,
                None => TyM::Void,
            };
            let (actual, ae) = match value {
                Some(v) => infer_m(v, e.scopes),
                None => (TyM::Void, seq![]),
            };
            (e, ae + if !compatible(expected, actual) {
                seq![TypeErrorM::Mismatch(expected, actual, span)]
            } else {
                seq![]
            })
        },
        Stmt::If { condition, then_body, elif_branches, else_body, span } => {
            let (ct, ce) = infer_m(condition, e.scopes);
            let eb = match else_body {
                Some(b) => block_m(b@, e),
                None => seq![],
            };
            (e, ce + want_bool(ct, span) + block_m(then_body@, e) + elifs_m(elif_branches@, e, span) + eb)
        },
        Stmt::While { condition, body, span } => {
            let (ct, ce) = infer_m(condition, e.scopes);
            (e, ce + want_bool(ct, span) + block_m(body@, looping(e)))
        },
        Stmt::For { var, iter, body, span } => {
            let (it, ie) = infer_m(iter, e.scopes);
            let (elem, fe) = element_m(it, span);
            let inner = looping(define_m(push_m(e), var@, (elem, false)));
            (e, ie + fe + stmts_m(body@, inner).1)
        },
        Stmt::Break { .. } => (e, seq![]),
        Stmt::Continue { .. } => (e, seq![]),
        Stmt::Pass { .. } => (e, seq![]),
        Stmt::Expr(x) => (e, infer_m(x, e.scopes).1),
    }
}

/// The environment after the statements `ss`, one after another, and their
/// errors in order.
pub open spec fn stmts_m(ss: Seq<Stmt>, e: EnvM) -> (EnvM, Seq<TypeErrorM>)
    decreases ss, 0nat,
{
    if ss.len() == 0 {
        (e, seq![])
    } else {
        let (e1, es1) = stmts_m(ss.drop_last(), e);
        let (e2, es2) = stmt_m(ss.last(), e1);
        (e2, es1 + es2)
    }
}

/// The errors of a block: its statements checked in a new inner scope.
pub open spec fn block_m(ss: Seq<Stmt>, e: EnvM) -> Seq<TypeErrorM>
    decreases ss, 1nat,
{
    stmts_m(ss, push_m(e)).1
}

/// The errors of `elif` branches: each condition must be a `bool`, and each
/// body is a block.
pub open spec fn elifs_m(bs: Seq<(Expr, Vec<Stmt>)>, e: EnvM, span: Span) -> Seq<TypeErrorM>
    decreases bs, 0nat,
{
    if bs.len() == 0 {
        seq![]
    } else {
        let (ct, ce) = infer_m(bs.last().0, e.scopes);
        elifs_m(bs.drop_last(), e, span) + ce + want_bool(ct, span) + block_m(bs.last().1@, e)
    }
}

// ── Items ────────────────────────────────────────────────────────────────────

/// The type of a parameter: its annotation's, else unknown.
pub open spec fn param_type(p: Param) -> TyM {
    match p.ty {
        Some(te) => annotation_type(te),
        None => TyM::Unknown,
    }
}

/// The declared return type of a function: its annotation's, else void.
pub open spec fn return_type(f: Function) -> TyM {
    match f.return_ty {
        Some(te) => annotation_type(te),
        None => TyM::Void,
    }
}

/// The type of a function: its parameter types and return type.
pub open spec fn signature_m(f: Function) -> TyM {
    TyM::Function(Seq::new(f.params@.len(), |i: int| param_type(f.params@[i])), Box::new(return_type(f)))
}

/// `e` with the signature of every function among `items` bound, in order.
pub open spec fn register_m(items: Seq<Item>, e: EnvM) -> EnvM
    decreases items.len(),
{
    if items.len() == 0 {
        e
    } else {
        let e1 = register_m(items.drop_last(), e);
        match items.last() {
            Item::Function(f) => define_m(e1, f.name@, (signature_m(f), false)),
            _ => e1,
        }
    }
}

/// Pass one of a program: every top-level function's signature and every
/// function signature of a top-level module is bound.
pub open spec fn hoist_m(items: Seq<Item>, e: EnvM) -> EnvM
    decreases items.len(),
{
    if items.len() == 0 {
        e
    } else {
        let e1 = hoist_m(items.drop_last(), e);
        match items.last() {
            Item::Function(f) => define_m(e1, f.name@, (signature_m(f), false)),
            Item::Module(m) => register_m(m.items@, e1),
            _ => e1,
        }
    }
}

/// `e` with the parameters `ps` bound, in order, as `let` bindings.
pub open spec fn params_m(ps: Seq<Param>, e: EnvM) -> EnvM
    decreases ps.len(),
{
    if ps.len() == 0 {
        e
    } else {
        let p = ps.last();
        define_m(params_m(ps.drop_last(), e), p.name@, (param_type(p), false))
    }
}

/// The errors of a function: its body checked in a new scope that binds its
/// parameters, with its declared return type expected.
pub open spec fn fn_m(f: Function, e: EnvM) -> Seq<TypeErrorM> {
    let inner = EnvM { ret: Some(return_type(f)), ..params_m(f.params@, push_m(e)) };
    stmts_m(f.body@, inner).1
}

/// The environment after item `it`, and its errors. Only a struct changes
/// the environment: its name is bound, of unknown type.
pub open spec fn item_m(it: Item, e: EnvM) -> (EnvM, Seq<TypeErrorM>)
    decreases it,
{
    match it {
        Item::Function(f) => (e, fn_m(f, e)),
        Item::Module(m) => (e, module_m(m, e)),
        Item::Struct(sd) => (define_m(e, sd.name@, (TyM::Unknown, false)), seq![]),
        Item::Import(_) => (e, seq![]),
        Item::RuntimeConfig(_) => (e, seq![]),
        Item::Expr(x) => (e, infer_m(x, e.scopes).1),
    }
}

/// The errors of a module: its items checked in a new scope in which the
/// signatures of its functions are bound first.
pub open spec fn module_m(m: ModuleDecl, e: EnvM) -> Seq<TypeErrorM>
    decreases m,
{
    items_m(m.items@, register_m(m.items@, push_m(e))).1
}

/// The environment after the items `its`, one after another, and their
/// errors in order.
pub open spec fn items_m(its: Seq<Item>, e: EnvM) -> (EnvM, Seq<TypeErrorM>)
    decreases its,
{
    if its.len() == 0 {
        (e, seq![])
    } else {
        let (e1, es1) = items_m(its.drop_last(), e);
        let (e2, es2) = item_m(its.last(), e1);
        (e2, es1 + es2)
    }
}

/// A program: pass one binds the signatures, pass two checks every item.
pub open spec fn program_m(items: Seq<Item>, e: EnvM) -> (EnvM, Seq<TypeErrorM>) {
    items_m(items, hoist_m(items, e))
}


/// A comparison, an equality test or a logical operation is a truth value,
/// whatever its operands: when neither operand's type is poisoned its type
/// is `bool`, and in every case it is accepted where a condition is wanted.
pub proof fn lemma_tests_are_bool(op: BinOp, l: TyM, r: TyM, span: Span, at: Span)
    requires
        op is Lt || op is LtEq || op is Gt || op is GtEq || op is Eq || op is NotEq || op is And || op is Or,
    ensures
        !is_poisoned_m(l) && !is_poisoned_m(r) ==> binop_m(op, l, r, span).0 == TyM::Bool,
        want_bool(binop_m(op, l, r, span).0, at) == Seq::<TypeErrorM>::empty(),
{
}

/// Arithmetic that raises no error gives a number: its type is numeric and
/// compatible with both operands (an integer literal takes the type of the
/// other side).
pub proof fn lemma_arithmetic_is_numeric(op: BinOp, l: TyM, r: TyM, span: Span)
    requires
        op is Add || op is Sub || op is Mul || op is Div || op is Mod,
        !is_poisoned_m(l),
        !is_poisoned_m(r),
        binop_m(op, l, r, span).1 == Seq::<TypeErrorM>::empty(),
    ensures
        is_numeric_m(binop_m(op, l, r, span).0),
        compatible(binop_m(op, l, r, span).0, l) || l is IntLiteral,
        compatible(binop_m(op, l, r, span).0, r),
{
    let t = binop_m(op, l, r, span).0;
    let mismatch = seq![TypeErrorM::BinOpMismatch(op_text(op), l, r, span)];
    assert(mismatch.len() == 1);
    if !is_numeric_m(l) || !compatible(l, r) {
        assert(binop_m(op, l, r, span).1 == mismatch);
        assert(false);
    }
    if l is IntLiteral {
        assert(t == default_of(r));
    } else {
        assert(t == l);
    }
}


/// A negation that raises no error keeps its operand's numeric type, and a
/// logical not that raises none is a truth value.
pub proof fn lemma_unary_types(op: UnaryOp, t: TyM, span: Span)
    requires
        !is_poisoned_m(t),
        unary_m(op, t, span).1 == Seq::<TypeErrorM>::empty(),
    ensures
        op is Neg ==> unary_m(op, t, span).0 == t && is_numeric_m(t),
        op is Not ==> unary_m(op, t, span).0 == TyM::Bool,
{
    if op is Neg && !is_numeric_m(t) {
        assert(unary_m(op, t, span).1.len() == 1);
    }
    if op is Not && !compatible(TyM::Bool, t) {
        assert(unary_m(op, t, span).1.len() == 1);
    }
}

} // verus!
