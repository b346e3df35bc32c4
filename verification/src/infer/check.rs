//! The Nova type checker: registers declarations, then infers the type of
//! every expression, unifying types as it goes and collecting errors.
use std::collections::HashMap;
use vstd::prelude::*;
use crate::check::types::spells;
use crate::infer::ast::{BinaryOperator, Decorator, Expression, Parameter, Program, Statement, UnaryOperator};
use crate::infer::env::{
    ScopeM, TypeEnv, builtin_scope, bump, bumps, define_var_m, empty_scope, lookup_fn_m, lookup_type_m,
    lookup_var_m, resolve_m,
};
use crate::infer::error::TypeError;
use crate::infer::rules::{
    binop_m, effects_of, field_of, infer_inits_m, infer_list_m, infer_m, infer_pairs_m, is_pure_m,
    lambda_params_m, method_m, numeric_m, sig_type_m, stmt_m, stmts_m, elifs_m, params_m, register_m,
    registers_m, program_m, declared_sig_m, declared_struct_m, lemma_params_frame,
};
use crate::infer::subst::{acyclic, apply_c, compat, extends, ranked, resolve_c};
use crate::infer::types::{
    Effect, EffectM, Type, TypeM, TypeVarId, effects_view, fields_view, group_type_views, types_view,
};
use crate::infer::unify::{Substitution, heads_clash, unify};

verus! {

broadcast use vstd::std_specs::vec::group_vec_axioms, group_type_views;

/// Result of type checking a program
pub struct CheckResult {
    pub errors: Vec<TypeError>,
    pub warnings: Vec<String>,
}

/// `b` starts with `a`.
pub open spec fn grows(a: Seq<TypeError>, b: Seq<TypeError>) -> bool {
    a.len() <= b.len() && forall|i: int| 0 <= i < a.len() ==> #[trigger] b[i] == a[i]
}

/// Whether statement `st`, checked outside any loop in the scopes `s`, is
/// sure to be reported: a `break` or `continue` outside a loop, or a bare
/// name that names no variable and no function.
pub open spec fn faulty(s: Seq<ScopeM>, st: Statement) -> bool {
    ||| st is Break
    ||| st is Continue
    ||| (st matches Statement::Expression(Expression::Identifier(n)) && lookup_var_m(s, n@) is None
        && lookup_fn_m(s, n@) is None)
}

/// The number of statements of `sts`, checked one after another from the
/// scopes `s` and counter `n` (not counting those nested in other
/// statements), that are sure to be reported.
pub open spec fn faults(s: Seq<ScopeM>, sts: Seq<Statement>, n: TypeVarId) -> nat
    decreases sts.len(),
{
    if sts.len() == 0 {
        0
    } else {
        faults(s, sts.drop_last(), n) + if faulty(stmts_m(s, sts.drop_last(), n).0, sts.last()) {
            1nat
        } else {
            0nat
        }
    }
}

/// The Nova type checker
pub struct Checker {
    env: TypeEnv,
    subst: Substitution,
    errors: Vec<TypeError>,
    warnings: Vec<String>,
    in_loop: bool,
    /// The number of the next fresh type variable.
    next_var: TypeVarId,
}

/// A literal whose type inference knows without looking at anything else.
pub open spec fn plain_literal(e: Expression) -> bool {
    e is IntLiteral || e is FloatLiteral || e is StringLiteral || e is BoolLiteral || e is NoneLiteral
}

impl Checker {
    /// The substitution has no cycles and the environment has its global scope.
    pub closed spec fn wf(&self) -> bool {
        acyclic(self.subst@) && self.env@.len() >= 1
    }

    /// The scopes of the environment.
    pub closed spec fn scopes(&self) -> Seq<ScopeM> {
        self.env@
    }

    /// The number of the next fresh type variable.
    pub closed spec fn counter(&self) -> TypeVarId {
        self.next_var
    }

    /// The errors reported and not yet handed out.
    pub closed spec fn reported(&self) -> Seq<TypeError> {
        self.errors@
    }

    /// The warnings recorded and not yet handed out.
    pub closed spec fn notes(&self) -> Seq<String> {
        self.warnings@
    }

    /// Whether the checker is inside a loop.
    pub closed spec fn looping(&self) -> bool {
        self.in_loop
    }

    /// What a step of checking keeps: the invariant, every binding of the
    /// substitution, every error reported so far, the warnings and whether
    /// the checker is inside a loop.
    closed spec fn keeps(&self, before: Checker) -> bool {
        &&& self.wf()
        &&& extends(self.subst@, before.subst@)
        &&& grows(before.errors@, self.errors@)
        &&& self.warnings@ == before.warnings@
        &&& self.in_loop == before.in_loop
    }

    pub fn new() -> (r: Self)
        ensures
            r.wf(),
            r.scopes() == seq![builtin_scope(0)],
            r.counter() == bumps(0, 8),
            r.reported() == Seq::<TypeError>::empty(),
            r.notes() == Seq::<String>::empty(),
            !r.looping(),
    {
        let mut next_var: TypeVarId = 0;
        let env = TypeEnv::new(&mut next_var);
        let subst: Substitution = HashMap::new();
        let ghost p: (spec_fn(TypeVarId) -> nat, nat) = (|v: TypeVarId| 0nat, 0nat);
        assert(ranked(subst@, p.0, p.1));
        Self { env, subst, errors: Vec::new(), warnings: Vec::new(), in_loop: false, next_var }
    }

    /// Record an error without stopping.
    fn error(&mut self, err: TypeError)
        ensures
            final(self).errors@ == old(self).errors@.push(err),
            final(self).env == old(self).env,
            final(self).subst == old(self).subst,
            final(self).warnings == old(self).warnings,
            final(self).in_loop == old(self).in_loop,
            final(self).next_var == old(self).next_var,
    {
        self.errors.push(err);
    }

    /// Unify two types, reporting the error if they do not unify.
    fn unify_or_report(&mut self, a: &Type, b: &Type)
        requires
            old(self).wf(),
        ensures
            final(self).keeps(*old(self)),
            final(self).env == old(self).env,
            final(self).next_var == old(self).next_var,
            (final(self).errors@ == old(self).errors@ && compat(
                apply_c(a@, final(self).subst@),
                apply_c(b@, final(self).subst@),
            )) || (final(self).errors@.len() == old(self).errors@.len() + 1 && final(self).errors@.drop_last()
                == old(self).errors@),
            resolve_c(a@, old(self).subst@) == resolve_c(b@, old(self).subst@) ==> final(self).errors@
                == old(self).errors@ && final(self).subst@ == old(self).subst@,
            heads_clash(resolve_c(a@, old(self).subst@), resolve_c(b@, old(self).subst@)) ==> {
                let ra = resolve_c(a@, old(self).subst@);
                let rb = resolve_c(b@, old(self).subst@);
                let errs = final(self).errors@;
                &&& final(self).subst@ == old(self).subst@
                &&& errs.len() == old(self).errors@.len() + 1
                &&& errs.last() matches TypeError::Mismatch { expected, found } && expected@ == ra && found@ == rb
            },
    {
        if let Err(e) = unify(a, b, &mut self.subst) {
            self.error(e);
        }
    }

    /// Require a `bool`, reporting a non-bool condition of type `found`.
    fn expect_bool(&mut self, found: &Type)
        requires
            old(self).wf(),
        ensures
            final(self).keeps(*old(self)),
            final(self).env == old(self).env,
            final(self).next_var == old(self).next_var,
            (final(self).errors@ == old(self).errors@ && compat(
                apply_c(TypeM::Bool, final(self).subst@),
                apply_c(found@, final(self).subst@),
            )) || (final(self).errors@.len() == old(self).errors@.len() + 1 && final(self).errors@.drop_last()
                == old(self).errors@ && (final(self).errors@.last() matches TypeError::NonBoolCondition {
                found: f,
            } && f@ == found@)),
            resolve_c(found@, old(self).subst@) == TypeM::Bool ==> final(self).errors@ == old(self).errors@
                && final(self).subst@ == old(self).subst@,
            heads_clash(TypeM::Bool, resolve_c(found@, old(self).subst@)) ==> (final(self).errors@.len()
                == old(self).errors@.len() + 1 && final(self).errors@.drop_last() == old(self).errors@
                && (final(self).errors@.last() matches TypeError::NonBoolCondition { found: f } && f@ == found@)),
    {
        assert(resolve_c(Type::Bool@, self.subst@) == TypeM::Bool);
        if let Err(_) = unify(&Type::Bool, found, &mut self.subst) {
            self.error(TypeError::NonBoolCondition { found: found.duplicate() });
        }
    }

    /// A fresh type variable.
    fn fresh(&mut self) -> (r: Type)
        ensures
            r@ == TypeM::Var(old(self).next_var),
            final(self).next_var == bump(old(self).next_var),
            final(self).env == old(self).env,
            final(self).subst == old(self).subst,
            final(self).errors == old(self).errors,
            final(self).warnings == old(self).warnings,
            final(self).in_loop == old(self).in_loop,
    {
        Type::fresh_var(&mut self.next_var)
    }

    // ── Binary operator type checking ────────────────────────

    fn check_binary_op(&mut self, left: &Type, op: BinaryOperator, right: &Type) -> (r: Type)
        requires
            old(self).wf(),
        ensures
            r@ == binop_m(left@, op, right@),
            final(self).keeps(*old(self)),
            final(self).env == old(self).env,
            final(self).next_var == old(self).next_var,
    {
        match op {
            // Arithmetic: numeric × numeric → numeric
            BinaryOperator::Add | BinaryOperator::Sub | BinaryOperator::Mul | BinaryOperator::Div
            | BinaryOperator::Mod | BinaryOperator::Power => {
                // String concatenation
                if matches!(op, BinaryOperator::Add) && matches!(left, Type::Str) && matches!(right, Type::Str) {
                    return Type::Str;
                }
                // If either side is a type variable, try to unify with the other
                if matches!(left, Type::Var(_)) && right.is_numeric() {
                    let _ = unify(left, right, &mut self.subst);
                    return right.duplicate();
                }
                if matches!(right, Type::Var(_)) && left.is_numeric() {
                    let _ = unify(right, left, &mut self.subst);
                    return left.duplicate();
                }
                if matches!(left, Type::Var(_)) && matches!(right, Type::Var(_)) {
                    let _ = unify(left, right, &mut self.subst);
                    return left.duplicate();
                }
                if !left.is_numeric() || !right.is_numeric() {
                    self.error(
                        TypeError::InvalidOperator {
                            op: op.name().to_string(),
                            left: left.duplicate(),
                            right: right.duplicate(),
                        },
                    );
                    return Type::Error;
                }
                // Float wins in mixed operations
                if matches!(left, Type::Float) || matches!(right, Type::Float) {
                    Type::Float
                } else {
                    Type::Int
                }
            },
            BinaryOperator::IntDiv => {
                if !left.is_numeric() || !right.is_numeric() {
                    self.error(
                        TypeError::InvalidOperator {
                            op: "//".to_string(),
                            left: left.duplicate(),
                            right: right.duplicate(),
                        },
                    );
                    return Type::Error;
                }
                Type::Int
            },
            // Comparison: same type → bool
            BinaryOperator::Eq | BinaryOperator::NotEq | BinaryOperator::Lt | BinaryOperator::Gt
            | BinaryOperator::LtEq | BinaryOperator::GtEq => {
                self.unify_or_report(left, right);
                Type::Bool
            },
            // Logical: bool × bool → bool
            BinaryOperator::And | BinaryOperator::Or => {
                self.expect_bool(left);
                self.expect_bool(right);
                Type::Bool
            },
            // Membership and identity: → bool
            BinaryOperator::In | BinaryOperator::Is => Type::Bool,
        }
    }

    // ── Expression type inference ────────────────────────────

    /// Infer the type of an expression; errors found on the way are
    /// recorded and the expression gets the error type.
    fn infer_expression(&mut self, expr: &Expression) -> (r: Type)
        requires
            old(self).wf(),
        ensures
            final(self).keeps(*old(self)),
            final(self).env@ == old(self).env@,
            (r@, final(self).next_var) == infer_m(old(self).env@, *expr, old(self).next_var),
            (*expr is IntLiteral || *expr is FloatLiteral || *expr is StringLiteral || *expr is BoolLiteral
                || *expr is NoneLiteral || *expr is FString) ==> final(self).errors@ == old(self).errors@,
            *expr matches Expression::Identifier(name) ==> final(self).errors@ == if lookup_var_m(
                old(self).env@,
                name@,
            ) is Some || lookup_fn_m(old(self).env@, name@) is Some {
                old(self).errors@
            } else {
                old(self).errors@.push(TypeError::UndefinedVariable { name })
            },
        decreases expr, 1nat,
    {
        let ghost s = self.env@;
        let ghost n = self.next_var;
        match expr {
            Expression::IntLiteral(_) => Type::Int,
            Expression::FloatLiteral(_) => Type::Float,
            Expression::StringLiteral(_) => Type::Str,
            Expression::BoolLiteral(_) => Type::Bool,
            Expression::NoneLiteral => Type::NoneType,
            Expression::FString(_) => Type::Str,
            Expression::Identifier(name) => {
                if let Some(b) = self.env.lookup_variable(name.as_str()) {
                    b.0.duplicate()
                } else if let Some(sig) = self.env.lookup_function(name.as_str()) {
                    // Function used as a value (e.g. passed to pipe)
                    sig_type(sig)
                } else {
                    self.error(TypeError::UndefinedVariable { name: name.clone() });
                    Type::Error
                }
            },
            Expression::BinaryOp { left, op, right } => {
                let left_ty = self.infer_expression(left);
                let right_ty = self.infer_expression(right);
                self.check_binary_op(&left_ty, *op, &right_ty)
            },
            Expression::UnaryOp { op, operand } => {
                let operand_ty = self.infer_expression(operand);
                match op {
                    UnaryOperator::Neg => {
                        if operand_ty.is_numeric() {
                            operand_ty
                        } else {
                            self.error(TypeError::InvalidNegation { ty: operand_ty.duplicate() });
                            Type::Error
                        }
                    },
                    UnaryOperator::Not => {
                        self.expect_bool(&operand_ty);
                        Type::Bool
                    },
                }
            },
            Expression::Call { .. } => self.infer_call(expr),
            Expression::FieldAccess { object, field } => {
                let obj_ty = self.infer_expression(object);
                match &obj_ty {
                    Type::Struct(st) => {
                        match field_type(&st.fields, field) {
                            Some(field_ty) => field_ty.duplicate(),
                            None => {
                                self.error(TypeError::NoSuchField { ty: obj_ty.duplicate(), field: field.clone() });
                                Type::Error
                            },
                        }
                    },
                    Type::Error => Type::Error,
                    _ => {
                        self.error(TypeError::NoSuchField { ty: obj_ty.duplicate(), field: field.clone() });
                        Type::Error
                    },
                }
            },
            Expression::MethodCall { object, method, args } => {
                let obj_ty = self.infer_expression(object);
                let _arg_types = self.infer_all(args);
                // Built-in methods on common types; another could be a
                // trait method, which gets a fresh variable for now
                match method_result(&obj_ty, method) {
                    Some(t) => t,
                    None => self.fresh(),
                }
            },
            Expression::Index { object, index } => {
                let obj_ty = self.infer_expression(object);
                let idx_ty = self.infer_expression(index);
                match &obj_ty {
                    Type::List(inner) => {
                        self.unify_or_report(&Type::Int, &idx_ty);
                        (**inner).duplicate()
                    },
                    Type::Dict(key, val) => {
                        self.unify_or_report(&**key, &idx_ty);
                        (**val).duplicate()
                    },
                    Type::Str => {
                        self.unify_or_report(&Type::Int, &idx_ty);
                        Type::Char
                    },
                    Type::Error => Type::Error,
                    _ => {
                        self.error(TypeError::NotIndexable { ty: obj_ty.duplicate() });
                        Type::Error
                    },
                }
            },
            Expression::Pipe { left, right } => {
                let input_ty = self.infer_expression(left);
                // `data |> transform` is sugar for `transform(data)`
                let func_ty = self.infer_expression(right);
                match &func_ty {
                    Type::Function { return_type, .. } => (**return_type).duplicate(),
                    _ => {
                        let ret = self.fresh();
                        let mut params: Vec<Type> = Vec::new();
                        params.push(input_ty);
                        let expected = Type::Function {
                            params,
                            return_type: Box::new(ret.duplicate()),
                            effects: Vec::new(),
                        };
                        let _ = unify(&func_ty, &expected, &mut self.subst);
                        ret
                    },
                }
            },
            Expression::Lambda { .. } => self.infer_lambda(expr),
            Expression::List(elements) => {
                if elements.len() == 0 {
                    let elem = self.fresh();
                    Type::List(Box::new(elem))
                } else {
                    let first_ty = self.infer_expression(&elements[0]);
                    self.infer_like(&first_ty, elements);
                    Type::List(Box::new(first_ty))
                }
            },
            Expression::Dict(entries) => {
                if entries.len() == 0 {
                    let key = self.fresh();
                    let val = self.fresh();
                    Type::Dict(Box::new(key), Box::new(val))
                } else {
                    let first_key_ty = self.infer_expression(&entries[0].0);
                    let first_val_ty = self.infer_expression(&entries[0].1);
                    self.infer_pairs_like(&first_key_ty, &first_val_ty, entries);
                    Type::Dict(Box::new(first_key_ty), Box::new(first_val_ty))
                }
            },
            Expression::StructInit { name, fields } => {
                let found: Option<Type> = match self.env.lookup_type(name.as_str()) {
                    Some(t) => Some(t.duplicate()),
                    None => None,
                };
                match found {
                    Some(ty) => {
                        if let Type::Struct(struct_ty) = &ty {
                            // Check each provided field
                            self.infer_inits(&ty, &struct_ty.fields, fields);
                        }
                        ty
                    },
                    None => {
                        self.error(TypeError::UndefinedType { name: name.clone() });
                        Type::Error
                    },
                }
            },
            Expression::Await(inner) => {
                let _inner_ty = self.infer_expression(inner);
                // Future<T> → T (simplified for now)
                self.fresh()
            },
            Expression::ResultExpr { value, .. } => {
                let val_ty = self.infer_expression(value);
                let error_ty = Type::Named("Error".to_string());
                assert(error_ty@ == TypeM::Named("Error"@));
                Type::Result(Box::new(val_ty), Box::new(error_ty))
            },
        }
    }

    /// Infer the elements of a list literal after the first, each unified
    /// with the first's type.
    fn infer_like(&mut self, first: &Type, es: &Vec<Expression>)
        requires
            old(self).wf(),
            es@.len() >= 1,
        ensures
            final(self).keeps(*old(self)),
            final(self).env@ == old(self).env@,
            final(self).next_var == infer_list_m(old(self).env@, es@.drop_first(), old(self).next_var).1,
        decreases es, 0nat,
    {
        let ghost s = self.env@;
        let ghost n = self.next_var;
        let mut i: usize = 1;
        assert(es@.subrange(1, 1) =~= Seq::<Expression>::empty());
        while i < es.len()
            invariant
                1 <= i <= es@.len(),
                self.keeps(*old(self)),
                self.env@ == s,
                self.next_var == infer_list_m(s, es@.subrange(1, i as int), n).1,
            decreases es@.len() - i,
        {
            assert(decreases_to!(es => es@[i as int]));
            let elem_ty = self.infer_expression(&es[i]);
            self.unify_or_report(first, &elem_ty);
            assert(es@.subrange(1, i + 1).drop_last() =~= es@.subrange(1, i as int));
            i = i + 1;
        }
        assert(es@.subrange(1, es@.len() as int) =~= es@.drop_first());
    }

    /// Infer the entries of a dictionary literal after the first, each key
    /// and value unified with the first's.
    fn infer_pairs_like(&mut self, key: &Type, val: &Type, es: &Vec<(Expression, Expression)>)
        requires
            old(self).wf(),
            es@.len() >= 1,
        ensures
            final(self).keeps(*old(self)),
            final(self).env@ == old(self).env@,
            final(self).next_var == infer_pairs_m(old(self).env@, es@.drop_first(), old(self).next_var),
        decreases es, 0nat,
    {
        let ghost s = self.env@;
        let ghost n = self.next_var;
        let mut i: usize = 1;
        assert(es@.subrange(1, 1) =~= Seq::<(Expression, Expression)>::empty());
        while i < es.len()
            invariant
                1 <= i <= es@.len(),
                self.keeps(*old(self)),
                self.env@ == s,
                self.next_var == infer_pairs_m(s, es@.subrange(1, i as int), n),
            decreases es@.len() - i,
        {
            assert(decreases_to!(es => es@[i as int]));
            assert(decreases_to!(es@[i as int] => es@[i as int].0));
            assert(decreases_to!(es@[i as int] => es@[i as int].1));
            let k_ty = self.infer_expression(&es[i].0);
            let v_ty = self.infer_expression(&es[i].1);
            self.unify_or_report(key, &k_ty);
            self.unify_or_report(val, &v_ty);
            assert(es@.subrange(1, i + 1).drop_last() =~= es@.subrange(1, i as int));
            i = i + 1;
        }
        assert(es@.subrange(1, es@.len() as int) =~= es@.drop_first());
    }

    /// Infer the field initializers of a struct literal of type `ty`, each
    /// checked against the field's declared type.
    fn infer_inits(&mut self, ty: &Type, declared: &Vec<(String, Type)>, fields: &Vec<(String, Expression)>)
        requires
            old(self).wf(),
        ensures
            final(self).keeps(*old(self)),
            final(self).env@ == old(self).env@,
            final(self).next_var == infer_inits_m(old(self).env@, fields@, old(self).next_var),
        decreases fields, 0nat,
    {
        let ghost s = self.env@;
        let ghost n = self.next_var;
        let mut i: usize = 0;
        assert(fields@.take(0) =~= Seq::<(String, Expression)>::empty());
        while i < fields.len()
            invariant
                i <= fields@.len(),
                self.keeps(*old(self)),
                self.env@ == s,
                self.next_var == infer_inits_m(s, fields@.take(i as int), n),
            decreases fields@.len() - i,
        {
            assert(decreases_to!(fields => fields@[i as int]));
            assert(decreases_to!(fields@[i as int] => fields@[i as int].1));
            let field_ty = self.infer_expression(&fields[i].1);
            match field_type(declared, &fields[i].0) {
                Some(expected_ty) => self.unify_or_report(expected_ty, &field_ty),
                None => self.error(TypeError::NoSuchField { ty: ty.duplicate(), field: fields[i].0.clone() }),
            }
            assert(fields@.take(i + 1).drop_last() =~= fields@.take(i as int));
            i = i + 1;
        }
        assert(fields@.take(fields@.len() as int) =~= fields@);
    }

    /// Infer each of `es`, in order.
    fn infer_all(&mut self, es: &Vec<Expression>) -> (r: Vec<Type>)
        requires
            old(self).wf(),
        ensures
            final(self).keeps(*old(self)),
            final(self).env@ == old(self).env@,
            r@.len() == es@.len(),
            (types_view(r@), final(self).next_var) == infer_list_m(old(self).env@, es@, old(self).next_var),
        decreases es, 0nat,
    {
        let ghost s = self.env@;
        let ghost n = self.next_var;
        let mut r: Vec<Type> = Vec::new();
        let mut i: usize = 0;
        assert(es@.take(0) =~= Seq::<Expression>::empty());
        assert(types_view(r@) =~= Seq::<TypeM>::empty());
        while i < es.len()
            invariant
                i <= es@.len(),
                r@.len() == i,
                self.keeps(*old(self)),
                self.env@ == s,
                (types_view(r@), self.next_var) == infer_list_m(s, es@.take(i as int), n),
            decreases es@.len() - i,
        {
            assert(decreases_to!(es => es@[i as int]));
            let t = self.infer_expression(&es[i]);
            let ghost before = r@;
            r.push(t);
            assert(es@.take(i + 1).drop_last() =~= es@.take(i as int));
            assert(r@.drop_last() =~= before);
            assert(types_view(r@) =~= types_view(before).push(t@));
            i = i + 1;
        }
        assert(es@.take(es@.len() as int) =~= es@);
        r
    }

    /// Infer a call: the callee, then the arguments, then check them
    /// against the callee's parameters and purity.
    fn infer_call(&mut self, expr: &Expression) -> (r: Type)
        requires
            old(self).wf(),
            *expr is Call,
        ensures
            final(self).keeps(*old(self)),
            final(self).env@ == old(self).env@,
            (r@, final(self).next_var) == infer_m(old(self).env@, *expr, old(self).next_var),
        decreases expr, 0nat,
    {
        let (function, args) = match expr {
            Expression::Call { function, args } => (function, args),
            _ => {
                assert(false);
                return Type::Error;
            },
        };
        let func_ty = self.infer_expression(function);
        let arg_types = self.infer_all(args);
        match &func_ty {
            Type::Function { params, return_type, effects } => {
                // Check arity
                if params.len() != arg_types.len() {
                    let name = callee_name(function);
                    self.error(TypeError::ArityMismatch { name, expected: params.len(), found: arg_types.len() });
                } else {
                    // Unify each argument with its parameter
                    let mut i: usize = 0;
                    while i < params.len()
                        invariant
                            i <= params@.len(),
                            params@.len() == arg_types@.len(),
                            self.keeps(*old(self)),
                            self.env@ == old(self).env@,
                            self.next_var == infer_list_m(old(self).env@, args@, infer_m(old(self).env@, **function, old(self).next_var).1).1,
                        decreases params@.len() - i,
                    {
                        self.unify_or_report(&params[i], &arg_types[i]);
                        i = i + 1;
                    }
                }
                // Check effects
                if self.env.is_in_pure_function() && effects.len() > 0 {
                    let name = callee_name(function);
                    self.error(TypeError::PurityViolation { name });
                }
                (**return_type).duplicate()
            },
            Type::Var(_) => {
                // Unknown function type: create fresh return var
                let ret = self.fresh();
                let expected = Type::Function {
                    params: arg_types,
                    return_type: Box::new(ret.duplicate()),
                    effects: Vec::new(),
                };
                self.unify_or_report(&func_ty, &expected);
                ret
            },
            Type::Error => Type::Error,
            _ => {
                self.error(TypeError::NotCallable { ty: func_ty.duplicate() });
                Type::Error
            },
        }
    }

    /// Infer a lambda: each parameter gets a fresh type variable in a new
    /// scope, in which the body is inferred.
    fn infer_lambda(&mut self, expr: &Expression) -> (r: Type)
        requires
            old(self).wf(),
            *expr is Lambda,
        ensures
            final(self).keeps(*old(self)),
            final(self).env@ == old(self).env@,
            (r@, final(self).next_var) == infer_m(old(self).env@, *expr, old(self).next_var),
        decreases expr, 0nat,
    {
        let (params, body) = match expr {
            Expression::Lambda { params, body } => (params, body),
            _ => {
                assert(false);
                return Type::Error;
            },
        };
        let ghost s = self.env@;
        let ghost n = self.next_var;
        let ghost s0 = s.push(empty_scope());
        self.env.push_scope();
        let mut param_types: Vec<Type> = Vec::new();
        let mut i: usize = 0;
        assert(params@.take(0) =~= Seq::<String>::empty());
        assert(types_view(param_types@) =~= Seq::<TypeM>::empty());
        while i < params.len()
            invariant
                i <= params@.len(),
                s0 == s.push(empty_scope()),
                acyclic(self.subst@),
                extends(self.subst@, old(self).subst@),
                self.errors@ == old(self).errors@,
                self.warnings@ == old(self).warnings@,
                self.in_loop == old(self).in_loop,
                (self.env@, types_view(param_types@), self.next_var) == lambda_params_m(s0, params@.take(i as int), n),
            decreases params@.len() - i,
        {
            proof {
                lemma_lambda_params_shape(s0, params@.take(i as int), n);
            }
            let ty = self.fresh();
            self.env.define_variable(params[i].as_str(), ty.duplicate(), false);
            let ghost before = param_types@;
            param_types.push(ty);
            assert(params@.take(i + 1).drop_last() =~= params@.take(i as int));
            assert(param_types@.drop_last() =~= before);
            assert(types_view(param_types@) =~= types_view(before).push(ty@));
            i = i + 1;
        }
        assert(params@.take(params@.len() as int) =~= params@);
        proof {
            lemma_lambda_params_shape(s0, params@, n);
        }
        let body_ty = self.infer_expression(body);
        self.env.pop_scope();
        assert(self.env@ =~= s);
        let effects: Vec<Effect> = Vec::new();
        assert(effects_view(effects@) =~= Seq::<EffectM>::empty());
        Type::Function { params: param_types, return_type: Box::new(body_ty), effects }
    }

    // ── Statement checking (second pass) ─────────────────────

    /// Check a statement, binding what it declares in the current scope.
    fn check_statement(&mut self, stmt: &Statement)
        requires
            old(self).wf(),
        ensures
            final(self).keeps(*old(self)),
            (final(self).env@, final(self).next_var) == stmt_m(old(self).env@, *stmt, old(self).next_var),
            final(self).env@.len() == old(self).env@.len(),
            final(self).env@.drop_last() == old(self).env@.drop_last(),
            *stmt is Break ==> final(self).errors@ == if old(self).in_loop {
                old(self).errors@
            } else {
                old(self).errors@.push(TypeError::BreakOutsideLoop)
            },
            *stmt is Continue ==> final(self).errors@ == if old(self).in_loop {
                old(self).errors@
            } else {
                old(self).errors@.push(TypeError::ContinueOutsideLoop)
            },
            ({
                let cond = match *stmt {
                    Statement::If { condition, .. } => Some(condition),
                    Statement::WhileLoop { condition, .. } => Some(condition),
                    _ => None,
                };
                cond matches Some(c) ==> (plain_literal(c) && heads_clash(
                    TypeM::Bool,
                    infer_m(old(self).env@, c, old(self).next_var).0,
                ) ==> (final(self).errors@.len() > old(self).errors@.len() && (final(self).errors@[old(self).errors@.len() as int]
                    matches TypeError::NonBoolCondition { found: f } && f@ == infer_m(
                    old(self).env@,
                    c,
                    old(self).next_var,
                ).0)))
            }),
            ({
                let ann_or_none = match *stmt {
                    Statement::LetBinding { type_annotation: Some(t), value, .. } => Some((t, value)),
                    Statement::ConstBinding { type_annotation: Some(t), value, .. } => Some((t, value)),
                    _ => None,
                };
                ann_or_none matches Some((t, value)) ==> (plain_literal(value) ==> {
                    let ann = resolve_m(old(self).env@, t);
                    let vt = infer_m(old(self).env@, value, old(self).next_var).0;
                    let errs = final(self).errors@;
                    &&& ann == vt ==> errs == old(self).errors@
                    &&& (!(ann is Var) && heads_clash(ann, vt)) ==> (errs.len() == old(self).errors@.len() + 1
                        && errs.drop_last() == old(self).errors@ && (errs.last() matches TypeError::Mismatch {
                        expected,
                        found,
                    } && expected@ == ann && found@ == vt))
                })
            }),
            *stmt matches Statement::Expression(Expression::Identifier(name)) ==> final(self).errors@ == if lookup_var_m(
                old(self).env@,
                name@,
            ) is Some || lookup_fn_m(old(self).env@, name@) is Some {
                old(self).errors@
            } else {
                old(self).errors@.push(TypeError::UndefinedVariable { name })
            },
        decreases stmt,
    {
        let ghost s = self.env@;
        let ghost n = self.next_var;
        match stmt {
            Statement::FunctionDef { params, return_type, effects, body, decorators, .. } => {
                let ret_ty = match return_type {
                    Some(t) => self.env.resolve_type_expr(t),
                    None => Type::NoneType,
                };
                let effect_list = parse_effects(effects);
                let is_pure = is_pure_decorated(decorators);
                self.env.push_function_scope(ret_ty.duplicate(), effect_list, is_pure);
                let ghost s1 = self.env@;
                // Bind parameters
                let mut i: usize = 0;
                assert(params@.take(0) =~= Seq::<Parameter>::empty());
                while i < params.len()
                    invariant
                        i <= params@.len(),
                        s1.len() == s.len() + 1,
                        self.keeps(*old(self)),
                        self.next_var == n,
                        self.env@ == params_m(s1, params@.take(i as int)),
                    decreases params@.len() - i,
                {
                    proof {
                        lemma_params_frame(s1, params@.take(i as int));
                    }
                    let ty = self.env.resolve_type_expr(&params[i].type_annotation);
                    self.env.define_variable(params[i].name.as_str(), ty, false);
                    assert(params@.take(i + 1).drop_last() =~= params@.take(i as int));
                    i = i + 1;
                }
                assert(params@.take(params@.len() as int) =~= params@);
                proof {
                    lemma_params_frame(s1, params@);
                }
                // Check body
                self.check_block(body);
                self.env.pop_scope();
                assert(self.env@ =~= s);
            },
            Statement::LetBinding { name, type_annotation, value, mutable } => {
                let inferred = self.infer_expression(value);
                let final_type = match type_annotation {
                    Some(t) => {
                        let expected_ty = self.env.resolve_type_expr(t);
                        self.unify_or_report(&expected_ty, &inferred);
                        expected_ty
                    },
                    None => inferred,
                };
                self.env.define_variable(name.as_str(), final_type, *mutable);
                assert(self.env@.drop_last() =~= s.drop_last());
            },
            Statement::ConstBinding { name, type_annotation, value } => {
                let inferred = self.infer_expression(value);
                if let Some(ann) = type_annotation {
                    let expected = self.env.resolve_type_expr(ann);
                    self.unify_or_report(&expected, &inferred);
                }
                self.env.define_variable(name.as_str(), inferred, false);
                assert(self.env@.drop_last() =~= s.drop_last());
            },
            Statement::Assignment { target, value } => {
                let target_ty = self.infer_expression(target);
                let value_ty = self.infer_expression(value);
                // Check mutability
                if let Expression::Identifier(name) = target {
                    match self.env.is_mutable(name.as_str()) {
                        Some(false) => {
                            self.error(TypeError::ImmutableAssignment { name: name.clone() });
                        },
                        None => {
                            self.error(TypeError::UndefinedVariable { name: name.clone() });
                        },
                        _ => {},
                    }
                }
                self.unify_or_report(&target_ty, &value_ty);
            },
            Statement::If { condition, body, elif_clauses, else_body } => {
                let cond_ty = self.infer_expression(condition);
                self.expect_bool(&cond_ty);
                self.env.push_scope();
                self.check_block(body);
                self.env.pop_scope();
                assert(self.env@ =~= s);
                self.check_elifs(elif_clauses);
                if let Some(else_stmts) = else_body {
                    self.env.push_scope();
                    self.check_block(else_stmts);
                    self.env.pop_scope();
                    assert(self.env@ =~= s);
                }
            },
            Statement::WhileLoop { condition, body } => {
                let cond_ty = self.infer_expression(condition);
                self.expect_bool(&cond_ty);
                let was_in_loop = self.in_loop;
                self.in_loop = true;
                self.env.push_scope();
                self.check_block(body);
                self.env.pop_scope();
                self.in_loop = was_in_loop;
                assert(self.env@ =~= s);
            },
            Statement::ForLoop { variable, iterable, body } => {
                let iter_ty = self.infer_expression(iterable);
                // Infer the element type from the iterable
                let elem_ty = match &iter_ty {
                    Type::List(inner) => (**inner).duplicate(),
                    Type::Str => Type::Char,
                    _ => self.fresh(),
                };
                let was_in_loop = self.in_loop;
                self.in_loop = true;
                self.env.push_scope();
                self.env.define_variable(variable.as_str(), elem_ty, false);
                let ghost s1 = self.env@;
                assert(s1.drop_last() =~= s);
                self.check_block(body);
                self.env.pop_scope();
                self.in_loop = was_in_loop;
                assert(self.env@ =~= s);
            },
            Statement::Return(expr) => {
                let return_ty = match expr {
                    Some(e) => self.infer_expression(e),
                    None => Type::NoneType,
                };
                let expected: Option<Type> = match self.env.expected_return_type() {
                    Some(t) => Some(t.duplicate()),
                    None => None,
                };
                if let Some(expected_ty) = expected {
                    self.unify_or_report(&expected_ty, &return_ty);
                }
            },
            Statement::Break => {
                if !self.in_loop {
                    self.error(TypeError::BreakOutsideLoop);
                }
            },
            Statement::Continue => {
                if !self.in_loop {
                    self.error(TypeError::ContinueOutsideLoop);
                }
            },
            Statement::Expression(expr) => {
                self.infer_expression(expr);
            },
            // Declarations handled in first pass
            Statement::StructDef { .. } | Statement::EnumDef { .. } | Statement::TraitDef { .. }
            | Statement::ImplBlock { .. } | Statement::Import { .. } | Statement::ForeignImport { .. }
            | Statement::Match { .. } | Statement::Require(_) | Statement::Ensure(_) => {},
        }
    }

    /// Check statements in order.
    fn check_block(&mut self, stmts: &Vec<Statement>)
        requires
            old(self).wf(),
        ensures
            final(self).keeps(*old(self)),
            (final(self).env@, final(self).next_var) == stmts_m(old(self).env@, stmts@, old(self).next_var),
            final(self).env@.len() == old(self).env@.len(),
            final(self).env@.drop_last() == old(self).env@.drop_last(),
            !old(self).in_loop ==> final(self).errors@.len() >= old(self).errors@.len() + faults(
                old(self).env@,
                stmts@,
                old(self).next_var,
            ),
        decreases stmts,
    {
        let ghost s = self.env@;
        let ghost n = self.next_var;
        let mut i: usize = 0;
        assert(stmts@.take(0) =~= Seq::<Statement>::empty());
        while i < stmts.len()
            invariant
                i <= stmts@.len(),
                self.keeps(*old(self)),
                (self.env@, self.next_var) == stmts_m(s, stmts@.take(i as int), n),
                self.env@.len() == s.len(),
                self.env@.drop_last() == s.drop_last(),
                !old(self).in_loop ==> self.errors@.len() >= old(self).errors@.len() + faults(
                    s,
                    stmts@.take(i as int),
                    n,
                ),
            decreases stmts@.len() - i,
        {
            assert(decreases_to!(stmts => stmts@[i as int]));
            self.check_statement(&stmts[i]);
            assert(stmts@.take(i + 1).drop_last() =~= stmts@.take(i as int));
            assert(stmts@.take(i + 1).last() == stmts@[i as int]);
            i = i + 1;
        }
        assert(stmts@.take(stmts@.len() as int) =~= stmts@);
    }

    /// Check `elif` clauses: each condition must be `bool` and each body is
    /// checked in a scope of its own.
    fn check_elifs(&mut self, clauses: &Vec<(Expression, Vec<Statement>)>)
        requires
            old(self).wf(),
        ensures
            final(self).keeps(*old(self)),
            (final(self).env@, final(self).next_var) == elifs_m(old(self).env@, clauses@, old(self).next_var),
            final(self).env@ == old(self).env@,
        decreases clauses,
    {
        let ghost s = self.env@;
        let ghost n = self.next_var;
        let mut i: usize = 0;
        assert(clauses@.take(0) =~= Seq::<(Expression, Vec<Statement>)>::empty());
        while i < clauses.len()
            invariant
                i <= clauses@.len(),
                self.keeps(*old(self)),
                (self.env@, self.next_var) == elifs_m(s, clauses@.take(i as int), n),
                self.env@ == s,
            decreases clauses@.len() - i,
        {
            assert(decreases_to!(clauses => clauses@[i as int]));
            assert(decreases_to!(clauses@[i as int] => clauses@[i as int].1));
            let elif_ty = self.infer_expression(&clauses[i].0);
            self.expect_bool(&elif_ty);
            self.env.push_scope();
            self.check_block(&clauses[i].1);
            self.env.pop_scope();
            assert(self.env@ =~= s);
            assert(clauses@.take(i + 1).drop_last() =~= clauses@.take(i as int));
            i = i + 1;
        }
        assert(clauses@.take(clauses@.len() as int) =~= clauses@);
    }

    // ── Declaration registration (first pass) ────────────────

    /// Register a top-level function signature or struct type.
    fn register_declaration(&mut self, stmt: &Statement)
        requires
            old(self).wf(),
        ensures
            final(self).keeps(*old(self)),
            final(self).env@ == register_m(old(self).env@, *stmt),
            final(self).next_var == old(self).next_var,
            final(self).errors@ == old(self).errors@,
    {
        let ghost s = self.env@;
        match stmt {
            Statement::FunctionDef { name, params, return_type, effects, is_pub, decorators, .. } => {
                let mut param_types: Vec<(String, Type)> = Vec::new();
                let mut i: usize = 0;
                while i < params.len()
                    invariant
                        i <= params@.len(),
                        self.env@ == s,
                        param_types@.len() == i,
                        forall|j: int| 0 <= j < i ==> (#[trigger] param_types@[j]).0@ == params@[j].name@
                            && param_types@[j].1@ == resolve_m(s, params@[j].type_annotation),
                    decreases params@.len() - i,
                {
                    let ty = self.env.resolve_type_expr(&params[i].type_annotation);
                    param_types.push((params[i].name.clone(), ty));
                    i = i + 1;
                }
                let ret_ty = match return_type {
                    Some(t) => self.env.resolve_type_expr(t),
                    None => Type::NoneType,
                };
                let effect_list = parse_effects(effects);
                let is_pure = is_pure_decorated(decorators);
                let sig = crate::infer::types::FunctionSig {
                    name: name.clone(),
                    params: param_types,
                    return_type: ret_ty,
                    effects: effect_list,
                    is_pure,
                    is_pub: *is_pub,
                };
                assert(sig@.params =~= declared_sig_m(s, name@, params@, *return_type, effects@, decorators@, *is_pub).params);
                self.env.define_function(sig);
            },
            Statement::StructDef { name, fields, is_pub, .. } => {
                let mut field_types: Vec<(String, Type)> = Vec::new();
                let mut i: usize = 0;
                while i < fields.len()
                    invariant
                        i <= fields@.len(),
                        self.env@ == s,
                        field_types@.len() == i,
                        forall|j: int| 0 <= j < i ==> (#[trigger] field_types@[j]).0@ == fields@[j].name@
                            && field_types@[j].1@ == resolve_m(s, fields@[j].type_annotation),
                    decreases fields@.len() - i,
                {
                    let ty = self.env.resolve_type_expr(&fields[i].type_annotation);
                    field_types.push((fields[i].name.clone(), ty));
                    i = i + 1;
                }
                assert(fields_view(field_types@) =~= declared_struct_m(s, name@, fields@, *is_pub)->Struct_0.fields);
                let st = crate::infer::types::StructType { name: name.clone(), fields: field_types, is_pub: *is_pub };
                let struct_type = Type::Struct(st);
                self.env.define_type(name.as_str(), struct_type);
            },
            _ => {},
        }
    }

    /// Type-check an entire program: first register every top-level
    /// function and struct, then check every statement. The errors found,
    /// after any reported before, are handed out.
    pub fn check_program(&mut self, program: &Program) -> (r: CheckResult)
        requires
            old(self).wf(),
        ensures
            final(self).wf(),
            (final(self).scopes(), final(self).counter()) == program_m(
                old(self).scopes(),
                program.statements@,
                old(self).counter(),
            ),
            grows(old(self).reported(), r.errors@),
            r.warnings@ == old(self).notes(),
            final(self).reported() == Seq::<TypeError>::empty(),
            final(self).notes() == Seq::<String>::empty(),
            !old(self).looping() ==> r.errors@.len() >= old(self).reported().len() + faults(
                registers_m(old(self).scopes(), program.statements@),
                program.statements@,
                old(self).counter(),
            ),
    {
        let ghost s = self.env@;
        let mut i: usize = 0;
        assert(program.statements@.take(0) =~= Seq::<Statement>::empty());
        while i < program.statements.len()
            invariant
                i <= program.statements@.len(),
                self.keeps(*old(self)),
                self.next_var == old(self).next_var,
                self.env@ == registers_m(s, program.statements@.take(i as int)),
            decreases program.statements@.len() - i,
        {
            self.register_declaration(&program.statements[i]);
            assert(program.statements@.take(i + 1).drop_last() =~= program.statements@.take(i as int));
            i = i + 1;
        }
        assert(program.statements@.take(program.statements@.len() as int) =~= program.statements@);
        self.check_block(&program.statements);
        let mut errors: Vec<TypeError> = Vec::new();
        let mut warnings: Vec<String> = Vec::new();
        std::mem::swap(&mut errors, &mut self.errors);
        std::mem::swap(&mut warnings, &mut self.warnings);
        CheckResult { errors, warnings }
    }
}

/// The effects named in a function header.
fn parse_effects(names: &Vec<String>) -> (r: Vec<Effect>)
    ensures
        effects_view(r@) == effects_of(names@),
{
    let mut r: Vec<Effect> = Vec::new();
    let mut i: usize = 0;
    while i < names.len()
        invariant
            i <= names@.len(),
            r@.len() == i,
            forall|j: int| 0 <= j < i ==> #[trigger] r@[j]@ == crate::infer::types::parse_effect(names@[j]@),
        decreases names@.len() - i,
    {
        r.push(Effect::parse(names[i].as_str()));
        i = i + 1;
    }
    assert(effects_view(r@) =~= effects_of(names@));
    r
}

/// Whether a function is decorated `@pure`.
fn is_pure_decorated(decorators: &Vec<Decorator>) -> (r: bool)
    ensures
        r == is_pure_m(decorators@),
{
    proof {
        reveal_strlit("pure");
    }
    let mut i: usize = 0;
    while i < decorators.len()
        invariant
            i <= decorators@.len(),
            forall|j: int| 0 <= j < i ==> #[trigger] decorators@[j].name@ != "pure"@,
        decreases decorators@.len() - i,
    {
        if spells(&decorators[i].name, "pure") {
            return true;
        }
        i = i + 1;
    }
    false
}

/// The name a call reports: the callee's, if it is a name.
fn callee_name(function: &Box<Expression>) -> (r: String)
    ensures
        r@ == (match **function {
            Expression::Identifier(n) => n@,
            _ => "<anonymous>"@,
        }),
{
    match &**function {
        Expression::Identifier(n) => n.clone(),
        _ => "<anonymous>".to_string(),
    }
}

/// The type of a function used as a value.
fn sig_type(sig: &crate::infer::types::FunctionSig) -> (r: Type)
    ensures
        r@ == sig_type_m(sig@),
{
    let mut params: Vec<Type> = Vec::new();
    let mut i: usize = 0;
    while i < sig.params.len()
        invariant
            i <= sig.params@.len(),
            params@.len() == i,
            forall|j: int| 0 <= j < i ==> #[trigger] params@[j]@ == sig.params@[j].1@,
        decreases sig.params@.len() - i,
    {
        params.push(sig.params[i].1.duplicate());
        i = i + 1;
    }
    let r = Type::Function {
        params,
        return_type: Box::new(sig.return_type.duplicate()),
        effects: crate::infer::types::duplicate_effects(&sig.effects),
    };
    assert(types_view(params@) =~= sig_type_m(sig@)->Function_0);
    r
}

/// The type of the first field named `name`.
fn field_type<'a>(fields: &'a Vec<(String, Type)>, name: &String) -> (r: Option<&'a Type>)
    ensures
        match r {
            Some(t) => field_of(fields_view(fields@), name@) == Some(t@),
            None => field_of(fields_view(fields@), name@) is None,
        },
{
    let ghost fv = fields_view(fields@);
    let mut i: usize = 0;
    assert(fv.subrange(0, fv.len() as int) =~= fv);
    while i < fields.len()
        invariant
            i <= fields@.len(),
            fv == fields_view(fields@),
            fv.len() == fields@.len(),
            field_of(fv, name@) == field_of(fv.subrange(i as int, fv.len() as int), name@),
        decreases fields@.len() - i,
    {
        assert(fv.subrange(i as int, fv.len() as int)[0] == fv[i as int]);
        assert(fv.subrange(i as int, fv.len() as int).drop_first() =~= fv.subrange(i + 1, fv.len() as int));
        if fields[i].0 == *name {
            return Some(&fields[i].1);
        }
        i = i + 1;
    }
    None
}

/// The result type of a built-in method on a value of type `t`.
fn method_result(t: &Type, method: &String) -> (r: Option<Type>)
    ensures
        match r {
            Some(u) => method_m(t@, method@) == Some(u@),
            None => method_m(t@, method@) is None,
        },
{
    proof {
        reveal_strlit("len");
        reveal_strlit("upper");
        reveal_strlit("lower");
        reveal_strlit("trim");
        reveal_strlit("strip");
        reveal_strlit("split");
        reveal_strlit("contains");
        reveal_strlit("starts_with");
        reveal_strlit("ends_with");
        reveal_strlit("pop");
        reveal_strlit("push");
        reveal_strlit("append");
    }
    match t {
        Type::Str => {
            if spells(method, "len") {
                Some(Type::Int)
            } else if spells(method, "upper") || spells(method, "lower") || spells(method, "trim")
                || spells(method, "strip") {
                Some(Type::Str)
            } else if spells(method, "split") {
                Some(Type::List(Box::new(Type::Str)))
            } else if spells(method, "contains") || spells(method, "starts_with") || spells(
                method,
                "ends_with",
            ) {
                Some(Type::Bool)
            } else {
                None
            }
        },
        Type::List(inner) => {
            if spells(method, "len") {
                Some(Type::Int)
            } else if spells(method, "pop") {
                Some((**inner).duplicate())
            } else if spells(method, "push") || spells(method, "append") {
                Some(Type::NoneType)
            } else if spells(method, "contains") {
                Some(Type::Bool)
            } else {
                None
            }
        },
        Type::Error => Some(Type::Error),
        _ => None,
    }
}

/// Binding lambda parameters keeps every scope but the innermost and the
/// number of scopes, and gives one type per parameter.
proof fn lemma_lambda_params_shape(s: Seq<ScopeM>, ps: Seq<String>, n: TypeVarId)
    requires
        s.len() >= 1,
    ensures
        lambda_params_m(s, ps, n).0.len() == s.len(),
        lambda_params_m(s, ps, n).0.drop_last() == s.drop_last(),
    decreases ps.len(),
{
    if ps.len() > 0 {
        lemma_lambda_params_shape(s, ps.drop_last(), n);
        let s1 = lambda_params_m(s, ps.drop_last(), n).0;
        assert(define_var_m(s1, ps.last()@, TypeM::Var(lambda_params_m(s, ps.drop_last(), n).2), false).drop_last() =~= s1.drop_last());
    }
}

impl Default for Checker {
    fn default() -> (r: Self)
        ensures
            r.wf(),
            r.scopes() == seq![builtin_scope(0)],
            r.counter() == bumps(0, 8),
            r.reported() == Seq::<TypeError>::empty(),
            r.notes() == Seq::<String>::empty(),
    {
        Self::new()
    }
}

} // verus!
