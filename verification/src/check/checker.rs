//! The type checker. It walks the syntax tree, infers types and collects
//! errors.
//!
//! Errors are non-fatal by design: checking continues after an error, so a
//! source file reports all its errors in one pass, not just the first.
use vstd::prelude::*;
use crate::check::env::{Env, EnvM, lookup_m};
use crate::check::error::{TypeError, TypeErrorM, errors_view};
use crate::check::rules::{
    all_errors_m, array_rest_m, binding_type_m, block_m, binop_m, call_args_m, define_m, element_m, elifs_m,
    fn_m, has_unknown, hoist_m, infer_m, item_m, items_m, looping, module_m, op_text, param_type,
    params_m, program_m, push_m, register_m, return_type, signature_m, stmt_m, stmts_m, unary_m,
    want_bool,
};
use crate::check::types::{Type, TyM, default_of, lemma_tys_view, tys_view, type_expr_to_type, types_compatible};
use crate::syntax::ast::{
    BinOp, Expr, Function, Item, ModuleDecl, Param, Program, Stmt, StructDecl, TypeExpr, UnaryOp,
};
use crate::syntax::span::Span;

verus! {

broadcast use vstd::std_specs::vec::group_vec_axioms;

/// An environment that differs from `e` at most in its innermost scope.
pub open spec fn same_frame(a: EnvM, e: EnvM) -> bool {
    &&& a.scopes.len() == e.scopes.len()
    &&& a.scopes.drop_last() == e.scopes.drop_last()
    &&& a.ret == e.ret
    &&& a.in_loop == e.in_loop
}

/// A statement changes at most the innermost scope.
pub proof fn lemma_stmt_frame(st: Stmt, e: EnvM)
    requires
        e.scopes.len() >= 1,
    ensures
        same_frame(stmt_m(st, e).0, e),
{
    let r = stmt_m(st, e).0;
    assert(r.scopes.drop_last() =~= e.scopes.drop_last());
}

/// Statements change at most the innermost scope.
pub proof fn lemma_stmts_frame(ss: Seq<Stmt>, e: EnvM)
    requires
        e.scopes.len() >= 1,
    ensures
        same_frame(stmts_m(ss, e).0, e),
    decreases ss.len(),
{
    if ss.len() > 0 {
        lemma_stmts_frame(ss.drop_last(), e);
        let e1 = stmts_m(ss.drop_last(), e).0;
        lemma_stmt_frame(ss.last(), e1);
    }
}

/// An item changes at most the innermost scope.
pub proof fn lemma_item_frame(it: Item, e: EnvM)
    requires
        e.scopes.len() >= 1,
    ensures
        same_frame(item_m(it, e).0, e),
{
    let r = item_m(it, e).0;
    assert(r.scopes.drop_last() =~= e.scopes.drop_last());
}

/// Items change at most the innermost scope.
pub proof fn lemma_items_frame(its: Seq<Item>, e: EnvM)
    requires
        e.scopes.len() >= 1,
    ensures
        same_frame(items_m(its, e).0, e),
    decreases its.len(),
{
    if its.len() > 0 {
        lemma_items_frame(its.drop_last(), e);
        let e1 = items_m(its.drop_last(), e).0;
        lemma_item_frame(its.last(), e1);
    }
}

/// Registering signatures changes at most the innermost scope.
pub proof fn lemma_register_frame(its: Seq<Item>, e: EnvM)
    requires
        e.scopes.len() >= 1,
    ensures
        same_frame(register_m(its, e), e),
    decreases its.len(),
{
    if its.len() > 0 {
        lemma_register_frame(its.drop_last(), e);
        let e1 = register_m(its.drop_last(), e);
        assert(define_m(e1, seq![], (TyM::Unknown, false)).scopes.drop_last() =~= e1.scopes.drop_last());
        match its.last() {
            Item::Function(f) => {
                assert(define_m(e1, f.name@, (signature_m(f), false)).scopes.drop_last()
                    =~= e1.scopes.drop_last());
            },
            _ => {},
        }
    }
}

/// Binding parameters changes at most the innermost scope.
pub proof fn lemma_params_frame(ps: Seq<Param>, e: EnvM)
    requires
        e.scopes.len() >= 1,
    ensures
        same_frame(params_m(ps, e), e),
    decreases ps.len(),
{
    if ps.len() > 0 {
        lemma_params_frame(ps.drop_last(), e);
        let e1 = params_m(ps.drop_last(), e);
        let p = ps.last();
        assert(define_m(e1, p.name@, (param_type(p), false)).scopes.drop_last() =~= e1.scopes.drop_last());
    }
}

/// How a binary operator is written.
pub fn op_str(op: BinOp) -> (r: &'static str)
    ensures
        r@ == op_text(op),
{
    proof {
        reveal_strlit("+");
        reveal_strlit("-");
        reveal_strlit("*");
        reveal_strlit("/");
        reveal_strlit("%");
        reveal_strlit("==");
        reveal_strlit("!=");
        reveal_strlit("<");
        reveal_strlit("<=");
        reveal_strlit(">");
        reveal_strlit(">=");
        reveal_strlit("&&");
        reveal_strlit("||");
    }
    match op {
        BinOp::Add => "+",
        BinOp::Sub => "-",
        BinOp::Mul => "*",
        BinOp::Div => "/",
        BinOp::Mod => "%",
        BinOp::Eq => "==",
        BinOp::NotEq => "!=",
        BinOp::Lt => "<",
        BinOp::LtEq => "<=",
        BinOp::Gt => ">",
        BinOp::GtEq => ">=",
        BinOp::And => "&&",
        BinOp::Or => "||",
    }
}

/// The type checker: the errors found so far.
#[derive(Debug)]
pub struct Checker {
    pub errors: Vec<TypeError>,
}

impl Checker {
    /// A checker that has found no error.
    pub fn new() -> (c: Self)
        ensures
            c.errors@.len() == 0,
    {
        Checker { errors: Vec::new() }
    }

    /// Record an error without stopping.
    fn error(&mut self, e: TypeError)
        ensures
            errors_view(final(self).errors@) == errors_view(old(self).errors@).push(e@),
    {
        self.errors.push(e);
        assert(errors_view(self.errors@) =~= errors_view(old(self).errors@).push(e@));
    }

    // ── Program ──

    /// Check an entire program in two passes: first bind the signatures of
    /// all top-level functions (and of the functions of top-level modules),
    /// so that forward references work; then check every item.
    pub fn check_program(&mut self, program: &Program, env: &mut Env)
        requires
            old(env).wf(),
        ensures
            final(env).wf(),
            final(env)@ == program_m(program.items@, old(env)@).0,
            errors_view(final(self).errors@) == errors_view(old(self).errors@) + program_m(
                program.items@,
                old(env)@,
            ).1,
    {
        let ghost e0 = env@;
        let items = &program.items;
        let mut i: usize = 0;
        while i < items.len()
            invariant
                i <= items@.len(),
                env.wf(),
                env@ == hoist_m(items@.take(i as int), e0),
                errors_view(self.errors@) == errors_view(old(self).errors@),
            decreases items@.len() - i,
        {
            proof {
                assert(items@.take(i as int + 1).drop_last() =~= items@.take(i as int));
            }
            match &items[i] {
                Item::Function(f) => self.register_fn_sig(f, env),
                Item::Module(m) => self.register_module_sigs(m, env),
                _ => {},
            }
            i = i + 1;
        }
        proof {
            assert(items@.take(i as int) =~= items@);
        }
        self.check_items(items, env);
    }

    // ── Items ──

    fn check_items(&mut self, items: &Vec<Item>, env: &mut Env)
        requires
            old(env).wf(),
        ensures
            final(env).wf(),
            final(env)@ == items_m(items@, old(env)@).0,
            errors_view(final(self).errors@) == errors_view(old(self).errors@) + items_m(items@, old(env)@).1,
        decreases items, 0nat,
    {
        let ghost e0 = env@;
        let ghost r0 = errors_view(self.errors@);
        let mut i: usize = 0;
        while i < items.len()
            invariant
                i <= items@.len(),
                env.wf(),
                env@ == items_m(items@.take(i as int), e0).0,
                errors_view(self.errors@) == r0 + items_m(items@.take(i as int), e0).1,
            decreases items@.len() - i,
        {
            proof {
                assert(items@.take(i as int + 1).drop_last() =~= items@.take(i as int));
            }
            assert(decreases_to!(items => items@[i as int]));
            self.check_item(&items[i], env);
            proof {
                assert(items@.take(i as int + 1).last() == items@[i as int]);
            }
            i = i + 1;
        }
        proof {
            assert(items@.take(i as int) =~= items@);
        }
    }

    fn check_item(&mut self, item: &Item, env: &mut Env)
        requires
            old(env).wf(),
        ensures
            final(env).wf(),
            final(env)@ == item_m(*item, old(env)@).0,
            errors_view(final(self).errors@) == errors_view(old(self).errors@) + item_m(*item, old(env)@).1,
        decreases item, 1nat,
    {
        match item {
            Item::Function(f) => self.check_fn(f, env),
            Item::Module(m) => self.check_module(m, env),
            Item::Struct(s) => self.check_struct(s, env),
            // imports are resolved in a later pass; runtime configuration is
            // validated by the command line tool
            Item::Import(_) => {},
            Item::RuntimeConfig(_) => {},
            Item::Expr(e) => {
                self.infer(e, env);
            },
        }
    }

    /// Bind a function's signature in the innermost scope without checking
    /// its body.
    fn register_fn_sig(&mut self, f: &Function, env: &mut Env)
        requires
            old(env).wf(),
        ensures
            final(env).wf(),
            final(env)@ == define_m(old(env)@, f.name@, (signature_m(*f), false)),
            final(self).errors@ == old(self).errors@,
    {
        let mut params: Vec<Type> = Vec::new();
        let mut i: usize = 0;
        while i < f.params.len()
            invariant
                i <= f.params@.len(),
                params@.len() == i,
                forall|j: int| 0 <= j < i ==> #[trigger] params@[j]@ == param_type(f.params@[j]),
            decreases f.params@.len() - i,
        {
            let t = match &f.params[i].ty {
                Some(te) => type_expr_to_type(te),
                None => Type::Unknown,
            };
            params.push(t);
            i = i + 1;
        }
        let ret = match &f.return_ty {
            Some(te) => type_expr_to_type(te),
            None => Type::Void,
        };
        proof {
            lemma_tys_view(params@);
            assert(tys_view(params@) =~= Seq::new(f.params@.len(), |k: int| param_type(f.params@[k])));
        }
        env.define_let(f.name.clone(), Type::Function { params, ret: Box::new(ret) });
    }

    /// Bind the signatures of the functions of a module.
    fn register_module_sigs(&mut self, m: &ModuleDecl, env: &mut Env)
        requires
            old(env).wf(),
        ensures
            final(env).wf(),
            final(env)@ == register_m(m.items@, old(env)@),
            final(self).errors@ == old(self).errors@,
    {
        let ghost e0 = env@;
        let mut i: usize = 0;
        while i < m.items.len()
            invariant
                i <= m.items@.len(),
                env.wf(),
                env@ == register_m(m.items@.take(i as int), e0),
                self.errors@ == old(self).errors@,
            decreases m.items@.len() - i,
        {
            proof {
                assert(m.items@.take(i as int + 1).drop_last() =~= m.items@.take(i as int));
            }
            if let Item::Function(f) = &m.items[i] {
                self.register_fn_sig(f, env);
            }
            i = i + 1;
        }
        proof {
            assert(m.items@.take(i as int) =~= m.items@);
        }
    }

    fn check_fn(&mut self, f: &Function, env: &mut Env)
        requires
            old(env).wf(),
        ensures
            final(env).wf(),
            final(env)@ == old(env)@,
            errors_view(final(self).errors@) == errors_view(old(self).errors@) + fn_m(*f, old(env)@),
    {
        let ghost e0 = env@;
        env.push_scope();
        let ghost e1 = env@;
        assert(e1 == push_m(e0));
        // Bind parameters into the function scope.
        let mut i: usize = 0;
        while i < f.params.len()
            invariant
                i <= f.params@.len(),
                env.wf(),
                env@ == params_m(f.params@.take(i as int), e1),
            decreases f.params@.len() - i,
        {
            proof {
                assert(f.params@.take(i as int + 1).drop_last() =~= f.params@.take(i as int));
            }
            let ty = match &f.params[i].ty {
                Some(te) => type_expr_to_type(te),
                None => Type::Unknown,
            };
            env.define_let(f.params[i].name.clone(), ty);
            i = i + 1;
        }
        proof {
            assert(f.params@.take(i as int) =~= f.params@);
            lemma_params_frame(f.params@, e1);
        }
        // Set the return-type context.
        let ret_ty = match &f.return_ty {
            Some(te) => type_expr_to_type(te),
            None => Type::Void,
        };
        let prev_ret = env.current_return_ty.take();
        env.current_return_ty = Some(ret_ty);
        let ghost e2 = env@;
        self.check_stmts(&f.body, env);
        proof {
            lemma_stmts_frame(f.body@, e2);
        }
        env.current_return_ty = prev_ret;
        env.pop_scope();
        assert(env@.scopes =~= e0.scopes);
    }

    fn check_module(&mut self, m: &ModuleDecl, env: &mut Env)
        requires
            old(env).wf(),
        ensures
            final(env).wf(),
            final(env)@ == old(env)@,
            errors_view(final(self).errors@) == errors_view(old(self).errors@) + module_m(*m, old(env)@),
        decreases m, 0nat,
    {
        let ghost e0 = env@;
        env.push_scope();
        // Hoist function signatures within the module.
        self.register_module_sigs(m, env);
        let ghost e1 = env@;
        proof {
            lemma_register_frame(m.items@, push_m(e0));
        }
        assert(decreases_to!(m => m.items));
        self.check_items(&m.items, env);
        proof {
            lemma_items_frame(m.items@, e1);
        }
        env.pop_scope();
        assert(env@.scopes =~= e0.scopes);
    }

    fn check_struct(&mut self, s: &StructDecl, env: &mut Env)
        requires
            old(env).wf(),
        ensures
            final(env).wf(),
            final(env)@ == define_m(old(env)@, s.name@, (TyM::Unknown, false)),
            final(self).errors@ == old(self).errors@,
    {
        // Field types are not resolved yet, and the struct's own type is
        // unknown until struct types are modelled.
        env.define_let(s.name.clone(), Type::Unknown);
    }

    // ── Statements ──

    /// Check statements one after another in the current scope.
    fn check_stmts(&mut self, ss: &Vec<Stmt>, env: &mut Env)
        requires
            old(env).wf(),
        ensures
            final(env).wf(),
            final(env)@ == stmts_m(ss@, old(env)@).0,
            errors_view(final(self).errors@) == errors_view(old(self).errors@) + stmts_m(ss@, old(env)@).1,
        decreases ss, 0nat,
    {
        let ghost e0 = env@;
        let ghost r0 = errors_view(self.errors@);
        let mut i: usize = 0;
        while i < ss.len()
            invariant
                i <= ss@.len(),
                env.wf(),
                env@ == stmts_m(ss@.take(i as int), e0).0,
                errors_view(self.errors@) == r0 + stmts_m(ss@.take(i as int), e0).1,
            decreases ss@.len() - i,
        {
            proof {
                assert(ss@.take(i as int + 1).drop_last() =~= ss@.take(i as int));
                assert(ss@.take(i as int + 1).last() == ss@[i as int]);
            }
            assert(decreases_to!(ss => ss@[i as int]));
            self.check_stmt(&ss[i], env);
            i = i + 1;
        }
        proof {
            assert(ss@.take(i as int) =~= ss@);
        }
    }

    /// Check statements in a new inner scope.
    fn check_block(&mut self, ss: &Vec<Stmt>, env: &mut Env)
        requires
            old(env).wf(),
        ensures
            final(env).wf(),
            final(env)@ == old(env)@,
            errors_view(final(self).errors@) == errors_view(old(self).errors@) + stmts_m(
                ss@,
                push_m(old(env)@),
            ).1,
        decreases ss, 1nat,
    {
        let ghost e0 = env@;
        env.push_scope();
        self.check_stmts(ss, env);
        proof {
            lemma_stmts_frame(ss@, push_m(e0));
        }
        env.pop_scope();
        assert(env@.scopes =~= e0.scopes);
    }

    /// Check a statement.
    pub fn check_stmt(&mut self, stmt: &Stmt, env: &mut Env)
        requires
            old(env).wf(),
        ensures
            final(env).wf(),
            final(env)@ == stmt_m(*stmt, old(env)@).0,
            errors_view(final(self).errors@) == errors_view(old(self).errors@) + stmt_m(*stmt, old(env)@).1,
        decreases stmt, 2nat,
    {
        let ghost e0 = env@;
        let ghost r0 = errors_view(self.errors@);
        match stmt {
            Stmt::Let { name, ty, value, span } => {
                self.check_binding(name, ty, value, false, *span, env);
            },
            Stmt::Var { name, ty, value, span } => {
                self.check_binding(name, ty, value, true, *span, env);
            },
            Stmt::Assign { .. } => self.check_assign(stmt, env),
            Stmt::Return { .. } => self.check_return(stmt, env),
            Stmt::If { .. } => self.check_if(stmt, env),
            Stmt::While { .. } => self.check_while(stmt, env),
            Stmt::For { .. } => self.check_for(stmt, env),
            // Loop control outside a loop is not reported yet.
            Stmt::Break { .. } => {},
            Stmt::Continue { .. } => {},
            Stmt::Pass { .. } => {},
            Stmt::Expr(e) => {
                self.infer(e, env);
            },
        }
    }

    fn check_assign(&mut self, stmt: &Stmt, env: &mut Env)
        requires
            old(env).wf(),
            stmt is Assign,
        ensures
            final(env).wf(),
            final(env)@ == stmt_m(*stmt, old(env)@).0,
            errors_view(final(self).errors@) == errors_view(old(self).errors@) + stmt_m(*stmt, old(env)@).1,
    {
        match stmt {
            Stmt::Assign { target, value, span } => {
                // Immutability check for simple identifier assignments.
                if let Expr::Ident(name, id_span) = target {
                    if !env.is_mutable(name.as_str()) && env.lookup(name.as_str()).is_some() {
                        self.error(TypeError::ImmutableAssign { name: name.clone(), span: *id_span });
                        return;
                    }
                }
                let target_ty = self.infer(target, env);
                let value_ty = self.infer(value, env);
                if !types_compatible(&target_ty, &value_ty) {
                    self.error(TypeError::Mismatch { expected: target_ty, found: value_ty, span: *span });
                }
            },
            _ => {},
        }
    }

    fn check_return(&mut self, stmt: &Stmt, env: &mut Env)
        requires
            old(env).wf(),
            stmt is Return,
        ensures
            final(env).wf(),
            final(env)@ == stmt_m(*stmt, old(env)@).0,
            errors_view(final(self).errors@) == errors_view(old(self).errors@) + stmt_m(*stmt, old(env)@).1,
    {
        match stmt {
            Stmt::Return { value, span } => {
                let expected = match &env.current_return_ty {
                    Some(t) => t.duplicate(),
                    None => Type::Void,
                };
                let actual = match value {
                    Some(v) => self.infer(v, env),
                    None => Type::Void,
                };
                if !types_compatible(&expected, &actual) {
                    self.error(TypeError::Mismatch { expected, found: actual, span: *span });
                }
            },
            _ => {},
        }
    }

    fn check_if(&mut self, stmt: &Stmt, env: &mut Env)
        requires
            old(env).wf(),
            stmt is If,
        ensures
            final(env).wf(),
            final(env)@ == stmt_m(*stmt, old(env)@).0,
            errors_view(final(self).errors@) == errors_view(old(self).errors@) + stmt_m(*stmt, old(env)@).1,
        decreases stmt, 1nat,
    {
        let ghost e0 = env@;
        match stmt {
            Stmt::If { condition, then_body, elif_branches, else_body, span } => {
                proof {
                    assert forall|j: int| 0 <= j < elif_branches@.len() implies decreases_to!(
                        *stmt => (#[trigger] elif_branches@[j]).1
                    ) by {
                        assert(decreases_to!(*stmt => *elif_branches));
                        assert(decreases_to!(*elif_branches => elif_branches@));
                        assert(decreases_to!(elif_branches@ => elif_branches@[j]));
                        assert(decreases_to!(elif_branches@[j] => elif_branches@[j].1));
                    }
                }
                let cond_ty = self.infer(condition, env);
                self.want_bool(cond_ty, *span);
                self.check_block(then_body, env);
                let ghost r1 = errors_view(self.errors@);
                let mut i: usize = 0;
                while i < elif_branches.len()
                    invariant
                        i <= elif_branches@.len(),
                        env.wf(),
                        env@ == e0,
                        forall|j: int| 0 <= j < elif_branches@.len() ==> decreases_to!(
                            *stmt => (#[trigger] elif_branches@[j]).1
                        ),
                        errors_view(self.errors@) == r1 + elifs_m(elif_branches@.take(i as int), e0, *span),
                    decreases elif_branches@.len() - i,
                {
                    proof {
                        assert(elif_branches@.take(i as int + 1).drop_last() =~= elif_branches@.take(i as int));
                        assert(elif_branches@.take(i as int + 1).last() == elif_branches@[i as int]);
                    }
                    let branch = &elif_branches[i];
                    let ghost before = errors_view(self.errors@);
                    let ty = self.infer(&branch.0, env);
                    let ghost ce = infer_m(branch.0, e0.scopes).1;
                    let ghost ct = infer_m(branch.0, e0.scopes).0;
                    self.want_bool(ty, *span);
                    self.check_block(&branch.1, env);
                    proof {
                        let blk = stmts_m(branch.1@, push_m(e0)).1;
                        assert(block_m(branch.1@, e0) == blk);
                        let bs = elif_branches@.take(i as int + 1);
                        assert(bs.last().0 == branch.0);
                        assert(bs.last().1 == branch.1);
                        assert(errors_view(self.errors@) =~= before + (ce + want_bool(ct, *span) + blk));
                        assert(elifs_m(elif_branches@.take(i as int + 1), e0, *span) =~= elifs_m(
                            elif_branches@.take(i as int),
                            e0,
                            *span,
                        ) + ce + want_bool(ct, *span) + blk);
                    }
                    i = i + 1;
                }
                proof {
                    assert(elif_branches@.take(i as int) =~= elif_branches@);
                }
                if let Some(body) = else_body {
                    self.check_block(body, env);
                }
            },
            _ => {},
        }
    }

    fn check_while(&mut self, stmt: &Stmt, env: &mut Env)
        requires
            old(env).wf(),
            stmt is While,
        ensures
            final(env).wf(),
            final(env)@ == stmt_m(*stmt, old(env)@).0,
            errors_view(final(self).errors@) == errors_view(old(self).errors@) + stmt_m(*stmt, old(env)@).1,
        decreases stmt, 1nat,
    {
        match stmt {
            Stmt::While { condition, body, span } => {
                let cond_ty = self.infer(condition, env);
                self.want_bool(cond_ty, *span);
                let prev = env.in_loop;
                env.in_loop = true;
                self.check_block(body, env);
                env.in_loop = prev;
            },
            _ => {},
        }
    }

    fn check_for(&mut self, stmt: &Stmt, env: &mut Env)
        requires
            old(env).wf(),
            stmt is For,
        ensures
            final(env).wf(),
            final(env)@ == stmt_m(*stmt, old(env)@).0,
            errors_view(final(self).errors@) == errors_view(old(self).errors@) + stmt_m(*stmt, old(env)@).1,
        decreases stmt, 1nat,
    {
        let ghost e0 = env@;
        match stmt {
            Stmt::For { var, iter, body, span } => {
                let iter_ty = self.infer(iter, env);
                let elem_ty = match iter_ty {
                    Type::Array(inner) => *inner,
                    Type::Str => Type::Str,
                    Type::Unknown => Type::Unknown,
                    Type::Error => Type::Unknown,
                    other => {
                        self.error(TypeError::NotIterable { ty: other, span: *span });
                        Type::Error
                    },
                };
                env.push_scope();
                env.define_let(var.clone(), elem_ty);
                let prev = env.in_loop;
                env.in_loop = true;
                let ghost e1 = env@;
                self.check_stmts(body, env);
                proof {
                    lemma_stmts_frame(body@, e1);
                }
                env.in_loop = prev;
                env.pop_scope();
                assert(env@.scopes =~= e0.scopes);
            },
            _ => {},
        }
    }

    /// Report a value of type `t` where a `bool` is wanted, unless it fits.
    fn want_bool(&mut self, t: Type, span: Span)
        ensures
            errors_view(final(self).errors@) == errors_view(old(self).errors@) + want_bool(t@, span),
    {
        if !types_compatible(&Type::Bool, &t) {
            self.error(TypeError::Mismatch { expected: Type::Bool, found: t, span });
        }
    }

    /// Shared logic for `let` and `var` bindings.
    fn check_binding(
        &mut self,
        name: &String,
        declared_ty: &Option<TypeExpr>,
        value: &Expr,
        mutable: bool,
        span: Span,
        env: &mut Env,
    )
        requires
            old(env).wf(),
        ensures
            final(env).wf(),
            final(env)@ == define_m(
                old(env)@,
                name@,
                (binding_type_m(*declared_ty, infer_m(*value, old(env)@.scopes).0, span).0, mutable),
            ),
            errors_view(final(self).errors@) == errors_view(old(self).errors@) + infer_m(
                *value,
                old(env)@.scopes,
            ).1 + binding_type_m(*declared_ty, infer_m(*value, old(env)@.scopes).0, span).1,
    {
        let inferred = self.infer(value, env);
        let final_ty = match declared_ty {
            Some(decl) => {
                let decl_ty = type_expr_to_type(decl);
                if !types_compatible(&decl_ty, &inferred) {
                    self.error(TypeError::Mismatch { expected: decl_ty.duplicate(), found: inferred, span });
                }
                // keep the declared type for downstream checking
                decl_ty
            },
            // No annotation: resolve literal types to their defaults.
            None => inferred.resolve_default(),
        };
        if mutable {
            env.define_var(name.clone(), final_ty);
        } else {
            env.define_let(name.clone(), final_ty);
        }
    }

    // ── Expressions ──

    /// Infer the type of an expression, recording any errors found.
    pub fn infer_expr(&mut self, expr: &Expr, env: &mut Env) -> (r: Type)
        requires
            old(env).wf(),
        ensures
            final(env).wf(),
            final(env)@ == old(env)@,
            r@ == infer_m(*expr, old(env)@.scopes).0,
            errors_view(final(self).errors@) == errors_view(old(self).errors@) + infer_m(
                *expr,
                old(env)@.scopes,
            ).1,
    {
        self.infer(expr, env)
    }

    fn infer(&mut self, expr: &Expr, env: &Env) -> (r: Type)
        requires
            env.wf(),
        ensures
            r@ == infer_m(*expr, env@.scopes).0,
            errors_view(final(self).errors@) == errors_view(old(self).errors@) + infer_m(*expr, env@.scopes).1,
        decreases expr, 2nat,
    {
        match expr {
            // Literals
            Expr::Int(_, _) => Type::IntLiteral,
            Expr::Float(_, _) => Type::FloatLiteral,
            Expr::Str(_, _) => Type::Str,
            Expr::Bool(_, _) => Type::Bool,
            Expr::FStr(_, _) => Type::Str,
            // Variables
            Expr::Ident(name, span) => match env.lookup(name.as_str()) {
                Some(binding) => binding.ty.duplicate(),
                None => {
                    self.error(TypeError::Undefined { name: name.clone(), span: *span });
                    Type::Error
                },
            },
            // Binary operations
            Expr::BinOp { op, lhs, rhs, span } => {
                let lty = self.infer(lhs, env);
                let rty = self.infer(rhs, env);
                self.infer_binop(*op, lty, rty, *span)
            },
            // Unary operations
            Expr::UnaryOp { op, expr: inner, span } => {
                let ty = self.infer(inner, env);
                self.infer_unary(*op, ty, *span)
            },
            // Function calls
            Expr::Call { .. } => self.infer_call(expr, env),
            // Field access: fields are not resolved yet.
            Expr::Field { object, .. } => {
                let _obj_ty = self.infer(object, env);
                Type::Unknown
            },
            // Index: arr[i]
            Expr::Index { .. } => self.infer_index(expr, env),
            // Array literal: [a, b, c]
            Expr::Array(..) => self.infer_array(expr, env),
        }
    }

    fn infer_call(&mut self, expr: &Expr, env: &Env) -> (r: Type)
        requires
            env.wf(),
            expr is Call,
        ensures
            r@ == infer_m(*expr, env@.scopes).0,
            errors_view(final(self).errors@) == errors_view(old(self).errors@) + infer_m(*expr, env@.scopes).1,
        decreases expr, 1nat,
    {
        let ghost s = env@.scopes;
        match expr {
            Expr::Call { callee, args, span } => {
                proof {
                    assert forall|j: int| 0 <= j < args@.len() implies decreases_to!(*expr => #[trigger] args@[j]) by {
                        assert(decreases_to!(*expr => *args));
                        assert(decreases_to!(*args => args@));
                        assert(decreases_to!(args@ => args@[j]));
                    }
                }
                let callee_ty = self.infer(callee, env);
                let ghost r1 = errors_view(self.errors@);
                match callee_ty {
                    Type::Function { params, ret } => {
                        proof {
                            lemma_tys_view(params@);
                        }
                        let ghost ps = tys_view(params@);
                        // Arity is not checked when a parameter is unknown
                        // (a variadic built-in).
                        let mut has_unknown_params = false;
                        let mut k: usize = 0;
                        while k < params.len()
                            invariant
                                k <= params@.len(),
                                ps == tys_view(params@),
                                ps.len() == params@.len(),
                                forall|j: int| 0 <= j < params@.len() ==> #[trigger] ps[j] == params@[j]@,
                                has_unknown_params == exists|j: int| 0 <= j < k && #[trigger] ps[j] is Unknown,
                            decreases params@.len() - k,
                        {
                            if matches!(params[k], Type::Unknown) {
                                has_unknown_params = true;
                            }
                            proof {
                                assert(ps[k as int] == params@[k as int]@);
                            }
                            k = k + 1;
                        }
                        assert(has_unknown_params == has_unknown(ps));
                        if !has_unknown_params && params.len() != args.len() {
                            self.error(TypeError::ArgCount { expected: params.len(), found: args.len(), span: *span });
                        } else {
                            let mut i: usize = 0;
                            while i < args.len()
                                invariant
                                    env.wf(),
                                    s == env@.scopes,
                                    i <= args@.len(),
                                    ps == tys_view(params@),
                                    ps.len() == params@.len(),
                                    forall|j: int| 0 <= j < params@.len() ==> #[trigger] ps[j] == params@[j]@,
                                    forall|j: int| 0 <= j < args@.len() ==> decreases_to!(*expr => #[trigger] args@[j]),
                                    errors_view(self.errors@) == r1 + call_args_m(ps, args@.take(i as int), s, *span),
                                decreases args@.len() - i,
                            {
                                proof {
                                    assert(args@.take(i as int + 1).drop_last() =~= args@.take(i as int));
                                    assert(args@.take(i as int + 1).last() == args@[i as int]);
                                }
                                let arg_ty = self.infer(&args[i], env);
                                if i < params.len() {
                                    if !types_compatible(&params[i], &arg_ty) {
                                        self.error(TypeError::Mismatch { expected: params[i].duplicate(), found: arg_ty, span: *span });
                                    }
                                }
                                i = i + 1;
                            }
                            proof {
                                assert(args@.take(i as int) =~= args@);
                            }
                        }
                        *ret
                    },
                    Type::Error => {
                        // Still infer argument types so errors inside them are not missed.
                        self.infer_all(args, env, Ghost(*expr));
                        Type::Error
                    },
                    Type::Unknown => {
                        self.infer_all(args, env, Ghost(*expr));
                        Type::Error
                    },
                    other => {
                        self.error(TypeError::NotCallable { ty: other, span: *span });
                        self.infer_all(args, env, Ghost(*expr));
                        Type::Error
                    },
                }
            },
            _ => Type::Error,
        }
    }

    fn infer_index(&mut self, expr: &Expr, env: &Env) -> (r: Type)
        requires
            env.wf(),
            expr is Index,
        ensures
            r@ == infer_m(*expr, env@.scopes).0,
            errors_view(final(self).errors@) == errors_view(old(self).errors@) + infer_m(*expr, env@.scopes).1,
        decreases expr, 1nat,
    {
        match expr {
            Expr::Index { object, index, span } => {
                let obj_ty = self.infer(object, env);
                let idx_ty = self.infer(index, env);
                if !idx_ty.is_integer() && !idx_ty.is_poisoned() {
                    self.error(TypeError::Mismatch { expected: Type::I64, found: idx_ty, span: *span });
                }
                match obj_ty {
                    Type::Array(inner) => *inner,
                    Type::Str => Type::Str,
                    Type::Unknown => Type::Unknown,
                    Type::Error => Type::Unknown,
                    other => {
                        self.error(TypeError::NotIndexable { ty: other, span: *span });
                        Type::Error
                    },
                }
            },
            _ => Type::Error,
        }
    }

    fn infer_array(&mut self, expr: &Expr, env: &Env) -> (r: Type)
        requires
            env.wf(),
            expr is Array,
        ensures
            r@ == infer_m(*expr, env@.scopes).0,
            errors_view(final(self).errors@) == errors_view(old(self).errors@) + infer_m(*expr, env@.scopes).1,
        decreases expr, 1nat,
    {
        let ghost s = env@.scopes;
        match expr {
            Expr::Array(elems, span) => {
                if elems.len() == 0 {
                    let u = Type::Unknown;
                    assert(u@ == TyM::Unknown);
                    return Type::Array(Box::new(u));
                }
                proof {
                    assert forall|j: int| 0 <= j < elems@.len() implies decreases_to!(*expr => #[trigger] elems@[j]) by {
                        assert(decreases_to!(*expr => *elems));
                        assert(decreases_to!(*elems => elems@));
                        assert(decreases_to!(elems@ => elems@[j]));
                    }
                }
                let first_ty = self.infer(&elems[0], env).resolve_default();
                let ghost r1 = errors_view(self.errors@);
                let mut i: usize = 1;
                while i < elems.len()
                    invariant
                        env.wf(),
                        s == env@.scopes,
                        1 <= i <= elems@.len(),
                        forall|j: int| 0 <= j < elems@.len() ==> decreases_to!(*expr => #[trigger] elems@[j]),
                        errors_view(self.errors@) == r1 + array_rest_m(first_ty@, elems@.take(i as int), s, *span),
                    decreases elems@.len() - i,
                {
                    proof {
                        assert(elems@.take(i as int + 1).drop_last() =~= elems@.take(i as int));
                        assert(elems@.take(i as int + 1).last() == elems@[i as int]);
                    }
                    let ty = self.infer(&elems[i], env);
                    if !types_compatible(&first_ty, &ty) {
                        self.error(TypeError::Mismatch { expected: first_ty.duplicate(), found: ty, span: *span });
                    }
                    i = i + 1;
                }
                proof {
                    assert(elems@.take(i as int) =~= elems@);
                }
                Type::Array(Box::new(first_ty))
            },
            _ => Type::Error,
        }
    }

    /// Infer each of `args`, parts of `whole`, for their errors only.
    fn infer_all(&mut self, args: &Vec<Expr>, env: &Env, Ghost(whole): Ghost<Expr>)
        requires
            env.wf(),
            forall|i: int| 0 <= i < args@.len() ==> decreases_to!(whole => #[trigger] args@[i]),
        ensures
            errors_view(final(self).errors@) == errors_view(old(self).errors@) + all_errors_m(args@, env@.scopes),
        decreases whole, 0nat,
    {
        let ghost r0 = errors_view(self.errors@);
        let mut i: usize = 0;
        while i < args.len()
            invariant
                env.wf(),
                i <= args@.len(),
                forall|j: int| 0 <= j < args@.len() ==> decreases_to!(whole => #[trigger] args@[j]),
                errors_view(self.errors@) == r0 + all_errors_m(args@.take(i as int), env@.scopes),
            decreases args@.len() - i,
        {
            proof {
                assert(args@.take(i as int + 1).drop_last() =~= args@.take(i as int));
                assert(args@.take(i as int + 1).last() == args@[i as int]);
            }
            self.infer(&args[i], env);
            i = i + 1;
        }
        proof {
            assert(args@.take(i as int) =~= args@);
        }
    }

    // ── Binary operations ──

    fn infer_binop(&mut self, op: BinOp, lty: Type, rty: Type, span: Span) -> (r: Type)
        ensures
            r@ == binop_m(op, lty@, rty@, span).0,
            errors_view(final(self).errors@) == errors_view(old(self).errors@) + binop_m(op, lty@, rty@, span).1,
    {
        // Suppress cascading errors.
        if lty.is_poisoned() || rty.is_poisoned() {
            return Type::Error;
        }
        match op {
            // Arithmetic: both sides numeric and compatible.
            BinOp::Add | BinOp::Sub | BinOp::Mul | BinOp::Div | BinOp::Mod => {
                if !lty.is_numeric() || !types_compatible(&lty, &rty) {
                    self.error(TypeError::BinOpMismatch { op: op_str(op), lty, rty, span });
                    return Type::Error;
                }
                // The result has the operands' type (literals are promoted).
                if matches!(lty, Type::IntLiteral) {
                    rty.resolve_default()
                } else {
                    lty
                }
            },
            // Ordered comparison: both numeric.
            BinOp::Lt | BinOp::LtEq | BinOp::Gt | BinOp::GtEq => {
                if !lty.is_numeric() || !types_compatible(&lty, &rty) {
                    self.error(TypeError::BinOpMismatch { op: op_str(op), lty, rty, span });
                }
                Type::Bool
            },
            // Equality: any two compatible types.
            BinOp::Eq | BinOp::NotEq => {
                if !types_compatible(&lty, &rty) {
                    self.error(TypeError::BinOpMismatch { op: op_str(op), lty, rty, span });
                }
                Type::Bool
            },
            // Logical: both bool.
            BinOp::And | BinOp::Or => {
                self.want_bool(lty, span);
                self.want_bool(rty, span);
                Type::Bool
            },
        }
    }

    // ── Unary operations ──

    fn infer_unary(&mut self, op: UnaryOp, ty: Type, span: Span) -> (r: Type)
        ensures
            r@ == unary_m(op, ty@, span).0,
            errors_view(final(self).errors@) == errors_view(old(self).errors@) + unary_m(op, ty@, span).1,
    {
        proof {
            reveal_strlit("-");
        }
        if ty.is_poisoned() {
            return Type::Error;
        }
        match op {
            UnaryOp::Neg => {
                if !ty.is_numeric() {
                    self.error(TypeError::InvalidUnary { op: "-", ty, span });
                    Type::Error
                } else {
                    ty
                }
            },
            UnaryOp::Not => {
                if !types_compatible(&Type::Bool, &ty) {
                    self.error(TypeError::Mismatch { expected: Type::Bool, found: ty, span });
                    Type::Error
                } else {
                    Type::Bool
                }
            },
        }
    }
}

impl Default for Checker {
    /// A checker that has found no error.
    fn default() -> (c: Self)
        ensures
            c.errors@.len() == 0,
    {
        Self::new()
    }
}

} // verus!
