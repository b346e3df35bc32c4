//! Type checking of the surface language: types, scopes, errors, the typing
//! rules, and the checker that walks a program.
pub mod types;
pub mod env;
pub mod error;
pub mod rules;
pub mod checker;
pub mod report;

use vstd::prelude::*;
use crate::check::checker::Checker;
use crate::check::env::Env;
use crate::check::error::{TypeError, TypeErrorM, errors_view};
use crate::check::rules::program_m;
use crate::syntax::ast::Program;

verus! {

/// Result of a type-checking pass.
#[derive(Debug)]
pub struct TypeCheckResult {
    pub errors: Vec<TypeError>,
}

impl TypeCheckResult {
    /// Whether the pass found no error.
    pub fn is_ok(&self) -> (r: bool)
        ensures
            r == (self.errors@.len() == 0),
    {
        self.errors.len() == 0
    }
}

/// Type-check a parsed program. Pass `Env::with_builtins()` to have the
/// built-in functions bound.
pub fn type_check(program: &Program, env: &mut Env) -> (r: TypeCheckResult)
    requires
        old(env).wf(),
    ensures
        final(env).wf(),
        final(env)@ == program_m(program.items@, old(env)@).0,
        errors_view(r.errors@) == program_m(program.items@, old(env)@).1,
{
    let mut checker = Checker::new();
    checker.check_program(program, env);
    assert(errors_view(Seq::<TypeError>::empty()) =~= Seq::<TypeErrorM>::empty());
    TypeCheckResult { errors: checker.errors }
}

} // verus!
