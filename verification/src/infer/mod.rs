//! Hindley-Milner style type inference: types, substitutions, unification,
//! and the checker that infers the types of a whole program.
pub mod types;
pub mod subst;
pub mod unify;
pub mod error;
pub mod ast;
pub mod env;
pub mod rules;
pub mod check;
pub mod display;

use vstd::prelude::*;
use crate::infer::ast::Program;
use crate::infer::check::{CheckResult, Checker};
use crate::infer::env::{builtin_scope, bumps};
use crate::infer::rules::program_m;

verus! {

/// Type-check a Nova program.
///
/// Returns a `CheckResult` containing any type errors and warnings. The
/// checker continues past errors where possible to report as many issues as
/// it can in a single pass. The checker starts from the built-in
/// environment; the ensures clause gives the environment the program leaves
/// behind, which is what its declarations and bindings are checked against.
pub fn check(program: &Program) -> (r: CheckResult)
    ensures
        r.warnings@ == Seq::<String>::empty(),
        r.errors@.len() >= crate::infer::check::faults(
            crate::infer::rules::registers_m(seq![builtin_scope(0)], program.statements@),
            program.statements@,
            bumps(0, 8),
        ),
{
    let mut checker = Checker::new();
    let r = checker.check_program(program);
    r
}

} // verus!
