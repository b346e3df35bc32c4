//! Errors of type checking.
use vstd::prelude::*;
use crate::check::error::decimal_text;
use crate::infer::types::{Effect, Type};

verus! {

/// All possible type checking errors
#[derive(Debug)]
pub enum TypeError {
    Mismatch { expected: Type, found: Type },
    UndefinedVariable { name: String },
    UndefinedFunction { name: String },
    UndefinedType { name: String },
    ImmutableAssignment { name: String },
    AlreadyDefined { name: String },
    ArityMismatch { name: String, expected: usize, found: usize },
    NotCallable { ty: Type },
    NoSuchField { ty: Type, field: String },
    NoSuchMethod { ty: Type, method: String },
    NotIndexable { ty: Type },
    NonBoolCondition { found: Type },
    InvalidOperator { op: String, left: Type, right: Type },
    InvalidNegation { ty: Type },
    PurityViolation { name: String },
    UndeclaredEffect { effect: Effect },
    ReturnTypeMismatch { name: String, expected: Type, found: Type },
    MissingReturn { expected: Type },
    BreakOutsideLoop,
    ContinueOutsideLoop,
    CannotInfer,
    InfiniteType { var: String, ty: Type },
    DuplicateField { struct_name: String, field: String },
    MissingField { struct_name: String, field: String },
    NonExhaustiveMatch,
}

/// A type error with source location information
#[derive(Debug)]
pub struct Located<T> {
    pub inner: T,
    pub line: usize,
    pub col: usize,
}

/// The display name of type variable `id`: `?T` followed by its number.
pub open spec fn var_display(id: u64) -> Seq<char> {
    "?T"@ + decimal_text(id as nat)
}

/// The name of type variable `id`: `?T` followed by its number.
pub fn var_name(id: u64) -> (r: String)
    ensures
        r@ == var_display(id),
{
    let mut s = String::from_str("?T");
    let n = crate::formatter::exprs::decimal_u64(id);
    s.append(n.as_str());
    s
}

} // verus!
