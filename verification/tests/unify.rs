use nova::infer::types::{Effect, Type};
use nova::infer::unify::{finalize, resolve, unify, Substitution};
use nova::infer::error::TypeError;

fn same(a: &Type, b: &Type) -> bool {
    a.same_as(b)
}

#[test]
fn test_unify_same_types() {
    let mut subst = Substitution::new();
    assert!(unify(&Type::Int, &Type::Int, &mut subst).is_ok());
    assert!(unify(&Type::Str, &Type::Str, &mut subst).is_ok());
}

#[test]
fn test_unify_type_var() {
    let mut subst = Substitution::new();
    let var = Type::Var(99);
    assert!(unify(&var, &Type::Int, &mut subst).is_ok());
    assert_eq!(resolve(&var, &subst), Type::Int);
}

#[test]
fn test_unify_mismatch() {
    let mut subst = Substitution::new();
    assert!(unify(&Type::Int, &Type::Str, &mut subst).is_err());
}

#[test]
fn test_unify_list() {
    let mut subst = Substitution::new();
    let a = Type::List(Box::new(Type::Var(1)));
    let b = Type::List(Box::new(Type::Int));
    assert!(unify(&a, &b, &mut subst).is_ok());
    assert_eq!(resolve(&Type::Var(1), &subst), Type::Int);
}

#[test]
fn test_unify_function() {
    let mut subst = Substitution::new();
    let a = Type::Function {
        params: vec![Type::Var(1)],
        return_type: Box::new(Type::Var(2)),
        effects: vec![],
    };
    let b = Type::Function {
        params: vec![Type::Int],
        return_type: Box::new(Type::Bool),
        effects: vec![],
    };
    assert!(unify(&a, &b, &mut subst).is_ok());
    assert_eq!(resolve(&Type::Var(1), &subst), Type::Int);
    assert_eq!(resolve(&Type::Var(2), &subst), Type::Bool);
}

#[test]
fn test_occurs_check() {
    let mut subst = Substitution::new();
    let var = Type::Var(1);
    let recursive = Type::List(Box::new(Type::Var(1)));
    assert!(unify(&var, &recursive, &mut subst).is_err());
}

#[test]
fn test_numeric_coercion() {
    let mut subst = Substitution::new();
    assert!(unify(&Type::Int, &Type::Float, &mut subst).is_ok());
}

#[test]
fn unify_binds_through_chains_of_variables() {
    let mut subst = Substitution::new();
    assert!(unify(&Type::Var(1), &Type::Var(2), &mut subst).is_ok());
    assert!(unify(&Type::Var(2), &Type::Str, &mut subst).is_ok());
    assert_eq!(resolve(&Type::Var(1), &subst), Type::Str);
    // a variable unified with itself binds nothing
    let mut fresh = Substitution::new();
    assert!(unify(&Type::Var(7), &Type::Var(7), &mut fresh).is_ok());
    assert!(fresh.is_empty());
}

#[test]
fn unify_error_and_never_match_anything() {
    let mut subst = Substitution::new();
    assert!(unify(&Type::Error, &Type::Str, &mut subst).is_ok());
    assert!(unify(&Type::Bool, &Type::Never, &mut subst).is_ok());
    assert!(subst.is_empty());
}

#[test]
fn unify_mismatch_reports_both_types() {
    let mut subst = Substitution::new();
    let r = unify(&Type::Bool, &Type::List(Box::new(Type::Int)), &mut subst);
    match r {
        Err(TypeError::Mismatch { expected, found }) => {
            assert!(same(&expected, &Type::Bool));
            assert!(same(&found, &Type::List(Box::new(Type::Int))));
        }
        other => panic!("expected a mismatch, got {other:?}"),
    }
    assert!(subst.is_empty());
}

#[test]
fn unify_infinite_type_names_the_variable() {
    let mut subst = Substitution::new();
    let r = unify(&Type::Var(3), &Type::Optional(Box::new(Type::Var(3))), &mut subst);
    match r {
        Err(TypeError::InfiniteType { var, ty }) => {
            assert_eq!(var, "?T3");
            assert!(same(&ty, &Type::Optional(Box::new(Type::Var(3)))));
        }
        other => panic!("expected an infinite type, got {other:?}"),
    }
}

#[test]
fn unify_tuples_of_different_length_fail() {
    let mut subst = Substitution::new();
    let a = Type::Tuple(vec![Type::Int, Type::Int]);
    let b = Type::Tuple(vec![Type::Int]);
    assert!(unify(&a, &b, &mut subst).is_err());
    let c = Type::Tuple(vec![Type::Var(4), Type::Bool]);
    let d = Type::Tuple(vec![Type::Char, Type::Var(5)]);
    assert!(unify(&c, &d, &mut subst).is_ok());
    assert_eq!(resolve(&Type::Var(4), &subst), Type::Char);
    assert_eq!(resolve(&Type::Var(5), &subst), Type::Bool);
}

#[test]
fn unify_dict_and_result_components() {
    let mut subst = Substitution::new();
    let a = Type::Dict(Box::new(Type::Var(1)), Box::new(Type::Int));
    let b = Type::Dict(Box::new(Type::Str), Box::new(Type::Var(2)));
    assert!(unify(&a, &b, &mut subst).is_ok());
    assert_eq!(resolve(&Type::Var(1), &subst), Type::Str);
    assert_eq!(resolve(&Type::Var(2), &subst), Type::Int);
    let r1 = Type::Result(Box::new(Type::Int), Box::new(Type::Str));
    let r2 = Type::Result(Box::new(Type::Int), Box::new(Type::Bool));
    assert!(unify(&r1, &r2, &mut subst).is_err());
}

#[test]
fn finalize_replaces_unresolved_variables_with_error() {
    let mut subst = Substitution::new();
    assert!(unify(&Type::Var(1), &Type::Int, &mut subst).is_ok());
    let t = Type::Tuple(vec![Type::Var(1), Type::List(Box::new(Type::Var(9)))]);
    let f = finalize(&t, &subst);
    assert_eq!(f, Type::Tuple(vec![Type::Int, Type::List(Box::new(Type::Error))]));
    assert!(!f.has_vars());
}

#[test]
fn apply_substitution_follows_bindings() {
    let mut subst = Substitution::new();
    assert!(unify(&Type::Var(1), &Type::Var(2), &mut subst).is_ok());
    assert!(unify(&Type::Var(2), &Type::Bool, &mut subst).is_ok());
    let t = Type::Function {
        params: vec![Type::Var(1)],
        return_type: Box::new(Type::Var(8)),
        effects: vec![Effect::IO],
    };
    let applied = t.apply_substitution(&subst);
    assert_eq!(
        applied,
        Type::Function {
            params: vec![Type::Bool],
            return_type: Box::new(Type::Var(8)),
            effects: vec![Effect::IO],
        }
    );
    assert!(applied.has_vars());
}

#[test]
fn type_predicates() {
    assert!(Type::Int.is_numeric());
    assert!(Type::Float.is_numeric());
    assert!(!Type::Str.is_numeric());
    assert!(Type::NoneType.is_primitive());
    assert!(Type::Char.is_primitive());
    assert!(!Type::List(Box::new(Type::Int)).is_primitive());
    assert!(Type::Dict(Box::new(Type::Str), Box::new(Type::Var(0))).has_vars());
    assert!(!Type::Dict(Box::new(Type::Str), Box::new(Type::Int)).has_vars());
}

#[test]
fn fresh_vars_are_numbered_by_the_counter() {
    let mut next: u64 = 5;
    let a = Type::fresh_var(&mut next);
    let b = Type::fresh_var(&mut next);
    assert_eq!(a, Type::Var(5));
    assert_eq!(b, Type::Var(6));
    assert_eq!(next, 7);
    let mut top: u64 = u64::MAX;
    assert_eq!(Type::fresh_var(&mut top), Type::Var(u64::MAX));
    assert_eq!(top, 0);
}

#[test]
fn effects_parse_by_name() {
    assert!(Effect::parse("io").same_as(&Effect::IO));
    assert!(Effect::parse("error").same_as(&Effect::Error));
    assert!(Effect::parse("net").same_as(&Effect::Net));
    assert!(Effect::parse("db").same_as(&Effect::Custom("db".to_string())));
}
