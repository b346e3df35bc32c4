use nova::infer::ast::{
    BinaryOperator, Decorator, Expression, Field, Parameter, Program, Statement, TypeExpr, UnaryOperator,
};
use nova::infer::check;
use nova::infer::check::{CheckResult, Checker};
use nova::infer::env::TypeEnv;
use nova::infer::error::TypeError;
use nova::infer::types::{Effect, Type};

fn int_lit(n: i64) -> Expression {
    Expression::IntLiteral(n)
}

fn ident(s: &str) -> Expression {
    Expression::Identifier(s.to_string())
}

fn text(s: &str) -> Expression {
    Expression::StringLiteral(s.to_string())
}

fn bin(l: Expression, op: BinaryOperator, r: Expression) -> Expression {
    Expression::BinaryOp { left: Box::new(l), op, right: Box::new(r) }
}

fn named(s: &str) -> TypeExpr {
    TypeExpr::Named(s.to_string())
}

fn list_of(t: TypeExpr) -> TypeExpr {
    TypeExpr::Generic("list".to_string(), vec![t])
}

fn let_(name: &str, ty: Option<TypeExpr>, value: Expression, mutable: bool) -> Statement {
    Statement::LetBinding { name: name.to_string(), type_annotation: ty, value, mutable }
}

fn param(name: &str, ty: TypeExpr) -> Parameter {
    Parameter { name: name.to_string(), type_annotation: ty, default: None }
}

fn func(name: &str, params: Vec<Parameter>, ret: Option<TypeExpr>, body: Vec<Statement>) -> Statement {
    Statement::FunctionDef {
        name: name.to_string(),
        params,
        return_type: ret,
        effects: vec![],
        body,
        decorators: vec![],
        is_pub: false, doc_comment: None,
    }
}

fn run(statements: Vec<Statement>) -> CheckResult {
    check(&Program { statements })
}

fn same(a: &Type, b: &Type) -> bool {
    a.same_as(b)
}

// fn add(a: int, b: int) -> int:
//     return a + b
#[test]
fn infer_valid_function() {
    let result = run(vec![func(
        "add",
        vec![param("a", named("int")), param("b", named("int"))],
        Some(named("int")),
        vec![Statement::Return(Some(bin(ident("a"), BinaryOperator::Add, ident("b"))))],
    )]);
    assert!(result.errors.is_empty(), "errors: {:?}", result.errors);
}

// let x: int = "hello"
#[test]
fn infer_type_mismatch_in_let() {
    let result = run(vec![let_("x", Some(named("int")), text("hello"), false)]);
    assert!(!result.errors.is_empty(), "should error on int = string");
    assert!(matches!(&result.errors[0], TypeError::Mismatch { expected: Type::Int, found: Type::Str }));
}

// let x: int = y
#[test]
fn infer_undefined_variable() {
    let result = run(vec![let_("x", Some(named("int")), ident("y"), false)]);
    assert!(result.errors.iter().any(|e| matches!(e, TypeError::UndefinedVariable { .. })));
}

// let x: int = 1
// x = 2
#[test]
fn infer_immutable_assignment() {
    let result = run(vec![
        let_("x", Some(named("int")), int_lit(1), false),
        Statement::Assignment { target: ident("x"), value: int_lit(2) },
    ]);
    assert!(result.errors.iter().any(|e| matches!(e, TypeError::ImmutableAssignment { .. })));
}

// let mut x: int = 1
// x = 2
#[test]
fn infer_mutable_assignment() {
    let result = run(vec![
        let_("x", Some(named("int")), int_lit(1), true),
        Statement::Assignment { target: ident("x"), value: int_lit(2) },
    ]);
    assert!(result.errors.is_empty(), "errors: {:?}", result.errors);
}

// if 42:
//     let x: int = 1
#[test]
fn infer_non_bool_condition() {
    let result = run(vec![Statement::If {
        condition: int_lit(42),
        body: vec![let_("x", Some(named("int")), int_lit(1), false)],
        elif_clauses: vec![],
        else_body: None,
    }]);
    assert!(result.errors.iter().any(|e| matches!(e, TypeError::NonBoolCondition { .. })));
}

// break
#[test]
fn infer_break_outside_loop() {
    let result = run(vec![Statement::Break]);
    assert!(result.errors.iter().any(|e| matches!(e, TypeError::BreakOutsideLoop)));
}

#[test]
fn infer_break_inside_loop_is_fine() {
    let result = run(vec![Statement::WhileLoop {
        condition: Expression::BoolLiteral(true),
        body: vec![Statement::Break, Statement::Continue],
    }]);
    assert!(result.errors.is_empty(), "errors: {:?}", result.errors);
}

#[test]
fn infer_continue_outside_loop() {
    let result = run(vec![Statement::Continue]);
    assert_eq!(result.errors.len(), 1);
    assert!(matches!(result.errors[0], TypeError::ContinueOutsideLoop));
}

// let items: list[int] = [1, 2, 3]
// for x in items:
//     let y: int = x
#[test]
fn infer_for_loop_variable_typing() {
    let result = run(vec![
        let_(
            "items",
            Some(list_of(named("int"))),
            Expression::List(vec![int_lit(1), int_lit(2), int_lit(3)]),
            false,
        ),
        Statement::ForLoop {
            variable: "x".to_string(),
            iterable: ident("items"),
            body: vec![let_("y", Some(named("int")), ident("x"), false)],
        },
    ]);
    assert!(result.errors.is_empty(), "errors: {:?}", result.errors);
}

// let data: list[int] = [1, 2, 3]
// let result = data |> sum
#[test]
fn infer_pipe_operator() {
    let result = run(vec![
        let_("data", Some(list_of(named("int"))), Expression::List(vec![int_lit(1), int_lit(2), int_lit(3)]), false),
        let_(
            "result",
            None,
            Expression::Pipe { left: Box::new(ident("data")), right: Box::new(ident("sum")) },
            false,
        ),
    ]);
    assert!(result.errors.is_empty(), "errors: {:?}", result.errors);
}

// struct Point:
//     let x: int = 0
//     let y: int = 0
// let p = Point { x: 1, y: 2 }
// let val: int = p.x
#[test]
fn infer_struct_field_access() {
    let field = |n: &str| Field { name: n.to_string(), type_annotation: named("int"), default: Some(int_lit(0)), is_pub: false };
    let result = run(vec![
        Statement::StructDef { doc_comment: None, name: "Point".to_string(), fields: vec![field("x"), field("y")], is_pub: false },
        let_(
            "p",
            None,
            Expression::StructInit {
                name: "Point".to_string(),
                fields: vec![("x".to_string(), int_lit(1)), ("y".to_string(), int_lit(2))],
            },
            false,
        ),
        let_(
            "val",
            Some(named("int")),
            Expression::FieldAccess { object: Box::new(ident("p")), field: "x".to_string() },
            false,
        ),
    ]);
    assert!(result.errors.is_empty(), "errors: {:?}", result.errors);
}

#[test]
fn infer_struct_unknown_field() {
    let field = |n: &str| Field { name: n.to_string(), type_annotation: named("int"), default: None, is_pub: false };
    let result = run(vec![
        Statement::StructDef { doc_comment: None, name: "Point".to_string(), fields: vec![field("x")], is_pub: false },
        let_(
            "p",
            None,
            Expression::StructInit { name: "Point".to_string(), fields: vec![("z".to_string(), int_lit(1))] },
            false,
        ),
        let_("q", None, Expression::StructInit { name: "Nowhere".to_string(), fields: vec![] }, false),
    ]);
    assert_eq!(result.errors.len(), 2);
    assert!(matches!(&result.errors[0], TypeError::NoSuchField { field, .. } if field == "z"));
    assert!(matches!(&result.errors[1], TypeError::UndefinedType { name } if name == "Nowhere"));
}

// let f = x => x + 1
#[test]
fn infer_lambda_inference() {
    let result = run(vec![let_(
        "f",
        None,
        Expression::Lambda { params: vec!["x".to_string()], body: Box::new(bin(ident("x"), BinaryOperator::Add, int_lit(1))) },
        false,
    )]);
    assert!(result.errors.is_empty(), "errors: {:?}", result.errors);
}

#[test]
fn infer_arity_mismatch() {
    // range takes one argument
    let result = run(vec![Statement::Expression(Expression::Call {
        function: Box::new(ident("range")),
        args: vec![int_lit(1), int_lit(2)],
    })]);
    assert_eq!(result.errors.len(), 1);
    assert!(matches!(&result.errors[0], TypeError::ArityMismatch { name, expected: 1, found: 2 } if name == "range"));
}

#[test]
fn infer_call_argument_mismatch() {
    let result = run(vec![Statement::Expression(Expression::Call {
        function: Box::new(ident("print")),
        args: vec![int_lit(1)],
    })]);
    assert_eq!(result.errors.len(), 1);
    assert!(matches!(&result.errors[0], TypeError::Mismatch { expected: Type::Str, found: Type::Int }));
}

#[test]
fn infer_not_callable() {
    let result = run(vec![Statement::Expression(Expression::Call { function: Box::new(int_lit(3)), args: vec![] })]);
    assert_eq!(result.errors.len(), 1);
    assert!(matches!(&result.errors[0], TypeError::NotCallable { ty: Type::Int }));
}

#[test]
fn infer_purity_violation() {
    // @pure fn shout(s: str): print(s)
    let result = run(vec![Statement::FunctionDef {
        name: "shout".to_string(),
        params: vec![param("s", named("str"))],
        return_type: None,
        effects: vec![],
        body: vec![Statement::Expression(Expression::Call { function: Box::new(ident("print")), args: vec![ident("s")] })],
        decorators: vec![Decorator { name: "pure".to_string(), args: vec![] }],
        is_pub: false, doc_comment: None,
    }]);
    assert_eq!(result.errors.len(), 1);
    assert!(matches!(&result.errors[0], TypeError::PurityViolation { name } if name == "print"));
}

#[test]
fn infer_invalid_operator_and_negation() {
    let result = run(vec![
        Statement::Expression(bin(text("a"), BinaryOperator::Sub, int_lit(1))),
        Statement::Expression(bin(text("a"), BinaryOperator::IntDiv, int_lit(1))),
        Statement::Expression(Expression::UnaryOp { op: UnaryOperator::Neg, operand: Box::new(text("a")) }),
    ]);
    assert_eq!(result.errors.len(), 3);
    assert!(matches!(&result.errors[0], TypeError::InvalidOperator { op, .. } if op == "Sub"));
    assert!(matches!(&result.errors[1], TypeError::InvalidOperator { op, .. } if op == "//"));
    assert!(matches!(&result.errors[2], TypeError::InvalidNegation { ty: Type::Str }));
}

#[test]
fn infer_not_indexable_and_return_mismatch() {
    let result = run(vec![
        Statement::Expression(Expression::Index { object: Box::new(int_lit(1)), index: Box::new(int_lit(0)) }),
        func("f", vec![], Some(named("int")), vec![Statement::Return(Some(text("no")))]),
    ]);
    assert_eq!(result.errors.len(), 2);
    assert!(matches!(&result.errors[0], TypeError::NotIndexable { ty: Type::Int }));
    assert!(matches!(&result.errors[1], TypeError::Mismatch { expected: Type::Int, found: Type::Str }));
}

#[test]
fn infer_string_concatenation_and_float_promotion() {
    // let s: str = "a" + "b"
    // let f: float = 1 + 2.5
    let result = run(vec![
        let_("s", Some(named("str")), bin(text("a"), BinaryOperator::Add, text("b")), false),
        let_(
            "f",
            Some(named("float")),
            bin(int_lit(1), BinaryOperator::Add, Expression::FloatLiteral("2.5".to_string())),
            false,
        ),
        let_("i", Some(named("int")), bin(int_lit(7), BinaryOperator::IntDiv, int_lit(2)), false),
        let_("b", Some(named("bool")), bin(int_lit(1), BinaryOperator::Lt, int_lit(2)), false),
    ]);
    assert!(result.errors.is_empty(), "errors: {:?}", result.errors);
}

#[test]
fn infer_function_declarations_are_hoisted() {
    // a call before the definition is fine: declarations are registered first
    let result = run(vec![
        let_("n", Some(named("int")), Expression::Call { function: Box::new(ident("twice")), args: vec![int_lit(2)] }, false),
        func(
            "twice",
            vec![param("x", named("int"))],
            Some(named("int")),
            vec![Statement::Return(Some(bin(ident("x"), BinaryOperator::Mul, int_lit(2))))],
        ),
    ]);
    assert!(result.errors.is_empty(), "errors: {:?}", result.errors);
}

#[test]
fn infer_block_bindings_do_not_leak() {
    // if true:
    //     let inner: int = 1
    // let outer: int = inner
    let result = run(vec![
        Statement::If {
            condition: Expression::BoolLiteral(true),
            body: vec![let_("inner", Some(named("int")), int_lit(1), false)],
            elif_clauses: vec![],
            else_body: None,
        },
        let_("outer", Some(named("int")), ident("inner"), false),
    ]);
    assert_eq!(result.errors.len(), 1);
    assert!(matches!(&result.errors[0], TypeError::UndefinedVariable { name } if name == "inner"));
}

#[test]
fn infer_checker_hands_out_errors_once() {
    let mut checker = Checker::new();
    let program = Program { statements: vec![Statement::Break] };
    let first = checker.check_program(&program);
    assert_eq!(first.errors.len(), 1);
    let second = checker.check_program(&Program { statements: vec![] });
    assert!(second.errors.is_empty());
    assert!(second.warnings.is_empty());
}

// ── Environment ─────────────────────────────────────────────

#[test]
fn env_builtins() {
    let mut next = 0u64;
    let env = TypeEnv::new(&mut next);
    assert_eq!(next, 8);
    assert!(same(env.lookup_type("int").unwrap(), &Type::Int));
    assert!(same(env.lookup_type("none").unwrap(), &Type::NoneType));
    let print = env.lookup_function("print").unwrap();
    assert_eq!(print.params.len(), 1);
    assert!(print.effects[0].same_as(&Effect::IO));
    assert!(!print.is_pure);
    let sort = env.lookup_function("sort").unwrap();
    assert!(same(&sort.return_type, &Type::Var(7)));
    let len = env.lookup_function("len").unwrap();
    assert!(same(&len.params[0].1, &Type::Var(0)));
    assert!(env.lookup_function("nope").is_none());
    assert!(env.lookup_variable("print").is_none());
}

#[test]
fn env_lookup_after_define_and_scopes() {
    let mut next = 0u64;
    let mut env = TypeEnv::new(&mut next);
    env.define_variable("x", Type::Int, false);
    assert_eq!(env.is_mutable("x"), Some(false));
    env.push_scope();
    env.define_variable("x", Type::Str, true);
    let inner = env.lookup_variable("x").unwrap();
    assert!(same(&inner.0, &Type::Str));
    assert!(inner.1);
    env.pop_scope();
    let outer = env.lookup_variable("x").unwrap();
    assert!(same(&outer.0, &Type::Int));
    assert!(!outer.1);
    // the global scope is never left
    env.pop_scope();
    assert!(env.lookup_variable("x").is_some());
    assert_eq!(env.is_mutable("missing"), None);
}

#[test]
fn env_function_context() {
    let mut next = 0u64;
    let mut env = TypeEnv::new(&mut next);
    assert!(env.expected_return_type().is_none());
    assert!(env.declared_effects().is_empty());
    assert!(!env.is_in_pure_function());
    env.push_function_scope(Type::Bool, vec![Effect::Net], true);
    env.push_scope();
    assert!(same(env.expected_return_type().unwrap(), &Type::Bool));
    assert!(env.declared_effects()[0].same_as(&Effect::Net));
    assert!(env.is_in_pure_function());
    env.pop_scope();
    env.pop_scope();
    assert!(env.expected_return_type().is_none());
}

#[test]
fn env_resolve_type_expr() {
    let mut next = 0u64;
    let mut env = TypeEnv::new(&mut next);
    assert!(same(&env.resolve_type_expr(&named("float")), &Type::Float));
    assert!(same(&env.resolve_type_expr(&list_of(named("str"))), &Type::List(Box::new(Type::Str))));
    let dict = TypeExpr::Generic("dict".to_string(), vec![named("str"), named("int")]);
    assert!(same(&env.resolve_type_expr(&dict), &Type::Dict(Box::new(Type::Str), Box::new(Type::Int))));
    // a generic user type stays a name
    let boxed = TypeExpr::Generic("Box".to_string(), vec![named("int")]);
    assert!(same(&env.resolve_type_expr(&boxed), &Type::Named("Box".to_string())));
    assert!(same(&env.resolve_type_expr(&named("Thing")), &Type::Named("Thing".to_string())));
    env.define_type("Thing", Type::Char);
    assert!(same(&env.resolve_type_expr(&named("Thing")), &Type::Char));
    let opt = TypeExpr::Optional(Box::new(named("int")));
    assert!(same(&env.resolve_type_expr(&opt), &Type::Optional(Box::new(Type::Int))));
    let f = TypeExpr::Function(vec![named("int")], Box::new(named("bool")));
    let expected = Type::Function { params: vec![Type::Int], return_type: Box::new(Type::Bool), effects: vec![] };
    assert!(same(&env.resolve_type_expr(&f), &expected));
}

#[test]
fn a_literal_condition_of_another_type_is_reported_first() {
    let result = run(vec![Statement::WhileLoop {
        condition: text("yes"),
        body: vec![let_("x", Some(named("int")), text("no"), false)],
    }]);
    assert_eq!(result.errors.len(), 2);
    assert!(matches!(&result.errors[0], TypeError::NonBoolCondition { found: Type::Str }));
    assert!(matches!(&result.errors[1], TypeError::Mismatch { expected: Type::Int, found: Type::Str }));
}

#[test]
fn an_annotation_that_matches_its_literal_adds_no_error() {
    let result = run(vec![let_("x", Some(named("str")), text("ok"), false), let_("n", Some(named("int")), int_lit(3), true)]);
    assert!(result.errors.is_empty(), "errors: {:?}", result.errors);
}

#[test]
fn a_const_annotation_is_checked_against_its_literal() {
    let result = run(vec![Statement::ConstBinding {
        name: "LIMIT".to_string(),
        type_annotation: Some(named("bool")),
        value: int_lit(10),
    }]);
    assert_eq!(result.errors.len(), 1);
    assert!(matches!(&result.errors[0], TypeError::Mismatch { expected: Type::Bool, found: Type::Int }));
}
