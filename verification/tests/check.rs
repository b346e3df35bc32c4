use nova::check::checker::Checker;
use nova::check::env::Env;
use nova::check::error::TypeError;
use nova::check::type_check;
use nova::check::types::{type_expr_to_type, types_compatible, Type};
use nova::syntax::ast::{BinOp, Expr, Function, Item, Param, Program, Stmt, TypeExpr, UnaryOp};
use nova::syntax::span::Span;

fn sp() -> Span {
    Span::new(0, 1)
}

fn int_lit(n: i64) -> Expr {
    Expr::Int(n, sp())
}

fn float(x: f64) -> Expr {
    Expr::Float(format!("{x:?}"), sp())
}

fn string(s: &str) -> Expr {
    Expr::Str(s.to_string(), sp())
}

fn ident(s: &str) -> Expr {
    Expr::Ident(s.to_string(), sp())
}

fn bin(op: BinOp, l: Expr, r: Expr) -> Expr {
    Expr::BinOp { op, lhs: Box::new(l), rhs: Box::new(r), span: sp() }
}

fn named(s: &str) -> TypeExpr {
    TypeExpr::Named(s.to_string(), sp())
}

fn let_(name: &str, ty: Option<TypeExpr>, value: Expr) -> Stmt {
    Stmt::Let { name: name.to_string(), ty, value, span: sp() }
}

fn func(name: &str, params: Vec<(&str, &str)>, ret: Option<&str>, body: Vec<Stmt>) -> Item {
    Item::Function(Function {
        decorators: vec![],
        name: name.to_string(),
        params: params
            .into_iter()
            .map(|(n, t)| Param { name: n.to_string(), ty: Some(named(t)), span: sp() })
            .collect(),
        return_ty: ret.map(named),
        body,
        span: sp(),
    })
}

fn program(items: Vec<Item>) -> Program {
    Program { items, source_file: "test.nv".to_string() }
}

fn errors_of(items: Vec<Item>) -> Vec<TypeError> {
    let prog = program(items);
    let mut env = Env::with_builtins();
    type_check(&prog, &mut env).errors
}

fn infer(e: Expr) -> Type {
    let mut env = Env::with_builtins();
    let mut checker = Checker::new();
    checker.infer_expr(&e, &mut env).resolve_default()
}

#[test]
fn literals_default_to_i64_and_f64() {
    assert!(infer(int_lit(42)).same_as(&Type::I64));
    assert!(infer(float(2.5)).same_as(&Type::F64));
    assert!(infer(Expr::Bool(true, sp())).same_as(&Type::Bool));
    assert!(infer(string("hello")).same_as(&Type::Str));
}

#[test]
fn array_literal_takes_first_element_type() {
    let t = infer(Expr::Array(vec![int_lit(1), int_lit(2), int_lit(3)], sp()));
    assert!(t.same_as(&Type::Array(Box::new(Type::I64))));
    let empty = infer(Expr::Array(vec![], sp()));
    assert!(empty.same_as(&Type::Array(Box::new(Type::Unknown))));
}

#[test]
fn arithmetic_on_int_and_str_is_an_error() {
    let errs = errors_of(vec![func("f", vec![], None, vec![let_("x", None, bin(BinOp::Add, int_lit(1), string("hello")))])]);
    assert_eq!(errs.len(), 1);
    assert_eq!(errs[0].message(), "operator `+` cannot be applied to `{integer}` and `str`");
}

#[test]
fn arithmetic_on_literals_is_fine() {
    assert!(errors_of(vec![func("f", vec![], None, vec![let_("x", None, bin(BinOp::Add, int_lit(1), int_lit(2)))])]).is_empty());
    assert!(errors_of(vec![func("f", vec![], None, vec![let_("x", None, bin(BinOp::Add, float(1.0), float(2.0)))])]).is_empty());
}

#[test]
fn unary_minus_needs_a_number() {
    let ok = Expr::UnaryOp { op: UnaryOp::Neg, expr: Box::new(int_lit(5)), span: sp() };
    assert!(errors_of(vec![func("f", vec![], None, vec![let_("x", None, ok)])]).is_empty());
    let bad = Expr::UnaryOp { op: UnaryOp::Neg, expr: Box::new(Expr::Bool(true, sp())), span: sp() };
    let errs = errors_of(vec![func("f", vec![], None, vec![let_("x", None, bad)])]);
    assert_eq!(errs.len(), 1);
    assert_eq!(errs[0].message(), "operator `-` cannot be applied to `bool`");
}

#[test]
fn annotated_let_must_match() {
    assert!(errors_of(vec![func("f", vec![], None, vec![let_("x", Some(named("i64")), int_lit(5))])]).is_empty());
    let errs = errors_of(vec![func("f", vec![], None, vec![let_("x", Some(named("bool")), int_lit(5))])]);
    assert_eq!(errs.len(), 1);
    assert_eq!(errs[0].message(), "type mismatch: expected `bool`, found `{integer}`");
}

#[test]
fn assignment_to_let_is_an_error_but_var_is_fine() {
    let var_ok = vec![
        Stmt::Var { name: "x".into(), ty: Some(named("i64")), value: int_lit(0), span: sp() },
        Stmt::Assign { target: ident("x"), value: int_lit(1), span: sp() },
    ];
    assert!(errors_of(vec![func("f", vec![], None, var_ok)]).is_empty());
    let let_bad = vec![let_("x", None, int_lit(0)), Stmt::Assign { target: ident("x"), value: int_lit(1), span: Span::new(7, 8) }];
    let errs = errors_of(vec![func("f", vec![], None, let_bad)]);
    assert_eq!(errs.len(), 1);
    assert_eq!(errs[0].message(), "cannot assign to `x` \u{2014} it was declared with `let`");
}

#[test]
fn undefined_names_are_reported_with_their_span() {
    let e = Expr::Ident("undefined_name".into(), Span::new(3, 17));
    let errs = errors_of(vec![func("f", vec![], None, vec![let_("x", None, e)])]);
    assert_eq!(errs.len(), 1);
    assert_eq!(errs[0].message(), "undefined name `undefined_name`");
    assert_eq!(errs[0].span(), Span::new(3, 17));
}

#[test]
fn return_type_is_checked() {
    let ok = func("add", vec![("a", "i64"), ("b", "i64")], Some("i64"), vec![Stmt::Return { value: Some(ident("a")), span: sp() }]);
    assert!(errors_of(vec![ok]).is_empty());
    let bad = func("greet", vec![], Some("i64"), vec![Stmt::Return { value: Some(string("hello")), span: sp() }]);
    assert_eq!(errors_of(vec![bad]).len(), 1);
    let void_ok = func("f", vec![], None, vec![Stmt::Return { value: None, span: sp() }]);
    assert!(errors_of(vec![void_ok]).is_empty());
}

#[test]
fn conditions_must_be_bool() {
    let ok = Stmt::If { condition: Expr::Bool(true, sp()), then_body: vec![Stmt::Pass { span: sp() }], elif_branches: vec![], else_body: None, span: sp() };
    assert!(errors_of(vec![func("f", vec![], None, vec![ok])]).is_empty());
    let bad = Stmt::If {
        condition: int_lit(1),
        then_body: vec![Stmt::Pass { span: sp() }],
        elif_branches: vec![(string("s"), vec![])],
        else_body: Some(vec![]),
        span: sp(),
    };
    assert_eq!(errors_of(vec![func("f", vec![], None, vec![bad])]).len(), 2);
    let w = Stmt::While { condition: int_lit(0), body: vec![], span: sp() };
    assert_eq!(errors_of(vec![func("f", vec![], None, vec![w])]).len(), 1);
}

#[test]
fn calls_check_arity_and_argument_types() {
    let add = func("add", vec![("a", "i64"), ("b", "i64")], Some("i64"), vec![]);
    let call = |args: Vec<Expr>| Expr::Call { callee: Box::new(ident("add")), args, span: sp() };
    let ok = func("main", vec![], None, vec![let_("x", Some(named("i64")), call(vec![int_lit(1), int_lit(2)]))]);
    assert!(errors_of(vec![add, ok]).is_empty());
    let add = func("add", vec![("a", "i64"), ("b", "i64")], Some("i64"), vec![]);
    let few = func("main", vec![], None, vec![Stmt::Expr(call(vec![int_lit(1)]))]);
    let errs = errors_of(vec![add, few]);
    assert_eq!(errs.len(), 1);
    assert_eq!(errs[0].message(), "wrong number of arguments: expected 2, found 1");
    let add = func("add", vec![("a", "i64"), ("b", "i64")], Some("i64"), vec![]);
    let wrong = func("main", vec![], None, vec![Stmt::Expr(call(vec![int_lit(1), string("x")]))]);
    assert_eq!(errors_of(vec![add, wrong]).len(), 1);
}

#[test]
fn forward_references_and_builtins() {
    // main calls helper before helper is defined; print takes anything
    let main = func(
        "main",
        vec![],
        None,
        vec![
            Stmt::Expr(Expr::Call { callee: Box::new(ident("helper")), args: vec![], span: sp() }),
            Stmt::Expr(Expr::Call { callee: Box::new(ident("print")), args: vec![int_lit(1), string("two")], span: sp() }),
        ],
    );
    let helper = func("helper", vec![], None, vec![]);
    assert!(errors_of(vec![main, helper]).is_empty());
}

#[test]
fn calling_a_non_function_is_an_error() {
    let body = vec![let_("x", None, int_lit(1)), Stmt::Expr(Expr::Call { callee: Box::new(ident("x")), args: vec![], span: sp() })];
    let errs = errors_of(vec![func("f", vec![], None, body)]);
    assert_eq!(errs.len(), 1);
    assert_eq!(errs[0].message(), "`i64` is not a function");
}

#[test]
fn for_loops_need_iterables_and_indexes_need_integers() {
    let for_int = Stmt::For { var: "i".into(), iter: int_lit(3), body: vec![], span: sp() };
    let errs = errors_of(vec![func("f", vec![], None, vec![for_int])]);
    assert_eq!(errs.len(), 1);
    assert_eq!(errs[0].message(), "`{integer}` is not iterable");
    let arr = Expr::Array(vec![int_lit(1)], sp());
    let idx = Expr::Index { object: Box::new(arr), index: Box::new(string("k")), span: sp() };
    let errs = errors_of(vec![func("f", vec![], None, vec![let_("y", None, idx)])]);
    assert_eq!(errs.len(), 1);
    assert_eq!(errs[0].message(), "type mismatch: expected `i64`, found `str`");
}

#[test]
fn errors_do_not_stop_checking() {
    let body = vec![let_("a", None, ident("nope")), let_("b", Some(named("bool")), int_lit(1)), let_("c", None, bin(BinOp::Mul, string("s"), int_lit(2)))];
    let errs = errors_of(vec![func("f", vec![], None, body)]);
    assert_eq!(errs.len(), 3);
}

#[test]
fn compatibility_rules() {
    assert!(types_compatible(&Type::I32, &Type::IntLiteral));
    assert!(types_compatible(&Type::FloatLiteral, &Type::F32));
    assert!(types_compatible(&Type::Unknown, &Type::Str));
    assert!(types_compatible(&Type::Bool, &Type::Error));
    assert!(!types_compatible(&Type::I32, &Type::I64));
    assert!(!types_compatible(&Type::F64, &Type::IntLiteral));
    assert!(Type::IntLiteral.resolve_default().same_as(&Type::I64));
    assert!(Type::U8.resolve_default().same_as(&Type::U8));
}

#[test]
fn annotations_become_types() {
    assert!(type_expr_to_type(&named("u16")).same_as(&Type::U16));
    assert!(type_expr_to_type(&named("Point")).same_as(&Type::Unknown));
    let arr = TypeExpr::Array(Box::new(named("f32")), sp());
    assert!(type_expr_to_type(&arr).same_as(&Type::Array(Box::new(Type::F32))));
    let opt = TypeExpr::Optional(Box::new(named("i8")), sp());
    assert!(type_expr_to_type(&opt).same_as(&Type::Unknown));
}

#[test]
fn types_are_displayed_as_written() {
    let f = Type::Function { params: vec![Type::I64, Type::Array(Box::new(Type::Str))], ret: Box::new(Type::Void) };
    assert_eq!(f.display(), "fn(i64, []str) -> void");
    assert_eq!(Type::Never.display(), "!");
    assert_eq!(Type::FloatLiteral.display(), "{float}");
}

#[test]
fn scopes_shadow_and_forget() {
    let mut env = Env::new();
    env.define_let("x".into(), Type::I32);
    env.push_scope();
    env.define_var("x".into(), Type::Str);
    assert!(env.lookup("x").unwrap().ty.same_as(&Type::Str));
    assert!(env.is_mutable("x"));
    env.pop_scope();
    assert!(env.lookup("x").unwrap().ty.same_as(&Type::I32));
    assert!(!env.is_mutable("x"));
    assert!(env.lookup("y").is_none());
    let builtins = Env::with_builtins();
    assert!(builtins.lookup("println").is_some());
    assert!(builtins.lookup("assert").unwrap().ty.same_as(&Type::Function { params: vec![Type::Bool], ret: Box::new(Type::Void) }));
}

#[test]
fn errors_render_as_source_reports() {
    let source = "fn f():\n    let x: i64 = \"hi\"\n";
    let err = TypeError::Mismatch { expected: Type::I64, found: Type::Str, span: Span::new(25, 29) };
    let out = String::from_utf8(err.render("main.nova", source)).unwrap();
    assert!(out.contains("type mismatch: expected `i64`, found `str`"));
    assert!(out.contains("main.nova"));
    assert!(out.contains("expected `i64` here"));
    assert!(!out.contains('\u{1b}'));
    assert!(out.contains("let x: i64 = \"hi\""));
    let result = nova::check::TypeCheckResult { errors: vec![err, TypeError::Undefined { name: "y".to_string(), span: Span::new(0, 1) }] };
    let all = String::from_utf8(result.render_errors("main.nova", source)).unwrap();
    let first = all.find("type mismatch").unwrap();
    let second = all.find("undefined name `y`").unwrap();
    assert!(first < second);
    assert!(all.starts_with(&out));
}
