use nova::syntax::ast::{BinOp, DecoratorArg, Expr, Item, Stmt, TypeExpr, UnaryOp};
use nova::syntax::parser::{parse, ParseError};

fn ok(src: &str) -> Vec<Item> {
    let (prog, errs) = parse(src, "test.nv");
    assert!(errs.is_empty(), "unexpected parse errors in {:?}:\n{:#?}", src, errs);
    prog.items
}

#[test]
fn parse_int_literal() {
    let items = ok("42");
    assert!(matches!(items[0], Item::Expr(Expr::Int(42, _))));
}

#[test]
fn parse_float_literal() {
    let items = ok("2.5");
    assert!(matches!(items[0], Item::Expr(Expr::Float(_, _))));
    match &items[0] {
        Item::Expr(Expr::Float(text, _)) => assert_eq!(text.parse::<f64>().unwrap(), 2.5),
        other => panic!("expected a float, got {other:?}"),
    }
}

#[test]
fn parse_string_literal() {
    let items = ok(r#""hello""#);
    assert!(matches!(&items[0], Item::Expr(Expr::Str(s, _)) if s == "hello"));
}

#[test]
fn parse_bool_literals() {
    let items = ok("true");
    assert!(matches!(items[0], Item::Expr(Expr::Bool(true, _))));
    let items = ok("false");
    assert!(matches!(items[0], Item::Expr(Expr::Bool(false, _))));
}

#[test]
fn parse_binary_add() {
    let items = ok("1 + 2");
    assert!(matches!(items[0], Item::Expr(Expr::BinOp { op: BinOp::Add, .. })));
}

#[test]
fn parse_binary_precedence() {
    let items = ok("1 + 2 * 3");
    match &items[0] {
        Item::Expr(Expr::BinOp { op: BinOp::Add, rhs, .. }) => {
            assert!(matches!(**rhs, Expr::BinOp { op: BinOp::Mul, .. }));
        }
        other => panic!("expected Add at top level, got {other:?}"),
    }
}

#[test]
fn parse_unary_neg() {
    let items = ok("-1");
    assert!(matches!(items[0], Item::Expr(Expr::UnaryOp { op: UnaryOp::Neg, .. })));
}

#[test]
fn parse_call_no_args() {
    let items = ok("foo()");
    assert!(matches!(&items[0], Item::Expr(Expr::Call { args, .. }) if args.is_empty()));
}

#[test]
fn parse_call_with_args() {
    let items = ok("add(1, 2)");
    assert!(matches!(&items[0], Item::Expr(Expr::Call { args, .. }) if args.len() == 2));
}

#[test]
fn parse_field_access() {
    let items = ok("obj.field");
    assert!(matches!(&items[0], Item::Expr(Expr::Field { field, .. }) if field == "field"));
}

#[test]
fn parse_array_literal() {
    let items = ok("[1, 2, 3]");
    assert!(matches!(&items[0], Item::Expr(Expr::Array(elems, _)) if elems.len() == 3));
}

#[test]
fn parse_comparison() {
    let items = ok("x == 5");
    assert!(matches!(items[0], Item::Expr(Expr::BinOp { op: BinOp::Eq, .. })));
}

#[test]
fn parse_let_stmt() {
    let items = ok("fn f():\n    let x = 5");
    match &items[0] {
        Item::Function(f) => assert!(matches!(f.body[0], Stmt::Let { .. })),
        other => panic!("expected Function, got {other:?}"),
    }
}

#[test]
fn parse_var_stmt_with_type() {
    let items = ok("fn f():\n    var count: i64 = 0");
    match &items[0] {
        Item::Function(f) => assert!(matches!(f.body[0], Stmt::Var { .. })),
        other => panic!("expected Function, got {other:?}"),
    }
}

#[test]
fn parse_return_stmt() {
    let items = ok("fn f():\n    return 42");
    match &items[0] {
        Item::Function(f) => assert!(matches!(f.body[0], Stmt::Return { .. })),
        other => panic!("expected Function, got {other:?}"),
    }
}

#[test]
fn parse_if_stmt() {
    let items = ok("fn f():\n    if x:\n        pass");
    match &items[0] {
        Item::Function(f) => assert!(matches!(f.body[0], Stmt::If { .. })),
        other => panic!("expected Function, got {other:?}"),
    }
}

#[test]
fn parse_for_stmt() {
    let items = ok("fn f():\n    for x in xs:\n        pass");
    match &items[0] {
        Item::Function(f) => assert!(matches!(f.body[0], Stmt::For { .. })),
        other => panic!("expected Function, got {other:?}"),
    }
}

#[test]
fn parse_simple_function() {
    let items = ok("fn main():\n    pass");
    assert!(matches!(&items[0], Item::Function(f) if f.name == "main"));
}

#[test]
fn parse_function_with_params_and_return() {
    let items = ok("fn add(a: i64, b: i64) -> i64:\n    return a");
    match &items[0] {
        Item::Function(f) => {
            assert_eq!(f.name, "add");
            assert_eq!(f.params.len(), 2);
            assert!(f.return_ty.is_some());
        }
        other => panic!("expected Function, got {other:?}"),
    }
}

#[test]
fn parse_function_with_decorator() {
    let items = ok("@dist\nfn crunch(data: []f64) -> f64:\n    pass");
    match &items[0] {
        Item::Function(f) => {
            assert_eq!(f.decorators.len(), 1);
            assert_eq!(f.decorators[0].name, "dist");
        }
        other => panic!("expected Function, got {other:?}"),
    }
}

#[test]
fn parse_import() {
    let items = ok("import std.io");
    assert!(matches!(&items[0], Item::Import(i) if i.path == ["std", "io"]));
}

#[test]
fn parse_import_with_alias() {
    let items = ok("import std.io as io");
    match &items[0] {
        Item::Import(i) => assert_eq!(i.alias.as_deref(), Some("io")),
        other => panic!("expected Import, got {other:?}"),
    }
}

#[test]
fn parse_struct() {
    let items = ok("struct Point:\n    x: f64\n    y: f64");
    match &items[0] {
        Item::Struct(s) => {
            assert_eq!(s.name, "Point");
            assert_eq!(s.fields.len(), 2);
        }
        other => panic!("expected Struct, got {other:?}"),
    }
}

#[test]
fn parse_blocks_with_several_statements_and_branches() {
    let src = "fn f(n):\n    var i = 0\n    while i < n:\n        i += 1\n    if i == n:\n        pass\n    elif i > n:\n        return\n    else:\n        print(i)";
    let items = ok(src);
    match &items[0] {
        Item::Function(f) => {
            assert_eq!(f.body.len(), 3);
            assert!(f.params[0].ty.is_none());
            match &f.body[1] {
                Stmt::While { body, .. } => match &body[0] {
                    Stmt::Assign { target: Expr::Ident(t, _), value: Expr::BinOp { op: BinOp::Add, .. }, .. } => assert_eq!(t, "i"),
                    other => panic!("expected a compound assignment, got {other:?}"),
                },
                other => panic!("expected While, got {other:?}"),
            }
            match &f.body[2] {
                Stmt::If { elif_branches, else_body, .. } => {
                    assert_eq!(elif_branches.len(), 1);
                    assert!(else_body.is_some());
                }
                other => panic!("expected If, got {other:?}"),
            }
        }
        other => panic!("expected Function, got {other:?}"),
    }
}

#[test]
fn parse_modules_runtime_config_and_decorator_arguments() {
    let src = "@runtime:\n    gc: arena\n    threads: auto\n@dist(node=\"worker-1\", fast)\nmodule m:\n    fn g():\n        pass\n    struct S:\n        a: []i8";
    let items = ok(src);
    match &items[0] {
        Item::RuntimeConfig(rc) => assert_eq!(rc.entries, vec![("gc".to_string(), "arena".to_string()), ("threads".to_string(), "auto".to_string())]),
        other => panic!("expected RuntimeConfig, got {other:?}"),
    }
    match &items[1] {
        Item::Module(m) => {
            assert_eq!(m.name, "m");
            assert_eq!(m.items.len(), 2);
            assert!(matches!(&m.decorators[0].args[0], DecoratorArg::KeyValue { key, value } if key == "node" && value == "worker-1"));
            assert!(matches!(&m.decorators[0].args[1], DecoratorArg::Ident(n) if n == "fast"));
            match &m.items[1] {
                Item::Struct(s) => assert!(matches!(&s.fields[0].ty, TypeExpr::Array(inner, _) if matches!(&**inner, TypeExpr::Named(n, _) if n == "i8"))),
                other => panic!("expected Struct, got {other:?}"),
            }
        }
        other => panic!("expected Module, got {other:?}"),
    }
}

#[test]
fn parse_errors_are_reported_and_parsing_goes_on() {
    let (prog, errs) = parse("fn f(:\n    pass\n42", "t.nv");
    assert_eq!(errs.len(), 1);
    assert!(matches!(&errs[0], ParseError::UnexpectedToken { message, .. } if message == "expected identifier"));
    assert!(matches!(prog.items[0], Item::Expr(Expr::Int(42, _))));
    let (_, errs) = parse("1 +", "t.nv");
    assert!(matches!(errs[0], ParseError::UnexpectedEof));
    let (_, errs) = parse("x = $", "t.nv");
    assert!(matches!(errs[0], ParseError::Lex(_)));
    assert_eq!(prog.source_file, "t.nv");
}

#[test]
fn parse_spans_cover_their_tokens() {
    let items = ok("-a.b(1)");
    match &items[0] {
        Item::Expr(Expr::UnaryOp { span, expr, .. }) => {
            assert_eq!((span.start, span.end), (0, 7));
            assert!(matches!(&**expr, Expr::Call { span, .. } if (span.start, span.end) == (1, 7)));
        }
        other => panic!("expected a negation, got {other:?}"),
    }
}

#[test]
fn items_of_every_kind_parse_one_after_another() {
    let src = "import std.io as io\n@runtime:\n    gc: arena\nstruct P:\n    x: i32\n@inline\nfn f(a: i32, b: []u8) -> i32:\n    let y: i32 = a\n    if y > 0:\n        return y\n    elif y == 0:\n        pass\n    else:\n        return 0 - y\n    while false:\n        break\n    for i in b:\n        continue\n    return y\nmodule m:\n    fn g():\n        pass\nf(1, [2])";
    let items = ok(src);
    assert_eq!(items.len(), 6);
    assert!(matches!(items[0], Item::Import(_)));
    assert!(matches!(items[1], Item::RuntimeConfig(_)));
    assert!(matches!(items[2], Item::Struct(_)));
    assert!(matches!(items[3], Item::Function(_)));
    assert!(matches!(items[4], Item::Module(_)));
    assert!(matches!(items[5], Item::Expr(_)));
}

#[test]
fn a_failed_item_is_reported_and_parsing_goes_on() {
    let (prog, errs) = parse("1 +\nfn g():\n    pass\n", "test.nv");
    assert_eq!(errs.len(), 1);
    match &errs[0] {
        ParseError::UnexpectedToken { message, .. } => assert_eq!(message, "expected expression"),
        other => panic!("expected an unexpected token, got {other:?}"),
    }
    assert_eq!(prog.items.len(), 1);
    assert!(matches!(&prog.items[0], Item::Function(f) if f.name == "g"));
}
