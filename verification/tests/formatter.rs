
use nova::infer::ast::{
    BinaryOperator, Decorator, EnumVariant, Expression, FStringPart, Field, ImportItem, MatchArm, Parameter,
    Pattern, Program, Statement, TraitMethod, TypeExpr, UnaryOperator,
};

fn ident(s: &str) -> Expression {
    Expression::Identifier(s.to_string())
}

fn named(s: &str) -> TypeExpr {
    TypeExpr::Named(s.to_string())
}

fn bin(l: Expression, op: BinaryOperator, r: Expression) -> Expression {
    Expression::BinaryOp { left: Box::new(l), op, right: Box::new(r) }
}

fn fmt(statements: Vec<Statement>) -> String {
    nova::formatter::format(&Program { statements })
}

#[test]
fn format_function_with_body() {
    let out = fmt(vec![Statement::FunctionDef {
        name: "add".to_string(),
        params: vec![
            Parameter { name: "a".to_string(), type_annotation: named("int"), default: None },
            Parameter { name: "b".to_string(), type_annotation: named("int"), default: None },
        ],
        return_type: Some(named("int")),
        effects: vec!["io".to_string(), "net".to_string()],
        body: vec![Statement::Return(Some(bin(ident("a"), BinaryOperator::Add, ident("b"))))],
        decorators: vec![Decorator { name: "pure".to_string(), args: vec![] }],
        is_pub: true, doc_comment: None,
    }]);
    assert_eq!(out, "@pure\npub fn add(a: int, b: int) -> int [io, net]:\n    return a + b\n");
}

#[test]
fn format_empty_block_is_pass() {
    let out = fmt(vec![Statement::WhileLoop { condition: Expression::BoolLiteral(true), body: vec![] }]);
    assert_eq!(out, "while true:\n    pass\n");
}

#[test]
fn format_blank_lines_around_definitions() {
    let out = fmt(vec![
        Statement::LetBinding { name: "x".to_string(), type_annotation: None, value: Expression::IntLiteral(-5), mutable: true },
        Statement::StructDef { doc_comment: None,
            name: "P".to_string(),
            fields: vec![Field { name: "x".to_string(), type_annotation: named("int"), default: Some(Expression::IntLiteral(0)), is_pub: true }],
            is_pub: false,
        },
        Statement::EnumDef { doc_comment: None,
            name: "E".to_string(),
            variants: vec![
                EnumVariant { name: "A".to_string(), fields: None },
                EnumVariant { name: "B".to_string(), fields: Some(vec![named("int"), named("str")]) },
            ],
            is_pub: false,
        },
        Statement::Break,
    ]);
    assert_eq!(
        out,
        "let mut x = -5\n\nstruct P:\n    pub let x: int = 0\n\nenum E:\n    case A\n    case B(int, str)\n\nbreak\n"
    );
}

#[test]
fn format_if_elif_else() {
    let out = fmt(vec![Statement::If {
        condition: bin(ident("a"), BinaryOperator::Lt, Expression::IntLiteral(1)),
        body: vec![Statement::Continue],
        elif_clauses: vec![(Expression::UnaryOp { op: UnaryOperator::Not, operand: Box::new(ident("b")) }, vec![])],
        else_body: Some(vec![Statement::Expression(Expression::NoneLiteral)]),
    }]);
    assert_eq!(out, "if a < 1:\n    continue\nelif not b:\n    pass\nelse:\n    none\n");
}

#[test]
fn format_expressions() {
    let exprs = vec![
        Expression::Call { function: Box::new(ident("f")), args: vec![Expression::IntLiteral(1), Expression::StringLiteral("s".to_string())] },
        Expression::MethodCall { object: Box::new(ident("xs")), method: "push".to_string(), args: vec![Expression::FloatLiteral("2.5".to_string())] },
        Expression::Index { object: Box::new(ident("xs")), index: Box::new(Expression::IntLiteral(0)) },
        Expression::Pipe { left: Box::new(ident("data")), right: Box::new(ident("sum")) },
        Expression::Lambda { params: vec!["x".to_string()], body: Box::new(ident("x")) },
        Expression::Lambda { params: vec!["x".to_string(), "y".to_string()], body: Box::new(bin(ident("x"), BinaryOperator::Power, ident("y"))) },
        Expression::List(vec![Expression::IntLiteral(1), Expression::IntLiteral(2)]),
        Expression::Dict(vec![(Expression::StringLiteral("k".to_string()), Expression::BoolLiteral(false))]),
        Expression::StructInit { name: "P".to_string(), fields: vec![("x".to_string(), Expression::IntLiteral(1))] },
        Expression::FString(vec![FStringPart::Literal("n=".to_string()), FStringPart::Expression(ident("n"))]),
        Expression::Await(Box::new(ident("job"))),
        Expression::ResultExpr { value: Box::new(ident("v")), error_type: "IoError".to_string() },
        Expression::FieldAccess { object: Box::new(ident("p")), field: "x".to_string() },
        bin(ident("a"), BinaryOperator::IntDiv, ident("b")),
    ];
    let out = fmt(exprs.into_iter().map(Statement::Expression).collect());
    assert_eq!(
        out,
        "f(1, \"s\")\nxs.push(2.5)\nxs[0]\ndata |> sum\nx => x\n(x, y) => x ** y\n[1, 2]\n{\"k\": false}\nP { x: 1 }\nf\"n={n}\"\nawait job\nv or IoError\np.x\na // b\n"
    );
}

#[test]
fn format_types_and_bindings() {
    let out = fmt(vec![
        Statement::ConstBinding {
            name: "F".to_string(),
            type_annotation: Some(TypeExpr::Function(
                vec![TypeExpr::Generic("list".to_string(), vec![named("int")])],
                Box::new(TypeExpr::Optional(Box::new(named("str")))),
            )),
            value: ident("g"),
        },
        Statement::LetBinding {
            name: "r".to_string(),
            type_annotation: Some(TypeExpr::Result(Box::new(named("int")), Box::new(TypeExpr::Tuple(vec![named("a"), named("b")])))),
            value: Expression::IntLiteral(i64::MIN),
            mutable: false,
        },
        Statement::Assignment { target: ident("r"), value: Expression::IntLiteral(7) },
    ]);
    assert_eq!(
        out,
        "const F: (list[int]) -> str? = g\nlet r: int or (a, b) = -9223372036854775808\nr = 7\n"
    );
}

#[test]
fn format_traits_impls_imports_and_match() {
    let out = fmt(vec![
        Statement::Import { path: vec!["std".to_string(), "io".to_string()], items: None },
        Statement::Import {
            path: vec!["m".to_string()],
            items: Some(vec![ImportItem { name: "a".to_string(), alias: None }, ImportItem { name: "b".to_string(), alias: Some("c".to_string()) }]),
        },
        Statement::ForeignImport { path: "lib.h".to_string(), lang: "c".to_string(), items: None },
        Statement::TraitDef { doc_comment: None,
            name: "Show".to_string(),
            methods: vec![TraitMethod {
                name: "show".to_string(),
                params: vec![Parameter { name: "self".to_string(), type_annotation: named("Self"), default: None }],
                return_type: Some(named("str")),
                default_body: None,
            }],
            is_pub: true,
        },
        Statement::ImplBlock {
            trait_name: Some("Show".to_string()),
            target_type: "P".to_string(),
            methods: vec![Statement::FunctionDef {
                name: "show".to_string(),
                params: vec![],
                return_type: None,
                effects: vec![],
                body: vec![Statement::Return(None)],
                decorators: vec![],
                is_pub: false, doc_comment: None,
            }],
        },
        Statement::Match {
            subject: ident("v"),
            arms: vec![
                MatchArm {
                    pattern: Pattern::Variant("Some".to_string(), vec![Pattern::Variable("x".to_string()), Pattern::Wildcard]),
                    guard: None,
                    body: vec![Statement::Break],
                },
                MatchArm { pattern: Pattern::Literal(Expression::IntLiteral(3)), guard: None, body: vec![] },
            ],
        },
        Statement::ForLoop { variable: "i".to_string(), iterable: ident("xs"), body: vec![Statement::Break] },
    ]);
    assert_eq!(
        out,
        "import std.io\nfrom m import a, b\nimport foreign(\"lib.h\", lang: \"c\")\n\npub trait Show:\n    fn show(self: Self) -> str\n\nimpl Show for P:\n    fn show():\n        return\n\nmatch v:\n    case Some(x, _):\n        break\n    case 3:\n        pass\nfor i in xs:\n    break\n"
    );
}

#[test]
fn format_doc_comments_and_contracts() {
    let out = fmt(vec![Statement::FunctionDef {
        name: "f".to_string(),
        params: vec![],
        return_type: None,
        effects: vec![],
        body: vec![
            Statement::Require(bin(ident("x"), BinaryOperator::Gt, Expression::IntLiteral(0))),
            Statement::Ensure(Expression::BoolLiteral(true)),
        ],
        decorators: vec![],
        is_pub: false,
        doc_comment: Some("Does a thing.\nTwice.".to_string()),
    }]);
    assert_eq!(out, "## Does a thing.\n## Twice.\nfn f():\n    require x > 0\n    ensure true\n");
}

#[test]
fn nesting_depth_counts_indentation_levels() {
    assert_eq!(nova::formatter::depth::nesting_depth(&Program { statements: vec![Statement::Break] }), Some(0));
    let inner = Statement::WhileLoop { condition: Expression::BoolLiteral(true), body: vec![Statement::Break] };
    let outer = Statement::If {
        condition: Expression::BoolLiteral(true),
        body: vec![],
        elif_clauses: vec![(Expression::BoolLiteral(false), vec![inner])],
        else_body: None,
    };
    assert_eq!(nova::formatter::depth::nesting_depth(&Program { statements: vec![Statement::Continue, outer] }), Some(2));
    let m = Statement::Match {
        subject: ident("x"),
        arms: vec![MatchArm { pattern: Pattern::Wildcard, guard: None, body: vec![Statement::Break] }],
    };
    assert_eq!(nova::formatter::depth::nesting_depth(&Program { statements: vec![m] }), Some(2));
}
