use nova::frontend::lexer::tokenize;
use nova::frontend::parser::{parse, parse_expression};
use nova::frontend::token::{Token, TokenKind};
use nova::infer::ast::{BinaryOperator, Expression, FStringPart, Pattern, Statement, TypeExpr, UnaryOperator};
use nova::infer::check::CheckResult;
use nova::infer::error::TypeError;

fn kinds(tokens: &[Token]) -> Vec<TokenKind> {
    tokens.iter().map(|t| t.kind).collect()
}

fn check_source(source: &str) -> CheckResult {
    let tokens = tokenize(source).unwrap();
    let program = parse(tokens).unwrap();
    nova::infer::check(&program)
}

// ── Tokenizer ───────────────────────────────────────────────

#[test]
fn test_basic_function() {
    let source = "fn hello(name: str) -> str:\n    return name";
    let tokens = tokenize(source).unwrap();

    assert!(tokens.iter().any(|t| t.kind == TokenKind::Fn));
    assert!(tokens.iter().any(|t| t.kind == TokenKind::Return));
    assert!(tokens.iter().any(|t| t.kind == TokenKind::Indent));
}

#[test]
fn test_pipe_operator() {
    let source = "data |> transform |> output";
    let tokens = tokenize(source).unwrap();

    let pipes: Vec<_> = tokens.iter().filter(|t| t.kind == TokenKind::Pipe).collect();
    assert_eq!(pipes.len(), 2);
}

#[test]
fn test_decorator() {
    let source = "@cached\nfn compute() -> int:\n    return 42";
    let tokens = tokenize(source).unwrap();

    assert!(tokens.iter().any(|t| t.kind == TokenKind::At));
}

#[test]
fn test_inline_braces() {
    let source = "fn double(x: int) -> int { return x * 2; }";
    let tokens = tokenize(source).unwrap();

    assert!(tokens.iter().any(|t| t.kind == TokenKind::LBrace));
    assert!(tokens.iter().any(|t| t.kind == TokenKind::Semicolon));
}

#[test]
fn test_multiline_pipe() {
    let source = "let x = data\n    |> filter\n    |> sort";
    let tokens = tokenize(source).unwrap();

    // Should not emit Indent for the continuation lines
    let indents: Vec<_> = tokens.iter().filter(|t| t.kind == TokenKind::Indent).collect();
    assert_eq!(indents.len(), 0);

    let pipes: Vec<_> = tokens.iter().filter(|t| t.kind == TokenKind::Pipe).collect();
    assert_eq!(pipes.len(), 2);
}

#[test]
fn test_multiline_list() {
    let source = "let x = [\n    1,\n    2,\n    3\n]";
    let tokens = tokenize(source).unwrap();

    // Should not emit Indent inside brackets
    let indents: Vec<_> = tokens.iter().filter(|t| t.kind == TokenKind::Indent).collect();
    assert_eq!(indents.len(), 0);
}

#[test]
fn tokenize_spans_and_texts() {
    let tokens = tokenize("let x = 1.5 // 2").unwrap();
    assert_eq!(
        kinds(&tokens),
        vec![
            TokenKind::Let,
            TokenKind::Identifier,
            TokenKind::Assign,
            TokenKind::FloatLiteral,
            TokenKind::DoubleSlash,
            TokenKind::IntLiteral,
            TokenKind::Newline,
            TokenKind::Eof
        ]
    );
    assert_eq!(tokens[1].text, "x");
    assert_eq!(tokens[1].span, (0, 4, 1));
    assert_eq!(tokens[3].text, "1.5");
    assert_eq!(tokens[3].span, (0, 8, 3));
    assert_eq!(tokens[6].span, (0, 16, 1));
}

#[test]
fn tokenize_indentation_levels() {
    let tokens = tokenize("if a:\n    if b:\n        c\nd").unwrap();
    let ks = kinds(&tokens);
    assert_eq!(ks.iter().filter(|k| **k == TokenKind::Indent).count(), 2);
    assert_eq!(ks.iter().filter(|k| **k == TokenKind::Dedent).count(), 2);
    // both levels close before `d`
    let d = tokens.iter().position(|t| t.text == "d").unwrap();
    assert_eq!(ks[d - 1], TokenKind::Dedent);
    assert_eq!(ks[d - 2], TokenKind::Dedent);
    assert_eq!(*ks.last().unwrap(), TokenKind::Eof);
}

#[test]
fn tokenize_closes_open_levels_at_end() {
    let tokens = tokenize("while x:\n    y").unwrap();
    let ks = kinds(&tokens);
    let n = ks.len();
    assert_eq!(ks[n - 1], TokenKind::Eof);
    assert_eq!(ks[n - 2], TokenKind::Dedent);
    assert_eq!(tokens[n - 2].span, (0, 0, 0));
}

#[test]
fn tokenize_keywords_and_longest_match() {
    let tokens = tokenize("format for f\"a{b}\" 'c' x->y none").unwrap();
    assert_eq!(
        kinds(&tokens)[..9],
        [
            TokenKind::Identifier,
            TokenKind::For,
            TokenKind::FStringLiteral,
            TokenKind::CharLiteral,
            TokenKind::Identifier,
            TokenKind::Arrow,
            TokenKind::Identifier,
            TokenKind::NoneKw,
            TokenKind::Newline
        ]
    );
    assert_eq!(tokens[2].text, "f\"a{b}\"");
}

#[test]
fn tokenize_comments_and_doc_comments() {
    let tokens = tokenize("# note\n## Adds.\nfn f():\n    pass").unwrap();
    assert_eq!(tokens[0].kind, TokenKind::Comment);
    assert_eq!(tokens[0].text, "# note");
    assert_eq!(tokens[2].kind, TokenKind::DocComment);
    assert_eq!(tokens[2].text, "Adds.");
}

#[test]
fn tokenize_rejects_stray_characters() {
    let err = tokenize("let x = 1 $ 2").unwrap_err();
    assert_eq!(err.span, (10, 1));
    // a comment after code is not a token
    assert!(tokenize("let x = 1 # c").is_err());
    assert!(tokenize("\"open").is_err());
}

// ── Parser ──────────────────────────────────────────────────

#[test]
fn test_parse_simple_function() {
    let source = "fn greet(name: str) -> str:\n    return name";
    let tokens = tokenize(source).unwrap();
    let program = parse(tokens).unwrap();
    assert_eq!(program.statements.len(), 1);
    assert!(matches!(
        &program.statements[0],
        Statement::FunctionDef { name, .. } if name == "greet"
    ));
}

#[test]
fn test_parse_let_binding() {
    let source = "let x: int = 42";
    let tokens = tokenize(source).unwrap();
    let program = parse(tokens).unwrap();
    assert!(matches!(
        &program.statements[0],
        Statement::LetBinding { name, mutable: false, .. } if name == "x"
    ));
}

#[test]
fn test_parse_pipe() {
    let source = "data |> transform |> output";
    let tokens = tokenize(source).unwrap();
    let program = parse(tokens).unwrap();
    assert!(matches!(&program.statements[0], Statement::Expression(Expression::Pipe { .. })));
}

fn parse_source(source: &str) -> Vec<Statement> {
    parse(tokenize(source).unwrap()).unwrap().statements
}

#[test]
fn parse_precedence_and_associativity() {
    let stmts = parse_source("x = 1 + 2 * 3 ** 2 ** 2");
    let Statement::Assignment { value, .. } = &stmts[0] else { panic!("not an assignment") };
    let Expression::BinaryOp { op: BinaryOperator::Add, right, .. } = value else { panic!("not +") };
    let Expression::BinaryOp { op: BinaryOperator::Mul, right: pow, .. } = right.as_ref() else { panic!("not *") };
    let Expression::BinaryOp { op: BinaryOperator::Power, right: inner, .. } = pow.as_ref() else { panic!("not **") };
    assert!(matches!(inner.as_ref(), Expression::BinaryOp { op: BinaryOperator::Power, .. }));
}

#[test]
fn parse_declarations_with_doc_and_decorators() {
    let stmts = parse_source("## Adds.\n@memo\npub fn add(a: int, b: int) [io]:\n    return a + b\nstruct P:\n    let x: int = 0\n    let y\nenum E[T]:\n    case A\n    case B(int, v: str)\n");
    assert_eq!(stmts.len(), 3);
    match &stmts[0] {
        Statement::FunctionDef { name, params, effects, decorators, is_pub, doc_comment, .. } => {
            assert_eq!(name, "add");
            assert_eq!(params.len(), 2);
            assert_eq!(effects, &vec!["io".to_string()]);
            assert_eq!(decorators[0].name, "memo");
            assert!(*is_pub);
            assert_eq!(doc_comment.as_deref(), Some("Adds."));
        }
        _ => panic!("not a function"),
    }
    match &stmts[1] {
        Statement::StructDef { fields, .. } => {
            assert_eq!(fields.len(), 2);
            assert!(fields[0].default.is_some());
            assert!(fields[1].default.is_none());
            assert!(matches!(&fields[1].type_annotation, TypeExpr::Named(n) if n == "any"));
        }
        _ => panic!("not a struct"),
    }
    match &stmts[2] {
        Statement::EnumDef { variants, .. } => {
            assert_eq!(variants.len(), 2);
            assert!(variants[0].fields.is_none());
            assert_eq!(variants[1].fields.as_ref().unwrap().len(), 2);
        }
        _ => panic!("not an enum"),
    }
}

#[test]
fn parse_control_flow_and_match() {
    let stmts = parse_source("if a:\n    b\nelif c:\n    d\nelse:\n    e\nmatch v:\n    case 1:\n        x\n    case _:\n        y\nfor i in xs:\n    continue\nimport std.io\nimport foreign(\"m.h\", lang: \"c\", items: [\"f\"])");
    assert_eq!(stmts.len(), 5);
    assert!(matches!(&stmts[0], Statement::If { elif_clauses, else_body: Some(_), .. } if elif_clauses.len() == 1));
    match &stmts[1] {
        Statement::Match { arms, .. } => {
            assert!(matches!(arms[0].pattern, Pattern::Literal(Expression::IntLiteral(1))));
            assert!(matches!(arms[1].pattern, Pattern::Wildcard));
        }
        _ => panic!("not a match"),
    }
    assert!(matches!(&stmts[2], Statement::ForLoop { variable, .. } if variable == "i"));
    assert!(matches!(&stmts[3], Statement::Import { path, .. } if path.len() == 2));
    assert!(matches!(&stmts[4], Statement::ForeignImport { path, lang, items: Some(items) } if path == "m.h" && lang == "c" && items.len() == 1));
}

#[test]
fn parse_fstrings_and_postfix() {
    let stmts = parse_source("f\"a{x + 1}b\"\np.f(1)[0]\nPoint { x: 1 }");
    match &stmts[0] {
        Statement::Expression(Expression::FString(parts)) => {
            assert_eq!(parts.len(), 3);
            assert!(matches!(&parts[0], FStringPart::Literal(s) if s == "a"));
            assert!(matches!(&parts[1], FStringPart::Expression(Expression::BinaryOp { .. })));
            assert!(matches!(&parts[2], FStringPart::Literal(s) if s == "b"));
        }
        _ => panic!("not an f-string"),
    }
    assert!(matches!(&stmts[1], Statement::Expression(Expression::Index { .. })));
    assert!(matches!(&stmts[2], Statement::Expression(Expression::StructInit { name, .. }) if name == "Point"));
}

#[test]
fn parse_errors() {
    assert!(parse(tokenize("let = 1").unwrap()).is_err());
    assert!(parse(tokenize("pub let x = 1").unwrap()).is_err());
    assert!(parse(tokenize("x = 99999999999999999999").unwrap()).is_err());
    assert!(parse(tokenize("f(1, 2").unwrap()).is_err());
}

// ── Type checking from source ───────────────────────────────

#[test]
fn test_valid_function() {
    let result = check_source("fn add(a: int, b: int) -> int:\n    return a + b");
    assert!(result.errors.is_empty(), "errors: {:?}", result.errors);
}

#[test]
fn test_type_mismatch_in_let() {
    let result = check_source("let x: int = \"hello\"");
    assert!(!result.errors.is_empty(), "should error on int = string");
}

#[test]
fn test_undefined_variable() {
    let result = check_source("let x: int = y");
    assert!(result.errors.iter().any(|e| matches!(e, TypeError::UndefinedVariable { .. })));
}

#[test]
fn test_immutable_assignment() {
    let result = check_source("let x: int = 1\nx = 2");
    assert!(result.errors.iter().any(|e| matches!(e, TypeError::ImmutableAssignment { .. })));
}

#[test]
fn test_mutable_assignment() {
    let result = check_source("let mut x: int = 1\nx = 2");
    assert!(result.errors.is_empty(), "errors: {:?}", result.errors);
}

#[test]
fn test_non_bool_condition() {
    let result = check_source("if 42:\n    let x: int = 1");
    assert!(result.errors.iter().any(|e| matches!(e, TypeError::NonBoolCondition { .. })));
}

#[test]
fn test_break_outside_loop() {
    let result = check_source("break");
    assert!(result.errors.iter().any(|e| matches!(e, TypeError::BreakOutsideLoop)));
}

#[test]
fn test_for_loop_variable_typing() {
    let result = check_source("let items: list[int] = [1, 2, 3]\nfor x in items:\n    let y: int = x");
    assert!(result.errors.is_empty(), "errors: {:?}", result.errors);
}

#[test]
fn mod_test_pipe_operator() {
    let result = check_source("let data: list[int] = [1, 2, 3]\nlet result = data |> sum");
    assert!(result.errors.is_empty(), "errors: {:?}", result.errors);
}

#[test]
fn test_struct_field_access() {
    let result = check_source(
        "struct Point:\n    let x: int = 0\n    let y: int = 0\nlet p = Point { x: 1, y: 2 }\nlet val: int = p.x",
    );
    assert!(result.errors.is_empty(), "errors: {:?}", result.errors);
}

#[test]
fn test_lambda_inference() {
    let result = check_source("let f = x => x + 1");
    assert!(result.errors.is_empty(), "errors: {:?}", result.errors);
}

// ── Formatting parsed source ────────────────────────────────

#[test]
fn format_round_trip_is_stable() {
    let source = "fn add(a: int, b: int) -> int:\n    return a + b\n\nlet x = [1, 2]\n";
    let program = parse(tokenize(source).unwrap()).unwrap();
    let once = nova::formatter::format(&program);
    assert_eq!(once, source);
    let again = nova::formatter::format(&parse(tokenize(&once).unwrap()).unwrap());
    assert_eq!(again, once);
}

#[test]
fn parse_and_lex_error_messages() {
    let e = nova::frontend::parser::ParseError::UnexpectedToken {
        expected: "Colon".to_string(),
        got: "Newline".to_string(),
        line: 7,
    };
    assert_eq!(e.message(), "unexpected token: expected Colon, got Newline at line 7");
    assert_eq!(nova::frontend::parser::ParseError::UnexpectedEof.message(), "unexpected end of file");
    let e = nova::frontend::parser::ParseError::InvalidSyntax { line: 12, message: "bad".to_string() };
    assert_eq!(e.message(), "invalid syntax at line 12: bad");
    let err = nova::frontend::lexer::tokenize("let x = $").unwrap_err();
    assert_eq!(err.message(), "unexpected character");
}

#[test]
fn expression_parser_follows_binding_levels() {
    let tokens = tokenize("2 ** 3 ** 2 - -x").unwrap();
    let (e, q) = parse_expression(&tokens, 0, 100).unwrap();
    assert_eq!(q, 8);
    match e {
        Expression::BinaryOp { left, op: BinaryOperator::Sub, right } => {
            match *left {
                Expression::BinaryOp { left: base, op: BinaryOperator::Power, right: exponent } => {
                    assert!(matches!(*base, Expression::IntLiteral(2)));
                    assert!(matches!(
                        *exponent,
                        Expression::BinaryOp { op: BinaryOperator::Power, .. }
                    ));
                },
                other => panic!("unexpected left operand {:?}", other),
            }
            match *right {
                Expression::UnaryOp { op: UnaryOperator::Neg, operand } => {
                    assert!(matches!(*operand, Expression::Identifier(ref n) if n == "x"));
                },
                other => panic!("unexpected right operand {:?}", other),
            }
        },
        other => panic!("unexpected expression {:?}", other),
    }
}

#[test]
fn expression_parser_reads_literals_and_postfix_chains() {
    let tokens = tokenize("p.name(1_000, \"hi\")[0]").unwrap();
    let (e, _) = parse_expression(&tokens, 0, 100).unwrap();
    match e {
        Expression::Index { object, index } => {
            assert!(matches!(*index, Expression::IntLiteral(0)));
            match *object {
                Expression::MethodCall { object, method, args } => {
                    assert!(matches!(*object, Expression::Identifier(ref n) if n == "p"));
                    assert_eq!(method, "name");
                    assert_eq!(args.len(), 2);
                    assert!(matches!(args[0], Expression::IntLiteral(1000)));
                    assert!(matches!(args[1], Expression::StringLiteral(ref s) if s == "hi"));
                },
                other => panic!("unexpected object {:?}", other),
            }
        },
        other => panic!("unexpected expression {:?}", other),
    }
}

#[test]
fn blank_stream_parses_to_the_empty_program() {
    let tokens = tokenize("\n# only a comment\n\n").unwrap();
    let program = parse(tokens).unwrap();
    assert_eq!(program.statements.len(), 0);
    let tokens = tokenize("x\n").unwrap();
    let program = parse(tokens).unwrap();
    assert_eq!(program.statements.len(), 1);
}

#[test]
fn bare_undefined_name_and_stray_break_are_reported() {
    let result = check_source("undefined_name\nbreak\n");
    assert!(result.errors.len() >= 2);
    assert!(result.errors.iter().any(|e| matches!(e, TypeError::UndefinedVariable { name } if name == "undefined_name")));
    assert!(result.errors.iter().any(|e| matches!(e, TypeError::BreakOutsideLoop)));
}

#[test]
fn every_statement_form_parses() {
    let source = "import a.b.c\n\
enum Shape[T]:\n    case Circle(r: float)\n    case Empty\n\
struct Point:\n    let x: int\n    let y: int = 0\n\
@cached\n\
pub fn area(s: Shape, scale: int) -> float [io, error]:\n    let mut total: float = 0.0\n    const LIMIT: int = 10\n    if scale > LIMIT:\n        total = 1.0\n    elif scale == 0:\n        return\n    else:\n        pass_through(scale)\n    for i in items:\n        continue\n    while total < 2.0:\n        break\n    match s:\n        case _:\n            require total >= 0.0\n    return total\n\
impl Display for Point:\n    fn show(self) -> str { return \"p\"; }\n\
trait Named:\n    fn name(self) -> str\n";
    let tokens = tokenize(source).unwrap();
    let program = parse(tokens).unwrap();
    assert_eq!(program.statements.len(), 6);
    assert!(matches!(program.statements[0], Statement::Import { .. }));
    assert!(matches!(program.statements[1], Statement::EnumDef { .. }));
    assert!(matches!(program.statements[2], Statement::StructDef { .. }));
    assert!(matches!(program.statements[3], Statement::FunctionDef { .. }));
    assert!(matches!(program.statements[4], Statement::ImplBlock { .. }));
    assert!(matches!(program.statements[5], Statement::TraitDef { .. }));
}

#[test]
fn a_statement_that_does_not_parse_fails_the_program() {
    let tokens = tokenize("let x = 1\nfn broken(:\n    return 1\n").unwrap();
    assert!(parse(tokens).is_err());
    let tokens = tokenize("let x = 1\nlet y = x + 2\n").unwrap();
    assert_eq!(parse(tokens).unwrap().statements.len(), 2);
}
