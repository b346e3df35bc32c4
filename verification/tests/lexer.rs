use nova::syntax::lexer::{lex, LexError};
use nova::syntax::span::Span;
use nova::syntax::token::Token;

fn tokens(src: &str) -> Vec<Token> {
    let (toks, errs) = lex(src);
    assert!(errs.is_empty(), "unexpected lex errors: {errs:?}");
    toks.into_iter().map(|(t, _)| t).collect()
}

#[test]
fn lex_integer() {
    assert_eq!(tokens("42"), vec![Token::Int(42)]);
}

#[test]
fn lex_float() {
    assert_eq!(tokens("2.5"), vec![Token::Float("2.5".to_string())]);
}

#[test]
fn lex_string() {
    assert_eq!(tokens(r#""hello""#), vec![Token::Str("hello".to_string())]);
}

#[test]
fn lex_bool_true() {
    assert_eq!(tokens("true"), vec![Token::True]);
}

#[test]
fn lex_bool_false() {
    assert_eq!(tokens("false"), vec![Token::False]);
}

#[test]
fn lex_fn_keyword() {
    assert_eq!(tokens("fn"), vec![Token::Fn]);
}

#[test]
fn lex_let_var() {
    assert_eq!(tokens("let var"), vec![Token::Let, Token::Var]);
}

#[test]
fn lex_module_keyword() {
    assert_eq!(tokens("module"), vec![Token::Module]);
}

#[test]
fn lex_dist_keyword() {
    assert_eq!(tokens("dist"), vec![Token::Dist]);
}

#[test]
fn lex_decorator_persist() {
    assert_eq!(tokens("@persist"), vec![Token::Decorator("persist".to_string())]);
}

#[test]
fn lex_decorator_dist() {
    assert_eq!(tokens("@dist"), vec![Token::Decorator("dist".to_string())]);
}

#[test]
fn lex_decorator_runtime() {
    assert_eq!(tokens("@runtime"), vec![Token::Decorator("runtime".to_string())]);
}

#[test]
fn lex_decorator_checkpoint() {
    assert_eq!(tokens("@checkpoint"), vec![Token::Decorator("checkpoint".to_string())]);
}

#[test]
fn lex_arithmetic_operators() {
    assert_eq!(
        tokens("+ - * / %"),
        vec![Token::Plus, Token::Minus, Token::Star, Token::Slash, Token::Percent]
    );
}

#[test]
fn lex_comparison_operators() {
    assert_eq!(
        tokens("== != < <= > >="),
        vec![Token::EqEq, Token::BangEq, Token::Lt, Token::LtEq, Token::Gt, Token::GtEq]
    );
}

#[test]
fn lex_arrow() {
    assert_eq!(tokens("->"), vec![Token::Arrow]);
}

#[test]
fn lex_assignment_ops() {
    assert_eq!(
        tokens("= += -= *= /="),
        vec![Token::Eq, Token::PlusEq, Token::MinusEq, Token::StarEq, Token::SlashEq]
    );
}

#[test]
fn lex_primitive_types() {
    assert_eq!(
        tokens("i64 f64 bool str void"),
        vec![Token::TypeI64, Token::TypeF64, Token::TypeBool, Token::TypeStr, Token::TypeVoid]
    );
}

#[test]
fn lex_comment_is_skipped() {
    assert_eq!(tokens("# this is a comment"), vec![]);
}

#[test]
fn lex_inline_comment() {
    assert_eq!(tokens("42 # the answer"), vec![Token::Int(42)]);
}

#[test]
fn lex_function_signature() {
    let src = "fn add(a: i64, b: i64) -> i64:";
    let toks = tokens(src);
    assert_eq!(toks[0], Token::Fn);
    assert_eq!(toks[1], Token::Ident("add".to_string()));
    assert_eq!(toks[2], Token::LParen);
    assert_eq!(toks[3], Token::Ident("a".to_string()));
    assert_eq!(toks[4], Token::Colon);
    assert_eq!(toks[5], Token::TypeI64);
    assert_eq!(toks[6], Token::Comma);
    assert_eq!(toks[7], Token::Ident("b".to_string()));
    assert_eq!(toks[8], Token::Colon);
    assert_eq!(toks[9], Token::TypeI64);
    assert_eq!(toks[10], Token::RParen);
    assert_eq!(toks[11], Token::Arrow);
    assert_eq!(toks[12], Token::TypeI64);
    assert_eq!(toks[13], Token::Colon);
}

#[test]
fn lex_decorator_with_parens() {
    let toks = tokens(r#"@dist(node="worker-1")"#);
    assert_eq!(toks[0], Token::Decorator("dist".to_string()));
    assert_eq!(toks[1], Token::LParen);
    assert_eq!(toks[2], Token::Ident("node".to_string()));
    assert_eq!(toks[3], Token::Eq);
    assert_eq!(toks[4], Token::Str("worker-1".to_string()));
    assert_eq!(toks[5], Token::RParen);
}

#[test]
fn lex_hello_nv() {
    let src = r#"fn main():
    let msg = "Hello, Nova!"
    print(msg)"#;
    let toks = tokens(src);
    assert_eq!(toks[0], Token::Fn);
    assert_eq!(toks[1], Token::Ident("main".to_string()));
    assert_eq!(toks[2], Token::LParen);
    assert_eq!(toks[3], Token::RParen);
    assert_eq!(toks[4], Token::Colon);
    assert!(matches!(toks[5], Token::Indent(_)));
    assert_eq!(toks[6], Token::Let);
    assert_eq!(toks[7], Token::Ident("msg".to_string()));
    assert_eq!(toks[8], Token::Eq);
    assert_eq!(toks[9], Token::Str("Hello, Nova!".to_string()));
}

#[test]
fn lex_unknown_char_produces_error() {
    let (toks, errs) = lex("42 $ 99");
    assert!(!errs.is_empty(), "expected a lex error for '$'");
    assert!(toks.iter().any(|(t, _)| *t == Token::Int(42)));
    assert!(toks.iter().any(|(t, _)| *t == Token::Int(99)));
}

#[test]
fn lex_spans_are_byte_ranges() {
    let (toks, errs) = lex("é = 1\n\tx");
    // 'é' starts no token; it takes two bytes
    assert_eq!(errs, vec![LexError::UnexpectedChar { ch: 'é', span: Span::new(0, 2) }]);
    assert_eq!(toks[0], (Token::Eq, Span::new(3, 4)));
    assert_eq!(toks[1], (Token::Int(1), Span::new(5, 6)));
    // a tab counts four columns of indentation
    assert_eq!(toks[2], (Token::Indent(4), Span::new(6, 8)));
    assert_eq!(toks[3], (Token::Ident("x".to_string()), Span::new(8, 9)));
}

#[test]
fn lex_longest_match_and_keywords_in_words() {
    assert_eq!(
        tokens("format fnx :: .. 1..2 x.y"),
        vec![
            Token::Ident("format".to_string()),
            Token::Ident("fnx".to_string()),
            Token::ColonColon,
            Token::DotDot,
            Token::Int(1),
            Token::DotDot,
            Token::Int(2),
            Token::Ident("x".to_string()),
            Token::Dot,
            Token::Ident("y".to_string()),
        ]
    );
}

#[test]
fn lex_escapes_overflow_and_unterminated_strings() {
    assert_eq!(tokens(r#""a\"b""#), vec![Token::Str(r#"a\"b"#.to_string())]);
    let (toks, errs) = lex("99999999999999999999 7");
    assert_eq!(errs, vec![LexError::UnexpectedChar { ch: '9', span: Span::new(0, 20) }]);
    assert_eq!(toks, vec![(Token::Int(7), Span::new(21, 22))]);
    let (toks, errs) = lex("\"open");
    assert_eq!(errs.len(), 1);
    assert_eq!(toks, vec![(Token::Ident("open".to_string()), Span::new(1, 5))]);
    let (_, errs) = lex("a & b | c @ d");
    assert_eq!(errs.len(), 3);
}
