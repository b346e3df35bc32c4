use nova::syntax::lexer::lex;
use nova::syntax::preprocess::preprocess;
use nova::syntax::span::Span;
use nova::syntax::token::Token;

fn sp(i: usize) -> Span {
    Span::new(i, i + 1)
}

fn toks(ts: Vec<Token>) -> Vec<(Token, Span)> {
    ts.into_iter().enumerate().map(|(i, t)| (t, sp(i))).collect()
}

fn kinds(ts: Vec<(Token, Span)>) -> Vec<Token> {
    ts.into_iter().map(|(t, _)| t).collect()
}

fn count(ts: &[Token], target: &Token) -> usize {
    ts.iter().filter(|t| *t == target).count()
}

#[test]
fn flat_tokens_pass_through() {
    let input = toks(vec![Token::Let, Token::Ident("x".into()), Token::Eq, Token::Int(5)]);
    let out = preprocess(input.clone());
    assert_eq!(out, input);
}

#[test]
fn indented_block_is_opened_and_closed() {
    // fn main():\n    pass
    let input = toks(vec![
        Token::Fn,
        Token::Ident("main".into()),
        Token::LParen,
        Token::RParen,
        Token::Colon,
        Token::Indent(4),
        Token::Pass,
    ]);
    let out = kinds(preprocess(input));
    assert_eq!(
        out,
        vec![
            Token::Fn,
            Token::Ident("main".into()),
            Token::LParen,
            Token::RParen,
            Token::Colon,
            Token::BlockStart,
            Token::Pass,
            Token::BlockEnd,
        ]
    );
}

#[test]
fn nested_blocks_are_balanced() {
    // if x:\n    if y:\n        pass\n    return
    let input = toks(vec![
        Token::If,
        Token::Ident("x".into()),
        Token::Colon,
        Token::Indent(4),
        Token::If,
        Token::Ident("y".into()),
        Token::Colon,
        Token::Indent(8),
        Token::Pass,
        Token::Indent(4),
        Token::Return,
    ]);
    let out = kinds(preprocess(input));
    assert_eq!(count(&out, &Token::BlockStart), 2);
    assert_eq!(count(&out, &Token::BlockEnd), 2);
    // the dedent to level 4 closes the inner block and separates statements
    let pass_at = out.iter().position(|t| *t == Token::Pass).unwrap();
    assert_eq!(out[pass_at + 1], Token::BlockEnd);
    assert_eq!(out[pass_at + 2], Token::Newline);
    assert_eq!(out[pass_at + 3], Token::Return);
}

#[test]
fn column_zero_line_closes_open_blocks() {
    // fn f():\n    pass\n\nfn g():\n    pass
    let input = toks(vec![
        Token::Fn,
        Token::Ident("f".into()),
        Token::Colon,
        Token::Indent(4),
        Token::Pass,
        Token::Newline,
        Token::Newline,
        Token::Fn,
        Token::Ident("g".into()),
        Token::Colon,
        Token::Indent(4),
        Token::Pass,
    ]);
    let out = kinds(preprocess(input));
    assert_eq!(count(&out, &Token::BlockStart), 2);
    assert_eq!(count(&out, &Token::BlockEnd), 2);
    assert_eq!(count(&out, &Token::Fn), 2);
    // the first block is closed at the first line break, before the second function starts
    let pass_at = out.iter().position(|t| *t == Token::Pass).unwrap();
    assert_eq!(&out[pass_at + 1..pass_at + 5], &[Token::Newline, Token::BlockEnd, Token::Newline, Token::Fn]);
}

#[test]
fn spans_are_kept_and_eof_blocks_get_default_span() {
    let input = toks(vec![Token::Colon, Token::Indent(2), Token::Pass]);
    let out = preprocess(input);
    assert_eq!(out[0], (Token::Colon, sp(0)));
    assert_eq!(out[1], (Token::BlockStart, sp(1)));
    assert_eq!(out[2], (Token::Pass, sp(2)));
    assert_eq!(out[3], (Token::BlockEnd, Span::default()));
}

fn pp(src: &str) -> Vec<Token> {
    let (toks, _) = nova::syntax::lexer::lex(src);
    kinds(preprocess(toks))
}

#[test]
fn flat_tokens_unchanged() {
    let result = pp("let x = 5");
    assert_eq!(result, vec![Token::Let, Token::Ident("x".into()), Token::Eq, Token::Int(5)]);
}

#[test]
fn single_block() {
    let result = pp("fn main():\n    pass");
    assert!(result.contains(&Token::BlockStart), "expected BlockStart");
    assert!(result.contains(&Token::BlockEnd), "expected BlockEnd");
    assert!(result.contains(&Token::Pass));
}

#[test]
fn blocks_balanced_at_eof() {
    let src = "fn f():\n    let x = 1\n    return x";
    let result = pp(src);
    assert_eq!(count(&result, &Token::BlockStart), count(&result, &Token::BlockEnd), "BlockStart/BlockEnd must be balanced");
}

#[test]
fn nested_blocks_balanced() {
    let src = "if x:\n    if y:\n        pass\n    return";
    let result = pp(src);
    assert_eq!(count(&result, &Token::BlockStart), count(&result, &Token::BlockEnd));
}

#[test]
fn two_top_level_functions() {
    let src = "fn f():\n    pass\n\nfn g():\n    pass";
    let result = pp(src);
    assert_eq!(count(&result, &Token::BlockStart), 2);
    assert_eq!(count(&result, &Token::BlockEnd), 2);
    assert_eq!(result.iter().filter(|t| **t == Token::Fn).count(), 2);
}

#[test]
fn two_functions_no_blank_line() {
    let src = "fn f():\n    pass\nfn g():\n    pass";
    let result = pp(src);
    assert_eq!(count(&result, &Token::BlockStart), 2);
    assert_eq!(count(&result, &Token::BlockEnd), 2);
}

#[test]
fn two_functions_open_and_close_two_blocks() {
    let (tokens, errors) = lex("fn f():\n    pass\n\nfn g():\n    pass");
    assert!(errors.is_empty());
    let out = kinds(preprocess(tokens));
    assert_eq!(count(&out, &Token::BlockStart), 2);
    assert_eq!(count(&out, &Token::BlockEnd), 2);
    assert!(!out.iter().any(|t| matches!(t, Token::Indent(_))));
    let first_end = out.iter().position(|t| *t == Token::BlockEnd).unwrap();
    let second_fn = out.iter().rposition(|t| *t == Token::Fn).unwrap();
    assert!(first_end < second_fn);
}
