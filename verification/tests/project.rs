use nova::infer::ast::{Program, Statement};
use nova::project::{
    contains, defines_tests, ends_with, is_skipped_entry, is_source_extension, is_test_file_name, starts_with,
    test_function_names,
};

fn func(name: &str) -> Statement {
    Statement::FunctionDef {
        name: name.to_string(),
        params: vec![],
        return_type: None,
        effects: vec![],
        body: vec![],
        decorators: vec![],
        is_pub: false,
        doc_comment: None,
    }
}

#[test]
fn source_extensions() {
    assert!(is_source_extension("nova"));
    assert!(is_source_extension("nv"));
    assert!(!is_source_extension("rs"));
    assert!(!is_source_extension("novax"));
    assert!(!is_source_extension(""));
}

#[test]
fn skipped_entries() {
    assert!(is_skipped_entry(".git"));
    assert!(is_skipped_entry("target"));
    assert!(is_skipped_entry("generated"));
    assert!(!is_skipped_entry("src"));
    assert!(!is_skipped_entry("targets"));
}

#[test]
fn test_files_by_name() {
    assert!(is_test_file_name("test_math", "src"));
    assert!(is_test_file_name("math_test", "src"));
    assert!(is_test_file_name("math", "tests"));
    assert!(!is_test_file_name("math", "src"));
    assert!(!is_test_file_name("testing", ""));
    assert!(defines_tests("fn main():\n    pass\nfn test_add():\n    pass\n"));
    assert!(!defines_tests("fn testadd():\n    pass\n"));
}

#[test]
fn text_predicates() {
    assert!(starts_with("hello", "he"));
    assert!(starts_with("hello", ""));
    assert!(!starts_with("he", "hello"));
    assert!(ends_with("hello", "llo"));
    assert!(!ends_with("hello", "hel"));
    assert!(contains("hello", "ell"));
    assert!(contains("hello", ""));
    assert!(!contains("hello", "elo"));
}

#[test]
fn test_functions_are_found_in_order_and_filtered() {
    let program = Program {
        statements: vec![
            func("test_add"),
            func("helper"),
            Statement::Break,
            func("test_sub"),
            func("test_mul"),
        ],
    };
    assert_eq!(test_function_names(&program, &None), vec!["test_add", "test_sub", "test_mul"]);
    assert_eq!(test_function_names(&program, &Some("u".to_string())), vec!["test_sub", "test_mul"]);
    assert_eq!(test_function_names(&program, &Some("zzz".to_string())), Vec::<String>::new());
}
