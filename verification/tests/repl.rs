use nova::project::should_rerun;
use nova::repl::{ReplAction, ReplState};

#[test]
fn commands_outside_a_block() {
    let mut st = ReplState::new();
    assert_eq!(st.step(":quit\n"), ReplAction::Quit);
    assert_eq!(st.step("  :q  \r\n"), ReplAction::Quit);
    assert_eq!(st.step(":exit"), ReplAction::Quit);
    assert_eq!(st.step(":help\n"), ReplAction::Help);
    assert_eq!(st.step(":h\n"), ReplAction::Help);
    assert_eq!(st.step(":clear\n"), ReplAction::Clear);
    assert_eq!(st.step(":c\n"), ReplAction::Clear);
    assert_eq!(st.step("   \n"), ReplAction::Wait);
    assert!(!st.in_block);
    assert_eq!(st.buffer, "");
}

#[test]
fn a_single_line_is_evaluated_as_read() {
    let mut st = ReplState::new();
    assert_eq!(st.step("print(1 + 2)\r\n"), ReplAction::Evaluate("print(1 + 2)".to_string()));
    assert!(!st.in_block);
    assert_eq!(st.buffer, "");
}

#[test]
fn a_block_is_collected_until_a_blank_line() {
    let mut st = ReplState::new();
    assert_eq!(st.step("fn double(x: int) -> int:\n"), ReplAction::Wait);
    assert!(st.in_block);
    assert_eq!(st.step("    return x * 2\n"), ReplAction::Wait);
    // commands are ordinary lines inside a block
    assert_eq!(st.step("    :q\n"), ReplAction::Wait);
    assert_eq!(
        st.step("\n"),
        ReplAction::Evaluate("fn double(x: int) -> int:\n    return x * 2\n    :q\n".to_string())
    );
    assert!(!st.in_block);
    assert_eq!(st.buffer, "");
    assert_eq!(st.step("double(4)\n"), ReplAction::Evaluate("double(4)".to_string()));
}

#[test]
fn rerun_only_on_relevant_changes_after_a_pause() {
    assert!(should_rerun(true, true, 100));
    assert!(should_rerun(true, true, 5000));
    assert!(!should_rerun(true, true, 99));
    assert!(!should_rerun(false, true, 1000));
    assert!(!should_rerun(true, false, 1000));
}
