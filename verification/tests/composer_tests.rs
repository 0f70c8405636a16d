//! Tests of the chat input composer.

use agent_core::composer::ChatComposer;

#[test]
fn test_insert_and_backspace() {
    let mut composer = ChatComposer::new();
    composer.insert('h');
    composer.insert('i');
    assert_eq!(composer.buffer(), "hi");
    composer.backspace();
    assert_eq!(composer.buffer(), "h");
}

#[test]
fn test_history_navigation() {
    let mut composer = ChatComposer::new();
    composer.insert_str("first");
    composer.submit();
    composer.insert_str("second");
    composer.submit();

    composer.insert_str("current");
    composer.history_prev();
    assert_eq!(composer.buffer(), "second");
    composer.history_prev();
    assert_eq!(composer.buffer(), "first");
    composer.history_next();
    assert_eq!(composer.buffer(), "second");
    composer.history_next();
    assert_eq!(composer.buffer(), "current");
}

#[test]
fn test_completion() {
    let mut composer = ChatComposer::new();
    composer.insert_str("/hel");
    composer.complete();
    assert_eq!(composer.buffer(), "/help");
}

#[test]
fn test_completion_cycles_candidates() {
    let mut composer = ChatComposer::new();
    composer.insert_str("/c");
    composer.complete();
    assert_eq!(composer.buffer(), "/cancel");
    assert_eq!(composer.completion_count(), 2);
    composer.complete();
    assert_eq!(composer.buffer(), "/clear");
    composer.complete();
    assert_eq!(composer.buffer(), "/cancel");
}

#[test]
fn test_cursor_moves_and_kills() {
    let mut composer = ChatComposer::new();
    composer.insert_str("hello");
    assert_eq!(composer.cursor(), 5);
    composer.move_left();
    composer.move_left();
    assert_eq!(composer.cursor(), 3);
    composer.kill_line();
    assert_eq!(composer.buffer(), "hel");
    composer.move_home();
    composer.move_right();
    composer.kill_to_start();
    assert_eq!(composer.buffer(), "el");
    composer.move_end();
    assert_eq!(composer.cursor(), 2);
    composer.delete();
    assert_eq!(composer.buffer(), "el");
    composer.clear();
    assert!(composer.is_empty());
}

#[test]
fn test_submit_skips_repeated_entry() {
    let mut composer = ChatComposer::new();
    composer.insert_str("same");
    let first = composer.submit();
    assert_eq!(first, "same");
    composer.insert_str("same");
    composer.submit();
    composer.history_prev();
    assert_eq!(composer.buffer(), "same");
    composer.history_prev();
    assert_eq!(composer.buffer(), "same");
    composer.history_next();
    composer.history_next();
    assert_eq!(composer.buffer(), "");
}
