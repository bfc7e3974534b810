use rwelcome::error::TodoError;
use rwelcome::list::TodoList;
use rwelcome::render::{hyphens, todo_lines};

#[test]
fn numbered_todo_lines() {
    let list = TodoList::from_items(vec!["Buy milk".to_string(), "Call Sam".to_string()]);
    assert_eq!(todo_lines(&list), vec!["  1. Buy milk", "  2. Call Sam"]);
    assert!(todo_lines(&TodoList::new()).is_empty());
}

#[test]
fn hyphen_rule() {
    assert_eq!(hyphens(5), "-----");
    assert_eq!(hyphens(0), "");
}

#[test]
fn error_messages() {
    assert_eq!(TodoError::UnknownVerb("frob".to_string()).message(), "unknown verb 'frob'");
    assert_eq!(TodoError::IndexOutOfRange.message(), "please choose a number that's in the list");
}
