use rwelcome::list::TodoList;
use rwelcome::menu::{run_menu, MenuReply, MenuSession};

fn list_of(items: &[&str]) -> TodoList {
    TodoList::from_items(items.iter().map(|s| s.to_string()).collect())
}

#[test]
fn add_remove_quit_leaves_empty_list() {
    let list = run_menu(TodoList::new(), "#Get bagels\n-1\n!\n");
    assert_eq!(list.len(), 0);
}

#[test]
fn immediate_end_of_input_keeps_list() {
    let before = list_of(&["a", "b"]);
    assert_eq!(run_menu(before.clone(), ""), before);
    let mut session = MenuSession::new(before.clone());
    assert_eq!(session.step(None), MenuReply::Finished);
    assert!(!session.active);
    assert_eq!(session.list, before);
}

#[test]
fn menu_steps_report_each_line() {
    let mut session = MenuSession::new(list_of(&["a"]));
    assert_eq!(session.step(Some("# b")), MenuReply::Added);
    assert_eq!(session.step(Some("#  c")), MenuReply::Added);
    assert_eq!(session.step(Some("-7")), MenuReply::OutOfRange);
    assert_eq!(session.step(Some("-0")), MenuReply::OutOfRange);
    assert_eq!(session.step(Some("-99999999999999999999999")), MenuReply::OutOfRange);
    assert_eq!(session.step(Some("-x")), MenuReply::Invalid);
    assert_eq!(session.step(Some("hello")), MenuReply::Invalid);
    assert_eq!(session.step(Some("")), MenuReply::Invalid);
    assert!(session.active);
    assert_eq!(session.step(Some("-1")), MenuReply::Removed);
    let texts: Vec<&str> = session.list.items().iter().map(|s| s.as_str()).collect();
    assert_eq!(texts, vec!["b", " c"]);
    assert_eq!(session.step(Some("Please QUIT now")), MenuReply::Finished);
    assert!(!session.active);
    assert_eq!(session.step(Some("#ignored")), MenuReply::Finished);
    assert_eq!(session.list.len(), 2);
}

#[test]
fn exit_words_end_the_menu() {
    for line in ["!", "quit", "EXIT", "I want to Exit", "#quit smoking"] {
        let mut session = MenuSession::new(TodoList::new());
        assert_eq!(session.step(Some(line)), MenuReply::Finished, "line {line:?}");
    }
    let mut session = MenuSession::new(TodoList::new());
    assert_eq!(session.step(Some("!!")), MenuReply::Invalid);
}

#[test]
fn menu_input_without_final_newline() {
    let list = run_menu(list_of(&["a", "b", "c"]), "bad\n-2\n#d");
    let texts: Vec<&str> = list.items().iter().map(|s| s.as_str()).collect();
    assert_eq!(texts, vec!["a", "c", "d"]);
}

#[test]
fn menu_stops_reading_after_exit() {
    let list = run_menu(TodoList::new(), "#one\nexit\n#two\n");
    let texts: Vec<&str> = list.items().iter().map(|s| s.as_str()).collect();
    assert_eq!(texts, vec!["one"]);
}
