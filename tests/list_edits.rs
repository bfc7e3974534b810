use rwelcome::error::TodoError;
use rwelcome::list::{EditCommand, TodoList};

fn list_of(items: &[&str]) -> TodoList {
    TodoList::from_items(items.iter().map(|s| s.to_string()).collect())
}

fn texts(list: &TodoList) -> Vec<&str> {
    list.items().iter().map(|s| s.as_str()).collect()
}

#[test]
fn buy_milk_scenario() {
    let mut list = list_of(&["Buy milk", "Call Sam"]);
    assert_eq!(list.apply(EditCommand::RemoveMany(vec![2])), Ok(()));
    assert_eq!(texts(&list), vec!["Buy milk"]);
    assert_eq!(list.apply(EditCommand::Add("Wash car".to_string())), Ok(()));
    assert_eq!(texts(&list), vec!["Buy milk", "Wash car"]);
    assert_eq!(list.apply(EditCommand::Replace(1, "Buy oat milk".to_string())), Ok(()));
    assert_eq!(texts(&list), vec!["Buy oat milk", "Wash car"]);
    assert_eq!(list.apply(EditCommand::RemoveMany(vec![5])), Err(TodoError::IndexOutOfRange));
    assert_eq!(texts(&list), vec!["Buy oat milk", "Wash car"]);
}

#[test]
fn removal_order_does_not_matter() {
    let mut a = list_of(&["one", "two", "three", "four"]);
    let mut b = a.clone();
    assert_eq!(a.remove_many(&vec![3, 1]), Ok(()));
    assert_eq!(b.remove_many(&vec![1, 3]), Ok(()));
    assert_eq!(texts(&a), vec!["two", "four"]);
    assert_eq!(a, b);
}

#[test]
fn removal_repeats_count_once() {
    let mut list = list_of(&["one", "two", "three"]);
    assert_eq!(list.remove_many(&vec![2, 2]), Ok(()));
    assert_eq!(texts(&list), vec!["one", "three"]);
}

#[test]
fn removal_of_every_item() {
    let mut list = list_of(&["one", "two", "three"]);
    assert_eq!(list.remove_many(&vec![2, 3, 1]), Ok(()));
    assert!(list.is_empty());
}

#[test]
fn invalid_removal_changes_nothing() {
    let before = list_of(&["one", "two", "three"]);
    for bad in [vec![1, 4], vec![0], vec![-1, 2], vec![3, 2, 99]] {
        let mut list = before.clone();
        assert_eq!(list.remove_many(&bad), Err(TodoError::IndexOutOfRange));
        assert_eq!(list, before);
    }
}

#[test]
fn removal_from_empty_list_fails() {
    let mut list = TodoList::new();
    assert_eq!(list.remove_many(&vec![1]), Err(TodoError::IndexOutOfRange));
    assert_eq!(list.len(), 0);
}

#[test]
fn empty_removal_changes_nothing() {
    let mut list = list_of(&["one"]);
    assert_eq!(list.remove_many(&vec![]), Ok(()));
    assert_eq!(texts(&list), vec!["one"]);
}

#[test]
fn add_appends_at_the_end() {
    let mut list = list_of(&["one", "two"]);
    list.add("three".to_string());
    assert_eq!(list.len(), 3);
    assert_eq!(texts(&list), vec!["one", "two", "three"]);
    list.add(String::new());
    assert_eq!(texts(&list), vec!["one", "two", "three", ""]);
}

#[test]
fn replace_changes_only_its_position() {
    let mut list = list_of(&["one", "two", "three"]);
    assert_eq!(list.replace(2, "TWO".to_string()), Ok(()));
    assert_eq!(texts(&list), vec!["one", "TWO", "three"]);
}

#[test]
fn replace_out_of_range_changes_nothing() {
    let before = list_of(&["one", "two"]);
    for bad in [0, 3, -2] {
        let mut list = before.clone();
        assert_eq!(list.replace(bad, "x".to_string()), Err(TodoError::IndexOutOfRange));
        assert_eq!(list, before);
    }
}
