use rwelcome::codec::{decode_lines, decode_todos, encode_todos};
use rwelcome::list::TodoList;

fn list_of(items: &[&str]) -> TodoList {
    TodoList::from_items(items.iter().map(|s| s.to_string()).collect())
}

#[test]
fn encoding_marks_each_line() {
    assert_eq!(encode_todos(&list_of(&["Buy milk", "Call Sam"])), "# Buy milk\n# Call Sam");
    assert_eq!(encode_todos(&TodoList::new()), "");
    assert_eq!(encode_todos(&list_of(&[""])), "# ");
}

#[test]
fn save_then_load_gives_the_same_items() {
    for items in [
        vec![],
        vec![""],
        vec!["Buy milk", "Call Sam"],
        vec!["#not a marker", " leading space", "", "trailing  "],
        vec!["caf\u{e9}", "tab\there"],
    ] {
        let list = list_of(&items);
        assert_eq!(decode_todos(&encode_todos(&list)), list);
    }
}

#[test]
fn decoding_stops_at_the_first_unmarked_line() {
    let text = "# a\n#b\n#\n#  c\n\n# later section";
    let list = decode_todos(text);
    assert_eq!(list.items(), &vec!["a".to_string(), "b".to_string(), " c".to_string()]);
    assert_eq!(decode_todos("plain line\n# a").len(), 0);
    assert_eq!(decode_todos("").len(), 0);
    assert_eq!(decode_todos("# a\n").items(), &vec!["a".to_string()]);
}

#[test]
fn decoding_lines_passes_over_bare_markers() {
    let lines = vec!["#".to_string(), "# x".to_string(), "#".to_string()];
    assert_eq!(decode_lines(&lines).items(), &vec!["x".to_string()]);
}
