use rwelcome::command::{parse_command, parse_index_list, parse_invocation, Invocation};
use rwelcome::error::TodoError;
use rwelcome::list::EditCommand;

fn words(ws: &[&str]) -> Vec<String> {
    ws.iter().map(|s| s.to_string()).collect()
}

#[test]
fn invocation_modes() {
    assert_eq!(parse_invocation(&words(&[])), Ok(Invocation::Show));
    assert_eq!(parse_invocation(&words(&["rwelcome"])), Ok(Invocation::Show));
    assert_eq!(parse_invocation(&words(&["rwelcome", "edit"])), Ok(Invocation::OpenEditor));
    assert_eq!(parse_invocation(&words(&["rwelcome", "edit", "menu"])), Ok(Invocation::Menu));
    assert_eq!(
        parse_invocation(&words(&["rwelcome", "show"])),
        Err(TodoError::UnknownVerb("show".to_string()))
    );
}

#[test]
fn invocation_with_verbs() {
    assert_eq!(
        parse_invocation(&words(&["rwelcome", "edit", "add", "Get", "bagels"])),
        Ok(Invocation::Edit(EditCommand::Add("Get bagels".to_string())))
    );
    assert_eq!(
        parse_invocation(&words(&["rwelcome", "edit", "done", "2"])),
        Ok(Invocation::Edit(EditCommand::RemoveMany(vec![2])))
    );
    assert_eq!(
        parse_invocation(&words(&["rwelcome", "edit", "frob"])),
        Err(TodoError::UnknownVerb("frob".to_string()))
    );
}

#[test]
fn add_verb_joins_words() {
    assert_eq!(
        parse_command("add", &words(&["Get", "bagels"])),
        Ok(EditCommand::Add("Get bagels".to_string()))
    );
    assert_eq!(parse_command("add", &words(&[])), Ok(EditCommand::Add(String::new())));
}

#[test]
fn done_and_check_take_comma_lists() {
    assert_eq!(parse_command("done", &words(&["3,1"])), Ok(EditCommand::RemoveMany(vec![3, 1])));
    assert_eq!(parse_command("check", &words(&["2"])), Ok(EditCommand::RemoveMany(vec![2])));
    assert_eq!(parse_command("done", &words(&["-1"])), Ok(EditCommand::RemoveMany(vec![-1])));
    assert_eq!(parse_command("done", &words(&["1", "2"])), Err(TodoError::InvalidArgument));
    assert_eq!(parse_command("done", &words(&["two"])), Err(TodoError::InvalidArgument));
    assert_eq!(parse_command("done", &words(&[])), Err(TodoError::InvalidArgument));
    assert_eq!(parse_command("done", &words(&["1,,2"])), Err(TodoError::InvalidArgument));
}

#[test]
fn fix_takes_position_and_text() {
    assert_eq!(
        parse_command("fix", &words(&["2", "new", "text"])),
        Ok(EditCommand::Replace(2, "new text".to_string()))
    );
    assert_eq!(parse_command("fix", &words(&["2"])), Ok(EditCommand::Replace(2, String::new())));
    assert_eq!(parse_command("fix", &words(&[])), Err(TodoError::InvalidArgument));
    assert_eq!(parse_command("fix", &words(&["x", "text"])), Err(TodoError::InvalidArgument));
}

#[test]
fn unknown_verb_is_named() {
    assert_eq!(parse_command("Add", &words(&["x"])), Err(TodoError::UnknownVerb("Add".to_string())));
}

#[test]
fn index_lists() {
    assert_eq!(parse_index_list("1,2,30"), Some(vec![1, 2, 30]));
    assert_eq!(parse_index_list("+4"), Some(vec![4]));
    assert_eq!(parse_index_list("1, 2"), None);
    assert_eq!(parse_index_list(""), None);
}
