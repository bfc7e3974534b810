use rwelcome::text::{chars_of, holds_folded, holds_text, join_strings, same_text, split_text, split_words, trim_text};

#[test]
fn words_split_at_any_white_space() {
    assert_eq!(split_words("\u{a0}a  b\tc\n"), vec!["a", "b", "c"]);
    assert_eq!(split_words("   "), Vec::<String>::new());
    assert_eq!(split_words("one"), vec!["one"]);
}

#[test]
fn trimming() {
    assert_eq!(trim_text("  host\n"), "host");
    assert_eq!(trim_text("\u{3000}x y\u{2028}"), "x y");
    assert_eq!(trim_text(" \t "), "");
}

#[test]
fn splitting_and_joining() {
    assert_eq!(split_text("a,b,,c", ','), vec!["a", "b", "", "c"]);
    assert_eq!(split_text("", ','), vec![""]);
    let parts = vec!["x".to_string(), "y".to_string()];
    assert_eq!(join_strings(&parts, ", "), "x, y");
}

#[test]
fn searching() {
    assert!(holds_text("light rain", "rain"));
    assert!(!holds_text("light Rain", "rain"));
    assert!(holds_folded(&chars_of("Light RAIN"), "rain"));
    assert!(!holds_folded(&chars_of("rai"), "rain"));
    assert!(same_text("abc", "abc"));
    assert!(!same_text("abc", "abd"));
}
