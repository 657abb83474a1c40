use tdo::tui::wrap::wrap_text;

#[test]
fn test_wrap_text_basic() {
    let text = "hello world";
    let wrapped = wrap_text(text, 7);
    assert_eq!(wrapped, vec!["hello ", "world"]);
}

#[test]
fn test_wrap_text_no_split() {
    let text = "hello";
    let wrapped = wrap_text(text, 10);
    assert_eq!(wrapped, vec!["hello"]);
}

#[test]
fn test_wrap_text_long_word() {
    let text = "supercalifragilistic";
    let wrapped = wrap_text(text, 5);
    assert_eq!(wrapped, vec!["super", "calif", "ragil", "istic"]);
}

#[test]
fn test_wrap_text_newlines() {
    let text = "hello\nworld\r\nnext";
    let wrapped = wrap_text(text, 10);
    assert_eq!(wrapped, vec!["hello", "world", "next"]);
}

#[test]
fn test_wrap_text_spaces() {
    let text = "hello   world  ";
    let wrapped = wrap_text(text, 8);
    assert_eq!(wrapped, vec!["hello   ", "world  "]);
}

#[test]
fn wrap_text_empty_and_zero_width() {
    assert_eq!(wrap_text("", 5), vec![""]);
    assert_eq!(wrap_text("a b", 0), vec!["a b"]);
}

#[test]
fn wrap_text_counts_bytes() {
    // "é" is two bytes in UTF-8: "éé" is four bytes and does not fit in three.
    assert_eq!(wrap_text("a éé", 3), vec!["a ", "éé"]);
}
