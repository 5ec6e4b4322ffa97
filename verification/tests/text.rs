use ephemeral_relay::text::{chars_of, same_bytes, same_text, trim};

#[test]
fn texts_are_compared_byte_for_byte() {
    assert!(same_text("", ""));
    assert!(same_text("roomAAAAA", "roomAAAAA"));
    assert!(!same_text("roomAAAAA", "roomAAAAB"));
    assert!(!same_text("roomAAAAA", "roomAAAA"));
    assert!(!same_text("room", "Room"));
    assert!(!same_text("\u{e9}", "e\u{301}"));
    assert!(same_text("\u{e9}\u{4e2d}", "\u{e9}\u{4e2d}"));
}

#[test]
fn byte_strings_are_compared_byte_for_byte() {
    assert!(same_bytes(b"", b""));
    assert!(same_bytes(b"abc", b"abc"));
    assert!(!same_bytes(b"abc", b"abd"));
    assert!(!same_bytes(b"abc", b"ab"));
    assert!(!same_bytes(b"", b"a"));
}

#[test]
fn the_characters_of_a_text() {
    assert_eq!(chars_of(""), Vec::<char>::new());
    assert_eq!(chars_of("ab"), vec!['a', 'b']);
    assert_eq!(chars_of("\u{e9}<\u{4e2d}"), vec!['\u{e9}', '<', '\u{4e2d}']);
}

#[test]
fn trim_takes_the_white_space_from_both_ends() {
    assert_eq!(trim("  hello  "), "hello");
    assert_eq!(trim("\t\r\n hello world \n"), "hello world");
    assert_eq!(trim("hello"), "hello");
    assert_eq!(trim("a  b"), "a  b");
    assert_eq!(trim(" a"), "a");
    assert_eq!(trim("a "), "a");
    assert_eq!(trim("x"), "x");
}

#[test]
fn trim_of_white_space_only_leaves_nothing() {
    assert_eq!(trim(""), "");
    assert_eq!(trim(" "), "");
    assert_eq!(trim(" \t\n\r "), "");
}

#[test]
fn trim_knows_the_white_space_of_unicode() {
    assert_eq!(trim("\u{a0}\u{2003}a\u{3000}b\u{2028}\u{85}"), "a\u{3000}b");
    assert_eq!(trim("\u{200b}a\u{200b}"), "\u{200b}a\u{200b}");
    assert_eq!(trim(" \u{e9}\u{4e2d} "), "\u{e9}\u{4e2d}");
}

#[test]
fn trim_agrees_with_the_standard_trim() {
    let texts = [
        "", " ", "  ", "a", " a", "a ", " a ", "  a b  ", "\n\na\n\n", "\u{a0}a\u{a0}",
        "\u{1680}\u{2000}x\u{200a}\u{202f}\u{205f}", "\u{b}\u{c}y\u{1c}", "\u{feff}z\u{feff}",
    ];
    for text in texts {
        assert_eq!(trim(text), text.trim());
    }
}
