use ephemeral_relay::render::{format_timestamp, index, messages, render_messages, replace};
use ephemeral_relay::store::{Message, MessageStore};

fn message(content: &str, timestamp: u64) -> Message {
    Message { content: content.to_string(), timestamp }
}

#[test]
fn format_timestamp_gives_the_time_of_day() {
    assert_eq!(format_timestamp(0), "00:00:00");
    assert_eq!(format_timestamp(59), "00:00:59");
    assert_eq!(format_timestamp(60), "00:01:00");
    assert_eq!(format_timestamp(3661), "01:01:01");
    assert_eq!(format_timestamp(45_296), "12:34:56");
    assert_eq!(format_timestamp(86_399), "23:59:59");
    assert_eq!(format_timestamp(86_400), "00:00:00");
    assert_eq!(format_timestamp(1_700_000_000), "22:13:20");
    assert_eq!(format_timestamp(u64::MAX), "07:00:15");
}

#[test]
fn a_message_is_shown_as_one_paragraph() {
    let room = vec![message("hello", 45_296)];
    assert_eq!(render_messages("roomAAAAA", &room), "<p>[12:34:56] roomAAAAA: hello</p>");
}

#[test]
fn room_and_content_are_escaped() {
    let room = vec![message("a > b && a < c \"q\" 'r'", 10)];
    assert_eq!(
        render_messages("<room&1>", &room),
        "<p>[00:00:10] &lt;room&amp;1&gt;: a &gt; b &amp;&amp; a &lt; c \"q\" 'r'</p>"
    );
}

#[test]
fn text_that_is_not_ascii_is_shown_as_it_is() {
    let room = vec![message("caf\u{e9} <\u{4e2d}\u{6587}>", 0)];
    assert_eq!(
        render_messages("r\u{f6}\u{f6}m", &room),
        "<p>[00:00:00] r\u{f6}\u{f6}m: caf\u{e9} &lt;\u{4e2d}\u{6587}&gt;</p>"
    );
}

#[test]
fn messages_are_shown_oldest_first() {
    let room = vec![message("one", 1), message("two", 2), message("", 3)];
    assert_eq!(
        render_messages("r", &room),
        "<p>[00:00:01] r: one</p><p>[00:00:02] r: two</p><p>[00:00:03] r: </p>"
    );
    assert_eq!(render_messages("r", &Vec::new()), "");
}

#[test]
fn messages_of_a_room() {
    let mut store = MessageStore::new();
    store.append("roomAAAAA", "one".to_string(), 61);
    store.append("roomAAAAA", "<two>".to_string(), 62);
    store.append("roomBBBBB", "other".to_string(), 63);
    assert_eq!(
        messages(Some("roomAAAAA".to_string()), &store),
        "<p>[00:01:01] roomAAAAA: one</p><p>[00:01:02] roomAAAAA: &lt;two&gt;</p>"
    );
    assert_eq!(messages(Some("roomCCCCC".to_string()), &store), "");
    assert_eq!(messages(None, &store), "Missing room_id");
}

const TEMPLATE: &str = "<h1>room_id_PLACEHOLDER</h1><div><!-- Messages will be dynamically inserted here --></div><input value=\"room_id_PLACEHOLDER\">";

#[test]
fn the_page_of_a_room() {
    let mut store = MessageStore::new();
    store.append("room<A>", "a & b".to_string(), 7);
    assert_eq!(
        index(TEMPLATE, Some("room<A>".to_string()), &store),
        "<h1>room&lt;A&gt;</h1><div><p>[00:00:07] room&lt;A&gt;: a &amp; b</p></div><input value=\"room&lt;A&gt;\">"
    );
}

#[test]
fn the_page_of_a_room_that_was_never_seen() {
    let store = MessageStore::new();
    assert_eq!(
        index(TEMPLATE, Some("roomAAAAA".to_string()), &store),
        "<h1>roomAAAAA</h1><div><p>No messages in this room yet.</p></div><input value=\"roomAAAAA\">"
    );
    assert_eq!(
        index(TEMPLATE, None, &store),
        "<h1></h1><div><p>No messages in this room yet.</p></div><input value=\"\">"
    );
}

#[test]
fn the_page_of_an_empty_room() {
    let mut store = MessageStore::new();
    assert!(store.is_message_valid("x", "roomAAAAA"));
    assert_eq!(
        index(TEMPLATE, Some("roomAAAAA".to_string()), &store),
        "<h1>roomAAAAA</h1><div></div><input value=\"roomAAAAA\">"
    );
}

#[test]
fn a_template_without_placeholders_is_the_page() {
    let store = MessageStore::new();
    assert_eq!(index("<p>static</p>", Some("roomAAAAA".to_string()), &store), "<p>static</p>");
    assert_eq!(index("", None, &store), "");
}

#[test]
fn a_placeholder_that_comes_in_with_a_message_is_not_filled_again() {
    let mut store = MessageStore::new();
    store.append("roomAAAAA", "room_id_PLACEHOLDER".to_string(), 0);
    assert_eq!(
        index("<!-- Messages will be dynamically inserted here -->", Some("roomAAAAA".to_string()), &store),
        "<p>[00:00:00] roomAAAAA: room_id_PLACEHOLDER</p>"
    );
}

#[test]
fn replace_writes_the_replacement_for_every_occurrence() {
    assert_eq!(replace("a-b-c", "-", "+"), "a+b+c");
    assert_eq!(replace("a-b-c", "-", ""), "abc");
    assert_eq!(replace("a-b-c", "-", "--"), "a--b--c");
    assert_eq!(replace("abc", "abc", "x"), "x");
    assert_eq!(replace("abc", "abcd", "x"), "abc");
    assert_eq!(replace("", "a", "x"), "");
    assert_eq!(replace("abc", "x", "y"), "abc");
}

#[test]
fn replace_takes_occurrences_from_the_left_without_overlap() {
    assert_eq!(replace("aaa", "aa", "b"), "ba");
    assert_eq!(replace("aaaa", "aa", "b"), "bb");
    assert_eq!(replace("ababa", "aba", "x"), "xba");
    assert_eq!(replace("aab", "ab", "a"), "aa");
}

#[test]
fn replace_leaves_the_text_when_the_pattern_is_empty() {
    assert_eq!(replace("abc", "", "x"), "abc");
    assert_eq!(replace("", "", "x"), "");
}

#[test]
fn replace_works_on_characters() {
    assert_eq!(replace("caf\u{e9} \u{4e2d}\u{6587}", "\u{4e2d}", "<\u{e9}>"), "caf\u{e9} <\u{e9}>\u{6587}");
    assert_eq!(replace("\u{e9}\u{e9}\u{e9}", "\u{e9}\u{e9}", "e"), "e\u{e9}");
}

#[test]
fn replace_agrees_with_the_standard_replace() {
    let texts = ["", "a", "aa", "aaa", "abab", "xxabxxab", "a<!--b-->c", "room_id_PLACEHOLDER"];
    let patterns = ["a", "aa", "ab", "b", "xab", "<!--", "room_id_PLACEHOLDER"];
    let replacements = ["", "a", "zz", "ab"];
    for text in texts {
        for pattern in patterns {
            for to in replacements {
                assert_eq!(replace(text, pattern, to), text.replace(pattern, to));
            }
        }
    }
}
