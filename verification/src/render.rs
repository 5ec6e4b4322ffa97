//! What a reader is shown.
//!
//! A message is shown as one paragraph: the time of day at which it was
//! admitted, the room, and the content, the last two escaped for HTML.

use vstd::prelude::*;
use vstd::string::StringExecFns;
use crate::rooms::entries_of;
use crate::store::{Message, MessageStore};
use crate::text::chars_of;

verus! {

/// The decimal digit for `d`, which is below ten.
pub open spec fn digit(d: int) -> char {
    (48 + d) as char
}

/// `n`, which is below a hundred, as two decimal digits.
pub open spec fn two_digits(n: int) -> Seq<char> {
    seq![digit(n / 10), digit(n % 10)]
}

/// The time of day of `timestamp` as `HH:MM:SS`.
pub open spec fn clock_text(timestamp: u64) -> Seq<char> {
    two_digits(((timestamp / 3600) % 24) as int) + seq![':'] + two_digits(
        ((timestamp / 60) % 60) as int,
    ) + seq![':'] + two_digits((timestamp % 60) as int)
}

/// What stands for a character in escaped text.
pub open spec fn escaped_char(c: char) -> Seq<char> {
    if c == '&' {
        seq!['&', 'a', 'm', 'p', ';']
    } else if c == '<' {
        seq!['&', 'l', 't', ';']
    } else if c == '>' {
        seq!['&', 'g', 't', ';']
    } else {
        seq![c]
    }
}

/// A text escaped for use as HTML text: every `&`, `<` and `>` is written as
/// its entity, every other character as itself.
pub open spec fn escaped(text: Seq<char>) -> Seq<char> {
    text.map_values(|c: char| escaped_char(c)).flatten()
}

/// The paragraph that shows `message` in room `room_id`.
pub open spec fn message_line(room_id: Seq<char>, message: Message) -> Seq<char> {
    "<p>["@ + clock_text(message.timestamp) + "] "@ + escaped(room_id) + ": "@ + escaped(
        message.content@,
    ) + "</p>"@
}

/// The paragraphs that show `messages`, in their order.
pub open spec fn message_lines(room_id: Seq<char>, messages: Seq<Message>) -> Seq<char>
    decreases messages.len(),
{
    if messages.len() == 0 {
        Seq::empty()
    } else {
        message_lines(room_id, messages.drop_last()) + message_line(room_id, messages.last())
    }
}

/// Calls `html_escape::encode_text`, which copies a text and writes `&amp;`
/// for every `&`, `&lt;` for every `<` and `&gt;` for every `>`.
#[verifier::external_body]
pub(crate) fn encode_text(text: &str) -> (encoded: String)
    ensures
        encoded@ == escaped(text@),
{
    html_escape::encode_text(text).into_owned()
}

fn push_two_digits(text: &mut String, n: u64)
    requires
        n < 100,
    ensures
        final(text)@ == old(text)@ + two_digits(n as int),
{
    let tens: u8 = (n / 10) as u8;
    let ones: u8 = (n % 10) as u8;
    text.push((48u8 + tens) as char);
    text.push((48u8 + ones) as char);
    assert(text@ =~= old(text)@ + two_digits(n as int));
}

/// The time of day of a timestamp, as `HH:MM:SS`.
pub fn format_timestamp(timestamp: u64) -> (text: String)
    ensures
        text@ == clock_text(timestamp),
        text@.len() == 8,
{
    let seconds: u64 = timestamp % 60;
    let minutes: u64 = (timestamp / 60) % 60;
    let hours: u64 = (timestamp / 3600) % 24;
    let mut text = String::new();
    push_two_digits(&mut text, hours);
    text.push(':');
    push_two_digits(&mut text, minutes);
    text.push(':');
    push_two_digits(&mut text, seconds);
    assert(text@ =~= clock_text(timestamp));
    text
}

/// Appends the paragraph that shows `message` in room `room_id`.
fn push_message_line(html: &mut String, room_id: &str, message: &Message)
    ensures
        final(html)@ == old(html)@ + message_line(room_id@, *message),
{
    html.append("<p>[");
    html.append(format_timestamp(message.timestamp).as_str());
    html.append("] ");
    html.append(encode_text(room_id).as_str());
    html.append(": ");
    html.append(encode_text(message.content.as_str()).as_str());
    html.append("</p>");
    assert(html@ =~= old(html)@ + message_line(room_id@, *message));
}

/// The paragraphs that show the messages of a room, oldest first.
pub fn render_messages(room_id: &str, messages: &Vec<Message>) -> (html: String)
    ensures
        html@ == message_lines(room_id@, messages@),
{
    let mut html = String::new();
    let mut i: usize = 0;
    while i < messages.len()
        invariant
            i <= messages.len(),
            html@ == message_lines(room_id@, messages@.take(i as int)),
        decreases messages.len() - i,
    {
        assert(messages@.take(i as int + 1).drop_last() =~= messages@.take(i as int));
        push_message_line(&mut html, room_id, &messages[i]);
        i = i + 1;
    }
    assert(messages@.take(messages.len() as int) =~= messages@);
    html
}

/// What a reader of a room is shown: the paragraphs of its messages, or a
/// notice if no room was named. A room that the store has not seen shows
/// nothing.
pub fn messages(room_id: Option<String>, store: &MessageStore) -> (html: String)
    requires
        store.wf(),
    ensures
        match room_id {
            Some(id) => html@ == message_lines(id@, entries_of(store@, id@)),
            None => html@ == "Missing room_id"@,
        },
{
    let room_id = match room_id {
        Some(id) => id,
        None => {
            return String::from_str("Missing room_id");
        },
    };
    match store.room(room_id.as_str()) {
        Some(room) => render_messages(room_id.as_str(), room),
        None => String::new(),
    }
}

/// Stands in a page template where the escaped room identifier goes.
pub const ROOM_ID_PLACEHOLDER: &'static str = "room_id_PLACEHOLDER";

/// Stands in a page template where the paragraphs of the messages go.
pub const MESSAGES_PLACEHOLDER: &'static str =
    "<!-- Messages will be dynamically inserted here -->";

/// Shown in place of the messages of a room that the store has not seen.
pub const NO_MESSAGES_NOTICE: &'static str = "<p>No messages in this room yet.</p>";

/// `text` with every occurrence of `from` replaced by `to`. Occurrences are
/// found from the left and do not overlap; an empty `from` occurs nowhere.
pub open spec fn replaced(text: Seq<char>, from: Seq<char>, to: Seq<char>) -> Seq<char>
    decreases text.len(),
{
    if from.len() == 0 || text.len() < from.len() {
        text
    } else if text.subrange(0, from.len() as int) == from {
        to + replaced(text.subrange(from.len() as int, text.len() as int), from, to)
    } else {
        seq![text[0]] + replaced(text.subrange(1, text.len() as int), from, to)
    }
}

/// What the page shows in place of the messages of room `room_id`.
pub open spec fn page_body(room_id: Seq<char>, rooms: Map<Seq<char>, Seq<Message>>) -> Seq<char> {
    if rooms.dom().contains(room_id) {
        message_lines(room_id, rooms[room_id])
    } else {
        NO_MESSAGES_NOTICE@
    }
}

/// The page of room `room_id`, made from `template`.
pub open spec fn index_page(
    template: Seq<char>,
    room_id: Seq<char>,
    rooms: Map<Seq<char>, Seq<Message>>,
) -> Seq<char> {
    replaced(
        replaced(template, ROOM_ID_PLACEHOLDER@, escaped(room_id)),
        MESSAGES_PLACEHOLDER@,
        page_body(room_id, rooms),
    )
}

/// Whether `pattern` stands in `text` at position `at`.
fn stands_at(text: &Vec<char>, pattern: &Vec<char>, at: usize) -> (stands: bool)
    requires
        at <= text.len(),
    ensures
        stands == (at + pattern.len() <= text.len() && text@.subrange(
            at as int,
            at + pattern.len(),
        ) == pattern@),
{
    if pattern.len() > text.len() - at {
        return false;
    }
    let mut k: usize = 0;
    while k < pattern.len()
        invariant
            k <= pattern.len(),
            at + pattern.len() <= text.len(),
            forall|j: int| 0 <= j < k ==> text@[at + j] == pattern@[j],
        decreases pattern.len() - k,
    {
        if text[at + k] != pattern[k] {
            assert(text@.subrange(at as int, at + pattern.len())[k as int] != pattern@[k as int]);
            return false;
        }
        k = k + 1;
    }
    assert(text@.subrange(at as int, at + pattern.len()) =~= pattern@);
    true
}

/// A copy of `text` in which every occurrence of `from` is replaced by `to`.
pub fn replace(text: &str, from: &str, to: &str) -> (out: String)
    ensures
        out@ == replaced(text@, from@, to@),
{
    let pattern = chars_of(from);
    if pattern.len() == 0 {
        return text.to_owned();
    }
    let chars = chars_of(text);
    let n: usize = chars.len();
    let m: usize = pattern.len();
    let mut out = String::new();
    let mut i: usize = 0;
    assert(text@.subrange(0, n as int) =~= text@);
    while i < n
        invariant
            chars@ == text@,
            pattern@ == from@,
            n == chars.len(),
            m == pattern.len(),
            m > 0,
            i <= n,
            out@ + replaced(text@.subrange(i as int, n as int), from@, to@) == replaced(
                text@,
                from@,
                to@,
            ),
        decreases n - i,
    {
        let ghost rest = text@.subrange(i as int, n as int);
        if stands_at(&chars, &pattern, i) {
            assert(rest.subrange(0, m as int) =~= text@.subrange(i as int, i + m));
            assert(rest.subrange(m as int, rest.len() as int) =~= text@.subrange(i + m, n as int));
            out.append(to);
            i = i + m;
        } else {
            assert(rest.len() >= m ==> rest.subrange(0, m as int) =~= text@.subrange(
                i as int,
                i + m,
            ));
            assert(rest.subrange(1, rest.len() as int) =~= text@.subrange(i + 1, n as int));
            assert(replaced(rest, from@, to@) =~= seq![rest[0]] + replaced(
                rest.subrange(1, rest.len() as int),
                from@,
                to@,
            ));
            out.push(chars[i]);
            i = i + 1;
        }
        assert(out@ + replaced(text@.subrange(i as int, n as int), from@, to@) =~= replaced(
            text@,
            from@,
            to@,
        ));
    }
    assert(out@ + Seq::<char>::empty() =~= out@);
    out
}

/// The page of a room: the template with the escaped room identifier and the
/// paragraphs of the room's messages in their places. Without a room
/// identifier the page is that of the room with the empty identifier.
pub fn index(template: &str, room_id: Option<String>, store: &MessageStore) -> (page: String)
    requires
        store.wf(),
    ensures
        page@ == index_page(
            template@,
            match room_id {
                Some(id) => id@,
                None => Seq::empty(),
            },
            store@,
        ),
{
    let room_id_value = match room_id {
        Some(id) => id,
        None => String::new(),
    };
    let named = replace(template, ROOM_ID_PLACEHOLDER, encode_text(room_id_value.as_str()).as_str());
    let body = match store.room(room_id_value.as_str()) {
        Some(room) => render_messages(room_id_value.as_str(), room),
        None => String::from_str(NO_MESSAGES_NOTICE),
    };
    replace(named.as_str(), MESSAGES_PLACEHOLDER, body.as_str())
}

} // verus!
