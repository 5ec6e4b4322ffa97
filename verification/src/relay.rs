//! Posting a message.
//!
//! A post passes, in this order, the limiter for all rooms, the limiter for
//! its room, the check of the room identifier, the check of its length, which
//! also makes space in the room, and the check that it is encrypted. Only
//! then is it stored. Each check that fails ends the post with its own error,
//! and what the earlier checks changed stays changed.

use vstd::prelude::*;
use vstd::string::{StrSliceExecFns, StringExecFns};
use vstd::utf8::encode_utf8;
use crate::classify::{is_encrypted_text, is_message_encrypted};
use crate::limiter::{after_room_attempt, room_admits, RateLimiter};
use crate::limits::{MAX_MESSAGE_LENGTH, MESSAGE_LIMIT, MIN_ROOM_ID_LENGTH, TIME_WINDOW};
use crate::render::{encode_text, escaped};
use crate::rooms::entries_of;
use crate::store::{reserved, Message, MessageStore};
use crate::text::{trim, trimmed};
use crate::window::{admits, after_attempt};

verus! {

/// Why a post was refused.
#[derive(Clone, Copy, Debug, PartialEq, Eq, Structural)]
pub enum SendError {
    /// The window over all rooms is exhausted.
    GlobalRateLimit,
    /// The window of the room is exhausted.
    RoomRateLimit,
    /// The room identifier has fewer than `MIN_ROOM_ID_LENGTH` characters.
    RoomIdTooShort,
    /// The message is longer than `MAX_MESSAGE_LENGTH` bytes.
    InvalidMessage,
    /// The message does not count as encrypted.
    NotEncrypted,
}

/// The first check that a post fails, if it fails one.
pub open spec fn verdict(
    global: Seq<u64>,
    rooms: Map<Seq<char>, Seq<u64>>,
    message: Seq<char>,
    room_id: Seq<char>,
    now: u64,
) -> Option<SendError> {
    if !admits(global, now, TIME_WINDOW, MESSAGE_LIMIT as nat) {
        Some(SendError::GlobalRateLimit)
    } else if !room_admits(rooms, room_id, now) {
        Some(SendError::RoomRateLimit)
    } else if room_id.len() < MIN_ROOM_ID_LENGTH {
        Some(SendError::RoomIdTooShort)
    } else if encode_utf8(message).len() > MAX_MESSAGE_LENGTH {
        Some(SendError::InvalidMessage)
    } else if !is_encrypted_text(encode_utf8(message)) {
        Some(SendError::NotEncrypted)
    } else {
        None
    }
}

/// The room windows after a post: the room is asked only if the limiter for
/// all rooms admitted the post.
pub open spec fn room_windows_after(
    global: Seq<u64>,
    rooms: Map<Seq<char>, Seq<u64>>,
    room_id: Seq<char>,
    now: u64,
) -> Map<Seq<char>, Seq<u64>> {
    if admits(global, now, TIME_WINDOW, MESSAGE_LIMIT as nat) {
        after_room_attempt(rooms, room_id, now)
    } else {
        rooms
    }
}

/// What a post with verdict `verdict` does to the store. An accepted post
/// finds space made in its room and the message, stamped `now`, at the end
/// of it. A post refused for not being encrypted finds the space made all
/// the same. A post refused earlier leaves the store as it was.
pub open spec fn stored(
    before: Map<Seq<char>, Seq<Message>>,
    after: Map<Seq<char>, Seq<Message>>,
    verdict: Option<SendError>,
    message: Seq<char>,
    room_id: Seq<char>,
    now: u64,
) -> bool {
    let space = reserved(entries_of(before, room_id));
    match verdict {
        None => {
            &&& after.dom().contains(room_id)
            &&& after == before.insert(room_id, after[room_id])
            &&& after[room_id].len() == space.len() + 1
            &&& after[room_id].drop_last() == space
            &&& after[room_id].last().content@ == message
            &&& after[room_id].last().timestamp == now
        },
        Some(SendError::NotEncrypted) => after == before.insert(room_id, space),
        Some(_) => after == before,
    }
}

/// Where the sender of an accepted post is sent: the page of the room.
pub open spec fn redirect_target(room_id: Seq<char>) -> Seq<char> {
    "/?room_id="@ + room_id
}

/// What a post of `message` to room `room_id` at `now` does and returns.
pub open spec fn posted(
    limiter_before: RateLimiter,
    limiter_after: RateLimiter,
    store_before: MessageStore,
    store_after: MessageStore,
    message: Seq<char>,
    room_id: Seq<char>,
    now: u64,
    result: Result<String, SendError>,
) -> bool {
    let global = limiter_before.global();
    let rooms = limiter_before.rooms();
    let verdict = verdict(global, rooms, message, room_id, now);
    &&& limiter_after.global() == after_attempt(global, now, TIME_WINDOW, MESSAGE_LIMIT as nat)
    &&& limiter_after.rooms() == room_windows_after(global, rooms, room_id, now)
    &&& stored(store_before@, store_after@, verdict, message, room_id, now)
    &&& match result {
        Ok(target) => verdict is None && target@ == redirect_target(room_id),
        Err(error) => verdict == Some(error),
    }
}

/// Posts `message` to room `room_id` at time `now`.
pub fn post(
    limiter: &mut RateLimiter,
    store: &mut MessageStore,
    message: &str,
    room_id: &str,
    now: u64,
) -> (result: Result<String, SendError>)
    requires
        old(limiter).wf(),
        old(store).wf(),
    ensures
        final(limiter).wf(),
        final(store).wf(),
        posted(
            *old(limiter),
            *final(limiter),
            *old(store),
            *final(store),
            message@,
            room_id@,
            now,
            result,
        ),
{
    if !limiter.check_message_limit(now) {
        return Err(SendError::GlobalRateLimit);
    }
    if !limiter.check_room_rate_limit(room_id, now) {
        return Err(SendError::RoomRateLimit);
    }
    if room_id.unicode_len() < MIN_ROOM_ID_LENGTH {
        return Err(SendError::RoomIdTooShort);
    }
    if !store.is_message_valid(message, room_id) {
        return Err(SendError::InvalidMessage);
    }
    if !is_message_encrypted(message) {
        return Err(SendError::NotEncrypted);
    }
    let ghost before = old(store)@;
    let ghost space = reserved(entries_of(before, room_id@));
    assert(entries_of(store@, room_id@) == space);
    store.append(room_id, message.to_owned(), now);
    proof {
        assert(store@[room_id@].drop_last() =~= space);
        assert(store@ =~= before.insert(room_id@, store@[room_id@]));
    }
    let mut target = String::from_str("/?room_id=");
    target.append(room_id);
    Ok(target)
}

/// Posts a message as it came in: message and room identifier are posted
/// without the white space at their start and at their end.
pub fn send(
    limiter: &mut RateLimiter,
    store: &mut MessageStore,
    message: &str,
    room_id: &str,
    now: u64,
) -> (result: Result<String, SendError>)
    requires
        old(limiter).wf(),
        old(store).wf(),
    ensures
        final(limiter).wf(),
        final(store).wf(),
        posted(
            *old(limiter),
            *final(limiter),
            *old(store),
            *final(store),
            trimmed(message@),
            trimmed(room_id@),
            now,
            result,
        ),
{
    let message = trim(message);
    let room_id = trim(room_id);
    post(limiter, store, message.as_str(), room_id.as_str(), now)
}

/// What the sender of a refused post is told.
pub open spec fn error_text(error: SendError, room_id: Seq<char>) -> Seq<char> {
    match error {
        SendError::GlobalRateLimit => "Too many messages sent globally. Try again later."@,
        SendError::RoomRateLimit => "Too many messages sent to room "@ + escaped(room_id)
            + ". Try again later."@,
        SendError::RoomIdTooShort => "Room ID must be at least 8 characters."@,
        SendError::InvalidMessage => "Invalid message (too long or storage full)."@,
        SendError::NotEncrypted => "Message is not encrypted. Please encrypt before sending."@,
    }
}

impl SendError {
    /// What the sender of a post to room `room_id` is told when the post is
    /// refused for this reason. The room identifier is escaped.
    pub fn message(&self, room_id: &str) -> (text: String)
        ensures
            text@ == error_text(*self, room_id@),
    {
        match self {
            SendError::GlobalRateLimit => String::from_str(
                "Too many messages sent globally. Try again later.",
            ),
            SendError::RoomRateLimit => {
                let mut text = String::from_str("Too many messages sent to room ");
                text.append(encode_text(room_id).as_str());
                text.append(". Try again later.");
                text
            },
            SendError::RoomIdTooShort => String::from_str("Room ID must be at least 8 characters."),
            SendError::InvalidMessage => String::from_str(
                "Invalid message (too long or storage full).",
            ),
            SendError::NotEncrypted => String::from_str(
                "Message is not encrypted. Please encrypt before sending.",
            ),
        }
    }
}

} // verus!
