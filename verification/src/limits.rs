//! The fixed limits of the relay.

use vstd::prelude::*;

verus! {

/// Width, in seconds, of the window over which all rooms together are limited.
pub const TIME_WINDOW: u64 = 60;

/// Messages admitted over all rooms within one `TIME_WINDOW`.
pub const MESSAGE_LIMIT: usize = 200;

/// Width, in seconds, of the window over which a single room is limited.
pub const ROOM_TIME_WINDOW: u64 = 60;

/// Messages admitted to a single room within one `ROOM_TIME_WINDOW`.
pub const ROOM_MESSAGE_LIMIT: usize = 60;

/// Longest message accepted, in bytes.
pub const MAX_MESSAGE_LENGTH: usize = 5242880;

/// Messages a room retains; the oldest makes way for a newer one.
pub const RECENT_MESSAGE_LIMIT: usize = 200;

/// Age, in seconds, beyond which a message is expired.
pub const MESSAGE_EXPIRY_DURATION: u64 = 600;

/// Requests the server handles at the same time.
pub const MAX_ACTIVE_REQUESTS: usize = 100;

/// Shortest room identifier accepted, in characters.
pub const MIN_ROOM_ID_LENGTH: usize = 8;

/// Length of the kill-switch secret, in bytes.
pub const SECRET_LENGTH: usize = 64;

} // verus!
