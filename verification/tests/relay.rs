use ephemeral_relay::limiter::RateLimiter;
use ephemeral_relay::relay::{post, send, SendError};
use ephemeral_relay::store::MessageStore;

const SEALED: &str = "-----BEGIN ENCRYPTED MESSAGE-----\nQUJD\n-----END ENCRYPTED MESSAGE-----";

#[test]
fn an_accepted_post_is_stored_and_redirects_to_the_room() {
    let mut limiter = RateLimiter::new();
    let mut store = MessageStore::new();
    let result = send(&mut limiter, &mut store, SEALED, "roomAAAAA", 1234);
    assert_eq!(result, Ok("/?room_id=roomAAAAA".to_string()));
    let room = store.snapshot("roomAAAAA");
    assert_eq!(room.len(), 1);
    assert_eq!(room[0].content, SEALED);
    assert_eq!(room[0].timestamp, 1234);
}

#[test]
fn message_and_room_identifier_are_trimmed() {
    let mut limiter = RateLimiter::new();
    let mut store = MessageStore::new();
    let padded = format!("  \n{}\t\n ", SEALED);
    let result = send(&mut limiter, &mut store, &padded, " \troomAAAAA\n", 1);
    assert_eq!(result, Ok("/?room_id=roomAAAAA".to_string()));
    assert!(store.room(" \troomAAAAA\n").is_none());
    assert_eq!(store.snapshot("roomAAAAA")[0].content, SEALED);
}

#[test]
fn post_does_not_trim() {
    let mut limiter = RateLimiter::new();
    let mut store = MessageStore::new();
    let result = post(&mut limiter, &mut store, "KYBER_PUBLIC_KEY:k ", " roomAAAAA", 1);
    assert_eq!(result, Ok("/?room_id= roomAAAAA".to_string()));
    assert_eq!(store.snapshot(" roomAAAAA")[0].content, "KYBER_PUBLIC_KEY:k ");
    let result = post(&mut limiter, &mut store, " KYBER_PUBLIC_KEY:k", "roomAAAAA", 1);
    assert_eq!(result, Err(SendError::NotEncrypted));
}

#[test]
fn sixty_messages_to_one_room_within_a_second_exhaust_that_room_only() {
    let mut limiter = RateLimiter::new();
    let mut store = MessageStore::new();
    for k in 0..60 {
        let result = send(&mut limiter, &mut store, SEALED, "roomAAAAA", 1000);
        assert!(result.is_ok(), "attempt {}", k + 1);
    }
    let result = send(&mut limiter, &mut store, SEALED, "roomAAAAA", 1000);
    assert_eq!(result, Err(SendError::RoomRateLimit));
    assert_eq!(store.snapshot("roomAAAAA").len(), 60);
    let result = send(&mut limiter, &mut store, SEALED, "roomBBBBB", 1000);
    assert_eq!(result, Ok("/?room_id=roomBBBBB".to_string()));
    assert_eq!(store.snapshot("roomBBBBB").len(), 1);
}

#[test]
fn two_hundred_messages_within_a_window_exhaust_all_rooms() {
    let mut limiter = RateLimiter::new();
    let mut store = MessageStore::new();
    let rooms = ["roomAAAAA", "roomBBBBB", "roomCCCCC", "roomDDDDD"];
    for k in 0..200 {
        let result = send(&mut limiter, &mut store, SEALED, rooms[k % 4], 1000 + (k as u64 % 60));
        assert!(result.is_ok(), "attempt {}", k + 1);
    }
    for room in rooms {
        let result = send(&mut limiter, &mut store, SEALED, room, 1059);
        assert_eq!(result, Err(SendError::GlobalRateLimit));
    }
    let result = send(&mut limiter, &mut store, SEALED, "roomEEEEE", 1059);
    assert_eq!(result, Err(SendError::GlobalRateLimit));
    assert!(store.room("roomEEEEE").is_none());
    let result = send(&mut limiter, &mut store, SEALED, "roomEEEEE", 1000 + 59 + 61);
    assert_eq!(result, Ok("/?room_id=roomEEEEE".to_string()));
}

#[test]
fn a_post_refused_by_its_room_has_used_the_window_over_all_rooms() {
    let mut limiter = RateLimiter::new();
    let mut store = MessageStore::new();
    for _ in 0..60 {
        assert!(send(&mut limiter, &mut store, SEALED, "roomAAAAA", 5).is_ok());
    }
    for _ in 0..140 {
        assert_eq!(
            send(&mut limiter, &mut store, SEALED, "roomAAAAA", 5),
            Err(SendError::RoomRateLimit)
        );
    }
    assert_eq!(
        send(&mut limiter, &mut store, SEALED, "roomBBBBB", 5),
        Err(SendError::GlobalRateLimit)
    );
}

#[test]
fn a_room_identifier_of_seven_characters_is_refused() {
    let mut limiter = RateLimiter::new();
    let mut store = MessageStore::new();
    assert_eq!(
        send(&mut limiter, &mut store, SEALED, "roomAAA", 5),
        Err(SendError::RoomIdTooShort)
    );
    assert_eq!(send(&mut limiter, &mut store, "plain", "roomAAA", 5), Err(SendError::RoomIdTooShort));
    assert_eq!(send(&mut limiter, &mut store, SEALED, "", 5), Err(SendError::RoomIdTooShort));
    assert_eq!(
        send(&mut limiter, &mut store, SEALED, "   roomAAA   ", 5),
        Err(SendError::RoomIdTooShort)
    );
    assert!(store.room("roomAAA").is_none());
    assert!(send(&mut limiter, &mut store, SEALED, "roomAAAA", 5).is_ok());
}

#[test]
fn a_short_room_identifier_is_refused_whatever_the_limiter_says() {
    let mut limiter = RateLimiter::new();
    let mut store = MessageStore::new();
    for _ in 0..60 {
        assert_eq!(
            send(&mut limiter, &mut store, SEALED, "roomAAA", 5),
            Err(SendError::RoomIdTooShort)
        );
    }
    assert_eq!(send(&mut limiter, &mut store, SEALED, "roomAAA", 5), Err(SendError::RoomRateLimit));
    for _ in 0..300 {
        assert!(send(&mut limiter, &mut store, SEALED, "roomAAA", 5).is_err());
    }
    assert!(store.room("roomAAA").is_none());
}

#[test]
fn the_length_of_a_room_identifier_is_counted_in_characters() {
    let mut limiter = RateLimiter::new();
    let mut store = MessageStore::new();
    let seven = "\u{e9}\u{e9}\u{e9}\u{e9}\u{e9}\u{e9}\u{e9}";
    assert_eq!(seven.len(), 14);
    assert_eq!(send(&mut limiter, &mut store, SEALED, seven, 5), Err(SendError::RoomIdTooShort));
    let eight = "\u{e9}\u{e9}\u{e9}\u{e9}\u{e9}\u{e9}\u{e9}\u{4e2d}";
    assert!(send(&mut limiter, &mut store, SEALED, eight, 5).is_ok());
    assert_eq!(store.snapshot(eight).len(), 1);
}

#[test]
fn a_message_that_is_too_long_is_refused_and_the_store_is_untouched() {
    let mut limiter = RateLimiter::new();
    let mut store = MessageStore::new();
    let long = "a".repeat(5 * 1024 * 1024 + 1);
    assert_eq!(
        send(&mut limiter, &mut store, &long, "roomAAAAA", 5),
        Err(SendError::InvalidMessage)
    );
    assert!(store.room("roomAAAAA").is_none());
}

#[test]
fn a_message_that_is_not_encrypted_is_refused_after_space_was_made() {
    let mut limiter = RateLimiter::new();
    let mut store = MessageStore::new();
    for k in 0..200 {
        store.append("roomAAAAA", format!("m{}", k), 0);
    }
    assert_eq!(
        send(&mut limiter, &mut store, "hello", "roomAAAAA", 5),
        Err(SendError::NotEncrypted)
    );
    let room = store.snapshot("roomAAAAA");
    assert_eq!(room.len(), 199);
    assert_eq!(room[0].content, "m1");
    assert_eq!(send(&mut limiter, &mut store, "hi", "roomBBBBB", 5), Err(SendError::NotEncrypted));
    assert!(store.room("roomBBBBB").unwrap().is_empty());
}

#[test]
fn a_room_never_holds_more_than_two_hundred_messages() {
    let mut limiter = RateLimiter::new();
    let mut store = MessageStore::new();
    for k in 0..450u64 {
        let text = format!("KYBER_PUBLIC_KEY:{}", k);
        assert!(send(&mut limiter, &mut store, &text, "roomAAAAA", k * 2).is_ok());
        assert!(store.snapshot("roomAAAAA").len() <= 200);
    }
    let room = store.snapshot("roomAAAAA");
    assert_eq!(room.len(), 200);
    assert_eq!(room[0].content, "KYBER_PUBLIC_KEY:250");
    assert_eq!(room[199].content, "KYBER_PUBLIC_KEY:449");
}

#[test]
fn what_a_refused_sender_is_told() {
    assert_eq!(
        SendError::GlobalRateLimit.message("roomAAAAA"),
        "Too many messages sent globally. Try again later."
    );
    assert_eq!(
        SendError::RoomRateLimit.message("room<A&B>"),
        "Too many messages sent to room room&lt;A&amp;B&gt;. Try again later."
    );
    assert_eq!(
        SendError::RoomIdTooShort.message("roomAAAAA"),
        "Room ID must be at least 8 characters."
    );
    assert_eq!(
        SendError::InvalidMessage.message("roomAAAAA"),
        "Invalid message (too long or storage full)."
    );
    assert_eq!(
        SendError::NotEncrypted.message("roomAAAAA"),
        "Message is not encrypted. Please encrypt before sending."
    );
}
