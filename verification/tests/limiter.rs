use ephemeral_relay::limiter::RateLimiter;
use ephemeral_relay::limits::{MESSAGE_LIMIT, ROOM_MESSAGE_LIMIT, ROOM_TIME_WINDOW, TIME_WINDOW};
use ephemeral_relay::window::{prune, try_admit};

#[test]
fn prune_keeps_stamps_inside_the_window_in_order() {
    let mut stamps: Vec<u64> = vec![10, 39, 40, 41, 100, 70];
    prune(&mut stamps, 100, 60);
    assert_eq!(stamps, vec![40, 41, 100, 70]);
}

#[test]
fn prune_keeps_a_stamp_exactly_as_old_as_the_window() {
    let mut stamps: Vec<u64> = vec![0, 1];
    prune(&mut stamps, 61, 60);
    assert_eq!(stamps, vec![1]);
}

#[test]
fn prune_keeps_stamps_from_after_now() {
    let mut stamps: Vec<u64> = vec![500, 5];
    prune(&mut stamps, 100, 60);
    assert_eq!(stamps, vec![500]);
}

#[test]
fn prune_of_an_empty_window() {
    let mut stamps: Vec<u64> = Vec::new();
    prune(&mut stamps, 100, 60);
    assert!(stamps.is_empty());
}

#[test]
fn try_admit_stamps_an_admitted_attempt() {
    let mut stamps: Vec<u64> = vec![1, 2];
    assert!(try_admit(&mut stamps, 3, 60, 3));
    assert_eq!(stamps, vec![1, 2, 3]);
}

#[test]
fn try_admit_rejects_at_the_limit_and_only_prunes() {
    let mut stamps: Vec<u64> = vec![1, 50, 60, 70];
    assert!(!try_admit(&mut stamps, 100, 60, 3));
    assert_eq!(stamps, vec![50, 60, 70]);
}

#[test]
fn try_admit_prunes_before_it_counts() {
    let mut stamps: Vec<u64> = vec![1, 2, 3];
    assert!(try_admit(&mut stamps, 100, 60, 3));
    assert_eq!(stamps, vec![100]);
}

#[test]
fn try_admit_with_limit_zero_admits_nothing() {
    let mut stamps: Vec<u64> = Vec::new();
    assert!(!try_admit(&mut stamps, 5, 60, 0));
    assert!(stamps.is_empty());
}

#[test]
fn global_window_admits_two_hundred_then_rejects() {
    let mut limiter = RateLimiter::new();
    for k in 0..MESSAGE_LIMIT {
        assert!(limiter.check_message_limit(1000), "attempt {}", k + 1);
    }
    for _ in 0..50 {
        assert!(!limiter.check_message_limit(1000));
    }
    assert!(!limiter.check_message_limit(1000 + TIME_WINDOW));
}

#[test]
fn global_window_admits_again_once_the_window_has_passed() {
    let mut limiter = RateLimiter::new();
    for _ in 0..MESSAGE_LIMIT {
        assert!(limiter.check_message_limit(1000));
    }
    assert!(!limiter.check_message_limit(1030));
    assert!(limiter.check_message_limit(1000 + TIME_WINDOW + 1));
}

#[test]
fn global_window_slides_stamp_by_stamp() {
    let mut limiter = RateLimiter::new();
    for k in 0..MESSAGE_LIMIT {
        assert!(limiter.check_message_limit(k as u64));
    }
    assert!(limiter.check_message_limit(210));
    assert!(limiter.check_message_limit(210));
}

#[test]
fn room_window_admits_sixty_then_rejects() {
    let mut limiter = RateLimiter::new();
    for _ in 0..ROOM_MESSAGE_LIMIT {
        assert!(limiter.check_room_rate_limit("roomAAAAA", 7));
    }
    assert!(!limiter.check_room_rate_limit("roomAAAAA", 7));
    assert!(!limiter.check_room_rate_limit("roomAAAAA", 7 + ROOM_TIME_WINDOW));
    assert!(limiter.check_room_rate_limit("roomAAAAA", 7 + ROOM_TIME_WINDOW + 1));
}

#[test]
fn rooms_are_limited_independently() {
    let mut limiter = RateLimiter::new();
    for _ in 0..ROOM_MESSAGE_LIMIT + 10 {
        limiter.check_room_rate_limit("roomAAAAA", 7);
    }
    assert!(!limiter.check_room_rate_limit("roomAAAAA", 7));
    for _ in 0..ROOM_MESSAGE_LIMIT {
        assert!(limiter.check_room_rate_limit("roomBBBBB", 7));
    }
    assert!(!limiter.check_room_rate_limit("roomBBBBB", 7));
}

#[test]
fn room_identifiers_are_not_normalised() {
    let mut limiter = RateLimiter::new();
    for _ in 0..ROOM_MESSAGE_LIMIT {
        assert!(limiter.check_room_rate_limit("Room", 7));
    }
    assert!(!limiter.check_room_rate_limit("Room", 7));
    assert!(limiter.check_room_rate_limit("room", 7));
    assert!(limiter.check_room_rate_limit("Room ", 7));
    assert!(limiter.check_room_rate_limit("", 7));
}

#[test]
fn room_attempts_do_not_use_the_global_window() {
    let mut limiter = RateLimiter::new();
    for _ in 0..300 {
        limiter.check_room_rate_limit("roomAAAAA", 7);
    }
    for _ in 0..MESSAGE_LIMIT {
        assert!(limiter.check_message_limit(7));
    }
    assert!(!limiter.check_message_limit(7));
    assert!(limiter.check_room_rate_limit("roomBBBBB", 7));
}
