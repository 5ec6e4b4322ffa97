//! The rate limiter: one window over all rooms, and one window per room.
//!
//! A caller asks the limiter for all rooms first and for the room second. An
//! admission by the first is not given back when the second refuses.

use vstd::prelude::*;
use crate::limits::{MESSAGE_LIMIT, ROOM_MESSAGE_LIMIT, ROOM_TIME_WINDOW, TIME_WINDOW};
use crate::rooms::{entries_of, RoomTable};
use crate::window::{
    admits, admitted_at, admitted_count, after_attempt, lemma_admitted_after_window,
    lemma_at_most_limit_admitted, lemma_burst_is_cut_at_limit, try_admit, within_one_window,
};

verus! {

/// Whether an attempt on room `id` at `now` is admitted by the room windows
/// `rooms`.
pub open spec fn room_admits(rooms: Map<Seq<char>, Seq<u64>>, id: Seq<char>, now: u64) -> bool {
    admits(entries_of(rooms, id), now, ROOM_TIME_WINDOW, ROOM_MESSAGE_LIMIT as nat)
}

/// The room windows after an attempt on room `id` at `now`. The window of the
/// room exists afterwards; no other window changes.
pub open spec fn after_room_attempt(
    rooms: Map<Seq<char>, Seq<u64>>,
    id: Seq<char>,
    now: u64,
) -> Map<Seq<char>, Seq<u64>> {
    rooms.insert(
        id,
        after_attempt(entries_of(rooms, id), now, ROOM_TIME_WINDOW, ROOM_MESSAGE_LIMIT as nat),
    )
}

/// The room windows after a run of attempts on room `id`, one at each time of
/// `times`, in order.
pub open spec fn after_room_attempts(
    rooms: Map<Seq<char>, Seq<u64>>,
    id: Seq<char>,
    times: Seq<u64>,
) -> Map<Seq<char>, Seq<u64>>
    decreases times.len(),
{
    if times.len() == 0 {
        rooms
    } else {
        after_room_attempt(after_room_attempts(rooms, id, times.drop_last()), id, times.last())
    }
}

/// Rooms are limited independently. Whatever is attempted on room `a`, and
/// however often, the window of another room `b` is what it was, and so is
/// the answer that `b` gets.
pub proof fn lemma_rooms_are_independent(
    rooms: Map<Seq<char>, Seq<u64>>,
    a: Seq<char>,
    times: Seq<u64>,
    b: Seq<char>,
    now: u64,
)
    requires
        a != b,
    ensures
        entries_of(after_room_attempts(rooms, a, times), b) == entries_of(rooms, b),
        room_admits(after_room_attempts(rooms, a, times), b, now) == room_admits(rooms, b, now),
        after_room_attempt(after_room_attempts(rooms, a, times), b, now)[b] == after_room_attempt(
            rooms,
            b,
            now,
        )[b],
    decreases times.len(),
{
    if times.len() > 0 {
        lemma_rooms_are_independent(rooms, a, times.drop_last(), b, now);
    }
}

/// Of a burst of attempts within `TIME_WINDOW` seconds on a limiter that has
/// admitted nothing yet, the window over all rooms admits the first
/// `MESSAGE_LIMIT` and rejects every later one.
pub proof fn lemma_global_burst_is_cut(times: Seq<u64>, k: int)
    requires
        within_one_window(times, TIME_WINDOW),
        0 <= k < times.len(),
    ensures
        admitted_at(Seq::empty(), times, k, TIME_WINDOW, MESSAGE_LIMIT as nat) == (k
            < MESSAGE_LIMIT),
{
    lemma_burst_is_cut_at_limit(times, k, TIME_WINDOW, MESSAGE_LIMIT as nat);
}

/// Whatever the window over all rooms held, it admits no more than
/// `MESSAGE_LIMIT` of the attempts made within `TIME_WINDOW` seconds.
pub proof fn lemma_global_window_is_never_overdrawn(stamps: Seq<u64>, times: Seq<u64>)
    requires
        within_one_window(times, TIME_WINDOW),
    ensures
        admitted_count(stamps, times, TIME_WINDOW, MESSAGE_LIMIT as nat) <= MESSAGE_LIMIT,
{
    lemma_at_most_limit_admitted(stamps, times, TIME_WINDOW, MESSAGE_LIMIT as nat);
}

/// Once more than `TIME_WINDOW` seconds have passed since the last admission,
/// the window over all rooms admits again, however full it was.
pub proof fn lemma_global_window_recovers(stamps: Seq<u64>, now: u64)
    requires
        forall|i: int| 0 <= i < stamps.len() ==> now - #[trigger] stamps[i] > TIME_WINDOW,
    ensures
        admits(stamps, now, TIME_WINDOW, MESSAGE_LIMIT as nat),
        after_attempt(stamps, now, TIME_WINDOW, MESSAGE_LIMIT as nat) == seq![now],
{
    lemma_admitted_after_window(stamps, now, TIME_WINDOW, MESSAGE_LIMIT as nat);
}

/// The windows of the rate limiter.
pub struct RateLimiter {
    global: Vec<u64>,
    rooms: RoomTable<u64>,
}

impl RateLimiter {
    /// The window over all rooms: the times of the admitted attempts that
    /// were still inside it at the last attempt, oldest first.
    pub closed spec fn global(&self) -> Seq<u64> {
        self.global@
    }

    /// The window of each room that was ever asked for.
    pub closed spec fn rooms(&self) -> Map<Seq<char>, Seq<u64>> {
        self.rooms@
    }

    /// The representation is sound.
    pub closed spec fn wf(&self) -> bool {
        self.rooms.wf()
    }

    /// A limiter that has seen no attempt.
    pub fn new() -> (limiter: RateLimiter)
        ensures
            limiter.wf(),
            limiter.global() == Seq::<u64>::empty(),
            limiter.rooms() == Map::<Seq<char>, Seq<u64>>::empty(),
    {
        RateLimiter { global: Vec::new(), rooms: RoomTable::new() }
    }

    /// One attempt at `now` against the window over all rooms:
    /// `MESSAGE_LIMIT` admissions within `TIME_WINDOW` seconds.
    pub fn check_message_limit(&mut self, now: u64) -> (admitted: bool)
        requires
            old(self).wf(),
        ensures
            final(self).wf(),
            admitted == admits(old(self).global(), now, TIME_WINDOW, MESSAGE_LIMIT as nat),
            final(self).global() == after_attempt(
                old(self).global(),
                now,
                TIME_WINDOW,
                MESSAGE_LIMIT as nat,
            ),
            final(self).rooms() == old(self).rooms(),
    {
        try_admit(&mut self.global, now, TIME_WINDOW, MESSAGE_LIMIT)
    }

    /// One attempt at `now` against the window of room `room_id`:
    /// `ROOM_MESSAGE_LIMIT` admissions within `ROOM_TIME_WINDOW` seconds. The
    /// window is created on the first attempt.
    pub fn check_room_rate_limit(&mut self, room_id: &str, now: u64) -> (admitted: bool)
        requires
            old(self).wf(),
        ensures
            final(self).wf(),
            admitted == room_admits(old(self).rooms(), room_id@, now),
            final(self).rooms() == after_room_attempt(old(self).rooms(), room_id@, now),
            final(self).global() == old(self).global(),
    {
        let i = self.rooms.open(room_id);
        let window = self.rooms.room_mut(i);
        try_admit(window, now, ROOM_TIME_WINDOW, ROOM_MESSAGE_LIMIT)
    }
}

} // verus!
