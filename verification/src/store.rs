//! The message store.
//!
//! Each room holds its messages in the order in which they arrived, which is
//! the order in which they are shown. A room never holds more than
//! `RECENT_MESSAGE_LIMIT` messages, and a message leaves a room in one way
//! only: its content is erased, then it is removed.

use vstd::prelude::*;
use vstd::string::StringSliceAdditionalSpecFns;
use crate::limits::{MAX_MESSAGE_LENGTH, MESSAGE_EXPIRY_DURATION, RECENT_MESSAGE_LIMIT};
use crate::rooms::{entries_of, RoomTable};

verus! {

/// A stored message: the text as the client sent it, and the time of its
/// admission in seconds since the epoch.
#[derive(Debug, Clone)]
pub struct Message {
    pub content: String,
    pub timestamp: u64,
}

/// Calls `zeroize::Zeroize::zeroize` on a `String`, which overwrites the whole
/// buffer of the string with zeros and then sets its length to zero. Of this
/// the contract can state only the second part: the text is empty afterwards.
#[verifier::external_body]
fn zeroize_text(text: &mut String)
    ensures
        final(text)@ == Seq::<char>::empty(),
{
    zeroize::Zeroize::zeroize(text);
}

/// Erases the content of a message. The time of the message stays.
pub fn wipe_message_content(message: &mut Message)
    ensures
        final(message).content@ == Seq::<char>::empty(),
        final(message).timestamp == old(message).timestamp,
{
    zeroize_text(&mut message.content);
}

/// Erases the message at `index`, then removes it from the room. What is
/// handed back is what is left of the message: its time, and no content.
pub fn erase_and_remove(room: &mut Vec<Message>, index: usize) -> (husk: Message)
    requires
        index < old(room).len(),
    ensures
        final(room)@ == old(room)@.remove(index as int),
        husk.content@ == Seq::<char>::empty(),
        husk.timestamp == old(room)@[index as int].timestamp,
{
    wipe_message_content(&mut room[index]);
    room.remove(index)
}

/// Erases every message of the room, then removes them all. The husks are
/// handed back in the order the messages had.
pub fn erase_and_clear(room: &mut Vec<Message>) -> (husks: Vec<Message>)
    ensures
        final(room)@ == Seq::<Message>::empty(),
        husks.len() == old(room).len(),
        forall|i: int|
            0 <= i < husks.len() ==> (#[trigger] husks[i]).content@ == Seq::<char>::empty()
                && husks[i].timestamp == old(room)@[i].timestamp,
{
    let ghost before = room@;
    let mut i: usize = 0;
    while i < room.len()
        invariant
            i <= room.len(),
            room.len() == before.len(),
            forall|j: int|
                0 <= j < room.len() ==> (#[trigger] room[j]).timestamp == before[j].timestamp,
            forall|j: int| 0 <= j < i ==> (#[trigger] room[j]).content@ == Seq::<char>::empty(),
        decreases room.len() - i,
    {
        wipe_message_content(&mut room[i]);
        i = i + 1;
    }
    let mut husks: Vec<Message> = Vec::new();
    core::mem::swap(room, &mut husks);
    husks
}

/// Whether every room of `rooms` is within the cap.
pub open spec fn within_cap(rooms: Map<Seq<char>, Seq<Message>>) -> bool {
    forall|id: Seq<char>| #[trigger]
        rooms.dom().contains(id) ==> rooms[id].len() <= RECENT_MESSAGE_LIMIT
}

/// A room after space was made for one more message: at the cap it loses its
/// oldest message, below the cap it is unchanged.
pub open spec fn reserved(room: Seq<Message>) -> Seq<Message> {
    if room.len() >= RECENT_MESSAGE_LIMIT {
        room.remove(0)
    } else {
        room
    }
}

/// Whether a message admitted at `timestamp` is expired at `now`. A message
/// stamped after `now` has no age yet and is not expired.
pub open spec fn is_expired(timestamp: u64, now: u64) -> bool {
    now - timestamp > MESSAGE_EXPIRY_DURATION
}

/// The position of the first expired message of `room`, or the length of
/// `room` if none is expired.
pub open spec fn first_expired(room: Seq<Message>, now: u64) -> int
    decreases room.len(),
{
    if room.len() == 0 || is_expired(room[0].timestamp, now) {
        0
    } else {
        1 + first_expired(room.drop_first(), now)
    }
}

/// A room after one sweep: without its first expired message, if it has one.
pub open spec fn swept_room(room: Seq<Message>, now: u64) -> Seq<Message> {
    if first_expired(room, now) < room.len() {
        room.remove(first_expired(room, now))
    } else {
        room
    }
}

/// The rooms after one sweep of each.
pub open spec fn swept(rooms: Map<Seq<char>, Seq<Message>>, now: u64) -> Map<
    Seq<char>,
    Seq<Message>,
> {
    Map::new(|id: Seq<char>| rooms.dom().contains(id), |id: Seq<char>| swept_room(rooms[id], now))
}

/// The rooms after a wipe: the same rooms, all empty.
pub open spec fn erased(rooms: Map<Seq<char>, Seq<Message>>) -> Map<Seq<char>, Seq<Message>> {
    Map::new(|id: Seq<char>| rooms.dom().contains(id), |id: Seq<char>| Seq::<Message>::empty())
}

/// `first_expired` is the least position of an expired message.
pub proof fn lemma_first_expired(room: Seq<Message>, now: u64)
    ensures
        0 <= first_expired(room, now) <= room.len(),
        forall|j: int|
            0 <= j < first_expired(room, now) ==> !is_expired((#[trigger] room[j]).timestamp, now),
        first_expired(room, now) < room.len() ==> is_expired(
            room[first_expired(room, now)].timestamp,
            now,
        ),
    decreases room.len(),
{
    if room.len() == 0 || is_expired(room[0].timestamp, now) {
    } else {
        let rest = room.drop_first();
        lemma_first_expired(rest, now);
        assert forall|j: int| 0 <= j < first_expired(room, now) implies !is_expired(
            (#[trigger] room[j]).timestamp,
            now,
        ) by {
            if j > 0 {
                assert(room[j] == rest[j - 1]);
            }
        }
        if first_expired(room, now) < room.len() {
            assert(room[first_expired(room, now)] == rest[first_expired(rest, now)]);
        }
    }
}

/// A position is `first_expired` if nothing before it is expired and it is
/// itself expired or the end of the room.
pub proof fn lemma_first_expired_is(room: Seq<Message>, now: u64, i: int)
    requires
        0 <= i <= room.len(),
        forall|j: int| 0 <= j < i ==> !is_expired((#[trigger] room[j]).timestamp, now),
        i < room.len() ==> is_expired(room[i].timestamp, now),
    ensures
        first_expired(room, now) == i,
{
    lemma_first_expired(room, now);
    let f = first_expired(room, now);
    if f < i {
        assert(!is_expired(room[f].timestamp, now));
    } else if i < f {
        assert(!is_expired(room[i].timestamp, now));
    }
}

/// The rooms and their messages.
pub struct MessageStore {
    table: RoomTable<Message>,
}

impl View for MessageStore {
    type V = Map<Seq<char>, Seq<Message>>;

    /// The store as a map from room identifier to the room's messages, oldest
    /// first.
    closed spec fn view(&self) -> Map<Seq<char>, Seq<Message>> {
        self.table@
    }
}

impl MessageStore {
    /// The representation is sound.
    pub closed spec fn is_sound(&self) -> bool {
        self.table.wf()
    }

    /// A store is valid if its representation is sound and no room holds more
    /// than `RECENT_MESSAGE_LIMIT` messages.
    pub open spec fn wf(&self) -> bool {
        &&& self.is_sound()
        &&& within_cap(self@)
    }

    /// A store without rooms.
    pub fn new() -> (store: MessageStore)
        ensures
            store.wf(),
            store@ == Map::<Seq<char>, Seq<Message>>::empty(),
    {
        MessageStore { table: RoomTable::new() }
    }

    /// Checks the length of a message and makes space for it in its room.
    ///
    /// A message longer than `MAX_MESSAGE_LENGTH` bytes is refused and the
    /// store is left as it was. Otherwise the room exists afterwards, and if
    /// it was at the cap its oldest message has been erased and removed, so
    /// that one more message fits.
    pub fn is_message_valid(&mut self, message: &str, room_id: &str) -> (valid: bool)
        requires
            old(self).wf(),
        ensures
            final(self).wf(),
            valid == (message.spec_bytes().len() <= MAX_MESSAGE_LENGTH),
            !valid ==> final(self)@ == old(self)@,
            valid ==> final(self)@ == old(self)@.insert(
                room_id@,
                reserved(entries_of(old(self)@, room_id@)),
            ),
            valid ==> entries_of(final(self)@, room_id@).len() < RECENT_MESSAGE_LIMIT,
    {
        if message.as_bytes().len() > MAX_MESSAGE_LENGTH {
            return false;
        }
        let i = self.table.open(room_id);
        let room = self.table.room_mut(i);
        if room.len() >= RECENT_MESSAGE_LIMIT {
            let _ = erase_and_remove(room, 0);
        }
        true
    }

    /// Appends a message to its room, which is created if need be. The room
    /// must have space: `is_message_valid` makes it.
    pub fn append(&mut self, room_id: &str, content: String, timestamp: u64)
        requires
            old(self).wf(),
            entries_of(old(self)@, room_id@).len() < RECENT_MESSAGE_LIMIT,
        ensures
            final(self).wf(),
            final(self)@ == old(self)@.insert(
                room_id@,
                entries_of(old(self)@, room_id@).push(Message { content, timestamp }),
            ),
    {
        let i = self.table.open(room_id);
        let room = self.table.room_mut(i);
        room.push(Message { content, timestamp });
    }

    /// The messages of a room, if the store has seen the room.
    pub fn room(&self, room_id: &str) -> (found: Option<&Vec<Message>>)
        requires
            self.wf(),
        ensures
            match found {
                Some(room) => self@.dom().contains(room_id@) && room@ == self@[room_id@],
                None => !self@.dom().contains(room_id@),
            },
    {
        match self.table.position(room_id) {
            Some(i) => {
                proof {
                    self.table.lemma_room_at(i as int);
                }
                Some(self.table.room(i))
            },
            None => None,
        }
    }

    /// A copy of the messages of a room, oldest first. A room that the store
    /// has not seen has no messages.
    pub fn snapshot(&self, room_id: &str) -> (messages: Vec<Message>)
        requires
            self.wf(),
        ensures
            messages@ == entries_of(self@, room_id@),
            messages.len() <= RECENT_MESSAGE_LIMIT,
    {
        let mut messages: Vec<Message> = Vec::new();
        match self.room(room_id) {
            Some(room) => {
                let mut i: usize = 0;
                while i < room.len()
                    invariant
                        i <= room.len(),
                        messages@ == room@.take(i as int),
                    decreases room.len() - i,
                {
                    let copy = Message {
                        content: room[i].content.clone(),
                        timestamp: room[i].timestamp,
                    };
                    assert(room@.take(i as int + 1) =~= room@.take(i as int).push(copy));
                    messages.push(copy);
                    i = i + 1;
                }
                assert(room@.take(room.len() as int) =~= room@);
            },
            None => {},
        }
        messages
    }

    /// Erases and removes, in every room, the first message that is expired
    /// at `now`. At most one message leaves each room; a later sweep takes
    /// the next.
    pub fn sweep(&mut self, now: u64)
        requires
            old(self).wf(),
        ensures
            final(self).wf(),
            final(self)@ == swept(old(self)@, now),
    {
        let ghost before = self.table;
        let n: usize = self.table.len();
        let mut i: usize = 0;
        while i < n
            invariant
                before.wf(),
                i <= n,
                n == before.ids().len(),
                self.table.ids() == before.ids(),
                self.table.rooms().len() == before.rooms().len(),
                forall|j: int| 0 <= j < i ==> self.table.rooms()[j] == swept_room(before.rooms()[j], now),
                forall|j: int| i <= j < n ==> self.table.rooms()[j] == before.rooms()[j],
            decreases n - i,
        {
            let room = self.table.room_mut(i);
            let k = find_expired(room, now);
            if k < room.len() {
                let _ = erase_and_remove(room, k);
            }
            i = i + 1;
        }
        proof {
            self.table.lemma_rooms_mapped(&before, |room: Seq<Message>| swept_room(room, now));
            assert(self@ =~= swept(before@, now));
            lemma_swept_within_cap(before@, now);
        }
    }

    /// Erases every message of every room and empties the rooms. The rooms
    /// themselves stay.
    pub fn erase_all(&mut self)
        requires
            old(self).wf(),
        ensures
            final(self).wf(),
            final(self)@ == erased(old(self)@),
    {
        let ghost before = self.table;
        let n: usize = self.table.len();
        let mut i: usize = 0;
        while i < n
            invariant
                before.wf(),
                i <= n,
                n == before.ids().len(),
                self.table.ids() == before.ids(),
                self.table.rooms().len() == before.rooms().len(),
                forall|j: int| 0 <= j < i ==> self.table.rooms()[j] == Seq::<Message>::empty(),
                forall|j: int| i <= j < n ==> self.table.rooms()[j] == before.rooms()[j],
            decreases n - i,
        {
            let room = self.table.room_mut(i);
            let _ = erase_and_clear(room);
            i = i + 1;
        }
        proof {
            self.table.lemma_rooms_mapped(&before, |room: Seq<Message>| Seq::<Message>::empty());
            assert(self@ =~= erased(before@));
        }
    }
}

/// The position of the first message of `room` that is expired at `now`, or
/// the length of `room` if there is none.
pub fn find_expired(room: &Vec<Message>, now: u64) -> (k: usize)
    ensures
        k == first_expired(room@, now),
        k <= room.len(),
{
    let mut i: usize = 0;
    while i < room.len()
        invariant
            i <= room.len(),
            forall|j: int| 0 <= j < i ==> !is_expired((#[trigger] room@[j]).timestamp, now),
        decreases room.len() - i,
    {
        let timestamp: u64 = room[i].timestamp;
        if timestamp < now && now - timestamp > MESSAGE_EXPIRY_DURATION {
            proof {
                lemma_first_expired_is(room@, now, i as int);
            }
            return i;
        }
        i = i + 1;
    }
    proof {
        lemma_first_expired_is(room@, now, i as int);
    }
    i
}

/// A sweep never lengthens a room.
pub proof fn lemma_swept_within_cap(rooms: Map<Seq<char>, Seq<Message>>, now: u64)
    requires
        within_cap(rooms),
    ensures
        within_cap(swept(rooms, now)),
{
    assert forall|id: Seq<char>| #[trigger] swept(rooms, now).dom().contains(id) implies swept(
        rooms,
        now,
    )[id].len() <= RECENT_MESSAGE_LIMIT by {
        assert(rooms.dom().contains(id));
        lemma_first_expired(rooms[id], now);
    }
}

/// Wiping an already wiped store changes nothing: every room is empty after
/// the first wipe and after the second, and no room appears or disappears.
pub proof fn lemma_erase_all_twice(rooms: Map<Seq<char>, Seq<Message>>)
    ensures
        erased(erased(rooms)) == erased(rooms),
        erased(rooms).dom() == rooms.dom(),
        forall|id: Seq<char>|
            erased(rooms).dom().contains(id) ==> (#[trigger] erased(rooms)[id]).len() == 0,
        within_cap(erased(rooms)),
{
    assert(erased(erased(rooms)) =~= erased(rooms));
    assert(erased(rooms).dom() =~= rooms.dom());
}

} // verus!
