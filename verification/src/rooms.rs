//! Rooms by identifier.
//!
//! A table maps each room identifier it has seen to that room's sequence of
//! entries. Identifiers are opaque texts, told apart byte for byte. A room is
//! created, empty, the first time it is opened, and is never removed.

use vstd::prelude::*;
use crate::text::same_text;

verus! {

/// A mapping from room identifiers to rooms, each room a sequence of `T`.
/// A room is found by going through the identifiers in the order in which
/// the rooms were opened.
pub struct RoomTable<T> {
    ids: Vec<String>,
    slots: Vec<Vec<T>>,
}

impl<T> View for RoomTable<T> {
    type V = Map<Seq<char>, Seq<T>>;

    /// The table as a map from identifier to the room's entries, oldest first.
    open spec fn view(&self) -> Map<Seq<char>, Seq<T>> {
        Map::new(
            |id: Seq<char>| self.ids().contains(id),
            |id: Seq<char>| self.rooms()[self.ids().index_of(id)],
        )
    }
}

/// The entries of room `id` in `table`; a room that was never opened has none.
pub open spec fn entries_of<T>(table: Map<Seq<char>, Seq<T>>, id: Seq<char>) -> Seq<T> {
    if table.dom().contains(id) {
        table[id]
    } else {
        Seq::empty()
    }
}

impl<T> RoomTable<T> {
    /// The identifiers of the rooms, in the order in which they were opened.
    pub closed spec fn ids(&self) -> Seq<Seq<char>> {
        Seq::new(self.ids.len() as nat, |i: int| self.ids[i]@)
    }

    /// The rooms, in the order in which they were opened.
    pub closed spec fn rooms(&self) -> Seq<Seq<T>> {
        Seq::new(self.slots.len() as nat, |i: int| self.slots[i]@)
    }

    /// Every identifier has its room, and no identifier occurs twice.
    pub open spec fn wf(&self) -> bool {
        &&& self.ids().len() == self.rooms().len()
        &&& self.ids().no_duplicates()
    }

    /// The room at a position is the room of the identifier at that position.
    pub proof fn lemma_room_at(&self, i: int)
        requires
            self.wf(),
            0 <= i < self.ids().len(),
        ensures
            self@.dom().contains(self.ids()[i]),
            self@[self.ids()[i]] == self.rooms()[i],
            entries_of(self@, self.ids()[i]) == self.rooms()[i],
    {
        let id = self.ids()[i];
        assert(self.ids().contains(id));
        let k = self.ids().index_of(id);
        assert(0 <= k < self.ids().len() && self.ids()[k] == id);
    }

    /// Opening a room that the table has not seen adds it, empty.
    pub proof fn lemma_room_added(&self, before: &RoomTable<T>, id: Seq<char>)
        requires
            before.wf(),
            !before.ids().contains(id),
            self.ids() == before.ids().push(id),
            self.rooms() == before.rooms().push(Seq::empty()),
        ensures
            self.wf(),
            self@ == before@.insert(id, Seq::empty()),
    {
        let n = before.ids().len() as int;
        assert(self.ids().no_duplicates()) by {
            assert forall|a: int, b: int|
                0 <= a < self.ids().len() && 0 <= b < self.ids().len() && a != b implies self.ids()[a]
                != self.ids()[b] by {
                if a < n && b < n {
                    assert(before.ids()[a] != before.ids()[b]);
                } else if a < n {
                    assert(before.ids().contains(before.ids()[a]));
                } else {
                    assert(before.ids().contains(before.ids()[b]));
                }
            }
        }
        assert forall|k: Seq<char>| self@.dom().contains(k) <==> before@.insert(
            id,
            Seq::empty(),
        ).dom().contains(k) by {
            if before.ids().contains(k) {
                let j = before.ids().index_of(k);
                assert(self.ids()[j] == k);
            }
            if k == id {
                assert(self.ids()[n] == k);
            }
            if self.ids().contains(k) {
                let j = self.ids().index_of(k);
                if j < n {
                    assert(before.ids()[j] == k);
                }
            }
        }
        assert forall|k: Seq<char>| #[trigger] self@.dom().contains(k) implies self@[k]
            == before@.insert(id, Seq::empty())[k] by {
            let j = self.ids().index_of(k);
            assert(0 <= j < self.ids().len() && self.ids()[j] == k);
            if j < n {
                assert(before.ids()[j] == k);
                let j2 = before.ids().index_of(k);
                assert(0 <= j2 < n && before.ids()[j2] == k);
                assert(self.ids()[j2] == k);
            }
        }
        assert(self@ =~= before@.insert(id, Seq::empty()));
    }

    /// Changing every room by the same rule changes the map room by room.
    pub proof fn lemma_rooms_mapped(
        &self,
        before: &RoomTable<T>,
        rule: spec_fn(Seq<T>) -> Seq<T>,
    )
        requires
            before.wf(),
            self.ids() == before.ids(),
            self.rooms().len() == before.rooms().len(),
            forall|i: int|
                0 <= i < before.rooms().len() ==> self.rooms()[i] == rule(before.rooms()[i]),
        ensures
            self.wf(),
            self@ == Map::new(
                |id: Seq<char>| before@.dom().contains(id),
                |id: Seq<char>| rule(before@[id]),
            ),
    {
        let mapped = Map::new(
            |id: Seq<char>| before@.dom().contains(id),
            |id: Seq<char>| rule(before@[id]),
        );
        assert forall|k: Seq<char>| #[trigger] self@.dom().contains(k) implies self@[k]
            == mapped[k] by {
            let j = self.ids().index_of(k);
            assert(0 <= j < self.ids().len() && self.ids()[j] == k);
        }
        assert(self@ =~= mapped);
    }

    /// A table without rooms.
    pub fn new() -> (table: RoomTable<T>)
        ensures
            table.wf(),
            table.ids() == Seq::<Seq<char>>::empty(),
            table@ == Map::<Seq<char>, Seq<T>>::empty(),
    {
        let table = RoomTable { ids: Vec::new(), slots: Vec::new() };
        assert(table.ids() =~= Seq::<Seq<char>>::empty());
        assert(table@ =~= Map::<Seq<char>, Seq<T>>::empty());
        table
    }

    /// The number of rooms.
    pub fn len(&self) -> (n: usize)
        requires
            self.wf(),
        ensures
            n == self.ids().len(),
    {
        self.ids.len()
    }

    /// The position of room `room_id`, if the table has seen it.
    pub fn position(&self, room_id: &str) -> (found: Option<usize>)
        requires
            self.wf(),
        ensures
            match found {
                Some(i) => i < self.ids().len() && self.ids()[i as int] == room_id@,
                None => !self.ids().contains(room_id@),
            },
            found is Some <==> self@.dom().contains(room_id@),
    {
        let mut i: usize = 0;
        while i < self.ids.len()
            invariant
                i <= self.ids.len(),
                forall|j: int| 0 <= j < i ==> self.ids()[j] != room_id@,
            decreases self.ids.len() - i,
        {
            if same_text(self.ids[i].as_str(), room_id) {
                assert(self.ids()[i as int] == room_id@);
                return Some(i);
            }
            i = i + 1;
        }
        None
    }

    /// The position of room `room_id`, which is created empty if the table
    /// has not seen it.
    pub fn open(&mut self, room_id: &str) -> (i: usize)
        requires
            old(self).wf(),
        ensures
            final(self).wf(),
            i < final(self).ids().len(),
            final(self).ids()[i as int] == room_id@,
            final(self).rooms()[i as int] == entries_of(old(self)@, room_id@),
            final(self)@ == old(self)@.insert(room_id@, entries_of(old(self)@, room_id@)),
            old(self).ids().len() <= final(self).ids().len(),
            forall|j: int|
                0 <= j < old(self).ids().len() ==> final(self).ids()[j] == old(self).ids()[j]
                    && final(self).rooms()[j] == old(self).rooms()[j],
    {
        match self.position(room_id) {
            Some(i) => {
                proof {
                    self.lemma_room_at(i as int);
                    assert(self@ =~= self@.insert(room_id@, self@[room_id@]));
                }
                i
            },
            None => {
                let ghost before = *self;
                let i: usize = self.ids.len();
                self.ids.push(room_id.to_owned());
                self.slots.push(Vec::new());
                proof {
                    assert(self.ids() =~= before.ids().push(room_id@));
                    assert(self.rooms() =~= before.rooms().push(Seq::empty()));
                    self.lemma_room_added(&before, room_id@);
                }
                i
            },
        }
    }

    /// The room at position `i`.
    pub fn room(&self, i: usize) -> (room: &Vec<T>)
        requires
            self.wf(),
            i < self.ids().len(),
        ensures
            room@ == self.rooms()[i as int],
    {
        &self.slots[i]
    }

    /// The room at position `i`, to be changed in place.
    pub fn room_mut(&mut self, i: usize) -> (room: &mut Vec<T>)
        requires
            old(self).wf(),
            i < old(self).ids().len(),
        ensures
            room@ == old(self).rooms()[i as int],
            final(self).wf(),
            final(self).ids() == old(self).ids(),
            final(self).rooms() == old(self).rooms().update(i as int, final(room)@),
            final(self)@ == old(self)@.insert(old(self).ids()[i as int], final(room)@),
    {
        &mut self.slots[i]
    }
}

} // verus!
