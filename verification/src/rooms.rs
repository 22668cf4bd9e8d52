//! The registry of rooms: at most one room per name, created idempotently,
//! looked up by name.

use vstd::prelude::*;
use crate::room::Room;

verus! {

/// The outcome of creating a room. Both are success: a second create of the
/// same name is a no-op, not an error.
#[derive(Clone, Copy, Debug, PartialEq, Eq, Structural)]
pub enum CreateStatus {
    Created,
    AlreadyExists,
}

/// All rooms, keyed by their unique names.
pub struct RoomRegistry {
    pub rooms: Vec<Room>,
}

impl RoomRegistry {
    /// At most one room per name, and every room well formed.
    pub open spec fn wf(self) -> bool {
        &&& forall|i: int, j: int|
            0 <= i < j < self.rooms@.len() ==> self.rooms@[i].name@ != self.rooms@[j].name@
        &&& forall|i: int| 0 <= i < self.rooms@.len() ==> self.rooms@[i].wf()
    }

    pub open spec fn has_room(self, name: Seq<char>) -> bool {
        exists|i: int| 0 <= i < self.rooms@.len() && self.rooms@[i].name@ == name
    }

    /// The position of the room called `name`; meaningful only when
    /// `has_room(name)` holds and names are unique.
    pub open spec fn idx_of(self, name: Seq<char>) -> int {
        choose|i: int| 0 <= i < self.rooms@.len() && self.rooms@[i].name@ == name
    }

    /// The comment log of the room called `name`.
    pub open spec fn room_comments(self, name: Seq<char>) -> Seq<Seq<char>> {
        self.rooms@[self.idx_of(name)].comments_view()
    }

    /// The member set of the room called `name`.
    pub open spec fn room_members(self, name: Seq<char>) -> Seq<Seq<char>> {
        self.rooms@[self.idx_of(name)].members_view()
    }

    /// With unique names, a position whose room carries `name` is the
    /// position every name-keyed reading of the registry refers to.
    pub proof fn lemma_room_at(self, name: Seq<char>, i: int)
        requires
            self.wf(),
            0 <= i < self.rooms@.len(),
            self.rooms@[i].name@ == name,
        ensures
            self.has_room(name),
            self.idx_of(name) == i,
    {
        assert(self.has_room(name));
        let j = self.idx_of(name);
        assert(0 <= j < self.rooms@.len() && self.rooms@[j].name@ == name);
        if i < j {
            assert(self.rooms@[i].name@ != self.rooms@[j].name@);
        } else if j < i {
            assert(self.rooms@[j].name@ != self.rooms@[i].name@);
        }
    }

    /// An empty registry.
    pub fn new() -> (r: RoomRegistry)
        ensures
            r.wf(),
            r.rooms@.len() == 0,
            forall|n: Seq<char>| !r.has_room(n),
    {
        RoomRegistry { rooms: Vec::new() }
    }

    /// The position of the room called `name`, if there is one.
    pub fn find(&self, name: &String) -> (r: Option<usize>)
        requires
            self.wf(),
        ensures
            (r is Some) == self.has_room(name@),
            r matches Some(i) ==> 0 <= i < self.rooms@.len() && self.rooms@[i as int].name@
                == name@ && self.idx_of(name@) == i,
    {
        let n = self.rooms.len();
        let mut i: usize = 0;
        while i < n
            invariant
                self.wf(),
                n == self.rooms@.len(),
                i <= n,
                forall|k: int| 0 <= k < i ==> self.rooms@[k].name@ != name@,
            decreases n - i,
        {
            if self.rooms[i].name == *name {
                proof {
                    self.lemma_room_at(name@, i as int);
                }
                return Some(i);
            }
            i = i + 1;
        }
        proof {
            assert(forall|k: int| 0 <= k < self.rooms@.len() ==> self.rooms@[k].name@ != name@);
        }
        None
    }

    /// Checks then inserts atomically with respect to this registry value:
    /// a fresh, empty room under a new name, or no change at all under an
    /// existing one. Every other room reads the same afterwards.
    pub fn create_room(&mut self, name: String) -> (r: CreateStatus)
        requires
            old(self).wf(),
        ensures
            final(self).wf(),
            (r == CreateStatus::AlreadyExists) == old(self).has_room(name@),
            old(self).has_room(name@) ==> *final(self) == *old(self),
            !old(self).has_room(name@) ==> {
                &&& r == CreateStatus::Created
                &&& final(self).rooms@.len() == old(self).rooms@.len() + 1
                &&& final(self).rooms@.drop_last() == old(self).rooms@
                &&& final(self).room_comments(name@) == Seq::<Seq<char>>::empty()
                &&& final(self).room_members(name@) == Seq::<Seq<char>>::empty()
            },
            final(self).has_room(name@),
            forall|n: Seq<char>|
                final(self).has_room(n) == (n == name@ || old(self).has_room(n)),
            forall|n: Seq<char>|
                old(self).has_room(n) ==> final(self).room_comments(n) == old(self).room_comments(n) && final(self).room_members(n) == old(self).room_members(n),
    {
        let found = self.find(&name);
        match found {
            Some(_) => CreateStatus::AlreadyExists,
            None => {
                let ghost prev = *self;
                let room = Room::new(name);
                let ghost newroom = room;
                self.rooms.push(room);
                proof {
                    let len = prev.rooms@.len() as int;
                    assert(self.rooms@.drop_last() =~= prev.rooms@);
                    assert forall|i: int, j: int|
                        0 <= i < j < self.rooms@.len() implies self.rooms@[i].name@
                        != self.rooms@[j].name@ by {
                        if j < len {
                            assert(prev.rooms@[i].name@ != prev.rooms@[j].name@);
                        } else {
                            assert(self.rooms@[j].name@ == newroom.name@);
                            assert(self.rooms@[i] == prev.rooms@[i]);
                            assert(!prev.has_room(newroom.name@));
                        }
                    }
                    assert(self.wf());
                    self.lemma_room_at(newroom.name@, len);
                    assert forall|n: Seq<char>|
                        self.has_room(n) == (n == newroom.name@ || prev.has_room(
                            n,
                        )) by {
                        if self.has_room(n) {
                            let k = self.idx_of(n);
                            assert(0 <= k < self.rooms@.len() && self.rooms@[k].name@ == n);
                            if k < len {
                                assert(prev.rooms@[k].name@ == n);
                                assert(prev.has_room(n));
                            } else {
                                assert(n == newroom.name@);
                            }
                        }
                        if prev.has_room(n) {
                            let k = choose|k: int|
                                0 <= k < prev.rooms@.len() && prev.rooms@[k].name@ == n;
                            assert(self.rooms@[k].name@ == n);
                            assert(self.has_room(n));
                        }
                    }
                    assert forall|n: Seq<char>|
                        prev.has_room(n) implies self.room_comments(n) == prev.room_comments(n)
                        && self.room_members(n) == prev.room_members(n) by {
                        let k = choose|k: int|
                            0 <= k < prev.rooms@.len() && prev.rooms@[k].name@ == n;
                        prev.lemma_room_at(n, k);
                        self.lemma_room_at(n, k);
                        assert(self.rooms@[k] == prev.rooms@[k]);
                    }
                }
                CreateStatus::Created
            },
        }
    }

    /// Appends `text` to the log of the room called `name` and hands back a
    /// snapshot of that room's member set, taken at append time. A missing
    /// room changes nothing and returns `None`. No other room is touched.
    pub fn post(&mut self, name: &String, text: String) -> (r: Option<Vec<String>>)
        requires
            old(self).wf(),
        ensures
            final(self).wf(),
            (r is Some) == old(self).has_room(name@),
            r is None ==> *final(self) == *old(self),
            r matches Some(members) ==> {
                &&& members.deep_view() == old(self).room_members(name@)
                &&& final(self).room_comments(name@) == old(self).room_comments(name@).push(
                    text@,
                )
                &&& final(self).room_members(name@) == old(self).room_members(name@)
                &&& forall|n: Seq<char>| final(self).has_room(n) == old(self).has_room(n)
                &&& forall|n: Seq<char>|
                    n != name@ && old(self).has_room(n) ==> final(self).room_comments(n) == old(self).room_comments(n) && final(self).room_members(n) == old(self).room_members(n)
            },
    {
        let found = self.find(name);
        match found {
            None => None,
            Some(i) => {
                let ghost prev = *self;
                let room = &mut self.rooms[i];
                room.add_comment(text);
                let members = self.rooms[i].snapshot_members();
                proof {
                    assert(self.rooms@ =~= prev.rooms@.update(i as int, self.rooms@[i as int]));
                    assert(self.rooms@[i as int].name@ == name@);
                    assert forall|a: int, b: int|
                        0 <= a < b < self.rooms@.len() implies self.rooms@[a].name@
                        != self.rooms@[b].name@ by {
                        assert(prev.rooms@[a].name@ != prev.rooms@[b].name@);
                        assert(self.rooms@[a].name@ == prev.rooms@[a].name@);
                        assert(self.rooms@[b].name@ == prev.rooms@[b].name@);
                    }
                    assert(self.wf());
                    self.lemma_room_at(name@, i as int);
                    prev.lemma_room_at(name@, i as int);
                    assert forall|n: Seq<char>|
                        self.has_room(n) == prev.has_room(n) by {
                        if self.has_room(n) {
                            let k = self.idx_of(n);
                            assert(prev.rooms@[k].name@ == self.rooms@[k].name@);
                            assert(prev.has_room(n));
                        }
                        if prev.has_room(n) {
                            let k = choose|k: int|
                                0 <= k < prev.rooms@.len() && prev.rooms@[k].name@ == n;
                            assert(self.rooms@[k].name@ == n);
                            assert(self.has_room(n));
                        }
                    }
                    assert forall|n: Seq<char>|
                        n != name@ && prev.has_room(n) implies self.room_comments(n)
                        == prev.room_comments(n) && self.room_members(n)
                        == prev.room_members(n) by {
                        let k = choose|k: int|
                            0 <= k < prev.rooms@.len() && prev.rooms@[k].name@ == n;
                        prev.lemma_room_at(n, k);
                        self.lemma_room_at(n, k);
                        assert(k != i as int);
                        assert(self.rooms@[k] == prev.rooms@[k]);
                    }
                }
                Some(members)
            },
        }
    }

    /// Adds `client` to the member set of the room called `name`; `None`
    /// when the room is missing, otherwise whether the client was new.
    pub fn add_member(&mut self, name: &String, client: String) -> (r: Option<bool>)
        requires
            old(self).wf(),
        ensures
            final(self).wf(),
            (r is Some) == old(self).has_room(name@),
            r is None ==> *final(self) == *old(self),
            r matches Some(added) ==> {
                &&& added == !old(self).room_members(name@).contains(client@)
                &&& added ==> final(self).room_members(name@) == old(self).room_members(
                    name@,
                ).push(client@)
                &&& !added ==> final(self).room_members(name@) == old(self).room_members(name@)
                &&& final(self).room_comments(name@) == old(self).room_comments(name@)
                &&& forall|n: Seq<char>| final(self).has_room(n) == old(self).has_room(n)
                &&& forall|n: Seq<char>|
                    n != name@ && old(self).has_room(n) ==> final(self).room_comments(n) == old(self).room_comments(n) && final(self).room_members(n) == old(self).room_members(n)
            },
    {
        let found = self.find(name);
        match found {
            None => None,
            Some(i) => {
                let ghost prev = *self;
                let room = &mut self.rooms[i];
                let added = room.add_member(client);
                proof {
                    assert(self.rooms@ =~= prev.rooms@.update(i as int, self.rooms@[i as int]));
                    assert(self.rooms@[i as int].name@ == name@);
                    assert forall|a: int, b: int|
                        0 <= a < b < self.rooms@.len() implies self.rooms@[a].name@
                        != self.rooms@[b].name@ by {
                        assert(prev.rooms@[a].name@ != prev.rooms@[b].name@);
                        assert(self.rooms@[a].name@ == prev.rooms@[a].name@);
                        assert(self.rooms@[b].name@ == prev.rooms@[b].name@);
                    }
                    assert(self.wf());
                    self.lemma_room_at(name@, i as int);
                    prev.lemma_room_at(name@, i as int);
                    assert forall|n: Seq<char>|
                        self.has_room(n) == prev.has_room(n) by {
                        if self.has_room(n) {
                            let k = self.idx_of(n);
                            assert(prev.rooms@[k].name@ == self.rooms@[k].name@);
                            assert(prev.has_room(n));
                        }
                        if prev.has_room(n) {
                            let k = choose|k: int|
                                0 <= k < prev.rooms@.len() && prev.rooms@[k].name@ == n;
                            assert(self.rooms@[k].name@ == n);
                            assert(self.has_room(n));
                        }
                    }
                    assert forall|n: Seq<char>|
                        n != name@ && prev.has_room(n) implies self.room_comments(n)
                        == prev.room_comments(n) && self.room_members(n)
                        == prev.room_members(n) by {
                        let k = choose|k: int|
                            0 <= k < prev.rooms@.len() && prev.rooms@[k].name@ == n;
                        prev.lemma_room_at(n, k);
                        self.lemma_room_at(n, k);
                        assert(k != i as int);
                        assert(self.rooms@[k] == prev.rooms@[k]);
                    }
                }
                Some(added)
            },
        }
    }
}

} // verus!
