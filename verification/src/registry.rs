//! The room registry: the process-wide map from room id to room, through
//! which every join, leave, publish and management read goes. Each operation
//! is one atomic step against the map; in particular the username
//! check-then-insert of a join is a single step, so two rival joins can never
//! both claim one name.
use vstd::prelude::*;
use crate::channel::Subscriber;
use crate::error::ChattyError;
use crate::message::{server_name, WsMessage};
use crate::room::RoomState;

verus! {

/// Outcome of a join handshake against the registry.
pub enum JoinOutcome {
    /// Admitted: the subscription to the room's channel, taken before the
    /// joined notice was published.
    Joined(Subscriber),
    /// The room id names no room.
    RoomNotFound,
    /// The username is already present in the room, or is the reserved
    /// server name; the member set was left untouched.
    UsernameTaken,
}

/// What the room-listing surface reports of one room: its id, its name, and
/// the usernames present.
pub struct RoomSummary {
    pub id: u128,
    pub name: String,
    pub users: Vec<String>,
}

/// The listing entry for one room.
pub fn summarize(room: &RoomState) -> (r: RoomSummary)
    ensures
        r.id == room.id,
        r.name@ == room.name@,
        r.users@.map_values(|s: String| s@) == room.member_views(),
{
    let names = room.member_names();
    let mut users: Vec<String> = Vec::new();
    let n = names.len();
    let mut i: usize = 0;
    while i < n
        invariant
            n == names@.len(),
            names@.map_values(|s: String| s@) == room.member_views(),
            i <= n,
            users@.len() == i,
            forall|j: int| 0 <= j < i ==> #[trigger] users@[j]@ == names@[j]@,
        decreases n - i,
    {
        users.push(names[i].clone());
        i += 1;
    }
    proof {
        assert forall|j: int| 0 <= j < n implies #[trigger] users@[j]@ == room.member_views()[j] by {
            assert(room.member_views()[j] == names@[j]@);
        }
        assert(users@.map_values(|s: String| s@) =~= room.member_views());
    }
    RoomSummary { id: room.id, name: room.name.clone(), users }
}

/// The registry: rooms with pairwise distinct ids.
pub struct Registry {
    rooms: Vec<RoomState>,
}

impl Registry {
    /// The rooms it holds, in insertion order.
    pub closed spec fn rooms_seq(&self) -> Seq<RoomState> {
        self.rooms@
    }

    /// Whether some room carries `id`.
    pub open spec fn has_room(&self, id: u128) -> bool {
        exists|i: int| 0 <= i < self.rooms_seq().len() && self.rooms_seq()[i].id == id
    }

    /// Position of the room carrying `id`.
    pub open spec fn room_index(&self, id: u128) -> int {
        choose|i: int| 0 <= i < self.rooms_seq().len() && self.rooms_seq()[i].id == id
    }

    /// The room carrying `id`.
    pub open spec fn room(&self, id: u128) -> RoomState {
        self.rooms_seq()[self.room_index(id)]
    }

    /// Ids are pairwise distinct and every room is well formed.
    pub open spec fn wf(&self) -> bool {
        &&& forall|i: int, j: int|
            0 <= i < j < self.rooms_seq().len() ==> #[trigger] self.rooms_seq()[i].id
                != #[trigger] self.rooms_seq()[j].id
        &&& forall|i: int| 0 <= i < self.rooms_seq().len() ==> #[trigger] self.rooms_seq()[i].wf()
    }

    /// A join is admitted exactly when the room exists, the username is free
    /// there, and it is not the reserved server name.
    pub open spec fn join_ok(&self, room_id: u128, username: Seq<char>) -> bool {
        &&& self.has_room(room_id)
        &&& !self.room(room_id).members().contains(username)
        &&& username != server_name()
    }

    /// The entry at a position with the right id is the room looked up by id.
    pub proof fn lemma_room_at(&self, id: u128, i: int)
        requires
            self.wf(),
            0 <= i < self.rooms_seq().len(),
            self.rooms_seq()[i].id == id,
        ensures
            self.has_room(id),
            self.room_index(id) == i,
            self.room(id) == self.rooms_seq()[i],
    {
        assert(self.has_room(id));
        let k = self.room_index(id);
        assert(0 <= k < self.rooms_seq().len() && self.rooms_seq()[k].id == id);
        if k < i {
            assert(self.rooms_seq()[k].id != self.rooms_seq()[i].id);
        } else if i < k {
            assert(self.rooms_seq()[i].id != self.rooms_seq()[k].id);
        }
    }

    /// Replacing the entry at `i` of `a` by one with the same id, or leaving
    /// all entries alone, preserves well-formedness and every other room.
    proof fn lemma_update_entry(a: &Registry, b: &Registry, i: int)
        requires
            a.wf(),
            0 <= i < a.rooms_seq().len(),
            b.rooms_seq().len() == a.rooms_seq().len(),
            forall|j: int|
                0 <= j < a.rooms_seq().len() && j != i ==> b.rooms_seq()[j] == #[trigger] a.rooms_seq()[j],
            b.rooms_seq()[i].id == a.rooms_seq()[i].id,
            b.rooms_seq()[i].wf(),
        ensures
            b.wf(),
            forall|id2: u128| #[trigger] b.has_room(id2) == a.has_room(id2),
            forall|id2: u128|
                a.has_room(id2) && id2 != a.rooms_seq()[i].id ==> #[trigger] b.room(id2) == a.room(
                    id2,
                ),
            b.has_room(a.rooms_seq()[i].id),
            b.room(a.rooms_seq()[i].id) == b.rooms_seq()[i],
    {
        assert(forall|j: int|
            0 <= j < b.rooms_seq().len() ==> #[trigger] b.rooms_seq()[j].id
                == a.rooms_seq()[j].id);
        assert forall|id2: u128| #[trigger] b.has_room(id2) == a.has_room(id2) by {
            if a.has_room(id2) {
                let j = choose|j: int|
                    0 <= j < a.rooms_seq().len() && a.rooms_seq()[j].id == id2;
                assert(b.rooms_seq()[j].id == id2);
            }
            if b.has_room(id2) {
                let j = choose|j: int|
                    0 <= j < b.rooms_seq().len() && b.rooms_seq()[j].id == id2;
                assert(a.rooms_seq()[j].id == id2);
            }
        }
        assert(b.wf()) by {
            assert forall|x: int, y: int|
                0 <= x < y < b.rooms_seq().len() implies #[trigger] b.rooms_seq()[x].id
                != #[trigger] b.rooms_seq()[y].id by {
                assert(a.rooms_seq()[x].id != a.rooms_seq()[y].id);
            }
            assert forall|x: int| 0 <= x < b.rooms_seq().len() implies #[trigger] b.rooms_seq()[x].wf() by {
                if x != i {
                    assert(b.rooms_seq()[x] == a.rooms_seq()[x]);
                    assert(a.rooms_seq()[x].wf());
                }
            }
        }
        assert forall|id2: u128|
            a.has_room(id2) && id2 != a.rooms_seq()[i].id implies #[trigger] b.room(id2) == a.room(
            id2,
        ) by {
            let j = a.room_index(id2);
            a.lemma_room_at(id2, j);
            assert(j != i);
            b.lemma_room_at(id2, j);
        }
        b.lemma_room_at(a.rooms_seq()[i].id, i);
    }

    /// An empty registry, as at process start.
    pub fn new() -> (r: Self)
        ensures
            r.wf(),
            forall|id: u128| !r.has_room(id),
    {
        Registry { rooms: Vec::new() }
    }

    /// Position of the room carrying `id`, if any.
    fn find_room(&self, id: u128) -> (r: Option<usize>)
        requires
            self.wf(),
        ensures
            match r {
                Some(i) => self.has_room(id) && i == self.room_index(id),
                None => !self.has_room(id),
            },
    {
        let n = self.rooms.len();
        let mut i: usize = 0;
        while i < n
            invariant
                self.wf(),
                n == self.rooms_seq().len(),
                i <= n,
                forall|j: int| 0 <= j < i ==> #[trigger] self.rooms_seq()[j].id != id,
            decreases n - i,
        {
            if self.rooms[i].id == id {
                proof {
                    self.lemma_room_at(id, i as int);
                }
                return Some(i);
            }
            i += 1;
        }
        proof {
            if self.has_room(id) {
                let k = self.room_index(id);
                assert(0 <= k < self.rooms_seq().len() && self.rooms_seq()[k].id == id);
            }
        }
        None
    }

    /// Allocates a room under `name` with a fresh random id, an empty member
    /// set, and a fresh broadcast channel; returns the id. As with a map
    /// insert, a room already carrying the drawn id would be replaced.
    pub fn create_room(&mut self, name: String) -> (id: u128)
        requires
            old(self).wf(),
        ensures
            final(self).wf(),
            final(self).has_room(id),
            final(self).room(id).id == id,
            final(self).room(id).name@ == name@,
            final(self).room(id).members() == Set::<Seq<char>>::empty(),
            final(self).room(id).member_count_spec() == 0,
            final(self).room(id).channel.hist() == Seq::<crate::message::MsgView>::empty(),
            final(self).room(id).channel.cap() == crate::room::ROOM_CHANNEL_CAPACITY as int,
            final(self).room(id).channel.oldest() == 0,
            forall|id2: u128|
                id2 != id ==> #[trigger] final(self).has_room(id2) == old(self).has_room(id2),
            forall|id2: u128|
                old(self).has_room(id2) && id2 != id ==> #[trigger] final(self).room(id2) == old(
                    self,
                ).room(id2),
    {
        let mut room = RoomState::new();
        room.name = name;
        let id = room.id;
        match self.find_room(id) {
            Some(i) => {
                let ghost pre = *self;
                self.rooms.remove(i);
                self.rooms.insert(i, room);
                proof {
                    assert(self.rooms_seq() =~= pre.rooms_seq().update(i as int, room));
                    Self::lemma_update_entry(&pre, self, i as int);
                }
            },
            None => {
                let ghost pre = *self;
                self.rooms.push(room);
                proof {
                    assert(self.rooms_seq() =~= pre.rooms_seq().push(room));
                    assert forall|a: int, b: int|
                        0 <= a < b < self.rooms_seq().len() implies #[trigger] self.rooms_seq()[a].id
                        != #[trigger] self.rooms_seq()[b].id by {
                        if b < pre.rooms_seq().len() {
                        } else {
                            assert(self.rooms_seq()[b] == room);
                            if pre.has_room(self.rooms_seq()[a].id) {
                            } else {
                                assert(pre.rooms_seq()[a].id == self.rooms_seq()[a].id);
                                assert(pre.has_room(pre.rooms_seq()[a].id));
                            }
                        }
                    }
                    self.lemma_room_at(id, pre.rooms_seq().len() as int);
                    assert forall|id2: u128|
                        id2 != id implies #[trigger] self.has_room(id2) == pre.has_room(id2) by {
                        if pre.has_room(id2) {
                            let j = choose|j: int|
                                0 <= j < pre.rooms_seq().len() && pre.rooms_seq()[j].id == id2;
                            assert(self.rooms_seq()[j].id == id2);
                        }
                        if self.has_room(id2) {
                            let j = choose|j: int|
                                0 <= j < self.rooms_seq().len() && self.rooms_seq()[j].id == id2;
                            assert(j < pre.rooms_seq().len());
                            assert(pre.rooms_seq()[j].id == id2);
                        }
                    }
                    assert forall|id2: u128|
                        pre.has_room(id2) && id2 != id implies #[trigger] self.room(id2)
                        == pre.room(id2) by {
                        let j = pre.room_index(id2);
                        pre.lemma_room_at(id2, j);
                        self.lemma_room_at(id2, j);
                    }
                }
            },
        }
        id
    }

    /// Read-only lookup of one room.
    pub fn get_room(&self, id: u128) -> (r: Result<&RoomState, ChattyError>)
        requires
            self.wf(),
        ensures
            match r {
                Ok(room) => self.has_room(id) && *room == self.room(id),
                Err(e) => !self.has_room(id) && e is RoomNotFound,
            },
    {
        match self.find_room(id) {
            Some(i) => Ok(&self.rooms[i]),
            None => Err(ChattyError::RoomNotFound),
        }
    }

    /// Removes the room carrying `id` exactly when its member set is empty at
    /// the moment of this check-and-remove.
    pub fn remove_room_if_empty(&mut self, id: u128) -> (removed: bool)
        requires
            old(self).wf(),
        ensures
            final(self).wf(),
            removed == (old(self).has_room(id) && old(self).room(id).member_count_spec() == 0),
            removed ==> !final(self).has_room(id),
            !removed ==> *final(self) == *old(self),
            forall|id2: u128|
                id2 != id ==> #[trigger] final(self).has_room(id2) == old(self).has_room(id2),
            forall|id2: u128|
                old(self).has_room(id2) && id2 != id ==> #[trigger] final(self).room(id2) == old(
                    self,
                ).room(id2),
    {
        match self.find_room(id) {
            Some(i) => {
                if self.rooms[i].member_count() == 0 {
                    let ghost pre = *self;
                    self.rooms.remove(i);
                    proof {
                        assert(self.rooms_seq() =~= pre.rooms_seq().remove(i as int));
                        pre.lemma_room_at(id, i as int);
                        assert forall|a: int, b: int|
                            0 <= a < b < self.rooms_seq().len() implies #[trigger] self.rooms_seq()[a].id
                            != #[trigger] self.rooms_seq()[b].id by {
                            let pa: int = if a < i { a } else { a + 1 };
                            let pb: int = if b < i { b } else { b + 1 };
                            assert(self.rooms_seq()[a] == pre.rooms_seq()[pa]);
                            assert(self.rooms_seq()[b] == pre.rooms_seq()[pb]);
                        }
                        assert(!self.has_room(id)) by {
                            if self.has_room(id) {
                                let k = self.room_index(id);
                                let pk: int = if k < i { k } else { k + 1 };
                                assert(pre.rooms_seq()[pk].id == id);
                                assert(pk != i);
                                assert(pre.rooms_seq()[i as int].id == id);
                            }
                        }
                        assert forall|id2: u128|
                            id2 != id implies #[trigger] self.has_room(id2) == pre.has_room(
                            id2,
                        ) by {
                            if pre.has_room(id2) {
                                let j = pre.room_index(id2);
                                pre.lemma_room_at(id2, j);
                                assert(j != i);
                                if j < i {
                                    assert(self.rooms_seq()[j].id == id2);
                                } else {
                                    assert(self.rooms_seq()[j - 1].id == id2);
                                }
                            }
                            if self.has_room(id2) {
                                let k = choose|k: int|
                                    0 <= k < self.rooms_seq().len() && self.rooms_seq()[k].id
                                        == id2;
                                let pk: int = if k < i { k } else { k + 1 };
                                assert(pre.rooms_seq()[pk].id == id2);
                            }
                        }
                        assert forall|id2: u128|
                            pre.has_room(id2) && id2 != id implies #[trigger] self.room(id2)
                            == pre.room(id2) by {
                            let j = pre.room_index(id2);
                            pre.lemma_room_at(id2, j);
                            assert(j != i);
                            if j < i {
                                self.lemma_room_at(id2, j);
                            } else {
                                self.lemma_room_at(id2, j - 1);
                            }
                        }
                    }
                    true
                } else {
                    false
                }
            },
            None => false,
        }
    }

    /// Snapshot of every room for the listing surface: ids, names, and the
    /// usernames present, atomically with respect to joins and leaves.
    pub fn list_rooms(&self) -> (r: Vec<RoomSummary>)
        requires
            self.wf(),
        ensures
            r@.len() == self.rooms_seq().len(),
            forall|i: int|
                0 <= i < r@.len() ==> {
                    &&& (#[trigger] r@[i]).id == self.rooms_seq()[i].id
                    &&& r@[i].name@ == self.rooms_seq()[i].name@
                    &&& r@[i].users@.map_values(|s: String| s@) == self.rooms_seq()[i].member_views()
                },
    {
        let n = self.rooms.len();
        let mut r: Vec<RoomSummary> = Vec::new();
        let mut i: usize = 0;
        while i < n
            invariant
                n == self.rooms_seq().len(),
                i <= n,
                r@.len() == i,
                forall|j: int|
                    0 <= j < i ==> {
                        &&& (#[trigger] r@[j]).id == self.rooms_seq()[j].id
                        &&& r@[j].name@ == self.rooms_seq()[j].name@
                        &&& r@[j].users@.map_values(|s: String| s@) == self.rooms_seq()[j].member_views()
                    },
            decreases n - i,
        {
            r.push(summarize(&self.rooms[i]));
            i += 1;
        }
        r
    }

    /// The handshake's atomic step: look the room up, check the username, and
    /// when it is free insert it, subscribe, and publish the joined notice —
    /// all in one step against the registry, so no rival session can win the
    /// same name in between.
    pub fn join(&mut self, room_id: u128, username: &String) -> (r: JoinOutcome)
        requires
            old(self).wf(),
            old(self).has_room(room_id) ==> old(self).room(room_id).channel.hist().len()
                < u64::MAX,
        ensures
            final(self).wf(),
            r is Joined <==> old(self).join_ok(room_id, username@),
            !(r is Joined) ==> *final(self) == *old(self),
            !old(self).has_room(room_id) ==> r is RoomNotFound,
            old(self).has_room(room_id) && !old(self).join_ok(room_id, username@) ==> r
                is UsernameTaken,
            r matches JoinOutcome::Joined(sub) ==> {
                &&& final(self).has_room(room_id)
                &&& final(self).room(room_id).members() == old(self).room(
                    room_id,
                ).members().insert(username@)
                &&& final(self).room(room_id).member_count_spec() == old(self).room(
                    room_id,
                ).member_count_spec() + 1
                &&& final(self).room(room_id).id == old(self).room(room_id).id
                &&& final(self).room(room_id).name == old(self).room(room_id).name
                &&& final(self).room(room_id).channel.cap() == old(self).room(
                    room_id,
                ).channel.cap()
                &&& final(self).room(room_id).channel.hist().len() == old(self).room(
                    room_id,
                ).channel.hist().len() + 1
                &&& final(self).room(room_id).channel.hist().subrange(
                    0,
                    old(self).room(room_id).channel.hist().len() as int,
                ) == old(self).room(room_id).channel.hist()
                &&& final(self).room(room_id).channel.hist().last().sender == server_name()
                &&& final(self).room(room_id).channel.hist().last().text == username@
                    + " joined"@
                &&& sub.cursor_spec() == old(self).room(room_id).channel.hist().len()
                &&& final(self).room(room_id).channel.valid_sub(sub)
            },
            forall|id2: u128|
                id2 != room_id ==> #[trigger] final(self).has_room(id2) == old(self).has_room(id2),
            forall|id2: u128|
                old(self).has_room(id2) && id2 != room_id ==> #[trigger] final(self).room(id2)
                    == old(self).room(id2),
    {
        let i = match self.find_room(room_id) {
            Some(i) => i,
            None => {
                return JoinOutcome::RoomNotFound;
            },
        };
        let sentinel = "SERVER".to_owned();
        if self.rooms[i].has_member(username) || *username == sentinel {
            proof {
                self.lemma_room_at(room_id, i as int);
            }
            return JoinOutcome::UsernameTaken;
        }
        let ghost pre = *self;
        let mut room = self.rooms.remove(i);
        proof {
            pre.lemma_room_at(room_id, i as int);
        }
        room.insert_member(username);
        let sub = room.channel.subscribe();
        let notice = WsMessage::server_notice(username, " joined");
        room.channel.publish(notice);
        let ghost room2 = room;
        self.rooms.insert(i, room);
        proof {
            assert(self.rooms_seq() =~= pre.rooms_seq().update(i as int, room2));
            Self::lemma_update_entry(&pre, self, i as int);
            assert(self.room(room_id) == room2);
            assert(self.room(room_id).channel.hist().subrange(
                0,
                pre.room(room_id).channel.hist().len() as int,
            ) =~= pre.room(room_id).channel.hist());
        }
        JoinOutcome::Joined(sub)
    }

    /// Publishes `m` to the room's channel; reports whether the room existed.
    pub fn publish(&mut self, room_id: u128, m: WsMessage) -> (ok: bool)
        requires
            old(self).wf(),
            old(self).has_room(room_id) ==> old(self).room(room_id).channel.hist().len()
                < u64::MAX,
        ensures
            final(self).wf(),
            ok == old(self).has_room(room_id),
            !ok ==> *final(self) == *old(self),
            ok ==> {
                &&& final(self).has_room(room_id)
                &&& final(self).room(room_id).channel.hist() == old(self).room(
                    room_id,
                ).channel.hist().push(m@)
                &&& final(self).room(room_id).channel.cap() == old(self).room(
                    room_id,
                ).channel.cap()
                &&& final(self).room(room_id).members() == old(self).room(room_id).members()
                &&& final(self).room(room_id).member_count_spec() == old(self).room(
                    room_id,
                ).member_count_spec()
                &&& final(self).room(room_id).id == old(self).room(room_id).id
                &&& final(self).room(room_id).name == old(self).room(room_id).name
            },
            forall|id2: u128|
                id2 != room_id ==> #[trigger] final(self).has_room(id2) == old(self).has_room(id2),
            forall|id2: u128|
                old(self).has_room(id2) && id2 != room_id ==> #[trigger] final(self).room(id2)
                    == old(self).room(id2),
    {
        let i = match self.find_room(room_id) {
            Some(i) => i,
            None => {
                return false;
            },
        };
        let ghost pre = *self;
        let mut room = self.rooms.remove(i);
        proof {
            pre.lemma_room_at(room_id, i as int);
            assert(pre.rooms_seq()[i as int].wf());
            assert(room == pre.room(room_id));
        }
        room.channel.publish(m);
        let ghost room2 = room;
        self.rooms.insert(i, room);
        proof {
            assert(self.rooms_seq() =~= pre.rooms_seq().update(i as int, room2));
            Self::lemma_update_entry(&pre, self, i as int);
        }
        true
    }

    /// Teardown against the registry, one atomic step: publish the left
    /// notice, remove the username from the member set, then remove the room
    /// if that left it empty — in that order, so a subscriber that stays
    /// behind sees the notice before the room can disappear.
    pub fn leave(&mut self, room_id: u128, username: &String)
        requires
            old(self).wf(),
            old(self).has_room(room_id) ==> old(self).room(room_id).channel.hist().len()
                < u64::MAX,
        ensures
            final(self).wf(),
            !old(self).has_room(room_id) ==> *final(self) == *old(self),
            old(self).has_room(room_id) && old(self).room(room_id).members().remove(username@)
                == Set::<Seq<char>>::empty() ==> !final(self).has_room(room_id),
            old(self).has_room(room_id) && old(self).room(room_id).members().remove(username@)
                != Set::<Seq<char>>::empty() ==> {
                &&& final(self).has_room(room_id)
                &&& final(self).room(room_id).members() == old(self).room(
                    room_id,
                ).members().remove(username@)
                &&& final(self).room(room_id).id == old(self).room(room_id).id
                &&& final(self).room(room_id).name == old(self).room(room_id).name
                &&& final(self).room(room_id).channel.cap() == old(self).room(
                    room_id,
                ).channel.cap()
                &&& final(self).room(room_id).channel.hist().len() == old(self).room(
                    room_id,
                ).channel.hist().len() + 1
                &&& final(self).room(room_id).channel.hist().subrange(
                    0,
                    old(self).room(room_id).channel.hist().len() as int,
                ) == old(self).room(room_id).channel.hist()
                &&& final(self).room(room_id).channel.hist().last().sender == server_name()
                &&& final(self).room(room_id).channel.hist().last().text == username@ + " left"@
            },
            forall|id2: u128|
                id2 != room_id ==> #[trigger] final(self).has_room(id2) == old(self).has_room(id2),
            forall|id2: u128|
                old(self).has_room(id2) && id2 != room_id ==> #[trigger] final(self).room(id2)
                    == old(self).room(id2),
    {
        let i = match self.find_room(room_id) {
            Some(i) => i,
            None => {
                return;
            },
        };
        let ghost pre = *self;
        let mut room = self.rooms.remove(i);
        proof {
            pre.lemma_room_at(room_id, i as int);
            assert(pre.rooms_seq()[i as int].wf());
            assert(room == pre.room(room_id));
        }
        let notice = WsMessage::server_notice(username, " left");
        room.channel.publish(notice);
        room.remove_member(username);
        let ghost room2 = room;
        let now_empty = room.member_count() == 0;
        self.rooms.insert(i, room);
        proof {
            assert(self.rooms_seq() =~= pre.rooms_seq().update(i as int, room2));
            Self::lemma_update_entry(&pre, self, i as int);
            assert(self.room(room_id) == room2);
            room2.lemma_member_count();
            if room2.member_count_spec() == 0 {
                assert(room2.members() =~= Set::<Seq<char>>::empty()) by {
                    vstd::set_lib::lemma_set_empty_equivalency_len(room2.members());
                }
            } else {
                assert(room2.members() != Set::<Seq<char>>::empty()) by {
                    assert(room2.members().len() != 0);
                    vstd::set_lib::lemma_set_empty_equivalency_len(room2.members());
                }
            }
            assert(self.room(room_id).channel.hist().subrange(
                0,
                pre.room(room_id).channel.hist().len() as int,
            ) =~= pre.room(room_id).channel.hist());
        }
        if now_empty {
            let removed = self.remove_room_if_empty(room_id);
            proof {
                assert(removed);
            }
        }
    }
}

} // verus!
