//! One chat room: its identity, the set of usernames present, and its
//! broadcast channel.
use vstd::prelude::*;
use crate::channel::Channel;
use crate::message::fresh_id;

verus! {

/// How many undelivered messages a room's channel buffers per subscriber.
pub const ROOM_CHANNEL_CAPACITY: usize = 100;

/// A room: unique id, display name, the usernames currently present, and the
/// broadcast channel its members share.
pub struct RoomState {
    /// Opaque unique identifier, immutable after creation.
    pub id: u128,
    /// Display label, set once at creation.
    pub name: String,
    /// Usernames currently present; uniqueness is the room's invariant.
    pub user_set: Vec<String>,
    /// The room's broadcast conduit.
    pub channel: Channel,
}

impl RoomState {
    /// The usernames present, as a sequence of character sequences.
    pub open spec fn member_views(&self) -> Seq<Seq<char>> {
        self.user_set@.map_values(|s: String| s@)
    }

    /// The set of usernames currently present.
    pub open spec fn members(&self) -> Set<Seq<char>> {
        self.member_views().to_set()
    }

    /// No username is present twice, and the channel is well formed.
    pub open spec fn wf(&self) -> bool {
        &&& self.member_views().no_duplicates()
        &&& self.channel.wf()
    }

    /// How many usernames are present.
    pub open spec fn member_count_spec(&self) -> nat {
        self.user_set@.len()
    }

    /// The member set is exactly as large as the count: no duplicates hide in it.
    pub proof fn lemma_member_count(&self)
        requires
            self.wf(),
        ensures
            self.members().len() == self.member_count_spec(),
            self.members().finite(),
    {
        self.member_views().unique_seq_to_set();
    }

    /// A fresh room: a fresh random id, an empty member set, a new bounded
    /// broadcast channel, and an empty name.
    pub fn new() -> (r: Self)
        ensures
            r.wf(),
            r.members() == Set::<Seq<char>>::empty(),
            r.member_count_spec() == 0,
            r.name@ == Seq::<char>::empty(),
            r.channel.hist() == Seq::<crate::message::MsgView>::empty(),
            r.channel.cap() == ROOM_CHANNEL_CAPACITY as int,
            r.channel.oldest() == 0,
    {
        let r = RoomState {
            id: fresh_id(),
            name: String::new(),
            user_set: Vec::new(),
            channel: Channel::new(ROOM_CHANNEL_CAPACITY),
        };
        proof {
            assert(r.member_views() =~= Seq::<Seq<char>>::empty());
            assert(r.members() =~= Set::<Seq<char>>::empty());
        }
        r
    }

    /// Whether `u` is present in this room.
    pub fn has_member(&self, u: &String) -> (r: bool)
        ensures
            r == self.members().contains(u@),
    {
        let n = self.user_set.len();
        let mut i: usize = 0;
        while i < n
            invariant
                n == self.user_set@.len(),
                i <= n,
                forall|j: int| 0 <= j < i ==> #[trigger] self.user_set@[j]@ != u@,
            decreases n - i,
        {
            let x: &String = &self.user_set[i];
            if *x == *u {
                proof {
                    assert(self.member_views()[i as int] == u@);
                    assert(self.member_views().contains(u@));
                }
                return true;
            }
            i += 1;
        }
        proof {
            assert(!self.members().contains(u@)) by {
                if self.member_views().contains(u@) {
                    let k = choose|k: int|
                        0 <= k < self.member_views().len() && self.member_views()[k] == u@;
                    assert(self.user_set@[k]@ != u@);
                }
            }
        }
        false
    }

    /// Inserts `u`, which must be absent, into the member set.
    pub fn insert_member(&mut self, u: &String)
        requires
            old(self).wf(),
            !old(self).members().contains(u@),
        ensures
            final(self).wf(),
            final(self).members() == old(self).members().insert(u@),
            final(self).member_count_spec() == old(self).member_count_spec() + 1,
            final(self).id == old(self).id,
            final(self).name == old(self).name,
            final(self).channel == old(self).channel,
    {
        proof {
            assert(forall|j: int|
                0 <= j < old(self).member_views().len() ==> #[trigger] old(self).member_views()[j]
                    != u@) by {
                if exists|j: int|
                    0 <= j < old(self).member_views().len() && #[trigger] old(
                        self,
                    ).member_views()[j] == u@ {
                    assert(old(self).member_views().contains(u@));
                    assert(old(self).members().contains(u@));
                }
            }
        }
        self.user_set.push(u.clone());
        proof {
            assert(self.member_views() =~= old(self).member_views().push(u@));
            assert forall|x: Seq<char>| #[trigger]
                self.members().contains(x) <==> old(self).members().insert(u@).contains(x) by {
                if self.member_views().contains(x) {
                    let k = choose|k: int|
                        0 <= k < self.member_views().len() && self.member_views()[k] == x;
                    if k < old(self).member_views().len() {
                        assert(old(self).member_views().contains(x));
                    }
                }
                if old(self).member_views().contains(x) {
                    let k = choose|k: int|
                        0 <= k < old(self).member_views().len() && old(self).member_views()[k]
                            == x;
                    assert(self.member_views()[k] == x);
                    assert(self.member_views().contains(x));
                }
                if x == u@ {
                    assert(self.member_views()[self.member_views().len() - 1] == u@);
                    assert(self.member_views().contains(u@));
                }
            }
            assert(self.members() =~= old(self).members().insert(u@));
        }
    }

    /// Removes `u` from the member set; removing an absent name changes nothing.
    pub fn remove_member(&mut self, u: &String)
        requires
            old(self).wf(),
        ensures
            final(self).wf(),
            final(self).members() == old(self).members().remove(u@),
            old(self).members().contains(u@) ==> final(self).member_count_spec() == old(
                self,
            ).member_count_spec() - 1,
            !old(self).members().contains(u@) ==> final(self).member_count_spec() == old(
                self,
            ).member_count_spec(),
            final(self).id == old(self).id,
            final(self).name == old(self).name,
            final(self).channel == old(self).channel,
    {
        let ghost pre = old(self).member_views();
        let n = self.user_set.len();
        let mut i: usize = 0;
        while i < n
            invariant
                *self == *old(self),
                old(self).wf(),
                pre == self.member_views(),
                pre.no_duplicates(),
                n == self.user_set@.len(),
                i <= n,
                forall|j: int| 0 <= j < i ==> #[trigger] self.user_set@[j]@ != u@,
            decreases n - i,
        {
            let x: &String = &self.user_set[i];
            if *x == *u {
                proof {
                    assert(pre[i as int] == u@);
                }
                self.user_set.remove(i);
                proof {
                    let post = self.member_views();
                    assert(post =~= pre.subrange(0, i as int) + pre.subrange(
                        i + 1,
                        pre.len() as int,
                    ));
                    assert forall|a: int, b: int|
                        0 <= a < b < post.len() implies post[a] != post[b] by {
                        let pa: int = if a < i { a } else { a + 1 };
                        let pb: int = if b < i { b } else { b + 1 };
                        assert(post[a] == pre[pa]);
                        assert(post[b] == pre[pb]);
                        assert(pre[pa] != pre[pb]);
                    }
                    assert forall|x2: Seq<char>| #[trigger]
                        post.to_set().contains(x2) <==> (pre.to_set().contains(x2) && x2
                        != u@) by {
                        if post.contains(x2) {
                            let k = choose|k: int| 0 <= k < post.len() && post[k] == x2;
                            let pk: int = if k < i { k } else { k + 1 };
                            assert(pre[pk] == x2);
                            assert(pre.contains(x2));
                            assert(pk != i);
                            assert(pre[pk] != pre[i as int]);
                        }
                        if pre.contains(x2) && x2 != u@ {
                            let k = choose|k: int| 0 <= k < pre.len() && pre[k] == x2;
                            assert(k != i);
                            if k < i {
                                assert(post[k] == x2);
                            } else {
                                assert(post[k - 1] == x2);
                            }
                            assert(post.contains(x2));
                        }
                    }
                    assert(self.members() =~= old(self).members().remove(u@));
                    assert(old(self).members().contains(u@)) by {
                        assert(pre.contains(u@));
                    }
                }
                return;
            }
            i += 1;
        }
        proof {
            assert(!pre.contains(u@)) by {
                if pre.contains(u@) {
                    let k = choose|k: int| 0 <= k < pre.len() && pre[k] == u@;
                    assert(self.user_set@[k]@ != u@);
                }
            }
            assert(!old(self).members().contains(u@));
            assert(self.members() =~= old(self).members().remove(u@));
        }
    }

    /// How many usernames are present.
    pub fn member_count(&self) -> (n: usize)
        ensures
            n == self.member_count_spec(),
    {
        self.user_set.len()
    }

    /// The usernames present, for the room-listing surface.
    pub fn member_names(&self) -> (r: &Vec<String>)
        ensures
            r@.map_values(|s: String| s@) == self.member_views(),
    {
        &self.user_set
    }
}

} // verus!
