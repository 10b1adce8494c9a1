//! Cross-function laws of the relay core, stated over the same spec functions
//! its executable contracts use.
use vstd::prelude::*;
use crate::registry::Registry;

verus! {

/// Exclusivity of a username within a room. When a join is admitted (the
/// contract of `Registry::join` inserts the username), a rival join to the
/// same room with the same username, serialized after it by the registry's
/// atomic step, finds the name present and is refused as taken: of two such
/// joins exactly one succeeds, and the member set — a set of distinct names,
/// kept duplicate-free by every room's invariant — never holds the name twice.
pub proof fn lemma_join_exclusive(
    pre: Registry,
    post: Registry,
    room_id: u128,
    username: Seq<char>,
)
    requires
        pre.wf(),
        pre.join_ok(room_id, username),
        post.has_room(room_id),
        post.room(room_id).members() == pre.room(room_id).members().insert(username),
    ensures
        post.room(room_id).members().contains(username),
        !post.join_ok(room_id, username),
{
}

/// One room-scoped lifecycle step of some session.
pub ghost enum RoomEvent {
    /// A session was admitted under this username.
    Joined(Seq<char>),
    /// The active session bound to this username tore down.
    Left(Seq<char>),
}

/// The member set after a run of events, folded exactly as the join and leave
/// contracts change it: insert on admission, remove on teardown.
pub open spec fn members_after(events: Seq<RoomEvent>) -> Set<Seq<char>>
    decreases events.len(),
{
    if events.len() == 0 {
        Set::empty()
    } else {
        let prev = members_after(events.drop_last());
        match events.last() {
            RoomEvent::Joined(u) => prev.insert(u),
            RoomEvent::Left(u) => prev.remove(u),
        }
    }
}

/// How many sessions are active after a run of events: each admission opens
/// one binding, each teardown closes one.
pub open spec fn active_sessions_after(events: Seq<RoomEvent>) -> int
    decreases events.len(),
{
    if events.len() == 0 {
        0
    } else {
        match events.last() {
            RoomEvent::Joined(_) => active_sessions_after(events.drop_last()) + 1,
            RoomEvent::Left(_) => active_sessions_after(events.drop_last()) - 1,
        }
    }
}

/// A run of events a room can actually see: a join is admitted only for a
/// username not yet present (the join contract), and only a session that is
/// relaying — whose username stands in the member set — tears down.
pub open spec fn wf_trace(events: Seq<RoomEvent>) -> bool
    decreases events.len(),
{
    if events.len() == 0 {
        true
    } else {
        &&& wf_trace(events.drop_last())
        &&& match events.last() {
            RoomEvent::Joined(u) => !members_after(events.drop_last()).contains(u),
            RoomEvent::Left(u) => members_after(events.drop_last()).contains(u),
        }
    }
}

/// After any run of joins and teardowns a room can see — abrupt transport
/// failure included, since teardown runs either way — the member set is
/// exactly as large as the number of sessions still active in the room.
pub proof fn lemma_member_count_matches_active_sessions(events: Seq<RoomEvent>)
    requires
        wf_trace(events),
    ensures
        members_after(events).finite(),
        members_after(events).len() == active_sessions_after(events),
    decreases events.len(),
{
    if events.len() > 0 {
        lemma_member_count_matches_active_sessions(events.drop_last());
    }
}

} // verus!
