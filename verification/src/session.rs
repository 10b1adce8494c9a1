//! The per-connection session state machine: handshake, relay decisions, and
//! teardown. The transport (socket reads, writes, task scheduling) is outside;
//! it feeds frames in and carries replies out.
use vstd::prelude::*;
use vstd::pervasive::unreached;
use crate::channel::Subscriber;
use crate::codec::{decode_join, decode_join_spec, decode_message, decode_msg_spec};
use crate::message::{server_name, MsgView};
use crate::registry::{JoinOutcome, Registry};

verus! {

/// Where a connection session stands.
pub enum SessionState {
    /// Pre-handshake: reading frames until a well-formed join request arrives.
    Connecting,
    /// Admitted: bound to one room under one username, relaying.
    Active { room_id: u128, username: String },
    /// Terminal: nothing further is read or written.
    Closed,
}

/// What the session asks its transport to do after a handshake frame.
pub enum HandshakeReply {
    /// Admitted: relay against this subscription.
    Accepted(Subscriber),
    /// Refused: send this notice to the client, then close.
    Refused(String),
}

/// One session, driving one physical connection from handshake to teardown.
pub struct Session {
    /// Connecting, then Active under at most one (room, username) binding,
    /// then Closed.
    pub state: SessionState,
}

impl Session {
    /// Whether the session is relaying.
    pub open spec fn is_active(&self) -> bool {
        self.state is Active
    }

    /// The bound room while active.
    pub open spec fn room_id_spec(&self) -> u128 {
        match self.state {
            SessionState::Active { room_id, .. } => room_id,
            _ => 0,
        }
    }

    /// The bound username while active.
    pub open spec fn username_spec(&self) -> Seq<char> {
        match self.state {
            SessionState::Active { username, .. } => username@,
            _ => Seq::empty(),
        }
    }

    /// A fresh session for a newly upgraded connection.
    pub fn new() -> (s: Self)
        ensures
            s.state is Connecting,
    {
        Session { state: SessionState::Connecting }
    }

    /// One handshake frame. A malformed frame, an unknown room, or a taken
    /// (or reserved) username each refuse the connection with a notice and
    /// close the session; a free username is inserted, subscribed, and
    /// announced in one atomic step against the registry.
    pub fn on_handshake_frame(&mut self, reg: &mut Registry, frame: &str) -> (r: HandshakeReply)
        requires
            old(self).state is Connecting,
            old(reg).wf(),
            (decode_join_spec(frame@) matches Some(p) && old(reg).has_room(p.0)) ==> old(reg).room(
                decode_join_spec(frame@)->Some_0.0,
            ).channel.hist().len() < u64::MAX,
        ensures
            final(reg).wf(),
            decode_join_spec(frame@) is None ==> {
                &&& final(self).state is Closed
                &&& *final(reg) == *old(reg)
                &&& r matches HandshakeReply::Refused(n) && n@ == "Failed to parse connect message"@
            },
            decode_join_spec(frame@) matches Some(p) ==> {
                &&& old(reg).join_ok(p.0, p.1) ==> {
                    &&& final(self).state matches SessionState::Active { room_id, username }
                        && room_id == p.0 && username@ == p.1
                    &&& final(reg).room(p.0).members() == old(reg).room(p.0).members().insert(p.1)
                    &&& final(reg).room(p.0).channel.hist().len() == old(reg).room(
                        p.0,
                    ).channel.hist().len() + 1
                    &&& final(reg).room(p.0).channel.hist().last().sender == server_name()
                    &&& final(reg).room(p.0).channel.hist().last().text == p.1 + " joined"@
                    &&& r matches HandshakeReply::Accepted(sub) && sub.cursor_spec() == old(reg).room(p.0).channel.hist().len()
                }
                &&& !old(reg).has_room(p.0) ==> {
                    &&& final(self).state is Closed
                    &&& *final(reg) == *old(reg)
                    &&& r matches HandshakeReply::Refused(n) && n@ == "Room not found"@
                }
                &&& (old(reg).has_room(p.0) && !old(reg).join_ok(p.0, p.1)) ==> {
                    &&& final(self).state is Closed
                    &&& *final(reg) == *old(reg)
                    &&& r matches HandshakeReply::Refused(n) && n@ == "Username is already taken"@
                }
            },
            forall|id2: u128| #[trigger] final(reg).has_room(id2) == old(reg).has_room(id2),
    {
        match decode_join(frame) {
            None => {
                self.state = SessionState::Closed;
                HandshakeReply::Refused("Failed to parse connect message".to_owned())
            },
            Some((room_id, username)) => {
                match reg.join(room_id, &username) {
                    JoinOutcome::Joined(sub) => {
                        self.state = SessionState::Active { room_id, username };
                        HandshakeReply::Accepted(sub)
                    },
                    JoinOutcome::RoomNotFound => {
                        self.state = SessionState::Closed;
                        HandshakeReply::Refused("Room not found".to_owned())
                    },
                    JoinOutcome::UsernameTaken => {
                        self.state = SessionState::Closed;
                        HandshakeReply::Refused("Username is already taken".to_owned())
                    },
                }
            },
        }
    }

    /// One frame read from the client while active. A frame that decodes is
    /// published to the bound room with its sender replaced by the bound
    /// username — the client-carried sender is never trusted; a frame that
    /// does not decode is dropped and the session goes on.
    pub fn on_client_frame(&self, reg: &mut Registry, frame: &str) -> (published: bool)
        requires
            self.is_active(),
            old(reg).wf(),
            old(reg).has_room(self.room_id_spec()) ==> old(reg).room(
                self.room_id_spec(),
            ).channel.hist().len() < u64::MAX,
        ensures
            final(reg).wf(),
            decode_msg_spec(frame@) is None ==> !published && *final(reg) == *old(reg),
            decode_msg_spec(frame@) matches Some(m) ==> {
                &&& published == old(reg).has_room(self.room_id_spec())
                &&& !published ==> *final(reg) == *old(reg)
                &&& published ==> {
                    &&& final(reg).room(self.room_id_spec()).channel.hist() == old(reg).room(
                        self.room_id_spec(),
                    ).channel.hist().push(
                        MsgView {
                            id: m.id,
                            sender: self.username_spec(),
                            text: m.text,
                            time: m.time,
                        },
                    )
                    &&& final(reg).room(self.room_id_spec()).members() == old(reg).room(
                        self.room_id_spec(),
                    ).members()
                }
            },
            forall|id2: u128|
                id2 != self.room_id_spec() ==> #[trigger] final(reg).has_room(id2) == old(reg).has_room(id2),
            forall|id2: u128|
                old(reg).has_room(id2) && id2 != self.room_id_spec() ==> #[trigger] final(reg).room(id2) == old(reg).room(id2),
    {
        let (room_id, uname): (u128, &String) = match &self.state {
            SessionState::Active { room_id, username } => (*room_id, username),
            _ => unreached(),
        };
        match decode_message(frame) {
            None => false,
            Some(mut m) => {
                m.sender = uname.clone();
                reg.publish(room_id, m)
            },
        }
    }

    /// Teardown after the relay ends, one atomic step against the registry:
    /// the left notice is published, the username leaves the member set, and
    /// a room left empty is removed; the session closes.
    pub fn finish(&mut self, reg: &mut Registry)
        requires
            old(self).is_active(),
            old(reg).wf(),
            old(reg).has_room(old(self).room_id_spec()) ==> old(reg).room(
                old(self).room_id_spec(),
            ).channel.hist().len() < u64::MAX,
        ensures
            final(self).state is Closed,
            final(reg).wf(),
            !old(reg).has_room(old(self).room_id_spec()) ==> *final(reg) == *old(reg),
            old(reg).has_room(old(self).room_id_spec()) && old(reg).room(
                old(self).room_id_spec(),
            ).members().remove(old(self).username_spec()) == Set::<Seq<char>>::empty() ==> !final(reg).has_room(old(self).room_id_spec()),
            old(reg).has_room(old(self).room_id_spec()) && old(reg).room(
                old(self).room_id_spec(),
            ).members().remove(old(self).username_spec()) != Set::<Seq<char>>::empty() ==> {
                &&& final(reg).has_room(old(self).room_id_spec())
                &&& final(reg).room(old(self).room_id_spec()).members() == old(reg).room(
                    old(self).room_id_spec(),
                ).members().remove(old(self).username_spec())
                &&& final(reg).room(old(self).room_id_spec()).channel.hist().len() == old(reg).room(
                    old(self).room_id_spec(),
                ).channel.hist().len() + 1
                &&& final(reg).room(old(self).room_id_spec()).channel.hist().last().sender
                    == server_name()
                &&& final(reg).room(old(self).room_id_spec()).channel.hist().last().text == old(self).username_spec() + " left"@
            },
            forall|id2: u128|
                id2 != old(self).room_id_spec() ==> #[trigger] final(reg).has_room(id2) == old(reg).has_room(id2),
            forall|id2: u128|
                old(reg).has_room(id2) && id2 != old(self).room_id_spec() ==> #[trigger] final(reg).room(id2) == old(reg).room(id2),
    {
        match &self.state {
            SessionState::Active { room_id, username } => {
                let rid: u128 = *room_id;
                reg.leave(rid, username);
            },
            _ => unreached(),
        }
        self.state = SessionState::Closed;
    }
}

} // verus!
