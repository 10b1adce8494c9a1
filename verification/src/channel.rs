//! The bounded broadcast conduit of one room: many publishers, many
//! subscribers, publish order preserved, oldest messages dropped for a
//! subscriber that lags rather than blocking publishers.
use vstd::prelude::*;
use crate::message::{MsgView, WsMessage};

verus! {

/// Outcome of asking a subscription for its next message.
pub enum RecvResult {
    /// The next message, in publish order.
    Msg(WsMessage),
    /// This many undelivered messages were dropped; consumption resumes with
    /// the oldest message still buffered.
    Lagged(u64),
    /// Everything published so far has been delivered.
    Empty,
}

/// A subscription handle: a cursor into one channel's publish history.
pub struct Subscriber {
    cursor: u64,
}

impl Subscriber {
    /// Index into the history of the next message this subscriber takes.
    pub closed spec fn cursor_spec(&self) -> int {
        self.cursor as int
    }
}

/// The broadcast channel: a bounded buffer over an unbounded publish history.
pub struct Channel {
    capacity: usize,
    dropped: u64,
    buffer: Vec<WsMessage>,
    history: Ghost<Seq<MsgView>>,
}

impl Channel {
    /// Every message ever published, in publish order.
    pub closed spec fn hist(&self) -> Seq<MsgView> {
        self.history@
    }

    /// Index of the oldest message still buffered; everything before it is gone.
    pub closed spec fn oldest(&self) -> int {
        self.dropped as int
    }

    /// How many undelivered messages a subscriber may be behind.
    pub closed spec fn cap(&self) -> int {
        self.capacity as int
    }

    /// The buffer holds exactly the tail of the history, at most `cap` long.
    pub closed spec fn wf(&self) -> bool {
        &&& self.capacity >= 1
        &&& self.buffer@.len() <= self.capacity
        &&& self.dropped as int + self.buffer@.len() == self.history@.len()
        &&& self.history@.len() <= u64::MAX
        &&& forall|i: int|
            0 <= i < self.buffer@.len() ==> #[trigger] self.buffer@[i]@ == self.history@[self.dropped
                + i]
    }

    /// A fresh channel with nothing published.
    pub fn new(capacity: usize) -> (c: Self)
        requires
            capacity >= 1,
        ensures
            c.wf(),
            c.hist() == Seq::<MsgView>::empty(),
            c.cap() == capacity,
            c.oldest() == 0,
    {
        Channel { capacity, dropped: 0, buffer: Vec::new(), history: Ghost(Seq::empty()) }
    }

    /// Publishes `m`: appended to the history, never reordered; when the
    /// buffer is full the single oldest buffered message is discarded.
    pub fn publish(&mut self, m: WsMessage)
        requires
            old(self).wf(),
            old(self).hist().len() < u64::MAX,
        ensures
            final(self).wf(),
            final(self).hist() == old(self).hist().push(m@),
            final(self).cap() == old(self).cap(),
            old(self).oldest() <= final(self).oldest() <= old(self).oldest() + 1,
            old(self).hist().len() - old(self).oldest() < old(self).cap() ==> final(self).oldest()
                == old(self).oldest(),
    {
        if self.buffer.len() == self.capacity {
            self.buffer.remove(0);
            self.dropped = self.dropped + 1;
        }
        self.buffer.push(m);
        proof {
            self.history@ = self.history@.push(m@);
        }
    }

    /// A new subscription; it will see exactly what is published after this point.
    pub fn subscribe(&self) -> (s: Subscriber)
        requires
            self.wf(),
        ensures
            s.cursor_spec() == self.hist().len(),
    {
        Subscriber { cursor: self.dropped + self.buffer.len() as u64 }
    }

    /// Whether `s` can consume from this channel.
    pub open spec fn valid_sub(&self, s: Subscriber) -> bool {
        0 <= s.cursor_spec() <= self.hist().len()
    }

    /// The next message for `sub`: the history entry at its cursor, in publish
    /// order; a lagging subscriber is told how many messages it lost and
    /// resumes at the oldest buffered one.
    pub fn recv(&self, sub: &mut Subscriber) -> (r: RecvResult)
        requires
            self.wf(),
            self.valid_sub(*old(sub)),
        ensures
            self.valid_sub(*final(sub)),
            old(sub).cursor_spec() == self.hist().len() ==> r is Empty && final(sub).cursor_spec()
                == old(sub).cursor_spec(),
            old(sub).cursor_spec() < self.oldest() ==> (r matches RecvResult::Lagged(n) && n as int
                == self.oldest() - old(sub).cursor_spec() && final(sub).cursor_spec()
                == self.oldest()),
            self.oldest() <= old(sub).cursor_spec() < self.hist().len() ==> (r matches
                RecvResult::Msg(m) && m@ == self.hist()[old(sub).cursor_spec()]
                && final(sub).cursor_spec() == old(sub).cursor_spec() + 1),
    {
        let blen: u64 = self.buffer.len() as u64;
        let total: u64 = self.dropped + blen;
        if sub.cursor == total {
            return RecvResult::Empty;
        }
        if sub.cursor < self.dropped {
            let n = self.dropped - sub.cursor;
            sub.cursor = self.dropped;
            return RecvResult::Lagged(n);
        }
        let idx: usize = (sub.cursor - self.dropped) as usize;
        let m = self.buffer[idx].clone();
        sub.cursor = sub.cursor + 1;
        RecvResult::Msg(m)
    }

    /// Takes every message now available for `sub`. A subscriber that has not
    /// lagged gets exactly the not-yet-delivered history: publish order, no
    /// duplication, nothing missing.
    pub fn drain(&self, sub: &mut Subscriber) -> (r: Vec<WsMessage>)
        requires
            self.wf(),
            self.valid_sub(*old(sub)),
        ensures
            final(sub).cursor_spec() == self.hist().len(),
            old(sub).cursor_spec() >= self.oldest() ==> r@.map_values(|m: WsMessage| m@)
                == self.hist().subrange(old(sub).cursor_spec(), self.hist().len() as int),
    {
        let ghost c0 = sub.cursor_spec();
        let mut r: Vec<WsMessage> = Vec::new();
        loop
            invariant
                self.wf(),
                self.valid_sub(*sub),
                sub.cursor_spec() >= c0,
                c0 >= self.oldest() ==> r@.map_values(|m: WsMessage| m@) =~= self.hist().subrange(
                    c0,
                    sub.cursor_spec(),
                ),
            ensures
                sub.cursor_spec() == self.hist().len(),
                c0 >= self.oldest() ==> r@.map_values(|m: WsMessage| m@) =~= self.hist().subrange(
                    c0,
                    self.hist().len() as int,
                ),
            decreases self.hist().len() - sub.cursor_spec(),
        {
            let ghost before = sub.cursor_spec();
            match self.recv(sub) {
                RecvResult::Msg(m) => {
                    proof {
                        if c0 >= self.oldest() {
                            assert(r@.push(m).map_values(|x: WsMessage| x@) =~= self.hist()
                                .subrange(c0, before + 1));
                        }
                    }
                    r.push(m);
                },
                RecvResult::Lagged(_) => {
                },
                RecvResult::Empty => {
                    break;
                },
            }
        }
        r
    }
}

} // verus!
