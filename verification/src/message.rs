//! The relayed message and the identifiers and timestamps it carries.
use vstd::prelude::*;

verus! {

/// Mathematical value of a relayed message: its four fields.
#[verifier::ext_equal]
pub ghost struct MsgView {
    pub id: u128,
    pub sender: Seq<char>,
    pub text: Seq<char>,
    pub time: i64,
}

/// The username reserved for server-synthesized notices.
pub open spec fn server_name() -> Seq<char> {
    "SERVER"@
}

/// One relayed chat message, immutable once created: client-authored or
/// server-synthesized (join and leave notices).
pub struct WsMessage {
    /// Unique per message, assigned by whichever party originates it.
    pub id: u128,
    /// Username of the originator; `SERVER` is reserved for notices.
    pub sender: String,
    /// Payload, opaque to the core.
    pub text: String,
    /// Origination timestamp, milliseconds since the epoch.
    pub time: i64,
}

impl View for WsMessage {
    type V = MsgView;

    open spec fn view(&self) -> MsgView {
        MsgView { id: self.id, sender: self.sender@, text: self.text@, time: self.time }
    }
}

impl Clone for WsMessage {
    fn clone(&self) -> (r: Self)
        ensures
            r@ == self@,
    {
        WsMessage {
            id: self.id,
            sender: self.sender.clone(),
            text: self.text.clone(),
            time: self.time,
        }
    }
}

/// Relies on `uuid::Uuid::new_v4` for a random 128-bit identifier;
/// nothing is promised of the value.
#[verifier::external_body]
pub(crate) fn fresh_id() -> u128 {
    uuid::Uuid::new_v4().as_u128()
}

/// Relies on `chrono::Utc::now().timestamp_millis`; the clock decides
/// the value, so nothing is promised of it.
#[verifier::external_body]
pub(crate) fn now_millis() -> i64 {
    chrono::Utc::now().timestamp_millis()
}

impl WsMessage {
    /// A blank message stamped with a fresh identifier and the current time.
    pub fn new() -> (m: Self)
        ensures
            m@.sender == Seq::<char>::empty(),
            m@.text == Seq::<char>::empty(),
    {
        WsMessage { id: fresh_id(), sender: String::new(), text: String::new(), time: now_millis() }
    }

    /// A server-synthesized notice: sender is the reserved name, the text is
    /// the username followed by `suffix` (" joined" or " left").
    pub fn server_notice(username: &String, suffix: &str) -> (m: Self)
        ensures
            m@.sender == server_name(),
            m@.text == username@ + suffix@,
    {
        let text = username.clone().concat(suffix);
        WsMessage { id: fresh_id(), sender: "SERVER".to_owned(), text, time: now_millis() }
    }
}

} // verus!
