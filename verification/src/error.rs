//! Error taxonomy of the relay core.
use vstd::prelude::*;

verus! {

/// Failures surfaced by the room-management surface.
pub enum ChattyError {
    /// Internal failure (resource allocation, poisoned lock); fatal to the request.
    ServerError,
    /// A lookup named a room id that the registry does not hold.
    RoomNotFound,
}

impl ChattyError {
    /// Text shown to a client for this error.
    pub fn message(&self) -> (r: String)
        ensures
            *self is ServerError ==> r@ == "Internal server error"@,
            *self is RoomNotFound ==> r@ == "Room not found"@,
    {
        match self {
            ChattyError::ServerError => "Internal server error".to_owned(),
            ChattyError::RoomNotFound => "Room not found".to_owned(),
        }
    }
}

} // verus!
