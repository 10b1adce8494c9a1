use chatty::error::ChattyError;
use chatty::registry::{JoinOutcome, Registry};
use chatty::room::RoomState;

#[test]
fn create_room_then_get_it() {
    let mut reg = Registry::new();
    let id = reg.create_room(String::from("general"));
    let room = match reg.get_room(id) {
        Ok(r) => r,
        Err(_) => panic!("the created room must be found"),
    };
    assert_eq!(room.id, id);
    assert_eq!(room.name, "general");
    assert!(room.member_names().is_empty());
}

#[test]
fn get_unknown_room_reports_room_not_found() {
    let reg = Registry::new();
    match reg.get_room(12345) {
        Ok(_) => panic!("an empty registry holds no room"),
        Err(e) => assert!(matches!(e, ChattyError::RoomNotFound)),
    }
}

#[test]
fn error_messages() {
    assert_eq!(ChattyError::RoomNotFound.message(), "Room not found");
    assert_eq!(ChattyError::ServerError.message(), "Internal server error");
}

#[test]
fn list_rooms_reports_ids_names_and_members() {
    let mut reg = Registry::new();
    let a = reg.create_room(String::from("alpha"));
    let b = reg.create_room(String::from("beta"));
    reg.join(a, &String::from("alice"));
    let listing = reg.list_rooms();
    assert_eq!(listing.len(), 2);
    let entry_a = listing.iter().find(|r| r.id == a).expect("room alpha listed");
    let entry_b = listing.iter().find(|r| r.id == b).expect("room beta listed");
    assert_eq!(entry_a.name, "alpha");
    assert_eq!(entry_a.users, vec![String::from("alice")]);
    assert_eq!(entry_b.name, "beta");
    assert!(entry_b.users.is_empty());
}

#[test]
fn fresh_room_state_is_blank() {
    let room = RoomState::new();
    assert!(room.member_names().is_empty());
    assert_eq!(room.name, "");
}

#[test]
fn remove_room_if_empty_only_removes_empty_rooms() {
    let mut reg = Registry::new();
    let id = reg.create_room(String::from("r"));
    reg.join(id, &String::from("alice"));
    assert!(!reg.remove_room_if_empty(id));
    assert!(reg.get_room(id).is_ok());
    reg.leave(id, &String::from("alice"));
    // leave already removed the emptied room
    assert!(reg.get_room(id).is_err());
    assert!(!reg.remove_room_if_empty(id));
}

#[test]
fn join_unknown_room_is_refused() {
    let mut reg = Registry::new();
    assert!(matches!(
        reg.join(7, &String::from("alice")),
        JoinOutcome::RoomNotFound
    ));
}

#[test]
fn join_taken_username_is_refused_and_member_set_untouched() {
    let mut reg = Registry::new();
    let id = reg.create_room(String::from("r"));
    assert!(matches!(
        reg.join(id, &String::from("alice")),
        JoinOutcome::Joined(_)
    ));
    assert!(matches!(
        reg.join(id, &String::from("alice")),
        JoinOutcome::UsernameTaken
    ));
    let room = reg.get_room(id).ok().expect("room stays");
    assert_eq!(room.member_names(), &vec![String::from("alice")]);
}

#[test]
fn reserved_server_name_cannot_join() {
    let mut reg = Registry::new();
    let id = reg.create_room(String::from("r"));
    assert!(matches!(
        reg.join(id, &String::from("SERVER")),
        JoinOutcome::UsernameTaken
    ));
    let room = reg.get_room(id).ok().expect("room stays");
    assert!(room.member_names().is_empty());
}

#[test]
fn emptied_room_vanishes_and_a_new_room_starts_clean() {
    let mut reg = Registry::new();
    let id = reg.create_room(String::from("r"));
    reg.join(id, &String::from("alice"));
    reg.leave(id, &String::from("alice"));
    assert!(reg.get_room(id).is_err());
    // a later room under the same name is a fresh one, with no stale members
    let id2 = reg.create_room(String::from("r"));
    let room = reg.get_room(id2).ok().expect("fresh room exists");
    assert!(room.member_names().is_empty());
}

#[test]
fn username_uniqueness_is_room_scoped_not_global() {
    let mut reg = Registry::new();
    let a = reg.create_room(String::from("alpha"));
    let b = reg.create_room(String::from("beta"));
    assert!(matches!(
        reg.join(a, &String::from("alice")),
        JoinOutcome::Joined(_)
    ));
    assert!(matches!(
        reg.join(b, &String::from("alice")),
        JoinOutcome::Joined(_)
    ));
    let room_b = reg.get_room(b).ok().expect("room beta exists");
    assert_eq!(room_b.member_names(), &vec![String::from("alice")]);
}
