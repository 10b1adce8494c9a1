use chatty::channel::RecvResult;
use chatty::codec::{decode_message, encode_join, encode_message};
use chatty::message::WsMessage;
use chatty::registry::Registry;
use chatty::session::{HandshakeReply, Session, SessionState};

fn member_names(reg: &Registry, room_id: u128) -> Vec<String> {
    match reg.get_room(room_id) {
        Ok(room) => room.member_names().clone(),
        Err(_) => panic!("room expected to exist"),
    }
}

#[test]
fn full_room_lifecycle_scenario() {
    let mut reg = Registry::new();
    let room = reg.create_room(String::from("general"));

    // client A joins room "general" as "alice"
    let mut alice = Session::new();
    let mut alice_sub = match alice.on_handshake_frame(&mut reg, &encode_join(room, "alice")) {
        HandshakeReply::Accepted(sub) => sub,
        HandshakeReply::Refused(_) => panic!("alice's join must be admitted"),
    };
    assert_eq!(member_names(&reg, room), vec![String::from("alice")]);

    // the joined notice was broadcast with the reserved server sender
    let joined = match reg.get_room(room).unwrap_or_else(|_| panic!()).channel.recv(&mut alice_sub)
    {
        RecvResult::Msg(m) => m,
        _ => panic!("alice must see the joined notice"),
    };
    assert_eq!(joined.sender, "SERVER");
    assert_eq!(joined.text, "alice joined");

    // client B tries to join as "alice": refused, member set untouched
    let mut imposter = Session::new();
    match imposter.on_handshake_frame(&mut reg, &encode_join(room, "alice")) {
        HandshakeReply::Refused(notice) => assert_eq!(notice, "Username is already taken"),
        HandshakeReply::Accepted(_) => panic!("a taken username must be refused"),
    }
    assert!(matches!(imposter.state, SessionState::Closed));
    assert_eq!(member_names(&reg, room), vec![String::from("alice")]);

    // client B joins as "bob"
    let mut bob = Session::new();
    let mut bob_sub = match bob.on_handshake_frame(&mut reg, &encode_join(room, "bob")) {
        HandshakeReply::Accepted(sub) => sub,
        HandshakeReply::Refused(_) => panic!("bob's join must be admitted"),
    };
    assert_eq!(
        member_names(&reg, room),
        vec![String::from("alice"), String::from("bob")]
    );

    // alice sends "hi"; the frame's sender field is spoofed and must be
    // overwritten with the session's bound username
    let spoofed = WsMessage {
        id: 77,
        sender: String::from("mallory"),
        text: String::from("hi"),
        time: 1000,
    };
    assert!(alice.on_client_frame(&mut reg, &encode_message(&spoofed)));
    for sub in [&mut alice_sub, &mut bob_sub] {
        let mut saw_hi = false;
        loop {
            match reg.get_room(room).unwrap_or_else(|_| panic!()).channel.recv(sub) {
                RecvResult::Msg(m) => {
                    if m.text == "hi" {
                        assert_eq!(m.sender, "alice");
                        assert_eq!(m.id, 77);
                        assert_eq!(m.time, 1000);
                        saw_hi = true;
                    }
                },
                RecvResult::Empty => break,
                RecvResult::Lagged(_) => panic!("nobody lags in this scenario"),
            }
        }
        assert!(saw_hi);
    }

    // alice's connection drops abruptly: teardown runs all the same
    alice.finish(&mut reg);
    assert!(matches!(alice.state, SessionState::Closed));
    assert_eq!(member_names(&reg, room), vec![String::from("bob")]);
    let left = match reg.get_room(room).unwrap_or_else(|_| panic!()).channel.recv(&mut bob_sub) {
        RecvResult::Msg(m) => m,
        _ => panic!("bob must see the leave notice"),
    };
    assert_eq!(left.sender, "SERVER");
    assert_eq!(left.text, "alice left");

    // bob disconnects: the emptied room is removed from the registry
    bob.finish(&mut reg);
    assert!(reg.get_room(room).is_err());
}

#[test]
fn malformed_handshake_closes_with_a_notice() {
    let mut reg = Registry::new();
    let mut s = Session::new();
    match s.on_handshake_frame(&mut reg, "not a join frame") {
        HandshakeReply::Refused(notice) => assert_eq!(notice, "Failed to parse connect message"),
        HandshakeReply::Accepted(_) => panic!("a malformed frame must be refused"),
    }
    assert!(matches!(s.state, SessionState::Closed));
}

#[test]
fn handshake_to_unknown_room_closes_with_a_notice() {
    let mut reg = Registry::new();
    let mut s = Session::new();
    match s.on_handshake_frame(&mut reg, &encode_join(31337, "alice")) {
        HandshakeReply::Refused(notice) => assert_eq!(notice, "Room not found"),
        HandshakeReply::Accepted(_) => panic!("an unknown room must be refused"),
    }
    assert!(matches!(s.state, SessionState::Closed));
}

#[test]
fn undecodable_client_frame_is_dropped_and_session_goes_on() {
    let mut reg = Registry::new();
    let room = reg.create_room(String::from("r"));
    let mut alice = Session::new();
    let mut sub = match alice.on_handshake_frame(&mut reg, &encode_join(room, "alice")) {
        HandshakeReply::Accepted(sub) => sub,
        HandshakeReply::Refused(_) => panic!("join must be admitted"),
    };
    assert!(!alice.on_client_frame(&mut reg, "garbage that is no message frame"));
    // the session is still relaying: a good frame afterwards goes through
    let m = WsMessage {
        id: 1,
        sender: String::new(),
        text: String::from("still here"),
        time: 2,
    };
    assert!(alice.on_client_frame(&mut reg, &encode_message(&m)));
    let mut texts: Vec<String> = Vec::new();
    loop {
        match reg.get_room(room).unwrap_or_else(|_| panic!()).channel.recv(&mut sub) {
            RecvResult::Msg(m) => texts.push(m.text),
            _ => break,
        }
    }
    assert_eq!(
        texts,
        vec![String::from("alice joined"), String::from("still here")]
    );
}

#[test]
fn blank_message_has_fresh_empty_fields() {
    let m = WsMessage::new();
    assert_eq!(m.sender, "");
    assert_eq!(m.text, "");
    let decoded = decode_message(&encode_message(&m)).expect("blank message round-trips");
    assert_eq!(decoded.id, m.id);
    assert_eq!(decoded.time, m.time);
}

#[test]
fn server_notice_carries_reserved_sender() {
    let n = WsMessage::server_notice(&String::from("alice"), " joined");
    assert_eq!(n.sender, "SERVER");
    assert_eq!(n.text, "alice joined");
}
