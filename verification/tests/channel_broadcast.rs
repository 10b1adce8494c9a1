use chatty::channel::{Channel, RecvResult};
use chatty::message::WsMessage;

fn msg(id: u128, text: &str) -> WsMessage {
    WsMessage {
        id,
        sender: String::from("alice"),
        text: String::from(text),
        time: id as i64,
    }
}

#[test]
fn subscriber_sees_publish_order_without_gaps_or_duplicates() {
    let mut ch = Channel::new(8);
    let mut sub = ch.subscribe();
    for i in 0..5u128 {
        ch.publish(msg(i, "m"));
    }
    let got = ch.drain(&mut sub);
    let ids: Vec<u128> = got.iter().map(|m| m.id).collect();
    assert_eq!(ids, vec![0, 1, 2, 3, 4]);
    assert!(matches!(ch.recv(&mut sub), RecvResult::Empty));
}

#[test]
fn subscriber_sees_only_what_follows_its_subscription() {
    let mut ch = Channel::new(8);
    ch.publish(msg(1, "before"));
    let mut sub = ch.subscribe();
    ch.publish(msg(2, "after"));
    let got = ch.drain(&mut sub);
    assert_eq!(got.len(), 1);
    assert_eq!(got[0].id, 2);
}

#[test]
fn lagging_subscriber_drops_oldest_then_resumes_in_order() {
    let mut ch = Channel::new(3);
    let mut sub = ch.subscribe();
    for i in 0..5u128 {
        ch.publish(msg(i, "m"));
    }
    // messages 0 and 1 fell out of the bounded buffer
    match ch.recv(&mut sub) {
        RecvResult::Lagged(n) => assert_eq!(n, 2),
        _ => panic!("expected a lag report"),
    }
    let mut ids: Vec<u128> = Vec::new();
    loop {
        match ch.recv(&mut sub) {
            RecvResult::Msg(m) => ids.push(m.id),
            RecvResult::Empty => break,
            RecvResult::Lagged(_) => panic!("must not lag twice in a row"),
        }
    }
    assert_eq!(ids, vec![2, 3, 4]);
}

#[test]
fn publishers_are_never_blocked_by_a_full_buffer() {
    let mut ch = Channel::new(2);
    let mut sub = ch.subscribe();
    for i in 0..100u128 {
        ch.publish(msg(i, "m"));
    }
    match ch.recv(&mut sub) {
        RecvResult::Lagged(n) => assert_eq!(n, 98),
        _ => panic!("expected a lag report"),
    }
    let got = ch.drain(&mut sub);
    let ids: Vec<u128> = got.iter().map(|m| m.id).collect();
    assert_eq!(ids, vec![98, 99]);
}

#[test]
fn messages_are_cloned_to_each_subscriber() {
    let mut ch = Channel::new(4);
    let mut a = ch.subscribe();
    let mut b = ch.subscribe();
    ch.publish(msg(9, "shared"));
    let ga = ch.drain(&mut a);
    let gb = ch.drain(&mut b);
    assert_eq!(ga.len(), 1);
    assert_eq!(gb.len(), 1);
    assert_eq!(ga[0].text, "shared");
    assert_eq!(gb[0].text, "shared");
    assert_eq!(ga[0].sender, gb[0].sender);
}
