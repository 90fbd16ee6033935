use rustems::device::{
    bare_control_request, connect_step, empty_message, ConnectAction, ConnectEvent, ConnectState,
    CTRL_CHALLENGE, CTRL_PING, MSG_CONNECT,
};
use rustems::frame::ack_packet;

fn listing_reply() -> Vec<u8> {
    vec![0x05, 0x00, 0x05, 0x03, b'{', b'}']
}

fn step(s: ConnectState, e: ConnectEvent) -> (ConnectState, ConnectAction) {
    assert!(s.accepts(&e));
    connect_step(s, e)
}

/// Runs the handshake up to the first ping and returns the state then.
fn up_to_first_ping() -> ConnectState {
    let (s, a) = step(ConnectState::Start, ConnectEvent::Finished);
    assert!(matches!(a, ConnectAction::Drain));
    let (s, a) = step(s, ConnectEvent::Finished);
    match a {
        ConnectAction::Exchange(m) => assert_eq!(m, empty_message(MSG_CONNECT)),
        _ => panic!("CONNECT expected"),
    }
    let (s, a) = step(s, ConnectEvent::Reply(vec![0x01, 0x00, 0x02]));
    match a {
        ConnectAction::Exchange(m) => {
            assert_eq!(m, bare_control_request(CTRL_CHALLENGE));
            assert_eq!(m, vec![0x02, 0x00, 0x04, 0x12]);
        }
        _ => panic!("challenge expected"),
    }
    let (s, a) = step(s, ConnectEvent::Reply(vec![0x01, 0x00, 0x04]));
    match a {
        ConnectAction::Send(m) => assert_eq!(m, ack_packet()),
        _ => panic!("ACK expected"),
    }
    let (s, a) = step(s, ConnectEvent::Finished);
    match a {
        ConnectAction::Exchange(m) => assert_eq!(m, bare_control_request(CTRL_PING)),
        _ => panic!("ping expected"),
    }
    assert_eq!(s, ConnectState::AwaitPingReply(1));
    s
}

#[test]
fn handshake_connects_on_listing() {
    let s = up_to_first_ping();
    let (s, a) = step(s, ConnectEvent::Reply(listing_reply()));
    assert_eq!(s, ConnectState::Connected);
    match a {
        ConnectAction::Connected(p) => assert_eq!(p, listing_reply()),
        _ => panic!("connected expected"),
    }
}

#[test]
fn handshake_retries_then_connects() {
    let mut s = up_to_first_ping();
    let (next, a) = step(s, ConnectEvent::Reply(vec![0x01, 0x00, 0x00]));
    assert_eq!(next, ConnectState::Retrying(1));
    assert!(matches!(a, ConnectAction::DrainAndWait));
    let (next, a) = step(next, ConnectEvent::Finished);
    assert_eq!(next, ConnectState::AwaitPingReply(2));
    assert!(matches!(a, ConnectAction::Exchange(_)));
    s = next;
    let (s, a) = step(s, ConnectEvent::Reply(listing_reply()));
    assert_eq!(s, ConnectState::Connected);
    assert!(matches!(a, ConnectAction::Connected(_)));
}

#[test]
fn handshake_fails_after_five_pings() {
    let mut s = up_to_first_ping();
    let mut pings = 1;
    loop {
        let (next, a) = step(s, ConnectEvent::Reply(vec![0x03, 0x00, 0x04, 0x03, 0x00]));
        assert!(matches!(a, ConnectAction::DrainAndWait));
        let (after, a) = step(next, ConnectEvent::Finished);
        match a {
            ConnectAction::Exchange(_) => {
                pings += 1;
                s = after;
            }
            ConnectAction::Fail => {
                assert_eq!(after, ConnectState::Failed);
                break;
            }
            _ => panic!("ping or failure expected"),
        }
    }
    assert_eq!(pings, 5);
}

#[test]
fn handshake_refuses_out_of_order_events() {
    assert!(!ConnectState::Start.accepts(&ConnectEvent::Reply(vec![])));
    assert!(!ConnectState::AwaitPingReply(1).accepts(&ConnectEvent::Finished));
    assert!(!ConnectState::AwaitPingReply(6).accepts(&ConnectEvent::Reply(vec![])));
    assert!(!ConnectState::Connected.accepts(&ConnectEvent::Finished));
    assert!(ConnectState::Retrying(5).accepts(&ConnectEvent::Finished));
}
