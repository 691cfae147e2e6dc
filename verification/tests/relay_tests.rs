use message_io::network::{Endpoint, ResourceId};
use readonly::relay::{Peer, RelayEvent, RelayOutcome, RelayState};

const TCP: u8 = 0;
const WS: u8 = 3;

fn peer(key: usize, adapter: u8) -> Peer {
    // A local UDP resource id, the only kind an endpoint can be built from.
    let endpoint = Endpoint::from_listener(ResourceId::from(0x80 | 2), "127.0.0.1:4000".parse().unwrap());
    Peer { key, adapter, endpoint }
}

fn targets(o: &RelayOutcome) -> Vec<usize> {
    match o {
        RelayOutcome::Broadcast(t) => t.iter().map(|p| p.key).collect(),
        _ => panic!("not a broadcast"),
    }
}

#[test]
fn relay_forwards_authenticated_data_to_websocket_clients() {
    let mut s = RelayState::new(TCP, WS, "radar-key");
    assert!(matches!(s.handle(RelayEvent::Accepted(peer(100, WS))), RelayOutcome::AcceptedWebSocket));
    assert!(matches!(s.handle(RelayEvent::Accepted(peer(101, WS))), RelayOutcome::AcceptedWebSocket));
    assert!(matches!(s.handle(RelayEvent::Accepted(peer(7, TCP))), RelayOutcome::AcceptedTcp));
    assert_eq!(s.ws_count(), 2);
    assert!(matches!(
        s.handle(RelayEvent::Message(peer(7, TCP), b"radar-key".to_vec())),
        RelayOutcome::Authenticated
    ));
    let o = s.handle(RelayEvent::Message(peer(7, TCP), b"{\"Players\":[]}".to_vec()));
    assert_eq!(targets(&o), vec![100, 101]);
}

#[test]
fn relay_rejects_wrong_key_and_other_clients() {
    let mut s = RelayState::new(TCP, WS, "key");
    assert!(matches!(s.handle(RelayEvent::Message(peer(7, TCP), b"nope".to_vec())), RelayOutcome::AuthRejected));
    assert!(matches!(s.handle(RelayEvent::Message(peer(7, TCP), vec![0xff, 0xfe])), RelayOutcome::AuthNotUtf8));
    assert!(matches!(s.handle(RelayEvent::Message(peer(8, TCP), b"key".to_vec())), RelayOutcome::Authenticated));
    assert!(matches!(s.handle(RelayEvent::Message(peer(7, TCP), b"data".to_vec())), RelayOutcome::Unauthorized));
    assert!(matches!(s.handle(RelayEvent::Message(peer(9, TCP), b"key".to_vec())), RelayOutcome::Unauthorized));
    let o = s.handle(RelayEvent::Message(peer(8, TCP), b"data".to_vec()));
    assert!(targets(&o).is_empty());
}

#[test]
fn relay_ignores_messages_from_websocket_clients() {
    let mut s = RelayState::new(TCP, WS, "key");
    assert!(matches!(s.handle(RelayEvent::Message(peer(100, WS), b"key".to_vec())), RelayOutcome::UnexpectedMessage));
    assert!(matches!(s.handle(RelayEvent::Message(peer(8, TCP), b"key".to_vec())), RelayOutcome::Authenticated));
}

#[test]
fn relay_forgets_disconnected_clients() {
    let mut s = RelayState::new(TCP, WS, "key");
    s.handle(RelayEvent::Accepted(peer(100, WS)));
    s.handle(RelayEvent::Accepted(peer(101, WS)));
    s.handle(RelayEvent::Accepted(peer(100, WS)));
    assert_eq!(s.ws_count(), 2);
    s.handle(RelayEvent::Message(peer(8, TCP), b"key".to_vec()));
    assert!(matches!(s.handle(RelayEvent::Disconnected(peer(100, WS))), RelayOutcome::Disconnected(false)));
    assert_eq!(s.ws_count(), 1);
    let o = s.handle(RelayEvent::Message(peer(8, TCP), b"x".to_vec()));
    assert_eq!(targets(&o), vec![101]);
    assert!(matches!(s.handle(RelayEvent::Disconnected(peer(8, TCP))), RelayOutcome::Disconnected(true)));
    // the key must be sent again
    assert!(matches!(s.handle(RelayEvent::Message(peer(8, TCP), b"x".to_vec())), RelayOutcome::AuthRejected));
    assert!(matches!(s.handle(RelayEvent::Message(peer(9, TCP), b"key".to_vec())), RelayOutcome::Authenticated));
}

#[test]
fn relay_connected_changes_nothing() {
    let mut s = RelayState::new(TCP, WS, "key");
    assert!(matches!(s.handle(RelayEvent::Connected(peer(1, TCP))), RelayOutcome::Connected));
    assert_eq!(s.ws_count(), 0);
}
