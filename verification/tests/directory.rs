use axum::extract::ws::Message;
use room_signaling::count::parse_count;
use room_signaling::room::{ClientAddr, PeerId, RequestedRoom, RoomId};
use room_signaling::state::{DirectoryError, Handoff, Peer, ServerState};
use room_signaling::topology::MatchmakingDemoTopology;
use tokio::sync::mpsc::unbounded_channel;

fn v4(port: u16) -> ClientAddr {
    ClientAddr::V4 { octets: 0x0a00_0001, port }
}

/// Checks a count against what the standard library reads in the same text.
fn use_count(text: &str, expected: Option<usize>) {
    assert_eq!(parse_count(text), expected);
    assert_eq!(text.parse::<usize>().ok(), expected);
}

fn named(id: &str, next: Option<usize>) -> RequestedRoom {
    RequestedRoom { id: RoomId(id.to_string()), next }
}

#[test]
fn pending_address_is_refused_twice() {
    let mut state = ServerState::new();
    assert_eq!(state.add_waiting_client(v4(1), named("a", None)), Ok(()));
    assert_eq!(state.add_waiting_client(v4(1), named("b", None)), Err(DirectoryError::DuplicateAddress));
    // The first request stands.
    assert_eq!(state.assign_id_to_waiting_client(v4(1), 7), Ok(named("a", None)));
    // Once promoted, the address is free again.
    assert_eq!(state.add_waiting_client(v4(1), named("b", None)), Ok(()));
}

#[test]
fn promoting_an_unknown_address_fails() {
    let mut state = ServerState::new();
    assert_eq!(state.assign_id_to_waiting_client(v4(9), 7), Err(DirectoryError::UnknownAddress));
    state.add_waiting_client(v4(9), named("a", Some(2))).unwrap();
    assert_eq!(state.assign_id_to_waiting_client(v4(9), 7), Ok(named("a", Some(2))));
    assert_eq!(state.assign_id_to_waiting_client(v4(9), 8), Err(DirectoryError::UnknownAddress));
}

#[test]
fn addresses_differ_by_every_field() {
    let mut state = ServerState::new();
    let a = ClientAddr::V6 { segments: 1, port: 80, flowinfo: 0, scope_id: 0 };
    let b = ClientAddr::V6 { segments: 1, port: 80, flowinfo: 0, scope_id: 1 };
    let c = ClientAddr::V4 { octets: 1, port: 80 };
    assert_eq!(state.add_waiting_client(a, named("a", None)), Ok(()));
    assert_eq!(state.add_waiting_client(b, named("b", None)), Ok(()));
    assert_eq!(state.add_waiting_client(c, named("c", None)), Ok(()));
    assert_eq!(state.assign_id_to_waiting_client(b, 2), Ok(named("b", None)));
    assert_eq!(state.assign_id_to_waiting_client(c, 3), Ok(named("c", None)));
    assert_eq!(state.assign_id_to_waiting_client(a, 1), Ok(named("a", None)));
}

#[test]
fn claiming_takes_the_pending_room_once() {
    let mut state = ServerState::new();
    assert_eq!(state.remove_waiting_peer(5), Err(DirectoryError::UnknownPendingPeer));
    state.add_waiting_client(v4(2), named("x", Some(3))).unwrap();
    // Pending by address is not yet pending by identity.
    assert_eq!(state.remove_waiting_peer(5), Err(DirectoryError::UnknownPendingPeer));
    state.assign_id_to_waiting_client(v4(2), 5).unwrap();
    assert_eq!(state.remove_waiting_peer(5), Ok(named("x", Some(3))));
    assert_eq!(state.remove_waiting_peer(5), Err(DirectoryError::UnknownPendingPeer));
}

#[test]
fn joining_without_a_pending_room_fails() {
    let mut state = ServerState::new();
    let (tx, _rx) = unbounded_channel();
    match MatchmakingDemoTopology::join(&mut state, 1, tx) {
        Err(e) => assert_eq!(e, DirectoryError::UnknownPendingPeer),
        Ok(_) => panic!("nothing was pending"),
    }
    assert!(state.get_peer(&1).is_none());
}

#[test]
fn add_peer_returns_those_who_waited_before() {
    let mut state = ServerState::new();
    let (tx, _rx) = unbounded_channel();
    let first = state.add_peer(Peer { uuid: 10, room: named("q", None), sender: tx.clone() });
    assert_eq!(first, Vec::<PeerId>::new());
    let second = state.add_peer(Peer { uuid: 11, room: named("q", None), sender: tx.clone() });
    assert_eq!(second, vec![10]);
    let peer = state.get_peer(&11).unwrap();
    assert_eq!(peer.uuid, 11);
    assert_eq!(peer.room, named("q", None));
    assert!(state.get_peer(&12).is_none());
}

#[test]
fn a_peer_is_listed_once_however_often_it_joins() {
    let mut state = ServerState::new();
    let (tx, _rx) = unbounded_channel();
    state.add_peer(Peer { uuid: 10, room: named("q", None), sender: tx.clone() });
    let again = state.add_peer(Peer { uuid: 10, room: named("q", None), sender: tx.clone() });
    assert_eq!(again, vec![10]);
    assert_eq!(state.get_room_peers(&named("q", None)), vec![10]);
}

#[test]
fn a_capacity_of_zero_never_fills() {
    let mut state = ServerState::new();
    let (tx, _rx) = unbounded_channel();
    let odd = RequestedRoom { id: RoomId("z".to_string()), next: Some(0) };
    state.add_peer(Peer { uuid: 1, room: odd.clone(), sender: tx.clone() });
    state.add_peer(Peer { uuid: 2, room: odd.clone(), sender: tx.clone() });
    let mut listed = state.get_room_peers(&odd);
    listed.sort();
    assert_eq!(listed, vec![1, 2]);
}

#[test]
fn removing_twice_returns_nothing_the_second_time() {
    let mut state = ServerState::new();
    let (tx, _rx) = unbounded_channel();
    state.add_peer(Peer { uuid: 1, room: named("q", None), sender: tx.clone() });
    state.add_peer(Peer { uuid: 2, room: named("q", None), sender: tx.clone() });
    let removed = state.remove_peer(&1).unwrap();
    assert_eq!(removed.uuid, 1);
    assert_eq!(removed.room, named("q", None));
    assert_eq!(state.get_room_peers(&named("q", None)), vec![2]);
    assert!(state.remove_peer(&1).is_none());
    assert_eq!(state.get_room_peers(&named("q", None)), vec![2]);
    assert!(state.get_peer(&2).is_some());
}

#[test]
fn removing_after_a_reset_leaves_the_new_batch_alone() {
    let mut state = ServerState::new();
    let (tx, _rx) = unbounded_channel();
    let duo = named("duo", Some(2));
    state.add_peer(Peer { uuid: 1, room: duo.clone(), sender: tx.clone() });
    state.add_peer(Peer { uuid: 2, room: duo.clone(), sender: tx.clone() });
    state.add_peer(Peer { uuid: 3, room: duo.clone(), sender: tx.clone() });
    assert_eq!(state.get_room_peers(&duo), vec![3]);
    assert!(state.remove_peer(&1).is_some());
    assert_eq!(state.get_room_peers(&duo), vec![3]);
}

#[test]
fn try_send_reaches_an_active_peer_only() {
    let mut state = ServerState::new();
    let (tx, mut rx) = unbounded_channel();
    state.add_peer(Peer { uuid: 1, room: named("q", None), sender: tx });
    assert_eq!(state.try_send(1, Message::Text("hello".to_string())), Ok(Handoff::Queued));
    assert_eq!(state.try_send(2, Message::Text("hello".to_string())), Err(DirectoryError::UnknownPeer));
    match rx.try_recv() {
        Ok(Ok(Message::Text(text))) => assert_eq!(text, "hello"),
        _ => panic!("the message was queued"),
    }
    assert!(rx.try_recv().is_err());
}

#[test]
fn try_send_to_a_closed_channel_is_no_error() {
    let mut state = ServerState::new();
    let (tx, rx) = unbounded_channel();
    state.add_peer(Peer { uuid: 1, room: named("q", None), sender: tx });
    drop(rx);
    assert_eq!(state.try_send(1, Message::Text("hello".to_string())), Ok(Handoff::Undeliverable));
}

#[test]
fn default_directory_is_empty() {
    let state = ServerState::default();
    assert!(state.get_peer(&1).is_none());
    assert_eq!(state.get_room_peers(&named("q", None)), Vec::<PeerId>::new());
}

#[test]
fn requested_room_reads_path_and_count() {
    let room = MatchmakingDemoTopology::requested_room(Some("lobby".to_string()), Some("2"));
    assert_eq!(room, named("lobby", Some(2)));
    let room = MatchmakingDemoTopology::requested_room(None, None);
    assert_eq!(room, named("", None));
    let room = MatchmakingDemoTopology::requested_room(Some("lobby".to_string()), Some("0"));
    assert_eq!(room, named("lobby", None));
    let room = MatchmakingDemoTopology::requested_room(Some("lobby".to_string()), Some("two"));
    assert_eq!(room, named("lobby", None));
    let room = MatchmakingDemoTopology::requested_room(Some("lobby".to_string()), Some("-1"));
    assert_eq!(room, named("lobby", None));
    let room = MatchmakingDemoTopology::requested_room(Some("lobby".to_string()), Some(""));
    assert_eq!(room, named("lobby", None));
    let room = MatchmakingDemoTopology::requested_room(Some("lobby".to_string()), Some("17"));
    assert_eq!(room, named("lobby", Some(17)));
}

#[test]
fn counts_are_plain_decimal_numbers() {
    use_count("0", Some(0));
    use_count("7", Some(7));
    use_count("+7", Some(7));
    use_count("007", Some(7));
    use_count("1234567890", Some(1234567890));
    use_count(&usize::MAX.to_string(), Some(usize::MAX));
    use_count(&format!("{}0", usize::MAX), None);
    use_count("340282366920938463463374607431768211456", None);
    use_count("", None);
    use_count("+", None);
    use_count("-7", None);
    use_count("++7", None);
    use_count("7+", None);
    use_count(" 7", None);
    use_count("7 ", None);
    use_count("1_000", None);
    use_count("0x10", None);
    use_count("1.0", None);
    use_count("\u{0663}", None);
}

#[test]
fn new_room_drops_a_count_of_zero() {
    assert_eq!(RequestedRoom::new("a".to_string(), Some(0)), named("a", None));
    assert_eq!(RequestedRoom::new("a".to_string(), Some(1)), named("a", Some(1)));
    assert_eq!(RequestedRoom::new("a".to_string(), None), named("a", None));
}

#[test]
fn rooms_compare_by_name_and_capacity() {
    assert!(named("a", Some(2)).same_as(&named("a", Some(2))));
    assert!(!named("a", Some(2)).same_as(&named("a", Some(3))));
    assert!(!named("a", Some(2)).same_as(&named("a", None)));
    assert!(!named("a", None).same_as(&named("b", None)));
    assert_eq!(named("a", Some(2)).duplicate(), named("a", Some(2)));
}
