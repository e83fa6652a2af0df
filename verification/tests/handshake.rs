use node_network::action::Action;
use node_network::message::{Message, PeerAddress};
use node_network::node::{DispatchContext, Event, Node};

fn addr(n: u16) -> PeerAddress {
    PeerAddress { ip: 0x7f000001, port: n }
}

fn ctx(now: u64, fresh_nonce: u64) -> DispatchContext {
    DispatchContext { now, fresh_nonce, block_hash: Vec::new(), valid: true }
}

fn msg_event(from: PeerAddress, message: Message) -> Event {
    Event::Message { from, message }
}

#[test]
fn starts_server() {
    let mut node = Node::new(vec![], None, 1, 10);
    node.peers.set_local_address(addr(9000));
    assert_eq!(node.peers.local_address(), Some(addr(9000)));
    assert_eq!(node.peers.number_of_connected_peers(), 0);
}

#[test]
fn handshake_responder_side() {
    let mut node = Node::new(vec![], None, 1, 10);
    let peer = addr(4001);

    // The peer initiates with Version(nonce=1).
    let actions = node.dispatch(msg_event(peer, Message::Version { nonce: 1 }), ctx(10, 77));
    assert!(node.peers.is_connecting(peer));
    assert!(!node.peers.is_connected(peer));

    // The node replies Verack(1) first, then its own Version.
    assert_eq!(actions.len(), 2);
    match &actions[0] {
        Action::Send { to, message: Message::Verack { nonce } } => {
            assert_eq!(*to, peer);
            assert_eq!(*nonce, 1);
        }
        _ => panic!("expected a Verack reply first"),
    }
    let own_nonce = match &actions[1] {
        Action::Send { to, message: Message::Version { nonce } } => {
            assert_eq!(*to, peer);
            *nonce
        }
        _ => panic!("expected the node's own Version second"),
    };
    assert_eq!(own_nonce, 77);

    // The peer acknowledges the node's Version; the handshake completes.
    let actions = node.dispatch(msg_event(peer, Message::Verack { nonce: own_nonce }), ctx(11, 0));
    assert!(actions.is_empty());
    assert!(node.peers.is_connected(peer));
    assert_eq!(node.peers.number_of_connected_peers(), 1);
}

#[test]
fn handshake_initiator_side() {
    // The peer is configured as a bootnode, so maintenance connects to it.
    let peer = addr(4002);
    let mut node = Node::new(vec![peer], None, 1, 10);

    let actions = node.update(10, &vec![200], 0);
    assert!(node.peers.is_connecting(peer));
    let sent_nonce = match &actions[0] {
        Action::Send { to, message: Message::Version { nonce } } => {
            assert_eq!(*to, peer);
            *nonce
        }
        _ => panic!("expected the node to send Version first"),
    };
    assert_eq!(sent_nonce, 200);

    // The peer replies Verack echoing the node's nonce...
    let actions = node.dispatch(msg_event(peer, Message::Verack { nonce: sent_nonce }), ctx(11, 0));
    assert!(actions.is_empty());
    assert!(node.peers.is_connected(peer));

    // ...then follows up with its own Version; the node sends nothing more.
    let actions = node.dispatch(msg_event(peer, Message::Version { nonce: 1 }), ctx(12, 99));
    assert!(actions.is_empty());
    assert!(node.peers.is_connected(peer));
    assert_eq!(node.peers.number_of_connected_peers(), 1);
}

#[test]
fn reject_non_version_messages_before_handshake() {
    let mut node = Node::new(vec![], None, 1, 10);
    let peer = addr(4003);

    let messages = vec![
        Message::GetPeers,
        Message::GetMemoryPool,
        Message::GetBlock { hash: vec![0u8; 32] },
        Message::GetSync { locator: vec![vec![0u8; 32]] },
        Message::Peers { addresses: vec![addr(4999)] },
        Message::MemoryPool { transactions: vec![vec![0u8, 10]] },
        Message::Block { data: vec![0u8, 10] },
        Message::SyncBlock { data: vec![0u8, 10] },
        Message::Sync { locator: vec![vec![0u8; 32]] },
        Message::Transaction { data: vec![0u8, 10] },
        Message::Verack { nonce: 1 },
    ];
    for message in messages {
        let actions = node.dispatch(msg_event(peer, message), ctx(10, 42));
        // No response bytes, and the node's state is unaltered.
        assert!(actions.is_empty());
        assert!(!node.peers.is_connecting(peer));
        assert_eq!(node.peers.number_of_connected_peers(), 0);
    }
}

#[test]
fn verack_with_wrong_nonce_is_ignored() {
    let mut node = Node::new(vec![], None, 1, 10);
    let peer = addr(4004);

    node.dispatch(msg_event(peer, Message::Version { nonce: 1 }), ctx(10, 77));
    assert!(node.peers.is_connecting(peer));

    // The echoed nonce does not match the stored one: silently dropped.
    let actions = node.dispatch(msg_event(peer, Message::Verack { nonce: 78 }), ctx(11, 0));
    assert!(actions.is_empty());
    assert!(node.peers.is_connecting(peer));
    assert!(!node.peers.is_connected(peer));
    assert_eq!(node.peers.number_of_connected_peers(), 0);
}

#[test]
fn disconnect_removes_the_peer() {
    let mut node = Node::new(vec![], None, 1, 10);
    let peer = addr(4005);

    node.dispatch(msg_event(peer, Message::Version { nonce: 1 }), ctx(10, 77));
    let actions = node.dispatch(msg_event(peer, Message::Verack { nonce: 77 }), ctx(11, 0));
    assert!(actions.is_empty());
    assert_eq!(node.peers.number_of_connected_peers(), 1);

    let actions = node.dispatch(Event::Disconnect { from: peer }, ctx(12, 0));
    assert_eq!(actions.len(), 1);
    match &actions[0] {
        Action::CloseChannel { peer: p } => assert_eq!(*p, peer),
        _ => panic!("expected the channel to be closed"),
    }
    assert!(!node.peers.is_connected(peer));
    assert_eq!(node.peers.number_of_connected_peers(), 0);
}

#[test]
fn maintenance_prunes_stale_handshakes() {
    let mut node = Node::new(vec![], None, 0, 10);
    let peer = addr(4006);

    node.dispatch(msg_event(peer, Message::Version { nonce: 1 }), ctx(10, 77));
    assert!(node.peers.is_connecting(peer));

    // Well past the handshake timeout, maintenance drops the attempt.
    let actions = node.update(1000, &vec![], 0);
    assert!(!node.peers.is_connecting(peer));
    assert!(actions.iter().any(|a| matches!(
        a,
        Action::CloseChannel { peer: p } if *p == peer
    )));
}

#[test]
fn maintenance_connects_to_exchanged_peers() {
    let mut node = Node::new(vec![], Some(addr(4100)), 2, 10);
    let peer = addr(4101);
    let exchanged = addr(4102);

    node.dispatch(msg_event(peer, Message::Version { nonce: 1 }), ctx(10, 77));
    node.dispatch(msg_event(peer, Message::Verack { nonce: 77 }), ctx(11, 0));
    assert_eq!(node.peers.number_of_connected_peers(), 1);

    // The connected peer shares an address list naming this node itself
    // and one new address; only the new one is remembered.
    node.dispatch(
        msg_event(peer, Message::Peers { addresses: vec![addr(4100), exchanged] }),
        ctx(12, 0),
    );

    // One connected peer is below the minimum of two, so maintenance
    // initiates a handshake with the exchanged address.
    let actions = node.update(13, &vec![300], 0);
    assert!(node.peers.is_connecting(exchanged));
    assert!(!node.peers.is_connecting(addr(4100)));
    assert!(actions.iter().any(|a| matches!(
        a,
        Action::Send { to, message: Message::Version { nonce: 300 } } if *to == exchanged
    )));
}

#[test]
fn get_peers_lists_other_connected_peers() {
    let mut node = Node::new(vec![], None, 1, 10);
    let first = addr(4007);
    let second = addr(4008);
    for peer in [first, second] {
        node.dispatch(msg_event(peer, Message::Version { nonce: 5 }), ctx(10, 60));
        node.dispatch(msg_event(peer, Message::Verack { nonce: 60 }), ctx(11, 0));
    }
    assert_eq!(node.peers.number_of_connected_peers(), 2);

    let actions = node.dispatch(msg_event(first, Message::GetPeers), ctx(12, 0));
    assert_eq!(actions.len(), 1);
    match &actions[0] {
        Action::Send { to, message: Message::Peers { addresses } } => {
            assert_eq!(*to, first);
            assert_eq!(addresses, &vec![second]);
        }
        _ => panic!("expected a Peers reply"),
    }
}
