use node_network::action::Action;
use node_network::message::{Message, PeerAddress};
use node_network::node::{DispatchContext, Event, Node};

fn addr(n: u16) -> PeerAddress {
    PeerAddress { ip: 0x7f000001, port: n }
}

fn block_ctx(now: u64, hash: &[u8], valid: bool) -> DispatchContext {
    DispatchContext { now, fresh_nonce: 0, block_hash: hash.to_vec(), valid }
}

fn msg_event(from: PeerAddress, message: Message) -> Event {
    Event::Message { from, message }
}

/// A node holding only the genesis block, with one Connected peer.
fn synced_node(peer: PeerAddress, genesis: &[u8]) -> Node {
    let mut node = Node::new(vec![], None, 1, 10);
    node.blocks.insert_block(genesis.to_vec(), b"genesis-data".to_vec());
    node.dispatch(
        msg_event(peer, Message::Version { nonce: 1 }),
        DispatchContext { now: 1, fresh_nonce: 50, block_hash: Vec::new(), valid: true },
    );
    node.dispatch(
        msg_event(peer, Message::Verack { nonce: 50 }),
        DispatchContext { now: 2, fresh_nonce: 0, block_hash: Vec::new(), valid: true },
    );
    assert!(node.peers.is_connected(peer));
    node
}

#[test]
fn sync_initiator_side() {
    let peer = addr(5001);
    let genesis = [0u8; 32];
    let mut node = synced_node(peer, &genesis);

    // Maintenance starts a session: the peer was seen most recently, so it
    // becomes the sync target and receives GetSync with the node's locator.
    let actions = node.update(3, &vec![], 0);
    assert!(node.blocks.is_syncing());
    assert_eq!(node.blocks.sync_target(), Some(peer));
    let got_get_sync = actions.iter().any(|a| match a {
        Action::Send { to, message: Message::GetSync { locator } } => {
            assert_eq!(*to, peer);
            // Only the genesis block is stored; its hash is the locator.
            assert_eq!(locator, &vec![genesis.to_vec()]);
            true
        }
        _ => false,
    });
    assert!(got_get_sync);

    // The peer's Sync reply lists two blocks the node does not hold.
    let block_1 = [1u8; 32];
    let block_2 = [2u8; 32];
    let actions = node.dispatch(
        msg_event(peer, Message::Sync { locator: vec![block_1.to_vec(), block_2.to_vec()] }),
        block_ctx(4, &[], true),
    );

    // One GetBlock per missing hash, in the order the Sync listed them.
    assert_eq!(actions.len(), 2);
    match &actions[0] {
        Action::Send { to, message: Message::GetBlock { hash } } => {
            assert_eq!(*to, peer);
            assert_eq!(hash, &block_1.to_vec());
        }
        _ => panic!("expected GetBlock for the first missing hash"),
    }
    match &actions[1] {
        Action::Send { to, message: Message::GetBlock { hash } } => {
            assert_eq!(*to, peer);
            assert_eq!(hash, &block_2.to_vec());
        }
        _ => panic!("expected GetBlock for the second missing hash"),
    }

    // Both blocks arrive; the external collaborator vouches for them.
    node.dispatch(
        msg_event(peer, Message::SyncBlock { data: b"one".to_vec() }),
        block_ctx(5, &block_1, true),
    );
    assert!(node.blocks.is_syncing());
    node.dispatch(
        msg_event(peer, Message::SyncBlock { data: b"two".to_vec() }),
        block_ctx(6, &block_2, true),
    );

    // Both are stored and the session is over: Idle -> Syncing -> Idle.
    assert!(node.blocks.block_hash_exists(&block_1.to_vec()));
    assert!(node.blocks.block_hash_exists(&block_2.to_vec()));
    assert!(!node.blocks.is_syncing());
}

#[test]
fn sync_responder_side() {
    let peer = addr(5002);
    let genesis = [0u8; 32];
    let mut node = synced_node(peer, &genesis);
    let tip = [9u8; 32];
    node.blocks.insert_block(tip.to_vec(), b"tip-data".to_vec());

    // A GetSync is served from the chain regardless of local sync state.
    let actions = node.dispatch(
        msg_event(peer, Message::GetSync { locator: vec![] }),
        block_ctx(3, &[], true),
    );
    assert_eq!(actions.len(), 1);
    match &actions[0] {
        Action::Send { to, message: Message::Sync { locator } } => {
            assert_eq!(*to, peer);
            // Tip first, genesis last.
            assert_eq!(locator, &vec![tip.to_vec(), genesis.to_vec()]);
        }
        _ => panic!("expected a Sync reply"),
    }

    // A GetBlock for the stored tip is served as a SyncBlock.
    let actions = node.dispatch(
        msg_event(peer, Message::GetBlock { hash: tip.to_vec() }),
        block_ctx(4, &[], true),
    );
    assert_eq!(actions.len(), 1);
    match &actions[0] {
        Action::Send { to, message: Message::SyncBlock { data } } => {
            assert_eq!(*to, peer);
            assert_eq!(data, &b"tip-data".to_vec());
        }
        _ => panic!("expected a SyncBlock reply"),
    }
}

#[test]
fn duplicate_block_insert_is_idempotent() {
    let peer = addr(5003);
    let genesis = [0u8; 32];
    let mut node = synced_node(peer, &genesis);

    // Storing the genesis hash again does not error and does not create a
    // duplicate entry.
    node.blocks.insert_block(genesis.to_vec(), b"other-data".to_vec());
    assert!(node.blocks.block_hash_exists(&genesis.to_vec()));
    assert_eq!(node.blocks.compute_block_locator_hashes(), vec![genesis.to_vec()]);

    // The same holds for a duplicate gossiped block: stored once, and not
    // propagated a second time.
    let block_1 = [1u8; 32];
    let actions = node.dispatch(
        msg_event(peer, Message::Block { data: b"one".to_vec() }),
        block_ctx(3, &block_1, true),
    );
    // The source is the only connected peer, so nothing is propagated.
    assert!(actions.is_empty());
    let actions = node.dispatch(
        msg_event(peer, Message::Block { data: b"one".to_vec() }),
        block_ctx(4, &block_1, true),
    );
    assert!(actions.is_empty());
    assert_eq!(
        node.blocks.compute_block_locator_hashes(),
        vec![block_1.to_vec(), genesis.to_vec()],
    );
}

#[test]
fn invalid_block_is_not_stored() {
    let peer = addr(5004);
    let genesis = [0u8; 32];
    let mut node = synced_node(peer, &genesis);

    let bad = [7u8; 32];
    let actions = node.dispatch(
        msg_event(peer, Message::Block { data: b"bad".to_vec() }),
        block_ctx(3, &bad, false),
    );
    assert!(actions.is_empty());
    assert!(!node.blocks.block_hash_exists(&bad.to_vec()));
}

#[test]
fn new_block_is_propagated_to_other_peers() {
    let source = addr(5005);
    let other = addr(5006);
    let genesis = [0u8; 32];
    let mut node = synced_node(source, &genesis);
    node.dispatch(msg_event(other, Message::Version { nonce: 3 }), block_ctx(3, &[], true));
    let own_nonce = 0; // block_ctx uses fresh_nonce 0
    node.dispatch(msg_event(other, Message::Verack { nonce: own_nonce }), block_ctx(4, &[], true));
    assert_eq!(node.peers.number_of_connected_peers(), 2);

    let block_1 = [1u8; 32];
    let actions = node.dispatch(
        msg_event(source, Message::Block { data: b"one".to_vec() }),
        block_ctx(5, &block_1, true),
    );
    // Broadcast to every Connected peer except the source.
    assert_eq!(actions.len(), 1);
    match &actions[0] {
        Action::Send { to, message: Message::Block { data } } => {
            assert_eq!(*to, other);
            assert_eq!(data, &b"one".to_vec());
        }
        _ => panic!("expected the block to be propagated"),
    }
}

#[test]
fn stale_sync_reply_is_ignored() {
    let peer = addr(5007);
    let stranger = addr(5008);
    let genesis = [0u8; 32];
    let mut node = synced_node(peer, &genesis);
    node.dispatch(msg_event(stranger, Message::Version { nonce: 4 }), block_ctx(3, &[], true));
    node.dispatch(msg_event(stranger, Message::Verack { nonce: 0 }), block_ctx(4, &[], true));

    node.update(5, &vec![], 0);
    assert!(node.blocks.is_syncing());
    let target = node.blocks.sync_target().unwrap();
    let not_target = if target == peer { stranger } else { peer };

    // A Sync from a peer that is not the session target changes nothing.
    let block_1 = [1u8; 32];
    let actions = node.dispatch(
        msg_event(not_target, Message::Sync { locator: vec![block_1.to_vec()] }),
        block_ctx(6, &[], true),
    );
    assert!(actions.is_empty());
    assert_eq!(node.blocks.sync_target(), Some(target));
}

#[test]
fn sync_session_times_out_back_to_idle() {
    let peer = addr(5009);
    let genesis = [0u8; 32];
    let mut node = synced_node(peer, &genesis);

    node.update(5, &vec![], 0);
    assert!(node.blocks.is_syncing());

    // No completing response arrives within the session window: the next
    // maintenance pass reverts to Idle. With no target named, no new
    // session starts.
    let actions = node.blocks.update(1000, None);
    assert!(actions.is_empty());
    assert!(!node.blocks.is_syncing());
}

#[test]
fn sync_with_nothing_missing_ends_immediately() {
    let peer = addr(5011);
    let genesis = [0u8; 32];
    let mut node = synced_node(peer, &genesis);

    node.update(3, &vec![], 0);
    assert!(node.blocks.is_syncing());

    // The target's locator names only blocks this node already stores:
    // no requests go out and the session is over at once.
    let actions = node.dispatch(
        msg_event(peer, Message::Sync { locator: vec![genesis.to_vec()] }),
        block_ctx(4, &[], true),
    );
    assert!(actions.is_empty());
    assert!(!node.blocks.is_syncing());
}

#[test]
fn duplicate_locator_hashes_are_requested_once() {
    let peer = addr(5012);
    let genesis = [0u8; 32];
    let mut node = synced_node(peer, &genesis);

    node.update(3, &vec![], 0);
    let block_1 = [1u8; 32];
    let actions = node.dispatch(
        msg_event(peer, Message::Sync {
            locator: vec![block_1.to_vec(), genesis.to_vec(), block_1.to_vec()],
        }),
        block_ctx(4, &[], true),
    );

    // The stored genesis hash and the repeated hash are filtered out.
    assert_eq!(actions.len(), 1);
    match &actions[0] {
        Action::Send { to, message: Message::GetBlock { hash } } => {
            assert_eq!(*to, peer);
            assert_eq!(hash, &block_1.to_vec());
        }
        _ => panic!("expected exactly one GetBlock"),
    }

    // The single awaited block closes the session.
    node.dispatch(
        msg_event(peer, Message::SyncBlock { data: b"one".to_vec() }),
        block_ctx(5, &block_1, true),
    );
    assert!(!node.blocks.is_syncing());
    assert!(node.blocks.block_hash_exists(&block_1.to_vec()));
}

#[test]
fn mempool_request_and_response() {
    let peer = addr(5010);
    let genesis = [0u8; 32];
    let mut node = synced_node(peer, &genesis);

    // A valid transaction enters the mempool; the source is the only
    // connected peer, so nothing is propagated.
    let actions = node.dispatch(
        msg_event(peer, Message::Transaction { data: b"tx-1".to_vec() }),
        block_ctx(3, &[], true),
    );
    assert!(actions.is_empty());

    // A MemoryPool reply merges without duplicating.
    node.dispatch(
        msg_event(peer, Message::MemoryPool {
            transactions: vec![b"tx-1".to_vec(), b"tx-2".to_vec()],
        }),
        block_ctx(4, &[], true),
    );

    let actions = node.dispatch(msg_event(peer, Message::GetMemoryPool), block_ctx(5, &[], true));
    assert_eq!(actions.len(), 1);
    match &actions[0] {
        Action::Send { to, message: Message::MemoryPool { transactions } } => {
            assert_eq!(*to, peer);
            assert_eq!(transactions, &vec![b"tx-1".to_vec(), b"tx-2".to_vec()]);
        }
        _ => panic!("expected a MemoryPool reply"),
    }
}
