use node_network::errors::NetworkError;
use node_network::message::{
    decode_payload, encode_envelope, encode_payload, extract_message, kind_of, kind_of_tag,
    kind_tag, Extraction, Message, MessageKind, PeerAddress,
};
use node_network::outbound::Outbound;

fn addr(n: u16) -> PeerAddress {
    PeerAddress { ip: 0x7f000001, port: n }
}

/// Every message of each kind comes back from its own envelope, consuming
/// exactly the envelope.
fn assert_round_trip(message: Message) {
    let bytes = encode_envelope(&message);
    match extract_message(&bytes) {
        Extraction::Complete { message: decoded, consumed } => {
            assert_eq!(consumed, bytes.len());
            assert_eq!(kind_tag(kind_of(&decoded)), kind_tag(kind_of(&message)));
            let original_payload = encode_payload(&message);
            let decoded_payload = encode_payload(&decoded);
            assert_eq!(decoded_payload, original_payload);
        }
        _ => panic!("a well-formed envelope must decode completely"),
    }
}

#[test]
fn every_message_kind_round_trips() {
    let messages = vec![
        Message::Version { nonce: 0xDEAD_BEEF_0BAD_F00D },
        Message::Verack { nonce: 0 },
        Message::GetPeers,
        Message::Peers { addresses: vec![addr(1), addr(65535)] },
        Message::GetSync { locator: vec![vec![1u8; 32], vec![2u8; 32]] },
        Message::Sync { locator: vec![] },
        Message::GetBlock { hash: vec![3u8; 32] },
        Message::Block { data: vec![0, 1, 2, 3, 4] },
        Message::SyncBlock { data: vec![] },
        Message::GetMemoryPool,
        Message::MemoryPool { transactions: vec![vec![9u8], vec![]] },
        Message::Transaction { data: vec![255u8] },
    ];
    for message in messages {
        assert_round_trip(message);
    }
}

#[test]
fn envelope_bytes_are_exact() {
    // Tag 2 (Verack), length 8 big-endian, then the nonce big-endian.
    let bytes = encode_envelope(&Message::Verack { nonce: 1 });
    assert_eq!(bytes, vec![2, 0, 0, 0, 8, 0, 0, 0, 0, 0, 0, 0, 1]);

    // An address is four ip bytes then two port bytes, length-prefixed.
    let bytes = encode_envelope(&Message::Peers { addresses: vec![addr(0x1F90)] });
    assert_eq!(bytes, vec![4, 0, 0, 0, 10, 0, 0, 0, 6, 0x7f, 0, 0, 1, 0x1F, 0x90]);
}

#[test]
fn tags_cover_all_twelve_kinds() {
    let kinds = [
        MessageKind::Version,
        MessageKind::Verack,
        MessageKind::GetPeers,
        MessageKind::Peers,
        MessageKind::GetSync,
        MessageKind::Sync,
        MessageKind::GetBlock,
        MessageKind::Block,
        MessageKind::SyncBlock,
        MessageKind::GetMemoryPool,
        MessageKind::MemoryPool,
        MessageKind::Transaction,
    ];
    for (i, kind) in kinds.iter().enumerate() {
        let tag = kind_tag(*kind);
        assert_eq!(tag as usize, i + 1);
        assert_eq!(kind_of_tag(tag), Some(*kind));
    }
    assert_eq!(kind_of_tag(0), None);
    assert_eq!(kind_of_tag(13), None);
}

#[test]
fn partial_envelopes_ask_for_more() {
    let bytes = encode_envelope(&Message::Version { nonce: 7 });
    for cut in 0..bytes.len() {
        let prefix: Vec<u8> = bytes[..cut].to_vec();
        assert!(matches!(extract_message(&prefix), Extraction::NeedMore));
    }
}

#[test]
fn unknown_tag_is_malformed() {
    assert!(matches!(extract_message(&vec![0u8]), Extraction::Malformed));
    assert!(matches!(extract_message(&vec![99u8, 0, 0, 0, 0]), Extraction::Malformed));
}

#[test]
fn wrong_payload_shape_is_malformed() {
    // A Version payload must be exactly eight bytes.
    assert_eq!(
        match decode_payload(MessageKind::Version, &vec![1, 2, 3]) {
            Err(e) => e,
            Ok(_) => panic!("a three-byte Version payload must be rejected"),
        },
        NetworkError::Malformed,
    );
    // A GetPeers payload must be empty.
    assert!(decode_payload(MessageKind::GetPeers, &vec![0]).is_err());
    // A Peers payload must split into six-byte addresses.
    assert!(decode_payload(MessageKind::Peers, &vec![0, 0, 0, 2, 9, 9]).is_err());
    // A truncated item list cannot decode.
    assert!(decode_payload(MessageKind::Sync, &vec![0, 0, 0, 9, 1]).is_err());

    // The same byte errors surface through envelope extraction.
    let malformed = vec![1, 0, 0, 0, 3, 1, 2, 3];
    assert!(matches!(extract_message(&malformed), Extraction::Malformed));
}

#[test]
fn trailing_bytes_are_left_in_the_buffer() {
    let mut bytes = encode_envelope(&Message::GetPeers);
    let envelope_len = bytes.len();
    bytes.extend_from_slice(&[42, 43, 44]);
    match extract_message(&bytes) {
        Extraction::Complete { message, consumed } => {
            assert!(matches!(message, Message::GetPeers));
            assert_eq!(consumed, envelope_len);
        }
        _ => panic!("the first envelope must decode despite trailing bytes"),
    }
}

#[test]
fn send_to_unregistered_peer_is_peer_not_found() {
    let mut outbound = Outbound::new();
    let peer = addr(6001);
    let message = Message::GetPeers;

    assert_eq!(
        match outbound.send(peer, &message) {
            Err(e) => e,
            Ok(_) => panic!("sending without a channel must fail"),
        },
        NetworkError::PeerNotFound,
    );

    outbound.register(peer);
    assert!(outbound.is_registered(peer));
    let outgoing = outbound.send(peer, &message).unwrap();
    assert_eq!(outgoing.to, peer);
    assert_eq!(outgoing.bytes, encode_envelope(&message));

    outbound.deregister(peer);
    assert!(!outbound.is_registered(peer));
    assert!(outbound.send(peer, &message).is_err());
}

#[test]
fn broadcast_is_best_effort() {
    let mut outbound = Outbound::new();
    let registered_1 = addr(6002);
    let missing = addr(6003);
    let registered_2 = addr(6004);
    outbound.register(registered_1);
    outbound.register(registered_2);

    let message = Message::Block { data: vec![1, 2, 3] };
    let sent = outbound.broadcast(&vec![registered_1, missing, registered_2], &message);

    // The missing channel is skipped; the rest still get the message.
    assert_eq!(sent.len(), 2);
    assert_eq!(sent[0].to, registered_1);
    assert_eq!(sent[1].to, registered_2);
    assert_eq!(sent[0].bytes, encode_envelope(&message));
}
