//! Wire envelope and message codec.
//!
//! Every unit on the wire is an envelope: a one-byte message-kind tag, a
//! four-byte big-endian payload length, and exactly that many payload
//! bytes. The payload layout of each message kind is defined here as well;
//! block and transaction payloads stay opaque byte strings, since their
//! inner layout belongs to the external consensus collaborator.

use vstd::prelude::*;

use crate::errors::NetworkError;

verus! {

/// Network address of a peer: the primary key for all peer state.
///
/// Modeled as an IPv4 address and port. To every rule of the protocol an
/// address is only an equality key, so the model fixes one concrete
/// format; the I/O shell converts socket addresses to it and declines
/// peers it cannot represent.
#[derive(Clone, Copy, PartialEq, Eq, Hash, Structural, Debug)]
pub struct PeerAddress {
    pub ip: u32,
    pub port: u16,
}

// ---------------------------------------------------------------------------
// Big-endian integer fields
// ---------------------------------------------------------------------------

pub open spec fn spec_u16_bytes(n: u16) -> Seq<u8> {
    seq![(n >> 8) as u8, (n & 0xff) as u8]
}

pub open spec fn spec_u16_of_bytes(b: Seq<u8>) -> u16
    recommends
        b.len() == 2,
{
    (((b[0] as u16) << 8) | (b[1] as u16)) as u16
}

pub open spec fn spec_u32_bytes(n: u32) -> Seq<u8> {
    seq![
        (n >> 24) as u8,
        ((n >> 16) & 0xff) as u8,
        ((n >> 8) & 0xff) as u8,
        (n & 0xff) as u8,
    ]
}

pub open spec fn spec_u32_of_bytes(b: Seq<u8>) -> u32
    recommends
        b.len() == 4,
{
    (((b[0] as u32) << 24) | ((b[1] as u32) << 16) | ((b[2] as u32) << 8) | (b[3] as u32)) as u32
}

pub open spec fn spec_u64_bytes(n: u64) -> Seq<u8> {
    seq![
        (n >> 56) as u8,
        ((n >> 48) & 0xff) as u8,
        ((n >> 40) & 0xff) as u8,
        ((n >> 32) & 0xff) as u8,
        ((n >> 24) & 0xff) as u8,
        ((n >> 16) & 0xff) as u8,
        ((n >> 8) & 0xff) as u8,
        (n & 0xff) as u8,
    ]
}

pub open spec fn spec_u64_of_bytes(b: Seq<u8>) -> u64
    recommends
        b.len() == 8,
{
    (((b[0] as u64) << 56) | ((b[1] as u64) << 48) | ((b[2] as u64) << 40)
        | ((b[3] as u64) << 32) | ((b[4] as u64) << 24) | ((b[5] as u64) << 16)
        | ((b[6] as u64) << 8) | (b[7] as u64)) as u64
}

pub proof fn lemma_u16_round_trip(n: u16)
    ensures
        spec_u16_of_bytes(spec_u16_bytes(n)) == n,
{
    assert((((((n >> 8) as u8) as u16) << 8) | (((n & 0xff) as u8) as u16)) as u16 == n)
        by (bit_vector);
}

pub proof fn lemma_u32_round_trip(n: u32)
    ensures
        spec_u32_of_bytes(spec_u32_bytes(n)) == n,
{
    assert(((((n >> 24) as u8 as u32) << 24) | ((((n >> 16) & 0xff) as u8 as u32) << 16)
        | ((((n >> 8) & 0xff) as u8 as u32) << 8) | ((n & 0xff) as u8 as u32)) as u32 == n)
        by (bit_vector);
}

pub proof fn lemma_u64_round_trip(n: u64)
    ensures
        spec_u64_of_bytes(spec_u64_bytes(n)) == n,
{
    assert(((((n >> 56) as u8 as u64) << 56) | ((((n >> 48) & 0xff) as u8 as u64) << 48)
        | ((((n >> 40) & 0xff) as u8 as u64) << 40) | ((((n >> 32) & 0xff) as u8 as u64) << 32)
        | ((((n >> 24) & 0xff) as u8 as u64) << 24) | ((((n >> 16) & 0xff) as u8 as u64) << 16)
        | ((((n >> 8) & 0xff) as u8 as u64) << 8) | ((n & 0xff) as u8 as u64)) as u64 == n)
        by (bit_vector);
}

fn push_u16(out: &mut Vec<u8>, n: u16)
    ensures
        final(out)@ == old(out)@ + spec_u16_bytes(n),
{
    proof {
        assert((n >> 8) < 256 && (n & 0xff) < 256) by (bit_vector);
    }
    out.push((n >> 8) as u8);
    out.push((n & 0xff) as u8);
    assert(out@ =~= old(out)@ + spec_u16_bytes(n));
}

fn push_u32(out: &mut Vec<u8>, n: u32)
    ensures
        final(out)@ == old(out)@ + spec_u32_bytes(n),
{
    proof {
        assert((n >> 24) < 256 && ((n >> 16) & 0xff) < 256 && ((n >> 8) & 0xff) < 256
            && (n & 0xff) < 256) by (bit_vector);
    }
    out.push((n >> 24) as u8);
    out.push(((n >> 16) & 0xff) as u8);
    out.push(((n >> 8) & 0xff) as u8);
    out.push((n & 0xff) as u8);
    assert(out@ =~= old(out)@ + spec_u32_bytes(n));
}

fn push_u64(out: &mut Vec<u8>, n: u64)
    ensures
        final(out)@ == old(out)@ + spec_u64_bytes(n),
{
    proof {
        assert((n >> 56) < 256 && ((n >> 48) & 0xff) < 256 && ((n >> 40) & 0xff) < 256
            && ((n >> 32) & 0xff) < 256 && ((n >> 24) & 0xff) < 256 && ((n >> 16) & 0xff) < 256
            && ((n >> 8) & 0xff) < 256 && (n & 0xff) < 256) by (bit_vector);
    }
    out.push((n >> 56) as u8);
    out.push(((n >> 48) & 0xff) as u8);
    out.push(((n >> 40) & 0xff) as u8);
    out.push(((n >> 32) & 0xff) as u8);
    out.push(((n >> 24) & 0xff) as u8);
    out.push(((n >> 16) & 0xff) as u8);
    out.push(((n >> 8) & 0xff) as u8);
    out.push((n & 0xff) as u8);
    assert(out@ =~= old(out)@ + spec_u64_bytes(n));
}

fn read_u16(b: &Vec<u8>, off: usize) -> (r: u16)
    requires
        off + 2 <= b@.len(),
    ensures
        r == spec_u16_of_bytes(b@.subrange(off as int, off as int + 2)),
{
    let n = b.len();
    assert(off + 2 <= n);
    let r: u16 = ((b[off] as u16) << 8) | (b[off + 1] as u16);
    proof {
        let s = b@.subrange(off as int, off as int + 2);
        assert(s[0] == b@[off as int] && s[1] == b@[off as int + 1]);
    }
    r
}

fn read_u32(b: &Vec<u8>, off: usize) -> (r: u32)
    requires
        off + 4 <= b@.len(),
    ensures
        r == spec_u32_of_bytes(b@.subrange(off as int, off as int + 4)),
{
    let n = b.len();
    assert(off + 4 <= n);
    let r: u32 = ((b[off] as u32) << 24) | ((b[off + 1] as u32) << 16)
        | ((b[off + 2] as u32) << 8) | (b[off + 3] as u32);
    proof {
        let s = b@.subrange(off as int, off as int + 4);
        assert(s[0] == b@[off as int] && s[1] == b@[off as int + 1]
            && s[2] == b@[off as int + 2] && s[3] == b@[off as int + 3]);
    }
    r
}

fn read_u64(b: &Vec<u8>, off: usize) -> (r: u64)
    requires
        off + 8 <= b@.len(),
    ensures
        r == spec_u64_of_bytes(b@.subrange(off as int, off as int + 8)),
{
    let n = b.len();
    assert(off + 8 <= n);
    let r: u64 = ((b[off] as u64) << 56) | ((b[off + 1] as u64) << 48)
        | ((b[off + 2] as u64) << 40) | ((b[off + 3] as u64) << 32)
        | ((b[off + 4] as u64) << 24) | ((b[off + 5] as u64) << 16)
        | ((b[off + 6] as u64) << 8) | (b[off + 7] as u64);
    proof {
        let s = b@.subrange(off as int, off as int + 8);
        assert(s[0] == b@[off as int] && s[1] == b@[off as int + 1]
            && s[2] == b@[off as int + 2] && s[3] == b@[off as int + 3]
            && s[4] == b@[off as int + 4] && s[5] == b@[off as int + 5]
            && s[6] == b@[off as int + 6] && s[7] == b@[off as int + 7]);
    }
    r
}

// ---------------------------------------------------------------------------
// Small byte-vector utilities
// ---------------------------------------------------------------------------

/// Appends all of `b` to `out`.
fn push_bytes(out: &mut Vec<u8>, b: &Vec<u8>)
    ensures
        final(out)@ == old(out)@ + b@,
{
    let mut j: usize = 0;
    while j < b.len()
        invariant
            j <= b@.len(),
            out@ == old(out)@ + b@.take(j as int),
        decreases b@.len() - j,
    {
        out.push(b[j]);
        assert(out@ =~= old(out)@ + b@.take(j as int + 1));
        j = j + 1;
    }
    assert(out@ =~= old(out)@ + b@);
}

/// Copies `b[from..to]` into a fresh vector.
fn take_range(b: &Vec<u8>, from: usize, to: usize) -> (r: Vec<u8>)
    requires
        from <= to <= b@.len(),
    ensures
        r@ == b@.subrange(from as int, to as int),
{
    let mut r: Vec<u8> = Vec::new();
    let mut j: usize = from;
    while j < to
        invariant
            from <= j <= to <= b@.len(),
            r@ == b@.subrange(from as int, j as int),
        decreases to - j,
    {
        r.push(b[j]);
        assert(r@ =~= b@.subrange(from as int, j as int + 1));
        j = j + 1;
    }
    r
}

/// Byte-wise equality of two vectors.
pub fn bytes_eq(a: &Vec<u8>, b: &Vec<u8>) -> (r: bool)
    ensures
        r == (a@ == b@),
{
    if a.len() != b.len() {
        return false;
    }
    let mut j: usize = 0;
    while j < a.len()
        invariant
            j <= a@.len(),
            a@.len() == b@.len(),
            forall|i: int| 0 <= i < j ==> a@[i] == b@[i],
        decreases a@.len() - j,
    {
        if a[j] != b[j] {
            return false;
        }
        j = j + 1;
    }
    proof {
        assert(a@ =~= b@);
    }
    true
}

// ---------------------------------------------------------------------------
// Length-prefixed item lists
// ---------------------------------------------------------------------------

/// Every item is short enough for its four-byte length field.
pub open spec fn wf_items(items: Seq<Seq<u8>>) -> bool {
    forall|i: int| 0 <= i < items.len() ==> (#[trigger] items[i]).len() <= u32::MAX
}

/// Concatenation of the items, each prefixed with its length.
pub open spec fn spec_encode_items(items: Seq<Seq<u8>>) -> Seq<u8>
    decreases items.len(),
{
    if items.len() == 0 {
        Seq::empty()
    } else {
        spec_u32_bytes(items[0].len() as u32) + items[0] + spec_encode_items(items.drop_first())
    }
}

/// The unique item list whose encoding is exactly `b`, if there is one.
pub open spec fn spec_decode_items(b: Seq<u8>) -> Option<Seq<Seq<u8>>>
    decreases b.len(),
{
    if b.len() == 0 {
        Some(Seq::empty())
    } else if b.len() < 4 {
        None
    } else {
        let n = spec_u32_of_bytes(b.subrange(0, 4)) as int;
        if b.len() < 4 + n {
            None
        } else {
            match spec_decode_items(b.subrange(4 + n, b.len() as int)) {
                Some(rest) => Some(seq![b.subrange(4, 4 + n)] + rest),
                None => None,
            }
        }
    }
}

pub proof fn lemma_encode_items_concat(a: Seq<Seq<u8>>, b: Seq<Seq<u8>>)
    ensures
        spec_encode_items(a + b) == spec_encode_items(a) + spec_encode_items(b),
    decreases a.len(),
{
    if a.len() == 0 {
        assert(a + b =~= b);
        assert(spec_encode_items(a) + spec_encode_items(b) =~= spec_encode_items(b));
    } else {
        assert((a + b)[0] == a[0]);
        assert((a + b).drop_first() =~= a.drop_first() + b);
        lemma_encode_items_concat(a.drop_first(), b);
        assert(spec_encode_items(a + b) =~= spec_encode_items(a) + spec_encode_items(b));
    }
}

/// Decoding inverts encoding on every well-formed item list.
pub proof fn lemma_items_round_trip(items: Seq<Seq<u8>>)
    requires
        wf_items(items),
    ensures
        spec_decode_items(spec_encode_items(items)) == Some(items),
    decreases items.len(),
{
    if items.len() == 0 {
        assert(spec_encode_items(items) =~= Seq::<u8>::empty());
    } else {
        let head = items[0];
        assert(head.len() <= u32::MAX);
        let len32 = head.len() as u32;
        let tail_e = spec_encode_items(items.drop_first());
        let e = spec_encode_items(items);
        assert(e == spec_u32_bytes(len32) + head + tail_e);
        assert(e.len() == 4 + head.len() + tail_e.len());
        assert(e.subrange(0, 4) =~= spec_u32_bytes(len32));
        lemma_u32_round_trip(len32);
        assert(e.subrange(4, 4 + head.len() as int) =~= head);
        assert(e.subrange(4 + head.len() as int, e.len() as int) =~= tail_e);
        assert forall|i: int| 0 <= i < items.drop_first().len()
            implies (#[trigger] items.drop_first()[i]).len() <= u32::MAX by {
            assert(items.drop_first()[i] == items[i + 1]);
        }
        lemma_items_round_trip(items.drop_first());
        assert(seq![head] + items.drop_first() =~= items);
    }
}

fn encode_items(items: &Vec<Vec<u8>>) -> (r: Vec<u8>)
    requires
        wf_items(items.deep_view()),
    ensures
        r@ == spec_encode_items(items.deep_view()),
{
    let ghost dv = items.deep_view();
    let mut out: Vec<u8> = Vec::new();
    let mut i: usize = 0;
    while i < items.len()
        invariant
            i <= items@.len(),
            dv == items.deep_view(),
            dv.len() == items@.len(),
            wf_items(dv),
            out@ == spec_encode_items(dv.take(i as int)),
        decreases items@.len() - i,
    {
        let item = &items[i];
        proof {
            assert(dv[i as int] == items@[i as int].deep_view());
            assert(items@[i as int].deep_view() =~= items@[i as int]@);
            assert(dv[i as int].len() <= u32::MAX);
        }
        push_u32(&mut out, item.len() as u32);
        push_bytes(&mut out, item);
        proof {
            assert(dv.take(i + 1) =~= dv.take(i as int) + seq![dv[i as int]]);
            lemma_encode_items_concat(dv.take(i as int), seq![dv[i as int]]);
            assert(seq![dv[i as int]].drop_first() =~= Seq::<Seq<u8>>::empty());
            assert(spec_encode_items(Seq::<Seq<u8>>::empty()) =~= Seq::<u8>::empty());
            reveal_with_fuel(spec_encode_items, 2);
            assert(spec_encode_items(seq![dv[i as int]])
                =~= spec_u32_bytes(dv[i as int].len() as u32) + dv[i as int]);
            assert(out@ =~= spec_encode_items(dv.take(i + 1)));
        }
        i = i + 1;
    }
    proof {
        assert(dv.take(items@.len() as int) =~= dv);
    }
    out
}

fn decode_items_from(b: &Vec<u8>, off: usize) -> (r: Option<Vec<Vec<u8>>>)
    requires
        off <= b@.len(),
    ensures
        (r is Some) == (spec_decode_items(b@.skip(off as int)) is Some),
        r matches Some(v) ==> Some(v.deep_view()) == spec_decode_items(b@.skip(off as int)),
    decreases b@.len() - off,
{
    let ghost s = b@.skip(off as int);
    let n = b.len();
    if off == n {
        let r: Vec<Vec<u8>> = Vec::new();
        proof {
            assert(s =~= Seq::<u8>::empty());
            assert(r.deep_view() =~= Seq::<Seq<u8>>::empty());
        }
        return Some(r);
    }
    if n - off < 4 {
        return None;
    }
    let len32 = read_u32(b, off);
    proof {
        assert(s.subrange(0, 4) =~= b@.subrange(off as int, off as int + 4));
    }
    let len = len32 as usize;
    if n - off - 4 < len {
        return None;
    }
    let item = take_range(b, off + 4, off + 4 + len);
    proof {
        assert(s.subrange(4, 4 + len as int)
            =~= b@.subrange(off as int + 4, off as int + 4 + len as int));
        assert(b@.skip(off as int + 4 + len as int)
            =~= s.subrange(4 + len as int, s.len() as int));
    }
    let rest = decode_items_from(b, off + 4 + len);
    match rest {
        None => None,
        Some(mut v) => {
            let ghost rest_dv = v.deep_view();
            let ghost pre = v@;
            v.insert(0, item);
            proof {
                let full = seq![s.subrange(4, 4 + len as int)] + rest_dv;
                assert forall|j: int| 0 <= j < v.deep_view().len()
                    implies v.deep_view()[j] == full[j] by {
                    assert(v@[j].deep_view() =~= v@[j]@);
                    if j == 0 {
                        assert(v@[0] == item);
                    } else {
                        assert(v@[j] == pre[j - 1]);
                    }
                }
                assert(v.deep_view() =~= full);
            }
            Some(v)
        }
    }
}

fn decode_items(b: &Vec<u8>) -> (r: Option<Vec<Vec<u8>>>)
    ensures
        (r is Some) == (spec_decode_items(b@) is Some),
        r matches Some(v) ==> Some(v.deep_view()) == spec_decode_items(b@),
{
    proof {
        assert(b@.skip(0) =~= b@);
    }
    decode_items_from(b, 0)
}

/// Copies a byte vector.
pub fn clone_bytes(b: &Vec<u8>) -> (r: Vec<u8>)
    ensures
        r@ == b@,
{
    let r = take_range(b, 0, b.len());
    proof {
        assert(b@.subrange(0, b@.len() as int) =~= b@);
    }
    r
}

// ---------------------------------------------------------------------------
// Peer addresses on the wire
// ---------------------------------------------------------------------------

pub open spec fn spec_address_bytes(a: PeerAddress) -> Seq<u8> {
    spec_u32_bytes(a.ip) + spec_u16_bytes(a.port)
}

pub open spec fn spec_address_of_bytes(b: Seq<u8>) -> PeerAddress
    recommends
        b.len() == 6,
{
    PeerAddress { ip: spec_u32_of_bytes(b.subrange(0, 4)), port: spec_u16_of_bytes(b.subrange(4, 6)) }
}

pub proof fn lemma_address_round_trip(a: PeerAddress)
    ensures
        spec_address_bytes(a).len() == 6,
        spec_address_of_bytes(spec_address_bytes(a)) == a,
{
    let b = spec_address_bytes(a);
    assert(b.subrange(0, 4) =~= spec_u32_bytes(a.ip));
    assert(b.subrange(4, 6) =~= spec_u16_bytes(a.port));
    lemma_u32_round_trip(a.ip);
    lemma_u16_round_trip(a.port);
}

fn encode_address(a: &PeerAddress) -> (r: Vec<u8>)
    ensures
        r@ == spec_address_bytes(*a),
{
    let mut out: Vec<u8> = Vec::new();
    push_u32(&mut out, a.ip);
    push_u16(&mut out, a.port);
    out
}

fn decode_address(b: &Vec<u8>) -> (r: PeerAddress)
    requires
        b@.len() == 6,
    ensures
        r == spec_address_of_bytes(b@),
{
    proof {
        assert(b@.subrange(0, 4) =~= b@.subrange(0int, 0int + 4));
        assert(b@.subrange(4, 6) =~= b@.subrange(4int, 4int + 2));
    }
    PeerAddress { ip: read_u32(b, 0), port: read_u16(b, 4) }
}

// ---------------------------------------------------------------------------
// Message kinds and tags
// ---------------------------------------------------------------------------

/// Every message kind of the protocol.
#[derive(Clone, Copy, PartialEq, Eq, Structural, Debug)]
pub enum MessageKind {
    Version,
    Verack,
    GetPeers,
    Peers,
    GetSync,
    Sync,
    GetBlock,
    Block,
    SyncBlock,
    GetMemoryPool,
    MemoryPool,
    Transaction,
}

pub open spec fn spec_kind_tag(k: MessageKind) -> u8 {
    match k {
        MessageKind::Version => 1,
        MessageKind::Verack => 2,
        MessageKind::GetPeers => 3,
        MessageKind::Peers => 4,
        MessageKind::GetSync => 5,
        MessageKind::Sync => 6,
        MessageKind::GetBlock => 7,
        MessageKind::Block => 8,
        MessageKind::SyncBlock => 9,
        MessageKind::GetMemoryPool => 10,
        MessageKind::MemoryPool => 11,
        MessageKind::Transaction => 12,
    }
}

pub open spec fn spec_kind_of_tag(t: u8) -> Option<MessageKind> {
    if t == 1 { Some(MessageKind::Version) }
    else if t == 2 { Some(MessageKind::Verack) }
    else if t == 3 { Some(MessageKind::GetPeers) }
    else if t == 4 { Some(MessageKind::Peers) }
    else if t == 5 { Some(MessageKind::GetSync) }
    else if t == 6 { Some(MessageKind::Sync) }
    else if t == 7 { Some(MessageKind::GetBlock) }
    else if t == 8 { Some(MessageKind::Block) }
    else if t == 9 { Some(MessageKind::SyncBlock) }
    else if t == 10 { Some(MessageKind::GetMemoryPool) }
    else if t == 11 { Some(MessageKind::MemoryPool) }
    else if t == 12 { Some(MessageKind::Transaction) }
    else { None }
}

pub fn kind_tag(k: MessageKind) -> (r: u8)
    ensures
        r == spec_kind_tag(k),
{
    match k {
        MessageKind::Version => 1,
        MessageKind::Verack => 2,
        MessageKind::GetPeers => 3,
        MessageKind::Peers => 4,
        MessageKind::GetSync => 5,
        MessageKind::Sync => 6,
        MessageKind::GetBlock => 7,
        MessageKind::Block => 8,
        MessageKind::SyncBlock => 9,
        MessageKind::GetMemoryPool => 10,
        MessageKind::MemoryPool => 11,
        MessageKind::Transaction => 12,
    }
}

pub fn kind_of_tag(t: u8) -> (r: Option<MessageKind>)
    ensures
        r == spec_kind_of_tag(t),
{
    if t == 1 { Some(MessageKind::Version) }
    else if t == 2 { Some(MessageKind::Verack) }
    else if t == 3 { Some(MessageKind::GetPeers) }
    else if t == 4 { Some(MessageKind::Peers) }
    else if t == 5 { Some(MessageKind::GetSync) }
    else if t == 6 { Some(MessageKind::Sync) }
    else if t == 7 { Some(MessageKind::GetBlock) }
    else if t == 8 { Some(MessageKind::Block) }
    else if t == 9 { Some(MessageKind::SyncBlock) }
    else if t == 10 { Some(MessageKind::GetMemoryPool) }
    else if t == 11 { Some(MessageKind::MemoryPool) }
    else if t == 12 { Some(MessageKind::Transaction) }
    else { None }
}

/// A tag decodes back to the kind it was written from.
pub proof fn lemma_kind_tag_round_trip(k: MessageKind)
    ensures
        spec_kind_of_tag(spec_kind_tag(k)) == Some(k),
{
}

// ---------------------------------------------------------------------------
// Typed messages
// ---------------------------------------------------------------------------

/// A protocol message with its decoded payload.
///
/// Block and transaction payloads stay opaque: their inner layout belongs
/// to the external consensus collaborator.
pub enum Message {
    Version { nonce: u64 },
    Verack { nonce: u64 },
    GetPeers,
    Peers { addresses: Vec<PeerAddress> },
    GetSync { locator: Vec<Vec<u8>> },
    Sync { locator: Vec<Vec<u8>> },
    GetBlock { hash: Vec<u8> },
    Block { data: Vec<u8> },
    SyncBlock { data: Vec<u8> },
    GetMemoryPool,
    MemoryPool { transactions: Vec<Vec<u8>> },
    Transaction { data: Vec<u8> },
}

/// Mathematical model of a [`Message`].
pub enum MessageView {
    Version { nonce: u64 },
    Verack { nonce: u64 },
    GetPeers,
    Peers { addresses: Seq<PeerAddress> },
    GetSync { locator: Seq<Seq<u8>> },
    Sync { locator: Seq<Seq<u8>> },
    GetBlock { hash: Seq<u8> },
    Block { data: Seq<u8> },
    SyncBlock { data: Seq<u8> },
    GetMemoryPool,
    MemoryPool { transactions: Seq<Seq<u8>> },
    Transaction { data: Seq<u8> },
}

impl View for Message {
    type V = MessageView;

    open spec fn view(&self) -> MessageView {
        match self {
            Message::Version { nonce } => MessageView::Version { nonce: *nonce },
            Message::Verack { nonce } => MessageView::Verack { nonce: *nonce },
            Message::GetPeers => MessageView::GetPeers,
            Message::Peers { addresses } => MessageView::Peers { addresses: addresses@ },
            Message::GetSync { locator } => MessageView::GetSync { locator: locator.deep_view() },
            Message::Sync { locator } => MessageView::Sync { locator: locator.deep_view() },
            Message::GetBlock { hash } => MessageView::GetBlock { hash: hash@ },
            Message::Block { data } => MessageView::Block { data: data@ },
            Message::SyncBlock { data } => MessageView::SyncBlock { data: data@ },
            Message::GetMemoryPool => MessageView::GetMemoryPool,
            Message::MemoryPool { transactions } => MessageView::MemoryPool {
                transactions: transactions.deep_view(),
            },
            Message::Transaction { data } => MessageView::Transaction { data: data@ },
        }
    }
}

pub open spec fn spec_kind_of(m: MessageView) -> MessageKind {
    match m {
        MessageView::Version { .. } => MessageKind::Version,
        MessageView::Verack { .. } => MessageKind::Verack,
        MessageView::GetPeers => MessageKind::GetPeers,
        MessageView::Peers { .. } => MessageKind::Peers,
        MessageView::GetSync { .. } => MessageKind::GetSync,
        MessageView::Sync { .. } => MessageKind::Sync,
        MessageView::GetBlock { .. } => MessageKind::GetBlock,
        MessageView::Block { .. } => MessageKind::Block,
        MessageView::SyncBlock { .. } => MessageKind::SyncBlock,
        MessageView::GetMemoryPool => MessageKind::GetMemoryPool,
        MessageView::MemoryPool { .. } => MessageKind::MemoryPool,
        MessageView::Transaction { .. } => MessageKind::Transaction,
    }
}

pub fn kind_of(m: &Message) -> (k: MessageKind)
    ensures
        k == spec_kind_of(m@),
{
    match m {
        Message::Version { .. } => MessageKind::Version,
        Message::Verack { .. } => MessageKind::Verack,
        Message::GetPeers => MessageKind::GetPeers,
        Message::Peers { .. } => MessageKind::Peers,
        Message::GetSync { .. } => MessageKind::GetSync,
        Message::Sync { .. } => MessageKind::Sync,
        Message::GetBlock { .. } => MessageKind::GetBlock,
        Message::Block { .. } => MessageKind::Block,
        Message::SyncBlock { .. } => MessageKind::SyncBlock,
        Message::GetMemoryPool => MessageKind::GetMemoryPool,
        Message::MemoryPool { .. } => MessageKind::MemoryPool,
        Message::Transaction { .. } => MessageKind::Transaction,
    }
}

// ---------------------------------------------------------------------------
// Payload codec
// ---------------------------------------------------------------------------

pub open spec fn spec_address_items(addresses: Seq<PeerAddress>) -> Seq<Seq<u8>> {
    addresses.map_values(|a: PeerAddress| spec_address_bytes(a))
}

/// The payload bytes of a message.
pub open spec fn spec_message_payload(m: MessageView) -> Seq<u8> {
    match m {
        MessageView::Version { nonce } => spec_u64_bytes(nonce),
        MessageView::Verack { nonce } => spec_u64_bytes(nonce),
        MessageView::GetPeers => Seq::empty(),
        MessageView::Peers { addresses } => spec_encode_items(spec_address_items(addresses)),
        MessageView::GetSync { locator } => spec_encode_items(locator),
        MessageView::Sync { locator } => spec_encode_items(locator),
        MessageView::GetBlock { hash } => hash,
        MessageView::Block { data } => data,
        MessageView::SyncBlock { data } => data,
        MessageView::GetMemoryPool => Seq::empty(),
        MessageView::MemoryPool { transactions } => spec_encode_items(transactions),
        MessageView::Transaction { data } => data,
    }
}

/// A message the envelope can carry: the payload and every list item fit
/// their four-byte length fields.
pub open spec fn wf_message(m: MessageView) -> bool {
    &&& spec_message_payload(m).len() <= u32::MAX
    &&& match m {
        MessageView::GetSync { locator } => wf_items(locator),
        MessageView::Sync { locator } => wf_items(locator),
        MessageView::MemoryPool { transactions } => wf_items(transactions),
        _ => true,
    }
}

/// The unique message of kind `k` whose payload is exactly `b`, if any.
pub open spec fn spec_decode_payload(k: MessageKind, b: Seq<u8>) -> Option<MessageView> {
    match k {
        MessageKind::Version => if b.len() == 8 {
            Some(MessageView::Version { nonce: spec_u64_of_bytes(b) })
        } else {
            None
        },
        MessageKind::Verack => if b.len() == 8 {
            Some(MessageView::Verack { nonce: spec_u64_of_bytes(b) })
        } else {
            None
        },
        MessageKind::GetPeers => if b.len() == 0 {
            Some(MessageView::GetPeers)
        } else {
            None
        },
        MessageKind::Peers => match spec_decode_items(b) {
            Some(items) => if forall|i: int| 0 <= i < items.len()
                ==> (#[trigger] items[i]).len() == 6 {
                Some(MessageView::Peers {
                    addresses: items.map_values(|it: Seq<u8>| spec_address_of_bytes(it)),
                })
            } else {
                None
            },
            None => None,
        },
        MessageKind::GetSync => match spec_decode_items(b) {
            Some(items) => Some(MessageView::GetSync { locator: items }),
            None => None,
        },
        MessageKind::Sync => match spec_decode_items(b) {
            Some(items) => Some(MessageView::Sync { locator: items }),
            None => None,
        },
        MessageKind::GetBlock => Some(MessageView::GetBlock { hash: b }),
        MessageKind::Block => Some(MessageView::Block { data: b }),
        MessageKind::SyncBlock => Some(MessageView::SyncBlock { data: b }),
        MessageKind::GetMemoryPool => if b.len() == 0 {
            Some(MessageView::GetMemoryPool)
        } else {
            None
        },
        MessageKind::MemoryPool => match spec_decode_items(b) {
            Some(items) => Some(MessageView::MemoryPool { transactions: items }),
            None => None,
        },
        MessageKind::Transaction => Some(MessageView::Transaction { data: b }),
    }
}

/// Decoding a payload under its own kind gives the message back, for every
/// well-formed message.
pub proof fn lemma_payload_round_trip(m: MessageView)
    requires
        wf_message(m),
    ensures
        spec_decode_payload(spec_kind_of(m), spec_message_payload(m)) == Some(m),
{
    match m {
        MessageView::Version { nonce } => {
            lemma_u64_round_trip(nonce);
        }
        MessageView::Verack { nonce } => {
            lemma_u64_round_trip(nonce);
        }
        MessageView::Peers { addresses } => {
            let items = spec_address_items(addresses);
            assert forall|i: int| 0 <= i < items.len()
                implies (#[trigger] items[i]).len() == 6 by {
                lemma_address_round_trip(addresses[i]);
            }
            lemma_items_round_trip(items);
            let back = items.map_values(|it: Seq<u8>| spec_address_of_bytes(it));
            assert forall|i: int| 0 <= i < back.len()
                implies #[trigger] back[i] == addresses[i] by {
                lemma_address_round_trip(addresses[i]);
            }
            assert(back =~= addresses);
        }
        MessageView::GetSync { locator } => {
            lemma_items_round_trip(locator);
        }
        MessageView::Sync { locator } => {
            lemma_items_round_trip(locator);
        }
        MessageView::MemoryPool { transactions } => {
            lemma_items_round_trip(transactions);
        }
        _ => {}
    }
}

fn address_items(addresses: &Vec<PeerAddress>) -> (r: Vec<Vec<u8>>)
    ensures
        r.deep_view() == spec_address_items(addresses@),
{
    let mut r: Vec<Vec<u8>> = Vec::new();
    let mut i: usize = 0;
    while i < addresses.len()
        invariant
            i <= addresses@.len(),
            r@.len() == i,
            forall|j: int| 0 <= j < i
                ==> #[trigger] r@[j]@ == spec_address_bytes(addresses@[j]),
        decreases addresses@.len() - i,
    {
        r.push(encode_address(&addresses[i]));
        i = i + 1;
    }
    proof {
        assert forall|j: int| 0 <= j < r.deep_view().len()
            implies #[trigger] r.deep_view()[j] == spec_address_items(addresses@)[j] by {
            assert(r@[j].deep_view() =~= r@[j]@);
        }
        assert(r.deep_view() =~= spec_address_items(addresses@));
    }
    r
}

/// Serializes a message's payload.
pub fn encode_payload(m: &Message) -> (r: Vec<u8>)
    requires
        wf_message(m@),
    ensures
        r@ == spec_message_payload(m@),
{
    match m {
        Message::Version { nonce } => {
            let mut out: Vec<u8> = Vec::new();
            push_u64(&mut out, *nonce);
            out
        }
        Message::Verack { nonce } => {
            let mut out: Vec<u8> = Vec::new();
            push_u64(&mut out, *nonce);
            out
        }
        Message::GetPeers => Vec::new(),
        Message::Peers { addresses } => {
            let items = address_items(addresses);
            proof {
                assert forall|i: int| 0 <= i < items.deep_view().len()
                    implies (#[trigger] items.deep_view()[i]).len() <= u32::MAX by {
                    lemma_address_round_trip(addresses@[i]);
                }
            }
            encode_items(&items)
        }
        Message::GetSync { locator } => encode_items(locator),
        Message::Sync { locator } => encode_items(locator),
        Message::GetBlock { hash } => clone_bytes(hash),
        Message::Block { data } => clone_bytes(data),
        Message::SyncBlock { data } => clone_bytes(data),
        Message::GetMemoryPool => Vec::new(),
        Message::MemoryPool { transactions } => encode_items(transactions),
        Message::Transaction { data } => clone_bytes(data),
    }
}

/// Decodes a payload under the given kind; fails exactly on the payloads
/// that no message of that kind serializes to.
pub fn decode_payload(k: MessageKind, b: &Vec<u8>) -> (r: Result<Message, NetworkError>)
    ensures
        (r is Ok) == (spec_decode_payload(k, b@) is Some),
        r matches Ok(m) ==> Some(m@) == spec_decode_payload(k, b@),
        r matches Err(e) ==> e == NetworkError::Malformed,
{
    match k {
        MessageKind::Version => {
            if b.len() == 8 {
                proof {
                    assert(b@.subrange(0, 8) =~= b@);
                }
                Ok(Message::Version { nonce: read_u64(b, 0) })
            } else {
                Err(NetworkError::Malformed)
            }
        }
        MessageKind::Verack => {
            if b.len() == 8 {
                proof {
                    assert(b@.subrange(0, 8) =~= b@);
                }
                Ok(Message::Verack { nonce: read_u64(b, 0) })
            } else {
                Err(NetworkError::Malformed)
            }
        }
        MessageKind::GetPeers => {
            if b.len() == 0 {
                Ok(Message::GetPeers)
            } else {
                Err(NetworkError::Malformed)
            }
        }
        MessageKind::Peers => {
            match decode_items(b) {
                None => Err(NetworkError::Malformed),
                Some(items) => {
                    let ghost idv = items.deep_view();
                    let mut addrs: Vec<PeerAddress> = Vec::new();
                    let mut i: usize = 0;
                    while i < items.len()
                        invariant
                            i <= items@.len(),
                            idv == items.deep_view(),
                            k == MessageKind::Peers,
                            idv.len() == items@.len(),
                            Some(idv) == spec_decode_items(b@),
                            addrs@.len() == i,
                            forall|j: int| 0 <= j < i ==> (#[trigger] idv[j]).len() == 6,
                            forall|j: int| 0 <= j < i
                                ==> #[trigger] addrs@[j] == spec_address_of_bytes(idv[j]),
                        decreases items@.len() - i,
                    {
                        proof {
                            assert(idv[i as int] == items@[i as int].deep_view());
                            assert(items@[i as int].deep_view() =~= items@[i as int]@);
                        }
                        if items[i].len() != 6 {
                            proof {
                                assert(!(forall|j: int| 0 <= j < idv.len()
                                    ==> (#[trigger] idv[j]).len() == 6)) by {
                                    assert(idv[i as int].len() != 6);
                                }
                            }
                            return Err(NetworkError::Malformed);
                        }
                        addrs.push(decode_address(&items[i]));
                        i = i + 1;
                    }
                    proof {
                        let back = idv.map_values(|it: Seq<u8>| spec_address_of_bytes(it));
                        assert(addrs@ =~= back);
                    }
                    Ok(Message::Peers { addresses: addrs })
                }
            }
        }
        MessageKind::GetSync => {
            match decode_items(b) {
                None => Err(NetworkError::Malformed),
                Some(items) => Ok(Message::GetSync { locator: items }),
            }
        }
        MessageKind::Sync => {
            match decode_items(b) {
                None => Err(NetworkError::Malformed),
                Some(items) => Ok(Message::Sync { locator: items }),
            }
        }
        MessageKind::GetBlock => Ok(Message::GetBlock { hash: clone_bytes(b) }),
        MessageKind::Block => Ok(Message::Block { data: clone_bytes(b) }),
        MessageKind::SyncBlock => Ok(Message::SyncBlock { data: clone_bytes(b) }),
        MessageKind::GetMemoryPool => {
            if b.len() == 0 {
                Ok(Message::GetMemoryPool)
            } else {
                Err(NetworkError::Malformed)
            }
        }
        MessageKind::MemoryPool => {
            match decode_items(b) {
                None => Err(NetworkError::Malformed),
                Some(items) => Ok(Message::MemoryPool { transactions: items }),
            }
        }
        MessageKind::Transaction => Ok(Message::Transaction { data: clone_bytes(b) }),
    }
}

// ---------------------------------------------------------------------------
// The envelope
// ---------------------------------------------------------------------------

/// Bytes of the envelope header: one tag byte and a four-byte length.
pub const HEADER_LEN: usize = 5;

/// The full wire form of a message: tag, payload length, payload.
pub open spec fn spec_envelope_bytes(m: MessageView) -> Seq<u8> {
    seq![spec_kind_tag(spec_kind_of(m))]
        + spec_u32_bytes(spec_message_payload(m).len() as u32)
        + spec_message_payload(m)
}

/// Serializes a message with its envelope header.
pub fn encode_envelope(m: &Message) -> (r: Vec<u8>)
    requires
        wf_message(m@),
    ensures
        r@ == spec_envelope_bytes(m@),
{
    let payload = encode_payload(m);
    let mut out: Vec<u8> = Vec::new();
    out.push(kind_tag(kind_of(m)));
    push_u32(&mut out, payload.len() as u32);
    push_bytes(&mut out, &payload);
    proof {
        assert(out@ =~= spec_envelope_bytes(m@));
    }
    out
}

/// Result of scanning a receive buffer for its first envelope.
pub enum Extraction {
    /// The buffer holds only a prefix of an envelope.
    NeedMore,
    /// The buffer's first envelope is not a protocol message.
    Malformed,
    /// The first `consumed` bytes of the buffer decode to `message`.
    Complete { message: Message, consumed: usize },
}

/// Mathematical model of an [`Extraction`].
pub enum ExtractionView {
    NeedMore,
    Malformed,
    Complete { message: MessageView, consumed: int },
}

impl View for Extraction {
    type V = ExtractionView;

    open spec fn view(&self) -> ExtractionView {
        match self {
            Extraction::NeedMore => ExtractionView::NeedMore,
            Extraction::Malformed => ExtractionView::Malformed,
            Extraction::Complete { message, consumed } => ExtractionView::Complete {
                message: message@,
                consumed: *consumed as int,
            },
        }
    }
}

/// What the first envelope of `b` holds: a complete message, a prefix that
/// needs more bytes, or a protocol violation.
pub open spec fn spec_extract(b: Seq<u8>) -> ExtractionView {
    if b.len() == 0 {
        ExtractionView::NeedMore
    } else {
        match spec_kind_of_tag(b[0]) {
            None => ExtractionView::Malformed,
            Some(k) => if b.len() < 5 {
                ExtractionView::NeedMore
            } else {
                let n = spec_u32_of_bytes(b.subrange(1, 5)) as int;
                if b.len() < 5 + n {
                    ExtractionView::NeedMore
                } else {
                    match spec_decode_payload(k, b.subrange(5, 5 + n)) {
                        Some(m) => ExtractionView::Complete { message: m, consumed: 5 + n },
                        None => ExtractionView::Malformed,
                    }
                }
            },
        }
    }
}

/// Scans a receive buffer for its first envelope. No partial envelope is
/// ever handed to the caller: either a full message and the exact number of
/// bytes it occupied come back, or nothing does.
pub fn extract_message(buffer: &Vec<u8>) -> (r: Extraction)
    ensures
        r@ == spec_extract(buffer@),
        r matches Extraction::Complete { message, consumed }
            ==> 5 <= consumed <= buffer@.len(),
{
    let n = buffer.len();
    if n == 0 {
        return Extraction::NeedMore;
    }
    let tag = buffer[0];
    match kind_of_tag(tag) {
        None => Extraction::Malformed,
        Some(k) => {
            if n < 5 {
                return Extraction::NeedMore;
            }
            let len32 = read_u32(buffer, 1);
            proof {
                assert(buffer@.subrange(1, 5) =~= buffer@.subrange(1int, 1int + 4));
            }
            let len = len32 as usize;
            if n - 5 < len {
                return Extraction::NeedMore;
            }
            let payload = take_range(buffer, 5, 5 + len);
            match decode_payload(k, &payload) {
                Ok(message) => Extraction::Complete { message, consumed: 5 + len },
                Err(_) => Extraction::Malformed,
            }
        }
    }
}

/// A well-formed message followed by any trailing bytes extracts to exactly
/// that message, consuming exactly its own envelope.
pub proof fn lemma_extract_envelope(m: MessageView, rest: Seq<u8>)
    requires
        wf_message(m),
    ensures
        spec_extract(spec_envelope_bytes(m) + rest) == (ExtractionView::Complete {
            message: m,
            consumed: spec_envelope_bytes(m).len() as int,
        }),
{
    let payload = spec_message_payload(m);
    let e = spec_envelope_bytes(m);
    let b = e + rest;
    assert(e.len() == 5 + payload.len());
    assert(b[0] == spec_kind_tag(spec_kind_of(m)));
    lemma_kind_tag_round_trip(spec_kind_of(m));
    assert(b.subrange(1, 5) =~= spec_u32_bytes(payload.len() as u32));
    lemma_u32_round_trip(payload.len() as u32);
    assert(b.subrange(5, 5 + payload.len() as int) =~= payload);
    lemma_payload_round_trip(m);
}

/// A strict prefix of an envelope never decodes: the scanner asks for more
/// bytes instead of exposing a partial envelope.
pub proof fn lemma_extract_prefix(m: MessageView, i: int)
    requires
        wf_message(m),
        0 <= i < spec_envelope_bytes(m).len(),
    ensures
        spec_extract(spec_envelope_bytes(m).take(i)) == ExtractionView::NeedMore,
{
    let payload = spec_message_payload(m);
    let e = spec_envelope_bytes(m);
    let p = e.take(i);
    assert(e.len() == 5 + payload.len());
    if i == 0 {
        assert(p.len() == 0);
    } else {
        assert(p[0] == spec_kind_tag(spec_kind_of(m)));
        lemma_kind_tag_round_trip(spec_kind_of(m));
        if i < 5 {
            assert(p.len() < 5);
        } else {
            assert(p.subrange(1, 5) =~= spec_u32_bytes(payload.len() as u32));
            lemma_u32_round_trip(payload.len() as u32);
            assert(p.len() < 5 + payload.len());
        }
    }
}

} // verus!
