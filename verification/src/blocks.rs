//! Chain-sync and propagation state machine.
//!
//! The node's view of the ledger and the mempool is modeled here as plain
//! data: a block is its header hash plus its opaque serialized bytes, a
//! transaction its opaque bytes. Hashing and validity belong to the
//! external consensus collaborator; its verdicts are handed in as
//! arguments, so the sync logic is verified for every verdict it can give.
//!
//! At most one sync session runs at a time, system-wide: [`SyncStatus`] is
//! Idle or Syncing toward a single target peer.

use vstd::prelude::*;

use crate::action::{Action, ActionView};
use crate::message::{bytes_eq, clone_bytes, Message, MessageView, PeerAddress};
use crate::peers::acts_view;

verus! {

/// How long a sync session may wait for a completing Block response before
/// maintenance reverts it to Idle, in ticks. A tunable default: the
/// protocol fixes only that a session must time out, not the window.
pub const SYNC_TIMEOUT_TICKS: u64 = 30;

/// A block as the node stores it: its header hash and its opaque
/// serialized form.
pub struct StoredBlock {
    pub hash: Vec<u8>,
    pub data: Vec<u8>,
}

/// Mathematical model of a [`StoredBlock`].
pub struct StoredBlockView {
    pub hash: Seq<u8>,
    pub data: Seq<u8>,
}

impl View for StoredBlock {
    type V = StoredBlockView;

    open spec fn view(&self) -> StoredBlockView {
        StoredBlockView { hash: self.hash@, data: self.data@ }
    }
}

impl DeepView for StoredBlock {
    type V = StoredBlockView;

    open spec fn deep_view(&self) -> StoredBlockView {
        self@
    }
}

/// The single global sync state.
pub enum SyncStatus {
    /// No sync session is active.
    Idle,
    /// A session with `target`: `pending` holds the hashes still awaited,
    /// `started` the tick the session began.
    Syncing { target: PeerAddress, pending: Vec<Vec<u8>>, started: u64 },
}

/// Mathematical model of a [`SyncStatus`].
pub enum SyncStatusView {
    Idle,
    Syncing { target: PeerAddress, pending: Seq<Seq<u8>>, started: u64 },
}

impl View for SyncStatus {
    type V = SyncStatusView;

    open spec fn view(&self) -> SyncStatusView {
        match self {
            SyncStatus::Idle => SyncStatusView::Idle,
            SyncStatus::Syncing { target, pending, started } => SyncStatusView::Syncing {
                target: *target,
                pending: pending.deep_view(),
                started: *started,
            },
        }
    }
}

/// Mathematical model of [`Blocks`].
pub struct BlocksView {
    pub chain: Seq<StoredBlockView>,
    pub mempool: Seq<Seq<u8>>,
    pub sync: SyncStatusView,
}

/// The chain-sync state machine and the node's model of ledger and
/// mempool contents.
pub struct Blocks {
    /// Stored blocks in insertion order, genesis first.
    chain: Vec<StoredBlock>,
    /// Pending, unconfirmed transactions in arrival order, deduplicated.
    mempool: Vec<Vec<u8>>,
    /// The single global sync session.
    sync: SyncStatus,
}

impl View for Blocks {
    type V = BlocksView;

    closed spec fn view(&self) -> BlocksView {
        BlocksView {
            chain: self.chain.deep_view(),
            mempool: self.mempool.deep_view(),
            sync: self.sync@,
        }
    }
}

// ---------------------------------------------------------------------------
// Spec helpers over chain and mempool contents
// ---------------------------------------------------------------------------

/// Whether a block with hash `h` is stored.
pub open spec fn spec_chain_contains(c: Seq<StoredBlockView>, h: Seq<u8>) -> bool {
    exists|i: int| 0 <= i < c.len() && c[i].hash == h
}

/// Storing a block is idempotent: a hash already present changes nothing.
pub open spec fn spec_insert_block(c: Seq<StoredBlockView>, h: Seq<u8>, d: Seq<u8>)
    -> Seq<StoredBlockView> {
    if spec_chain_contains(c, h) {
        c
    } else {
        c.push(StoredBlockView { hash: h, data: d })
    }
}

/// The block locator: stored hashes from chain tip toward genesis. The
/// genesis hash is always included, also when it is the only stored block;
/// the rule is fixed here because the protocol leaves it open.
pub open spec fn spec_locator(c: Seq<StoredBlockView>) -> Seq<Seq<u8>>
    decreases c.len(),
{
    if c.len() == 0 {
        Seq::empty()
    } else {
        seq![c.last().hash] + spec_locator(c.drop_last())
    }
}

pub proof fn lemma_locator_index(c: Seq<StoredBlockView>)
    ensures
        spec_locator(c).len() == c.len(),
        forall|i: int| 0 <= i < c.len()
            ==> #[trigger] spec_locator(c)[i] == c[c.len() - 1 - i].hash,
    decreases c.len(),
{
    if c.len() > 0 {
        lemma_locator_index(c.drop_last());
    }
}

/// The locator hashes that are not stored locally, first occurrence each,
/// in locator order.
pub open spec fn spec_missing(c: Seq<StoredBlockView>, locator: Seq<Seq<u8>>) -> Seq<Seq<u8>>
    decreases locator.len(),
{
    if locator.len() == 0 {
        Seq::empty()
    } else {
        let rest = spec_missing(c, locator.drop_last());
        let h = locator.last();
        if spec_chain_contains(c, h) || rest.contains(h) {
            rest
        } else {
            rest.push(h)
        }
    }
}

/// Removes every copy of `h` from the pending list.
pub open spec fn spec_remove_hash(pending: Seq<Seq<u8>>, h: Seq<u8>) -> Seq<Seq<u8>>
    decreases pending.len(),
{
    if pending.len() == 0 {
        Seq::empty()
    } else {
        let rest = spec_remove_hash(pending.drop_last(), h);
        if pending.last() == h {
            rest
        } else {
            rest.push(pending.last())
        }
    }
}

/// Merging a MemoryPool message: each transaction is added once.
pub open spec fn spec_add_txs(mempool: Seq<Seq<u8>>, txs: Seq<Seq<u8>>) -> Seq<Seq<u8>>
    decreases txs.len(),
{
    if txs.len() == 0 {
        mempool
    } else {
        let m = spec_add_txs(mempool, txs.drop_last());
        if m.contains(txs.last()) {
            m
        } else {
            m.push(txs.last())
        }
    }
}

/// One GetBlock request per missing hash, in locator order.
pub open spec fn spec_get_block_actions(from: PeerAddress, missing: Seq<Seq<u8>>)
    -> Seq<ActionView> {
    missing.map_values(|h: Seq<u8>| ActionView::Send {
        to: from,
        message: MessageView::GetBlock { hash: h },
    })
}

// ---------------------------------------------------------------------------
// Executable helpers over byte-vector lists
// ---------------------------------------------------------------------------

/// Whether `v` holds a byte string equal to `h`.
pub fn contains_bytes(v: &Vec<Vec<u8>>, h: &Vec<u8>) -> (r: bool)
    ensures
        r == v.deep_view().contains(h@),
{
    let ghost dv = v.deep_view();
    let mut i: usize = 0;
    while i < v.len()
        invariant
            i <= v@.len(),
            dv == v.deep_view(),
            dv.len() == v@.len(),
            forall|j: int| 0 <= j < i ==> dv[j] != h@,
        decreases v@.len() - i,
    {
        proof {
            assert(dv[i as int] == v@[i as int].deep_view());
            assert(v@[i as int].deep_view() =~= v@[i as int]@);
        }
        if bytes_eq(&v[i], h) {
            return true;
        }
        i = i + 1;
    }
    proof {
        assert(!dv.contains(h@));
    }
    false
}

/// Copies a list of byte strings.
pub fn clone_bytes_list(v: &Vec<Vec<u8>>) -> (r: Vec<Vec<u8>>)
    ensures
        r.deep_view() == v.deep_view(),
{
    let mut r: Vec<Vec<u8>> = Vec::new();
    let mut i: usize = 0;
    while i < v.len()
        invariant
            i <= v@.len(),
            r@.len() == i,
            forall|j: int| 0 <= j < i ==> #[trigger] r@[j]@ == v@[j]@,
        decreases v@.len() - i,
    {
        r.push(clone_bytes(&v[i]));
        i = i + 1;
    }
    proof {
        assert forall|j: int| 0 <= j < r.deep_view().len()
            implies #[trigger] r.deep_view()[j] == v.deep_view()[j] by {
            assert(r@[j].deep_view() =~= r@[j]@);
            assert(v@[j].deep_view() =~= v@[j]@);
        }
        assert(r.deep_view() =~= v.deep_view());
    }
    r
}

/// Removes every copy of `h`, keeping the order of the rest.
fn remove_hash(pending: &Vec<Vec<u8>>, h: &Vec<u8>) -> (r: Vec<Vec<u8>>)
    ensures
        r.deep_view() == spec_remove_hash(pending.deep_view(), h@),
{
    let ghost dv = pending.deep_view();
    let mut r: Vec<Vec<u8>> = Vec::new();
    let mut i: usize = 0;
    while i < pending.len()
        invariant
            i <= pending@.len(),
            dv == pending.deep_view(),
            dv.len() == pending@.len(),
            r.deep_view() == spec_remove_hash(dv.take(i as int), h@),
        decreases pending@.len() - i,
    {
        proof {
            assert(dv.take(i + 1).drop_last() =~= dv.take(i as int));
            assert(dv.take(i + 1).last() == dv[i as int]);
            assert(dv[i as int] == pending@[i as int].deep_view());
            assert(pending@[i as int].deep_view() =~= pending@[i as int]@);
        }
        let ghost before = r.deep_view();
        if !bytes_eq(&pending[i], h) {
            r.push(clone_bytes(&pending[i]));
            proof {
                assert forall|j: int| 0 <= j < r.deep_view().len()
                    implies #[trigger] r.deep_view()[j]
                        == before.push(dv[i as int])[j] by {
                    assert(r@[j].deep_view() =~= r@[j]@);
                }
                assert(r.deep_view() =~= before.push(dv[i as int]));
            }
        }
        i = i + 1;
    }
    proof {
        assert(dv.take(dv.len() as int) =~= dv);
    }
    r
}

// ---------------------------------------------------------------------------
// Transitions of the sync state machine
// ---------------------------------------------------------------------------

/// Index of the first stored block with hash `h`, or -1.
pub open spec fn spec_chain_find(c: Seq<StoredBlockView>, h: Seq<u8>) -> int
    decreases c.len(),
{
    if c.len() == 0 {
        -1
    } else if c[0].hash == h {
        0
    } else {
        let r = spec_chain_find(c.drop_first(), h);
        if r < 0 {
            -1
        } else {
            r + 1
        }
    }
}

pub proof fn lemma_chain_find_props(c: Seq<StoredBlockView>, h: Seq<u8>)
    ensures
        spec_chain_find(c, h) == -1 ==> !spec_chain_contains(c, h),
        spec_chain_find(c, h) >= 0 ==> spec_chain_find(c, h) < c.len()
            && c[spec_chain_find(c, h)].hash == h
            && (forall|j: int| 0 <= j < spec_chain_find(c, h) ==> c[j].hash != h),
    decreases c.len(),
{
    if c.len() == 0 {
    } else if c[0].hash == h {
    } else {
        lemma_chain_find_props(c.drop_first(), h);
        let r = spec_chain_find(c.drop_first(), h);
        if r == -1 {
            assert forall|i: int| 0 <= i < c.len() implies c[i].hash != h by {
                if i > 0 {
                    assert(c.drop_first()[i - 1] == c[i]);
                    assert(!spec_chain_contains(c.drop_first(), h));
                }
            }
        } else {
            assert(c[r + 1] == c.drop_first()[r]);
            assert forall|j: int| 0 <= j < r + 1 implies c[j].hash != h by {
                if j > 0 {
                    assert(c.drop_first()[j - 1] == c[j]);
                }
            }
        }
    }
}

/// Maintenance: a session that outlived the timeout reverts to Idle; then,
/// if no session is active and a target is known, a new session starts by
/// requesting the target's locator with GetSync.
pub open spec fn spec_block_update(v: BlocksView, now: u64, target: Option<PeerAddress>)
    -> (BlocksView, Seq<ActionView>) {
    let sync1 = match v.sync {
        SyncStatusView::Syncing { started, .. } => if started + SYNC_TIMEOUT_TICKS < now {
            SyncStatusView::Idle
        } else {
            v.sync
        },
        _ => v.sync,
    };
    match sync1 {
        SyncStatusView::Idle => match target {
            Some(t) => (
                BlocksView {
                    sync: SyncStatusView::Syncing {
                        target: t,
                        pending: Seq::empty(),
                        started: now,
                    },
                    ..v
                },
                seq![
                    ActionView::Send {
                        to: t,
                        message: MessageView::GetSync { locator: spec_locator(v.chain) },
                    },
                ],
            ),
            None => (BlocksView { sync: sync1, ..v }, seq![]),
        },
        _ => (BlocksView { sync: sync1, ..v }, seq![]),
    }
}

/// A Sync reply from the session's own target: request every missing hash
/// in locator order, or end the session if nothing is missing. A Sync from
/// anyone else, or outside a session, is stale and ignored.
pub open spec fn spec_on_sync(v: BlocksView, from: PeerAddress, locator: Seq<Seq<u8>>)
    -> (BlocksView, Seq<ActionView>) {
    match v.sync {
        SyncStatusView::Syncing { target, pending, started } => if target == from {
            let miss = spec_missing(v.chain, locator);
            if miss.len() == 0 {
                (BlocksView { sync: SyncStatusView::Idle, ..v }, seq![])
            } else {
                (
                    BlocksView {
                        sync: SyncStatusView::Syncing { target, pending: miss, started },
                        ..v
                    },
                    spec_get_block_actions(from, miss),
                )
            }
        } else {
            (v, seq![])
        },
        _ => (v, seq![]),
    }
}

/// A valid block is stored (idempotently); if it satisfies the last
/// outstanding request of the sync session, the session ends. A gossiped
/// new block is propagated to the given recipients; an invalid block
/// changes nothing.
pub open spec fn spec_on_block(
    v: BlocksView,
    hash: Seq<u8>,
    data: Seq<u8>,
    valid: bool,
    propagate: bool,
    recipients: Seq<PeerAddress>,
) -> (BlocksView, Seq<ActionView>) {
    if !valid {
        (v, seq![])
    } else {
        let is_new = !spec_chain_contains(v.chain, hash);
        let chain1 = spec_insert_block(v.chain, hash, data);
        let sync1 = match v.sync {
            SyncStatusView::Syncing { target, pending, started } => if pending.contains(hash) {
                let p = spec_remove_hash(pending, hash);
                if p.len() == 0 {
                    SyncStatusView::Idle
                } else {
                    SyncStatusView::Syncing { target, pending: p, started }
                }
            } else {
                v.sync
            },
            _ => v.sync,
        };
        let props: Seq<ActionView> = if propagate && is_new {
            recipients.map_values(|a: PeerAddress| ActionView::Send {
                to: a,
                message: MessageView::Block { data },
            })
        } else {
            seq![]
        };
        (BlocksView { chain: chain1, sync: sync1, ..v }, props)
    }
}

/// A valid, previously unseen transaction enters the mempool and is
/// propagated to the given recipients; anything else changes nothing.
pub open spec fn spec_on_transaction(
    v: BlocksView,
    tx: Seq<u8>,
    valid: bool,
    recipients: Seq<PeerAddress>,
) -> (BlocksView, Seq<ActionView>) {
    if !valid {
        (v, seq![])
    } else if v.mempool.contains(tx) {
        (v, seq![])
    } else {
        (
            BlocksView { mempool: v.mempool.push(tx), ..v },
            recipients.map_values(|a: PeerAddress| ActionView::Send {
                to: a,
                message: MessageView::Transaction { data: tx },
            }),
        )
    }
}

// ---------------------------------------------------------------------------
// Laws of the sync session
// ---------------------------------------------------------------------------

/// The session state after the awaited blocks arrive one by one, each as
/// a valid SyncBlock.
pub open spec fn spec_apply_sync_blocks(v: BlocksView, blocks: Seq<StoredBlockView>)
    -> BlocksView
    decreases blocks.len(),
{
    if blocks.len() == 0 {
        v
    } else {
        let v1 = spec_on_block(v, blocks[0].hash, blocks[0].data, true, false, Seq::empty()).0;
        spec_apply_sync_blocks(v1, blocks.drop_first())
    }
}

/// The missing-hash list a Sync reply produces never repeats a hash and
/// never names a stored one — so the pending list of a session satisfies
/// what [`lemma_sync_session_completes`] asks of it.
pub proof fn lemma_missing_distinct(c: Seq<StoredBlockView>, locator: Seq<Seq<u8>>)
    ensures
        forall|i: int, j: int| 0 <= i < j < spec_missing(c, locator).len()
            ==> spec_missing(c, locator)[i] != spec_missing(c, locator)[j],
        forall|i: int| 0 <= i < spec_missing(c, locator).len()
            ==> !spec_chain_contains(c, #[trigger] spec_missing(c, locator)[i]),
    decreases locator.len(),
{
    if locator.len() > 0 {
        lemma_missing_distinct(c, locator.drop_last());
        let rest = spec_missing(c, locator.drop_last());
        let h = locator.last();
        let m = spec_missing(c, locator);
        if !(spec_chain_contains(c, h) || rest.contains(h)) {
            assert forall|i: int, j: int| 0 <= i < j < m.len()
                implies m[i] != m[j] by {
                if j == m.len() - 1 {
                    assert(m[i] == rest[i]);
                    assert(!rest.contains(h));
                }
            }
        }
    }
}

/// Removing the first pending hash, when it occurs nowhere else, drops
/// exactly the head of the list.
proof fn lemma_remove_hash_first(pending: Seq<Seq<u8>>)
    requires
        pending.len() > 0,
        forall|j: int| 1 <= j < pending.len() ==> #[trigger] pending[j] != pending[0],
    ensures
        spec_remove_hash(pending, pending[0]) == pending.drop_first(),
    decreases pending.len(),
{
    if pending.len() == 1 {
        assert(spec_remove_hash(pending.drop_last(), pending[0])
            =~= Seq::<Seq<u8>>::empty());
        assert(spec_remove_hash(pending, pending[0]) =~= pending.drop_first());
    } else {
        let d = pending.drop_last();
        assert(pending.last() == pending[pending.len() - 1]);
        assert(pending.last() != pending[0]);
        assert(d[0] == pending[0]);
        assert forall|j: int| 1 <= j < d.len() implies #[trigger] d[j] != d[0] by {
            assert(d[j] == pending[j]);
        }
        lemma_remove_hash_first(d);
        assert(spec_remove_hash(pending, pending[0])
            =~= d.drop_first().push(pending.last()));
        assert(d.drop_first().push(pending.last()) =~= pending.drop_first());
    }
}

/// A stored block stays stored, whatever else arrives.
pub proof fn lemma_apply_blocks_keeps_chain(
    v: BlocksView,
    blocks: Seq<StoredBlockView>,
    h: Seq<u8>,
)
    requires
        spec_chain_contains(v.chain, h),
    ensures
        spec_chain_contains(spec_apply_sync_blocks(v, blocks).chain, h),
    decreases blocks.len(),
{
    if blocks.len() > 0 {
        let v1 = spec_on_block(v, blocks[0].hash, blocks[0].data, true, false, Seq::empty()).0;
        let i = choose|i: int| 0 <= i < v.chain.len() && v.chain[i].hash == h;
        assert(v1.chain[i].hash == h);
        lemma_apply_blocks_keeps_chain(v1, blocks.drop_first(), h);
    }
}

/// The sync session lives exactly as long as its requests: when every
/// pending hash arrives as a valid block, in request order, the session
/// returns to Idle and every requested hash is stored.
pub proof fn lemma_sync_session_completes(
    v: BlocksView,
    target: PeerAddress,
    pending: Seq<Seq<u8>>,
    started: u64,
    blocks: Seq<StoredBlockView>,
)
    requires
        v.sync == (SyncStatusView::Syncing { target, pending, started }),
        pending.len() > 0,
        blocks.len() == pending.len(),
        forall|i: int| 0 <= i < blocks.len() ==> #[trigger] blocks[i].hash == pending[i],
        forall|i: int, j: int| 0 <= i < j < pending.len() ==> pending[i] != pending[j],
    ensures
        spec_apply_sync_blocks(v, blocks).sync == SyncStatusView::Idle,
        forall|i: int| 0 <= i < pending.len()
            ==> spec_chain_contains(spec_apply_sync_blocks(v, blocks).chain, pending[i]),
    decreases blocks.len(),
{
    let b0 = blocks[0];
    assert(b0.hash == pending[0]);
    assert(pending.contains(b0.hash)) by {
        assert(pending[0] == b0.hash);
    }
    lemma_remove_hash_first(pending);
    let v1 = spec_on_block(v, b0.hash, b0.data, true, false, Seq::empty()).0;
    assert(spec_chain_contains(v1.chain, b0.hash)) by {
        if spec_chain_contains(v.chain, b0.hash) {
            let i = choose|i: int| 0 <= i < v.chain.len() && v.chain[i].hash == b0.hash;
            assert(v1.chain[i].hash == b0.hash);
        } else {
            assert(v1.chain.last().hash == b0.hash);
        }
    }
    if pending.len() == 1 {
        assert(pending.drop_first().len() == 0);
        assert(v1.sync == SyncStatusView::Idle);
        assert(spec_apply_sync_blocks(v1, blocks.drop_first()) == v1);
        assert forall|i: int| 0 <= i < pending.len()
            implies spec_chain_contains(spec_apply_sync_blocks(v, blocks).chain, pending[i])
            by {
            assert(i == 0);
        }
    } else {
        let p1 = pending.drop_first();
        assert(v1.sync == (SyncStatusView::Syncing { target, pending: p1, started }));
        let b1 = blocks.drop_first();
        assert forall|i: int| 0 <= i < b1.len() implies #[trigger] b1[i].hash == p1[i] by {
            assert(b1[i] == blocks[i + 1]);
            assert(p1[i] == pending[i + 1]);
        }
        assert forall|i: int, j: int| 0 <= i < j < p1.len() implies p1[i] != p1[j] by {
            assert(p1[i] == pending[i + 1] && p1[j] == pending[j + 1]);
        }
        lemma_sync_session_completes(v1, target, p1, started, b1);
        lemma_apply_blocks_keeps_chain(v1, b1, b0.hash);
        assert forall|i: int| 0 <= i < pending.len()
            implies spec_chain_contains(spec_apply_sync_blocks(v, blocks).chain, pending[i])
            by {
            if i > 0 {
                assert(spec_chain_contains(
                    spec_apply_sync_blocks(v1, b1).chain,
                    p1[i - 1],
                ));
            }
        }
    }
}

impl Blocks {
    /// A node that stores nothing yet; the I/O shell seeds the genesis
    /// block through [`Blocks::insert_block`].
    pub fn new() -> (r: Blocks)
        ensures
            r@.chain == Seq::<StoredBlockView>::empty(),
            r@.mempool == Seq::<Seq<u8>>::empty(),
            r@.sync == SyncStatusView::Idle,
    {
        let r = Blocks { chain: Vec::new(), mempool: Vec::new(), sync: SyncStatus::Idle };
        proof {
            assert(r@.chain =~= Seq::<StoredBlockView>::empty());
            assert(r@.mempool =~= Seq::<Seq<u8>>::empty());
        }
        r
    }

    /// Index of the first stored block with this hash.
    fn chain_find(&self, hash: &Vec<u8>) -> (r: Option<usize>)
        ensures
            match r {
                Some(i) => i < self@.chain.len() && spec_chain_find(self@.chain, hash@) == i as int
                    && self@.chain[i as int].hash == hash@,
                None => spec_chain_find(self@.chain, hash@) == -1
                    && !spec_chain_contains(self@.chain, hash@),
            },
    {
        let ghost c = self@.chain;
        proof {
            lemma_chain_find_props(c, hash@);
        }
        let mut i: usize = 0;
        while i < self.chain.len()
            invariant
                c == self@.chain,
                c.len() == self.chain@.len(),
                i <= c.len(),
                forall|j: int| 0 <= j < i ==> c[j].hash != hash@,
            decreases c.len() - i,
        {
            proof {
                lemma_chain_find_props(c, hash@);
                assert(c[i as int] == self.chain@[i as int]@);
            }
            if bytes_eq(&self.chain[i].hash, hash) {
                return Some(i);
            }
            i = i + 1;
        }
        proof {
            lemma_chain_find_props(c, hash@);
            if spec_chain_find(c, hash@) >= 0 {
                assert(c[spec_chain_find(c, hash@)].hash == hash@);
            }
            assert(!spec_chain_contains(c, hash@));
        }
        None
    }

    /// Whether a block with this hash is stored.
    pub fn block_hash_exists(&self, hash: &Vec<u8>) -> (r: bool)
        ensures
            r == spec_chain_contains(self@.chain, hash@),
    {
        match self.chain_find(hash) {
            Some(i) => {
                proof {
                    assert(spec_chain_contains(self@.chain, hash@)) by {
                        assert(self@.chain[i as int].hash == hash@);
                    }
                }
                true
            }
            None => false,
        }
    }

    /// Stores a block. Storing an already-present hash is not an error and
    /// leaves the chain unchanged: the insert is idempotent.
    pub fn insert_block(&mut self, hash: Vec<u8>, data: Vec<u8>)
        ensures
            final(self)@ == (BlocksView {
                chain: spec_insert_block(old(self)@.chain, hash@, data@),
                ..old(self)@
            }),
    {
        let ghost c0 = self@.chain;
        match self.chain_find(&hash) {
            Some(_) => {
                proof {
                    assert(spec_chain_contains(c0, hash@)) by {
                        let i = spec_chain_find(c0, hash@);
                        assert(c0[i].hash == hash@);
                    }
                }
            }
            None => {
                let ghost b = StoredBlockView { hash: hash@, data: data@ };
                self.chain.push(StoredBlock { hash, data });
                proof {
                    assert(self@.chain =~= c0.push(b));
                }
            }
        }
    }

    /// This node's block locator: stored hashes from tip toward genesis,
    /// genesis included even when it is the only block.
    pub fn compute_block_locator_hashes(&self) -> (r: Vec<Vec<u8>>)
        ensures
            r.deep_view() == spec_locator(self@.chain),
    {
        let ghost c = self@.chain;
        let n = self.chain.len();
        let mut r: Vec<Vec<u8>> = Vec::new();
        let mut i: usize = 0;
        while i < n
            invariant
                c == self@.chain,
                n == self.chain@.len(),
                n == c.len(),
                i <= n,
                r@.len() == i,
                forall|j: int| 0 <= j < i ==> #[trigger] r@[j]@ == c[n - 1 - j].hash,
            decreases n - i,
        {
            proof {
                assert(c[n - 1 - i as int] == self.chain@[n - 1 - i as int]@);
            }
            r.push(clone_bytes(&self.chain[n - 1 - i].hash));
            i = i + 1;
        }
        proof {
            lemma_locator_index(c);
            assert forall|j: int| 0 <= j < r.deep_view().len()
                implies #[trigger] r.deep_view()[j] == spec_locator(c)[j] by {
                assert(r@[j].deep_view() =~= r@[j]@);
            }
            assert(r.deep_view() =~= spec_locator(c));
        }
        r
    }

    /// Whether a sync session is active.
    pub fn is_syncing(&self) -> (r: bool)
        ensures
            r == (self@.sync matches SyncStatusView::Syncing { .. }),
    {
        match &self.sync {
            SyncStatus::Syncing { .. } => true,
            SyncStatus::Idle => false,
        }
    }

    /// The active session's target peer, if a session is active.
    pub fn sync_target(&self) -> (r: Option<PeerAddress>)
        ensures
            r == match self@.sync {
                SyncStatusView::Syncing { target, .. } => Some(target),
                SyncStatusView::Idle => None::<PeerAddress>,
            },
    {
        match &self.sync {
            SyncStatus::Syncing { target, .. } => Some(*target),
            SyncStatus::Idle => None,
        }
    }

    /// One maintenance pass of the sync machine.
    pub fn update(&mut self, now: u64, sync_target: Option<PeerAddress>)
        -> (actions: Vec<Action>)
        ensures
            final(self)@ == spec_block_update(old(self)@, now, sync_target).0,
            acts_view(actions@) == spec_block_update(old(self)@, now, sync_target).1,
    {
        let ghost v0 = self@;
        let timed_out = match &self.sync {
            SyncStatus::Syncing { started, .. } =>
                now > SYNC_TIMEOUT_TICKS && *started < now - SYNC_TIMEOUT_TICKS,
            _ => false,
        };
        if timed_out {
            self.sync = SyncStatus::Idle;
        }
        let is_idle = match &self.sync {
            SyncStatus::Idle => true,
            _ => false,
        };
        if is_idle {
            match sync_target {
                Some(t) => {
                    let locator = self.compute_block_locator_hashes();
                    let pending: Vec<Vec<u8>> = Vec::new();
                    proof {
                        assert(pending.deep_view() =~= Seq::<Seq<u8>>::empty());
                    }
                    self.sync = SyncStatus::Syncing { target: t, pending, started: now };
                    let mut actions: Vec<Action> = Vec::new();
                    actions.push(Action::Send {
                        to: t,
                        message: Message::GetSync { locator },
                    });
                    proof {
                        assert(acts_view(actions@)
                            =~= spec_block_update(v0, now, sync_target).1);
                    }
                    actions
                }
                None => Vec::new(),
            }
        } else {
            Vec::new()
        }
    }

    /// Serves a GetSync request: the own locator goes back as a Sync
    /// reply, whatever the local sync state.
    pub fn on_get_sync(&self, from: PeerAddress) -> (actions: Vec<Action>)
        ensures
            acts_view(actions@) == seq![
                ActionView::Send {
                    to: from,
                    message: MessageView::Sync { locator: spec_locator(self@.chain) },
                },
            ],
    {
        let locator = self.compute_block_locator_hashes();
        let mut actions: Vec<Action> = Vec::new();
        actions.push(Action::Send { to: from, message: Message::Sync { locator } });
        proof {
            assert(acts_view(actions@) =~= seq![
                ActionView::Send {
                    to: from,
                    message: MessageView::Sync { locator: spec_locator(self@.chain) },
                },
            ]);
        }
        actions
    }

    /// The locator hashes this node does not store, in locator order.
    fn compute_missing(&self, locator: &Vec<Vec<u8>>) -> (r: Vec<Vec<u8>>)
        ensures
            r.deep_view() == spec_missing(self@.chain, locator.deep_view()),
    {
        let ghost c = self@.chain;
        let ghost ldv = locator.deep_view();
        let mut r: Vec<Vec<u8>> = Vec::new();
        let mut i: usize = 0;
        while i < locator.len()
            invariant
                c == self@.chain,
                ldv == locator.deep_view(),
                ldv.len() == locator@.len(),
                i <= ldv.len(),
                r.deep_view() == spec_missing(c, ldv.take(i as int)),
            decreases ldv.len() - i,
        {
            proof {
                assert(ldv.take(i + 1).drop_last() =~= ldv.take(i as int));
                assert(ldv.take(i + 1).last() == ldv[i as int]);
                assert(ldv[i as int] == locator@[i as int].deep_view());
                assert(locator@[i as int].deep_view() =~= locator@[i as int]@);
            }
            let ghost before = r.deep_view();
            if !self.block_hash_exists(&locator[i]) && !contains_bytes(&r, &locator[i]) {
                r.push(clone_bytes(&locator[i]));
                proof {
                    assert forall|j: int| 0 <= j < r.deep_view().len()
                        implies #[trigger] r.deep_view()[j]
                            == before.push(ldv[i as int])[j] by {
                        assert(r@[j].deep_view() =~= r@[j]@);
                    }
                    assert(r.deep_view() =~= before.push(ldv[i as int]));
                }
            }
            i = i + 1;
        }
        proof {
            assert(ldv.take(ldv.len() as int) =~= ldv);
        }
        r
    }

    /// Handles a Sync reply listing the peer's locator.
    pub fn on_sync(&mut self, from: PeerAddress, locator: &Vec<Vec<u8>>)
        -> (actions: Vec<Action>)
        ensures
            final(self)@ == spec_on_sync(old(self)@, from, locator.deep_view()).0,
            acts_view(actions@) == spec_on_sync(old(self)@, from, locator.deep_view()).1,
    {
        let ghost v0 = self@;
        let proceed = match &self.sync {
            SyncStatus::Syncing { target, .. } => *target == from,
            _ => false,
        };
        if !proceed {
            let actions: Vec<Action> = Vec::new();
            proof {
                assert(acts_view(actions@) =~= spec_on_sync(v0, from, locator.deep_view()).1);
            }
            return actions;
        }
        let started = match &self.sync {
            SyncStatus::Syncing { started, .. } => *started,
            _ => 0,
        };
        let miss = self.compute_missing(locator);
        if miss.len() == 0 {
            self.sync = SyncStatus::Idle;
            let actions: Vec<Action> = Vec::new();
            proof {
                assert(miss.deep_view() =~= Seq::<Seq<u8>>::empty());
                assert(acts_view(actions@) =~= spec_on_sync(v0, from, locator.deep_view()).1);
            }
            return actions;
        }
        let pending = clone_bytes_list(&miss);
        self.sync = SyncStatus::Syncing { target: from, pending, started };
        let ghost mdv = miss.deep_view();
        let mut actions: Vec<Action> = Vec::new();
        let mut i: usize = 0;
        while i < miss.len()
            invariant
                mdv == miss.deep_view(),
                mdv.len() == miss@.len(),
                i <= mdv.len(),
                actions@.len() == i,
                forall|j: int| 0 <= j < i ==> #[trigger] actions@[j]@ == (ActionView::Send {
                    to: from,
                    message: MessageView::GetBlock { hash: mdv[j] },
                }),
            decreases mdv.len() - i,
        {
            proof {
                assert(mdv[i as int] == miss@[i as int].deep_view());
                assert(miss@[i as int].deep_view() =~= miss@[i as int]@);
            }
            actions.push(Action::Send {
                to: from,
                message: Message::GetBlock { hash: clone_bytes(&miss[i]) },
            });
            i = i + 1;
        }
        proof {
            assert(acts_view(actions@) =~= spec_get_block_actions(from, mdv));
        }
        actions
    }

    /// Serves a GetBlock request: the stored block goes back as a
    /// SyncBlock; an unknown hash gets no reply.
    pub fn on_get_block(&self, from: PeerAddress, hash: &Vec<u8>) -> (actions: Vec<Action>)
        ensures
            acts_view(actions@) == if spec_chain_contains(self@.chain, hash@) {
                seq![
                    ActionView::Send {
                        to: from,
                        message: MessageView::SyncBlock {
                            data: self@.chain[spec_chain_find(self@.chain, hash@)].data,
                        },
                    },
                ]
            } else {
                Seq::<ActionView>::empty()
            },
    {
        match self.chain_find(hash) {
            Some(i) => {
                proof {
                    assert(spec_chain_contains(self@.chain, hash@)) by {
                        assert(self@.chain[i as int].hash == hash@);
                    }
                    assert(self@.chain[i as int] == self.chain@[i as int]@);
                }
                let data = clone_bytes(&self.chain[i].data);
                let mut actions: Vec<Action> = Vec::new();
                actions.push(Action::Send { to: from, message: Message::SyncBlock { data } });
                proof {
                    assert(acts_view(actions@) =~= seq![
                        ActionView::Send {
                            to: from,
                            message: MessageView::SyncBlock {
                                data: self@.chain[spec_chain_find(self@.chain, hash@)].data,
                            },
                        },
                    ]);
                }
                actions
            }
            None => {
                let actions: Vec<Action> = Vec::new();
                proof {
                    assert(acts_view(actions@) =~= Seq::<ActionView>::empty());
                }
                actions
            }
        }
    }

    /// Handles a received block: `hash` and `valid` are the external
    /// consensus collaborator's verdict on `data`, `recipients` the
    /// Connected peers other than the source.
    pub fn on_block(
        &mut self,
        hash: Vec<u8>,
        data: Vec<u8>,
        valid: bool,
        propagate: bool,
        recipients: &Vec<PeerAddress>,
    ) -> (actions: Vec<Action>)
        ensures
            final(self)@ == spec_on_block(old(self)@, hash@, data@, valid, propagate,
                recipients@).0,
            acts_view(actions@) == spec_on_block(old(self)@, hash@, data@, valid, propagate,
                recipients@).1,
    {
        let ghost v0 = self@;
        if !valid {
            let actions: Vec<Action> = Vec::new();
            proof {
                assert(acts_view(actions@)
                    =~= spec_on_block(v0, hash@, data@, valid, propagate, recipients@).1);
            }
            return actions;
        }
        let is_new = match self.chain_find(&hash) {
            Some(i) => {
                proof {
                    assert(spec_chain_contains(v0.chain, hash@)) by {
                        assert(v0.chain[i as int].hash == hash@);
                    }
                }
                false
            }
            None => true,
        };
        match &self.sync {
            SyncStatus::Syncing { target, pending, started } => {
                if contains_bytes(pending, &hash) {
                    let t = *target;
                    let st = *started;
                    let p = remove_hash(pending, &hash);
                    if p.len() == 0 {
                        proof {
                            assert(p.deep_view() =~= Seq::<Seq<u8>>::empty());
                        }
                        self.sync = SyncStatus::Idle;
                    } else {
                        self.sync = SyncStatus::Syncing { target: t, pending: p, started: st };
                    }
                }
            }
            _ => {}
        }
        let mut actions: Vec<Action> = Vec::new();
        if propagate && is_new {
            let mut i: usize = 0;
            while i < recipients.len()
                invariant
                    i <= recipients@.len(),
                    actions@.len() == i,
                    forall|j: int| 0 <= j < i ==> #[trigger] actions@[j]@ == (ActionView::Send {
                        to: recipients@[j],
                        message: MessageView::Block { data: data@ },
                    }),
                decreases recipients@.len() - i,
            {
                actions.push(Action::Send {
                    to: recipients[i],
                    message: Message::Block { data: clone_bytes(&data) },
                });
                i = i + 1;
            }
        }
        self.insert_block(hash, data);
        proof {
            assert(acts_view(actions@)
                =~= spec_on_block(v0, hash@, data@, valid, propagate, recipients@).1);
        }
        actions
    }

    /// Handles a received transaction: `valid` is the external consensus
    /// collaborator's verdict, `recipients` the Connected peers other than
    /// the source.
    pub fn on_transaction(&mut self, tx: Vec<u8>, valid: bool, recipients: &Vec<PeerAddress>)
        -> (actions: Vec<Action>)
        ensures
            final(self)@ == spec_on_transaction(old(self)@, tx@, valid, recipients@).0,
            acts_view(actions@) == spec_on_transaction(old(self)@, tx@, valid, recipients@).1,
    {
        let ghost v0 = self@;
        if !valid {
            let actions: Vec<Action> = Vec::new();
            proof {
                assert(acts_view(actions@)
                    =~= spec_on_transaction(v0, tx@, valid, recipients@).1);
            }
            return actions;
        }
        if contains_bytes(&self.mempool, &tx) {
            let actions: Vec<Action> = Vec::new();
            proof {
                assert(acts_view(actions@)
                    =~= spec_on_transaction(v0, tx@, valid, recipients@).1);
            }
            return actions;
        }
        let mut actions: Vec<Action> = Vec::new();
        let mut i: usize = 0;
        while i < recipients.len()
            invariant
                i <= recipients@.len(),
                actions@.len() == i,
                self@ == v0,
                forall|j: int| 0 <= j < i ==> #[trigger] actions@[j]@ == (ActionView::Send {
                    to: recipients@[j],
                    message: MessageView::Transaction { data: tx@ },
                }),
            decreases recipients@.len() - i,
        {
            actions.push(Action::Send {
                to: recipients[i],
                message: Message::Transaction { data: clone_bytes(&tx) },
            });
            i = i + 1;
        }
        let ghost m0 = self@.mempool;
        self.mempool.push(tx);
        proof {
            assert(self@.mempool =~~= m0.push(tx@));
            assert(acts_view(actions@)
                =~= spec_on_transaction(v0, tx@, valid, recipients@).1);
        }
        actions
    }

    /// Serves a GetMemoryPool request with the current mempool contents.
    pub fn on_get_memory_pool(&self, from: PeerAddress) -> (actions: Vec<Action>)
        ensures
            acts_view(actions@) == seq![
                ActionView::Send {
                    to: from,
                    message: MessageView::MemoryPool { transactions: self@.mempool },
                },
            ],
    {
        let transactions = clone_bytes_list(&self.mempool);
        let mut actions: Vec<Action> = Vec::new();
        actions.push(Action::Send { to: from, message: Message::MemoryPool { transactions } });
        proof {
            assert(acts_view(actions@) =~= seq![
                ActionView::Send {
                    to: from,
                    message: MessageView::MemoryPool { transactions: self@.mempool },
                },
            ]);
        }
        actions
    }

    /// Merges a MemoryPool reply: each previously unseen transaction is
    /// added once. A stateless read/response pair with no reply of its own.
    pub fn on_memory_pool(&mut self, txs: &Vec<Vec<u8>>)
        ensures
            final(self)@ == (BlocksView {
                mempool: spec_add_txs(old(self)@.mempool, txs.deep_view()),
                ..old(self)@
            }),
    {
        let ghost m0 = self@.mempool;
        let ghost tdv = txs.deep_view();
        let mut i: usize = 0;
        while i < txs.len()
            invariant
                m0 == old(self)@.mempool,
                tdv == txs.deep_view(),
                tdv.len() == txs@.len(),
                i <= tdv.len(),
                self@ == (BlocksView {
                    mempool: spec_add_txs(m0, tdv.take(i as int)),
                    ..old(self)@
                }),
            decreases tdv.len() - i,
        {
            proof {
                assert(tdv.take(i + 1).drop_last() =~= tdv.take(i as int));
                assert(tdv.take(i + 1).last() == tdv[i as int]);
                assert(tdv[i as int] == txs@[i as int].deep_view());
                assert(txs@[i as int].deep_view() =~= txs@[i as int]@);
            }
            let ghost before = self@.mempool;
            if !contains_bytes(&self.mempool, &txs[i]) {
                self.mempool.push(clone_bytes(&txs[i]));
                proof {
                    assert(self@.mempool =~= before.push(tdv[i as int]));
                }
            }
            i = i + 1;
        }
        proof {
            assert(tdv.take(tdv.len() as int) =~= tdv);
        }
    }
}

} // verus!
