//! The event dispatcher.
//!
//! One consumer loop in the I/O shell pops events in order and feeds them
//! here, one at a time; every protocol transition of Peers and Blocks runs
//! through this single dispatcher, which serializes them. The silence
//! rule for unauthenticated peers lives here too, in one place: any
//! message other than Version or Verack from a peer that is not Connected
//! is dropped silently — no reply, no trace in peer state.

use vstd::prelude::*;

use crate::action::{Action, ActionView};
use crate::blocks::{
    spec_block_update, spec_get_block_actions, spec_on_block, spec_on_sync, spec_on_transaction,
    spec_add_txs, spec_chain_contains, spec_chain_find, spec_locator, spec_missing,
    spec_remove_hash, Blocks, BlocksView, SyncStatusView,
};
use crate::message::{Message, MessageView, PeerAddress};
use crate::peers::{
    acts_view, lemma_connected_only_by_matching_verack, lemma_find_props, lemma_mark_seen_wf,
    lemma_mark_seen_preserves_connected, lemma_on_verack_wf, lemma_on_version_wf,
    lemma_remove_no_new_connected, lemma_version_never_connects, lemma_wf_remove,
    spec_add_known, spec_connected_addresses_except, spec_find, spec_is_connected,
    spec_mark_seen, spec_on_verack, spec_on_version, spec_status_of, spec_update, wf_records,
    PeerStatus, Peers, PeersView,
};

verus! {

/// An inbound occurrence the dispatcher must act on.
pub enum Event {
    /// A decoded message arrived from `from`.
    Message { from: PeerAddress, message: Message },
    /// The connection of `from` closed or violated the protocol.
    Disconnect { from: PeerAddress },
}

/// Mathematical model of an [`Event`].
pub enum EventView {
    Message { from: PeerAddress, message: MessageView },
    Disconnect { from: PeerAddress },
}

impl View for Event {
    type V = EventView;

    open spec fn view(&self) -> EventView {
        match self {
            Event::Message { from, message } => EventView::Message {
                from: *from,
                message: message@,
            },
            Event::Disconnect { from } => EventView::Disconnect { from: *from },
        }
    }
}

/// External facts one dispatch step may consume: the clock tick, a fresh
/// nonce, and the consensus collaborator's verdict on the payload.
pub struct DispatchContext {
    /// The current tick of the external clock.
    pub now: u64,
    /// An externally drawn nonce, used if this node answers a Version with
    /// its own Version.
    pub fresh_nonce: u64,
    /// For a Block or SyncBlock payload: its hash, computed by the
    /// external consensus collaborator. Ignored otherwise.
    pub block_hash: Vec<u8>,
    /// The collaborator's validity verdict on a Block, SyncBlock or
    /// Transaction payload. Ignored otherwise.
    pub valid: bool,
}

/// Mathematical model of a [`DispatchContext`].
pub struct DispatchContextView {
    pub now: u64,
    pub fresh_nonce: u64,
    pub block_hash: Seq<u8>,
    pub valid: bool,
}

impl View for DispatchContext {
    type V = DispatchContextView;

    open spec fn view(&self) -> DispatchContextView {
        DispatchContextView {
            now: self.now,
            fresh_nonce: self.fresh_nonce,
            block_hash: self.block_hash@,
            valid: self.valid,
        }
    }
}

/// Mathematical model of a [`Node`].
pub struct NodeView {
    pub peers: PeersView,
    pub blocks: BlocksView,
}

/// The networking core of the node: the peer registry and the chain-sync
/// machine, driven by one dispatcher.
pub struct Node {
    pub peers: Peers,
    pub blocks: Blocks,
}

impl View for Node {
    type V = NodeView;

    open spec fn view(&self) -> NodeView {
        NodeView { peers: self.peers@, blocks: self.blocks@ }
    }
}

/// What one dispatch step does, as a function of the node state, the
/// event, and the external context.
pub open spec fn spec_dispatch(v: NodeView, e: EventView, ctx: DispatchContextView)
    -> (NodeView, Seq<ActionView>) {
    match e {
        EventView::Disconnect { from } => {
            let i = spec_find(v.peers.records, from);
            if i >= 0 {
                (
                    NodeView {
                        peers: PeersView { records: v.peers.records.remove(i), ..v.peers },
                        ..v
                    },
                    seq![ActionView::CloseChannel { peer: from }],
                )
            } else {
                (v, seq![])
            }
        }
        EventView::Message { from, message } => match message {
            MessageView::Version { nonce } => {
                let r = spec_on_version(v.peers.records, from, nonce, ctx.fresh_nonce, ctx.now);
                (NodeView { peers: PeersView { records: r.0, ..v.peers }, ..v }, r.1)
            }
            MessageView::Verack { nonce } => (
                NodeView {
                    peers: PeersView {
                        records: spec_on_verack(v.peers.records, from, nonce, ctx.now),
                        ..v.peers
                    },
                    ..v
                },
                seq![],
            ),
            _ => {
                if !spec_is_connected(v.peers.records, from) {
                    // An unauthenticated peer is invisible to the protocol.
                    (v, seq![])
                } else {
                    let marked = spec_mark_seen(v.peers.records, from, ctx.now);
                    let vm = NodeView {
                        peers: PeersView { records: marked, ..v.peers },
                        ..v
                    };
                    match message {
                        MessageView::GetPeers => (
                            vm,
                            seq![
                                ActionView::Send {
                                    to: from,
                                    message: MessageView::Peers {
                                        addresses: spec_connected_addresses_except(marked, from),
                                    },
                                },
                            ],
                        ),
                        MessageView::Peers { addresses } => (
                            NodeView {
                                peers: PeersView {
                                    records: marked,
                                    known: spec_add_known(
                                        v.peers.known,
                                        addresses,
                                        v.peers.local_address,
                                    ),
                                    ..v.peers
                                },
                                ..v
                            },
                            seq![],
                        ),
                        MessageView::GetSync { .. } => (
                            vm,
                            seq![
                                ActionView::Send {
                                    to: from,
                                    message: MessageView::Sync {
                                        locator: spec_locator(v.blocks.chain),
                                    },
                                },
                            ],
                        ),
                        MessageView::Sync { locator } => {
                            let r = spec_on_sync(v.blocks, from, locator);
                            (NodeView { blocks: r.0, ..vm }, r.1)
                        }
                        MessageView::GetBlock { hash } => (
                            vm,
                            if spec_chain_contains(v.blocks.chain, hash) {
                                seq![
                                    ActionView::Send {
                                        to: from,
                                        message: MessageView::SyncBlock {
                                            data: v.blocks.chain[
                                                spec_chain_find(v.blocks.chain, hash)
                                            ].data,
                                        },
                                    },
                                ]
                            } else {
                                seq![]
                            },
                        ),
                        MessageView::Block { data } => {
                            let r = spec_on_block(
                                v.blocks,
                                ctx.block_hash,
                                data,
                                ctx.valid,
                                true,
                                spec_connected_addresses_except(marked, from),
                            );
                            (NodeView { blocks: r.0, ..vm }, r.1)
                        }
                        MessageView::SyncBlock { data } => {
                            let r = spec_on_block(
                                v.blocks,
                                ctx.block_hash,
                                data,
                                ctx.valid,
                                false,
                                spec_connected_addresses_except(marked, from),
                            );
                            (NodeView { blocks: r.0, ..vm }, r.1)
                        }
                        MessageView::GetMemoryPool => (
                            vm,
                            seq![
                                ActionView::Send {
                                    to: from,
                                    message: MessageView::MemoryPool {
                                        transactions: v.blocks.mempool,
                                    },
                                },
                            ],
                        ),
                        MessageView::MemoryPool { transactions } => (
                            NodeView {
                                blocks: BlocksView {
                                    mempool: spec_add_txs(v.blocks.mempool, transactions),
                                    ..v.blocks
                                },
                                ..vm
                            },
                            seq![],
                        ),
                        MessageView::Transaction { data } => {
                            let r = spec_on_transaction(
                                v.blocks,
                                data,
                                ctx.valid,
                                spec_connected_addresses_except(marked, from),
                            );
                            (NodeView { blocks: r.0, ..vm }, r.1)
                        }
                        // Handled by the outer match arms.
                        MessageView::Version { .. } => (vm, seq![]),
                        MessageView::Verack { .. } => (vm, seq![]),
                    }
                }
            }
        },
    }
}

impl Node {
    /// The peer registry holds one record per address.
    pub open spec fn wf(&self) -> bool {
        self.peers.wf()
    }

    /// A node with the given configuration and no peer or chain state.
    pub fn new(
        bootnodes: Vec<PeerAddress>,
        local_address: Option<PeerAddress>,
        min_peers: usize,
        max_peers: usize,
    ) -> (r: Node)
        ensures
            r.wf(),
            r@.peers.records == Seq::<crate::peers::PeerRecord>::empty(),
            r@.peers.known == Seq::<PeerAddress>::empty(),
            r@.peers.bootnodes == bootnodes@,
            r@.peers.local_address == local_address,
            r@.peers.min_peers == min_peers as int,
            r@.peers.max_peers == max_peers as int,
            r@.blocks.chain == Seq::<crate::blocks::StoredBlockView>::empty(),
            r@.blocks.mempool == Seq::<Seq<u8>>::empty(),
            r@.blocks.sync == SyncStatusView::Idle,
    {
        Node {
            peers: Peers::new(bootnodes, local_address, min_peers, max_peers),
            blocks: Blocks::new(),
        }
    }

    /// Routes one event to the state machine that owns it. Exactly the
    /// transition [`spec_dispatch`] describes, for every event and every
    /// external context.
    pub fn dispatch(&mut self, event: Event, ctx: DispatchContext) -> (actions: Vec<Action>)
        requires
            old(self).wf(),
        ensures
            final(self).wf(),
            final(self)@ == spec_dispatch(old(self)@, event@, ctx@).0,
            acts_view(actions@) == spec_dispatch(old(self)@, event@, ctx@).1,
    {
        let ghost v0 = self@;
        let ghost ev = event@;
        let ghost cv = ctx@;
        match event {
            Event::Disconnect { from } => {
                match self.peers.disconnect(from) {
                    Ok(actions) => actions,
                    Err(_) => {
                        let actions: Vec<Action> = Vec::new();
                        proof {
                            assert(acts_view(actions@) =~= spec_dispatch(v0, ev, cv).1);
                        }
                        actions
                    }
                }
            }
            Event::Message { from, message } => match message {
                Message::Version { nonce } => {
                    self.peers.on_version(from, nonce, ctx.fresh_nonce, ctx.now)
                }
                Message::Verack { nonce } => {
                    self.peers.on_verack(from, nonce, ctx.now);
                    let actions: Vec<Action> = Vec::new();
                    proof {
                        assert(acts_view(actions@) =~= spec_dispatch(v0, ev, cv).1);
                    }
                    actions
                }
                Message::GetPeers => {
                    if !self.peers.is_connected(from) {
                        let actions: Vec<Action> = Vec::new();
                        proof {
                            assert(acts_view(actions@) =~= spec_dispatch(v0, ev, cv).1);
                        }
                        return actions;
                    }
                    self.peers.mark_seen(from, ctx.now);
                    self.peers.on_get_peers(from)
                }
                Message::Peers { addresses } => {
                    if !self.peers.is_connected(from) {
                        let actions: Vec<Action> = Vec::new();
                        proof {
                            assert(acts_view(actions@) =~= spec_dispatch(v0, ev, cv).1);
                        }
                        return actions;
                    }
                    self.peers.mark_seen(from, ctx.now);
                    self.peers.on_peers(&addresses);
                    let actions: Vec<Action> = Vec::new();
                    proof {
                        assert(acts_view(actions@) =~= spec_dispatch(v0, ev, cv).1);
                    }
                    actions
                }
                Message::GetSync { locator: _ } => {
                    if !self.peers.is_connected(from) {
                        let actions: Vec<Action> = Vec::new();
                        proof {
                            assert(acts_view(actions@) =~= spec_dispatch(v0, ev, cv).1);
                        }
                        return actions;
                    }
                    self.peers.mark_seen(from, ctx.now);
                    self.blocks.on_get_sync(from)
                }
                Message::Sync { locator } => {
                    if !self.peers.is_connected(from) {
                        let actions: Vec<Action> = Vec::new();
                        proof {
                            assert(acts_view(actions@) =~= spec_dispatch(v0, ev, cv).1);
                        }
                        return actions;
                    }
                    self.peers.mark_seen(from, ctx.now);
                    self.blocks.on_sync(from, &locator)
                }
                Message::GetBlock { hash } => {
                    if !self.peers.is_connected(from) {
                        let actions: Vec<Action> = Vec::new();
                        proof {
                            assert(acts_view(actions@) =~= spec_dispatch(v0, ev, cv).1);
                        }
                        return actions;
                    }
                    self.peers.mark_seen(from, ctx.now);
                    self.blocks.on_get_block(from, &hash)
                }
                Message::Block { data } => {
                    if !self.peers.is_connected(from) {
                        let actions: Vec<Action> = Vec::new();
                        proof {
                            assert(acts_view(actions@) =~= spec_dispatch(v0, ev, cv).1);
                        }
                        return actions;
                    }
                    self.peers.mark_seen(from, ctx.now);
                    let recipients = self.peers.connected_peers_except(from);
                    self.blocks.on_block(ctx.block_hash, data, ctx.valid, true, &recipients)
                }
                Message::SyncBlock { data } => {
                    if !self.peers.is_connected(from) {
                        let actions: Vec<Action> = Vec::new();
                        proof {
                            assert(acts_view(actions@) =~= spec_dispatch(v0, ev, cv).1);
                        }
                        return actions;
                    }
                    self.peers.mark_seen(from, ctx.now);
                    let recipients = self.peers.connected_peers_except(from);
                    self.blocks.on_block(ctx.block_hash, data, ctx.valid, false, &recipients)
                }
                Message::GetMemoryPool => {
                    if !self.peers.is_connected(from) {
                        let actions: Vec<Action> = Vec::new();
                        proof {
                            assert(acts_view(actions@) =~= spec_dispatch(v0, ev, cv).1);
                        }
                        return actions;
                    }
                    self.peers.mark_seen(from, ctx.now);
                    self.blocks.on_get_memory_pool(from)
                }
                Message::MemoryPool { transactions } => {
                    if !self.peers.is_connected(from) {
                        let actions: Vec<Action> = Vec::new();
                        proof {
                            assert(acts_view(actions@) =~= spec_dispatch(v0, ev, cv).1);
                        }
                        return actions;
                    }
                    self.peers.mark_seen(from, ctx.now);
                    self.blocks.on_memory_pool(&transactions);
                    let actions: Vec<Action> = Vec::new();
                    proof {
                        assert(acts_view(actions@) =~= spec_dispatch(v0, ev, cv).1);
                    }
                    actions
                }
                Message::Transaction { data } => {
                    if !self.peers.is_connected(from) {
                        let actions: Vec<Action> = Vec::new();
                        proof {
                            assert(acts_view(actions@) =~= spec_dispatch(v0, ev, cv).1);
                        }
                        return actions;
                    }
                    self.peers.mark_seen(from, ctx.now);
                    let recipients = self.peers.connected_peers_except(from);
                    self.blocks.on_transaction(data, ctx.valid, &recipients)
                }
            },
        }
    }

    /// One pass of periodic maintenance: peer-set upkeep first, then the
    /// sync machine, fed with the best sync target the upkeep found.
    pub fn update(&mut self, now: u64, nonces: &Vec<u64>, pick: usize) -> (actions: Vec<Action>)
        requires
            old(self).wf(),
        ensures
            final(self).wf(),
            final(self)@.peers == spec_update(old(self)@.peers, now, nonces@, pick as int).0,
            final(self)@.blocks == spec_block_update(
                old(self)@.blocks,
                now,
                spec_update(old(self)@.peers, now, nonces@, pick as int).2,
            ).0,
            acts_view(actions@) == spec_update(old(self)@.peers, now, nonces@, pick as int).1
                + spec_block_update(
                    old(self)@.blocks,
                    now,
                    spec_update(old(self)@.peers, now, nonces@, pick as int).2,
                ).1,
    {
        let (mut actions, sync_target) = self.peers.update(now, nonces, pick);
        let mut block_actions = self.blocks.update(now, sync_target);
        let ghost a1 = actions@;
        let ghost a2 = block_actions@;
        actions.append(&mut block_actions);
        proof {
            assert(acts_view(a1 + a2) =~= acts_view(a1) + acts_view(a2));
        }
        actions
    }
}

// ---------------------------------------------------------------------------
// Laws of the dispatcher
// ---------------------------------------------------------------------------

/// Any message other than Version or Verack from a peer that is not yet
/// Connected produces zero actions — so zero response bytes — and leaves
/// the entire node state, connected-peer count included, unchanged.
pub proof fn lemma_unauthenticated_peer_is_invisible(
    v: NodeView,
    from: PeerAddress,
    message: MessageView,
    ctx: DispatchContextView,
)
    requires
        !spec_is_connected(v.peers.records, from),
        !(message matches MessageView::Version { .. }),
        !(message matches MessageView::Verack { .. }),
    ensures
        spec_dispatch(v, EventView::Message { from, message }, ctx).0 == v,
        spec_dispatch(v, EventView::Message { from, message }, ctx).1
            == Seq::<ActionView>::empty(),
{
    assert(spec_dispatch(v, EventView::Message { from, message }, ctx).1
        =~= Seq::<ActionView>::empty());
}

/// The only dispatch step that moves a peer to Connected is that peer's
/// own Verack echoing the nonce stored while it was Connecting: the
/// handshake completes exactly one way.
pub proof fn lemma_dispatch_connects_only_by_matching_verack(
    v: NodeView,
    e: EventView,
    ctx: DispatchContextView,
    a: PeerAddress,
)
    requires
        wf_records(v.peers.records),
    ensures
        spec_is_connected(spec_dispatch(v, e, ctx).0.peers.records, a)
            && !spec_is_connected(v.peers.records, a)
            ==> (e matches EventView::Message {
                from,
                message: MessageView::Verack { nonce },
            } && from == a
                && (spec_status_of(v.peers.records, a) matches
                    Some(PeerStatus::Connecting { nonce: stored, .. }) && stored == nonce)),
{
    let s = v.peers.records;
    match e {
        EventView::Disconnect { from } => {
            let i = spec_find(s, from);
            if i >= 0 {
                lemma_find_props(s, from);
                lemma_remove_no_new_connected(s, i, a);
            }
        }
        EventView::Message { from, message } => match message {
            MessageView::Version { nonce } => {
                lemma_version_never_connects(s, from, nonce, ctx.fresh_nonce, ctx.now, a);
            }
            MessageView::Verack { nonce } => {
                lemma_connected_only_by_matching_verack(s, from, nonce, ctx.now, a);
            }
            _ => {
                if spec_is_connected(s, from) {
                    lemma_mark_seen_preserves_connected(s, from, ctx.now, a);
                }
            }
        },
    }
}

/// An active sync session ends on no dispatched event except the one
/// that satisfies it: a Sync from the session's own target listing
/// nothing missing, or a valid block answering the last outstanding
/// request. Until then the session stays on the same target — so the
/// state follows Idle to Syncing to Idle, one target at a time. (The
/// other way out, the timeout, belongs to maintenance:
/// [`spec_block_update`].)
pub proof fn lemma_session_ends_only_when_satisfied(
    v: NodeView,
    e: EventView,
    ctx: DispatchContextView,
    target: PeerAddress,
    pending: Seq<Seq<u8>>,
    started: u64,
)
    requires
        v.blocks.sync == (SyncStatusView::Syncing { target, pending, started }),
    ensures
        (spec_dispatch(v, e, ctx).0.blocks.sync matches SyncStatusView::Idle) ==> (
            (e matches EventView::Message { from, message: MessageView::Sync { locator } }
                && from == target
                && spec_missing(v.blocks.chain, locator).len() == 0)
            || ((e matches EventView::Message { message: MessageView::Block { .. }, .. }
                    || e matches EventView::Message { message: MessageView::SyncBlock { .. }, .. })
                && ctx.valid
                && pending.contains(ctx.block_hash)
                && spec_remove_hash(pending, ctx.block_hash).len() == 0)
        ),
        spec_dispatch(v, e, ctx).0.blocks.sync matches SyncStatusView::Syncing { target: t2, .. }
            ==> t2 == target,
{
}

pub open spec fn spec_is_version_send_to(act: ActionView, a: PeerAddress) -> bool {
    act matches ActionView::Send { to, message: MessageView::Version { .. } } && to == a
}

pub open spec fn spec_is_verack_send_to(act: ActionView, a: PeerAddress) -> bool {
    act matches ActionView::Send { to, message: MessageView::Verack { .. } } && to == a
}

/// The dispatcher's half of the one-message-per-direction count: a step
/// sends a Version to `a` only in reply to `a`'s own Version while `a`
/// was Disconnected — the step that creates `a`'s record — and sends a
/// Verack to `a` only in reply to a Version from `a`; and no step emits
/// two Versions or two Veracks toward the same peer.
pub proof fn lemma_handshake_sends_are_single(
    v: NodeView,
    e: EventView,
    ctx: DispatchContextView,
    a: PeerAddress,
)
    ensures
        forall|k: int| 0 <= k < spec_dispatch(v, e, ctx).1.len()
            && #[trigger] spec_is_version_send_to(spec_dispatch(v, e, ctx).1[k], a)
            ==> (e matches EventView::Message { from, message: MessageView::Version { .. } }
                && from == a) && spec_find(v.peers.records, a) == -1,
        forall|k: int| 0 <= k < spec_dispatch(v, e, ctx).1.len()
            && #[trigger] spec_is_verack_send_to(spec_dispatch(v, e, ctx).1[k], a)
            ==> (e matches EventView::Message { from, message: MessageView::Version { .. } }
                && from == a),
        forall|k: int, l: int|
            0 <= k < spec_dispatch(v, e, ctx).1.len()
            && 0 <= l < spec_dispatch(v, e, ctx).1.len()
            && #[trigger] spec_is_version_send_to(spec_dispatch(v, e, ctx).1[k], a)
            && #[trigger] spec_is_version_send_to(spec_dispatch(v, e, ctx).1[l], a)
            ==> k == l,
        forall|k: int, l: int|
            0 <= k < spec_dispatch(v, e, ctx).1.len()
            && 0 <= l < spec_dispatch(v, e, ctx).1.len()
            && #[trigger] spec_is_verack_send_to(spec_dispatch(v, e, ctx).1[k], a)
            && #[trigger] spec_is_verack_send_to(spec_dispatch(v, e, ctx).1[l], a)
            ==> k == l,
{
    let acts = spec_dispatch(v, e, ctx).1;
    match e {
        EventView::Disconnect { .. } => {}
        EventView::Message { from, message } => match message {
            MessageView::Version { .. } => {}
            MessageView::Verack { .. } => {}
            _ => {
                if spec_is_connected(v.peers.records, from) {
                    let marked = spec_mark_seen(v.peers.records, from, ctx.now);
                    match message {
                        MessageView::Sync { locator } => {
                            let r = spec_on_sync(v.blocks, from, locator);
                            assert forall|k: int| 0 <= k < acts.len()
                                implies !spec_is_version_send_to(#[trigger] acts[k], a)
                                    && !spec_is_verack_send_to(acts[k], a) by {
                                if r.1.len() > 0 {
                                    let miss = spec_missing(
                                        v.blocks.chain,
                                        locator,
                                    );
                                    assert(acts[k] == spec_get_block_actions(from, miss)[k]);
                                }
                            }
                        }
                        MessageView::Block { data } => {
                            let recipients = spec_connected_addresses_except(marked, from);
                            assert forall|k: int| 0 <= k < acts.len()
                                implies !spec_is_version_send_to(#[trigger] acts[k], a)
                                    && !spec_is_verack_send_to(acts[k], a) by {
                                assert(acts[k] == (ActionView::Send {
                                    to: recipients[k],
                                    message: MessageView::Block { data },
                                }));
                            }
                        }
                        MessageView::Transaction { data } => {
                            let recipients = spec_connected_addresses_except(marked, from);
                            assert forall|k: int| 0 <= k < acts.len()
                                implies !spec_is_version_send_to(#[trigger] acts[k], a)
                                    && !spec_is_verack_send_to(acts[k], a) by {
                                assert(acts[k] == (ActionView::Send {
                                    to: recipients[k],
                                    message: MessageView::Transaction { data },
                                }));
                            }
                        }
                        _ => {}
                    }
                }
            }
        },
    }
}

/// Every dispatch step keeps one record per address.
pub proof fn lemma_dispatch_preserves_wf(v: NodeView, e: EventView, ctx: DispatchContextView)
    requires
        wf_records(v.peers.records),
    ensures
        wf_records(spec_dispatch(v, e, ctx).0.peers.records),
{
    let s = v.peers.records;
    match e {
        EventView::Disconnect { from } => {
            let i = spec_find(s, from);
            if i >= 0 {
                lemma_find_props(s, from);
                lemma_wf_remove(s, i);
            }
        }
        EventView::Message { from, message } => match message {
            MessageView::Version { nonce } => {
                lemma_on_version_wf(s, from, nonce, ctx.fresh_nonce, ctx.now);
            }
            MessageView::Verack { nonce } => {
                lemma_on_verack_wf(s, from, nonce, ctx.now);
            }
            _ => {
                if spec_is_connected(s, from) {
                    lemma_mark_seen_wf(s, from, ctx.now);
                }
            }
        },
    }
}

/// The node state after a whole trace of dispatch steps.
pub open spec fn spec_dispatch_all(v: NodeView, steps: Seq<(EventView, DispatchContextView)>)
    -> NodeView
    decreases steps.len(),
{
    if steps.len() == 0 {
        v
    } else {
        spec_dispatch_all(spec_dispatch(v, steps[0].0, steps[0].1).0, steps.drop_first())
    }
}

/// Step `k` of the trace is peer `a`'s own Verack, echoing exactly the
/// nonce that `a`'s record stored — while Connecting — at that moment.
pub open spec fn spec_matching_verack_step(
    v: NodeView,
    steps: Seq<(EventView, DispatchContextView)>,
    k: int,
    a: PeerAddress,
) -> bool
    recommends
        0 <= k < steps.len(),
{
    let before = spec_dispatch_all(v, steps.take(k)).peers.records;
    steps[k].0 matches EventView::Message { from, message: MessageView::Verack { nonce } }
        && from == a
        && (spec_status_of(before, a) matches Some(PeerStatus::Connecting { nonce: stored, .. })
            && stored == nonce)
}

/// Over any trace of events: a peer not Connected at the start is
/// Connected at the end only if some step of the trace was that peer's
/// own Verack with the matching nonce.
pub proof fn lemma_trace_connects_only_by_matching_verack(
    v: NodeView,
    steps: Seq<(EventView, DispatchContextView)>,
    a: PeerAddress,
)
    requires
        wf_records(v.peers.records),
        !spec_is_connected(v.peers.records, a),
        spec_is_connected(spec_dispatch_all(v, steps).peers.records, a),
    ensures
        exists|k: int| 0 <= k < steps.len()
            && #[trigger] spec_matching_verack_step(v, steps, k, a),
    decreases steps.len(),
{
    let v1 = spec_dispatch(v, steps[0].0, steps[0].1).0;
    if spec_is_connected(v1.peers.records, a) {
        lemma_dispatch_connects_only_by_matching_verack(v, steps[0].0, steps[0].1, a);
        assert(steps.take(0) =~= Seq::<(EventView, DispatchContextView)>::empty());
        assert(spec_matching_verack_step(v, steps, 0, a));
    } else {
        lemma_dispatch_preserves_wf(v, steps[0].0, steps[0].1);
        lemma_trace_connects_only_by_matching_verack(v1, steps.drop_first(), a);
        let k = choose|k: int| 0 <= k < steps.drop_first().len()
            && #[trigger] spec_matching_verack_step(v1, steps.drop_first(), k, a);
        assert(steps.drop_first().take(k) =~= steps.take(k + 1).drop_first());
        assert(steps.take(k + 1)[0] == steps[0]);
        assert(spec_dispatch_all(v1, steps.drop_first().take(k))
            == spec_dispatch_all(v, steps.take(k + 1)));
        assert(steps.drop_first()[k] == steps[k + 1]);
        assert(spec_matching_verack_step(v, steps, k + 1, a));
    }
}

} // verus!
