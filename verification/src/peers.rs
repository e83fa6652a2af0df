//! Handshake and peer-registry state machine.
//!
//! A peer is keyed by its address. A peer with no record is Disconnected;
//! a record is either Connecting (a handshake is in flight, carrying the
//! nonce this node sent in its Version) or Connected (the handshake
//! finished with a matching Verack). Randomness and time are external:
//! fresh nonces and the current tick come in as arguments.

use vstd::prelude::*;

use crate::action::{Action, ActionView};
use crate::errors::NetworkError;
use crate::message::{Message, MessageView, PeerAddress};

verus! {

/// The actions of a handler, as mathematical values.
pub open spec fn acts_view(s: Seq<Action>) -> Seq<ActionView> {
    s.map_values(|a: Action| a@)
}

/// How long a Connecting record may wait for its Verack before periodic
/// maintenance prunes it, in ticks. A tunable default: the protocol fixes
/// only that stale attempts are pruned, not the exact window.
pub const HANDSHAKE_TIMEOUT_TICKS: u64 = 30;

/// Connection state of a peer that has a record in the registry.
#[derive(Clone, Copy, PartialEq, Eq, Structural, Debug)]
pub enum PeerStatus {
    /// A handshake is in flight: `nonce` went out in this node's Version
    /// and must come back in the peer's Verack; `since` is the tick the
    /// attempt started.
    Connecting { nonce: u64, since: u64 },
    /// The handshake finished. `last_seen` is the tick of the peer's most
    /// recent message.
    Connected { nonce: u64, last_seen: u64 },
}

/// One peer's entry in the registry.
#[derive(Clone, Copy, PartialEq, Eq, Structural, Debug)]
pub struct PeerRecord {
    pub address: PeerAddress,
    pub status: PeerStatus,
}

/// Index of the record for `a`, or -1 if `a` is Disconnected.
pub open spec fn spec_find(s: Seq<PeerRecord>, a: PeerAddress) -> int
    decreases s.len(),
{
    if s.len() == 0 {
        -1
    } else if s[0].address == a {
        0
    } else {
        let r = spec_find(s.drop_first(), a);
        if r < 0 {
            -1
        } else {
            r + 1
        }
    }
}

/// Whether some record carries address `a`.
pub open spec fn contains_addr(s: Seq<PeerRecord>, a: PeerAddress) -> bool {
    exists|i: int| 0 <= i < s.len() && s[i].address == a
}

pub proof fn lemma_find_props(s: Seq<PeerRecord>, a: PeerAddress)
    ensures
        spec_find(s, a) >= -1,
        spec_find(s, a) == -1 ==> !contains_addr(s, a),
        spec_find(s, a) >= 0 ==> spec_find(s, a) < s.len()
            && s[spec_find(s, a)].address == a
            && (forall|j: int| 0 <= j < spec_find(s, a) ==> s[j].address != a),
    decreases s.len(),
{
    if s.len() == 0 {
    } else if s[0].address == a {
    } else {
        lemma_find_props(s.drop_first(), a);
        let r = spec_find(s.drop_first(), a);
        if r == -1 {
            assert forall|i: int| 0 <= i < s.len() implies s[i].address != a by {
                if i > 0 {
                    assert(s.drop_first()[i - 1] == s[i]);
                    assert(!contains_addr(s.drop_first(), a));
                }
            }
        } else {
            assert(s[r + 1] == s.drop_first()[r]);
            assert forall|j: int| 0 <= j < r + 1 implies s[j].address != a by {
                if j > 0 {
                    assert(s.drop_first()[j - 1] == s[j]);
                }
            }
        }
    }
}

/// Status of the record for `a`, if any.
pub open spec fn spec_status_of(s: Seq<PeerRecord>, a: PeerAddress) -> Option<PeerStatus> {
    if spec_find(s, a) >= 0 {
        Some(s[spec_find(s, a)].status)
    } else {
        None
    }
}

pub open spec fn spec_is_connected(s: Seq<PeerRecord>, a: PeerAddress) -> bool {
    spec_status_of(s, a) matches Some(PeerStatus::Connected { .. })
}

pub open spec fn spec_is_connecting(s: Seq<PeerRecord>, a: PeerAddress) -> bool {
    spec_status_of(s, a) matches Some(PeerStatus::Connecting { .. })
}

/// Number of records in Connected state.
pub open spec fn spec_connected_count(s: Seq<PeerRecord>) -> nat
    decreases s.len(),
{
    if s.len() == 0 {
        0
    } else {
        spec_connected_count(s.drop_last())
            + if s.last().status matches PeerStatus::Connected { .. } { 1nat } else { 0nat }
    }
}

/// Addresses of the Connected records, in registry order.
pub open spec fn spec_connected_addresses(s: Seq<PeerRecord>) -> Seq<PeerAddress>
    decreases s.len(),
{
    if s.len() == 0 {
        Seq::empty()
    } else {
        let rest = spec_connected_addresses(s.drop_last());
        if s.last().status matches PeerStatus::Connected { .. } {
            rest.push(s.last().address)
        } else {
            rest
        }
    }
}

/// Addresses of the Connected records other than `except`.
pub open spec fn spec_connected_addresses_except(s: Seq<PeerRecord>, except: PeerAddress)
    -> Seq<PeerAddress>
    decreases s.len(),
{
    if s.len() == 0 {
        Seq::empty()
    } else {
        let rest = spec_connected_addresses_except(s.drop_last(), except);
        if s.last().status matches PeerStatus::Connected { .. } && s.last().address != except {
            rest.push(s.last().address)
        } else {
            rest
        }
    }
}

/// The Connected record seen most recently, with its tick; earlier records
/// win ties.
pub open spec fn spec_best_seen(s: Seq<PeerRecord>) -> Option<(PeerAddress, u64)>
    decreases s.len(),
{
    if s.len() == 0 {
        None
    } else {
        let best = spec_best_seen(s.drop_last());
        match s.last().status {
            PeerStatus::Connected { last_seen, .. } => match best {
                Some(b) => if last_seen > b.1 {
                    Some((s.last().address, last_seen))
                } else {
                    best
                },
                None => Some((s.last().address, last_seen)),
            },
            _ => best,
        }
    }
}

/// All registry addresses are distinct: one record per peer.
pub open spec fn wf_records(s: Seq<PeerRecord>) -> bool {
    forall|i: int, j: int| 0 <= i < j < s.len() ==> s[i].address != s[j].address
}

pub proof fn lemma_wf_push(s: Seq<PeerRecord>, r: PeerRecord)
    requires
        wf_records(s),
        !contains_addr(s, r.address),
    ensures
        wf_records(s.push(r)),
{
    assert forall|i: int, j: int| 0 <= i < j < s.push(r).len()
        implies s.push(r)[i].address != s.push(r)[j].address by {
        if j < s.len() {
        } else {
            assert(s.push(r)[i] == s[i]);
        }
    }
}

pub proof fn lemma_wf_update(s: Seq<PeerRecord>, k: int, r: PeerRecord)
    requires
        wf_records(s),
        0 <= k < s.len(),
        r.address == s[k].address,
    ensures
        wf_records(s.update(k, r)),
{
}

pub proof fn lemma_wf_remove(s: Seq<PeerRecord>, k: int)
    requires
        wf_records(s),
        0 <= k < s.len(),
    ensures
        wf_records(s.remove(k)),
{
    assert forall|i: int, j: int| 0 <= i < j < s.remove(k).len()
        implies s.remove(k)[i].address != s.remove(k)[j].address by {
        let i0: int = if i < k { i } else { i + 1 };
        let j0: int = if j < k { j } else { j + 1 };
        assert(s.remove(k)[i] == s[i0]);
        assert(s.remove(k)[j] == s[j0]);
    }
}

/// Mathematical model of [`Peers`].
pub struct PeersView {
    pub records: Seq<PeerRecord>,
    pub known: Seq<PeerAddress>,
    pub bootnodes: Seq<PeerAddress>,
    pub local_address: Option<PeerAddress>,
    pub min_peers: int,
    pub max_peers: int,
}

/// The peer registry and its handshake state machine.
pub struct Peers {
    /// One record per peer that is not Disconnected.
    records: Vec<PeerRecord>,
    /// Addresses learned through peer exchange; candidates for new
    /// connections after the bootnodes.
    known: Vec<PeerAddress>,
    /// Configured bootnode addresses, the preferred connection candidates.
    bootnodes: Vec<PeerAddress>,
    /// This node's own address, once the listener is bound; never a
    /// connection candidate.
    local_address: Option<PeerAddress>,
    /// Maintenance initiates connections while fewer peers are Connected.
    min_peers: usize,
    /// Advisory cap for the accept loop of the I/O shell.
    max_peers: usize,
}

impl View for Peers {
    type V = PeersView;

    closed spec fn view(&self) -> PeersView {
        PeersView {
            records: self.records@,
            known: self.known@,
            bootnodes: self.bootnodes@,
            local_address: self.local_address,
            min_peers: self.min_peers as int,
            max_peers: self.max_peers as int,
        }
    }
}

impl Peers {
    /// One record per address.
    pub open spec fn wf(&self) -> bool {
        wf_records(self@.records)
    }

    /// A fresh registry: every peer starts Disconnected.
    pub fn new(
        bootnodes: Vec<PeerAddress>,
        local_address: Option<PeerAddress>,
        min_peers: usize,
        max_peers: usize,
    ) -> (r: Peers)
        ensures
            r.wf(),
            r@.records == Seq::<PeerRecord>::empty(),
            r@.known == Seq::<PeerAddress>::empty(),
            r@.bootnodes == bootnodes@,
            r@.local_address == local_address,
            r@.min_peers == min_peers as int,
            r@.max_peers == max_peers as int,
    {
        Peers {
            records: Vec::new(),
            known: Vec::new(),
            bootnodes,
            local_address,
            min_peers,
            max_peers,
        }
    }

    /// Records the address the listener ended up bound to.
    pub fn set_local_address(&mut self, a: PeerAddress)
        ensures
            final(self)@ == (PeersView { local_address: Some(a), ..old(self)@ }),
    {
        self.local_address = Some(a);
    }

    pub fn local_address(&self) -> (r: Option<PeerAddress>)
        ensures
            r == self@.local_address,
    {
        self.local_address
    }

    pub fn min_peers(&self) -> (r: usize)
        ensures
            r as int == self@.min_peers,
    {
        self.min_peers
    }

    pub fn max_peers(&self) -> (r: usize)
        ensures
            r as int == self@.max_peers,
    {
        self.max_peers
    }

    /// Whether `a` is one of the configured bootnodes.
    pub fn is_bootnode(&self, a: PeerAddress) -> (r: bool)
        ensures
            r == self@.bootnodes.contains(a),
    {
        contains_address(&self.bootnodes, a)
    }

    /// Index of the record for `a`, if `a` is not Disconnected.
    fn find_index(&self, a: PeerAddress) -> (r: Option<usize>)
        ensures
            match r {
                Some(i) => i < self@.records.len() && spec_find(self@.records, a) == i as int
                    && self@.records[i as int].address == a,
                None => spec_find(self@.records, a) == -1,
            },
    {
        let ghost s = self@.records;
        proof {
            lemma_find_props(s, a);
        }
        let mut i: usize = 0;
        while i < self.records.len()
            invariant
                s == self@.records,
                i <= s.len(),
                forall|j: int| 0 <= j < i ==> s[j].address != a,
            decreases s.len() - i,
        {
            proof {
                lemma_find_props(s, a);
            }
            if self.records[i].address == a {
                return Some(i);
            }
            i = i + 1;
        }
        proof {
            lemma_find_props(s, a);
            if spec_find(s, a) >= 0 {
                assert(s[spec_find(s, a)].address == a);
            }
        }
        None
    }

    /// Whether the handshake with `a` has completed.
    pub fn is_connected(&self, a: PeerAddress) -> (r: bool)
        ensures
            r == spec_is_connected(self@.records, a),
    {
        match self.find_index(a) {
            Some(i) => match self.records[i].status {
                PeerStatus::Connected { .. } => true,
                _ => false,
            },
            None => false,
        }
    }

    /// Whether a handshake with `a` is in flight.
    pub fn is_connecting(&self, a: PeerAddress) -> (r: bool)
        ensures
            r == spec_is_connecting(self@.records, a),
    {
        match self.find_index(a) {
            Some(i) => match self.records[i].status {
                PeerStatus::Connecting { .. } => true,
                _ => false,
            },
            None => false,
        }
    }

    /// Connected-peer count: always exactly the number of records in
    /// Connected state.
    pub fn number_of_connected_peers(&self) -> (r: usize)
        ensures
            r as nat == spec_connected_count(self@.records),
    {
        let ghost s = self@.records;
        let mut count: usize = 0;
        let mut i: usize = 0;
        while i < self.records.len()
            invariant
                s == self@.records,
                i <= s.len(),
                count <= i,
                count as nat == spec_connected_count(s.take(i as int)),
            decreases s.len() - i,
        {
            proof {
                assert(s.take(i + 1).drop_last() =~= s.take(i as int));
                assert(s.take(i + 1).last() == s[i as int]);
            }
            match self.records[i].status {
                PeerStatus::Connected { .. } => {
                    count = count + 1;
                }
                _ => {}
            }
            i = i + 1;
        }
        proof {
            assert(s.take(s.len() as int) =~= s);
        }
        count
    }

    /// Addresses of all Connected peers, in registry order.
    pub fn connected_peers(&self) -> (r: Vec<PeerAddress>)
        ensures
            r@ == spec_connected_addresses(self@.records),
    {
        let ghost s = self@.records;
        let mut out: Vec<PeerAddress> = Vec::new();
        let mut i: usize = 0;
        while i < self.records.len()
            invariant
                s == self@.records,
                i <= s.len(),
                out@ == spec_connected_addresses(s.take(i as int)),
            decreases s.len() - i,
        {
            proof {
                assert(s.take(i + 1).drop_last() =~= s.take(i as int));
                assert(s.take(i + 1).last() == s[i as int]);
            }
            match self.records[i].status {
                PeerStatus::Connected { .. } => {
                    out.push(self.records[i].address);
                }
                _ => {}
            }
            i = i + 1;
        }
        proof {
            assert(s.take(s.len() as int) =~= s);
        }
        out
    }

    /// Addresses of all Connected peers other than `except`: the broadcast
    /// set when `except` is the source of a propagated message.
    pub fn connected_peers_except(&self, except: PeerAddress) -> (r: Vec<PeerAddress>)
        ensures
            r@ == spec_connected_addresses_except(self@.records, except),
    {
        let ghost s = self@.records;
        let mut out: Vec<PeerAddress> = Vec::new();
        let mut i: usize = 0;
        while i < self.records.len()
            invariant
                s == self@.records,
                i <= s.len(),
                out@ == spec_connected_addresses_except(s.take(i as int), except),
            decreases s.len() - i,
        {
            proof {
                assert(s.take(i + 1).drop_last() =~= s.take(i as int));
                assert(s.take(i + 1).last() == s[i as int]);
            }
            match self.records[i].status {
                PeerStatus::Connected { .. } => {
                    if !(self.records[i].address == except) {
                        out.push(self.records[i].address);
                    }
                }
                _ => {}
            }
            i = i + 1;
        }
        proof {
            assert(s.take(s.len() as int) =~= s);
        }
        out
    }

    /// The Connected peer whose last message is the most recent: the sync
    /// target handed to the chain-sync state machine.
    pub fn last_seen(&self) -> (r: Option<PeerAddress>)
        ensures
            r == match spec_best_seen(self@.records) {
                Some(b) => Some(b.0),
                None => None::<PeerAddress>,
            },
    {
        let ghost s = self@.records;
        let mut best: Option<(PeerAddress, u64)> = None;
        let mut i: usize = 0;
        while i < self.records.len()
            invariant
                s == self@.records,
                i <= s.len(),
                best == spec_best_seen(s.take(i as int)),
            decreases s.len() - i,
        {
            proof {
                assert(s.take(i + 1).drop_last() =~= s.take(i as int));
                assert(s.take(i + 1).last() == s[i as int]);
            }
            match self.records[i].status {
                PeerStatus::Connected { last_seen, .. } => {
                    best = match best {
                        Some(b) => if last_seen > b.1 {
                            Some((self.records[i].address, last_seen))
                        } else {
                            Some(b)
                        },
                        None => Some((self.records[i].address, last_seen)),
                    };
                }
                _ => {}
            }
            i = i + 1;
        }
        proof {
            assert(s.take(s.len() as int) =~= s);
        }
        match best {
            Some(b) => Some(b.0),
            None => None,
        }
    }
}

// ---------------------------------------------------------------------------
// Handshake transitions
// ---------------------------------------------------------------------------

/// Receiving Version(their_nonce) from `from`.
///
/// A Disconnected peer gets a Verack echoing its nonce, followed by this
/// node's own Version carrying `our_nonce`, and a Connecting record. A
/// Connecting peer gets only the Verack: this node's Version is already
/// out. A Connected peer gets no reply; its record is only marked seen.
pub open spec fn spec_on_version(
    s: Seq<PeerRecord>,
    from: PeerAddress,
    their_nonce: u64,
    our_nonce: u64,
    now: u64,
) -> (Seq<PeerRecord>, Seq<ActionView>) {
    let i = spec_find(s, from);
    if i < 0 {
        (
            s.push(PeerRecord {
                address: from,
                status: PeerStatus::Connecting { nonce: our_nonce, since: now },
            }),
            seq![
                ActionView::Send { to: from, message: MessageView::Verack { nonce: their_nonce } },
                ActionView::Send { to: from, message: MessageView::Version { nonce: our_nonce } },
            ],
        )
    } else {
        match s[i].status {
            PeerStatus::Connecting { .. } => (
                s,
                seq![
                    ActionView::Send {
                        to: from,
                        message: MessageView::Verack { nonce: their_nonce },
                    },
                ],
            ),
            PeerStatus::Connected { nonce, .. } => (
                s.update(i, PeerRecord {
                    address: from,
                    status: PeerStatus::Connected { nonce, last_seen: now },
                }),
                seq![],
            ),
        }
    }
}

/// Receiving Verack(echoed) from `from`: completes the handshake exactly
/// when a Connecting record stores the same nonce; every other Verack is
/// dropped silently, with no reply and no state change.
pub open spec fn spec_on_verack(
    s: Seq<PeerRecord>,
    from: PeerAddress,
    echoed: u64,
    now: u64,
) -> Seq<PeerRecord> {
    let i = spec_find(s, from);
    if i >= 0 {
        match s[i].status {
            PeerStatus::Connecting { nonce, .. } => if nonce == echoed {
                s.update(i, PeerRecord {
                    address: from,
                    status: PeerStatus::Connected { nonce, last_seen: now },
                })
            } else {
                s
            },
            _ => s,
        }
    } else {
        s
    }
}

/// A fresh message arrived from a Connected peer: refresh its last-seen
/// tick. Any other peer is left untouched.
pub open spec fn spec_mark_seen(s: Seq<PeerRecord>, from: PeerAddress, now: u64)
    -> Seq<PeerRecord> {
    let i = spec_find(s, from);
    if i >= 0 {
        match s[i].status {
            PeerStatus::Connected { nonce, .. } => s.update(i, PeerRecord {
                address: from,
                status: PeerStatus::Connected { nonce, last_seen: now },
            }),
            _ => s,
        }
    } else {
        s
    }
}

/// Starting a handshake with a Disconnected peer: record Connecting with
/// the fresh nonce and send Version. A peer with any record is left alone.
pub open spec fn spec_initiate(s: Seq<PeerRecord>, a: PeerAddress, nonce: u64, now: u64)
    -> (Seq<PeerRecord>, Seq<ActionView>) {
    if spec_find(s, a) >= 0 {
        (s, seq![])
    } else {
        (
            s.push(PeerRecord {
                address: a,
                status: PeerStatus::Connecting { nonce, since: now },
            }),
            seq![ActionView::Send { to: a, message: MessageView::Version { nonce } }],
        )
    }
}

impl Peers {
    /// Handles an incoming Version message.
    pub fn on_version(&mut self, from: PeerAddress, their_nonce: u64, our_nonce: u64, now: u64)
        -> (actions: Vec<Action>)
        requires
            old(self).wf(),
        ensures
            final(self).wf(),
            final(self)@ == (PeersView {
                records: spec_on_version(old(self)@.records, from, their_nonce, our_nonce, now).0,
                ..old(self)@
            }),
            acts_view(actions@)
                == spec_on_version(old(self)@.records, from, their_nonce, our_nonce, now).1,
    {
        let ghost s0 = self@.records;
        let ghost target = spec_on_version(s0, from, their_nonce, our_nonce, now);
        match self.find_index(from) {
            None => {
                proof {
                    lemma_find_props(s0, from);
                    lemma_wf_push(s0, PeerRecord {
                        address: from,
                        status: PeerStatus::Connecting { nonce: our_nonce, since: now },
                    });
                }
                self.records.push(PeerRecord {
                    address: from,
                    status: PeerStatus::Connecting { nonce: our_nonce, since: now },
                });
                let mut actions: Vec<Action> = Vec::new();
                actions.push(Action::Send {
                    to: from,
                    message: Message::Verack { nonce: their_nonce },
                });
                actions.push(Action::Send {
                    to: from,
                    message: Message::Version { nonce: our_nonce },
                });
                proof {
                    assert(acts_view(actions@) =~= target.1);
                }
                actions
            }
            Some(i) => {
                match self.records[i].status {
                    PeerStatus::Connecting { .. } => {
                        let mut actions: Vec<Action> = Vec::new();
                        actions.push(Action::Send {
                            to: from,
                            message: Message::Verack { nonce: their_nonce },
                        });
                        proof {
                            assert(acts_view(actions@) =~= target.1);
                        }
                        actions
                    }
                    PeerStatus::Connected { nonce, .. } => {
                        let updated = PeerRecord {
                            address: from,
                            status: PeerStatus::Connected { nonce, last_seen: now },
                        };
                        proof {
                            lemma_wf_update(s0, i as int, updated);
                        }
                        self.records.set(i, updated);
                        let actions: Vec<Action> = Vec::new();
                        proof {
                            assert(acts_view(actions@) =~= target.1);
                        }
                        actions
                    }
                }
            }
        }
    }

    /// Handles an incoming Verack message.
    pub fn on_verack(&mut self, from: PeerAddress, echoed: u64, now: u64)
        requires
            old(self).wf(),
        ensures
            final(self).wf(),
            final(self)@ == (PeersView {
                records: spec_on_verack(old(self)@.records, from, echoed, now),
                ..old(self)@
            }),
    {
        let ghost s0 = self@.records;
        match self.find_index(from) {
            None => {}
            Some(i) => {
                match self.records[i].status {
                    PeerStatus::Connecting { nonce, .. } => {
                        if nonce == echoed {
                            let updated = PeerRecord {
                                address: from,
                                status: PeerStatus::Connected { nonce, last_seen: now },
                            };
                            proof {
                                lemma_wf_update(s0, i as int, updated);
                            }
                            self.records.set(i, updated);
                        }
                    }
                    _ => {}
                }
            }
        }
    }

    /// Refreshes the last-seen tick of a Connected peer.
    pub fn mark_seen(&mut self, from: PeerAddress, now: u64)
        requires
            old(self).wf(),
        ensures
            final(self).wf(),
            final(self)@ == (PeersView {
                records: spec_mark_seen(old(self)@.records, from, now),
                ..old(self)@
            }),
    {
        let ghost s0 = self@.records;
        match self.find_index(from) {
            None => {}
            Some(i) => {
                match self.records[i].status {
                    PeerStatus::Connected { nonce, .. } => {
                        let updated = PeerRecord {
                            address: from,
                            status: PeerStatus::Connected { nonce, last_seen: now },
                        };
                        proof {
                            lemma_wf_update(s0, i as int, updated);
                        }
                        self.records.set(i, updated);
                    }
                    _ => {}
                }
            }
        }
    }

    /// Starts a handshake with `a`, using an externally drawn fresh nonce.
    pub fn initiate(&mut self, a: PeerAddress, nonce: u64, now: u64) -> (actions: Vec<Action>)
        requires
            old(self).wf(),
        ensures
            final(self).wf(),
            final(self)@ == (PeersView {
                records: spec_initiate(old(self)@.records, a, nonce, now).0,
                ..old(self)@
            }),
            acts_view(actions@) == spec_initiate(old(self)@.records, a, nonce, now).1,
    {
        let ghost s0 = self@.records;
        let ghost target = spec_initiate(s0, a, nonce, now);
        match self.find_index(a) {
            Some(_) => {
                let actions: Vec<Action> = Vec::new();
                proof {
                    assert(acts_view(actions@) =~= target.1);
                }
                actions
            }
            None => {
                proof {
                    lemma_find_props(s0, a);
                    lemma_wf_push(s0, PeerRecord {
                        address: a,
                        status: PeerStatus::Connecting { nonce, since: now },
                    });
                }
                self.records.push(PeerRecord {
                    address: a,
                    status: PeerStatus::Connecting { nonce, since: now },
                });
                let mut actions: Vec<Action> = Vec::new();
                actions.push(Action::Send { to: a, message: Message::Version { nonce } });
                proof {
                    assert(acts_view(actions@) =~= target.1);
                }
                actions
            }
        }
    }

    /// Removes `a` from the registry and asks the shell to close its
    /// channel; an unknown address is a PeerError.
    pub fn disconnect(&mut self, a: PeerAddress) -> (r: Result<Vec<Action>, NetworkError>)
        requires
            old(self).wf(),
        ensures
            final(self).wf(),
            spec_find(old(self)@.records, a) >= 0 ==> final(self)@ == (PeersView {
                records: old(self)@.records.remove(spec_find(old(self)@.records, a)),
                ..old(self)@
            }) && (match r {
                Ok(actions) => acts_view(actions@)
                    == seq![ActionView::CloseChannel { peer: a }],
                Err(_) => false,
            }),
            spec_find(old(self)@.records, a) == -1 ==> final(self)@ == old(self)@
                && r == Err::<Vec<Action>, NetworkError>(NetworkError::PeerNotFound),
    {
        let ghost s0 = self@.records;
        match self.find_index(a) {
            None => Err(NetworkError::PeerNotFound),
            Some(i) => {
                proof {
                    lemma_wf_remove(s0, i as int);
                }
                self.records.remove(i);
                let mut actions: Vec<Action> = Vec::new();
                actions.push(Action::CloseChannel { peer: a });
                proof {
                    assert(acts_view(actions@) =~= seq![ActionView::CloseChannel { peer: a }]);
                }
                Ok(actions)
            }
        }
    }

    /// Replies to GetPeers with the Connected addresses other than the
    /// asker itself.
    pub fn on_get_peers(&self, from: PeerAddress) -> (actions: Vec<Action>)
        ensures
            acts_view(actions@) == seq![
                ActionView::Send {
                    to: from,
                    message: MessageView::Peers {
                        addresses: spec_connected_addresses_except(self@.records, from),
                    },
                },
            ],
    {
        let addresses = self.connected_peers_except(from);
        let mut actions: Vec<Action> = Vec::new();
        actions.push(Action::Send { to: from, message: Message::Peers { addresses } });
        proof {
            assert(acts_view(actions@) =~= seq![
                ActionView::Send {
                    to: from,
                    message: MessageView::Peers {
                        addresses: spec_connected_addresses_except(self@.records, from),
                    },
                },
            ]);
        }
        actions
    }
}

// ---------------------------------------------------------------------------
// Peer exchange and periodic maintenance
// ---------------------------------------------------------------------------

/// Addresses from a Peers message are added to the known list, skipping
/// duplicates and this node's own address.
pub open spec fn spec_add_known(
    known: Seq<PeerAddress>,
    addrs: Seq<PeerAddress>,
    local: Option<PeerAddress>,
) -> Seq<PeerAddress>
    decreases addrs.len(),
{
    if addrs.len() == 0 {
        known
    } else {
        let k = spec_add_known(known, addrs.drop_last(), local);
        let a = addrs.last();
        if k.contains(a) || Some(a) == local {
            k
        } else {
            k.push(a)
        }
    }
}

/// Maintenance step one: every Connecting record whose handshake has waited
/// longer than the timeout goes back to Disconnected (it is removed), and
/// its channel is closed.
pub open spec fn spec_prune(s: Seq<PeerRecord>, now: u64) -> (Seq<PeerRecord>, Seq<ActionView>)
    decreases s.len(),
{
    if s.len() == 0 {
        (Seq::empty(), Seq::empty())
    } else {
        let p = spec_prune(s.drop_last(), now);
        let r = s.last();
        if r.status matches PeerStatus::Connecting { since, .. }
            && since + HANDSHAKE_TIMEOUT_TICKS < now {
            (p.0, p.1.push(ActionView::CloseChannel { peer: r.address }))
        } else {
            (p.0.push(r), p.1)
        }
    }
}

pub proof fn lemma_prune_wf(s: Seq<PeerRecord>, now: u64)
    requires
        wf_records(s),
    ensures
        wf_records(spec_prune(s, now).0),
        forall|a: PeerAddress| contains_addr(spec_prune(s, now).0, a) ==> contains_addr(s, a),
    decreases s.len(),
{
    if s.len() == 0 {
    } else {
        assert forall|i: int, j: int| 0 <= i < j < s.drop_last().len()
            implies s.drop_last()[i].address != s.drop_last()[j].address by {
            assert(s.drop_last()[i] == s[i] && s.drop_last()[j] == s[j]);
        }
        lemma_prune_wf(s.drop_last(), now);
        let p = spec_prune(s.drop_last(), now);
        let r = s.last();
        let kept = !(r.status matches PeerStatus::Connecting { since, .. }
            && since + HANDSHAKE_TIMEOUT_TICKS < now);
        if kept {
            assert(!contains_addr(s.drop_last(), r.address)) by {
                if contains_addr(s.drop_last(), r.address) {
                    let i = choose|i: int| 0 <= i < s.drop_last().len()
                        && s.drop_last()[i].address == r.address;
                    assert(s[i] == s.drop_last()[i]);
                    assert(s[i].address == s[s.len() - 1].address);
                }
            }
            lemma_wf_push(p.0, r);
            assert forall|a: PeerAddress| contains_addr(p.0.push(r), a)
                implies contains_addr(s, a) by {
                let i = choose|i: int| 0 <= i < p.0.push(r).len() && p.0.push(r)[i].address == a;
                if i < p.0.len() {
                    assert(p.0.push(r)[i] == p.0[i]);
                    assert(contains_addr(p.0, a));
                    assert(contains_addr(s.drop_last(), a));
                    let j = choose|j: int| 0 <= j < s.drop_last().len()
                        && s.drop_last()[j].address == a;
                    assert(s.drop_last()[j] == s[j]);
                    assert(s[j].address == a);
                } else {
                    assert(s[s.len() - 1].address == a);
                }
            }
        } else {
            assert forall|a: PeerAddress| contains_addr(p.0, a)
                implies contains_addr(s, a) by {
                assert(contains_addr(s.drop_last(), a));
                let j = choose|j: int| 0 <= j < s.drop_last().len()
                    && s.drop_last()[j].address == a;
                assert(s.drop_last()[j] == s[j]);
                assert(s[j].address == a);
            }
        }
    }
}

/// Maintenance step two: while fewer than `want` handshakes have been
/// started and fresh nonces remain, initiate a connection to each
/// candidate address that has no record and is not this node itself.
/// The third component counts the nonces consumed.
pub open spec fn spec_connect(
    s: Seq<PeerRecord>,
    cands: Seq<PeerAddress>,
    nonces: Seq<u64>,
    want: int,
    local: Option<PeerAddress>,
    now: u64,
) -> (Seq<PeerRecord>, Seq<ActionView>, int)
    decreases cands.len(),
{
    if cands.len() == 0 {
        (s, Seq::empty(), 0)
    } else {
        let p = spec_connect(s, cands.drop_last(), nonces, want, local, now);
        let a = cands.last();
        if spec_find(p.0, a) >= 0 || Some(a) == local || p.2 >= want || p.2 >= nonces.len() {
            p
        } else {
            (
                p.0.push(PeerRecord {
                    address: a,
                    status: PeerStatus::Connecting { nonce: nonces[p.2], since: now },
                }),
                p.1.push(ActionView::Send {
                    to: a,
                    message: MessageView::Version { nonce: nonces[p.2] },
                }),
                p.2 + 1,
            )
        }
    }
}

pub proof fn lemma_connect_wf(
    s: Seq<PeerRecord>,
    cands: Seq<PeerAddress>,
    nonces: Seq<u64>,
    want: int,
    local: Option<PeerAddress>,
    now: u64,
)
    requires
        wf_records(s),
    ensures
        wf_records(spec_connect(s, cands, nonces, want, local, now).0),
        0 <= spec_connect(s, cands, nonces, want, local, now).2 <= nonces.len(),
    decreases cands.len(),
{
    if cands.len() == 0 {
    } else {
        lemma_connect_wf(s, cands.drop_last(), nonces, want, local, now);
        let p = spec_connect(s, cands.drop_last(), nonces, want, local, now);
        let a = cands.last();
        if !(spec_find(p.0, a) >= 0 || Some(a) == local || p.2 >= want
            || p.2 >= nonces.len()) {
            lemma_find_props(p.0, a);
            lemma_wf_push(p.0, PeerRecord {
                address: a,
                status: PeerStatus::Connecting { nonce: nonces[p.2], since: now },
            });
        }
    }
}

/// The Connected address list has exactly one entry per Connected record.
pub proof fn lemma_connected_addresses_len(s: Seq<PeerRecord>)
    ensures
        spec_connected_addresses(s).len() == spec_connected_count(s),
    decreases s.len(),
{
    if s.len() > 0 {
        lemma_connected_addresses_len(s.drop_last());
    }
}

/// One maintenance pass: prune stale handshakes, top connections back up
/// to the configured minimum, ask one Connected peer (chosen by the
/// external `pick`) for its peer list, and name the best sync target.
pub open spec fn spec_update(v: PeersView, now: u64, nonces: Seq<u64>, pick: int)
    -> (PeersView, Seq<ActionView>, Option<PeerAddress>) {
    let pruned = spec_prune(v.records, now);
    let pruned_count = spec_connected_count(pruned.0) as int;
    let want: int = if pruned_count < v.min_peers { v.min_peers - pruned_count } else { 0 };
    let connected = spec_connect(
        pruned.0,
        v.bootnodes + v.known,
        nonces,
        want,
        v.local_address,
        now,
    );
    let count = spec_connected_count(connected.0) as int;
    let ask: Seq<ActionView> = if count > 0 {
        seq![
            ActionView::Send {
                to: spec_connected_addresses(connected.0)[pick % count],
                message: MessageView::GetPeers,
            },
        ]
    } else {
        seq![]
    };
    let target = match spec_best_seen(connected.0) {
        Some(b) => Some(b.0),
        None => None::<PeerAddress>,
    };
    (PeersView { records: connected.0, ..v }, pruned.1 + connected.1 + ask, target)
}

impl Peers {
    /// Handles a Peers message: remembers every previously unseen address
    /// for later connection attempts.
    pub fn on_peers(&mut self, addrs: &Vec<PeerAddress>)
        ensures
            final(self)@ == (PeersView {
                known: spec_add_known(old(self)@.known, addrs@, old(self)@.local_address),
                ..old(self)@
            }),
    {
        let ghost k0 = self@.known;
        let ghost local = self@.local_address;
        let mut i: usize = 0;
        while i < addrs.len()
            invariant
                i <= addrs@.len(),
                k0 == old(self)@.known,
                local == old(self)@.local_address,
                self@ == (PeersView {
                    known: spec_add_known(k0, addrs@.take(i as int), local),
                    ..old(self)@
                }),
            decreases addrs@.len() - i,
        {
            proof {
                assert(addrs@.take(i + 1).drop_last() =~= addrs@.take(i as int));
                assert(addrs@.take(i + 1).last() == addrs@[i as int]);
            }
            let a = addrs[i];
            let is_local = match self.local_address {
                Some(l) => l == a,
                None => false,
            };
            if !is_local && !contains_address(&self.known, a) {
                self.known.push(a);
            }
            i = i + 1;
        }
        proof {
            assert(addrs@.take(addrs@.len() as int) =~= addrs@);
        }
    }

    /// Prunes every Connecting record whose handshake timed out.
    fn prune_stale(&mut self, now: u64) -> (actions: Vec<Action>)
        requires
            old(self).wf(),
        ensures
            final(self).wf(),
            final(self)@ == (PeersView {
                records: spec_prune(old(self)@.records, now).0,
                ..old(self)@
            }),
            acts_view(actions@) == spec_prune(old(self)@.records, now).1,
    {
        let ghost s0 = self@.records;
        let mut kept: Vec<PeerRecord> = Vec::new();
        let mut actions: Vec<Action> = Vec::new();
        let mut i: usize = 0;
        while i < self.records.len()
            invariant
                i <= s0.len(),
                self@ == old(self)@,
                s0 == old(self)@.records,
                kept@ == spec_prune(s0.take(i as int), now).0,
                acts_view(actions@) == spec_prune(s0.take(i as int), now).1,
            decreases s0.len() - i,
        {
            proof {
                assert(s0.take(i + 1).drop_last() =~= s0.take(i as int));
                assert(s0.take(i + 1).last() == s0[i as int]);
            }
            let r = self.records[i];
            let stale = match r.status {
                PeerStatus::Connecting { since, .. } =>
                    now > HANDSHAKE_TIMEOUT_TICKS && since < now - HANDSHAKE_TIMEOUT_TICKS,
                _ => false,
            };
            if stale {
                actions.push(Action::CloseChannel { peer: r.address });
                proof {
                    assert(acts_view(actions@) =~= spec_prune(s0.take(i + 1), now).1);
                }
            } else {
                kept.push(r);
                proof {
                    assert(acts_view(actions@) =~= spec_prune(s0.take(i + 1), now).1);
                }
            }
            i = i + 1;
        }
        proof {
            assert(s0.take(s0.len() as int) =~= s0);
            lemma_prune_wf(s0, now);
        }
        self.records = kept;
        actions
    }

    /// Initiates handshakes with candidate addresses until `want` attempts
    /// have started or the fresh nonces run out.
    fn connect_candidates(
        &mut self,
        cands: &Vec<PeerAddress>,
        nonces: &Vec<u64>,
        want: usize,
        now: u64,
    ) -> (actions: Vec<Action>)
        requires
            old(self).wf(),
        ensures
            final(self).wf(),
            final(self)@ == (PeersView {
                records: spec_connect(
                    old(self)@.records,
                    cands@,
                    nonces@,
                    want as int,
                    old(self)@.local_address,
                    now,
                ).0,
                ..old(self)@
            }),
            acts_view(actions@) == spec_connect(
                old(self)@.records,
                cands@,
                nonces@,
                want as int,
                old(self)@.local_address,
                now,
            ).1,
    {
        let ghost s0 = self@.records;
        let ghost local = old(self)@.local_address;
        let mut actions: Vec<Action> = Vec::new();
        let mut used: usize = 0;
        let mut i: usize = 0;
        while i < cands.len()
            invariant
                i <= cands@.len(),
                s0 == old(self)@.records,
                local == old(self)@.local_address,
                wf_records(s0),
                wf_records(self@.records),
                used <= nonces@.len(),
                self@ == (PeersView {
                    records: spec_connect(s0, cands@.take(i as int), nonces@, want as int,
                        local, now).0,
                    ..old(self)@
                }),
                acts_view(actions@) == spec_connect(s0, cands@.take(i as int), nonces@,
                    want as int, local, now).1,
                used as int == spec_connect(s0, cands@.take(i as int), nonces@, want as int,
                    local, now).2,
            decreases cands@.len() - i,
        {
            proof {
                assert(cands@.take(i + 1).drop_last() =~= cands@.take(i as int));
                assert(cands@.take(i + 1).last() == cands@[i as int]);
            }
            let a = cands[i];
            let found = match self.find_index(a) {
                Some(_) => true,
                None => false,
            };
            let is_local = match self.local_address {
                Some(l) => l == a,
                None => false,
            };
            if !found && !is_local && used < want && used < nonces.len() {
                let nonce = nonces[used];
                proof {
                    lemma_find_props(self@.records, a);
                    lemma_wf_push(self@.records, PeerRecord {
                        address: a,
                        status: PeerStatus::Connecting { nonce, since: now },
                    });
                }
                self.records.push(PeerRecord {
                    address: a,
                    status: PeerStatus::Connecting { nonce, since: now },
                });
                actions.push(Action::Send { to: a, message: Message::Version { nonce } });
                used = used + 1;
                proof {
                    assert(acts_view(actions@)
                        =~= spec_connect(s0, cands@.take(i + 1), nonces@, want as int,
                            local, now).1);
                }
            }
            i = i + 1;
        }
        proof {
            assert(cands@.take(cands@.len() as int) =~= cands@);
        }
        actions
    }

    /// One pass of periodic maintenance. `nonces` are externally drawn
    /// fresh handshake nonces, `pick` the external random choice of which
    /// Connected peer to ask for its peer list. Returns the actions to
    /// perform and the best sync target for the chain-sync state machine.
    pub fn update(&mut self, now: u64, nonces: &Vec<u64>, pick: usize)
        -> (r: (Vec<Action>, Option<PeerAddress>))
        requires
            old(self).wf(),
        ensures
            final(self).wf(),
            final(self)@ == spec_update(old(self)@, now, nonces@, pick as int).0,
            acts_view(r.0@) == spec_update(old(self)@, now, nonces@, pick as int).1,
            r.1 == spec_update(old(self)@, now, nonces@, pick as int).2,
    {
        let ghost v0 = self@;
        let mut actions = self.prune_stale(now);
        let count = self.number_of_connected_peers();
        let want: usize = if count < self.min_peers {
            self.min_peers - count
        } else {
            0
        };
        let mut cands: Vec<PeerAddress> = Vec::new();
        push_addresses(&mut cands, &self.bootnodes);
        push_addresses(&mut cands, &self.known);
        proof {
            assert(cands@ =~= v0.bootnodes + v0.known);
        }
        let mut connect_actions = self.connect_candidates(&cands, nonces, want, now);
        actions.append(&mut connect_actions);
        let ghost after_connect = self@.records;
        let count2 = self.number_of_connected_peers();
        if count2 > 0 {
            proof {
                lemma_connected_addresses_len(after_connect);
            }
            let addrs = self.connected_peers();
            let t = addrs[pick % count2];
            actions.push(Action::Send { to: t, message: Message::GetPeers });
        }
        let sync_target = self.last_seen();
        proof {
            assert(acts_view(actions@)
                =~= spec_update(v0, now, nonces@, pick as int).1);
        }
        (actions, sync_target)
    }
}

// ---------------------------------------------------------------------------
// Laws of the handshake state machine
// ---------------------------------------------------------------------------

pub proof fn lemma_find_push(s: Seq<PeerRecord>, r: PeerRecord, a: PeerAddress)
    ensures
        spec_find(s.push(r), a) == if spec_find(s, a) >= 0 {
            spec_find(s, a)
        } else if r.address == a {
            s.len() as int
        } else {
            -1
        },
    decreases s.len(),
{
    if s.len() == 0 {
        assert(s.push(r)[0] == r);
        assert(s.push(r).drop_first() =~= Seq::<PeerRecord>::empty());
        assert(spec_find(Seq::<PeerRecord>::empty(), a) == -1);
        assert(s =~= Seq::<PeerRecord>::empty());
    } else {
        assert(s.push(r)[0] == s[0]);
        assert(s.push(r).drop_first() =~= s.drop_first().push(r));
        lemma_find_push(s.drop_first(), r, a);
    }
}

pub proof fn lemma_find_update(s: Seq<PeerRecord>, k: int, r: PeerRecord, a: PeerAddress)
    requires
        0 <= k < s.len(),
        r.address == s[k].address,
    ensures
        spec_find(s.update(k, r), a) == spec_find(s, a),
    decreases s.len(),
{
    if k == 0 {
        assert(s.update(k, r)[0] == r);
        assert(s.update(k, r).drop_first() =~= s.drop_first());
    } else {
        assert(s.update(k, r)[0] == s[0]);
        assert(s.update(k, r).drop_first() =~= s.drop_first().update(k - 1, r));
        lemma_find_update(s.drop_first(), k - 1, r, a);
    }
}

/// Each handshake transition keeps one record per address.
pub proof fn lemma_on_version_wf(
    s: Seq<PeerRecord>,
    from: PeerAddress,
    their_nonce: u64,
    our_nonce: u64,
    now: u64,
)
    requires
        wf_records(s),
    ensures
        wf_records(spec_on_version(s, from, their_nonce, our_nonce, now).0),
{
    let i = spec_find(s, from);
    lemma_find_props(s, from);
    if i < 0 {
        lemma_wf_push(s, PeerRecord {
            address: from,
            status: PeerStatus::Connecting { nonce: our_nonce, since: now },
        });
    } else {
        match s[i].status {
            PeerStatus::Connecting { .. } => {}
            PeerStatus::Connected { nonce, .. } => {
                lemma_wf_update(s, i, PeerRecord {
                    address: from,
                    status: PeerStatus::Connected { nonce, last_seen: now },
                });
            }
        }
    }
}

/// Each handshake transition keeps one record per address.
pub proof fn lemma_on_verack_wf(s: Seq<PeerRecord>, from: PeerAddress, echoed: u64, now: u64)
    requires
        wf_records(s),
    ensures
        wf_records(spec_on_verack(s, from, echoed, now)),
{
    let i = spec_find(s, from);
    lemma_find_props(s, from);
    if i >= 0 {
        match s[i].status {
            PeerStatus::Connecting { nonce, .. } => {
                if nonce == echoed {
                    lemma_wf_update(s, i, PeerRecord {
                        address: from,
                        status: PeerStatus::Connected { nonce, last_seen: now },
                    });
                }
            }
            _ => {}
        }
    }
}

/// Each handshake transition keeps one record per address.
pub proof fn lemma_mark_seen_wf(s: Seq<PeerRecord>, from: PeerAddress, now: u64)
    requires
        wf_records(s),
    ensures
        wf_records(spec_mark_seen(s, from, now)),
{
    let i = spec_find(s, from);
    lemma_find_props(s, from);
    if i >= 0 {
        match s[i].status {
            PeerStatus::Connected { nonce, .. } => {
                lemma_wf_update(s, i, PeerRecord {
                    address: from,
                    status: PeerStatus::Connected { nonce, last_seen: now },
                });
            }
            _ => {}
        }
    }
}

/// Receiving a Version never makes any peer Connected: it can only create
/// or refresh records, so the handshake cannot complete without a Verack.
pub proof fn lemma_version_never_connects(
    s: Seq<PeerRecord>,
    from: PeerAddress,
    their_nonce: u64,
    our_nonce: u64,
    now: u64,
    a: PeerAddress,
)
    ensures
        spec_is_connected(spec_on_version(s, from, their_nonce, our_nonce, now).0, a)
            == spec_is_connected(s, a),
{
    let i = spec_find(s, from);
    lemma_find_props(s, from);
    lemma_find_props(s, a);
    if i < 0 {
        let r = PeerRecord {
            address: from,
            status: PeerStatus::Connecting { nonce: our_nonce, since: now },
        };
        lemma_find_push(s, r, a);
        if spec_find(s, a) >= 0 {
            assert(s.push(r)[spec_find(s, a)] == s[spec_find(s, a)]);
        }
    } else {
        match s[i].status {
            PeerStatus::Connecting { .. } => {}
            PeerStatus::Connected { nonce, .. } => {
                let r = PeerRecord {
                    address: from,
                    status: PeerStatus::Connected { nonce, last_seen: now },
                };
                lemma_find_update(s, i, r, a);
                if spec_find(s, a) >= 0 && spec_find(s, a) != i {
                    assert(s.update(i, r)[spec_find(s, a)] == s[spec_find(s, a)]);
                }
            }
        }
    }
}

/// The one and only way a peer becomes Connected: a Verack whose echoed
/// nonce matches the nonce stored while Connecting. Every other Verack
/// changes nothing, and no peer other than the sender is touched.
pub proof fn lemma_connected_only_by_matching_verack(
    s: Seq<PeerRecord>,
    from: PeerAddress,
    echoed: u64,
    now: u64,
    a: PeerAddress,
)
    ensures
        spec_is_connected(spec_on_verack(s, from, echoed, now), a) && !spec_is_connected(s, a)
            ==> a == from
                && (spec_status_of(s, from) matches Some(PeerStatus::Connecting { nonce, .. })
                    && nonce == echoed),
        (spec_status_of(s, from) matches Some(PeerStatus::Connecting { nonce, .. })
            && nonce == echoed) ==> spec_is_connected(spec_on_verack(s, from, echoed, now), from),
        a != from ==> spec_is_connected(spec_on_verack(s, from, echoed, now), a)
            == spec_is_connected(s, a),
{
    let i = spec_find(s, from);
    if i >= 0 {
        lemma_find_props(s, from);
        lemma_find_props(s, a);
        match s[i].status {
            PeerStatus::Connecting { nonce, .. } => {
                if nonce == echoed {
                    let r = PeerRecord {
                        address: from,
                        status: PeerStatus::Connected { nonce, last_seen: now },
                    };
                    lemma_find_update(s, i, r, a);
                    lemma_find_update(s, i, r, from);
                    if a != from {
                        if spec_find(s, a) >= 0 {
                            assert(spec_find(s, a) != i);
                            assert(s.update(i, r)[spec_find(s, a)] == s[spec_find(s, a)]);
                        }
                    }
                }
            }
            _ => {}
        }
    }
}

/// Refreshing a last-seen tick changes no peer's connection state.
pub proof fn lemma_mark_seen_preserves_connected(
    s: Seq<PeerRecord>,
    from: PeerAddress,
    now: u64,
    a: PeerAddress,
)
    ensures
        spec_is_connected(spec_mark_seen(s, from, now), a) == spec_is_connected(s, a),
        spec_is_connecting(spec_mark_seen(s, from, now), a) == spec_is_connecting(s, a),
{
    let i = spec_find(s, from);
    if i >= 0 {
        proof_find_bounds(s, from);
        proof_find_bounds(s, a);
        match s[i].status {
            PeerStatus::Connected { nonce, .. } => {
                let r = PeerRecord {
                    address: from,
                    status: PeerStatus::Connected { nonce, last_seen: now },
                };
                lemma_find_update(s, i, r, a);
                if spec_find(s, a) >= 0 && spec_find(s, a) != i {
                    assert(s.update(i, r)[spec_find(s, a)] == s[spec_find(s, a)]);
                }
            }
            _ => {}
        }
    }
}

/// Removing a record never makes any peer Connected: a Connected peer of
/// the smaller registry was Connected before.
pub proof fn lemma_remove_no_new_connected(s: Seq<PeerRecord>, k: int, a: PeerAddress)
    requires
        wf_records(s),
        0 <= k < s.len(),
    ensures
        spec_is_connected(s.remove(k), a) ==> spec_is_connected(s, a),
{
    if spec_is_connected(s.remove(k), a) {
        let t = s.remove(k);
        lemma_find_props(t, a);
        let i = spec_find(t, a);
        let i0: int = if i < k { i } else { i + 1 };
        assert(t[i] == s[i0]);
        assert(contains_addr(s, a));
        lemma_find_props(s, a);
        let j = spec_find(s, a);
        assert(j >= 0);
        assert(s[j].address == a && s[i0].address == a);
        assert(j == i0);
    }
}

/// Convenience form of [`lemma_find_props`]: a found index is in bounds.
proof fn proof_find_bounds(s: Seq<PeerRecord>, a: PeerAddress)
    ensures
        spec_find(s, a) >= 0 ==> spec_find(s, a) < s.len() && s[spec_find(s, a)].address == a,
{
    lemma_find_props(s, a);
}

/// Under distinct addresses, being Connected is the same as owning a
/// Connected record.
proof fn lemma_is_connected_iff_record(s: Seq<PeerRecord>, a: PeerAddress)
    requires
        wf_records(s),
    ensures
        spec_is_connected(s, a) <==> exists|i: int| 0 <= i < s.len() && s[i].address == a
            && (#[trigger] s[i].status matches PeerStatus::Connected { .. }),
{
    lemma_find_props(s, a);
    if spec_is_connected(s, a) {
        let k = spec_find(s, a);
        assert(s[k].address == a && (s[k].status matches PeerStatus::Connected { .. }));
    }
    if exists|i: int| 0 <= i < s.len() && s[i].address == a
        && (#[trigger] s[i].status matches PeerStatus::Connected { .. }) {
        let i = choose|i: int| 0 <= i < s.len() && s[i].address == a
            && (#[trigger] s[i].status matches PeerStatus::Connected { .. });
        assert(contains_addr(s, a));
        let k = spec_find(s, a);
        assert(k >= 0 && s[k].address == a);
        assert(k == i);
    }
}

/// Pruning keeps every record it does not remove, and it removes only
/// stale Connecting records: every Connected record survives.
proof fn lemma_prune_records(s: Seq<PeerRecord>, now: u64)
    ensures
        forall|i: int| 0 <= i < spec_prune(s, now).0.len()
            ==> exists|j: int| 0 <= j < s.len() && #[trigger] spec_prune(s, now).0[i] == s[j],
        forall|j: int| 0 <= j < s.len()
            && (#[trigger] s[j].status matches PeerStatus::Connected { .. })
            ==> exists|i: int| 0 <= i < spec_prune(s, now).0.len()
                && spec_prune(s, now).0[i] == s[j],
    decreases s.len(),
{
    if s.len() > 0 {
        lemma_prune_records(s.drop_last(), now);
        let p = spec_prune(s.drop_last(), now).0;
        let q = spec_prune(s, now).0;
        assert forall|i: int| 0 <= i < q.len()
            implies exists|j: int| 0 <= j < s.len() && #[trigger] q[i] == s[j] by {
            if i < p.len() {
                assert(q[i] == p[i]);
                let j = choose|j: int| 0 <= j < s.drop_last().len() && p[i] == s.drop_last()[j];
                assert(q[i] == s[j]);
            } else {
                assert(q[i] == s[s.len() - 1]);
            }
        }
        assert forall|j: int| 0 <= j < s.len()
            && (#[trigger] s[j].status matches PeerStatus::Connected { .. })
            implies exists|i: int| 0 <= i < q.len() && q[i] == s[j] by {
            if j < s.len() - 1 {
                assert(s.drop_last()[j] == s[j]);
                let i = choose|i: int| 0 <= i < p.len() && p[i] == s.drop_last()[j];
                assert(q[i] == s[j]);
            } else {
                assert(q[q.len() - 1] == s[j]);
            }
        }
    }
}

/// Starting new handshakes only pushes Connecting records: it changes no
/// peer's Connected state.
proof fn lemma_connect_preserves_connected(
    s: Seq<PeerRecord>,
    cands: Seq<PeerAddress>,
    nonces: Seq<u64>,
    want: int,
    local: Option<PeerAddress>,
    now: u64,
    a: PeerAddress,
)
    ensures
        spec_is_connected(spec_connect(s, cands, nonces, want, local, now).0, a)
            == spec_is_connected(s, a),
    decreases cands.len(),
{
    if cands.len() > 0 {
        lemma_connect_preserves_connected(s, cands.drop_last(), nonces, want, local, now, a);
        let p = spec_connect(s, cands.drop_last(), nonces, want, local, now);
        let c = cands.last();
        if !(spec_find(p.0, c) >= 0 || Some(c) == local || p.2 >= want
            || p.2 >= nonces.len()) {
            let r = PeerRecord {
                address: c,
                status: PeerStatus::Connecting { nonce: nonces[p.2], since: now },
            };
            lemma_find_push(p.0, r, a);
            lemma_find_props(p.0, a);
            if spec_find(p.0, a) >= 0 {
                assert(p.0.push(r)[spec_find(p.0, a)] == p.0[spec_find(p.0, a)]);
            }
        }
    }
}

/// Maintenance never touches a Connected peer: after pruning stale
/// handshakes and initiating new ones, exactly the peers Connected before
/// are Connected still.
pub proof fn lemma_update_preserves_connected(
    v: PeersView,
    now: u64,
    nonces: Seq<u64>,
    pick: int,
    a: PeerAddress,
)
    requires
        wf_records(v.records),
    ensures
        spec_is_connected(spec_update(v, now, nonces, pick).0.records, a)
            == spec_is_connected(v.records, a),
{
    let pruned = spec_prune(v.records, now).0;
    lemma_prune_wf(v.records, now);
    lemma_prune_records(v.records, now);
    lemma_is_connected_iff_record(v.records, a);
    lemma_is_connected_iff_record(pruned, a);
    assert(spec_is_connected(pruned, a) == spec_is_connected(v.records, a)) by {
        if spec_is_connected(v.records, a) {
            let j = choose|j: int| 0 <= j < v.records.len() && v.records[j].address == a
                && (#[trigger] v.records[j].status matches PeerStatus::Connected { .. });
            let i = choose|i: int| 0 <= i < pruned.len() && pruned[i] == v.records[j];
            assert(pruned[i].address == a
                && (pruned[i].status matches PeerStatus::Connected { .. }));
        }
        if spec_is_connected(pruned, a) {
            let i = choose|i: int| 0 <= i < pruned.len() && pruned[i].address == a
                && (#[trigger] pruned[i].status matches PeerStatus::Connected { .. });
            let j = choose|j: int| 0 <= j < v.records.len() && pruned[i] == v.records[j];
            assert(v.records[j].address == a
                && (v.records[j].status matches PeerStatus::Connected { .. }));
        }
    }
    let pruned_count = spec_connected_count(pruned) as int;
    let want: int = if pruned_count < v.min_peers { v.min_peers - pruned_count } else { 0 };
    lemma_connect_preserves_connected(
        pruned,
        v.bootnodes + v.known,
        nonces,
        want,
        v.local_address,
        now,
        a,
    );
}

/// The connected-peer count is exactly the number of records in Connected
/// state.
pub proof fn lemma_connected_count_is_filter(s: Seq<PeerRecord>)
    ensures
        spec_connected_count(s) == s.filter(
            |r: PeerRecord| r.status matches PeerStatus::Connected { .. },
        ).len(),
    decreases s.len(),
{
    reveal(Seq::filter);
    if s.len() > 0 {
        lemma_connected_count_is_filter(s.drop_last());
    }
}

/// Appends all of `src` to `out`.
fn push_addresses(out: &mut Vec<PeerAddress>, src: &Vec<PeerAddress>)
    ensures
        final(out)@ == old(out)@ + src@,
{
    let mut j: usize = 0;
    while j < src.len()
        invariant
            j <= src@.len(),
            out@ == old(out)@ + src@.take(j as int),
        decreases src@.len() - j,
    {
        out.push(src[j]);
        assert(out@ =~= old(out)@ + src@.take(j as int + 1));
        j = j + 1;
    }
    assert(out@ =~= old(out)@ + src@);
}

/// Linear search over an address list.
pub fn contains_address(v: &Vec<PeerAddress>, a: PeerAddress) -> (r: bool)
    ensures
        r == v@.contains(a),
{
    let mut i: usize = 0;
    while i < v.len()
        invariant
            i <= v@.len(),
            forall|j: int| 0 <= j < i ==> v@[j] != a,
        decreases v@.len() - i,
    {
        if v[i] == a {
            return true;
        }
        i = i + 1;
    }
    proof {
        assert(!v@.contains(a));
    }
    false
}

} // verus!
