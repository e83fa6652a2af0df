//! Outbound send registry: which peers currently have an open channel,
//! and the serialization of messages routed to them.
//!
//! The channels themselves — socket halves — live in the I/O shell. The
//! registry decides routing: a send to an address without a channel fails
//! with PeerNotFound, a broadcast is best-effort and skips it. Each
//! returned [`Outgoing`] is written on its channel as one atomic write, so
//! envelopes never interleave.

use vstd::prelude::*;

use crate::errors::NetworkError;
use crate::message::{
    encode_envelope, spec_envelope_bytes, wf_message, Message, MessageView, PeerAddress,
};
use crate::peers::contains_address;

verus! {

/// One framed message, ready to be written on the channel of `to`.
pub struct Outgoing {
    pub to: PeerAddress,
    pub bytes: Vec<u8>,
}

/// Mathematical model of an [`Outgoing`].
pub struct OutgoingView {
    pub to: PeerAddress,
    pub bytes: Seq<u8>,
}

impl View for Outgoing {
    type V = OutgoingView;

    open spec fn view(&self) -> OutgoingView {
        OutgoingView { to: self.to, bytes: self.bytes@ }
    }
}

impl DeepView for Outgoing {
    type V = OutgoingView;

    open spec fn deep_view(&self) -> OutgoingView {
        self@
    }
}

/// The registered addresses after a channel closes.
pub open spec fn spec_deregister(s: Seq<PeerAddress>, a: PeerAddress) -> Seq<PeerAddress>
    decreases s.len(),
{
    if s.len() == 0 {
        Seq::empty()
    } else {
        let rest = spec_deregister(s.drop_last(), a);
        if s.last() == a {
            rest
        } else {
            rest.push(s.last())
        }
    }
}

/// The envelopes a best-effort broadcast produces: one per recipient that
/// has a channel, in recipient order; the rest are skipped, not failed.
pub open spec fn spec_broadcast(
    registered: Seq<PeerAddress>,
    recipients: Seq<PeerAddress>,
    m: MessageView,
) -> Seq<OutgoingView>
    decreases recipients.len(),
{
    if recipients.len() == 0 {
        Seq::empty()
    } else {
        let rest = spec_broadcast(registered, recipients.drop_last(), m);
        if registered.contains(recipients.last()) {
            rest.push(OutgoingView {
                to: recipients.last(),
                bytes: spec_envelope_bytes(m),
            })
        } else {
            rest
        }
    }
}

/// Registry of the addresses that currently have an open channel.
pub struct Outbound {
    registered: Vec<PeerAddress>,
}

impl View for Outbound {
    type V = Seq<PeerAddress>;

    closed spec fn view(&self) -> Seq<PeerAddress> {
        self.registered@
    }
}

impl Outbound {
    /// A registry with no channels.
    pub fn new() -> (r: Outbound)
        ensures
            r@ == Seq::<PeerAddress>::empty(),
    {
        Outbound { registered: Vec::new() }
    }

    /// Records an open channel for `a`; registering twice keeps one entry.
    pub fn register(&mut self, a: PeerAddress)
        ensures
            final(self)@ == if old(self)@.contains(a) {
                old(self)@
            } else {
                old(self)@.push(a)
            },
    {
        if !contains_address(&self.registered, a) {
            self.registered.push(a);
        }
    }

    /// Forgets the channel of `a` once it closes.
    pub fn deregister(&mut self, a: PeerAddress)
        ensures
            final(self)@ == spec_deregister(old(self)@, a),
    {
        let ghost s0 = self.registered@;
        let mut kept: Vec<PeerAddress> = Vec::new();
        let mut i: usize = 0;
        while i < self.registered.len()
            invariant
                s0 == self.registered@,
                i <= s0.len(),
                kept@ == spec_deregister(s0.take(i as int), a),
            decreases s0.len() - i,
        {
            proof {
                assert(s0.take(i + 1).drop_last() =~= s0.take(i as int));
                assert(s0.take(i + 1).last() == s0[i as int]);
            }
            if !(self.registered[i] == a) {
                kept.push(self.registered[i]);
            }
            i = i + 1;
        }
        proof {
            assert(s0.take(s0.len() as int) =~= s0);
        }
        self.registered = kept;
    }

    /// Whether `a` has an open channel.
    pub fn is_registered(&self, a: PeerAddress) -> (r: bool)
        ensures
            r == self@.contains(a),
    {
        contains_address(&self.registered, a)
    }

    /// Serializes `message` for `to`. Fails with PeerNotFound exactly when
    /// no channel is registered for `to`; the I/O shell surfaces write
    /// failures to its caller without tearing down the process.
    pub fn send(&self, to: PeerAddress, message: &Message) -> (r: Result<Outgoing, NetworkError>)
        requires
            wf_message(message@),
        ensures
            self@.contains(to) ==> (match r {
                Ok(o) => o@.to == to && o@.bytes == spec_envelope_bytes(message@),
                Err(_) => false,
            }),
            !self@.contains(to)
                ==> r == Err::<Outgoing, NetworkError>(NetworkError::PeerNotFound),
    {
        if !contains_address(&self.registered, to) {
            return Err(NetworkError::PeerNotFound);
        }
        Ok(Outgoing { to, bytes: encode_envelope(message) })
    }

    /// Serializes `message` for every recipient that has a channel, in
    /// order. Best-effort: a recipient without a channel is skipped and
    /// does not abort delivery to the rest.
    pub fn broadcast(&self, recipients: &Vec<PeerAddress>, message: &Message)
        -> (r: Vec<Outgoing>)
        requires
            wf_message(message@),
        ensures
            r.deep_view() == spec_broadcast(self@, recipients@, message@),
    {
        let ghost reg = self@;
        let ghost rv = recipients@;
        let mut out: Vec<Outgoing> = Vec::new();
        let mut i: usize = 0;
        while i < recipients.len()
            invariant
                wf_message(message@),
                reg == self@,
                rv == recipients@,
                i <= rv.len(),
                out.deep_view() == spec_broadcast(reg, rv.take(i as int), message@),
            decreases rv.len() - i,
        {
            proof {
                assert(rv.take(i + 1).drop_last() =~= rv.take(i as int));
                assert(rv.take(i + 1).last() == rv[i as int]);
            }
            let ghost before = out.deep_view();
            if contains_address(&self.registered, recipients[i]) {
                out.push(Outgoing {
                    to: recipients[i],
                    bytes: encode_envelope(message),
                });
                proof {
                    assert forall|j: int| 0 <= j < out.deep_view().len()
                        implies #[trigger] out.deep_view()[j]
                            == before.push(OutgoingView {
                                to: rv[i as int],
                                bytes: spec_envelope_bytes(message@),
                            })[j] by {}
                    assert(out.deep_view() =~= before.push(OutgoingView {
                        to: rv[i as int],
                        bytes: spec_envelope_bytes(message@),
                    }));
                }
            }
            i = i + 1;
        }
        proof {
            assert(rv.take(rv.len() as int) =~= rv);
        }
        out
    }
}

} // verus!
