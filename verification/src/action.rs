//! Effects decided by the protocol logic.

use vstd::prelude::*;

use crate::message::{Message, MessageView, PeerAddress};

verus! {

/// An outward effect decided by the state machines and performed by the
/// unverified I/O shell.
pub enum Action {
    /// Serialize `message` and write it to the channel of `to`.
    Send { to: PeerAddress, message: Message },
    /// Close the channel of `peer`, if one is open.
    CloseChannel { peer: PeerAddress },
}

/// Mathematical model of an [`Action`].
pub enum ActionView {
    Send { to: PeerAddress, message: MessageView },
    CloseChannel { peer: PeerAddress },
}

impl View for Action {
    type V = ActionView;

    open spec fn view(&self) -> ActionView {
        match self {
            Action::Send { to, message } => ActionView::Send { to: *to, message: message@ },
            Action::CloseChannel { peer } => ActionView::CloseChannel { peer: *peer },
        }
    }
}

impl DeepView for Action {
    type V = ActionView;

    open spec fn deep_view(&self) -> ActionView {
        self@
    }
}

} // verus!
