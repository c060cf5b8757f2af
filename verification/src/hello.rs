//! The HELLO a peer announces itself with: its identity, and whether
//! the announcement may be gossiped on.

use vstd::prelude::*;

use crate::peerinfo::PeerIdentity;
use crate::wire::{spec_u32_be, PayloadReader};

verus! {

/// Error reading a HELLO off a payload.
#[derive(Debug)]
pub enum HelloDeserializeError {
    /// The payload ended before the whole HELLO arrived.
    ShortMessage,
    /// The transport failed for a reason other than a clean close.
    Io { cause: std::io::Error },
}

/// A peer's announcement of itself.
pub struct Hello {
    /// Use this peer in friend-to-friend mode only; do not gossip
    /// this HELLO on.
    pub friend_only: bool,
    /// The identity of the peer.
    pub id: PeerIdentity,
}

impl Hello {
    /// Reads a HELLO off the front of a payload: a 32-bit
    /// friend-only flag, then the peer identity.
    pub fn deserialize(r: &mut PayloadReader) -> (h: Result<Hello, HelloDeserializeError>)
        requires
            old(r).wf(),
        ensures
            final(r).wf(),
            final(r).data() == old(r).data(),
            match h {
                Ok(h) => {
                    let rem = old(r).remaining();
                    &&& rem.len() >= 36
                    &&& h.friend_only == (spec_u32_be(rem[0], rem[1], rem[2], rem[3]) != 0)
                    &&& h.id.wf()
                    &&& h.id.spec_bytes() == rem.subrange(4, 36)
                    &&& final(r).position() == old(r).position() + 36
                },
                Err(HelloDeserializeError::ShortMessage) => old(r).remaining().len() < 36,
                Err(HelloDeserializeError::Io { .. }) => false,
            },
    {
        let flag = match r.read_u32_be() {
            Some(x) => x,
            None => {
                return Err(HelloDeserializeError::ShortMessage);
            },
        };
        let id = match PeerIdentity::deserialize(r) {
            Some(id) => id,
            None => {
                return Err(HelloDeserializeError::ShortMessage);
            },
        };
        Ok(Hello { friend_only: flag != 0, id })
    }
}

} // verus!
