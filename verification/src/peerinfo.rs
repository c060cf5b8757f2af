//! The peerinfo binding: listing the peers the local daemon knows,
//! one reply frame per peer, ended by a frame of its own type.

use vstd::prelude::*;

use crate::data::{
    crockford_decode, crockford_encode, spec_byte_from_groups, spec_crockford, spec_crockford_err, spec_digit_vals,
    CrockfordDecodeError,
};
use crate::hello::Hello;
use crate::service::{spec_frame_bytes, write_message, ReadMessageError};
use crate::wire::{spec_u32_be, spec_u32_bytes, PayloadReader};

verus! {

/// Message type of the request that lists every known peer.
pub const MSG_PEERINFO_GET_ALL: u16 = 331;

/// Message type of one peer of the listing.
pub const MSG_PEERINFO_INFO: u16 = 332;

/// Message type of the frame that ends the listing.
pub const MSG_PEERINFO_INFO_END: u16 = 333;

/// The identity of a GNUnet peer: the 32 bytes of its public key.
pub struct PeerIdentity {
    data: Vec<u8>,
}

impl PeerIdentity {
    /// The 32 bytes of the identity.
    pub closed spec fn spec_bytes(&self) -> Seq<u8> {
        self.data@
    }

    /// A peer identity always holds exactly 32 bytes.
    pub open spec fn wf(&self) -> bool {
        self.spec_bytes().len() == 32
    }

    /// Wraps 32 bytes as a peer identity.
    pub fn from_bytes(data: Vec<u8>) -> (r: PeerIdentity)
        requires
            data@.len() == 32,
        ensures
            r.wf(),
            r.spec_bytes() == data@,
    {
        PeerIdentity { data }
    }

    /// Reads a peer identity off the front of a payload; `None` if
    /// fewer than 32 bytes remain.
    pub fn deserialize(r: &mut PayloadReader) -> (k: Option<PeerIdentity>)
        requires
            old(r).wf(),
        ensures
            final(r).wf(),
            final(r).data() == old(r).data(),
            match k {
                Some(pi) => {
                    &&& old(r).remaining().len() >= 32
                    &&& pi.wf()
                    &&& pi.spec_bytes() == old(r).remaining().subrange(0, 32)
                    &&& final(r).position() == old(r).position() + 32
                },
                None => {
                    &&& old(r).remaining().len() < 32
                    &&& final(r).position() == old(r).position()
                },
            },
    {
        match r.read_exact(32) {
            Some(v) => Some(PeerIdentity { data: v }),
            None => None,
        }
    }

    /// Appends the identity's 32 bytes to a wire payload.
    pub fn serialize(&self, w: &mut Vec<u8>)
        requires
            self.wf(),
        ensures
            final(w)@ == old(w)@ + self.spec_bytes(),
    {
        let mut i: usize = 0;
        while i < self.data.len()
            invariant
                i <= self.data@.len(),
                w@ == old(w)@ + self.data@.subrange(0, i as int),
            decreases self.data@.len() - i,
        {
            w.push(self.data[i]);
            i = i + 1;
            assert(w@ =~= old(w)@ + self.data@.subrange(0, i as int));
        }
        assert(final(w)@ =~= old(w)@ + self.spec_bytes());
    }

    /// The Crockford base32 text of the identity, 52 characters.
    pub fn to_text(&self) -> (r: String)
        requires
            self.wf(),
        ensures
            r@ == spec_crockford(self.spec_bytes()),
    {
        crockford_encode(&self.data)
    }

    /// Reads a peer identity back from its Crockford base32 text.
    pub fn parse(s: &str) -> (r: Result<PeerIdentity, CrockfordDecodeError>)
        ensures
            match r {
                Ok(pi) => {
                    &&& pi.wf()
                    &&& forall|j: int|
                        0 <= j < 32 ==> (#[trigger] pi.spec_bytes()[j]) as int
                            == spec_byte_from_groups(spec_digit_vals(s@), j)
                },
                Err(e) => spec_crockford_err(s@, 32, e),
            },
    {
        match crockford_decode(s, 32) {
            Ok(v) => Ok(PeerIdentity { data: v }),
            Err(e) => Err(e),
        }
    }
}

impl core::str::FromStr for PeerIdentity {
    type Err = CrockfordDecodeError;

    fn from_str(s: &str) -> Result<PeerIdentity, CrockfordDecodeError> {
        PeerIdentity::parse(s)
    }
}

/// Error starting a peer listing.
#[derive(Debug)]
pub enum IteratePeersError {
    /// The transport failed.
    Io { cause: std::io::Error },
    /// Connecting to the peerinfo service failed.
    Connect { cause: crate::service::ConnectError },
}

/// Error reading the next peer of a listing.
#[derive(Debug)]
pub enum NextPeerError {
    /// The reply does not hang together.
    InvalidResponse,
    /// A frame of a type the listing cannot contain.
    UnexpectedMessageType { ty: u16 },
    /// The transport failed for a reason other than a clean close.
    Io { cause: std::io::Error },
    /// A whole frame could not be read off the stream.
    ReadMessage { cause: ReadMessageError },
    /// The stream ended mid-record.
    Disconnected,
}

/// The request frame that asks the peerinfo service for every known
/// peer.
pub fn iterate_peers() -> (frame: Vec<u8>)
    ensures
        frame@ == spec_frame_bytes(MSG_PEERINFO_GET_ALL, spec_u32_bytes(0)),
{
    let mut w = write_message(8, MSG_PEERINFO_GET_ALL);
    w.write_u32_be(0);
    let frame = w.finish();
    proof {
        assert(frame@ =~= spec_frame_bytes(MSG_PEERINFO_GET_ALL, spec_u32_bytes(0)));
    }
    frame
}

/// Consumes one frame of a peer listing: a peer, the end of the
/// listing, or an error.  The HELLO a peer frame may carry after the
/// identity is not parsed and reads as `None`.
pub fn next_peer(tpe: u16, payload: &Vec<u8>) -> (r: Option<
    Result<(PeerIdentity, Option<Hello>), NextPeerError>,
>)
    ensures
        ({
            let pl = payload@;
            if tpe == MSG_PEERINFO_INFO_END {
                r is None
            } else if tpe != MSG_PEERINFO_INFO {
                r == Some(
                    Err::<(PeerIdentity, Option<Hello>), _>(
                        NextPeerError::UnexpectedMessageType { ty: tpe },
                    ),
                )
            } else if pl.len() < 4 {
                r == Some(
                    Err::<(PeerIdentity, Option<Hello>), _>(NextPeerError::Disconnected),
                )
            } else if spec_u32_be(pl[0], pl[1], pl[2], pl[3]) != 0 {
                r == Some(
                    Err::<(PeerIdentity, Option<Hello>), _>(NextPeerError::InvalidResponse),
                )
            } else if pl.len() < 36 {
                r matches Some(e) && e matches Err(NextPeerError::Io { .. })
            } else {
                r matches Some(ok) && ok matches Ok((pi, h)) && pi.wf() && pi.spec_bytes()
                    == pl.subrange(4, 36) && h is None
            }
        }),
{
    if tpe == MSG_PEERINFO_INFO_END {
        return None;
    }
    if tpe != MSG_PEERINFO_INFO {
        return Some(Err(NextPeerError::UnexpectedMessageType { ty: tpe }));
    }
    let mut pr = PayloadReader::new(crate::util::clone_bytes(payload));
    let x = match pr.read_u32_be() {
        Some(x) => x,
        None => {
            return Some(Err(NextPeerError::Disconnected));
        },
    };
    if x != 0 {
        return Some(Err(NextPeerError::InvalidResponse));
    }
    match PeerIdentity::deserialize(&mut pr) {
        Some(pi) => {
            proof {
                assert(pi.spec_bytes() =~= payload@.subrange(4, 36));
            }
            Some(Ok((pi, None)))
        },
        None => Some(Err(NextPeerError::Io { cause: eof_error() })),
    }
}

/// Relies on `std::io::Error::new`: wraps the unexpected-end error
/// kind, as the transport reports a stream that ran out mid-record.
#[verifier::external_body]
fn eof_error() -> std::io::Error {
    std::io::Error::new(std::io::ErrorKind::UnexpectedEof, "stream ended mid-record")
}

} // verus!
