//! The transport binding: one request/reply round trip that fetches
//! the local peer's own HELLO.

use vstd::prelude::*;

use crate::hello::{Hello, HelloDeserializeError};
use crate::service::{spec_frame_bytes, write_message, ReadMessageError};
use crate::wire::{spec_u32_bytes, PayloadReader};

verus! {

/// Message type of the request that attaches to the transport
/// service.
pub const MSG_TRANSPORT_START: u16 = 360;

/// Message type of a HELLO.
pub const MSG_HELLO: u16 = 17;

/// Error attaching to the transport service.
#[derive(Debug)]
pub enum TransportServiceInitError {
    /// The service answered with a frame that is no HELLO.
    NonHelloMessage { ty: u16 },
    /// The transport failed for a reason other than a clean close.
    Io { cause: std::io::Error },
    /// A whole frame could not be read off the stream.
    ReadMessage { cause: ReadMessageError },
    /// Connecting to the service failed.
    Connect { cause: crate::service::ConnectError },
    /// The HELLO of the reply could not be read.
    HelloDeserialize { cause: HelloDeserializeError },
}

/// A handle on the transport service: the local peer's own HELLO, as
/// the service announced it.
pub struct TransportService {
    our_hello: Hello,
}

impl TransportService {
    /// The HELLO the service announced.
    pub closed spec fn spec_hello(&self) -> Hello {
        self.our_hello
    }

    /// The local peer's own HELLO.
    pub fn hello(&self) -> (r: &Hello)
        ensures
            *r == self.spec_hello(),
    {
        &self.our_hello
    }

    /// Surrenders the local peer's own HELLO.
    pub fn into_hello(self) -> (r: Hello)
        ensures
            r == self.spec_hello(),
    {
        self.our_hello
    }

    /// The frame that attaches to the service: a zero options word
    /// and the all-zero peer identity.
    pub fn start_request_frame() -> (frame: Vec<u8>)
        ensures
            frame@ == spec_frame_bytes(
                MSG_TRANSPORT_START,
                spec_u32_bytes(0) + Seq::new(32, |i: int| 0u8),
            ),
    {
        let mut w = write_message(4 + 4 + 32, MSG_TRANSPORT_START);
        w.write_u32_be(0);
        let mut zeros: Vec<u8> = Vec::new();
        let mut i: usize = 0;
        while i < 32
            invariant
                i <= 32,
                zeros@ == Seq::new(i as nat, |j: int| 0u8),
            decreases 32 - i,
        {
            zeros.push(0);
            i = i + 1;
            assert(zeros@ =~= Seq::new(i as nat, |j: int| 0u8));
        }
        w.write_all(&zeros);
        let frame = w.finish();
        proof {
            assert(frame@ =~= spec_frame_bytes(
                MSG_TRANSPORT_START,
                spec_u32_bytes(0) + Seq::new(32, |i: int| 0u8),
            ));
        }
        frame
    }

    /// Consumes the reply to the start request: a HELLO frame
    /// carrying the local peer's own announcement.
    pub fn from_reply(tpe: u16, payload: &Vec<u8>) -> (r: Result<
        TransportService,
        TransportServiceInitError,
    >)
        ensures
            match r {
                Ok(ts) => {
                    &&& tpe == MSG_HELLO
                    &&& payload@.len() >= 36
                    &&& ts.spec_hello().friend_only == (crate::wire::spec_u32_be(
                        payload@[0],
                        payload@[1],
                        payload@[2],
                        payload@[3],
                    ) != 0)
                    &&& ts.spec_hello().id.wf()
                    &&& ts.spec_hello().id.spec_bytes() == payload@.subrange(4, 36)
                },
                Err(TransportServiceInitError::NonHelloMessage { ty }) => ty == tpe && tpe
                    != MSG_HELLO,
                Err(TransportServiceInitError::HelloDeserialize { .. }) => tpe == MSG_HELLO
                    && payload@.len() < 36,
                Err(_) => false,
            },
    {
        if tpe != MSG_HELLO {
            return Err(TransportServiceInitError::NonHelloMessage { ty: tpe });
        }
        let mut pr = PayloadReader::new(crate::util::clone_bytes(payload));
        match Hello::deserialize(&mut pr) {
            Ok(h) => Ok(TransportService { our_hello: h }),
            Err(e) => Err(TransportServiceInitError::HelloDeserialize { cause: e }),
        }
    }
}

} // verus!
