//! The parts of the GNUnet IPC protocol that are common to all
//! services: the length-prefixed frame codec and the result values by
//! which a dispatch-loop handler steers its loop.
//!
//! A frame on the wire is a big-endian `u16` total length (counting
//! the four header bytes themselves), a big-endian `u16` message type,
//! and `total_length - 4` payload bytes.  A declared length below four
//! is a protocol violation, not an empty message.

use vstd::prelude::*;

use crate::configuration::CfgGetFilenameError;
use crate::wire::{spec_u16_be, spec_u16_bytes, PayloadReader};

verus! {

/// The length and type fields together occupy four bytes, and the
/// total length counts them, so no valid frame declares less.
pub const MIN_FRAME_LEN: u16 = 4;

/// Standard library error value carried inside the transport error
/// variants; opaque to the verified code, which only moves it.
#[verifier::external_type_specification]
#[verifier::external_body]
pub struct ExIoError(std::io::Error);

/// Returned by a dispatch-loop handler to steer the loop: keep
/// reading, give the connection up for reconnection, or stop.
#[derive(Copy, Clone)]
pub enum ProcessMessageResult {
    /// Keep reading frames and handing them to the handler.
    Continue,
    /// Stop and hand the connection back for a reconnection attempt.
    Reconnect,
    /// Stop cleanly.
    Shutdown,
}

/// Error produced when a frame cannot be read off the stream.
#[derive(Debug)]
pub enum ReadMessageError {
    /// The transport failed for a reason other than a clean close.
    Io { cause: std::io::Error },
    /// The declared total length was below the four-byte minimum.
    ShortMessage { len: u16 },
    /// The stream ended before a whole frame was available.
    Disconnected,
}

/// Error produced when connecting to a named service.
#[derive(Debug)]
pub enum ConnectError {
    /// The configuration has no address entry for the service.
    NotConfigured { cause: CfgGetFilenameError },
    /// Opening the transport itself failed.
    Io { cause: std::io::Error },
}

/// The bytes of one whole frame: total length, type, payload.
pub open spec fn spec_frame_bytes(tpe: u16, payload: Seq<u8>) -> Seq<u8> {
    spec_u16_bytes((payload.len() + 4) as u16) + spec_u16_bytes(tpe) + payload
}

/// What reading one frame at position `start` of a byte stream yields.
///
/// The sequence `stream` holds every byte the transport will deliver
/// before end of input.  On success the result carries the message
/// type, the payload bytes, and the position just past the frame.
pub open spec fn spec_read_message(stream: Seq<u8>, start: int) -> Result<
    (u16, Seq<u8>, int),
    ReadMessageError,
> {
    if stream.len() - start < 2 {
        Err(ReadMessageError::Disconnected)
    } else {
        let decl = spec_u16_be(stream[start], stream[start + 1]);
        if decl < 4 {
            Err(ReadMessageError::ShortMessage { len: decl as u16 })
        } else if stream.len() - start < decl {
            Err(ReadMessageError::Disconnected)
        } else {
            Ok(
                (
                    spec_u16_be(stream[start + 2], stream[start + 3]) as u16,
                    stream.subrange(start + 4, start + decl),
                    start + decl,
                ),
            )
        }
    }
}

/// Reads one frame from `stream` starting at `start`.
///
/// `stream` holds the bytes the transport delivered before end of
/// input.  Returns the message type, a cursor over the payload, and
/// the position of the next frame; or the error that
/// `spec_read_message` assigns to this position of this stream.
pub fn read_message(stream: &Vec<u8>, start: usize) -> (r: Result<
    (u16, PayloadReader, usize),
    ReadMessageError,
>)
    requires
        start <= stream@.len(),
    ensures
        match r {
            Ok((tpe, pr, next)) => {
                &&& pr.wf()
                &&& pr.position() == 0
                &&& spec_read_message(stream@, start as int) == Ok::<_, ReadMessageError>(
                    (tpe, pr.data(), next as int),
                )
                &&& next <= stream@.len()
            },
            Err(e) => spec_read_message(stream@, start as int) == Err::<
                (u16, Seq<u8>, int),
                _,
            >(e),
        },
{
    if stream.len() - start < 2 {
        return Err(ReadMessageError::Disconnected);
    }
    let len: u16 = (stream[start] as u16) * 0x100 + (stream[start + 1] as u16);
    if len < MIN_FRAME_LEN {
        return Err(ReadMessageError::ShortMessage { len });
    }
    if stream.len() - start < len as usize {
        return Err(ReadMessageError::Disconnected);
    }
    let tpe: u16 = (stream[start + 2] as u16) * 0x100 + (stream[start + 3] as u16);
    let end = start + len as usize;
    let mut payload: Vec<u8> = Vec::new();
    let mut i: usize = start + 4;
    while i < end
        invariant
            start + 4 <= i <= end,
            end <= stream@.len() <= usize::MAX,
            end == start + spec_u16_be(stream@[start as int], stream@[start + 1]),
            payload@ == stream@.subrange(start + 4, i as int),
        decreases end - i,
    {
        payload.push(stream[i]);
        i = i + 1;
        assert(payload@ =~= stream@.subrange(start + 4, i as int));
    }
    assert(payload@ =~= stream@.subrange(
        start + 4,
        start + spec_u16_be(stream@[start as int], stream@[start + 1]),
    ));
    Ok((tpe, PayloadReader::new(payload), end))
}

/// Encodes one whole frame around `payload`.
///
/// The declared total length is `payload.len() + 4`, which the caller
/// keeps within the `u16` range.
pub fn encode_frame(tpe: u16, payload: &Vec<u8>) -> (frame: Vec<u8>)
    requires
        payload@.len() + 4 <= 0xffff,
    ensures
        frame@ == spec_frame_bytes(tpe, payload@),
{
    let mut w = write_message((payload.len() + 4) as u16, tpe);
    w.write_all(payload);
    w.finish()
}

/// Accumulates the header and payload of one outgoing frame.
///
/// Created by `write_message` with the total length declared up
/// front; accepts exactly `declared - 4` further payload bytes, and
/// `finish` hands the whole frame back once they have all been
/// written, so the transport can send it in one call.
pub struct MessageWriter {
    buf: Vec<u8>,
    declared: u16,
    tpe: u16,
}

impl MessageWriter {
    /// The total length declared in the header.
    pub closed spec fn declared_len(&self) -> u16 {
        self.declared
    }

    /// The message type declared in the header.
    pub closed spec fn msg_type(&self) -> u16 {
        self.tpe
    }

    /// The payload bytes written so far.
    pub closed spec fn payload(&self) -> Seq<u8> {
        self.buf@.skip(4)
    }

    /// The buffer always holds the four header bytes followed by at
    /// most `declared - 4` payload bytes.
    pub closed spec fn wf(&self) -> bool {
        &&& self.declared >= 4
        &&& 4 <= self.buf@.len() <= self.declared
        &&& self.buf@.subrange(0, 2) == spec_u16_bytes(self.declared)
        &&& self.buf@.subrange(2, 4) == spec_u16_bytes(self.tpe)
    }

    /// How many payload bytes are still owed before `finish`.
    pub open spec fn space(&self) -> int {
        self.declared_len() - 4 - self.payload().len()
    }

    /// Appends one byte to the payload.
    pub fn write_u8(&mut self, b: u8)
        requires
            old(self).wf(),
            old(self).space() >= 1,
        ensures
            final(self).wf(),
            final(self).declared_len() == old(self).declared_len(),
            final(self).msg_type() == old(self).msg_type(),
            final(self).payload() == old(self).payload() + seq![b],
    {
        self.buf.push(b);
        assert(final(self).payload() =~= old(self).payload() + seq![b]);
        assert(final(self).buf@.subrange(0, 2) =~= old(self).buf@.subrange(0, 2));
        assert(final(self).buf@.subrange(2, 4) =~= old(self).buf@.subrange(2, 4));
    }

    /// Appends a big-endian `u16` to the payload.
    pub fn write_u16_be(&mut self, x: u16)
        requires
            old(self).wf(),
            old(self).space() >= 2,
        ensures
            final(self).wf(),
            final(self).declared_len() == old(self).declared_len(),
            final(self).msg_type() == old(self).msg_type(),
            final(self).payload() == old(self).payload() + spec_u16_bytes(x),
    {
        self.write_u8((x / 0x100) as u8);
        self.write_u8((x % 0x100) as u8);
        assert(final(self).payload() =~= old(self).payload() + spec_u16_bytes(x));
    }

    /// Appends a big-endian `u32` to the payload.
    pub fn write_u32_be(&mut self, x: u32)
        requires
            old(self).wf(),
            old(self).space() >= 4,
        ensures
            final(self).wf(),
            final(self).declared_len() == old(self).declared_len(),
            final(self).msg_type() == old(self).msg_type(),
            final(self).payload() == old(self).payload() + crate::wire::spec_u32_bytes(x),
    {
        self.write_u8((x / 0x1000000) as u8);
        self.write_u8(((x / 0x10000) % 0x100) as u8);
        self.write_u8(((x / 0x100) % 0x100) as u8);
        self.write_u8((x % 0x100) as u8);
        assert(final(self).payload() =~= old(self).payload() + crate::wire::spec_u32_bytes(x));
    }

    /// Appends a byte string to the payload.
    pub fn write_all(&mut self, bytes: &Vec<u8>)
        requires
            old(self).wf(),
            old(self).space() >= bytes@.len(),
        ensures
            final(self).wf(),
            final(self).declared_len() == old(self).declared_len(),
            final(self).msg_type() == old(self).msg_type(),
            final(self).payload() == old(self).payload() + bytes@,
    {
        let mut i: usize = 0;
        while i < bytes.len()
            invariant
                i <= bytes@.len(),
                self.wf(),
                self.declared_len() == old(self).declared_len(),
                self.msg_type() == old(self).msg_type(),
                self.space() >= bytes@.len() - i,
                self.payload() == old(self).payload() + bytes@.subrange(0, i as int),
            decreases bytes@.len() - i,
        {
            self.write_u8(bytes[i]);
            i = i + 1;
            assert(self.payload() =~= old(self).payload() + bytes@.subrange(0, i as int));
        }
        assert(final(self).payload() =~= old(self).payload() + bytes@);
    }

    /// Hands back the finished frame, header plus payload, once
    /// exactly the declared number of bytes has been accumulated.
    /// Writing fewer bytes than declared is a caller bug, kept out by
    /// the precondition.
    pub fn finish(self) -> (frame: Vec<u8>)
        requires
            self.wf(),
            self.space() == 0,
        ensures
            frame@ == spec_frame_bytes(self.msg_type(), self.payload()),
            frame@.len() == self.declared_len(),
    {
        proof {
            assert(self.buf@ =~= spec_frame_bytes(self.msg_type(), self.payload()));
        }
        self.buf
    }
}

/// Starts a frame of `len` total bytes carrying message type `tpe`.
///
/// The two header fields are laid down immediately; the caller then
/// writes exactly `len - 4` payload bytes and calls `finish`.
pub fn write_message(len: u16, tpe: u16) -> (w: MessageWriter)
    requires
        len >= 4,
    ensures
        w.wf(),
        w.declared_len() == len,
        w.msg_type() == tpe,
        w.payload() == Seq::<u8>::empty(),
{
    let mut buf: Vec<u8> = Vec::new();
    crate::wire::push_u16_be(&mut buf, len);
    crate::wire::push_u16_be(&mut buf, tpe);
    let w = MessageWriter { buf, declared: len, tpe };
    assert(w.buf@.subrange(0, 2) =~= spec_u16_bytes(len));
    assert(w.buf@.subrange(2, 4) =~= spec_u16_bytes(tpe));
    assert(w.payload() =~= Seq::<u8>::empty());
    w
}

/// Framing round trip: any type and payload that fit in one frame are
/// read back exactly, with the read position landing just past the
/// frame.
pub proof fn lemma_frame_round_trip(tpe: u16, payload: Seq<u8>)
    requires
        payload.len() + 4 <= 0xffff,
    ensures
        spec_read_message(spec_frame_bytes(tpe, payload), 0) == Ok::<_, ReadMessageError>(
            (tpe, payload, payload.len() + 4 as int),
        ),
{
    let s = spec_frame_bytes(tpe, payload);
    let decl = (payload.len() + 4) as u16;
    assert(s[0] == spec_u16_bytes(decl)[0]);
    assert(s[1] == spec_u16_bytes(decl)[1]);
    assert(s[2] == spec_u16_bytes(tpe)[0]);
    assert(s[3] == spec_u16_bytes(tpe)[1]);
    assert(spec_u16_be(s[0], s[1]) == decl);
    assert(spec_u16_be(s[2], s[3]) == tpe);
    assert(s.subrange(4, decl as int) =~= payload);
}

/// Minimum-length rejection: a declared total length below four is
/// refused outright, and the outcome depends on the two length bytes
/// alone — no byte beyond them is consumed.
pub proof fn lemma_short_declared_length_rejected(s1: Seq<u8>, s2: Seq<u8>, start1: int, start2: int)
    requires
        0 <= start1, 0 <= start2,
        s1.len() - start1 >= 2,
        s2.len() - start2 >= 2,
        s1[start1] == s2[start2],
        s1[start1 + 1] == s2[start2 + 1],
        spec_u16_be(s1[start1], s1[start1 + 1]) < 4,
    ensures
        spec_read_message(s1, start1) == Err::<(u16, Seq<u8>, int), _>(
            ReadMessageError::ShortMessage { len: spec_u16_be(s1[start1], s1[start1 + 1]) as u16 },
        ),
        spec_read_message(s1, start1) == spec_read_message(s2, start2),
{
}

/// Truncated-stream detection: a stream that ends before the declared
/// total length is reported as a disconnect, not as a transport error.
pub proof fn lemma_truncated_stream_disconnects(s: Seq<u8>, start: int)
    requires
        0 <= start,
        s.len() - start >= 2,
        spec_u16_be(s[start], s[start + 1]) >= 4,
        s.len() - start < spec_u16_be(s[start], s[start + 1]),
    ensures
        spec_read_message(s, start) == Err::<(u16, Seq<u8>, int), _>(
            ReadMessageError::Disconnected,
        ),
{
}

/// A decoded frame sits between its start and the stream's end:
/// reading it advances the position by at least the four header
/// bytes and never past the end.
pub proof fn lemma_read_message_bounds(stream: Seq<u8>, start: int)
    ensures
        spec_read_message(stream, start) matches Ok((tpe, pl, next)) ==> start + 4 <= next
            <= stream.len(),
{
}

/// Bytes appended after a whole frame do not change how it reads.
pub proof fn lemma_read_message_append(stream: Seq<u8>, ext: Seq<u8>, start: int)
    requires
        0 <= start,
        spec_read_message(stream, start) is Ok,
    ensures
        spec_read_message(stream + ext, start) == spec_read_message(stream, start),
{
    lemma_read_message_bounds(stream, start);
    let s2 = stream + ext;
    let decl = spec_u16_be(stream[start], stream[start + 1]);
    assert(s2[start] == stream[start]);
    assert(s2[start + 1] == stream[start + 1]);
    assert(s2[start + 2] == stream[start + 2]);
    assert(s2[start + 3] == stream[start + 3]);
    assert(s2.subrange(start + 4, start + decl) =~= stream.subrange(start + 4, start + decl));
}

/// Reading past a fixed prefix mirrors reading the suffix alone,
/// with every position shifted by the prefix's length.
pub proof fn lemma_read_message_shift(a: Seq<u8>, b: Seq<u8>, p: int)
    requires
        0 <= p,
    ensures
        spec_read_message(a + b, a.len() + p) == (match spec_read_message(b, p) {
            Ok((tpe, pl, next)) => Ok((tpe, pl, next + a.len())),
            Err(e) => Err(e),
        }),
{
    let s = a + b;
    let q = a.len() + p;
    assert(s.len() - q == b.len() - p);
    if b.len() - p >= 2 {
        assert(s[q] == b[p]);
        assert(s[q + 1] == b[p + 1]);
        let decl = spec_u16_be(b[p], b[p + 1]);
        if decl >= 4 && b.len() - p >= decl {
            assert(s[q + 2] == b[p + 2]);
            assert(s[q + 3] == b[p + 3]);
            assert(s.subrange(q + 4, q + decl) =~= b.subrange(p + 4, p + decl));
        }
    }
}

} // verus!

