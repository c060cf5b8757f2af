//! Big-endian integer layout on the wire, and a cursor for walking a
//! received payload byte by byte.
//!
//! Every GNUnet IPC message encodes its integers most significant byte
//! first.  The functions here relate those byte sequences to the
//! integer values they stand for, so that the codec and the individual
//! message parsers can state exactly which bytes they produce and read.

use vstd::prelude::*;

use crate::util::{
    spec_find_zero, spec_no_zero_before, string_from_utf8, ReadCString, ReadCStringError,
    ReadCStringWithLenError,
};

verus! {

/// The value of two bytes read as a big-endian `u16`.
pub open spec fn spec_u16_be(b0: u8, b1: u8) -> int {
    b0 * 0x100 + b1
}

/// The value of four bytes read as a big-endian `u32`.
pub open spec fn spec_u32_be(b0: u8, b1: u8, b2: u8, b3: u8) -> int {
    b0 * 0x1000000 + b1 * 0x10000 + b2 * 0x100 + b3
}

/// The value of eight bytes read as a big-endian `u64`.
pub open spec fn spec_u64_be(b0: u8, b1: u8, b2: u8, b3: u8, b4: u8, b5: u8, b6: u8, b7: u8) -> int {
    spec_u32_be(b0, b1, b2, b3) * 0x100000000 + spec_u32_be(b4, b5, b6, b7)
}

/// The two bytes of a `u16` in big-endian order.
pub open spec fn spec_u16_bytes(x: u16) -> Seq<u8> {
    seq![(x / 0x100) as u8, (x % 0x100) as u8]
}

/// The four bytes of a `u32` in big-endian order.
pub open spec fn spec_u32_bytes(x: u32) -> Seq<u8> {
    seq![
        (x / 0x1000000) as u8,
        ((x / 0x10000) % 0x100) as u8,
        ((x / 0x100) % 0x100) as u8,
        (x % 0x100) as u8,
    ]
}

/// Appends a `u16` to `buf`, most significant byte first.
pub fn push_u16_be(buf: &mut Vec<u8>, x: u16)
    ensures
        final(buf)@ == old(buf)@ + spec_u16_bytes(x),
{
    buf.push((x / 0x100) as u8);
    buf.push((x % 0x100) as u8);
    assert(buf@ =~= old(buf)@ + spec_u16_bytes(x));
}

/// Appends a `u32` to `buf`, most significant byte first.
pub fn push_u32_be(buf: &mut Vec<u8>, x: u32)
    ensures
        final(buf)@ == old(buf)@ + spec_u32_bytes(x),
{
    buf.push((x / 0x1000000) as u8);
    buf.push(((x / 0x10000) % 0x100) as u8);
    buf.push(((x / 0x100) % 0x100) as u8);
    buf.push((x % 0x100) as u8);
    assert(buf@ =~= old(buf)@ + spec_u32_bytes(x));
}

/// A read cursor over one received payload, held as plain bytes.
///
/// `read_message` hands the payload of a frame to the caller as one of
/// these; the message parsers then take the fields off the front.  A
/// read past the end stands for the remote side having closed the
/// stream mid-message, and leaves the cursor unmoved.
pub struct PayloadReader {
    buf: Vec<u8>,
    pos: usize,
}

impl PayloadReader {
    /// The whole underlying byte string.
    pub closed spec fn data(&self) -> Seq<u8> {
        self.buf@
    }

    /// How many bytes have been taken off the front already.
    pub closed spec fn position(&self) -> int {
        self.pos as int
    }

    /// The cursor never points past the end of its buffer.
    pub open spec fn wf(&self) -> bool {
        0 <= self.position() <= self.data().len()
    }

    /// The bytes not yet read.
    pub open spec fn remaining(&self) -> Seq<u8>
        recommends
            self.wf(),
    {
        self.data().subrange(self.position(), self.data().len() as int)
    }

    /// Wraps a byte string in a cursor positioned at its start.
    pub fn new(buf: Vec<u8>) -> (r: PayloadReader)
        ensures
            r.wf(),
            r.data() == buf@,
            r.position() == 0,
    {
        PayloadReader { buf, pos: 0 }
    }

    /// How many bytes are left to read.
    pub fn remaining_len(&self) -> (n: usize)
        requires
            self.wf(),
        ensures
            n == self.remaining().len(),
    {
        self.buf.len() - self.pos
    }

    /// Reads the next byte; `None` once the payload is exhausted.
    pub fn read_u8(&mut self) -> (r: Option<u8>)
        requires
            old(self).wf(),
        ensures
            final(self).wf(),
            final(self).data() == old(self).data(),
            match r {
                Some(b) => {
                    &&& old(self).remaining().len() > 0
                    &&& b == old(self).remaining()[0]
                    &&& final(self).position() == old(self).position() + 1
                },
                None => {
                    &&& old(self).remaining().len() == 0
                    &&& final(self).position() == old(self).position()
                },
            },
    {
        if self.pos < self.buf.len() {
            let b = self.buf[self.pos];
            self.pos = self.pos + 1;
            Some(b)
        } else {
            None
        }
    }

    /// Reads a big-endian `u16`; `None` if fewer than two bytes remain.
    pub fn read_u16_be(&mut self) -> (r: Option<u16>)
        requires
            old(self).wf(),
        ensures
            final(self).wf(),
            final(self).data() == old(self).data(),
            match r {
                Some(x) => {
                    &&& old(self).remaining().len() >= 2
                    &&& x == spec_u16_be(old(self).remaining()[0], old(self).remaining()[1])
                    &&& final(self).position() == old(self).position() + 2
                },
                None => {
                    &&& old(self).remaining().len() < 2
                    &&& final(self).position() == old(self).position()
                },
            },
    {
        if self.buf.len() - self.pos >= 2 {
            let b0 = self.buf[self.pos];
            let b1 = self.buf[self.pos + 1];
            self.pos = self.pos + 2;
            Some((b0 as u16) * 0x100 + (b1 as u16))
        } else {
            None
        }
    }

    /// Reads a big-endian `u32`; `None` if fewer than four bytes remain.
    pub fn read_u32_be(&mut self) -> (r: Option<u32>)
        requires
            old(self).wf(),
        ensures
            final(self).wf(),
            final(self).data() == old(self).data(),
            match r {
                Some(x) => {
                    &&& old(self).remaining().len() >= 4
                    &&& x == spec_u32_be(
                        old(self).remaining()[0],
                        old(self).remaining()[1],
                        old(self).remaining()[2],
                        old(self).remaining()[3],
                    )
                    &&& final(self).position() == old(self).position() + 4
                },
                None => {
                    &&& old(self).remaining().len() < 4
                    &&& final(self).position() == old(self).position()
                },
            },
    {
        if self.buf.len() - self.pos >= 4 {
            let b0 = self.buf[self.pos];
            let b1 = self.buf[self.pos + 1];
            let b2 = self.buf[self.pos + 2];
            let b3 = self.buf[self.pos + 3];
            self.pos = self.pos + 4;
            Some(
                (b0 as u32) * 0x1000000 + (b1 as u32) * 0x10000 + (b2 as u32) * 0x100
                    + (b3 as u32),
            )
        } else {
            None
        }
    }

    /// Reads a big-endian `u64`; `None` if fewer than eight bytes remain.
    pub fn read_u64_be(&mut self) -> (r: Option<u64>)
        requires
            old(self).wf(),
        ensures
            final(self).wf(),
            final(self).data() == old(self).data(),
            match r {
                Some(x) => {
                    &&& old(self).remaining().len() >= 8
                    &&& x == spec_u64_be(
                        old(self).remaining()[0],
                        old(self).remaining()[1],
                        old(self).remaining()[2],
                        old(self).remaining()[3],
                        old(self).remaining()[4],
                        old(self).remaining()[5],
                        old(self).remaining()[6],
                        old(self).remaining()[7],
                    )
                    &&& final(self).position() == old(self).position() + 8
                },
                None => {
                    &&& old(self).remaining().len() < 8
                    &&& final(self).position() == old(self).position()
                },
            },
    {
        if self.buf.len() - self.pos >= 8 {
            let hi = self.read_u32_be().unwrap();
            let lo = self.read_u32_be().unwrap();
            Some((hi as u64) * 0x100000000 + (lo as u64))
        } else {
            None
        }
    }

    /// Reads exactly `n` bytes; `None` if fewer remain.
    pub fn read_exact(&mut self, n: usize) -> (r: Option<Vec<u8>>)
        requires
            old(self).wf(),
        ensures
            final(self).wf(),
            final(self).data() == old(self).data(),
            match r {
                Some(v) => {
                    &&& old(self).remaining().len() >= n
                    &&& v@ == old(self).remaining().subrange(0, n as int)
                    &&& final(self).position() == old(self).position() + n
                },
                None => {
                    &&& old(self).remaining().len() < n
                    &&& final(self).position() == old(self).position()
                },
            },
    {
        if self.buf.len() - self.pos >= n {
            let mut v: Vec<u8> = Vec::new();
            let mut i: usize = 0;
            while i < n
                invariant
                    self.wf(),
                    self.data() == old(self).data(),
                    self.position() == old(self).position(),
                    i <= n,
                    old(self).remaining().len() >= n,
                    self.data().len() <= usize::MAX,
                    v@ == old(self).remaining().subrange(0, i as int),
                decreases n - i,
            {
                assert(self.position() + n <= self.data().len());
                v.push(self.buf[self.pos + i]);
                i = i + 1;
                assert(v@ =~= old(self).remaining().subrange(0, i as int));
            }
            self.pos = self.pos + n;
            Some(v)
        } else {
            None
        }
    }
}

/// Once a prefix holds no zero byte, the first zero lies at or past
/// its end.
proof fn lemma_find_zero_skip(s: Seq<u8>, i: int)
    requires
        0 <= i <= s.len(),
        forall|j: int| 0 <= j < i ==> (#[trigger] s[j]) != 0,
    ensures
        spec_find_zero(s, 0) == spec_find_zero(s, i),
    decreases i,
{
    if i > 0 {
        lemma_find_zero_skip(s, i - 1);
    }
}

impl ReadCString for PayloadReader {
    open spec fn cs_data(&self) -> Seq<u8> {
        self.data()
    }

    open spec fn cs_position(&self) -> int {
        self.position()
    }

    open spec fn cs_wf(&self) -> bool {
        self.wf()
    }

    fn read_c_string(&mut self) -> (r: Result<String, ReadCStringError>) {
        let ghost rem = old(self).remaining();
        let mut v: Vec<u8> = Vec::new();
        loop
            invariant
                self.wf(),
                self.data() == old(self).data(),
                rem == old(self).remaining(),
                self.position() == old(self).position() + v@.len(),
                v@.len() <= rem.len(),
                v@ == rem.subrange(0, v@.len() as int),
                forall|j: int| 0 <= j < v@.len() ==> (#[trigger] rem[j]) != 0,
            decreases rem.len() - v@.len(),
        {
            let ghost k = v@.len() as int;
            match self.read_u8() {
                None => {
                    proof {
                        lemma_find_zero_skip(rem, k);
                    }
                    return Err(ReadCStringError::Disconnected);
                },
                Some(b) => {
                    proof {
                        assert(b == rem[k]);
                    }
                    if b == 0 {
                        proof {
                            lemma_find_zero_skip(rem, k);
                            assert(spec_find_zero(rem, 0) == k);
                            assert(v@ =~= rem.subrange(0, k));
                        }
                        match string_from_utf8(v) {
                            Some(s) => {
                                return Ok(s);
                            },
                            None => {
                                return Err(ReadCStringError::FromUtf8);
                            },
                        }
                    }
                    v.push(b);
                    proof {
                        assert(v@ =~= rem.subrange(0, v@.len() as int));
                    }
                },
            }
        }
    }

    fn read_c_string_with_len(&mut self, len: usize) -> (r: Result<
        String,
        ReadCStringWithLenError,
    >) {
        let ghost rem = old(self).remaining();
        let mut v: Vec<u8> = Vec::new();
        while v.len() < len
            invariant
                self.wf(),
                self.data() == old(self).data(),
                rem == old(self).remaining(),
                self.position() == old(self).position() + v@.len(),
                v@.len() <= rem.len(),
                v@.len() <= len,
                v@ == rem.subrange(0, v@.len() as int),
                forall|j: int| 0 <= j < v@.len() ==> (#[trigger] rem[j]) != 0,
            decreases len - v@.len(),
        {
            let ghost k = v@.len() as int;
            match self.read_u8() {
                None => {
                    proof {
                        assert(v@.len() == rem.len());
                        assert(spec_no_zero_before(rem, rem.len() as int));
                    }
                    return Err(ReadCStringWithLenError::Disconnected);
                },
                Some(b) => {
                    proof {
                        assert(b == rem[k]);
                    }
                    if b == 0 {
                        proof {
                            assert(spec_no_zero_before(rem, k));
                        }
                        return Err(ReadCStringWithLenError::InteriorNul { pos: v.len() });
                    }
                    v.push(b);
                    proof {
                        assert(v@ =~= rem.subrange(0, v@.len() as int));
                    }
                },
            }
        }
        match self.read_u8() {
            None => {
                proof {
                    assert(rem.len() == len);
                    assert(spec_no_zero_before(rem, rem.len() as int));
                }
                Err(ReadCStringWithLenError::Disconnected)
            },
            Some(b) => {
                proof {
                    assert(b == rem[len as int]);
                }
                if b != 0 {
                    return Err(ReadCStringWithLenError::NoTerminator);
                }
                proof {
                    assert(v@ =~= rem.subrange(0, len as int));
                }
                match string_from_utf8(v) {
                    Some(s) => Ok(s),
                    None => Err(ReadCStringWithLenError::FromUtf8),
                }
            },
        }
    }
}

} // verus!
