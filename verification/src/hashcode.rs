//! The 512-bit hash codes GNUnet keys its tables by: 64 opaque
//! bytes, printed as Crockford base32, with the bit and word
//! operations the routing logic uses.

use vstd::prelude::*;

use crypto::digest::Digest;
use crypto::sha2::Sha512;

use crate::data::{
    crockford_decode, crockford_encode, spec_byte_from_groups, spec_crockford, spec_crockford_err, spec_digit_vals,
    spec_p2, CrockfordDecodeError,
};

verus! {

/// The SHA-512 digest of a byte string: 64 bytes that depend on the
/// input alone.
pub uninterp spec fn sha512_of(input: Seq<u8>) -> Seq<u8>;

/// Relies on rust-crypto's `Sha512`: the digest is a function of the
/// input bytes alone, and is always 64 bytes long.
#[verifier::external_body]
fn sha512(input: &Vec<u8>) -> (r: Vec<u8>)
    ensures
        r@ == sha512_of(input@),
        r@.len() == 64,
{
    let mut hasher = Sha512::new();
    hasher.input(&input[..]);
    let mut out = vec![0u8; 64];
    hasher.result(&mut out[..]);
    out
}

/// A 512-bit hash code, held as its 64 bytes.
pub struct HashCode {
    data: Vec<u8>,
}

/// The `u32` at word position `i` of a byte string, least
/// significant byte first.
pub open spec fn spec_word_le(b: Seq<u8>, i: int) -> int {
    b[4 * i] + 0x100 * b[4 * i + 1] + 0x10000 * b[4 * i + 2] + 0x1000000 * b[4 * i + 3]
}

/// Bit `idx` of a byte string, counting within each byte from the
/// least significant bit.
pub open spec fn spec_bit_le(b: Seq<u8>, idx: int) -> bool {
    (b[idx / 8] as int / spec_p2(idx % 8)) % 2 == 1
}

/// Word-wise comparison of two hash codes relative to `s` in the XOR
/// metric, scanning the `i` most significant words downward.
pub open spec fn spec_xor_cmp_from(s: Seq<u8>, h0: Seq<u8>, h1: Seq<u8>, i: int) -> core::cmp::Ordering
    decreases i,
{
    if i <= 0 {
        core::cmp::Ordering::Equal
    } else {
        let d0 = (spec_word_le(h0, i - 1) as u32) ^ (spec_word_le(s, i - 1) as u32);
        let d1 = (spec_word_le(h1, i - 1) as u32) ^ (spec_word_le(s, i - 1) as u32);
        if d0 < d1 {
            core::cmp::Ordering::Less
        } else if d0 > d1 {
            core::cmp::Ordering::Greater
        } else {
            spec_xor_cmp_from(s, h0, h1, i - 1)
        }
    }
}

impl HashCode {
    /// The 64 bytes of the hash code.
    pub closed spec fn spec_bytes(&self) -> Seq<u8> {
        self.data@
    }

    /// A hash code always holds exactly 64 bytes.
    pub open spec fn wf(&self) -> bool {
        self.spec_bytes().len() == 64
    }

    /// Wraps 64 bytes as a hash code.
    pub fn from_bytes(data: Vec<u8>) -> (r: HashCode)
        requires
            data@.len() == 64,
        ensures
            r.wf(),
            r.spec_bytes() == data@,
    {
        HashCode { data }
    }

    /// A copy of the 64 bytes of the hash code.
    pub fn to_bytes(&self) -> (r: Vec<u8>)
        requires
            self.wf(),
        ensures
            r@ == self.spec_bytes(),
    {
        let mut out: Vec<u8> = Vec::new();
        let mut i: usize = 0;
        while i < self.data.len()
            invariant
                i <= self.data@.len(),
                out@ == self.data@.subrange(0, i as int),
            decreases self.data@.len() - i,
        {
            out.push(self.data[i]);
            i = i + 1;
            assert(out@ =~= self.data@.subrange(0, i as int));
        }
        assert(out@ =~= self.data@);
        out
    }

    /// The SHA-512 hash of a byte string.
    pub fn from_buffer(buf: &Vec<u8>) -> (r: HashCode)
        ensures
            r.wf(),
            r.spec_bytes() == sha512_of(buf@),
    {
        HashCode { data: sha512(buf) }
    }

    /// The `u32` at word position `i`, least significant byte first.
    fn word(&self, i: usize) -> (w: u32)
        requires
            self.wf(),
            i < 16,
        ensures
            w as int == spec_word_le(self.spec_bytes(), i as int),
    {
        let b0 = self.data[4 * i] as u32;
        let b1 = self.data[4 * i + 1] as u32;
        let b2 = self.data[4 * i + 2] as u32;
        let b3 = self.data[4 * i + 3] as u32;
        b0 + 0x100 * b1 + 0x10000 * b2 + 0x1000000 * b3
    }

    /// The distance measure GNUnet derives from word one of the two
    /// codes: the product of the upper halves of the two wrapping
    /// differences.
    pub fn distance(&self, other: &HashCode) -> (r: u32)
        requires
            self.wf(),
            other.wf(),
        ensures
            r == ({
                let a1 = spec_word_le(self.spec_bytes(), 1);
                let b1 = spec_word_le(other.spec_bytes(), 1);
                (((a1 - b1) % 0x100000000) / 0x10000) * (((b1 - a1) % 0x100000000) / 0x10000)
            }),
    {
        let a1 = self.word(1) as u64;
        let b1 = other.word(1) as u64;
        let x1 = ((a1 + 0x100000000 - b1) % 0x100000000) / 0x10000;
        let x2 = ((b1 + 0x100000000 - a1) % 0x100000000) / 0x10000;
        proof {
            let ai = spec_word_le(self.spec_bytes(), 1);
            let bi = spec_word_le(other.spec_bytes(), 1);
            assert(0 <= ai < 0x100000000);
            assert(0 <= bi < 0x100000000);
            assert((ai + 0x100000000 - bi) % 0x100000000 == (ai - bi) % 0x100000000);
            assert((bi + 0x100000000 - ai) % 0x100000000 == (bi - ai) % 0x100000000);
        }
        assert(x1 < 0x10000);
        assert(x2 < 0x10000);
        assert(x1 * x2 < 0x100000000) by (nonlinear_arith)
            requires
                x1 < 0x10000,
                x2 < 0x10000,
        ;
        (x1 * x2) as u32
    }

    /// Bit `idx` of the hash code, counting within each byte from the
    /// least significant bit.  `idx` must lie below 512.
    pub fn get_bit(&self, idx: u32) -> (r: bool)
        requires
            self.wf(),
            idx < 512,
        ensures
            r == spec_bit_le(self.spec_bytes(), idx as int),
    {
        let byte = self.data[(idx / 8) as usize];
        let k = idx % 8;
        let p: u8 = if k == 0 {
            1
        } else if k == 1 {
            2
        } else if k == 2 {
            4
        } else if k == 3 {
            8
        } else if k == 4 {
            16
        } else if k == 5 {
            32
        } else if k == 6 {
            64
        } else {
            128
        };
        proof {
            assert(p as int == spec_p2(idx as int % 8));
        }
        (byte / p) % 2 == 1
    }

    /// How many leading bits the two codes share: 512 for equal
    /// codes, and the position of the first differing bit otherwise.
    pub fn matching_prefix_len(&self, other: &HashCode) -> (r: u32)
        requires
            self.wf(),
            other.wf(),
        ensures
            r <= 512,
            forall|j: int|
                0 <= j < r ==> spec_bit_le(self.spec_bytes(), j) == spec_bit_le(
                    other.spec_bytes(),
                    j,
                ),
            r < 512 ==> spec_bit_le(self.spec_bytes(), r as int) != spec_bit_le(
                other.spec_bytes(),
                r as int,
            ),
    {
        let mut i: u32 = 0;
        while i < 512
            invariant
                i <= 512,
                self.wf(),
                other.wf(),
                forall|j: int|
                    0 <= j < i ==> spec_bit_le(self.spec_bytes(), j) == spec_bit_le(
                        other.spec_bytes(),
                        j,
                    ),
            decreases 512 - i,
        {
            if self.get_bit(i) != other.get_bit(i) {
                return i;
            }
            i = i + 1;
        }
        512
    }

    /// Which of `h0` and `h1` lies closer to `self` in the XOR
    /// metric: `Less` when `h0` does, comparing words from the most
    /// significant downward.
    pub fn xor_cmp(&self, h0: &HashCode, h1: &HashCode) -> (r: core::cmp::Ordering)
        requires
            self.wf(),
            h0.wf(),
            h1.wf(),
        ensures
            r == spec_xor_cmp_from(self.spec_bytes(), h0.spec_bytes(), h1.spec_bytes(), 16),
    {
        let mut i: usize = 16;
        while i > 0
            invariant
                i <= 16,
                self.wf(),
                h0.wf(),
                h1.wf(),
                spec_xor_cmp_from(
                    self.spec_bytes(),
                    h0.spec_bytes(),
                    h1.spec_bytes(),
                    16,
                ) == spec_xor_cmp_from(
                    self.spec_bytes(),
                    h0.spec_bytes(),
                    h1.spec_bytes(),
                    i as int,
                ),
            decreases i,
        {
            i = i - 1;
            let s = self.word(i);
            let x0 = h0.word(i);
            let x1 = h1.word(i);
            let d0 = x0 ^ s;
            let d1 = x1 ^ s;
            if d0 < d1 {
                return core::cmp::Ordering::Less;
            }
            if d0 > d1 {
                return core::cmp::Ordering::Greater;
            }
        }
        core::cmp::Ordering::Equal
    }

    /// The Crockford base32 text of the hash code, 103 characters.
    pub fn to_text(&self) -> (r: String)
        requires
            self.wf(),
        ensures
            r@ == spec_crockford(self.spec_bytes()),
    {
        crockford_encode(&self.data)
    }

    /// Reads a hash code back from its Crockford base32 text.
    pub fn parse(s: &str) -> (r: Result<HashCode, CrockfordDecodeError>)
        ensures
            match r {
                Ok(h) => {
                    &&& h.wf()
                    &&& h.spec_bytes().len() == 64
                    &&& forall|k: int|
                        0 <= k < 64 ==> (#[trigger] h.spec_bytes()[k]) as int
                            == spec_byte_from_groups(spec_digit_vals(s@), k)
                },
                Err(e) => spec_crockford_err(s@, 64, e),
            },
    {
        match crockford_decode(s, 64) {
            Ok(v) => Ok(HashCode { data: v }),
            Err(e) => Err(e),
        }
    }
}

impl core::str::FromStr for HashCode {
    type Err = CrockfordDecodeError;

    fn from_str(s: &str) -> Result<HashCode, CrockfordDecodeError> {
        HashCode::parse(s)
    }
}

} // verus!
