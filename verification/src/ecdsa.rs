//! The 256-bit ECDSA key pairs GNUnet identities are made of,
//! consumed as opaque 32-byte values: serialized to and from wire
//! payloads, printed as Crockford base32, and hashed into the codes
//! that identify an ego.

use vstd::prelude::*;

use crate::data::{
    crockford_decode, crockford_encode, spec_byte_from_groups, spec_crockford, spec_crockford_err, spec_digit_vals,
    CrockfordDecodeError,
};
use crate::hashcode::{sha512_of, HashCode};
use crate::wire::PayloadReader;

verus! {

/// The public key derived from a 32-byte private scalar: 32 bytes
/// that depend on the scalar alone.
pub uninterp spec fn public_key_of(d: Seq<u8>) -> Seq<u8>;

/// Relies on curve25519-dalek: the scalar read from the 32 bytes is
/// multiplied onto the curve's basepoint and the point compressed to
/// 32 bytes — a function of the input bytes alone.
#[verifier::external_body]
fn derive_public(d: &Vec<u8>) -> (r: Vec<u8>)
    requires
        d@.len() == 32,
    ensures
        r@ == public_key_of(d@),
        r@.len() == 32,
{
    let mut bytes = [0u8; 32];
    bytes.copy_from_slice(&d[..]);
    let scalar = curve25519_dalek::scalar::Scalar::from_bytes_mod_order(bytes);
    let point = curve25519_dalek::edwards::EdwardsPoint::mul_base(&scalar);
    point.compress().to_bytes().to_vec()
}

/// A 256-bit ECDSA public key: the 32 bytes of the compressed curve
/// point.
#[derive(Clone)]
pub struct EcdsaPublicKey {
    q_y: Vec<u8>,
}

/// A 256-bit ECDSA private key: the 32 bytes of the scalar, most
/// significant byte first.
#[derive(Clone)]
pub struct EcdsaPrivateKey {
    d: Vec<u8>,
}

impl EcdsaPublicKey {
    /// The 32 bytes of the compressed point.
    pub closed spec fn spec_bytes(&self) -> Seq<u8> {
        self.q_y@
    }

    /// A public key always holds exactly 32 bytes.
    pub open spec fn wf(&self) -> bool {
        self.spec_bytes().len() == 32
    }

    /// Wraps 32 bytes as a public key.
    pub fn from_bytes(q_y: Vec<u8>) -> (r: EcdsaPublicKey)
        requires
            q_y@.len() == 32,
        ensures
            r.wf(),
            r.spec_bytes() == q_y@,
    {
        EcdsaPublicKey { q_y }
    }

    /// Appends the key's 32 bytes to a wire payload.
    pub fn serialize(&self, w: &mut Vec<u8>)
        requires
            self.wf(),
        ensures
            final(w)@ == old(w)@ + self.spec_bytes(),
    {
        let mut i: usize = 0;
        while i < self.q_y.len()
            invariant
                i <= self.q_y@.len(),
                w@ == old(w)@ + self.q_y@.subrange(0, i as int),
            decreases self.q_y@.len() - i,
        {
            w.push(self.q_y[i]);
            i = i + 1;
            assert(w@ =~= old(w)@ + self.q_y@.subrange(0, i as int));
        }
        assert(final(w)@ =~= old(w)@ + self.spec_bytes());
    }

    /// Reads a public key off the front of a payload; `None` if fewer
    /// than 32 bytes remain.
    pub fn deserialize(r: &mut PayloadReader) -> (k: Option<EcdsaPublicKey>)
        requires
            old(r).wf(),
        ensures
            final(r).wf(),
            final(r).data() == old(r).data(),
            match k {
                Some(key) => {
                    &&& old(r).remaining().len() >= 32
                    &&& key.wf()
                    &&& key.spec_bytes() == old(r).remaining().subrange(0, 32)
                    &&& final(r).position() == old(r).position() + 32
                },
                None => {
                    &&& old(r).remaining().len() < 32
                    &&& final(r).position() == old(r).position()
                },
            },
    {
        match r.read_exact(32) {
            Some(v) => Some(EcdsaPublicKey { q_y: v }),
            None => None,
        }
    }

    /// A copy of the key's 32 bytes.
    pub fn to_bytes(&self) -> (r: Vec<u8>)
        requires
            self.wf(),
        ensures
            r@ == self.spec_bytes(),
    {
        let mut out: Vec<u8> = Vec::new();
        self.serialize(&mut out);
        out
    }

    /// The SHA-512 hash of the key's bytes: the identifier GNUnet
    /// keys identity tables by.
    pub fn hash(&self) -> (h: HashCode)
        requires
            self.wf(),
        ensures
            h.wf(),
            h.spec_bytes() == sha512_of(self.spec_bytes()),
    {
        HashCode::from_buffer(&self.q_y)
    }

    /// The Crockford base32 text of the key, 52 characters.
    pub fn to_text(&self) -> (r: String)
        requires
            self.wf(),
        ensures
            r@ == spec_crockford(self.spec_bytes()),
    {
        crockford_encode(&self.q_y)
    }

    /// Reads a public key back from its Crockford base32 text.
    pub fn parse(s: &str) -> (r: Result<EcdsaPublicKey, CrockfordDecodeError>)
        ensures
            match r {
                Ok(k) => {
                    &&& k.wf()
                    &&& forall|j: int|
                        0 <= j < 32 ==> (#[trigger] k.spec_bytes()[j]) as int
                            == spec_byte_from_groups(spec_digit_vals(s@), j)
                },
                Err(e) => spec_crockford_err(s@, 32, e),
            },
    {
        match crockford_decode(s, 32) {
            Ok(v) => Ok(EcdsaPublicKey { q_y: v }),
            Err(e) => Err(e),
        }
    }
}

impl core::str::FromStr for EcdsaPublicKey {
    type Err = CrockfordDecodeError;

    fn from_str(s: &str) -> Result<EcdsaPublicKey, CrockfordDecodeError> {
        EcdsaPublicKey::parse(s)
    }
}

impl EcdsaPrivateKey {
    /// The 32 bytes of the scalar.
    pub closed spec fn spec_bytes(&self) -> Seq<u8> {
        self.d@
    }

    /// A private key always holds exactly 32 bytes.
    pub open spec fn wf(&self) -> bool {
        self.spec_bytes().len() == 32
    }

    /// Wraps 32 bytes as a private key.
    pub fn from_bytes(d: Vec<u8>) -> (r: EcdsaPrivateKey)
        requires
            d@.len() == 32,
        ensures
            r.wf(),
            r.spec_bytes() == d@,
    {
        EcdsaPrivateKey { d }
    }

    /// Appends the key's 32 bytes to a wire payload.
    pub fn serialize(&self, w: &mut Vec<u8>)
        requires
            self.wf(),
        ensures
            final(w)@ == old(w)@ + self.spec_bytes(),
    {
        let mut i: usize = 0;
        while i < self.d.len()
            invariant
                i <= self.d@.len(),
                w@ == old(w)@ + self.d@.subrange(0, i as int),
            decreases self.d@.len() - i,
        {
            w.push(self.d[i]);
            i = i + 1;
            assert(w@ =~= old(w)@ + self.d@.subrange(0, i as int));
        }
        assert(final(w)@ =~= old(w)@ + self.spec_bytes());
    }

    /// Reads a private key off the front of a payload; `None` if
    /// fewer than 32 bytes remain.
    pub fn deserialize(r: &mut PayloadReader) -> (k: Option<EcdsaPrivateKey>)
        requires
            old(r).wf(),
        ensures
            final(r).wf(),
            final(r).data() == old(r).data(),
            match k {
                Some(key) => {
                    &&& old(r).remaining().len() >= 32
                    &&& key.wf()
                    &&& key.spec_bytes() == old(r).remaining().subrange(0, 32)
                    &&& final(r).position() == old(r).position() + 32
                },
                None => {
                    &&& old(r).remaining().len() < 32
                    &&& final(r).position() == old(r).position()
                },
            },
    {
        match r.read_exact(32) {
            Some(v) => Some(EcdsaPrivateKey { d: v }),
            None => None,
        }
    }

    /// A copy of the key's 32 bytes.
    pub fn to_bytes(&self) -> (r: Vec<u8>)
        requires
            self.wf(),
        ensures
            r@ == self.spec_bytes(),
    {
        let mut out: Vec<u8> = Vec::new();
        self.serialize(&mut out);
        out
    }

    /// The public key belonging to this private key.
    pub fn get_public(&self) -> (k: EcdsaPublicKey)
        requires
            self.wf(),
        ensures
            k.wf(),
            k.spec_bytes() == public_key_of(self.spec_bytes()),
    {
        EcdsaPublicKey { q_y: derive_public(&self.d) }
    }

    /// The scalar one, most significant byte first.
    pub open spec fn spec_anonymous_bytes() -> Seq<u8> {
        Seq::new(32, |i: int| if i == 31 { 1u8 } else { 0u8 })
    }

    /// The private key of the global, anonymous user: the unit
    /// scalar.
    pub fn anonymous() -> (r: EcdsaPrivateKey)
        ensures
            r.wf(),
            r.spec_bytes() == Self::spec_anonymous_bytes(),
    {
        let mut d: Vec<u8> = Vec::new();
        let mut i: usize = 0;
        while i < 31
            invariant
                i <= 31,
                d@ == Seq::new(i as nat, |j: int| 0u8),
            decreases 31 - i,
        {
            d.push(0);
            i = i + 1;
            assert(d@ =~= Seq::new(i as nat, |j: int| 0u8));
        }
        d.push(1);
        assert(d@ =~= Self::spec_anonymous_bytes());
        EcdsaPrivateKey { d }
    }
}

} // verus!
