//! The identity service binding: the synchronous bootstrap pattern.
//!
//! Connecting to the service starts with one request frame and a
//! sentinel-terminated stream of identity-update frames, each
//! carrying one ego; the table built from them then answers
//! default-ego queries with a single request/reply round trip.  The
//! socket reads and writes happen outside the library; the functions
//! here build the request frames and consume the reply payloads.

use vstd::prelude::*;

use crate::ecdsa::{public_key_of, EcdsaPrivateKey, EcdsaPublicKey};
use crate::hashcode::{sha512_of, HashCode};
use crate::service::{spec_frame_bytes, write_message, ReadMessageError};
use crate::util::{
    spec_find_zero, str_eq, string_from_utf8, ReadCString, ReadCStringWithLenError,
};
use crate::wire::{spec_u16_be, PayloadReader};

verus! {

/// Message type of the request that starts the identity stream.
pub const MSG_IDENTITY_START: u16 = 624;

/// Message type of a failure reply carrying an error string.
pub const MSG_IDENTITY_RESULT_CODE: u16 = 625;

/// Message type of one record of the identity stream.
pub const MSG_IDENTITY_UPDATE: u16 = 626;

/// Message type of the default-ego query.
pub const MSG_IDENTITY_GET_DEFAULT: u16 = 627;

/// Message type of the default-ego reply.
pub const MSG_IDENTITY_SET_DEFAULT: u16 = 628;

/// A GNUnet identity: a key pair with an optional name, identified
/// by the hash of its public key.
pub struct Ego {
    pk: EcdsaPrivateKey,
    name: Option<String>,
    id: HashCode,
}

impl Ego {
    /// The bytes of the ego's private key.
    pub closed spec fn spec_pk_bytes(&self) -> Seq<u8> {
        self.pk.spec_bytes()
    }

    /// The ego's name, if it has one.
    pub closed spec fn spec_name(&self) -> Option<Seq<char>> {
        match self.name {
            Some(n) => Some(n@),
            None => None,
        }
    }

    /// The bytes of the ego's identifier.
    pub closed spec fn spec_id_bytes(&self) -> Seq<u8> {
        self.id.spec_bytes()
    }

    /// The key holds its 32 bytes and the identifier is the hash of
    /// the derived public key.
    pub open spec fn wf(&self) -> bool {
        &&& self.spec_pk_bytes().len() == 32
        &&& self.spec_id_bytes().len() == 64
        &&& self.spec_id_bytes() == sha512_of(public_key_of(self.spec_pk_bytes()))
    }

    /// An ego made of a private key and an optional name; the
    /// identifier is derived from the key.
    pub fn new(pk: EcdsaPrivateKey, name: Option<String>) -> (r: Ego)
        requires
            pk.wf(),
        ensures
            r.wf(),
            r.spec_pk_bytes() == pk.spec_bytes(),
            r.spec_name() == (match name {
                Some(n) => Some(n@),
                None => None::<Seq<char>>,
            }),
    {
        let id = pk.get_public().hash();
        Ego { pk, name, id }
    }

    /// The global, anonymous ego: the unit-scalar key pair with no
    /// name.
    pub fn anonymous() -> (r: Ego)
        ensures
            r.wf(),
            r.spec_pk_bytes() == EcdsaPrivateKey::spec_anonymous_bytes(),
            r.spec_name() is None,
    {
        Ego::new(EcdsaPrivateKey::anonymous(), None)
    }

    /// The public key of the ego.
    pub fn get_public_key(&self) -> (k: EcdsaPublicKey)
        requires
            self.wf(),
        ensures
            k.wf(),
            k.spec_bytes() == public_key_of(self.spec_pk_bytes()),
    {
        self.pk.get_public()
    }

    /// A copy of the private key of the ego.
    pub fn get_private_key(&self) -> (k: EcdsaPrivateKey)
        requires
            self.wf(),
        ensures
            k.wf(),
            k.spec_bytes() == self.spec_pk_bytes(),
    {
        EcdsaPrivateKey::from_bytes(self.pk.to_bytes())
    }

    /// A copy of the name of the ego, if it has one.
    pub fn get_name(&self) -> (r: Option<String>)
        ensures
            (match r {
                Some(n) => Some(n@),
                None => None::<Seq<char>>,
            }) == self.spec_name(),
    {
        match &self.name {
            Some(n) => Some(n.clone()),
            None => None,
        }
    }

    /// The identifier of the ego: the hash of its public key.
    pub fn get_id(&self) -> (r: &HashCode)
        ensures
            r.spec_bytes() == self.spec_id_bytes(),
    {
        &self.id
    }

    /// A copy of the whole ego.
    fn duplicate(&self) -> (r: Ego)
        requires
            self.wf(),
        ensures
            r.wf(),
            r.spec_pk_bytes() == self.spec_pk_bytes(),
            r.spec_name() == self.spec_name(),
            r.spec_id_bytes() == self.spec_id_bytes(),
    {
        let name = match &self.name {
            Some(n) => Some(n.clone()),
            None => None,
        };
        Ego {
            pk: EcdsaPrivateKey::from_bytes(self.pk.to_bytes()),
            name,
            id: HashCode::from_bytes(self.id.to_bytes()),
        }
    }
}

/// Error consuming the identity stream.
#[derive(Debug)]
pub enum ConnectError {
    /// Connecting to the service failed.
    Connect { cause: crate::service::ConnectError },
    /// The stream ended mid-record.
    Disconnected,
    /// The transport failed for a reason other than a clean close.
    Io { cause: std::io::Error },
    /// A whole frame could not be read off the stream.
    ReadMessage { cause: ReadMessageError },
    /// An ego name that is not valid UTF-8.
    InvalidName,
    /// A frame of a type the stream cannot contain.
    UnexpectedMessageType { ty: u16 },
}

/// Error answering a default-ego query.
#[derive(Debug)]
pub enum GetDefaultEgoError {
    /// The service name is too long to fit a query frame.
    NameTooLong { name: String },
    /// The transport failed for a reason other than a clean close.
    Io { cause: std::io::Error },
    /// A whole frame could not be read off the stream.
    ReadMessage { cause: ReadMessageError },
    /// The service answered with this error string.
    ServiceResponse { response: String },
    /// The service's error string is not valid UTF-8.
    MalformedErrorResponse,
    /// The ego name of the reply could not be read.
    ReceiveName { cause: ReadCStringWithLenError },
    /// Consuming the identity stream failed first.
    Connect { cause: ConnectError },
    /// The reply does not hang together.
    InvalidResponse,
    /// The reply ended mid-field.
    Disconnected,
}

/// Error fetching a default ego in one stroke.
#[derive(Debug)]
pub enum ConnectGetDefaultEgoError {
    /// The query itself failed.
    GetDefaultEgo { cause: GetDefaultEgoError },
    /// Connecting and consuming the identity stream failed first.
    Connect { cause: ConnectError },
}

/// What one identity-update payload amounts to.
pub enum UpdateOutcome {
    /// The sentinel: the end-of-list flag is set, the stream is over.
    Terminal,
    /// One more ego: its private key bytes and the bytes of its name.
    NewEgo { pk: Seq<u8>, name_bytes: Seq<u8> },
    /// The payload ends before the fields it declares.
    Truncated,
    /// The name bytes are not valid UTF-8.
    BadName,
}

/// Reads one identity-update payload: a name length, the end-of-list
/// flag, and — unless the flag ends the stream — a private key and a
/// name running to the first NUL or to the end of the payload.
pub open spec fn spec_update_outcome(pl: Seq<u8>) -> UpdateOutcome {
    if pl.len() < 4 {
        UpdateOutcome::Truncated
    } else if spec_u16_be(pl[2], pl[3]) != 0 {
        UpdateOutcome::Terminal
    } else if pl.len() < 36 {
        UpdateOutcome::Truncated
    } else {
        let rest = pl.skip(36);
        let z = spec_find_zero(rest, 0);
        let nb = if z >= 0 {
            rest.subrange(0, z)
        } else {
            rest
        };
        if vstd::utf8::valid_utf8(nb) {
            UpdateOutcome::NewEgo { pk: pl.subrange(4, 36), name_bytes: nb }
        } else {
            UpdateOutcome::BadName
        }
    }
}

/// A well-formed NUL-terminated string of `len` bytes sits at the
/// front of `rest`: no early NUL, the terminator in place, and the
/// bytes valid UTF-8.
pub open spec fn spec_cstring_at(rest: Seq<u8>, len: int) -> bool {
    &&& rest.len() >= len + 1
    &&& crate::util::spec_no_zero_before(rest, len)
    &&& rest[len] == 0
    &&& vstd::utf8::valid_utf8(rest.subrange(0, len))
}

/// The client-side table of the identity service: the egos the
/// update stream has delivered, each under its identifier.
pub struct IdentityService {
    egos: Vec<Ego>,
}

impl IdentityService {
    /// Every stored ego is well formed.
    pub open spec fn wf(&self) -> bool {
        forall|i: int| 0 <= i < self.spec_egos().len() ==> (#[trigger] self.spec_egos()[i]).wf()
    }

    /// The stored egos, oldest first.
    pub closed spec fn spec_egos(&self) -> Seq<Ego> {
        self.egos@
    }

    /// An empty table, as it stands before the update stream runs.
    pub fn new() -> (r: IdentityService)
        ensures
            r.wf(),
            r.spec_egos() == Seq::<Ego>::empty(),
    {
        IdentityService { egos: Vec::new() }
    }

    /// The frame that asks the service to start the identity stream.
    pub fn start_request_frame() -> (frame: Vec<u8>)
        ensures
            frame@ == spec_frame_bytes(MSG_IDENTITY_START, Seq::<u8>::empty()),
    {
        let w = write_message(4, MSG_IDENTITY_START);
        let frame = w.finish();
        proof {
            assert(frame@ =~= spec_frame_bytes(MSG_IDENTITY_START, Seq::<u8>::empty()));
        }
        frame
    }

    /// Consumes one frame of the identity stream.
    ///
    /// `Ok(true)` reports the sentinel: the stream is over and the
    /// table complete.  `Ok(false)` records one more ego, replacing
    /// a stored ego with the same identifier and appending a new one
    /// otherwise.  A frame of any other type, a truncated payload or
    /// a malformed name is refused and leaves the table unchanged.
    pub fn process_update(&mut self, tpe: u16, payload: &Vec<u8>) -> (r: Result<
        bool,
        ConnectError,
    >)
        requires
            old(self).wf(),
        ensures
            final(self).wf(),
            ({
                let pl = payload@;
                match r {
                    Ok(true) => {
                        &&& tpe == MSG_IDENTITY_UPDATE
                        &&& spec_update_outcome(pl) is Terminal
                        &&& final(self).spec_egos() == old(self).spec_egos()
                    },
                    Ok(false) => {
                        &&& tpe == MSG_IDENTITY_UPDATE
                        &&& spec_update_outcome(pl) matches UpdateOutcome::NewEgo {
                            pk,
                            name_bytes,
                        } && {
                            let e = final(self).spec_egos();
                            let o = old(self).spec_egos();
                            let id = sha512_of(public_key_of(pk));
                            exists|j: int|
                                {
                                    &&& 0 <= j < e.len()
                                    &&& (#[trigger] e[j]).spec_pk_bytes() == pk
                                    &&& e[j].spec_id_bytes() == id
                                    &&& e[j].spec_name() matches Some(n)
                                        && vstd::utf8::encode_utf8(n) == name_bytes
                                    &&& (j < o.len() && o[j].spec_id_bytes() == id && e == o.update(
                                        j,
                                        e[j],
                                    ) && (forall|j2: int|
                                        0 <= j2 < j ==> (#[trigger] o[j2]).spec_id_bytes() != id))
                                        || (j == o.len() && e == o.push(e[j]) && (forall|j2: int|
                                        0 <= j2 < o.len()
                                            ==> (#[trigger] o[j2]).spec_id_bytes() != id))
                                }
                        }
                    },
                    Err(ConnectError::UnexpectedMessageType { ty }) => {
                        &&& ty == tpe
                        &&& tpe != MSG_IDENTITY_UPDATE
                        &&& final(self).spec_egos() == old(self).spec_egos()
                    },
                    Err(ConnectError::Disconnected) => {
                        &&& tpe == MSG_IDENTITY_UPDATE
                        &&& spec_update_outcome(pl) is Truncated
                        &&& final(self).spec_egos() == old(self).spec_egos()
                    },
                    Err(ConnectError::InvalidName) => {
                        &&& tpe == MSG_IDENTITY_UPDATE
                        &&& spec_update_outcome(pl) is BadName
                        &&& final(self).spec_egos() == old(self).spec_egos()
                    },
                    Err(ConnectError::Connect { .. }) => false,
                    Err(ConnectError::Io { .. }) => false,
                    Err(ConnectError::ReadMessage { .. }) => false,
                }
            }),
    {
        if tpe != MSG_IDENTITY_UPDATE {
            return Err(ConnectError::UnexpectedMessageType { ty: tpe });
        }
        let mut pr = PayloadReader::new(crate::util::clone_bytes(payload));
        let _name_len = match pr.read_u16_be() {
            Some(x) => x,
            None => {
                return Err(ConnectError::Disconnected);
            },
        };
        let eol = match pr.read_u16_be() {
            Some(x) => x,
            None => {
                return Err(ConnectError::Disconnected);
            },
        };
        if eol != 0 {
            return Ok(true);
        }
        let pk = match EcdsaPrivateKey::deserialize(&mut pr) {
            Some(k) => k,
            None => {
                return Err(ConnectError::Disconnected);
            },
        };
        let ghost rest = payload@.skip(36);
        proof {
            assert(pk.spec_bytes() =~= payload@.subrange(4, 36));
            assert(pr.remaining() =~= rest);
        }
        let mut v: Vec<u8> = Vec::new();
        let ghost startpos = pr.position();
        loop
            invariant_except_break
                pr.position() == startpos + v@.len(),
            invariant
                pr.wf(),
                pr.data() == payload@,
                startpos == 36,
                rest == payload@.skip(36),
                v@.len() <= rest.len(),
                v@ == rest.subrange(0, v@.len() as int),
                forall|j: int| 0 <= j < v@.len() ==> (#[trigger] rest[j]) != 0,
            ensures
                ({
                    let z = spec_find_zero(rest, 0);
                    if z >= 0 {
                        v@ == rest.subrange(0, z)
                    } else {
                        v@ == rest
                    }
                }),
            decreases rest.len() - v@.len(),
        {
            let ghost k = v@.len() as int;
            match pr.read_u8() {
                None => {
                    proof {
                        lemma_no_zero_find(rest, k);
                        assert(v@ =~= rest);
                    }
                    break;
                },
                Some(b) => {
                    proof {
                        assert(b == rest[k]);
                    }
                    if b == 0 {
                        proof {
                            lemma_no_zero_find(rest, k);
                            assert(spec_find_zero(rest, 0) == k);
                            assert(v@ =~= rest.subrange(0, k));
                        }
                        break;
                    }
                    v.push(b);
                    proof {
                        assert(v@ =~= rest.subrange(0, v@.len() as int));
                    }
                },
            }
        }
        let ghost name_bytes = v@;
        let name = match string_from_utf8(v) {
            Some(n) => n,
            None => {
                return Err(ConnectError::InvalidName);
            },
        };
        let ego = Ego::new(pk, Some(name));
        let ghost id = ego.spec_id_bytes();
        proof {
            let pl = payload@;
            assert(spec_u16_be(pl[2], pl[3]) == 0);
            assert(spec_update_outcome(pl) == (UpdateOutcome::NewEgo {
                pk: pl.subrange(4, 36),
                name_bytes: name_bytes,
            }));
        }
        let mut j: usize = 0;
        let n = self.egos.len();
        while j < n
            invariant
                j <= n,
                n == self.spec_egos().len(),
                self.wf(),
                forall|j2: int|
                    0 <= j2 < j ==> (#[trigger] self.spec_egos()[j2]).spec_id_bytes() != id,
                ego.wf(),
                id == ego.spec_id_bytes(),
                self.spec_egos() == old(self).spec_egos(),
                tpe == MSG_IDENTITY_UPDATE,
                spec_update_outcome(payload@) == (UpdateOutcome::NewEgo {
                    pk: payload@.subrange(4, 36),
                    name_bytes: name_bytes,
                }),
                ego.spec_pk_bytes() == payload@.subrange(4, 36),
                ego.spec_name() matches Some(nn) && vstd::utf8::encode_utf8(nn) == name_bytes,
            decreases n - j,
        {
            let same = {
                let a = self.egos[j].get_id().to_bytes();
                let b = ego.get_id().to_bytes();
                a == b
            };
            if same {
                proof {
                    assert(old(self).spec_egos()[j as int].spec_id_bytes() =~= id);
                }
                self.egos[j] = ego;
                proof {
                    let pl = payload@;
                    assert(spec_u16_be(pl[2], pl[3]) == 0);
                    assert(spec_update_outcome(pl) == (UpdateOutcome::NewEgo {
                        pk: pl.subrange(4, 36),
                        name_bytes: name_bytes,
                    }));
                    assert(self.spec_egos() =~= old(self).spec_egos().update(
                        j as int,
                        self.spec_egos()[j as int],
                    ));
                    assert(self.spec_egos()[j as int].spec_pk_bytes() == pl.subrange(4, 36));
                }
                return Ok(false);
            }
            j = j + 1;
        }
        self.egos.push(ego);
        proof {
            let pl = payload@;
            assert(spec_u16_be(pl[2], pl[3]) == 0);
            assert(spec_update_outcome(pl) == (UpdateOutcome::NewEgo {
                pk: pl.subrange(4, 36),
                name_bytes: name_bytes,
            }));
            assert(self.spec_egos() =~= old(self).spec_egos().push(self.spec_egos().last()));
            let jj = old(self).spec_egos().len() as int;
            assert(self.spec_egos()[jj].spec_pk_bytes() == pl.subrange(4, 36));
        }
        Ok(false)
    }

    /// The position of the stored ego with this identifier, if any.
    fn find_ego(&self, id: &HashCode) -> (r: Option<usize>)
        requires
            self.wf(),
            id.wf(),
        ensures
            match r {
                Some(j) => {
                    &&& j < self.spec_egos().len()
                    &&& self.spec_egos()[j as int].spec_id_bytes() == id.spec_bytes()
                    &&& forall|j2: int|
                        0 <= j2 < j ==> (#[trigger] self.spec_egos()[j2]).spec_id_bytes()
                            != id.spec_bytes()
                },
                None => forall|j2: int|
                    0 <= j2 < self.spec_egos().len()
                        ==> (#[trigger] self.spec_egos()[j2]).spec_id_bytes() != id.spec_bytes(),
            },
    {
        let mut j: usize = 0;
        let idb = id.to_bytes();
        while j < self.egos.len()
            invariant
                self.wf(),
                j <= self.spec_egos().len(),
                idb@ == id.spec_bytes(),
                forall|j2: int|
                    0 <= j2 < j ==> (#[trigger] self.spec_egos()[j2]).spec_id_bytes()
                        != id.spec_bytes(),
            decreases self.spec_egos().len() - j,
        {
            let a = self.egos[j].get_id().to_bytes();
            if a == idb {
                proof {
                    assert(self.spec_egos()[j as int].spec_id_bytes() =~= id.spec_bytes());
                }
                return Some(j);
            }
            proof {
                if self.spec_egos()[j as int].spec_id_bytes() == id.spec_bytes() {
                    assert(a@ =~= idb@);
                }
            }
            j = j + 1;
        }
        None
    }

    /// The frame that asks for the default ego of the named service.
    pub fn get_default_ego_request_frame(&self, name: &str) -> (r: Result<
        Vec<u8>,
        GetDefaultEgoError,
    >)
        ensures
            match r {
                Ok(frame) => {
                    &&& vstd::utf8::encode_utf8(name@).len() + 9 <= 0xffff
                    &&& frame@ == spec_frame_bytes(
                        MSG_IDENTITY_GET_DEFAULT,
                        crate::wire::spec_u16_bytes(
                            (vstd::utf8::encode_utf8(name@).len() + 1) as u16,
                        ) + crate::wire::spec_u16_bytes(0u16) + vstd::utf8::encode_utf8(name@)
                            + seq![0u8],
                    )
                },
                Err(GetDefaultEgoError::NameTooLong { name: n }) => {
                    &&& n@ == name@
                    &&& vstd::utf8::encode_utf8(name@).len() + 9 > 0xffff
                },
                Err(_) => false,
            },
    {
        let name_bytes = name.as_bytes_vec();
        if name_bytes.len() > 0xffff - 9 {
            return Err(GetDefaultEgoError::NameTooLong { name: name.to_owned() });
        }
        let msg_length = (8 + name_bytes.len() + 1) as u16;
        let mut w = write_message(msg_length, MSG_IDENTITY_GET_DEFAULT);
        w.write_u16_be((name_bytes.len() + 1) as u16);
        w.write_u16_be(0);
        w.write_all(&name_bytes);
        w.write_u8(0);
        let frame = w.finish();
        proof {
            assert(frame@ =~= spec_frame_bytes(
                MSG_IDENTITY_GET_DEFAULT,
                crate::wire::spec_u16_bytes((vstd::utf8::encode_utf8(name@).len() + 1) as u16)
                    + crate::wire::spec_u16_bytes(0u16) + vstd::utf8::encode_utf8(name@)
                    + seq![0u8],
            ));
        }
        Ok(frame)
    }

    /// Consumes the reply to a default-ego query for service `name`.
    ///
    /// A result-code reply carries the service's error string; a
    /// set-default reply names an ego, which must echo the queried
    /// name and already stand in the table.  Anything else does not
    /// hang together and is refused.
    pub fn get_default_ego(&self, name: &str, tpe: u16, payload: &Vec<u8>) -> (r: Result<
        Ego,
        GetDefaultEgoError,
    >)
        requires
            self.wf(),
        ensures
            ({
                let pl = payload@;
                if tpe == MSG_IDENTITY_RESULT_CODE {
                    if pl.len() < 4 {
                        r == Err::<Ego, _>(GetDefaultEgoError::Disconnected)
                    } else {
                        let rest = pl.skip(4);
                        let z = spec_find_zero(rest, 0);
                        if z < 0 {
                            r == Err::<Ego, _>(GetDefaultEgoError::Disconnected)
                        } else if !vstd::utf8::valid_utf8(rest.subrange(0, z)) {
                            r == Err::<Ego, _>(GetDefaultEgoError::MalformedErrorResponse)
                        } else {
                            r matches Err(GetDefaultEgoError::ServiceResponse { response })
                                && vstd::utf8::encode_utf8(response@) == rest.subrange(0, z)
                        }
                    }
                } else if tpe == MSG_IDENTITY_SET_DEFAULT {
                    if pl.len() < 2 {
                        r == Err::<Ego, _>(GetDefaultEgoError::Disconnected)
                    } else {
                        let rl = spec_u16_be(pl[0], pl[1]);
                        if rl == 0 {
                            r == Err::<Ego, _>(GetDefaultEgoError::InvalidResponse)
                        } else if pl.len() < 4 {
                            r == Err::<Ego, _>(GetDefaultEgoError::Disconnected)
                        } else if spec_u16_be(pl[2], pl[3]) != 0 {
                            r == Err::<Ego, _>(GetDefaultEgoError::InvalidResponse)
                        } else if pl.len() < 36 {
                            r == Err::<Ego, _>(GetDefaultEgoError::Disconnected)
                        } else {
                            let rest = pl.skip(36);
                            let nlen = rl - 1;
                            if !spec_cstring_at(rest, nlen) {
                                r matches Err(GetDefaultEgoError::ReceiveName { .. })
                            } else if rest.subrange(0, nlen) != vstd::utf8::encode_utf8(name@) {
                                r == Err::<Ego, _>(GetDefaultEgoError::InvalidResponse)
                            } else {
                                let id = sha512_of(public_key_of(pl.subrange(4, 36)));
                                if exists|j: int|
                                    0 <= j < self.spec_egos().len()
                                        && (#[trigger] self.spec_egos()[j]).spec_id_bytes() == id {
                                    r matches Ok(e) && e.wf() && exists|j: int|
                                        {
                                            &&& 0 <= j < self.spec_egos().len()
                                            &&& (#[trigger] self.spec_egos()[j]).spec_id_bytes()
                                                == id
                                            &&& e.spec_id_bytes() == id
                                            &&& e.spec_pk_bytes()
                                                == self.spec_egos()[j].spec_pk_bytes()
                                            &&& e.spec_name() == self.spec_egos()[j].spec_name()
                                        }
                                } else {
                                    r == Err::<Ego, _>(GetDefaultEgoError::InvalidResponse)
                                }
                            }
                        }
                    }
                } else {
                    r == Err::<Ego, _>(GetDefaultEgoError::InvalidResponse)
                }
            }),
    {
        if tpe == MSG_IDENTITY_RESULT_CODE {
            let mut pr = PayloadReader::new(crate::util::clone_bytes(payload));
            match pr.read_u32_be() {
                Some(_) => (),
                None => {
                    return Err(GetDefaultEgoError::Disconnected);
                },
            }
            match pr.read_c_string() {
                Ok(s) => Err(GetDefaultEgoError::ServiceResponse { response: s }),
                Err(crate::util::ReadCStringError::FromUtf8) => Err(
                    GetDefaultEgoError::MalformedErrorResponse,
                ),
                Err(crate::util::ReadCStringError::Disconnected) => Err(
                    GetDefaultEgoError::Disconnected,
                ),
                Err(crate::util::ReadCStringError::Io { cause }) => Err(
                    GetDefaultEgoError::Io { cause },
                ),
            }
        } else if tpe == MSG_IDENTITY_SET_DEFAULT {
            let mut pr = PayloadReader::new(crate::util::clone_bytes(payload));
            let reply_name_len = match pr.read_u16_be() {
                Some(x) => x,
                None => {
                    return Err(GetDefaultEgoError::Disconnected);
                },
            };
            if reply_name_len == 0 {
                return Err(GetDefaultEgoError::InvalidResponse);
            }
            let zero = match pr.read_u16_be() {
                Some(x) => x,
                None => {
                    return Err(GetDefaultEgoError::Disconnected);
                },
            };
            if zero != 0 {
                return Err(GetDefaultEgoError::InvalidResponse);
            }
            let pk = match EcdsaPrivateKey::deserialize(&mut pr) {
                Some(k) => k,
                None => {
                    return Err(GetDefaultEgoError::Disconnected);
                },
            };
            let ghost rest = payload@.skip(36);
            proof {
                assert(pr.remaining() =~= rest);
                assert(pk.spec_bytes() =~= payload@.subrange(4, 36));
            }
            let s = match pr.read_c_string_with_len((reply_name_len - 1) as usize) {
                Ok(s) => s,
                Err(e) => {
                    proof {
                        assert(!spec_cstring_at(rest, reply_name_len - 1));
                    }
                    return Err(GetDefaultEgoError::ReceiveName { cause: e });
                },
            };
            proof {
                assert(spec_cstring_at(rest, reply_name_len - 1));
            }
            if str_eq(s.as_str(), name) {
                proof {
                    assert(rest.subrange(0, reply_name_len - 1) == vstd::utf8::encode_utf8(
                        name@,
                    ));
                }
                let id = pk.get_public().hash();
                match self.find_ego(&id) {
                    Some(j) => Ok(self.egos[j].duplicate()),
                    None => Err(GetDefaultEgoError::InvalidResponse),
                }
            } else {
                proof {
                    vstd::utf8::encode_utf8_decode_utf8(s@);
                    vstd::utf8::encode_utf8_decode_utf8(name@);
                    assert(rest.subrange(0, reply_name_len - 1) != vstd::utf8::encode_utf8(
                        name@,
                    ));
                }
                Err(GetDefaultEgoError::InvalidResponse)
            }
        } else {
            Err(GetDefaultEgoError::InvalidResponse)
        }
    }
}


/// Where a clean bootstrap run of the identity stream ends: reading
/// frames from `pos`, each an identity update, until the sentinel.
/// `Some((end, k))` says the run consumes `k` record frames and the
/// terminal frame, stopping exactly at `end`; `None` says the stream
/// does not bootstrap cleanly from `pos`.
pub open spec fn spec_bootstrap_end(stream: Seq<u8>, pos: int) -> Option<(int, int)>
    decreases stream.len() - pos,
        when 0 <= pos <= stream.len()
    via spec_bootstrap_end_dec
{
    match crate::service::spec_read_message(stream, pos) {
        Err(_) => None,
        Ok((tpe, pl, next)) => {
            if tpe != MSG_IDENTITY_UPDATE {
                None
            } else {
                match spec_update_outcome(pl) {
                    UpdateOutcome::Terminal => Some((next, 0)),
                    UpdateOutcome::NewEgo { .. } => match spec_bootstrap_end(stream, next) {
                        Some((end, k)) => Some((end, k + 1)),
                        None => None,
                    },
                    UpdateOutcome::Truncated => None,
                    UpdateOutcome::BadName => None,
                }
            }
        },
    }
}

#[via_fn]
proof fn spec_bootstrap_end_dec(stream: Seq<u8>, pos: int) {
    crate::service::lemma_read_message_bounds(stream, pos);
}

/// The bytes of a run of identity-update frames, one per payload.
pub open spec fn spec_update_frames(payloads: Seq<Seq<u8>>) -> Seq<u8>
    decreases payloads.len(),
{
    if payloads.len() == 0 {
        Seq::empty()
    } else {
        spec_frame_bytes(MSG_IDENTITY_UPDATE, payloads[0]) + spec_update_frames(
            payloads.drop_first(),
        )
    }
}

/// A clean bootstrap run past a fixed prefix mirrors the run on the
/// suffix alone, every position shifted by the prefix's length.
#[verifier::rlimit(50)]
proof fn lemma_bootstrap_shift(a: Seq<u8>, b: Seq<u8>, p: int)
    requires
        0 <= p <= b.len(),
    ensures
        spec_bootstrap_end(a + b, a.len() + p) == (match spec_bootstrap_end(b, p) {
            Some((end, k)) => Some((end + a.len(), k)),
            None => None::<(int, int)>,
        }),
    decreases b.len() - p,
{
    crate::service::lemma_read_message_shift(a, b, p);
    crate::service::lemma_read_message_bounds(b, p);
    match crate::service::spec_read_message(b, p) {
        Err(_) => {},
        Ok((tpe, pl, next)) => {
            if tpe == MSG_IDENTITY_UPDATE && (spec_update_outcome(pl) is NewEgo) {
                lemma_bootstrap_shift(a, b, next);
            }
        },
    }
}

/// Bootstrap sentinel termination: a stream of `k` record frames,
/// then one terminal frame, then anything at all, bootstraps
/// cleanly: the run takes in exactly the `k` records and stops at
/// the end of the terminal frame, never reading past it.
/// A terminal frame at the front ends the bootstrap right after
/// itself, whatever follows.
#[verifier::rlimit(50)]
proof fn lemma_bootstrap_terminal(terminal: Seq<u8>, tail: Seq<u8>)
    requires
        spec_update_outcome(terminal) is Terminal,
        terminal.len() + 4 <= 0xffff,
    ensures
        spec_bootstrap_end(spec_frame_bytes(MSG_IDENTITY_UPDATE, terminal) + tail, 0) == Some(
            ((terminal.len() + 4) as int, 0int),
        ),
{
    let tframe = spec_frame_bytes(MSG_IDENTITY_UPDATE, terminal);
    crate::service::lemma_frame_round_trip(MSG_IDENTITY_UPDATE, terminal);
    crate::service::lemma_read_message_append(tframe, tail, 0);
    assert(crate::service::spec_read_message(tframe + tail, 0) == Ok::<
        _,
        crate::service::ReadMessageError,
    >((MSG_IDENTITY_UPDATE, terminal, terminal.len() + 4 as int)));
}

/// A record frame at the front adds one record to whatever bootstrap
/// the rest of the stream makes.
#[verifier::rlimit(50)]
proof fn lemma_bootstrap_step(first: Seq<u8>, rest_stream: Seq<u8>)
    requires
        spec_update_outcome(first) is NewEgo,
        first.len() + 4 <= 0xffff,
    ensures
        spec_bootstrap_end(spec_frame_bytes(MSG_IDENTITY_UPDATE, first) + rest_stream, 0) == (
        match spec_bootstrap_end(rest_stream, 0) {
            Some((end, k)) => Some((end + first.len() + 4, k + 1)),
            None => None::<(int, int)>,
        }),
{
    let frame0 = spec_frame_bytes(MSG_IDENTITY_UPDATE, first);
    crate::service::lemma_frame_round_trip(MSG_IDENTITY_UPDATE, first);
    crate::service::lemma_read_message_append(frame0, rest_stream, 0);
    assert(crate::service::spec_read_message(frame0 + rest_stream, 0) == Ok::<
        _,
        crate::service::ReadMessageError,
    >((MSG_IDENTITY_UPDATE, first, first.len() + 4 as int)));
    assert(frame0.len() == first.len() + 4);
    lemma_bootstrap_shift(frame0, rest_stream, 0);
}

/// Bootstrap sentinel termination: a stream of `k` record frames,
/// then one terminal frame, then anything at all, bootstraps
/// cleanly: the run takes in exactly the `k` records and stops at
/// the end of the terminal frame, never reading past it.
pub proof fn lemma_bootstrap_sentinel_termination(
    payloads: Seq<Seq<u8>>,
    terminal: Seq<u8>,
    tail: Seq<u8>,
)
    requires
        forall|i: int|
            0 <= i < payloads.len() ==> (spec_update_outcome(#[trigger] payloads[i]) is NewEgo)
                && payloads[i].len() + 4 <= 0xffff,
        spec_update_outcome(terminal) is Terminal,
        terminal.len() + 4 <= 0xffff,
    ensures
        spec_bootstrap_end(
            spec_update_frames(payloads) + spec_frame_bytes(MSG_IDENTITY_UPDATE, terminal)
                + tail,
            0,
        ) == Some(
            (
                (spec_update_frames(payloads).len() + terminal.len() + 4) as int,
                payloads.len() as int,
            ),
        ),
    decreases payloads.len(),
{
    let tframe = spec_frame_bytes(MSG_IDENTITY_UPDATE, terminal);
    let stream = spec_update_frames(payloads) + tframe + tail;
    if payloads.len() == 0 {
        assert(stream =~= tframe + tail);
        lemma_bootstrap_terminal(terminal, tail);
    } else {
        let frame0 = spec_frame_bytes(MSG_IDENTITY_UPDATE, payloads[0]);
        let rest = payloads.drop_first();
        let rest_stream = spec_update_frames(rest) + tframe + tail;
        assert(stream =~= frame0 + rest_stream);
        assert(forall|i: int|
            0 <= i < rest.len() ==> (spec_update_outcome(#[trigger] rest[i]) is NewEgo)
                && rest[i].len() + 4 <= 0xffff) by {
            assert(forall|i: int| 0 <= i < rest.len() ==> rest[i] == #[trigger] payloads[i + 1]);
        }
        lemma_bootstrap_sentinel_termination(rest, terminal, tail);
        lemma_bootstrap_step(payloads[0], rest_stream);
        assert(spec_update_frames(payloads).len() == frame0.len()
            + spec_update_frames(rest).len());
    }
}

/// Runs the whole bootstrap: reads identity-update frames off the
/// stream from its start, recording each ego, until the sentinel.
/// Returns the position just past the terminal frame and the count
/// of record frames taken in.
impl IdentityService {
    /// Runs the identity stream from the front of `stream` until the
    /// sentinel, recording every ego it carries.
    pub fn run_update_stream(&mut self, stream: &Vec<u8>) -> (r: Result<
        (usize, usize),
        ConnectError,
    >)
        requires
            old(self).wf(),
        ensures
            final(self).wf(),
            match r {
                Ok((end, k)) => {
                    &&& spec_bootstrap_end(stream@, 0) == Some((end as int, k as int))
                    &&& end <= stream@.len()
                },
                Err(_) => spec_bootstrap_end(stream@, 0) is None,
            },
    {
        let mut pos: usize = 0;
        let mut k: usize = 0;
        loop
            invariant
                self.wf(),
                pos <= stream@.len(),
                4 * k <= pos,
                spec_bootstrap_end(stream@, 0) == (match spec_bootstrap_end(
                    stream@,
                    pos as int,
                ) {
                    Some((end, c)) => Some((end, c + k)),
                    None => None::<(int, int)>,
                }),
            decreases stream@.len() - pos,
        {
            let (tpe, mut pr, next) = match crate::service::read_message(stream, pos) {
                Ok(x) => x,
                Err(e) => {
                    return Err(ConnectError::ReadMessage { cause: e });
                },
            };
            proof {
                crate::service::lemma_read_message_bounds(stream@, pos as int);
            }
            let n = pr.remaining_len();
            let payload = pr.read_exact(n).unwrap();
            proof {
                assert(payload@ =~= pr.data());
            }
            match self.process_update(tpe, &payload) {
                Ok(true) => {
                    return Ok((next, k));
                },
                Ok(false) => {
                    k = k + 1;
                    pos = next;
                },
                Err(e) => {
                    return Err(e);
                },
            }
        }
    }
}

/// Once a prefix holds no zero byte, the first zero lies at or past
/// its end.
proof fn lemma_no_zero_find(s: Seq<u8>, i: int)
    requires
        0 <= i <= s.len(),
        forall|j: int| 0 <= j < i ==> (#[trigger] s[j]) != 0,
    ensures
        spec_find_zero(s, 0) == spec_find_zero(s, i),
    decreases i,
{
    if i > 0 {
        lemma_no_zero_find(s, i - 1);
    }
}

} // verus!
