//! The GNU Name System binding: the correlated-request pattern over
//! one service connection.
//!
//! A `GNS` value holds the foreground side's request-id counter and
//! the correlation registry the dispatch loop resolves replies
//! against.  `lookup` registers a fresh id and hands back the request
//! frame, in that order, so the registration is in place before the
//! frame can reach the wire — the invariant that makes misdelivery of
//! the reply impossible.  `process_message` is the dispatch loop's
//! decision step: it parses one inbound frame and appends its records
//! to the queue of the request they answer.  The loop thread, the
//! socket and the channels that carry deliveries to blocked callers
//! live outside the library and drive these functions.

use vstd::prelude::*;

use std::collections::HashMap;

use crate::ecdsa::{EcdsaPrivateKey, EcdsaPublicKey};
use crate::record::{spec_record_type_num, Record, RecordType};
use crate::service::{spec_frame_bytes, write_message, ProcessMessageResult};
use crate::util::str_chars;
use crate::wire::{
    spec_u16_bytes, spec_u32_be, spec_u32_bytes, spec_u64_be, PayloadReader,
};

verus! {

broadcast use vstd::std_specs::hash::group_hash_axioms;

/// Message type of a name lookup request.
pub const MSG_GNS_LOOKUP: u16 = 500;

/// Message type of a name lookup reply.
pub const MSG_GNS_LOOKUP_RESULT: u16 = 501;

/// The longest name, in bytes, a lookup accepts.
pub const MAX_NAME_LENGTH: usize = 253;

/// Where a lookup may search: the local cache, the distributed
/// table, or both, depending on who controls the zone.
#[derive(Copy, Clone, Debug, PartialEq, Eq, Structural)]
pub enum LocalOptions {
    /// Look in the local cache, then in the distributed table.
    Default,
    /// Keep the request to the local cache.
    NoDHT,
    /// For zones the local master controls, cache only.
    LocalMaster,
}

/// The number each option carries on the wire.
pub open spec fn spec_local_options_num(o: LocalOptions) -> u16 {
    match o {
        LocalOptions::Default => 0,
        LocalOptions::NoDHT => 1,
        LocalOptions::LocalMaster => 2,
    }
}

impl LocalOptions {
    /// The number this option carries on the wire.
    pub fn to_u16(self) -> (r: u16)
        ensures
            r == spec_local_options_num(self),
    {
        match self {
            LocalOptions::Default => 0,
            LocalOptions::NoDHT => 1,
            LocalOptions::LocalMaster => 2,
        }
    }
}

/// Error returned when a lookup request cannot be issued.
#[derive(Debug)]
pub enum LookupError {
    /// The name is too long to fit a lookup frame.
    NameTooLong { name: String },
    /// Writing the request to the transport failed.
    Io { cause: std::io::Error },
}

/// The ghost shape of a record: what one well-formed record on the
/// wire carries.
pub struct RecordV {
    /// Absolute expiration time.
    pub expiration_time: int,
    /// The numeric record type tag.
    pub record_type: int,
    /// The record's flag bits.
    pub flags: int,
    /// The record data.
    pub data: Seq<u8>,
}

impl View for Record {
    type V = RecordV;

    open spec fn view(&self) -> RecordV {
        RecordV {
            expiration_time: self.expiration_time as int,
            record_type: self.record_type as int,
            flags: self.flags as int,
            data: self.data@,
        }
    }
}

/// The record starting at `pos` of a reply payload, and the position
/// just past it; `None` when the payload ends first.
pub open spec fn spec_parse_record_at(bytes: Seq<u8>, pos: int) -> Option<(RecordV, int)> {
    if bytes.len() - pos < 20 {
        None
    } else {
        let size = spec_u32_be(bytes[pos + 8], bytes[pos + 9], bytes[pos + 10], bytes[pos + 11]);
        if bytes.len() - pos < 20 + size {
            None
        } else {
            Some(
                (
                    RecordV {
                        expiration_time: spec_u64_be(
                            bytes[pos],
                            bytes[pos + 1],
                            bytes[pos + 2],
                            bytes[pos + 3],
                            bytes[pos + 4],
                            bytes[pos + 5],
                            bytes[pos + 6],
                            bytes[pos + 7],
                        ),
                        record_type: spec_u32_be(
                            bytes[pos + 12],
                            bytes[pos + 13],
                            bytes[pos + 14],
                            bytes[pos + 15],
                        ),
                        flags: spec_u32_be(
                            bytes[pos + 16],
                            bytes[pos + 17],
                            bytes[pos + 18],
                            bytes[pos + 19],
                        ),
                        data: bytes.subrange(pos + 20, pos + 20 + size),
                    },
                    pos + 20 + size,
                ),
            )
        }
    }
}

/// The `n` records starting at `pos` of a reply payload, and the
/// position just past them; `None` when the payload ends first.
pub open spec fn spec_parse_records(bytes: Seq<u8>, pos: int, n: nat) -> Option<
    (Seq<RecordV>, int),
>
    decreases n,
{
    if n == 0 {
        Some((Seq::empty(), pos))
    } else {
        match spec_parse_record_at(bytes, pos) {
            None => None,
            Some((r, p2)) => match spec_parse_records(bytes, p2, (n - 1) as nat) {
                None => None,
                Some((rest, p3)) => Some((seq![r] + rest, p3)),
            },
        }
    }
}

/// The views of a vector of records.
pub open spec fn spec_record_views(rs: Seq<Record>) -> Seq<RecordV> {
    rs.map(|i: int, r: Record| r@)
}

/// The payload of a lookup request frame: the request id, the zone
/// key, the lookup options, whether a shorten key follows the record
/// type, the record type, the shorten key or 32 zero bytes, and the
/// NUL-terminated name.
pub open spec fn spec_lookup_request(
    id: u32,
    zone: Seq<u8>,
    options: LocalOptions,
    shorten: Option<Seq<u8>>,
    record_type: RecordType,
    name_bytes: Seq<u8>,
) -> Seq<u8> {
    spec_u32_bytes(id) + zone + spec_u16_bytes(spec_local_options_num(options)) + spec_u16_bytes(
        if shorten is Some {
            1u16
        } else {
            0u16
        },
    ) + spec_u32_bytes(spec_record_type_num(record_type)) + (match shorten {
        Some(k) => k,
        None => Seq::new(32, |i: int| 0u8),
    }) + name_bytes + seq![0u8]
}

/// Error connecting and looking up in one stroke.
#[derive(Debug)]
pub enum ConnectLookupError {
    /// Connecting to the GNS service failed.
    Connect { cause: crate::service::ConnectError },
    /// Issuing the lookup failed.
    Lookup { cause: LookupError },
}

/// Error looking up in the master zone in one stroke.
#[derive(Debug)]
pub enum ConnectLookupInMasterError {
    /// Connecting to the GNS service and looking up failed.
    GnsLookup { cause: ConnectLookupError },
    /// Fetching the default master-zone ego failed first.
    IdentityGetDefaultEgo { cause: crate::identity::ConnectGetDefaultEgoError },
}

/// Whether a name is a plain label directly under the `gnu` top
/// level: exactly one dot, with `gnu` after it.
pub open spec fn spec_under_gnu_tld(s: Seq<char>) -> bool {
    exists|i: int|
        {
            &&& 0 <= i < s.len()
            &&& #[trigger] s[i] == '.'
            &&& forall|j: int| 0 <= j < s.len() && j != i ==> #[trigger] s[j] != '.'
            &&& s.subrange(i + 1, s.len() as int) == "gnu"@
        }
}

/// The lookup option the master-zone convenience lookup picks for a
/// name: names directly under the `gnu` top level stay in the local
/// cache, all others may also ask the distributed table for zones
/// the master does not control.
pub fn choose_local_options(name: &str) -> (r: LocalOptions)
    ensures
        r == (if spec_under_gnu_tld(name@) {
            LocalOptions::NoDHT
        } else {
            LocalOptions::LocalMaster
        }),
{
    let v = str_chars(name);
    let n = v.len();
    let mut dot: Option<usize> = None;
    let mut i: usize = 0;
    while i < n
        invariant
            i <= n,
            n == v@.len(),
            v@ == name@,
            match dot {
                Some(d) => {
                    &&& d < i
                    &&& v@[d as int] == '.'
                    &&& forall|j: int| 0 <= j < i && j != d ==> #[trigger] v@[j] != '.'
                },
                None => forall|j: int| 0 <= j < i ==> #[trigger] v@[j] != '.',
            },
        decreases n - i,
    {
        if v[i] == '.' {
            match dot {
                Some(_) => {
                    proof {
                        assert forall|k: int|
                            0 <= k < name@.len() && #[trigger] name@[k] == '.' implies !(forall|
                            j: int|
                            0 <= j < name@.len() && j != k ==> #[trigger] name@[j] != '.') by {
                            let d = dot.unwrap() as int;
                            if k != d {
                                assert(name@[d] == '.');
                            } else {
                                assert(name@[i as int] == '.');
                            }
                        }
                    }
                    return LocalOptions::LocalMaster;
                },
                None => {
                    dot = Some(i);
                },
            }
        }
        i = i + 1;
    }
    match dot {
        Some(d) => {
            proof {
                reveal_strlit("gnu");
            }
            if n - d == 4 && v[d + 1] == 'g' && v[d + 2] == 'n' && v[d + 3] == 'u' {
                proof {
                    assert(name@.subrange(d + 1, name@.len() as int) =~= "gnu"@);
                }
                LocalOptions::NoDHT
            } else {
                proof {
                    assert forall|k: int|
                        0 <= k < name@.len() && #[trigger] name@[k] == '.' && (forall|j: int|
                            0 <= j < name@.len() && j != k ==> #[trigger] name@[j] != '.')
                        implies name@.subrange(k + 1, name@.len() as int) != "gnu"@ by {
                        assert(k == d as int);
                        let suffix = name@.subrange(d + 1, name@.len() as int);
                        if suffix == "gnu"@ {
                            assert(suffix.len() == 3);
                            assert(suffix[0] == 'g' && suffix[1] == 'n' && suffix[2] == 'u');
                            assert(name@[d + 1] == 'g');
                            assert(name@[d + 2] == 'n');
                            assert(name@[d + 3] == 'u');
                            assert(n - d == 4);
                        }
                    }
                }
                LocalOptions::LocalMaster
            }
        },
        None => LocalOptions::LocalMaster,
    }
}

/// The ghost shape of a connection's dispatch state: the next
/// request id and the delivery queue of every registered request.
pub struct GnsV {
    /// The id the next lookup will be issued under.
    pub next_id: u32,
    /// The undelivered record views of each registered request id.
    pub queues: Map<u32, Seq<RecordV>>,
}

/// One dispatch decision at the spec level: what `process_message`
/// does to the state, and what it answers the loop.
pub open spec fn spec_dispatch_step(st: GnsV, tpe: u16, pl: Seq<u8>) -> (GnsV, ProcessMessageResult) {
    if tpe != MSG_GNS_LOOKUP_RESULT {
        (st, ProcessMessageResult::Reconnect)
    } else if pl.len() < 4 {
        (st, ProcessMessageResult::Reconnect)
    } else {
        let id = spec_u32_be(pl[0], pl[1], pl[2], pl[3]) as u32;
        if !st.queues.dom().contains(id) {
            (st, ProcessMessageResult::Continue)
        } else if pl.len() < 8 {
            (st, ProcessMessageResult::Reconnect)
        } else {
            let n = spec_u32_be(pl[4], pl[5], pl[6], pl[7]);
            match spec_parse_records(pl, 8, n as nat) {
                None => (st, ProcessMessageResult::Reconnect),
                Some((recs, _)) => (
                    GnsV { next_id: st.next_id, queues: st.queues.insert(id, st.queues[id] + recs) },
                    ProcessMessageResult::Continue,
                ),
            }
        }
    }
}

/// The state after the dispatch loop has decided on every frame of a
/// run, in order.
pub open spec fn spec_dispatch_run(st: GnsV, frames: Seq<(u16, Seq<u8>)>) -> GnsV
    decreases frames.len(),
{
    if frames.len() == 0 {
        st
    } else {
        spec_dispatch_run(spec_dispatch_step(st, frames[0].0, frames[0].1).0, frames.drop_first())
    }
}

/// The records one frame delivers to request `id` under registration
/// set `dom`: the frame's records when it is a well-formed reply
/// embedding `id`, and nothing otherwise.
pub open spec fn spec_frame_records_for(dom: Set<u32>, tpe: u16, pl: Seq<u8>, id: u32) -> Seq<
    RecordV,
> {
    if tpe == MSG_GNS_LOOKUP_RESULT && pl.len() >= 8 && spec_u32_be(pl[0], pl[1], pl[2], pl[3])
        == id && dom.contains(id) && spec_parse_records(
        pl,
        8,
        spec_u32_be(pl[4], pl[5], pl[6], pl[7]) as nat,
    ) is Some {
        spec_parse_records(pl, 8, spec_u32_be(pl[4], pl[5], pl[6], pl[7]) as nat)->Some_0.0
    } else {
        Seq::empty()
    }
}

/// The records a run of frames delivers to request `id`, in order.
pub open spec fn spec_run_records_for(
    dom: Set<u32>,
    frames: Seq<(u16, Seq<u8>)>,
    id: u32,
) -> Seq<RecordV>
    decreases frames.len(),
{
    if frames.len() == 0 {
        Seq::empty()
    } else {
        spec_frame_records_for(dom, frames[0].0, frames[0].1, id) + spec_run_records_for(
            dom,
            frames.drop_first(),
            id,
        )
    }
}

/// Correlation no-misdelivery: over any run of inbound frames, no
/// request id appears or disappears, and the queue of each
/// registered id grows by exactly the records of the well-formed
/// replies that embed that id, in arrival order — records of every
/// other request never reach it, and none of its own are lost.
pub proof fn lemma_no_misdelivery(st: GnsV, frames: Seq<(u16, Seq<u8>)>, id: u32)
    requires
        st.queues.dom().contains(id),
    ensures
        spec_dispatch_run(st, frames).queues.dom() == st.queues.dom(),
        spec_dispatch_run(st, frames).queues[id] == st.queues[id] + spec_run_records_for(
            st.queues.dom(),
            frames,
            id,
        ),
    decreases frames.len(),
{
    if frames.len() == 0 {
        assert(st.queues[id] + spec_run_records_for(st.queues.dom(), frames, id) =~= st.queues[id]);
    } else {
        let (tpe, pl) = frames[0];
        let (st1, _) = spec_dispatch_step(st, tpe, pl);
        assert(st1.queues.dom() =~= st.queues.dom());
        lemma_no_misdelivery(st1, frames.drop_first(), id);
        let first_part = spec_frame_records_for(st.queues.dom(), tpe, pl, id);
        let rest_part = spec_run_records_for(st.queues.dom(), frames.drop_first(), id);
        assert(st1.queues[id] == st.queues[id] + first_part) by {
            if first_part.len() == 0 {
                if st1.queues[id] == st.queues[id] {
                    assert(st.queues[id] + first_part =~= st.queues[id]);
                }
            }
        }
        assert((st.queues[id] + first_part) + rest_part =~= st.queues[id] + (first_part
            + rest_part));
    }
}

/// A caller-held token for one outstanding lookup: the request id
/// whose queue `GNS::recv` reads.
pub struct LookupHandle {
    id: u32,
}

impl LookupHandle {
    /// The request id this handle stands for.
    pub closed spec fn spec_id(&self) -> u32 {
        self.id
    }

    /// The request id this handle stands for.
    pub fn request_id(&self) -> (r: u32)
        ensures
            r == self.spec_id(),
    {
        self.id
    }
}

/// The foreground state of one GNS connection: the next request id
/// and the correlation registry, a queue of undelivered records per
/// outstanding request.
pub struct GNS {
    lookup_id: u32,
    handles: HashMap<u32, Vec<Record>>,
}

impl GNS {
    /// The id the next lookup will be issued under.
    pub closed spec fn spec_next_id(&self) -> u32 {
        self.lookup_id
    }

    /// Whether a request id has a registered delivery queue.
    pub closed spec fn spec_registered(&self, id: u32) -> bool {
        self.handles@.contains_key(id)
    }

    /// The undelivered records of a request id, oldest first.
    pub closed spec fn spec_queue(&self, id: u32) -> Seq<Record> {
        self.handles@[id]@
    }

    /// The record views of the undelivered records of a request id.
    pub open spec fn spec_queue_views(&self, id: u32) -> Seq<RecordV> {
        spec_record_views(self.spec_queue(id))
    }

    /// The dispatch-state view of the connection.
    pub open spec fn view_state(&self) -> GnsV {
        GnsV {
            next_id: self.spec_next_id(),
            queues: Map::new(
                |id: u32| self.spec_registered(id),
                |id: u32| self.spec_queue_views(id),
            ),
        }
    }

    /// A connection state with no outstanding requests, counting ids
    /// from zero.
    pub fn new() -> (r: GNS)
        ensures
            r.spec_next_id() == 0,
            forall|id: u32| !(#[trigger] r.spec_registered(id)),
    {
        GNS { lookup_id: 0, handles: HashMap::new() }
    }

    /// Issues a lookup: registers a fresh request id with an empty
    /// delivery queue and hands back the handle and the request
    /// frame.  The registration is in place before the frame exists,
    /// so a reply — which the service can only send after receiving
    /// the frame — always finds it.  The caller writes the frame to
    /// the transport unchanged.
    pub fn lookup(
        &mut self,
        name: &str,
        zone: &EcdsaPublicKey,
        record_type: RecordType,
        options: LocalOptions,
        shorten: Option<&EcdsaPrivateKey>,
    ) -> (r: Result<(LookupHandle, Vec<u8>), LookupError>)
        requires
            old(self).wf_keys(zone, shorten),
        ensures
            match r {
                Ok((h, frame)) => {
                    &&& vstd::utf8::encode_utf8(name@).len() <= MAX_NAME_LENGTH
                    &&& h.spec_id() == old(self).spec_next_id()
                    &&& final(self).spec_next_id() == ((old(self).spec_next_id() + 1) % 0x100000000) as u32
                    &&& final(self).spec_registered(h.spec_id())
                    &&& final(self).spec_queue(h.spec_id()) == Seq::<Record>::empty()
                    &&& forall|id: u32|
                        id != h.spec_id()
                            ==> #[trigger] final(self).spec_registered(id) == old(self).spec_registered(id)
                    &&& forall|id: u32|
                        id != h.spec_id() && old(self).spec_registered(id)
                            ==> #[trigger] final(self).spec_queue(id) == old(self).spec_queue(id)
                    &&& frame@ == spec_frame_bytes(
                        MSG_GNS_LOOKUP,
                        spec_lookup_request(
                            h.spec_id(),
                            zone.spec_bytes(),
                            options,
                            match shorten {
                                Some(k) => Some(k.spec_bytes()),
                                None => None,
                            },
                            record_type,
                            vstd::utf8::encode_utf8(name@),
                        ),
                    )
                },
                Err(LookupError::NameTooLong { name: n }) => {
                    &&& n@ == name@
                    &&& vstd::utf8::encode_utf8(name@).len() > MAX_NAME_LENGTH
                    &&& *final(self) == *old(self)
                },
                Err(LookupError::Io { .. }) => false,
            },
    {
        let name_bytes = name.as_bytes_vec();
        if name_bytes.len() > MAX_NAME_LENGTH {
            return Err(LookupError::NameTooLong { name: name.to_owned() });
        }
        let id = self.lookup_id;
        self.lookup_id = self.lookup_id.wrapping_add(1);
        self.handles.insert(id, Vec::new());
        let msg_length = (80 + name_bytes.len() + 1) as u16;
        let mut w = write_message(msg_length, MSG_GNS_LOOKUP);
        w.write_u32_be(id);
        let zb = zone.to_bytes();
        w.write_all(&zb);
        w.write_u16_be(options.to_u16());
        match shorten {
            Some(_) => w.write_u16_be(1),
            None => w.write_u16_be(0),
        }
        w.write_u32_be(record_type.to_u32());
        match shorten {
            Some(k) => {
                let kb = k.to_bytes();
                w.write_all(&kb);
            },
            None => {
                let mut zeros: Vec<u8> = Vec::new();
                let mut i: usize = 0;
                while i < 32
                    invariant
                        i <= 32,
                        zeros@ == Seq::new(i as nat, |j: int| 0u8),
                    decreases 32 - i,
                {
                    zeros.push(0);
                    i = i + 1;
                    assert(zeros@ =~= Seq::new(i as nat, |j: int| 0u8));
                }
                w.write_all(&zeros);
            },
        }
        w.write_all(&name_bytes);
        w.write_u8(0);
        let frame = w.finish();
        proof {
            assert(frame@ =~= spec_frame_bytes(
                MSG_GNS_LOOKUP,
                spec_lookup_request(
                    id,
                    zone.spec_bytes(),
                    options,
                    match shorten {
                        Some(k) => Some(k.spec_bytes()),
                        None => None,
                    },
                    record_type,
                    vstd::utf8::encode_utf8(name@),
                ),
            ));
        }
        Ok((LookupHandle { id }, frame))
    }

    /// Whether both keys handed to `lookup` hold their 32 bytes.
    pub open spec fn wf_keys(&self, zone: &EcdsaPublicKey, shorten: Option<&EcdsaPrivateKey>) -> bool {
        &&& zone.wf()
        &&& match shorten {
            Some(k) => k.wf(),
            None => true,
        }
    }

    /// The dispatch loop's decision step for one inbound frame.
    ///
    /// A frame that is no lookup reply, or whose reply cannot be
    /// parsed, asks the loop to give the connection up; a reply for
    /// an id with no registered queue is dropped silently and the
    /// loop carries on; a well-formed reply for a registered id
    /// appends exactly its records, in order, to that id's queue and
    /// no other.
    pub fn process_message(&mut self, tpe: u16, payload: &Vec<u8>) -> (r: ProcessMessageResult)
        ensures
            final(self).spec_next_id() == old(self).spec_next_id(),
            (final(self).view_state(), r) == spec_dispatch_step(
                old(self).view_state(),
                tpe,
                payload@,
            ),
            ({
                let pl = payload@;
                if tpe != MSG_GNS_LOOKUP_RESULT {
                    r is Reconnect && spec_gns_unchanged(*old(self), *final(self))
                } else if pl.len() < 4 {
                    r is Reconnect && spec_gns_unchanged(*old(self), *final(self))
                } else {
                    let id = spec_u32_be(pl[0], pl[1], pl[2], pl[3]) as u32;
                    if !old(self).spec_registered(id) {
                        r is Continue && spec_gns_unchanged(*old(self), *final(self))
                    } else if pl.len() < 8 {
                        r is Reconnect && spec_gns_unchanged(*old(self), *final(self))
                    } else {
                        let n = spec_u32_be(pl[4], pl[5], pl[6], pl[7]);
                        match spec_parse_records(pl, 8, n as nat) {
                            None => r is Reconnect && spec_gns_unchanged(
                                *old(self),
                                *final(self),
                            ),
                            Some((recs, _)) => {
                                &&& r is Continue
                                &&& final(self).spec_registered(id)
                                &&& final(self).spec_queue_views(id)
                                    == old(self).spec_queue_views(id) + recs
                                &&& forall|id2: u32|
                                    id2 != id ==> #[trigger] final(self).spec_registered(id2)
                                        == old(self).spec_registered(id2)
                                &&& forall|id2: u32|
                                    id2 != id && old(self).spec_registered(id2)
                                        ==> #[trigger] final(self).spec_queue(id2) == old(self).spec_queue(id2)
                            },
                        }
                    }
                }
            }),
    {
        if tpe != MSG_GNS_LOOKUP_RESULT {
            return ProcessMessageResult::Reconnect;
        }
        let mut pr = PayloadReader::new(crate::util::clone_bytes(payload));
        let id = match pr.read_u32_be() {
            Some(x) => x,
            None => {
                return ProcessMessageResult::Reconnect;
            },
        };
        if !self.handles.contains_key(&id) {
            return ProcessMessageResult::Continue;
        }
        let rd_count = match pr.read_u32_be() {
            Some(x) => x,
            None => {
                return ProcessMessageResult::Reconnect;
            },
        };
        let mut recs: Vec<Record> = Vec::new();
        let mut i: u32 = 0;
        while i < rd_count
            invariant
                i <= rd_count,
                pr.wf(),
                pr.data() == payload@,
                tpe == MSG_GNS_LOOKUP_RESULT,
                payload@.len() >= 8,
                id as int == spec_u32_be(payload@[0], payload@[1], payload@[2], payload@[3]),
                rd_count as int == spec_u32_be(payload@[4], payload@[5], payload@[6], payload@[7]),
                old(self).spec_registered(id),
                spec_parse_records(payload@, 8, rd_count as nat) == (match spec_parse_records(
                    payload@,
                    pr.position(),
                    (rd_count - i) as nat,
                ) {
                    None => None::<(Seq<RecordV>, int)>,
                    Some((rest, p)) => Some((spec_record_views(recs@) + rest, p)),
                }),
            decreases rd_count - i,
        {
            let ghost pos0 = pr.position();
            let ghost m = (rd_count - i) as nat;
            let rec = match Record::deserialize(&mut pr) {
                Some(rec) => rec,
                None => {
                    proof {
                        assert(spec_parse_record_at(payload@, pos0) is None);
                        assert(spec_parse_records(payload@, pos0, m) is None);
                        assert(spec_parse_records(payload@, 8, rd_count as nat) is None);
                    }
                    return ProcessMessageResult::Reconnect;
                },
            };
            proof {
                let size = spec_u32_be(
                    payload@[pos0 + 8],
                    payload@[pos0 + 9],
                    payload@[pos0 + 10],
                    payload@[pos0 + 11],
                );
                assert(rec.data@ =~= payload@.subrange(pos0 + 20, pos0 + 20 + size));
                assert(spec_parse_record_at(payload@, pos0) == Some((rec@, pr.position())));
            }
            let ghost rv = rec@;
            let ghost old_recs = recs@;
            recs.push(rec);
            i = i + 1;
            proof {
                assert(recs@.drop_last() =~= old_recs);
                assert(spec_record_views(recs@) =~= spec_record_views(old_recs) + seq![rv]);
                let cur = spec_parse_records(payload@, pr.position(), (rd_count - i) as nat);
                assert(spec_parse_records(payload@, pos0, m) == (match cur {
                    None => None::<(Seq<RecordV>, int)>,
                    Some((rest, p)) => Some((seq![rv] + rest, p)),
                }));
                if cur is Some {
                    let (rest, p) = cur.unwrap();
                    assert(spec_record_views(old_recs) + (seq![rv] + rest) =~= spec_record_views(
                        recs@,
                    ) + rest);
                }
            }
        }
        proof {
            assert(spec_parse_records(payload@, pr.position(), 0) == Some(
                (Seq::<RecordV>::empty(), pr.position()),
            ));
            assert(spec_record_views(recs@) + Seq::<RecordV>::empty() =~= spec_record_views(
                recs@,
            ));
        }
        let mut q = match self.handles.remove(&id) {
            Some(q) => q,
            None => {
                return ProcessMessageResult::Reconnect;
            },
        };
        let ghost old_q = q@;
        let ghost all_recs = recs@;
        while recs.len() > 0
            invariant
                recs@.len() <= all_recs.len(),
                recs@ == all_recs.subrange(
                    all_recs.len() - recs@.len(),
                    all_recs.len() as int,
                ),
                q@ == old_q + all_recs.subrange(0, all_recs.len() - recs@.len()),
            decreases recs@.len(),
        {
            let ghost before = recs@;
            let rec = recs.remove(0);
            proof {
                assert(rec == before[0]);
                assert(recs@ =~= before.drop_first());
            }
            q.push(rec);
            proof {
                assert(recs@ =~= all_recs.subrange(
                    all_recs.len() - recs@.len(),
                    all_recs.len() as int,
                ));
                assert(q@ =~= old_q + all_recs.subrange(0, all_recs.len() - recs@.len()));
            }
        }
        assert(q@ =~= old_q + all_recs);
        self.handles.insert(id, q);
        proof {
            assert(spec_record_views(old_q + all_recs) =~= spec_record_views(old_q)
                + spec_record_views(all_recs));
            let stv = old(self).view_state();
            let pl = payload@;
            let idv = spec_u32_be(pl[0], pl[1], pl[2], pl[3]) as u32;
            assert(idv == id);
            assert(self.view_state().queues =~= stv.queues.insert(
                idv,
                stv.queues[idv] + spec_record_views(all_recs),
            ));
        }
        ProcessMessageResult::Continue
    }

    /// Takes the oldest undelivered record of the handle's request,
    /// if any has arrived and not been taken.
    pub fn recv(&mut self, h: &LookupHandle) -> (r: Option<Record>)
        ensures
            final(self).spec_next_id() == old(self).spec_next_id(),
            forall|id2: u32|
                #[trigger] final(self).spec_registered(id2) == old(self).spec_registered(id2),
            forall|id2: u32|
                id2 != h.spec_id() && old(self).spec_registered(id2)
                    ==> #[trigger] final(self).spec_queue(id2) == old(self).spec_queue(id2),
            match r {
                Some(rec) => {
                    &&& old(self).spec_registered(h.spec_id())
                    &&& old(self).spec_queue(h.spec_id()).len() > 0
                    &&& rec == old(self).spec_queue(h.spec_id())[0]
                    &&& final(self).spec_queue(h.spec_id()) == old(self).spec_queue(
                        h.spec_id(),
                    ).drop_first()
                },
                None => {
                    &&& (!old(self).spec_registered(h.spec_id()) || old(self).spec_queue(
                        h.spec_id(),
                    ).len() == 0)
                    &&& spec_gns_unchanged(*old(self), *final(self))
                },
            },
    {
        let mut q = match self.handles.remove(&h.id) {
            Some(q) => q,
            None => {
                proof {
                    assert(self.handles@ =~= old(self).handles@);
                }
                return None;
            },
        };
        if q.len() == 0 {
            self.handles.insert(h.id, q);
            proof {
                assert(self.handles@ =~= old(self).handles@);
            }
            return None;
        }
        let rec = q.remove(0);
        self.handles.insert(h.id, q);
        Some(rec)
    }
}

/// Whether two connection states are the same: same next id, same
/// registered ids, same queues.
pub open spec fn spec_gns_unchanged(a: GNS, b: GNS) -> bool {
    &&& a.spec_next_id() == b.spec_next_id()
    &&& forall|id: u32| #[trigger] a.spec_registered(id) == b.spec_registered(id)
    &&& forall|id: u32|
        a.spec_registered(id) ==> #[trigger] a.spec_queue(id) == b.spec_queue(id)
}

} // verus!
