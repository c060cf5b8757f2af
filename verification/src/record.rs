//! Records of the GNU Name System as reply frames carry them: a
//! numeric type tag, flags, an expiration time and opaque data.

use vstd::prelude::*;

use crate::util::str_eq;
use crate::wire::{spec_u32_be, spec_u64_be, PayloadReader};

verus! {

/// The record types of the GNU Name System, legacy DNS types
/// included.
#[derive(Copy, Clone, Debug, PartialEq, Eq, Structural)]
pub enum RecordType {
    /// Address record: a 32-bit IPv4 address.
    A,
    /// Name server record.
    NS,
    /// Canonical name record.
    CNAME,
    /// Start of authority record.
    SOA,
    /// Pointer record.
    PTR,
    /// Mail exchange record.
    MX,
    /// Text record.
    TXT,
    /// Address record: a 128-bit IPv6 address.
    AAAA,
    /// TLSA certificate association record.
    TLSA,
    /// Petname key record, delegating to another user's zone.
    PKEY,
    /// Nickname record, giving a zone a name.
    NICK,
    /// Legacy hostname record.
    LEHO,
    /// Virtual public network record.
    VPN,
    /// Delegation of authority to a legacy DNS zone.
    GNS2DNS,
}

/// The number each record type carries on the wire.
pub open spec fn spec_record_type_num(t: RecordType) -> u32 {
    match t {
        RecordType::A => 1,
        RecordType::NS => 2,
        RecordType::CNAME => 5,
        RecordType::SOA => 6,
        RecordType::PTR => 12,
        RecordType::MX => 15,
        RecordType::TXT => 16,
        RecordType::AAAA => 28,
        RecordType::TLSA => 52,
        RecordType::PKEY => 65536,
        RecordType::NICK => 65537,
        RecordType::LEHO => 65538,
        RecordType::VPN => 65539,
        RecordType::GNS2DNS => 65540,
    }
}

/// Whether a number names a known record type.
pub open spec fn spec_is_record_type_num(x: u32) -> bool {
    x == 1 || x == 2 || x == 5 || x == 6 || x == 12 || x == 15 || x == 16 || x == 28 || x == 52
        || x == 65536 || x == 65537 || x == 65538 || x == 65539 || x == 65540
}

/// Error returned when a string names no record type.
#[derive(Debug, PartialEq, Eq)]
pub struct RecordTypeFromStrError;

impl RecordType {
    /// The number this record type carries on the wire.
    pub fn to_u32(self) -> (r: u32)
        ensures
            r == spec_record_type_num(self),
    {
        match self {
            RecordType::A => 1,
            RecordType::NS => 2,
            RecordType::CNAME => 5,
            RecordType::SOA => 6,
            RecordType::PTR => 12,
            RecordType::MX => 15,
            RecordType::TXT => 16,
            RecordType::AAAA => 28,
            RecordType::TLSA => 52,
            RecordType::PKEY => 65536,
            RecordType::NICK => 65537,
            RecordType::LEHO => 65538,
            RecordType::VPN => 65539,
            RecordType::GNS2DNS => 65540,
        }
    }

    /// The record type a number names, if any.
    pub fn from_u32(x: u32) -> (r: Option<RecordType>)
        ensures
            match r {
                Some(t) => spec_record_type_num(t) == x,
                None => !spec_is_record_type_num(x),
            },
    {
        match x {
            1 => Some(RecordType::A),
            2 => Some(RecordType::NS),
            5 => Some(RecordType::CNAME),
            6 => Some(RecordType::SOA),
            12 => Some(RecordType::PTR),
            15 => Some(RecordType::MX),
            16 => Some(RecordType::TXT),
            28 => Some(RecordType::AAAA),
            52 => Some(RecordType::TLSA),
            65536 => Some(RecordType::PKEY),
            65537 => Some(RecordType::NICK),
            65538 => Some(RecordType::LEHO),
            65539 => Some(RecordType::VPN),
            65540 => Some(RecordType::GNS2DNS),
            _ => None,
        }
    }

    /// The record type a name such as `"A"` or `"PKEY"` stands for.
    pub fn parse(s: &str) -> (r: Result<RecordType, RecordTypeFromStrError>)
        ensures
            match r {
                Ok(t) => spec_record_type_name(t) == s@,
                Err(_) => forall|t: RecordType| spec_record_type_name(t) != s@,
            },
    {
        proof {
            reveal_strlit("A");
            reveal_strlit("NS");
            reveal_strlit("CNAME");
            reveal_strlit("SOA");
            reveal_strlit("PTR");
            reveal_strlit("MX");
            reveal_strlit("TXT");
            reveal_strlit("AAAA");
            reveal_strlit("TLSA");
            reveal_strlit("PKEY");
            reveal_strlit("NICK");
            reveal_strlit("LEHO");
            reveal_strlit("VPN");
            reveal_strlit("GNS2DNS");
        }
        if str_eq(s, "A") {
            Ok(RecordType::A)
        } else if str_eq(s, "NS") {
            Ok(RecordType::NS)
        } else if str_eq(s, "CNAME") {
            Ok(RecordType::CNAME)
        } else if str_eq(s, "SOA") {
            Ok(RecordType::SOA)
        } else if str_eq(s, "PTR") {
            Ok(RecordType::PTR)
        } else if str_eq(s, "MX") {
            Ok(RecordType::MX)
        } else if str_eq(s, "TXT") {
            Ok(RecordType::TXT)
        } else if str_eq(s, "AAAA") {
            Ok(RecordType::AAAA)
        } else if str_eq(s, "TLSA") {
            Ok(RecordType::TLSA)
        } else if str_eq(s, "PKEY") {
            Ok(RecordType::PKEY)
        } else if str_eq(s, "NICK") {
            Ok(RecordType::NICK)
        } else if str_eq(s, "LEHO") {
            Ok(RecordType::LEHO)
        } else if str_eq(s, "VPN") {
            Ok(RecordType::VPN)
        } else if str_eq(s, "GNS2DNS") {
            Ok(RecordType::GNS2DNS)
        } else {
            proof {
                assert forall|t: RecordType| spec_record_type_name(t) != s@ by {
                }
            }
            Err(RecordTypeFromStrError)
        }
    }
}

/// The name each record type is written as.
pub open spec fn spec_record_type_name(t: RecordType) -> Seq<char> {
    match t {
        RecordType::A => "A"@,
        RecordType::NS => "NS"@,
        RecordType::CNAME => "CNAME"@,
        RecordType::SOA => "SOA"@,
        RecordType::PTR => "PTR"@,
        RecordType::MX => "MX"@,
        RecordType::TXT => "TXT"@,
        RecordType::AAAA => "AAAA"@,
        RecordType::TLSA => "TLSA"@,
        RecordType::PKEY => "PKEY"@,
        RecordType::NICK => "NICK"@,
        RecordType::LEHO => "LEHO"@,
        RecordType::VPN => "VPN"@,
        RecordType::GNS2DNS => "GNS2DNS"@,
    }
}

impl core::str::FromStr for RecordType {
    type Err = RecordTypeFromStrError;

    fn from_str(s: &str) -> Result<RecordType, RecordTypeFromStrError> {
        RecordType::parse(s)
    }
}

/// One record of the GNU Name System, as a reply frame carries it.
#[derive(Clone)]
pub struct Record {
    /// Absolute expiration time of the record.
    pub expiration_time: u64,
    /// The numeric record type tag.
    pub record_type: u32,
    /// The record's flag bits.
    pub flags: u32,
    /// The record data, whose meaning the record type owns.
    pub data: Vec<u8>,
}

impl Record {
    /// The record type tag, as a `RecordType`.  The tag must name a
    /// known type; an unknown tag is the caller's bug.
    pub fn record_type(&self) -> (r: RecordType)
        requires
            spec_is_record_type_num(self.record_type),
        ensures
            spec_record_type_num(r) == self.record_type,
    {
        RecordType::from_u32(self.record_type).unwrap()
    }

    /// Reads one record off the front of a payload: expiration time,
    /// data size, type, flags, then the data bytes; `None` when the
    /// payload ends first.
    pub fn deserialize(r: &mut PayloadReader) -> (rec: Option<Record>)
        requires
            old(r).wf(),
        ensures
            final(r).wf(),
            final(r).data() == old(r).data(),
            match rec {
                Some(rec) => {
                    let rem = old(r).remaining();
                    let size = spec_u32_be(rem[8], rem[9], rem[10], rem[11]);
                    &&& rem.len() >= 20
                    &&& rec.expiration_time == spec_u64_be(
                        rem[0], rem[1], rem[2], rem[3], rem[4], rem[5], rem[6], rem[7],
                    )
                    &&& rem.len() >= 20 + size
                    &&& rec.record_type == spec_u32_be(rem[12], rem[13], rem[14], rem[15])
                    &&& rec.flags == spec_u32_be(rem[16], rem[17], rem[18], rem[19])
                    &&& rec.data@ == rem.subrange(20, 20 + size)
                    &&& final(r).position() == old(r).position() + 20 + size
                },
                None => {
                    let rem = old(r).remaining();
                    &&& (rem.len() < 20 || rem.len() < 20 + spec_u32_be(
                        rem[8], rem[9], rem[10], rem[11],
                    ))
                },
            },
    {
        let ghost rem = old(r).remaining();
        let expiration_time = match r.read_u64_be() {
            Some(x) => x,
            None => {
                return None;
            },
        };
        let data_size = match r.read_u32_be() {
            Some(x) => x,
            None => {
                return None;
            },
        };
        let record_type = match r.read_u32_be() {
            Some(x) => x,
            None => {
                return None;
            },
        };
        let flags = match r.read_u32_be() {
            Some(x) => x,
            None => {
                return None;
            },
        };
        let data = match r.read_exact(data_size as usize) {
            Some(v) => v,
            None => {
                return None;
            },
        };
        proof {
            assert(data@ =~= rem.subrange(
                20,
                20 + spec_u32_be(rem[8], rem[9], rem[10], rem[11]),
            ));
        }
        Some(Record { expiration_time, record_type, flags, data })
    }
}

} // verus!
