//! The peer listing, HELLOs and the transport round trip.

use std::str::FromStr;

use gnunet::hello::{Hello, HelloDeserializeError};
use gnunet::peerinfo::{
    iterate_peers, next_peer, NextPeerError, MSG_PEERINFO_GET_ALL, MSG_PEERINFO_INFO,
    MSG_PEERINFO_INFO_END,
};
use gnunet::transport::{TransportService, TransportServiceInitError, MSG_HELLO};
use gnunet::wire::PayloadReader;
use gnunet::{PeerIdentity, RecordType};

fn info_payload(fill: u8) -> Vec<u8> {
    let mut p: Vec<u8> = Vec::new();
    p.extend_from_slice(&0u32.to_be_bytes());
    p.extend_from_slice(&[fill; 32]);
    p
}

#[test]
fn iterate_peers_request_layout() {
    let frame = iterate_peers();
    assert_eq!(frame.len(), 8);
    assert_eq!(&frame[..2], &[0, 8]);
    assert_eq!(u16::from_be_bytes([frame[2], frame[3]]), MSG_PEERINFO_GET_ALL);
    assert_eq!(&frame[4..8], &[0, 0, 0, 0]);
}

#[test]
fn next_peer_reads_listing() {
    match next_peer(MSG_PEERINFO_INFO, &info_payload(9)) {
        Some(Ok((pi, hello))) => {
            assert!(hello.is_none());
            let mut expected: Vec<u8> = Vec::new();
            expected.extend_from_slice(&[9; 32]);
            let mut w: Vec<u8> = Vec::new();
            pi.serialize(&mut w);
            assert_eq!(w, expected);
        },
        _ => panic!("an info frame must yield a peer"),
    }
    assert!(next_peer(MSG_PEERINFO_INFO_END, &Vec::new()).is_none());
    assert!(matches!(
        next_peer(777, &Vec::new()),
        Some(Err(NextPeerError::UnexpectedMessageType { ty: 777 }))
    ));
    let mut nonzero = info_payload(9);
    nonzero[3] = 1;
    assert!(matches!(
        next_peer(MSG_PEERINFO_INFO, &nonzero),
        Some(Err(NextPeerError::InvalidResponse))
    ));
    assert!(matches!(
        next_peer(MSG_PEERINFO_INFO, &vec![0, 0]),
        Some(Err(NextPeerError::Disconnected))
    ));
}

#[test]
fn peer_identity_text_round_trip() {
    let pi = PeerIdentity::from_bytes((0u8..32).collect());
    let text = pi.to_text();
    let back = PeerIdentity::from_str(&text).unwrap();
    let mut a: Vec<u8> = Vec::new();
    let mut b: Vec<u8> = Vec::new();
    pi.serialize(&mut a);
    back.serialize(&mut b);
    assert_eq!(a, b);
}

#[test]
fn hello_deserialize_reads_flag_and_id() {
    let mut p: Vec<u8> = Vec::new();
    p.extend_from_slice(&1u32.to_be_bytes());
    p.extend_from_slice(&[4; 32]);
    let mut pr = PayloadReader::new(p);
    let h = Hello::deserialize(&mut pr).unwrap();
    assert!(h.friend_only);
    let mut w: Vec<u8> = Vec::new();
    h.id.serialize(&mut w);
    assert_eq!(w, vec![4; 32]);
    let mut short = PayloadReader::new(vec![0, 0, 0, 0, 1]);
    assert!(matches!(
        Hello::deserialize(&mut short),
        Err(HelloDeserializeError::ShortMessage)
    ));
}

#[test]
fn transport_round_trip() {
    let start = TransportService::start_request_frame();
    assert_eq!(start.len(), 40);
    assert_eq!(&start[..2], &[0, 40]);
    let mut reply: Vec<u8> = Vec::new();
    reply.extend_from_slice(&0u32.to_be_bytes());
    reply.extend_from_slice(&[6; 32]);
    let ts = TransportService::from_reply(MSG_HELLO, &reply).unwrap();
    let mut w: Vec<u8> = Vec::new();
    ts.hello().id.serialize(&mut w);
    assert_eq!(w, vec![6; 32]);
    assert!(matches!(
        TransportService::from_reply(361, &reply),
        Err(TransportServiceInitError::NonHelloMessage { ty: 361 })
    ));
}

#[test]
fn record_type_names_and_numbers() {
    assert_eq!(RecordType::from_u32(1), Some(RecordType::A));
    assert_eq!(RecordType::from_u32(65536), Some(RecordType::PKEY));
    assert_eq!(RecordType::from_u32(1234), None);
    assert_eq!(RecordType::A.to_u32(), 1);
    assert_eq!(RecordType::GNS2DNS.to_u32(), 65540);
    assert_eq!(RecordType::from_str("A").unwrap(), RecordType::A);
    assert_eq!(RecordType::from_str("PKEY").unwrap(), RecordType::PKEY);
    assert!(RecordType::from_str("BOGUS").is_err());
}
