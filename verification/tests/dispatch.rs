//! The correlated-request pattern: registration, dispatch decisions,
//! and delivery of lookup replies.

use gnunet::gns::{choose_local_options, LookupError, MSG_GNS_LOOKUP, MSG_GNS_LOOKUP_RESULT};
use gnunet::service::ProcessMessageResult;
use gnunet::{EcdsaPublicKey, LocalOptions, RecordType, GNS};

fn zone() -> EcdsaPublicKey {
    EcdsaPublicKey::from_bytes(vec![7u8; 32])
}

/// One reply payload: the request id, a record count, and that many
/// records of type A carrying the given data.
fn reply_payload(id: u32, datas: &[&[u8]]) -> Vec<u8> {
    let mut p: Vec<u8> = Vec::new();
    p.extend_from_slice(&id.to_be_bytes());
    p.extend_from_slice(&(datas.len() as u32).to_be_bytes());
    for (i, d) in datas.iter().enumerate() {
        p.extend_from_slice(&(1000 + i as u64).to_be_bytes()); // expiration
        p.extend_from_slice(&(d.len() as u32).to_be_bytes()); // data size
        p.extend_from_slice(&1u32.to_be_bytes()); // record type A
        p.extend_from_slice(&0u32.to_be_bytes()); // flags
        p.extend_from_slice(d);
    }
    p
}

#[test]
fn lookup_builds_request_frame() {
    let mut gns = GNS::new();
    let (h, frame) = gns
        .lookup("www.gnu", &zone(), RecordType::A, LocalOptions::LocalMaster, None)
        .unwrap();
    assert_eq!(h.request_id(), 0);
    // total length: 4 header + 76 fixed + name + NUL
    assert_eq!(frame.len(), 4 + 76 + 7 + 1);
    assert_eq!(&frame[..4], &[0, 88, (MSG_GNS_LOOKUP >> 8) as u8, (MSG_GNS_LOOKUP & 0xff) as u8]);
    assert_eq!(&frame[4..8], &[0, 0, 0, 0]); // request id
    assert_eq!(&frame[8..40], &[7u8; 32][..]); // zone key
    assert_eq!(&frame[40..42], &[0, 2]); // local-master option
    assert_eq!(&frame[42..44], &[0, 0]); // no shorten key follows
    assert_eq!(&frame[44..48], &[0, 0, 0, 1]); // record type A
    assert_eq!(&frame[48..80], &[0u8; 32][..]); // shorten slot zeroed
    assert_eq!(&frame[80..87], b"www.gnu");
    assert_eq!(frame[87], 0);
}

#[test]
fn lookup_name_too_long() {
    let mut gns = GNS::new();
    let long = "x".repeat(254);
    match gns.lookup(&long, &zone(), RecordType::A, LocalOptions::Default, None) {
        Err(LookupError::NameTooLong { name }) => assert_eq!(name, long),
        _ => panic!("a 254-byte name must be refused"),
    }
}

#[test]
fn lookup_success_scenario() {
    // a lookup for "www.gnu" answered at once with one A record
    let mut gns = GNS::new();
    let (h, _frame) = gns
        .lookup("www.gnu", &zone(), RecordType::A, LocalOptions::LocalMaster, None)
        .unwrap();
    let payload = reply_payload(h.request_id(), &[&[192, 0, 2, 1]]);
    assert!(matches!(
        gns.process_message(MSG_GNS_LOOKUP_RESULT, &payload),
        ProcessMessageResult::Continue
    ));
    let rec = gns.recv(&h).unwrap();
    assert_eq!(rec.record_type, 1);
    assert_eq!(rec.record_type(), RecordType::A);
    assert_eq!(rec.data, vec![192, 0, 2, 1]);
    assert_eq!(rec.expiration_time, 1000);
    assert!(gns.recv(&h).is_none());
}

#[test]
fn registration_precedes_send() {
    // the reply can arrive the moment the request frame exists:
    // the registration made by `lookup` is already in place, so the
    // delivery cannot be dropped even under maximal interleaving
    let mut gns = GNS::new();
    let (h, frame) = gns
        .lookup("alice", &zone(), RecordType::PKEY, LocalOptions::Default, None)
        .unwrap();
    // the reply beats any further foreground step
    let payload = reply_payload(h.request_id(), &[&[1]]);
    assert!(matches!(
        gns.process_message(MSG_GNS_LOOKUP_RESULT, &payload),
        ProcessMessageResult::Continue
    ));
    assert!(gns.recv(&h).is_some());
    drop(frame);
}

#[test]
fn no_misdelivery_across_requests() {
    // several outstanding requests with distinct ids: each handle
    // sees exactly the records sent under its own id
    let mut gns = GNS::new();
    let (h0, _) = gns
        .lookup("one.gnu", &zone(), RecordType::A, LocalOptions::Default, None)
        .unwrap();
    let (h1, _) = gns
        .lookup("two.gnu", &zone(), RecordType::A, LocalOptions::Default, None)
        .unwrap();
    let (h2, _) = gns
        .lookup("three.gnu", &zone(), RecordType::A, LocalOptions::Default, None)
        .unwrap();
    assert_ne!(h0.request_id(), h1.request_id());
    assert_ne!(h1.request_id(), h2.request_id());
    // replies arrive out of order, and id 1 gets two records
    let p1 = reply_payload(h1.request_id(), &[b"one-for-two", b"two-for-two"]);
    let p0 = reply_payload(h0.request_id(), &[b"for-one"]);
    assert!(matches!(
        gns.process_message(MSG_GNS_LOOKUP_RESULT, &p1),
        ProcessMessageResult::Continue
    ));
    assert!(matches!(
        gns.process_message(MSG_GNS_LOOKUP_RESULT, &p0),
        ProcessMessageResult::Continue
    ));
    // every well-formed reply with a known id reached exactly its
    // own handle, in the order the service emitted it
    assert_eq!(gns.recv(&h0).unwrap().data, b"for-one");
    assert!(gns.recv(&h0).is_none());
    assert_eq!(gns.recv(&h1).unwrap().data, b"one-for-two");
    assert_eq!(gns.recv(&h1).unwrap().data, b"two-for-two");
    assert!(gns.recv(&h1).is_none());
    assert!(gns.recv(&h2).is_none());
}

#[test]
fn unknown_id_dropped_silently() {
    let mut gns = GNS::new();
    let (h, _) = gns
        .lookup("www.gnu", &zone(), RecordType::A, LocalOptions::Default, None)
        .unwrap();
    // a reply for an id nobody registered: not delivered, not fatal
    let stray = reply_payload(h.request_id() + 7, &[b"stray"]);
    assert!(matches!(
        gns.process_message(MSG_GNS_LOOKUP_RESULT, &stray),
        ProcessMessageResult::Continue
    ));
    assert!(gns.recv(&h).is_none());
    // the loop carries on: a later reply for the known id still lands
    let good = reply_payload(h.request_id(), &[b"mine"]);
    assert!(matches!(
        gns.process_message(MSG_GNS_LOOKUP_RESULT, &good),
        ProcessMessageResult::Continue
    ));
    assert_eq!(gns.recv(&h).unwrap().data, b"mine");
}

#[test]
fn foreign_frame_asks_for_reconnect() {
    let mut gns = GNS::new();
    assert!(matches!(
        gns.process_message(999, &vec![0, 0, 0, 0]),
        ProcessMessageResult::Reconnect
    ));
    // a malformed reply for a registered id gives the connection up
    let (h, _) = gns
        .lookup("www.gnu", &zone(), RecordType::A, LocalOptions::Default, None)
        .unwrap();
    let mut bad = Vec::new();
    bad.extend_from_slice(&h.request_id().to_be_bytes());
    bad.extend_from_slice(&5u32.to_be_bytes()); // declares five records, carries none
    assert!(matches!(
        gns.process_message(MSG_GNS_LOOKUP_RESULT, &bad),
        ProcessMessageResult::Reconnect
    ));
    assert!(gns.recv(&h).is_none());
}

#[test]
fn master_zone_option_choice() {
    assert_eq!(choose_local_options("www.gnu"), LocalOptions::NoDHT);
    assert_eq!(choose_local_options("www.example"), LocalOptions::LocalMaster);
    assert_eq!(choose_local_options("a.b.gnu"), LocalOptions::LocalMaster);
    assert_eq!(choose_local_options("gnu"), LocalOptions::LocalMaster);
    assert_eq!(choose_local_options(".gnu"), LocalOptions::NoDHT);
}
