//! The synchronous bootstrap pattern: the sentinel-terminated
//! identity stream and the default-ego round trip.

use gnunet::identity::{
    ConnectError, GetDefaultEgoError, MSG_IDENTITY_GET_DEFAULT, MSG_IDENTITY_RESULT_CODE,
    MSG_IDENTITY_SET_DEFAULT, MSG_IDENTITY_START, MSG_IDENTITY_UPDATE,
};
use gnunet::{EcdsaPrivateKey, IdentityService};

/// One identity-update payload carrying a key and a name.
fn update_payload(pk: &[u8; 32], name: &str) -> Vec<u8> {
    let mut p: Vec<u8> = Vec::new();
    p.extend_from_slice(&((name.len() + 1) as u16).to_be_bytes());
    p.extend_from_slice(&0u16.to_be_bytes()); // not the end of the list
    p.extend_from_slice(pk);
    p.extend_from_slice(name.as_bytes());
    p.push(0);
    p
}

/// The sentinel payload that ends the identity stream.
fn terminal_payload() -> Vec<u8> {
    let mut p: Vec<u8> = Vec::new();
    p.extend_from_slice(&0u16.to_be_bytes());
    p.extend_from_slice(&1u16.to_be_bytes()); // end-of-list flag
    p
}

#[test]
fn start_frame_is_bare_header() {
    assert_eq!(IdentityService::start_request_frame(), vec![0, 4, 2, 112]);
    assert_eq!(MSG_IDENTITY_START, 624);
}

#[test]
fn sentinel_terminates_stream() {
    // k records followed by one terminal record: the stream yields
    // exactly k egos and then reports completion, never touching
    // anything past the terminal frame
    let k = 3;
    let mut frames: Vec<Vec<u8>> = Vec::new();
    for i in 0..k {
        frames.push(update_payload(&[i as u8 + 1; 32], &format!("ego-{}", i)));
    }
    frames.push(terminal_payload());
    frames.push(update_payload(&[99; 32], "past-the-end"));

    let mut ids = IdentityService::new();
    let mut consumed = 0;
    for f in &frames {
        consumed += 1;
        if ids.process_update(MSG_IDENTITY_UPDATE, f).unwrap() {
            break;
        }
    }
    assert_eq!(consumed, k + 1);
    // exactly the k egos before the sentinel are in the table
    for i in 0..k {
        let pk = EcdsaPrivateKey::from_bytes(vec![i as u8 + 1; 32]);
        let id = pk.get_public().hash();
        let reply = set_default_payload(&key_bytes(i as u8 + 1), &format!("ego-{}", i));
        let ego = ids
            .get_default_ego(&format!("ego-{}", i), MSG_IDENTITY_SET_DEFAULT, &reply)
            .unwrap();
        assert_eq!(ego.get_name().unwrap(), format!("ego-{}", i));
        assert_eq!(ego.get_id().to_bytes(), id.to_bytes());
    }
}

fn key_bytes(fill: u8) -> [u8; 32] {
    [fill; 32]
}

/// The reply that names an ego as a service's default.
fn set_default_payload(pk: &[u8; 32], name: &str) -> Vec<u8> {
    let mut p: Vec<u8> = Vec::new();
    p.extend_from_slice(&((name.len() + 1) as u16).to_be_bytes());
    p.extend_from_slice(&0u16.to_be_bytes());
    p.extend_from_slice(pk);
    p.extend_from_slice(name.as_bytes());
    p.push(0);
    p
}

#[test]
fn whole_stream_bootstrap_stops_at_sentinel() {
    // the framed form of the sentinel-terminated stream, with junk
    // after the terminal frame that a clean run must never touch
    let mut stream: Vec<u8> = Vec::new();
    for i in 0..2u8 {
        stream.extend_from_slice(&gnunet::service::encode_frame(
            MSG_IDENTITY_UPDATE,
            &update_payload(&[i + 1; 32], "ego"),
        ));
    }
    let terminal = gnunet::service::encode_frame(MSG_IDENTITY_UPDATE, &terminal_payload());
    stream.extend_from_slice(&terminal);
    let end_of_terminal = stream.len();
    stream.extend_from_slice(&[0xDE, 0xAD]);

    let mut ids = IdentityService::new();
    let (end, k) = ids.run_update_stream(&stream).unwrap();
    assert_eq!(k, 2);
    assert_eq!(end, end_of_terminal);
}

#[test]
fn update_stream_replaces_same_key() {
    let mut ids = IdentityService::new();
    let pk = [5u8; 32];
    assert_eq!(ids.process_update(MSG_IDENTITY_UPDATE, &update_payload(&pk, "old")).unwrap(), false);
    assert_eq!(ids.process_update(MSG_IDENTITY_UPDATE, &update_payload(&pk, "new")).unwrap(), false);
    let reply = set_default_payload(&pk, "new");
    let ego = ids.get_default_ego("new", MSG_IDENTITY_SET_DEFAULT, &reply).unwrap();
    assert_eq!(ego.get_name().unwrap(), "new");
}

#[test]
fn update_stream_refuses_foreign_frames() {
    let mut ids = IdentityService::new();
    assert!(matches!(
        ids.process_update(MSG_IDENTITY_RESULT_CODE, &terminal_payload()),
        Err(ConnectError::UnexpectedMessageType { ty: MSG_IDENTITY_RESULT_CODE })
    ));
    assert!(matches!(
        ids.process_update(MSG_IDENTITY_UPDATE, &vec![0, 1]),
        Err(ConnectError::Disconnected)
    ));
    // a name that is not UTF-8
    let mut bad = update_payload(&[1; 32], "x");
    let n = bad.len();
    bad[n - 2] = 0xFF;
    assert!(matches!(
        ids.process_update(MSG_IDENTITY_UPDATE, &bad),
        Err(ConnectError::InvalidName)
    ));
}

#[test]
fn get_default_request_frame_layout() {
    let ids = IdentityService::new();
    let frame = ids.get_default_ego_request_frame("gns-master").unwrap();
    // 4 header + 2 name length + 2 reserved + 10 name + NUL
    assert_eq!(frame.len(), 19);
    assert_eq!(&frame[..2], &[0, 19]);
    assert_eq!(
        u16::from_be_bytes([frame[2], frame[3]]),
        MSG_IDENTITY_GET_DEFAULT
    );
    assert_eq!(u16::from_be_bytes([frame[4], frame[5]]), 11);
    assert_eq!(&frame[8..18], b"gns-master");
    assert_eq!(frame[18], 0);
}

#[test]
fn get_default_ego_error_reply() {
    let ids = IdentityService::new();
    let mut p: Vec<u8> = Vec::new();
    p.extend_from_slice(&1u32.to_be_bytes());
    p.extend_from_slice(b"no such ego\0");
    match ids.get_default_ego("gns-master", MSG_IDENTITY_RESULT_CODE, &p) {
        Err(GetDefaultEgoError::ServiceResponse { response }) => {
            assert_eq!(response, "no such ego")
        },
        _ => panic!("a result-code reply must surface the service's error string"),
    }
}

#[test]
fn get_default_ego_incoherent_replies() {
    let mut ids = IdentityService::new();
    ids.process_update(MSG_IDENTITY_UPDATE, &update_payload(&[3; 32], "me")).unwrap();
    // an echoed name that does not match the query
    let reply = set_default_payload(&[3; 32], "someone-else");
    assert!(matches!(
        ids.get_default_ego("me", MSG_IDENTITY_SET_DEFAULT, &reply),
        Err(GetDefaultEgoError::InvalidResponse)
    ));
    // a key the update stream never delivered
    let reply2 = set_default_payload(&[77; 32], "me");
    assert!(matches!(
        ids.get_default_ego("me", MSG_IDENTITY_SET_DEFAULT, &reply2),
        Err(GetDefaultEgoError::InvalidResponse)
    ));
    // an unrelated frame type
    assert!(matches!(
        ids.get_default_ego("me", MSG_IDENTITY_UPDATE, &reply),
        Err(GetDefaultEgoError::InvalidResponse)
    ));
}

#[test]
fn anonymous_ego_is_nameless() {
    let ego = gnunet::Ego::anonymous();
    assert!(ego.get_name().is_none());
    assert_eq!(ego.get_private_key().to_bytes()[31], 1);
    assert_eq!(ego.get_id().to_bytes(), ego.get_public_key().hash().to_bytes());
}
