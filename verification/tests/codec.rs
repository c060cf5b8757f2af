//! The frame codec: round trips, the minimum-length rule, and
//! truncated streams.

use gnunet::service::{encode_frame, read_message, write_message, ReadMessageError};

#[test]
fn frame_round_trip() {
    let payload: Vec<u8> = vec![1, 2, 3, 4, 5];
    let frame = encode_frame(7, &payload);
    assert_eq!(frame.len(), payload.len() + 4);
    assert_eq!(&frame[..4], &[0, 9, 0, 7]);
    let (tpe, mut pr, next) = read_message(&frame, 0).unwrap();
    assert_eq!(tpe, 7);
    assert_eq!(next, frame.len());
    assert_eq!(pr.remaining_len(), 5);
    assert_eq!(pr.read_exact(5).unwrap(), payload);
}

#[test]
fn frame_round_trip_empty_payload() {
    let payload: Vec<u8> = Vec::new();
    let frame = encode_frame(65535, &payload);
    assert_eq!(frame, vec![0, 4, 255, 255]);
    let (tpe, mut pr, next) = read_message(&frame, 0).unwrap();
    assert_eq!(tpe, 65535);
    assert_eq!(next, 4);
    assert_eq!(pr.remaining_len(), 0);
    assert!(pr.read_u8().is_none());
}

#[test]
fn frame_round_trip_two_frames() {
    let mut stream = encode_frame(1, &vec![9]);
    stream.extend_from_slice(&encode_frame(2, &vec![8, 7]));
    let (tpe1, _, next1) = read_message(&stream, 0).unwrap();
    assert_eq!(tpe1, 1);
    let (tpe2, mut pr2, next2) = read_message(&stream, next1).unwrap();
    assert_eq!(tpe2, 2);
    assert_eq!(next2, stream.len());
    assert_eq!(pr2.read_exact(2).unwrap(), vec![8, 7]);
}

#[test]
fn minimum_length_rejected() {
    // declared total length 3, below the 4-byte header minimum
    let stream: Vec<u8> = vec![0, 3, 9, 9, 9, 9];
    match read_message(&stream, 0) {
        Err(ReadMessageError::ShortMessage { len }) => assert_eq!(len, 3),
        _ => panic!("a declared length below four must be refused"),
    }
    // the outcome hangs on the two length bytes alone
    let stream2: Vec<u8> = vec![0, 3];
    assert!(matches!(
        read_message(&stream2, 0),
        Err(ReadMessageError::ShortMessage { len: 3 })
    ));
    let stream3: Vec<u8> = vec![0, 0];
    assert!(matches!(
        read_message(&stream3, 0),
        Err(ReadMessageError::ShortMessage { len: 0 })
    ));
}

#[test]
fn truncated_stream_is_disconnect() {
    // the frame declares 10 bytes but the stream ends after 4
    let stream: Vec<u8> = vec![0, 10, 0, 1];
    assert!(matches!(
        read_message(&stream, 0),
        Err(ReadMessageError::Disconnected)
    ));
    // a stream too short even for the length field
    let stream2: Vec<u8> = vec![0];
    assert!(matches!(
        read_message(&stream2, 0),
        Err(ReadMessageError::Disconnected)
    ));
    let stream3: Vec<u8> = Vec::new();
    assert!(matches!(
        read_message(&stream3, 0),
        Err(ReadMessageError::Disconnected)
    ));
}

#[test]
fn message_writer_builds_header_and_payload() {
    let mut w = write_message(8, 331);
    w.write_u32_be(0xDEADBEEF);
    let frame = w.finish();
    assert_eq!(frame, vec![0, 8, 1, 75, 0xDE, 0xAD, 0xBE, 0xEF]);
}
