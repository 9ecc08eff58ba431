//! Transport framing tests.

use rigtether::framing::{fragment, reassemble, FramingError, HEADER_BYTES};

#[test]
fn rejects_zero_length_incoming_transfer() {
    let mut frame = vec![0_u8; 16];
    frame[1] = 0x03;
    frame[4..8].copy_from_slice(&1_u32.to_be_bytes());
    assert_eq!(
        reassemble(&[frame], 20, 1024),
        Err(FramingError::EmptyMessage)
    );
}

#[test]
fn rejects_fragment_larger_than_negotiated_limit() {
    let frame = fragment(b"12345", 21, 1, 1024)
        .expect("valid source frame")
        .remove(0);
    assert_eq!(
        reassemble(&[frame], 20, 1024),
        Err(FramingError::FrameTooLarge)
    );
}

#[test]
fn fragments_round_trip_through_reassembly() {
    let message = br#"{"type":"request","seq":1,"command":{"type":"status_read"}}"#;
    let frames = fragment(message, 20, 7, 1024).expect("fragments");
    assert_eq!(frames.len(), (message.len() + 3) / 4);
    assert!(frames.iter().all(|frame| frame.len() <= 20));
    assert_eq!(frames[0][1], 0x01);
    assert_eq!(frames[frames.len() - 1][1], 0x02);
    for (index, frame) in frames.iter().enumerate() {
        assert_eq!(frame[0], 0);
        assert_eq!(u32::from_be_bytes(frame[4..8].try_into().unwrap()), 7);
        assert_eq!(
            u32::from_be_bytes(frame[8..12].try_into().unwrap()),
            message.len() as u32
        );
        assert_eq!(
            u32::from_be_bytes(frame[12..16].try_into().unwrap()),
            (index * 4) as u32
        );
    }
    assert_eq!(reassemble(&frames, 20, 1024).expect("reassembles"), message);
}

#[test]
fn single_frame_carries_both_flags() {
    let frames = fragment(b"{}", 185, 9, 1024).expect("fragments");
    assert_eq!(frames.len(), 1);
    assert_eq!(frames[0].len(), HEADER_BYTES + 2);
    assert_eq!(frames[0][1], 0x03);
    assert_eq!(&frames[0][16..], b"{}");
}

#[test]
fn fragment_rejects_bad_limits() {
    assert_eq!(fragment(b"{}", 19, 1, 1024), Err(FramingError::TransportLimitTooSmall));
    assert_eq!(fragment(b"", 20, 1, 1024), Err(FramingError::EmptyMessage));
    assert_eq!(fragment(&[b'x'; 1025], 185, 1, 1024), Err(FramingError::MessageTooLarge));
}

#[test]
fn reassembly_errors_are_distinct() {
    let frames = fragment(b"0123456789", 20, 3, 1024).expect("fragments");

    let mut gap = frames.clone();
    gap[1][15] += 1;
    let mut reserved = frames.clone();
    reserved[0][3] = 1;
    let mut unknown = frames.clone();
    unknown[0][1] |= 0x80;
    let mut changed = frames.clone();
    changed[1][8..12].copy_from_slice(&11_u32.to_be_bytes());
    let mut missing_end = frames.clone();
    let last = missing_end.len() - 1;
    missing_end[last][1] &= !0x02;

    for (mutated, expected) in [
        (gap, FramingError::GapOrOverlap),
        (reserved, FramingError::NonzeroReserved),
        (unknown, FramingError::UnknownFlags),
        (changed, FramingError::ChangedTotalLength),
        (missing_end, FramingError::MissingEnd),
    ] {
        let error = reassemble(&mutated, 20, 1024).expect_err("malformed framing must fail");
        assert_eq!(error, expected);
    }
    assert_eq!(FramingError::FrameTooLarge.as_str(), "frame_too_large");
}
