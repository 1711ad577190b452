use amqp_frames::decoder::FrameDecoder;
use amqp_frames::frame::{decode_frame_at, parse_amqp_frame, AmqpFrame, FrameError, MAX_PAYLOAD_LEN};
use amqp_frames::header::{parse_amqp_header, HeaderError};
use amqp_frames::session::{Session, SessionState};

fn frame_bytes(frame_type: u8, channel: u16, payload: &[u8], end: u8) -> Vec<u8> {
    let mut v = vec![frame_type];
    v.extend_from_slice(&channel.to_be_bytes());
    v.extend_from_slice(&(payload.len() as u32).to_be_bytes());
    v.extend_from_slice(payload);
    v.push(end);
    v
}

fn assert_frame(f: &AmqpFrame, frame_type: u8, channel: u16, payload: &[u8]) {
    assert_eq!(f.frame_type, frame_type);
    assert_eq!(f.channel, channel);
    assert_eq!(f.payload, payload.to_vec());
}

#[test]
fn test_parse_amqp_header_valid() {
    let header = b"AMQP\x00\x00\x09\x01";
    assert!(parse_amqp_header(header).is_ok());
}

#[test]
fn test_parse_amqp_header_invalid() {
    let header = b"XYZ\x00\x00\x09\x01";
    assert!(parse_amqp_header(header).is_err());
}

#[test]
fn test_parse_amqp_frame_success() {
    let mut frame_data = vec![];
    frame_data.push(1);
    frame_data.extend_from_slice(&1u16.to_be_bytes());
    frame_data.extend_from_slice(&3u32.to_be_bytes());
    frame_data.extend_from_slice(&[0xA, 0xB, 0xC]);
    frame_data.push(0xCE);

    let parsed = parse_amqp_frame(&frame_data).expect("Should parse successfully");
    assert_eq!(parsed.frame_type, 1);
    assert_eq!(parsed.channel, 1);
    assert_eq!(parsed.payload, vec![0xA, 0xB, 0xC]);
}

#[test]
fn test_parse_amqp_frame_invalid_end_marker() {
    let mut frame_data = vec![];
    frame_data.push(1);
    frame_data.extend_from_slice(&1u16.to_be_bytes());
    frame_data.extend_from_slice(&1u32.to_be_bytes());
    frame_data.push(0xA);
    frame_data.push(0xAB);
    let parsed = parse_amqp_frame(&frame_data);
    assert!(parsed.is_err());
}

#[test]
fn header_scenario_accepts_and_rejects() {
    let good = [0x41, 0x4D, 0x51, 0x50, 0x00, 0x00, 0x09, 0x01];
    assert_eq!(parse_amqp_header(&good), Ok(()));
    let bad = [0x41, 0x4D, 0x51, 0x50, 0x00, 0x00, 0x09, 0x00];
    assert_eq!(parse_amqp_header(&bad), Err(HeaderError::Mismatch));
}

#[test]
fn header_too_short() {
    assert_eq!(parse_amqp_header(b"AMQP\x00\x00\x09"), Err(HeaderError::TooShort));
    assert_eq!(parse_amqp_header(&[]), Err(HeaderError::TooShort));
}

#[test]
fn header_followed_by_more_bytes() {
    assert_eq!(parse_amqp_header(b"AMQP\x00\x00\x09\x01\x01"), Ok(()));
}

#[test]
fn frame_scenario_decodes() {
    let bytes = [0x01, 0x00, 0x01, 0x00, 0x00, 0x00, 0x03, 0x0A, 0x0B, 0x0C, 0xCE];
    let f = parse_amqp_frame(&bytes).unwrap();
    assert_frame(&f, 1, 1, &[0x0A, 0x0B, 0x0C]);
}

#[test]
fn frame_scenario_bad_terminator_fails_session() {
    let bytes = [0x01, 0x00, 0x01, 0x00, 0x00, 0x00, 0x03, 0x0A, 0x0B, 0x0C, 0xAB];
    assert!(matches!(parse_amqp_frame(&bytes), Err(FrameError::BadTerminator { found: 0xAB })));

    let mut s = Session::new(MAX_PAYLOAD_LEN);
    assert_eq!(s.on_header(b"AMQP\x00\x00\x09\x01"), Ok(()));
    assert_eq!(s.state(), SessionState::FramingLoop);
    let out = s.on_read(&bytes);
    assert!(out.frames.is_empty());
    assert_eq!(out.error, Some(FrameError::BadTerminator { found: 0xAB }));
    assert_eq!(s.state(), SessionState::Failed);
}

#[test]
fn frame_scenario_split_across_feeds() {
    let mut d = FrameDecoder::new();
    let first = d.feed(&[0x01, 0x00]);
    assert!(first.frames.is_empty());
    assert_eq!(first.error, None);
    assert_eq!(d.buffered_len(), 2);
    let second = d.feed(&[0x01, 0x00, 0x00, 0x00, 0x03, 0x0A, 0x0B, 0x0C, 0xCE]);
    assert_eq!(second.error, None);
    assert_eq!(second.frames.len(), 1);
    assert_frame(&second.frames[0], 1, 1, &[0x0A, 0x0B, 0x0C]);
    assert_eq!(d.buffered_len(), 0);
}

#[test]
fn byte_at_a_time_matches_whole_feed() {
    let mut stream = frame_bytes(1, 1, &[1, 2, 3], 0xCE);
    stream.extend(frame_bytes(3, 0x0102, &[], 0xCE));
    stream.extend(frame_bytes(2, 7, &[9; 300], 0xCE));
    stream.extend_from_slice(&[8, 0]);

    let mut whole = FrameDecoder::new();
    let all = whole.feed(&stream);
    assert_eq!(all.error, None);
    assert_eq!(all.frames.len(), 3);

    let mut single = FrameDecoder::new();
    let mut collected: Vec<AmqpFrame> = Vec::new();
    for b in &stream {
        let out = single.feed(&[*b]);
        assert_eq!(out.error, None);
        collected.extend(out.frames);
    }
    assert_eq!(collected.len(), all.frames.len());
    for (a, b) in collected.iter().zip(all.frames.iter()) {
        assert_frame(a, b.frame_type, b.channel, &b.payload);
    }
    assert_eq!(single.buffered_len(), 2);
    assert_eq!(whole.buffered_len(), 2);
}

#[test]
fn round_trip_payloads() {
    for len in [0usize, 1, 255, 256, 70000] {
        let payload: Vec<u8> = (0..len).map(|i| (i % 251) as u8).collect();
        let bytes = frame_bytes(8, 0xBEEF, &payload, 0xCE);
        let f = parse_amqp_frame(&bytes).unwrap();
        assert_frame(&f, 8, 0xBEEF, &payload);
    }
}

#[test]
fn any_other_terminator_is_rejected() {
    for end in [0x00u8, 0xCD, 0xCF, 0xFF] {
        let bytes = frame_bytes(1, 2, &[5, 6], end);
        let mut d = FrameDecoder::new();
        let out = d.feed(&bytes);
        assert!(out.frames.is_empty());
        assert_eq!(out.error, Some(FrameError::BadTerminator { found: end }));
    }
}

#[test]
fn short_feed_keeps_every_byte() {
    let bytes = frame_bytes(1, 1, &[1, 2, 3, 4], 0xCE);
    for cut in 0..bytes.len() {
        let mut d = FrameDecoder::new();
        let out = d.feed(&bytes[..cut]);
        assert!(out.frames.is_empty());
        assert_eq!(out.error, None);
        assert_eq!(d.buffered_len(), cut);
        assert!(matches!(parse_amqp_frame(&bytes[..cut]), Err(FrameError::Incomplete)));
    }
}

#[test]
fn two_frames_in_one_feed() {
    let mut bytes = frame_bytes(1, 1, &[0x0A], 0xCE);
    bytes.extend(frame_bytes(2, 3, &[0x0B, 0x0C], 0xCE));
    let mut d = FrameDecoder::new();
    let out = d.feed(&bytes);
    assert_eq!(out.error, None);
    assert_eq!(out.frames.len(), 2);
    assert_frame(&out.frames[0], 1, 1, &[0x0A]);
    assert_frame(&out.frames[1], 2, 3, &[0x0B, 0x0C]);
    assert_eq!(d.buffered_len(), 0);
}

#[test]
fn payload_over_limit_is_rejected_early() {
    let mut d = FrameDecoder::with_max_payload(2);
    let out = d.feed(&[1, 0, 1, 0, 0, 0, 3]);
    assert!(out.frames.is_empty());
    assert_eq!(out.error, Some(FrameError::PayloadTooLarge { len: 3 }));
    assert_eq!(d.error(), Some(FrameError::PayloadTooLarge { len: 3 }));
    let again = d.feed(&[0x0A, 0x0B, 0x0C, 0xCE]);
    assert!(again.frames.is_empty());
    assert_eq!(again.error, Some(FrameError::PayloadTooLarge { len: 3 }));
    assert_eq!(d.buffered_len(), 7);
}

#[test]
fn frames_before_an_error_are_kept() {
    let mut bytes = frame_bytes(1, 1, &[0x0A], 0xCE);
    bytes.extend(frame_bytes(2, 3, &[0x0B], 0x00));
    let mut d = FrameDecoder::new();
    let out = d.feed(&bytes);
    assert_eq!(out.frames.len(), 1);
    assert_frame(&out.frames[0], 1, 1, &[0x0A]);
    assert_eq!(out.error, Some(FrameError::BadTerminator { found: 0x00 }));
    assert_eq!(d.buffered_len(), 9);
}

#[test]
fn big_endian_fields() {
    let bytes = frame_bytes(4, 0x0102, &[0; 0x0103], 0xCE);
    let f = parse_amqp_frame(&bytes).unwrap();
    assert_eq!(f.channel, 258);
    assert_eq!(f.payload.len(), 259);
    let mut big = vec![1, 0, 0, 0x12, 0x34, 0x56, 0x78];
    big.push(0);
    assert!(matches!(parse_amqp_frame(&big), Err(FrameError::PayloadTooLarge { len: 0x12345678 })));
}

#[test]
fn decode_at_offset() {
    let mut bytes = vec![0xFF, 0xFF, 0xFF];
    bytes.extend(frame_bytes(5, 6, &[7], 0xCE));
    let (f, n) = decode_frame_at(&bytes, 3, MAX_PAYLOAD_LEN).unwrap();
    assert_frame(&f, 5, 6, &[7]);
    assert_eq!(n, 9);
}

#[test]
fn session_header_mismatch_fails() {
    let mut s = Session::new(MAX_PAYLOAD_LEN);
    assert_eq!(s.on_header(b"AMQP\x00\x00\x09\x00"), Err(HeaderError::Mismatch));
    assert_eq!(s.state(), SessionState::Failed);
}

#[test]
fn session_empty_read_closes() {
    let mut s = Session::new(MAX_PAYLOAD_LEN);
    assert_eq!(s.on_header(b"AMQP\x00\x00\x09\x01"), Ok(()));
    let out = s.on_read(&[0x01, 0x00, 0x01]);
    assert!(out.frames.is_empty());
    assert_eq!(s.buffered_len(), 3);
    let out = s.on_read(&[]);
    assert!(out.frames.is_empty());
    assert_eq!(out.error, None);
    assert_eq!(s.state(), SessionState::Closed);
    s.on_transport_error();
    assert_eq!(s.state(), SessionState::Closed);
}

#[test]
fn session_transport_error_fails() {
    let mut s = Session::new(MAX_PAYLOAD_LEN);
    s.on_transport_error();
    assert_eq!(s.state(), SessionState::Failed);
}
