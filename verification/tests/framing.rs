use tracking_client::frame::{decode_frame, encode_frame, FrameReader, MAX_BODY_LEN, PREFIX_LEN};
use tracking_client::record::{
    exit_payload, DecodeError, Record, RecordKind, ENVELOPE_VERSION, EXIT_PAYLOAD_LEN, HEADER_LEN,
};
use tracking_client::wire::{get_be32, get_be64, put_be32, put_be64};

#[test]
fn be32_is_most_significant_first() {
    let mut out: Vec<u8> = Vec::new();
    put_be32(&mut out, 0x0102_0304);
    assert_eq!(out, vec![1u8, 2, 3, 4]);
    put_be32(&mut out, u32::MAX);
    assert_eq!(out, vec![1u8, 2, 3, 4, 255, 255, 255, 255]);
    assert_eq!(get_be32(&out, 0), 0x0102_0304);
    assert_eq!(get_be32(&out, 4), u32::MAX);
    assert_eq!(get_be32(&out, 2), 0x0304_ffff);
}

#[test]
fn be64_is_most_significant_first() {
    let mut out: Vec<u8> = vec![9u8];
    put_be64(&mut out, 0x0102_0304_0506_0708);
    assert_eq!(out, vec![9u8, 1, 2, 3, 4, 5, 6, 7, 8]);
    assert_eq!(get_be64(&out, 1), 0x0102_0304_0506_0708);
    let mut zero: Vec<u8> = Vec::new();
    put_be64(&mut zero, 0);
    assert_eq!(zero, vec![0u8; 8]);
    let mut top: Vec<u8> = Vec::new();
    put_be64(&mut top, u64::MAX);
    assert_eq!(get_be64(&top, 0), u64::MAX);
}

#[test]
fn frame_is_length_then_body() {
    let frame = encode_frame(b"hello").unwrap();
    assert_eq!(frame, vec![0u8, 0, 0, 5, b'h', b'e', b'l', b'l', b'o']);
    assert_eq!(PREFIX_LEN, 4);
    assert_eq!(MAX_BODY_LEN, 0xFFFF_FFFF);
}

#[test]
fn empty_body_frames_to_four_zero_bytes() {
    let frame = encode_frame(b"").unwrap();
    assert_eq!(frame, vec![0u8, 0, 0, 0]);
    assert_eq!(decode_frame(&frame), Some((Vec::new(), 4)));
}

#[test]
fn frame_round_trips_exactly() {
    let mut body: Vec<u8> = Vec::new();
    for i in 0..1000u32 {
        body.push((i % 251) as u8);
    }
    let mut frame = encode_frame(&body).unwrap();
    assert_eq!(frame.len(), body.len() + 4);
    assert_eq!(decode_frame(&frame), Some((body.clone(), frame.len())));
    frame.extend_from_slice(&[7, 7, 7]);
    assert_eq!(decode_frame(&frame), Some((body.clone(), body.len() + 4)));
}

#[test]
fn partial_frame_is_not_decoded() {
    let frame = encode_frame(b"abcdef").unwrap();
    for cut in 0..frame.len() {
        assert_eq!(decode_frame(&frame[..cut]), None);
    }
    assert_eq!(decode_frame(&frame), Some((b"abcdef".to_vec(), 10)));
}

#[test]
fn reader_reassembles_frames_cut_anywhere() {
    let bodies: Vec<Vec<u8>> = vec![b"one".to_vec(), Vec::new(), b"three!".to_vec(), vec![0u8; 300]];
    let mut stream: Vec<u8> = Vec::new();
    for b in &bodies {
        stream.extend_from_slice(&encode_frame(b).unwrap());
    }
    for step in 1..20usize {
        let mut reader = FrameReader::new();
        let mut seen: Vec<Vec<u8>> = Vec::new();
        let mut at = 0usize;
        while at < stream.len() {
            let end = usize::min(at + step, stream.len());
            reader.feed(&stream[at..end]);
            seen.extend(reader.drain());
            at = end;
        }
        assert_eq!(seen, bodies);
        assert_eq!(reader.buffered(), 0);
    }
}

#[test]
fn reader_keeps_the_start_of_an_unfinished_frame() {
    let mut reader = FrameReader::new();
    let frame = encode_frame(b"abc").unwrap();
    reader.feed(&frame[..5]);
    assert_eq!(reader.next_frame(), None);
    assert_eq!(reader.buffered(), 5);
    reader.feed(&frame[5..]);
    assert_eq!(reader.next_frame(), Some(b"abc".to_vec()));
    assert_eq!(reader.buffered(), 0);
    assert_eq!(reader.next_frame(), None);
}

#[test]
fn kind_tags_are_stable() {
    assert_eq!(RecordKind::MetricPoint.tag(), 1);
    assert_eq!(RecordKind::ConfigUpdate.tag(), 2);
    assert_eq!(RecordKind::Summary.tag(), 3);
    assert_eq!(RecordKind::Telemetry.tag(), 4);
    assert_eq!(RecordKind::RunExit.tag(), 5);
    assert_eq!(RecordKind::Unknown(77).tag(), 77);
    for t in 0..=255u8 {
        assert_eq!(RecordKind::from_tag(t).tag(), t);
    }
    assert_eq!(RecordKind::from_tag(3), RecordKind::Summary);
    assert_eq!(RecordKind::from_tag(0), RecordKind::Unknown(0));
    assert_eq!(RecordKind::from_tag(6), RecordKind::Unknown(6));
}

#[test]
fn only_caller_records_count_as_data() {
    assert!(RecordKind::MetricPoint.is_data());
    assert!(RecordKind::ConfigUpdate.is_data());
    assert!(RecordKind::Summary.is_data());
    assert!(!RecordKind::Telemetry.is_data());
    assert!(!RecordKind::RunExit.is_data());
    assert!(!RecordKind::Unknown(9).is_data());
}

#[test]
fn envelope_layout_is_exact() {
    let r = Record { kind: RecordKind::Summary, run_id: 0x0A0B, seq: 2, payload: vec![0xEE, 0xFF] };
    let body = r.encode();
    assert_eq!(
        body,
        vec![1u8, 3, 0, 0, 0, 0, 0, 0, 0x0A, 0x0B, 0, 0, 0, 0, 0, 0, 0, 2, 0xEE, 0xFF]
    );
    assert_eq!(HEADER_LEN, 18);
    assert_eq!(ENVELOPE_VERSION, 1);
    let frame = r.to_frame().unwrap();
    assert_eq!(&frame[..4], &[0u8, 0, 0, 20]);
    assert_eq!(&frame[4..], &body[..]);
}

#[test]
fn envelope_round_trips() {
    let r = Record {
        kind: RecordKind::MetricPoint,
        run_id: u64::MAX,
        seq: 0x1122_3344_5566_7788,
        payload: b"{\"metric\":\"loss\",\"value\":0.5}".to_vec(),
    };
    assert_eq!(Record::decode(&r.encode()), Ok(r.clone()));
    assert_eq!(r.duplicate(), r);
    let empty = Record { kind: RecordKind::Telemetry, run_id: 0, seq: 0, payload: Vec::new() };
    assert_eq!(Record::decode(&empty.encode()), Ok(empty));
}

#[test]
fn unknown_kind_passes_through() {
    let r = Record { kind: RecordKind::Unknown(200), run_id: 4, seq: 9, payload: vec![1, 2, 3] };
    let back = Record::decode(&r.encode()).unwrap();
    assert_eq!(back.kind, RecordKind::Unknown(200));
    assert_eq!(back.payload, vec![1u8, 2, 3]);
    assert_eq!(back.encode(), r.encode());
}

#[test]
fn short_envelope_is_truncated() {
    let r = Record { kind: RecordKind::Telemetry, run_id: 1, seq: 1, payload: Vec::new() };
    let body = r.encode();
    for cut in 0..HEADER_LEN {
        assert_eq!(Record::decode(&body[..cut]), Err(DecodeError::Truncated));
    }
}

#[test]
fn foreign_version_is_refused() {
    let r = Record { kind: RecordKind::Telemetry, run_id: 1, seq: 1, payload: Vec::new() };
    let mut body = r.encode();
    body[0] = 2;
    assert_eq!(Record::decode(&body), Err(DecodeError::UnsupportedVersion(2)));
}

#[test]
fn exit_record_carries_code_and_time() {
    let r = Record::exit(3, 8, 0, 1_700_000_000_123);
    assert_eq!(r.kind, RecordKind::RunExit);
    assert_eq!(r.run_id, 3);
    assert_eq!(r.seq, 8);
    assert_eq!(r.payload.len(), EXIT_PAYLOAD_LEN);
    assert_eq!(r.exit_info(), Some((0, 1_700_000_000_123)));
    assert_eq!(exit_payload(1, 2), vec![0u8, 0, 0, 1, 0, 0, 0, 0, 0, 0, 0, 2]);
    assert_eq!(Record::exit(0, 0, -1, 0).exit_info(), Some((-1, 0)));
    assert_eq!(Record::exit(0, 0, i32::MIN, u64::MAX).exit_info(), Some((i32::MIN, u64::MAX)));
    assert_eq!(Record::exit(0, 0, i32::MAX, 5).exit_info(), Some((i32::MAX, 5)));
}

#[test]
fn exit_info_is_only_read_from_exit_records() {
    let r = Record { kind: RecordKind::Summary, run_id: 0, seq: 0, payload: exit_payload(0, 0) };
    assert_eq!(r.exit_info(), None);
    let short = Record { kind: RecordKind::RunExit, run_id: 0, seq: 0, payload: vec![0u8; 11] };
    assert_eq!(short.exit_info(), None);
}
