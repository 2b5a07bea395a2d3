use proxy_client::decoder::{DecodeStep, FrameDecoder};
use proxy_client::frame::{add_headers, parse_headers};

/// What a fresh decoder makes of the reads, in order: the body, or `None` when
/// a read came back empty. Panics if the reads run out first.
fn decode_reads(reads: &[&[u8]]) -> Option<Vec<u8>> {
    let mut decoder = FrameDecoder::new();
    for read in reads {
        match decoder.feed(read) {
            DecodeStep::Pending(next) => decoder = next,
            DecodeStep::Complete(body) => return Some(body),
            DecodeStep::Closed => return None,
        }
    }
    panic!("the reads ended before the frame was whole");
}

#[test]
fn encode_prefixes_big_endian_length() {
    assert_eq!(add_headers(b"abc"), vec![0, 0, 0, 3, b'a', b'b', b'c']);
    let body = vec![7u8; 300];
    let frame = add_headers(&body);
    assert_eq!(&frame[..4], &[0, 0, 1, 44]);
    assert_eq!(&frame[4..], &body[..]);
    let big = vec![1u8; 0x01_02_03];
    assert_eq!(&add_headers(&big)[..4], &[0, 1, 2, 3]);
}

#[test]
fn encode_empty_body_is_four_zero_bytes() {
    let frame = add_headers(&[]);
    assert_eq!(frame, vec![0, 0, 0, 0]);
    assert_eq!(decode_reads(&[&frame]), Some(vec![]));
}

#[test]
fn parse_headers_splits_length_and_rest() {
    let (length, rest) = parse_headers(vec![0x12, 0x34, 0x56, 0x78, 9, 8]);
    assert_eq!(length, 0x1234_5678);
    assert_eq!(rest, vec![9, 8]);
    let (length, rest) = parse_headers(vec![0xff, 0xff, 0xff, 0xff]);
    assert_eq!(length, u32::MAX);
    assert!(rest.is_empty());
}

#[test]
fn round_trip_in_one_read() {
    for body in [&b"hello"[..], &[0u8, 255, 10, 13][..], &[][..]] {
        let frame = add_headers(body);
        assert_eq!(decode_reads(&[&frame]), Some(body.to_vec()));
    }
}

#[test]
fn fragmented_reads_give_the_same_body() {
    let body: Vec<u8> = (0..=255u8).collect();
    let frame = add_headers(&body);
    let whole = decode_reads(&[&frame]);
    let bytes: Vec<&[u8]> = frame.chunks(1).collect();
    assert_eq!(decode_reads(&bytes), whole);
    let split: Vec<&[u8]> = vec![&frame[..2], &frame[2..6], &frame[6..100], &frame[100..]];
    assert_eq!(decode_reads(&split), whole);
    let sevens: Vec<&[u8]> = frame.chunks(7).collect();
    assert_eq!(decode_reads(&sevens), Some(body));
}

#[test]
fn header_and_body_start_in_one_read() {
    let frame = add_headers(b"split body");
    assert_eq!(decode_reads(&[&frame[..7], &frame[7..]]), Some(b"split body".to_vec()));
}

#[test]
fn coalesced_frames_are_truncated_to_the_first() {
    let mut read = add_headers(b"first");
    read.extend(add_headers(b"second"));
    assert_eq!(decode_reads(&[&read]), Some(b"first".to_vec()));
    let mut read = add_headers(b"one");
    read.extend_from_slice(&add_headers(b"two")[..4]);
    assert_eq!(decode_reads(&[&read]), Some(b"one".to_vec()));
}

#[test]
fn coalescing_in_the_body_phase_is_truncated() {
    let frame = add_headers(b"abcdef");
    let mut tail = frame[6..].to_vec();
    tail.extend(add_headers(b"xyz"));
    assert_eq!(decode_reads(&[&frame[..6], &tail]), Some(b"abcdef".to_vec()));
}

#[test]
fn empty_read_in_body_fails() {
    let frame = add_headers(b"payload");
    assert_eq!(decode_reads(&[&frame[..6], &[]]), None);
}

#[test]
fn empty_read_in_header_fails() {
    assert_eq!(decode_reads(&[&[]]), None);
    assert_eq!(decode_reads(&[&[0, 0], &[]]), None);
}

#[test]
fn pending_until_declared_length() {
    let decoder = FrameDecoder::new();
    let decoder = match decoder.feed(&[0, 0, 0, 2, b'a']) {
        DecodeStep::Pending(d) => d,
        _ => panic!("one body byte is missing"),
    };
    match decoder.feed(&[b'b']) {
        DecodeStep::Complete(body) => assert_eq!(body, b"ab".to_vec()),
        _ => panic!("the frame is whole"),
    }
}
