use ustreamer::img::{parse_metadata, write_metadata, ImageData, Metadata, ReceiveLoop};
use ustreamer::text::{parse_decimal, split};
use ustreamer::transport::{
    decode_length, decode_metadata, encode_frame, encode_length, encode_metadata_block,
    length_accepted, read_frame, METADATA_BLOCK_LEN,
};

#[test]
fn reader_yields_payload_without_metadata() {
    let mut wire = vec![0u8, 0, 0, 0, 0, 0, 0, 5];
    wire.extend_from_slice(&[1, 2, 3, 4, 5]);
    wire.extend_from_slice(&[0u8; 1024]);
    let frame = read_frame(&wire).unwrap();
    assert_eq!(frame.payload, vec![1, 2, 3, 4, 5]);
    assert_eq!(frame.metadata, None);
}

#[test]
fn reader_ends_on_short_input() {
    assert!(read_frame(&[0, 0, 0]).is_none());
    let mut wire = vec![0u8, 0, 0, 0, 0, 0, 0, 5];
    wire.extend_from_slice(&[1, 2, 3]);
    assert!(read_frame(&wire).is_none());
    wire.extend_from_slice(&[4, 5]);
    wire.extend_from_slice(&[0u8; 1023]);
    assert!(read_frame(&wire).is_none());
    wire.push(0);
    assert!(read_frame(&wire).is_some());
}

#[test]
fn reader_abandons_oversized_length() {
    let mut wire = encode_length(300_000_000);
    wire.extend_from_slice(&[0u8; 2048]);
    assert!(read_frame(&wire).is_none());
    assert!(!length_accepted(300_000_000));
    assert!(length_accepted(299_999_999));
    assert!(!length_accepted(u64::MAX));
}

#[test]
fn empty_payload_is_a_frame() {
    let wire = encode_frame(&[], Some(b"1x2x3x4x5x6x7"));
    assert_eq!(wire.len(), 8 + 1024);
    let frame = read_frame(&wire).unwrap();
    assert!(frame.payload.is_empty());
    assert_eq!(frame.metadata, Some(b"1x2x3x4x5x6x7".to_vec()));
}

#[test]
fn length_is_big_endian() {
    assert_eq!(encode_length(5), vec![0, 0, 0, 0, 0, 0, 0, 5]);
    assert_eq!(encode_length(0x0102030405060708), vec![1, 2, 3, 4, 5, 6, 7, 8]);
    assert_eq!(decode_length(&[0, 0, 0, 0, 0, 0, 1, 0]), 256);
    assert_eq!(decode_length(&[255; 8]), u64::MAX);
    for n in [0u64, 1, 255, 256, 65535, 1 << 40, u64::MAX] {
        assert_eq!(decode_length(&encode_length(n)), n);
        assert_eq!(encode_length(n), n.to_be_bytes().to_vec());
    }
}

#[test]
fn frame_round_trips() {
    let payload: Vec<u8> = (0..=255u8).collect();
    let wire = encode_frame(&payload, Some(b"1920x1080xNV12xcpux30x100x0"));
    assert_eq!(wire.len(), 8 + 256 + METADATA_BLOCK_LEN);
    assert_eq!(&wire[..8], &[0, 0, 0, 0, 0, 0, 1, 0]);
    let frame = read_frame(&wire).unwrap();
    assert_eq!(frame.payload, payload);
    assert_eq!(frame.metadata, Some(b"1920x1080xNV12xcpux30x100x0".to_vec()));
    let plain = read_frame(&encode_frame(&payload, None)).unwrap();
    assert_eq!(plain.metadata, None);
}

#[test]
fn metadata_block_is_padded_and_cut() {
    let block = encode_metadata_block(Some(b"ab"));
    assert_eq!(block.len(), 1024);
    assert_eq!(&block[..3], &[b'a', b'b', 0]);
    assert!(block[2..].iter().all(|b| *b == 0));
    let long = vec![b'z'; 2000];
    let block = encode_metadata_block(Some(&long));
    assert_eq!(block, vec![b'z'; 1024]);
    assert_eq!(decode_metadata(&block), Some(vec![b'z'; 1024]));
    assert_eq!(encode_metadata_block(None), vec![0u8; 1024]);
}

#[test]
fn metadata_that_is_not_utf8_reads_as_empty_text() {
    let mut block = vec![0u8; 1024];
    block[0] = 0xff;
    block[1] = b'x';
    assert_eq!(decode_metadata(&block), Some(Vec::new()));
    block[0] = 0xc3;
    block[1] = 0xa9;
    assert_eq!(decode_metadata(&block), Some(vec![0xc3, 0xa9]));
    block[0] = 0;
    assert_eq!(decode_metadata(&block), None);
    assert_eq!(decode_metadata(&[]), None);
}

#[test]
fn metadata_round_trips_field_by_field() {
    let text = b"1920x1080x NV12xcpux30x100x0";
    let parsed = parse_metadata(text).unwrap();
    assert_eq!(parsed.width, b"1920".to_vec());
    assert_eq!(parsed.height, b"1080".to_vec());
    assert_eq!(parsed.format, b" NV12".to_vec());
    assert_eq!(parsed.encoder, b"cpu".to_vec());
    assert_eq!(parsed.fps, b"30".to_vec());
    assert_eq!(parsed.total_frames, b"100".to_vec());
    assert_eq!(parsed.skip, b"0".to_vec());
    assert_eq!(write_metadata(&parsed), text.to_vec());
    let empty_fields = parse_metadata(b"xxxxxx").unwrap();
    assert!(empty_fields.width.is_empty() && empty_fields.skip.is_empty());
    assert_eq!(write_metadata(&empty_fields), b"xxxxxx".to_vec());
    let made = Metadata {
        width: b"1".to_vec(),
        height: b"2".to_vec(),
        format: b"f".to_vec(),
        encoder: b"e".to_vec(),
        fps: b"3".to_vec(),
        total_frames: b"4".to_vec(),
        skip: b"1".to_vec(),
    };
    let again = parse_metadata(&write_metadata(&made)).unwrap();
    assert_eq!(again.format, made.format);
    assert_eq!(again.skip, made.skip);
}

#[test]
fn metadata_needs_seven_fields() {
    assert!(parse_metadata(b"1920x1080xNV12xcpux30x100").is_none());
    assert!(parse_metadata(b"1920x1080xNV12xcpux30x100x0x9").is_none());
    assert!(parse_metadata(b"").is_none());
    assert!(parse_metadata(b"1920x1080xNV12xrockchip mppx30x100x0").is_some());
}

#[test]
fn skip_field_sets_the_skip_flag() {
    let mut cache = ImageData::new();
    assert!(!cache.skip);
    cache.update(vec![9, 9], Some(b"1920x1080xNV12xcpux30x100x1".to_vec()));
    assert!(cache.skip);
    cache.update(vec![9, 9], Some(b"1920x1080xNV12xcpux30x100x0".to_vec()));
    assert!(!cache.skip);
}

#[test]
fn update_takes_metadata_over() {
    let mut cache = ImageData::new();
    assert_eq!((cache.width, cache.height), (1920, 1080));
    assert!(cache.frame.is_none());
    cache.update(vec![1, 2, 3], Some(b"640x480xYUYVxcpux25x1234x0".to_vec()));
    assert_eq!(cache.frame, Some(vec![1, 2, 3]));
    assert_eq!((cache.width, cache.height), (640, 480));
    assert_eq!(cache.format, b"YUYV".to_vec());
    assert_eq!(cache.encoder, b"cpu".to_vec());
    assert_eq!(cache.server_fps, 25);
    assert_eq!(cache.server_total_frames, 1234);
    assert_eq!(cache.client_total_frames, 1);
    cache.update(vec![4], Some(b"wide x-5xNV12xmppx+7x99999999999999999999999x0".to_vec()));
    assert_eq!((cache.width, cache.height), (640, 480));
    assert_eq!(cache.server_fps, 7);
    assert_eq!(cache.server_total_frames, 1234);
    assert_eq!(cache.encoder, b"mpp".to_vec());
    assert_eq!(cache.client_total_frames, 2);
}

#[test]
fn malformed_metadata_leaves_the_description() {
    let mut cache = ImageData::new();
    cache.update(vec![1], Some(b"640x480xYUYVxcpux25x1234x1".to_vec()));
    for bad in [None, Some(b"".to_vec()), Some(b"1x2x3x4x5x6".to_vec()), Some(b"1x2x3x4x5x6x7x8".to_vec())] {
        cache.update(vec![2], bad);
        assert_eq!((cache.width, cache.height), (640, 480));
        assert_eq!(cache.format, b"YUYV".to_vec());
        assert_eq!(cache.encoder, b"cpu".to_vec());
        assert_eq!(cache.server_fps, 25);
        assert_eq!(cache.server_total_frames, 1234);
        assert!(cache.skip);
        assert_eq!(cache.frame, Some(vec![2]));
    }
    assert_eq!(cache.client_total_frames, 5);
}

#[test]
fn empty_payload_keeps_the_frame() {
    let mut cache = ImageData::new();
    cache.update(Vec::new(), None);
    assert!(cache.frame.is_none());
    assert!(cache.frame_or_empty().is_empty());
    cache.update(vec![7, 7], None);
    cache.update(Vec::new(), Some(b"1x2xaxbx3x4x0".to_vec()));
    assert_eq!(cache.frame, Some(vec![7, 7]));
    assert_eq!(cache.frame_or_empty(), vec![7, 7]);
    assert_eq!(cache.width, 1);
    assert_eq!(cache.client_total_frames, 3);
    cache.client_total_frames = usize::MAX;
    cache.update(Vec::new(), None);
    assert_eq!(cache.client_total_frames, 0);
}

#[test]
fn receive_loop_counts_and_gives_up() {
    let mut cache = ImageData::new();
    let mut state = ReceiveLoop::new();
    for _ in 0..30 {
        state.on_message(&mut cache, vec![1], None, false);
    }
    assert_eq!(state.frames, 30);
    assert_eq!(cache.client_fps, 0);
    state.on_message(&mut cache, vec![1], None, true);
    assert_eq!(cache.client_fps, 15);
    assert_eq!(state.frames, 1);
    assert_eq!(cache.client_total_frames, 31);
    cache.record_client_fps(usize::MAX);
    assert_eq!(cache.client_fps, ((15u128 + usize::MAX as u128) / 2) as usize);
    for _ in 0..100 {
        assert!(!state.on_silence());
    }
    assert!(state.on_silence());
    state.on_message(&mut cache, Vec::new(), None, false);
    assert_eq!(state.missed, 0);
    assert!(!state.on_silence());
}

#[test]
fn decimal_numbers_are_read_strictly() {
    assert_eq!(parse_decimal(b"0", 10), Some(0));
    assert_eq!(parse_decimal(b"0042", 100), Some(42));
    assert_eq!(parse_decimal(b"+42", 100), Some(42));
    assert_eq!(parse_decimal(b"100", 100), Some(100));
    assert_eq!(parse_decimal(b"101", 100), None);
    assert_eq!(parse_decimal(b"4294967295", u32::MAX as u64), Some(4294967295));
    assert_eq!(parse_decimal(b"4294967296", u32::MAX as u64), None);
    assert_eq!(parse_decimal(b"18446744073709551615", u64::MAX), Some(u64::MAX));
    assert_eq!(parse_decimal(b"18446744073709551616", u64::MAX), None);
    assert_eq!(parse_decimal(b"", 100), None);
    assert_eq!(parse_decimal(b"+", 100), None);
    assert_eq!(parse_decimal(b"-1", 100), None);
    assert_eq!(parse_decimal(b"1 ", 100), None);
    assert_eq!(parse_decimal(b"++1", 100), None);
    assert_eq!(parse_decimal(b"9", 5), None);
}

#[test]
fn split_keeps_empty_fields() {
    assert_eq!(split(b"", b'x'), vec![Vec::<u8>::new()]);
    assert_eq!(split(b"x", b'x'), vec![Vec::<u8>::new(), Vec::new()]);
    assert_eq!(split(b"axxb", b'x'), vec![b"a".to_vec(), Vec::new(), b"b".to_vec()]);
    assert_eq!(split(b"abc", b'x'), vec![b"abc".to_vec()]);
}

#[test]
fn description_is_taken_over_by_the_cache() {
    let written = write_metadata(&ustreamer::img::describe(3840, 2160, b"NV24", &ustreamer::img::get_encoder(), 29, 120, true));
    assert_eq!(written, b"3840x2160xNV24xcpux29x120x1".to_vec());
    let mut cache = ImageData::new();
    let frame = read_frame(&encode_frame(&[1], Some(&written))).unwrap();
    cache.update(frame.payload, frame.metadata);
    assert_eq!((cache.width, cache.height), (3840, 2160));
    assert_eq!(cache.format, b"NV24".to_vec());
    assert_eq!(cache.encoder, b"cpu".to_vec());
    assert_eq!((cache.server_fps, cache.server_total_frames), (29, 120));
    assert!(cache.skip);
    assert!(ustreamer::img::metadata_due(0));
    assert!(!ustreamer::img::metadata_due(9));
    assert!(ustreamer::img::metadata_due(10));
}

#[test]
fn capture_rate_averages() {
    let mut rate = ustreamer::img::CaptureRate::new();
    for _ in 0..30 {
        rate.on_frame();
    }
    rate.on_second();
    assert_eq!((rate.frames, rate.fps), (0, 30));
    for _ in 0..20 {
        rate.on_frame();
    }
    rate.on_second();
    assert_eq!(rate.fps, 25);
    rate.on_second();
    assert_eq!(rate.fps, 12);
}

#[test]
fn reader_pulls_frames_in_order_and_ends() {
    let mut wire = encode_frame(&[1, 2, 3], None);
    wire.extend_from_slice(&encode_frame(&[], Some(b"1x2x3x4x5x6x1")));
    wire.extend_from_slice(&encode_frame(&[9], None));
    wire.extend_from_slice(&[0, 0, 0]);
    let mut reader = ustreamer::transport::FrameReader::new(wire);
    let first = reader.next_frame().unwrap();
    assert_eq!((first.payload, first.metadata), (vec![1, 2, 3], None));
    let second = reader.next_frame().unwrap();
    assert_eq!((second.payload, second.metadata), (Vec::new(), Some(b"1x2x3x4x5x6x1".to_vec())));
    let third = reader.next_frame().unwrap();
    assert_eq!(third.payload, vec![9]);
    assert!(!reader.is_ended());
    assert!(reader.next_frame().is_none());
    assert!(reader.is_ended());
    assert!(reader.next_frame().is_none());
}
