use dsql_core::capture::{
    build_first_header, build_subsequent_header, build_pixel_hword, frame_file_name, frame_record,
    generate_synthetic_frame, incomplete_frame_file_name, is_frame_file_name, next_frame_number,
    session_dir_name, FrameAssembler, PacketQueue, PixelSample,
};
use dsql_core::digits::{parse_dec_u32, parse_hex_u32};
use dsql_core::frame::Frame;
use dsql_core::frame_sync::FrameSyncEngine;
use dsql_core::hword::{ControlBits, HWord};

#[test]
fn test_frame_file_name_format() {
    assert_eq!(frame_file_name(0), "00000000.dsql");
    assert_eq!(frame_file_name(7), "00000007.dsql");
    assert_eq!(frame_file_name(0xAB), "000000AB.dsql");
    assert_eq!(frame_file_name(u32::MAX), "FFFFFFFF.dsql");
    assert_eq!(incomplete_frame_file_name(0x0C), "0000000C_incomplete.dsql");
}

#[test]
fn test_resume_numbering() {
    // A directory holding 00000000.dsql .. 0000000A.dsql resumes at
    // 0000000B.dsql.
    let names: Vec<String> = (0u32..=0xA).map(frame_file_name).collect();
    let next = next_frame_number(&names);
    assert_eq!(next, 0xB);
    assert_eq!(frame_file_name(next), "0000000B.dsql");
}

#[test]
fn test_next_frame_number_edges() {
    assert_eq!(next_frame_number(&vec![]), 0);
    let names = vec![
        "zz.dsql".to_string(),
        "00000003.dsql".to_string(),
        "notaframe.txt".to_string(),
        "00000001.dsql".to_string(),
    ];
    assert_eq!(next_frame_number(&names), 4);
    // Anything without 8 leading hex digits and a .dsql suffix is ignored.
    assert_eq!(is_frame_file_name("00000003.dsql"), Some(3));
    assert_eq!(is_frame_file_name("0000000G.dsql"), None);
    assert_eq!(is_frame_file_name("00000003.txt"), None);
    assert_eq!(is_frame_file_name(".dsql"), None);
}

#[test]
fn test_parse_helpers() {
    assert_eq!(parse_hex_u32("FFFFFFFF"), Some(0xFFFF_FFFF));
    assert_eq!(parse_hex_u32("00ff00aa"), Some(0x00FF_00AA));
    assert_eq!(parse_hex_u32(""), None);
    assert_eq!(parse_hex_u32("12G4"), None);
    assert_eq!(parse_hex_u32("100000000"), None); // overflow
    assert_eq!(parse_dec_u32("4294967295"), Some(u32::MAX));
    assert_eq!(parse_dec_u32("4294967296"), None); // overflow
    assert_eq!(parse_dec_u32("12a"), None);
    assert_eq!(parse_dec_u32(""), None);
}

#[test]
fn test_session_dir_name_format() {
    assert_eq!(session_dir_name(2024, 1, 5, 9, 30, 7), "20240105_093007");
    assert_eq!(session_dir_name(1999, 12, 31, 23, 59, 59), "19991231_235959");
}

#[test]
fn test_frame_record_layout() {
    // A live-stream record is a little-endian u32 length then the bytes.
    let frame: Vec<u8> = (0u8..24).collect();
    let record = frame_record(&frame);
    assert_eq!(record.len(), 4 + 24);
    assert_eq!(&record[0..4], &[24, 0, 0, 0]);
    assert_eq!(&record[4..], &frame[..]);
    let big = vec![0u8; 0x0102];
    let record = frame_record(&big);
    assert_eq!(&record[0..4], &[0x02, 0x01, 0, 0]);
}

#[test]
fn test_queue_full_bounded_loss() {
    // A burst larger than the capacity loses exactly the excess.
    let capacity = 10_000usize;
    let burst = 10_050usize;
    let mut queue = PacketQueue::new(capacity);
    let mut accepted = 0u64;
    for _ in 0..burst {
        if queue.try_send(vec![0u8; 8]) {
            accepted += 1;
        }
    }
    assert_eq!(accepted, capacity as u64);
    assert_eq!(queue.len(), capacity);
    assert_eq!(queue.dropped(), (burst - capacity) as u64);
    // Draining frees room again.
    assert!(queue.recv().is_some());
    assert!(queue.try_send(vec![1u8; 8]));
    assert_eq!(queue.len(), capacity);
}

#[test]
fn test_queue_recv_order() {
    let mut queue = PacketQueue::new(4);
    assert!(queue.recv().is_none());
    queue.try_send(vec![1]);
    queue.try_send(vec![2]);
    assert_eq!(queue.recv(), Some(vec![1]));
    assert_eq!(queue.recv(), Some(vec![2]));
    assert!(queue.recv().is_none());
    assert_eq!(queue.dropped(), 0);
}

fn one_point_cycle() -> Vec<u8> {
    let mut bytes = Vec::new();
    bytes.extend_from_slice(&build_first_header(0, 1));
    for _ in 1..110 {
        bytes.extend_from_slice(&build_subsequent_header());
    }
    let sample = PixelSample { x: 1024, y: 2048, z: 3072, intensity: 100 };
    bytes.extend_from_slice(&build_pixel_hword(&sample, true));
    bytes
}

#[test]
fn test_assembler_reassembles_split_packets() {
    // Datagram bytes may split anywhere; the assembler reconciles them via
    // its continuous buffer.
    let stream = one_point_cycle();
    let mut assembler = FrameAssembler::new();
    let mut frames = Vec::new();
    for packet in stream.chunks(37) {
        frames.extend(assembler.feed(packet));
    }
    assert_eq!(frames.len(), 1);
    assert_eq!(frames[0].len(), 12 * 111);
    assert_eq!(frames[0], stream);
    let (completed, sync_errors, _) = assembler.stats();
    assert_eq!(completed, 1);
    assert_eq!(sync_errors, 0);
    assert!(assembler.pending().is_empty());
}

#[test]
fn test_assembler_keeps_partial_chunk() {
    let mut assembler = FrameAssembler::new();
    let frames = assembler.feed(&[0xFD, 0x3C, 0x4B]);
    assert!(frames.is_empty());
    assert_eq!(assembler.pending(), &[0xFD, 0x3C, 0x4B]);
    // Completing the idle pattern consumes the chunk.
    let frames = assembler.feed(&[0x5A, 0x69, 0x78, 0x87, 0x96, 0xA5, 0xB4, 0xC3, 0xB2]);
    assert!(frames.is_empty());
    assert!(assembler.pending().is_empty());
}

#[test]
fn test_file_format_round_trip() {
    // Write an emitted blob under a counter-derived name and decode it:
    // the frame number comes from the name, the points survive unchanged.
    let blob = one_point_cycle();
    let name = frame_file_name(7);
    assert_eq!(name, "00000007.dsql");
    let frame_id = dsql_core::frame::extract_frame_number_from_name(&name);
    assert_eq!(frame_id, 7);
    let frame = Frame::from_bytes(frame_id, &blob).unwrap();
    assert_eq!(frame.number(), 7);
    assert_eq!(frame.num_pixels(), 1);
    let data = frame.data(None, None);
    assert_eq!(data.points[0].x, Some(1024));
    assert_eq!(data.points[0].y, Some(2048));
    assert_eq!(data.points[0].z, Some(3072));
    assert_eq!(data.points[0].intensity, Some(100));
}

#[test]
fn test_synthetic_frame_shape() {
    let points = vec![
        PixelSample { x: 0, y: 0, z: 0, intensity: 1 },
        PixelSample { x: -1024, y: 512, z: -2048, intensity: 2 },
        PixelSample { x: 262143, y: -262144, z: 2097151, intensity: 3 },
    ];
    let blob = generate_synthetic_frame(4, &points);
    assert_eq!(blob.len(), 12 * 5);
    let frame = Frame::from_bytes(4, &blob).unwrap();
    assert_eq!(frame.header.hwords.len(), 2);
    assert_eq!(frame.num_pixels(), 3);
    // The NUM_PIXELS_RW lane (register 2 of the first header) carries the
    // requested pixel count.
    assert_eq!(frame.header.registers[2], 3);
    assert_eq!(frame.header.registers[0], 4);
    // Every pixel HWORD carries correct odd parity, and the coordinates
    // decode back to the samples.
    for (i, h) in frame.pixels.hwords.iter().enumerate() {
        assert!(h.verify_parity());
        let p = dsql_core::coordinates::extract_coordinates_from_hword(
            h,
            &dsql_core::coordinates::FieldWhitelist::all(),
        )
        .unwrap();
        assert_eq!(p.x, Some(points[i].x));
        assert_eq!(p.y, Some(points[i].y));
        assert_eq!(p.z, Some(points[i].z));
        assert_eq!(p.intensity, Some(points[i].intensity));
    }
}

#[test]
fn test_synthetic_pixels_parse() {
    let sample = PixelSample { x: -5, y: 6, z: -7, intensity: 8 };
    let chunk = build_pixel_hword(&sample, false);
    let h = HWord::from_bytes(&chunk).unwrap();
    assert_eq!(h.control_bits, ControlBits::SubsequentPixel);
    assert!(h.verify_parity());
    let first = build_first_header(3, 122_000 % 0x10000);
    let h = HWord::from_bytes(&first).unwrap();
    assert_eq!(h.control_bits, ControlBits::FirstHeader);
    assert_eq!(FrameSyncEngine::extract_num_pixels(&h), Some(122_000 % 0x10000));
}
