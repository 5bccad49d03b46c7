use dsql_core::error::SharedError;
use dsql_core::frame::{extract_frame_number_from_name, Frame, FrameHeader, PixelData};
use dsql_core::hword::{ControlBits, HWord};

#[test]
fn test_frame_number_extraction() {
    // Test hex format
    assert_eq!(extract_frame_number_from_name("00000001.dsql"), 1);
    assert_eq!(extract_frame_number_from_name("000000FF.dsql"), 255);

    // Test decimal format
    assert_eq!(extract_frame_number_from_name("123.dsql"), 123);
}

#[test]
fn test_frame_creation() {
    let frame = Frame::new(42);
    assert_eq!(frame.number(), 42);
    assert_eq!(frame.frame_type(), "point_cloud");
    assert!(frame.header.hwords.is_empty());
    assert!(frame.pixels.is_empty());
}

#[test]
fn test_frame_number_digit_substring() {
    // Names that are neither 8 hex digits nor a plain decimal fall back to
    // the first decimal substring.
    assert_eq!(extract_frame_number_from_name("frame_123.dsql"), 123);
    assert_eq!(extract_frame_number_from_name("test_456.dsql"), 456);
    assert_eq!(extract_frame_number_from_name("data_001_99.dsql"), 1);
}

#[test]
fn test_frame_number_hash_fallback() {
    // A name with no digits at all maps to the stable stem hash:
    // h = 5381, then h = (h * 31 + code) mod 2^32 over 'a', 'b', 'c'.
    assert_eq!(extract_frame_number_from_name("abc.dsql"), 160401725);
    // The same stem always gives the same identifier.
    assert_eq!(
        extract_frame_number_from_name("abc.dsql"),
        extract_frame_number_from_name("abc.dsql")
    );
}

fn header_hword(first: bool) -> HWord {
    let control = if first {
        ControlBits::FirstHeader
    } else {
        ControlBits::SubsequentHeader
    };
    HWord { control_bits: control, parity: false, data: [0; 11], remaining_bits: 0 }
}

fn pixel_hword(payload: u128, first: bool) -> HWord {
    let control = if first {
        ControlBits::FirstPixel
    } else {
        ControlBits::SubsequentPixel
    };
    let mut h = HWord { control_bits: control, parity: false, data: [0; 11], remaining_bits: 0 };
    for i in 0..11 {
        h.data[i] = ((payload >> (i * 8)) & 0xFF) as u8;
    }
    h.remaining_bits = ((payload >> 88) & 0xF) as u8;
    h
}

#[test]
fn test_add_hword_type_checks() {
    let mut header = FrameHeader::new();
    assert!(header.add_hword(header_hword(true)).is_ok());
    assert!(header.add_hword(header_hword(false)).is_ok());
    match header.add_hword(pixel_hword(0, true)) {
        Err(SharedError::InvalidFrame(_)) => (),
        other => panic!("expected InvalidFrame, got {:?}", other),
    }
    assert_eq!(header.hwords.len(), 2);
    assert!(!header.is_complete());

    let mut pixels = PixelData::new();
    assert!(pixels.add_hword(pixel_hword(0, true)).is_ok());
    match pixels.add_hword(header_hword(true)) {
        Err(SharedError::InvalidFrame(_)) => (),
        other => panic!("expected InvalidFrame, got {:?}", other),
    }
    assert_eq!(pixels.len(), 1);
}

#[test]
fn test_from_bytes_length_check() {
    // Only byte lengths that are a multiple of 12 parse.
    match Frame::from_bytes(0, &[0u8; 13]) {
        Err(SharedError::InvalidFileFormat(_)) => (),
        other => panic!("expected InvalidFileFormat, got {:?}", other),
    }
    assert!(Frame::from_bytes(0, &[]).is_ok());
    assert!(Frame::from_bytes(0, &[0u8; 24]).is_ok());
}

#[test]
fn test_from_bytes_classifies_and_extracts_registers() {
    // One FirstHeader with register lanes 1..5, one SubsequentHeader, one
    // FirstPixel, with an idle HWORD thrown in (skipped by the decoder).
    let mut blob: Vec<u8> = Vec::new();
    let reg_payload: u128 = 0x0005_0004_0003_0002_0001;
    let first = HWord::with_parity(ControlBits::FirstHeader, reg_payload);
    blob.extend_from_slice(&first.to_bytes());
    let idle: [u8; 12] = [0xFD, 0x3C, 0x4B, 0x5A, 0x69, 0x78, 0x87, 0x96, 0xA5, 0xB4, 0xC3, 0xB2];
    blob.extend_from_slice(&idle);
    let sub = HWord::with_parity(ControlBits::SubsequentHeader, 0);
    blob.extend_from_slice(&sub.to_bytes());
    let pix = HWord::with_parity(ControlBits::FirstPixel, 1024);
    blob.extend_from_slice(&pix.to_bytes());

    let frame = Frame::from_bytes(9, &blob).unwrap();
    assert_eq!(frame.number(), 9);
    assert_eq!(frame.header.hwords.len(), 2);
    assert_eq!(frame.num_pixels(), 1);
    // Five 16-bit registers per header HWORD, in lane order.
    assert_eq!(frame.header.registers.len(), 10);
    assert_eq!(&frame.header.registers[0..5], &[1, 2, 3, 4, 5]);
    assert_eq!(&frame.header.registers[5..10], &[0, 0, 0, 0, 0]);
}

#[test]
fn test_data_decimation_and_projection() {
    // A 100-point frame with x_i = i, y_i = 2i, z_i = 3i, intensity_i = i,
    // decimated by 4 and projected to {x, intensity}.
    let mut blob: Vec<u8> = Vec::new();
    blob.extend_from_slice(&header_hword(true).to_bytes());
    blob.extend_from_slice(&header_hword(false).to_bytes());
    for i in 0u128..100 {
        let payload = i | ((2 * i) << 24) | ((3 * i) << 48) | (i << 72);
        blob.extend_from_slice(&pixel_hword(payload, i == 0).to_bytes());
    }
    let frame = Frame::from_bytes(0, &blob).unwrap();
    assert_eq!(frame.num_pixels(), 100);

    let data = frame.data(Some(4), Some(&["x", "intensity"]));
    assert_eq!(data.len(), 25);
    for (row, p) in data.points.iter().enumerate() {
        let i = (row * 4) as i32;
        assert_eq!(p.x, Some(i));
        assert_eq!(p.intensity, Some(i as u16));
        assert_eq!(p.y, None);
        assert_eq!(p.z, None);
        assert_eq!(p.gain, None);
        assert_eq!(p.over_range, None);
    }

    // Absent arguments keep every pixel and every field.
    let full = frame.data(None, None);
    assert_eq!(full.len(), 100);
    assert_eq!(full.points[3].y, Some(6));
    assert_eq!(full.points[3].z, Some(9));
}
