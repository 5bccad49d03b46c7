use dsql_core::hword::{ControlBits, HWord};

#[test]
fn test_control_bits_parsing() {
    assert_eq!(ControlBits::from_u8(0b010), Some(ControlBits::FirstHeader));
    assert_eq!(ControlBits::from_u8(0b100), Some(ControlBits::FirstPixel));
    assert_eq!(ControlBits::from_u8(0b111), Some(ControlBits::Idle));
    assert_eq!(ControlBits::from_u8(0b1000), None); // Invalid
}

#[test]
fn test_hword_roundtrip() {
    // Create test data
    let original_bytes = [
        0x4F, 0x76, 0xB3, 0xBC, 0x12, 0x34, 0x56, 0x78, 0x9A, 0xBC, 0xDE, 0xF0,
    ];

    // Parse and convert back
    let hword = HWord::from_bytes(&original_bytes).unwrap();
    let converted_bytes = hword.to_bytes();

    assert_eq!(original_bytes, converted_bytes);
}

#[test]
fn test_control_bits_classification() {
    assert!(ControlBits::FirstHeader.is_header());
    assert!(ControlBits::SubsequentHeader.is_header());
    assert!(ControlBits::FirstPixel.is_pixel());
    assert!(ControlBits::SubsequentPixel.is_pixel());
    assert!(ControlBits::FirstHeader.is_frame_start());
    assert!(!ControlBits::SubsequentHeader.is_frame_start());
    assert!(ControlBits::Idle.is_idle());
}

#[test]
fn test_roundtrip_many_patterns() {
    // Codec round-trip holds for every 12-byte input, whatever the control
    // code; exercise a spread of byte patterns.
    let mut seed: u64 = 0x1234_5678_9ABC_DEF0;
    for _ in 0..200 {
        let mut bytes = [0u8; 12];
        for b in bytes.iter_mut() {
            seed = seed.wrapping_mul(6364136223846793005).wrapping_add(1442695040888963407);
            *b = (seed >> 33) as u8;
        }
        let hword = HWord::from_bytes(&bytes).unwrap();
        assert_eq!(hword.to_bytes(), bytes);
    }
}

#[test]
fn test_parse_fields() {
    // Byte 0 splits into control (top 3 bits), parity (bit 4) and the top
    // payload nibble; 0x4F = 010 0 1111.
    let bytes = [0x4F, 0, 0, 0, 0, 0, 0, 0, 0, 0, 0, 0x07];
    let h = HWord::from_bytes(&bytes).unwrap();
    assert_eq!(h.control_bits, ControlBits::FirstHeader);
    assert!(!h.parity);
    assert_eq!(h.remaining_bits, 0x0F);
    assert_eq!(h.data_as_u128(), (0x0F << 88) | 0x07);
}

#[test]
fn test_builder_parity() {
    // Every HWord built with computed parity passes the odd-parity check.
    let payloads: [u128; 6] = [
        0,
        1,
        0xFFF_FFFF_FFFF_FFFF_FFFF_FFFF,
        0x1234_5678_9ABC_DEF0,
        (1u128 << 91) | 0x5555,
        0x0FFF_FFFF_FFFF_FFFF_FFFF_FFFE,
    ];
    let controls = [
        ControlBits::FirstHeader,
        ControlBits::SubsequentPixel,
        ControlBits::Idle,
        ControlBits::FirstPixel,
        ControlBits::Reserved0,
        ControlBits::SubsequentHeader,
    ];
    for (payload, control) in payloads.iter().zip(controls.iter()) {
        let h = HWord::with_parity(*control, *payload);
        assert!(h.verify_parity());
        assert_eq!(h.data_as_u128(), *payload);
        assert_eq!(h.control_bits, *control);
        // The serialized form round-trips through the parser.
        let bytes = h.to_bytes();
        let h2 = HWord::from_bytes(&bytes).unwrap();
        assert!(h2.verify_parity());
        assert_eq!(h2.data_as_u128(), *payload);
    }
}

#[test]
fn test_verify_parity_detects_even() {
    // An all-zero word has zero one-bits: even parity, so the check fails.
    let h = HWord::from_bytes(&[0u8; 12]).unwrap();
    assert!(!h.verify_parity());
    // A word with exactly one bit set has odd parity.
    let h = HWord::from_bytes(&[0, 0, 0, 0, 0, 0, 0, 0, 0, 0, 0, 1]).unwrap();
    assert!(h.verify_parity());
}
