use dsql_core::coordinates::{
    extract_coordinates_from_hword, CoordinateData, CoordinatePoint, FieldType, FieldWhitelist,
};
use dsql_core::hword::{ControlBits, HWord};

#[test]
fn test_field_type_parsing() {
    assert_eq!(FieldType::from_str("x"), Some(FieldType::X));
    assert_eq!(FieldType::from_str("X"), Some(FieldType::X));
    assert_eq!(FieldType::from_str("intensity"), Some(FieldType::Intensity));
    assert_eq!(FieldType::from_str("over_range"), Some(FieldType::OverRange));
    assert_eq!(FieldType::from_str("invalid"), None);
}

#[test]
fn test_field_whitelist() {
    let whitelist = FieldWhitelist::new(&["x", "y", "z"]);
    assert!(whitelist.includes(&FieldType::X));
    assert!(whitelist.includes(&FieldType::Y));
    assert!(whitelist.includes(&FieldType::Z));
    assert!(!whitelist.includes(&FieldType::Intensity));
}

#[test]
fn test_coordinate_extraction() {
    // Create a test pixel HWORD with known data
    let mut hword = HWord {
        control_bits: ControlBits::FirstPixel,
        parity: false,
        data: [0; 11],
        remaining_bits: 0,
    };

    // Set some test coordinate data
    // X = 1024 (1.0 in fixed point), Y = 2048 (2.0), Z = 3072 (3.0)
    let test_data: u128 = 1024 | (2048 << 24) | (3072 << 48) | (100 << 72); // intensity = 100

    // Pack the data into the HWORD
    for i in 0..11 {
        hword.data[i] = ((test_data >> (i * 8)) & 0xFF) as u8;
    }
    hword.remaining_bits = ((test_data >> 88) & 0xF) as u8;

    let whitelist = FieldWhitelist::all();
    let point = extract_coordinates_from_hword(&hword, &whitelist).unwrap();

    // Raw fixed-point values divide by 1024 to give the decoded doubles.
    assert_eq!(point.x, Some(1024));
    assert_eq!(point.y, Some(2048));
    assert_eq!(point.z, Some(3072));
    assert_eq!(point.x.unwrap() as f64 / 1024.0, 1.0);
    assert_eq!(point.y.unwrap() as f64 / 1024.0, 2.0);
    assert_eq!(point.z.unwrap() as f64 / 1024.0, 3.0);
    assert_eq!(point.intensity, Some(100));
}

#[test]
fn test_field_names_roundtrip() {
    let all = [
        FieldType::X,
        FieldType::Y,
        FieldType::Z,
        FieldType::Intensity,
        FieldType::Gain,
        FieldType::OverRange,
    ];
    for ft in all.iter() {
        assert_eq!(FieldType::from_str(ft.as_str()), Some(*ft));
    }
    // Both spellings of the over-range field parse.
    assert_eq!(FieldType::from_str("overrange"), Some(FieldType::OverRange));
    assert_eq!(FieldType::from_str("OVERRANGE"), Some(FieldType::OverRange));
}

#[test]
fn test_whitelist_all_and_fields() {
    let all = FieldWhitelist::all();
    assert!(all.includes(&FieldType::Gain));
    assert!(all.includes(&FieldType::OverRange));
    assert_eq!(all.fields().len(), 6);
    let partial = FieldWhitelist::new(&["intensity", "bogus"]);
    assert_eq!(partial.fields(), vec![FieldType::Intensity]);
}

fn pixel_hword(payload: u128, first: bool) -> HWord {
    let control = if first {
        ControlBits::FirstPixel
    } else {
        ControlBits::SubsequentPixel
    };
    let mut h = HWord { control_bits: control, parity: false, data: [0; 11], remaining_bits: 0 };
    for i in 0..11 {
        h.data[i] = ((payload >> (i * 8)) & 0xFF) as u8;
    }
    h.remaining_bits = ((payload >> 88) & 0xF) as u8;
    h
}

#[test]
fn test_sign_extension() {
    // For raw values in [-2^18, 2^18), the decoded doubles equal raw / 1024
    // exactly (these magnitudes are all representable in an f64).
    let samples: [i64; 7] = [-262144, -131072, -1024, -1, 0, 1, 262143];
    for &x in samples.iter() {
        let enc = (x & 0x7FFFF) as u128;
        let h = pixel_hword(enc | (enc << 24), true);
        let p = extract_coordinates_from_hword(&h, &FieldWhitelist::all()).unwrap();
        assert_eq!(p.x, Some(x as i32));
        assert_eq!(p.y, Some(x as i32));
        assert_eq!(p.x.unwrap() as f64 / 1024.0, x as f64 / 1024.0);
    }
    // Z has a 22-bit lane.
    let zs: [i64; 5] = [-2097152, -1, 0, 5, 2097151];
    for &z in zs.iter() {
        let enc = (z & 0x3FFFFF) as u128;
        let h = pixel_hword(enc << 48, false);
        let p = extract_coordinates_from_hword(&h, &FieldWhitelist::all()).unwrap();
        assert_eq!(p.z, Some(z as i32));
        assert_eq!(p.z.unwrap() as f64 / 1024.0, z as f64 / 1024.0);
    }
}

#[test]
fn test_flags_and_intensity_mask() {
    // Intensity is masked to 12 bits; bit 90 is over-range, bit 91 is gain.
    let payload: u128 = (0xFFFFu128 << 72) | (1u128 << 90) | (1u128 << 91);
    let h = pixel_hword(payload, true);
    let p = extract_coordinates_from_hword(&h, &FieldWhitelist::all()).unwrap();
    assert_eq!(p.intensity, Some(0xFFF));
    assert_eq!(p.over_range, Some(true));
    assert_eq!(p.gain, Some(true));
}

#[test]
fn test_non_pixel_yields_none() {
    let mut h = pixel_hword(0, true);
    h.control_bits = ControlBits::FirstHeader;
    assert!(extract_coordinates_from_hword(&h, &FieldWhitelist::all()).is_none());
}

#[test]
fn test_projection_absent_fields() {
    let h = pixel_hword(1024 | (2048 << 24), true);
    let wl = FieldWhitelist::new(&["x", "intensity"]);
    let p = extract_coordinates_from_hword(&h, &wl).unwrap();
    assert_eq!(p.x, Some(1024));
    assert_eq!(p.intensity, Some(0));
    assert_eq!(p.y, None);
    assert_eq!(p.z, None);
    assert_eq!(p.gain, None);
    assert_eq!(p.over_range, None);
}

#[test]
fn test_decimation_length() {
    // For any length L and stride k >= 1 the output has ceil(L / k) points
    // and its i-th element is the (i * k)-th source point.
    for &(len, k) in [(100usize, 4usize), (10, 3), (7, 7), (5, 1), (6, 0), (0, 4)].iter() {
        let mut data = CoordinateData::new();
        for i in 0..len {
            let mut p = CoordinatePoint::new();
            p.intensity = Some(i as u16);
            data.add_point(p);
        }
        data.decimate(k);
        let eff = if k <= 1 { 1 } else { k };
        let expected = (len + eff - 1) / eff;
        assert_eq!(data.len(), expected);
        for (i, p) in data.points.iter().enumerate() {
            assert_eq!(p.intensity, Some((i * eff) as u16));
        }
    }
}
