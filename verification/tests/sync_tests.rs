use dsql_core::frame::Frame;
use dsql_core::frame_sync::{FrameMode, FrameSyncEngine, FrameSyncState};
use dsql_core::hword::{ControlBits, HWord};

const IDLE: [u8; 12] = [0xFD, 0x3C, 0x4B, 0x5A, 0x69, 0x78, 0x87, 0x96, 0xA5, 0xB4, 0xC3, 0xB2];

/// A header chunk with the given index in payload bits 87:84; a FirstHeader
/// also announces `num_pixels` in the NUM_PIXELS_RW lane (bits 47:32).
fn header_chunk(first: bool, index: u8, num_pixels: u16) -> [u8; 12] {
    let control = if first {
        ControlBits::FirstHeader
    } else {
        ControlBits::SubsequentHeader
    };
    let payload = ((index as u128) << 84) | ((num_pixels as u128) << 32);
    HWord::from_payload(control, false, payload).to_bytes()
}

fn pixel_chunk(first: bool, x: u32, y: u32, z: u32, intensity: u16) -> [u8; 12] {
    let control = if first {
        ControlBits::FirstPixel
    } else {
        ControlBits::SubsequentPixel
    };
    let payload = (x as u128 & 0x7FFFF)
        | ((y as u128 & 0x7FFFF) << 24)
        | ((z as u128 & 0x3FFFFF) << 48)
        | ((intensity as u128) << 72);
    HWord::from_payload(control, false, payload).to_bytes()
}

/// A full well-formed cycle: FirstHeader announcing `n` pixels, 109
/// SubsequentHeaders with sequential indices, then `n` pixels.
fn frame_cycle(n: u16) -> Vec<[u8; 12]> {
    let mut chunks = Vec::new();
    chunks.push(header_chunk(true, 0, n));
    for i in 1..110u32 {
        chunks.push(header_chunk(false, (i % 16) as u8, 0));
    }
    for i in 0..n as u32 {
        chunks.push(pixel_chunk(i == 0, 1024 + i, 2048, 3072, 100));
    }
    chunks
}

fn run(engine: &mut FrameSyncEngine, chunks: &[[u8; 12]]) -> Vec<Vec<u8>> {
    let mut frames = Vec::new();
    for c in chunks {
        if let Some(f) = engine.process_hword(c) {
            frames.push(f);
        }
    }
    frames
}

#[test]
fn test_single_one_point_frame() {
    // S-scenario: FirstHeader(N=1), 109 SubsequentHeaders, one FirstPixel.
    let mut engine = FrameSyncEngine::new();
    assert_eq!(engine.state(), FrameSyncState::WaitingForSync);
    let chunks = frame_cycle(1);
    let frames = run(&mut engine, &chunks);
    assert_eq!(frames.len(), 1);
    assert_eq!(frames[0].len(), 12 * 111);
    let (completed, sync_errors, _) = engine.stats();
    assert_eq!(completed, 1);
    assert_eq!(sync_errors, 0);

    // The emitted blob decodes to a frame with one pixel at (1.0, 2.0, 3.0)
    // and intensity 100.
    let frame = Frame::from_bytes(0, &frames[0]).unwrap();
    assert_eq!(frame.num_pixels(), 1);
    let data = frame.data(None, None);
    let p = &data.points[0];
    assert_eq!(p.x.unwrap() as f64 / 1024.0, 1.0);
    assert_eq!(p.y.unwrap() as f64 / 1024.0, 2.0);
    assert_eq!(p.z.unwrap() as f64 / 1024.0, 3.0);
    assert_eq!(p.intensity, Some(100));
}

#[test]
fn test_cold_start_idle_filler() {
    // 17 idle HWORDs before the frame: sync acquired at the first idle,
    // one frame emitted, no sync errors.
    let mut engine = FrameSyncEngine::new();
    let mut chunks = vec![IDLE; 17];
    chunks.extend(frame_cycle(1));
    let frames = run(&mut engine, &chunks);
    assert_eq!(frames.len(), 1);
    let (completed, sync_errors, _) = engine.stats();
    assert_eq!(completed, 1);
    assert_eq!(sync_errors, 0);
}

#[test]
fn test_truncated_frame_recovery() {
    // A new FirstHeader mid-frame discards the partial frame, counts one
    // sync error, and the following complete frame is emitted.
    let mut engine = FrameSyncEngine::new();
    let mut chunks = Vec::new();
    chunks.push(header_chunk(true, 0, 5));
    for i in 1..51u32 {
        chunks.push(header_chunk(false, (i % 16) as u8, 0));
    }
    chunks.extend(frame_cycle(1));
    let frames = run(&mut engine, &chunks);
    assert_eq!(frames.len(), 1);
    assert_eq!(frames[0].len(), 12 * 111);
    let (completed, sync_errors, _) = engine.stats();
    assert_eq!(completed, 1);
    assert_eq!(sync_errors, 1);
}

#[test]
fn test_header_index_gap() {
    // One skipped header index: a single header_index_error, and the frame
    // still completes.
    let mut engine = FrameSyncEngine::new();
    let mut chunks = Vec::new();
    chunks.push(header_chunk(true, 0, 1));
    for i in 1..110u32 {
        // Skip one index value from position 50 on.
        let idx = if i < 50 { i } else { i + 1 };
        chunks.push(header_chunk(false, (idx % 16) as u8, 0));
    }
    chunks.push(pixel_chunk(true, 0, 0, 0, 0));
    let frames = run(&mut engine, &chunks);
    assert_eq!(frames.len(), 1);
    let (completed, sync_errors, header_index_errors) = engine.stats();
    assert_eq!(completed, 1);
    assert_eq!(sync_errors, 0);
    assert_eq!(header_index_errors, 1);
}

#[test]
fn test_sync_monotonicity_stream() {
    // Idle* followed by several well-formed cycles: exactly one emission
    // per cycle and no sync errors.
    let mut engine = FrameSyncEngine::new();
    let mut chunks = vec![IDLE; 3];
    chunks.extend(frame_cycle(1));
    chunks.extend(frame_cycle(5));
    chunks.extend(frame_cycle(7));
    let frames = run(&mut engine, &chunks);
    assert_eq!(frames.len(), 3);
    assert_eq!(frames[0].len(), 12 * 111);
    assert_eq!(frames[1].len(), 12 * 115);
    assert_eq!(frames[2].len(), 12 * 117);
    let (completed, sync_errors, header_index_errors) = engine.stats();
    assert_eq!(completed, 3);
    assert_eq!(sync_errors, 0);
    assert_eq!(header_index_errors, 0);
}

#[test]
fn test_emitted_frames_decode() {
    // Every emitted blob has a length divisible by 12 and decodes without
    // InvalidFileFormat.
    let mut engine = FrameSyncEngine::new();
    let mut chunks = frame_cycle(5);
    chunks.extend(frame_cycle(1));
    let frames = run(&mut engine, &chunks);
    assert_eq!(frames.len(), 2);
    for f in frames.iter() {
        assert_eq!(f.len() % 12, 0);
        assert!(Frame::from_bytes(0, f).is_ok());
    }
}

#[test]
fn test_waiting_drops_non_frame_hwords() {
    // Before synchronization, arbitrary non-idle, non-FirstHeader chunks
    // are dropped.
    let mut engine = FrameSyncEngine::new();
    let chunks = [
        pixel_chunk(true, 1, 2, 3, 4),
        header_chunk(false, 3, 0),
        [0u8; 12],
    ];
    let frames = run(&mut engine, &chunks);
    assert!(frames.is_empty());
    assert_eq!(engine.state(), FrameSyncState::WaitingForSync);
    assert!(engine.current_buffer().is_empty());
}

#[test]
fn test_is_idle_hword() {
    assert!(FrameSyncEngine::is_idle_hword(&IDLE));
    let mut not_idle = IDLE;
    not_idle[11] = 0;
    assert!(!FrameSyncEngine::is_idle_hword(&not_idle));
    assert!(!FrameSyncEngine::is_idle_hword(&IDLE[0..11]));
}

#[test]
fn test_extract_num_pixels_and_header_index() {
    let first = HWord::from_bytes(&header_chunk(true, 5, 1234)).unwrap();
    assert_eq!(FrameSyncEngine::extract_num_pixels(&first), Some(1234));
    assert_eq!(FrameSyncEngine::extract_header_index(&first), Some(5));
    // A zero pixel count defaults to one.
    let zero = HWord::from_bytes(&header_chunk(true, 0, 0)).unwrap();
    assert_eq!(FrameSyncEngine::extract_num_pixels(&zero), Some(1));
    // Non-header / non-frame-start inputs yield None.
    let pix = HWord::from_bytes(&pixel_chunk(true, 0, 0, 0, 0)).unwrap();
    assert_eq!(FrameSyncEngine::extract_num_pixels(&pix), None);
    assert_eq!(FrameSyncEngine::extract_header_index(&pix), None);
    let sub = HWord::from_bytes(&header_chunk(false, 9, 0)).unwrap();
    assert_eq!(FrameSyncEngine::extract_num_pixels(&sub), None);
    assert_eq!(FrameSyncEngine::extract_header_index(&sub), Some(9));
}

#[test]
fn test_premature_pixels_shorten_header() {
    // A pixel arriving before the 110th header moves the engine into pixel
    // collection with the headers seen so far.
    let mut engine = FrameSyncEngine::new();
    let chunks = [
        header_chunk(true, 0, 2),
        pixel_chunk(true, 1, 2, 3, 4),
        pixel_chunk(false, 5, 6, 7, 8),
    ];
    let frames = run(&mut engine, &chunks);
    assert_eq!(frames.len(), 1);
    // One header plus two pixels.
    assert_eq!(frames[0].len(), 12 * 3);
    let (completed, sync_errors, _) = engine.stats();
    assert_eq!(completed, 1);
    assert_eq!(sync_errors, 0);
}

#[test]
fn test_reserved_and_idle_dropped_mid_frame() {
    // Reserved control codes and idle fillers inside a frame are ignored.
    let mut engine = FrameSyncEngine::new();
    let mut chunks = Vec::new();
    chunks.push(header_chunk(true, 0, 1));
    chunks.push(IDLE);
    let reserved = HWord::from_payload(ControlBits::Reserved0, false, 0).to_bytes();
    chunks.push(reserved);
    for i in 1..110u32 {
        chunks.push(header_chunk(false, (i % 16) as u8, 0));
    }
    chunks.push(pixel_chunk(true, 0, 0, 0, 0));
    let frames = run(&mut engine, &chunks);
    assert_eq!(frames.len(), 1);
    assert_eq!(frames[0].len(), 12 * 111);
    let (_, sync_errors, header_index_errors) = engine.stats();
    assert_eq!(sync_errors, 0);
    assert_eq!(header_index_errors, 0);
}

#[test]
fn test_empty_whitelist_projects_nothing() {
    let mut engine = FrameSyncEngine::new();
    let frames = run(&mut engine, &frame_cycle(1));
    let frame = Frame::from_bytes(0, &frames[0]).unwrap();
    let data = frame.data(Some(1), Some(&[]));
    assert_eq!(data.len(), 1);
    let p = &data.points[0];
    assert_eq!(p.x, None);
    assert_eq!(p.y, None);
    assert_eq!(p.z, None);
    assert_eq!(p.intensity, None);
    assert_eq!(p.gain, None);
    assert_eq!(p.over_range, None);
}

#[test]
fn test_frame_mode() {
    assert_eq!(FrameMode::OnePointScan.expected_pixel_count(), 1);
    assert_eq!(FrameMode::FivePointScan.expected_pixel_count(), 5);
    assert_eq!(FrameMode::Imaging { expected_pixels: 320 }.expected_pixel_count(), 320);
    assert_eq!(FrameMode::Unknown.expected_pixel_count(), 1);
    assert_eq!(FrameMode::OnePointScan.total_hword_count(), 111);
    assert_eq!(FrameMode::FivePointScan.total_hword_count(), 115);
    assert_eq!(FrameMode::detect(110, 1), FrameMode::OnePointScan);
    assert_eq!(FrameMode::detect(110, 5), FrameMode::FivePointScan);
    assert_eq!(FrameMode::detect(110, 99), FrameMode::Imaging { expected_pixels: 99 });
    assert_eq!(FrameMode::detect(110, 3), FrameMode::Unknown);
}
