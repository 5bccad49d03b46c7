//! Count-based frame synchronization state machine.
//!
//! The engine consumes 12-byte chunks already aligned on HWORD boundaries
//! and emits the concatenated bytes of each frame as soon as its last pixel
//! arrives.  Synchronization is acquired on the fixed idle byte pattern or
//! on a `FirstHeader`; a `FirstHeader` seen mid-frame counts as a sync error
//! and starts a fresh frame.

use vstd::prelude::*;
use crate::hword::{HWord, ControlBits, spec_hword_matches};
use crate::protocol::HEADER_HWORDS_PER_FRAME;

verus! {

/// The fixed 12-byte idle HWORD pattern (control bits 111) used as the
/// cold-start synchronization anchor.
pub open spec fn spec_idle_pattern() -> Seq<u8> {
    seq![0xFDu8, 0x3Cu8, 0x4Bu8, 0x5Au8, 0x69u8, 0x78u8, 0x87u8, 0x96u8, 0xA5u8, 0xB4u8, 0xC3u8,
        0xB2u8]
}

/// The control code carried by the top three bits of a chunk.
pub open spec fn spec_chunk_control(c: Seq<u8>) -> ControlBits {
    ControlBits::spec_from_code((c[0] / 32) as u8)
}

/// The 92-bit payload carried by a 12-byte chunk (big-endian).
pub open spec fn spec_chunk_payload(c: Seq<u8>) -> int {
    c[11] as int + c[10] as int * 0x100 + c[9] as int * 0x1_0000 + c[8] as int * 0x100_0000
        + c[7] as int * 0x1_0000_0000 + c[6] as int * 0x100_0000_0000 + c[5] as int
        * 0x1_0000_0000_0000 + c[4] as int * 0x100_0000_0000_0000 + c[3] as int
        * 0x1_0000_0000_0000_0000 + c[2] as int * 0x100_0000_0000_0000_0000 + c[1] as int
        * 0x1_0000_0000_0000_0000_0000 + (c[0] as int % 16) * 0x100_0000_0000_0000_0000_0000
}

/// A parsed HWord carries exactly the payload of its chunk.
pub proof fn lemma_payload_of_chunk(h: HWord, c: Seq<u8>)
    requires
        c.len() == 12,
        spec_hword_matches(h, c),
    ensures
        h.payload() == spec_chunk_payload(c),
{
    assert(h.data@[0] == c[11]);
    assert(h.data@[1] == c[10]);
    assert(h.data@[2] == c[9]);
    assert(h.data@[3] == c[8]);
    assert(h.data@[4] == c[7]);
    assert(h.data@[5] == c[6]);
    assert(h.data@[6] == c[5]);
    assert(h.data@[7] == c[4]);
    assert(h.data@[8] == c[3]);
    assert(h.data@[9] == c[2]);
    assert(h.data@[10] == c[1]);
}

/// The header index carried in payload bits 87:84 of a header HWORD.
pub open spec fn spec_header_index(p: int) -> int {
    (p / 0x10_0000_0000_0000_0000_0000) % 16
}

/// The pixel count announced by a `FirstHeader`: register 2 (payload bits
/// 47:32), with 0 defaulting to 1.
pub open spec fn spec_num_pixels(p: int) -> int {
    let raw = (p / 0x1_0000_0000) % 0x1_0000;
    if raw == 0 {
        1
    } else {
        raw
    }
}

/// Frame synchronization state.
#[derive(Debug, Clone, Copy, PartialEq, Eq)]
pub enum FrameSyncState {
    /// Waiting for initial HWORD synchronization.
    WaitingForSync,
    /// Waiting for first frame header.
    WaitingForFrame,
    /// Collecting header HWORDs (expecting 110).
    CollectingHeader { count: usize, last_index: Option<u8> },
    /// Collecting pixel HWORDs.
    CollectingPixels { header_count: usize, pixel_count: usize, expected_pixels: usize },
    /// Frame complete and ready to write (unused; frames are emitted at once).
    FrameComplete,
}

/// Frame mode detection.
#[derive(Debug, Clone, Copy, PartialEq, Eq, Structural)]
pub enum FrameMode {
    /// 1-point scan: 110 header + 1 pixel HWORDs in total.
    OnePointScan,
    /// 5-point scan: 110 header + 5 pixel HWORDs in total.
    FivePointScan,
    /// Imaging mode: 110 header + a variable pixel count from NUM_PIXELS_RW.
    Imaging { expected_pixels: usize },
    /// Unknown mode: behave like a 1-point scan.
    Unknown,
}

impl FrameMode {
    /// Expected pixel count for this mode.
    pub open spec fn spec_expected_pixel_count(self) -> int {
        match self {
            FrameMode::OnePointScan => 1,
            FrameMode::FivePointScan => 5,
            FrameMode::Imaging { expected_pixels } => expected_pixels as int,
            FrameMode::Unknown => 1,
        }
    }

    /// Get expected pixel count for this mode.
    pub fn expected_pixel_count(&self) -> (r: usize)
        ensures
            r == self.spec_expected_pixel_count(),
    {
        match self {
            FrameMode::OnePointScan => 1,
            FrameMode::FivePointScan => 5,
            FrameMode::Imaging { expected_pixels } => *expected_pixels,
            FrameMode::Unknown => 1,
        }
    }

    /// Get total expected HWORD count (header plus pixels).
    pub fn total_hword_count(&self) -> (r: usize)
        requires
            self.spec_expected_pixel_count() + HEADER_HWORDS_PER_FRAME <= usize::MAX,
        ensures
            r == HEADER_HWORDS_PER_FRAME + self.spec_expected_pixel_count(),
    {
        HEADER_HWORDS_PER_FRAME + self.expected_pixel_count()
    }

    /// The mode detected from a header count and a pixel count.
    pub open spec fn spec_detect(header_count: int, pixel_count: int) -> FrameMode {
        if header_count + pixel_count == 111 {
            FrameMode::OnePointScan
        } else if header_count + pixel_count == 115 {
            FrameMode::FivePointScan
        } else if pixel_count > 5 {
            FrameMode::Imaging { expected_pixels: pixel_count as usize }
        } else {
            FrameMode::Unknown
        }
    }

    /// Detect frame mode from header size and pixel count.
    pub fn detect(header_count: usize, pixel_count: usize) -> (r: FrameMode)
        requires
            header_count + pixel_count <= usize::MAX,
        ensures
            r == FrameMode::spec_detect(header_count as int, pixel_count as int),
    {
        let total = header_count + pixel_count;
        if total == 111 {
            FrameMode::OnePointScan
        } else if total == 115 {
            FrameMode::FivePointScan
        } else if pixel_count > 5 {
            FrameMode::Imaging { expected_pixels: pixel_count }
        } else {
            FrameMode::Unknown
        }
    }

    /// The mode chosen for an announced pixel count.
    pub open spec fn spec_mode_for(expected: int) -> FrameMode {
        if expected == 1 {
            FrameMode::OnePointScan
        } else if expected == 5 {
            FrameMode::FivePointScan
        } else {
            FrameMode::Imaging { expected_pixels: expected as usize }
        }
    }
}

/// The abstract state of a [`FrameSyncEngine`].
pub struct SyncModel {
    pub state: FrameSyncState,
    pub mode: FrameMode,
    pub buffer: Seq<u8>,
    pub frames_completed: u64,
    pub sync_errors: u64,
    pub header_index_errors: u64,
}

/// Increment a statistics counter, saturating at the type's maximum.
pub open spec fn bump(c: u64) -> u64 {
    if c < u64::MAX {
        (c + 1) as u64
    } else {
        c
    }
}

impl SyncModel {
    /// The model of a freshly created engine.
    pub open spec fn initial() -> SyncModel {
        SyncModel {
            state: FrameSyncState::WaitingForSync,
            mode: FrameMode::Unknown,
            buffer: Seq::empty(),
            frames_completed: 0,
            sync_errors: 0,
            header_index_errors: 0,
        }
    }

    /// The mode always announces between 1 and 65535 expected pixels.
    pub open spec fn mode_ok(self) -> bool {
        1 <= self.mode.spec_expected_pixel_count() <= 0xFFFF
    }

    /// Structural invariant: counts stay in range and the buffer length
    /// follows the state.
    pub open spec fn wf(self) -> bool {
        &&& self.mode_ok()
        &&& match self.state {
            FrameSyncState::CollectingHeader { count, .. } => 1 <= count
                < HEADER_HWORDS_PER_FRAME && self.buffer.len() == 12 * count,
            FrameSyncState::CollectingPixels { header_count, pixel_count, expected_pixels } => {
                &&& header_count <= HEADER_HWORDS_PER_FRAME
                &&& 1 <= expected_pixels <= 0xFFFF
                &&& pixel_count <= expected_pixels
                &&& self.buffer.len() == 12 * (header_count + pixel_count)
            },
            _ => self.buffer.len() % 12 == 0 && self.buffer.len() <= 0x1000000,
        }
    }
}

/// The model after a `FirstHeader` opens a new frame: the buffer restarts
/// with this chunk, the mode comes from the announced pixel count, and one
/// header with index 0 is counted.
pub open spec fn spec_start_frame(m: SyncModel, chunk: Seq<u8>) -> SyncModel {
    let expected = spec_num_pixels(spec_chunk_payload(chunk));
    SyncModel {
        state: FrameSyncState::CollectingHeader { count: 1, last_index: Some(0u8) },
        mode: FrameMode::spec_mode_for(expected),
        buffer: chunk,
        ..m
    }
}

/// One step of the synchronization state machine on a 12-byte chunk,
/// returning the next model and the emitted frame bytes, if any.
#[verifier::opaque]
pub open spec fn spec_step(m: SyncModel, chunk: Seq<u8>) -> (SyncModel, Option<Seq<u8>>) {
    let control = spec_chunk_control(chunk);
    let p = spec_chunk_payload(chunk);
    match m.state {
        FrameSyncState::WaitingForSync => {
            if chunk == spec_idle_pattern() {
                (SyncModel { state: FrameSyncState::WaitingForFrame, ..m }, None)
            } else if control.spec_is_frame_start() {
                (spec_start_frame(m, chunk), None)
            } else {
                (m, None)
            }
        },
        FrameSyncState::WaitingForFrame => {
            if control.spec_is_frame_start() {
                (spec_start_frame(m, chunk), None)
            } else {
                (m, None)
            }
        },
        FrameSyncState::CollectingHeader { count, last_index } => {
            if control.spec_is_frame_start() {
                (
                    spec_start_frame(SyncModel { sync_errors: bump(m.sync_errors), ..m }, chunk),
                    None,
                )
            } else if control.spec_is_header() {
                let idx = spec_header_index(p);
                let hie = if last_index matches Some(l) && idx != (l as int + 1) % 16 && count
                    < HEADER_HWORDS_PER_FRAME {
                    bump(m.header_index_errors)
                } else {
                    m.header_index_errors
                };
                let buf = m.buffer + chunk;
                if count + 1 >= HEADER_HWORDS_PER_FRAME {
                    (
                        SyncModel {
                            state: FrameSyncState::CollectingPixels {
                                header_count: (count + 1) as usize,
                                pixel_count: 0,
                                expected_pixels: m.mode.spec_expected_pixel_count() as usize,
                            },
                            buffer: buf,
                            header_index_errors: hie,
                            ..m
                        },
                        None,
                    )
                } else {
                    (
                        SyncModel {
                            state: FrameSyncState::CollectingHeader {
                                count: (count + 1) as usize,
                                last_index: Some(idx as u8),
                            },
                            buffer: buf,
                            header_index_errors: hie,
                            ..m
                        },
                        None,
                    )
                }
            } else if control.spec_is_pixel() {
                (
                    SyncModel {
                        state: FrameSyncState::CollectingPixels {
                            header_count: count,
                            pixel_count: 1,
                            expected_pixels: m.mode.spec_expected_pixel_count() as usize,
                        },
                        buffer: m.buffer + chunk,
                        ..m
                    },
                    None,
                )
            } else {
                (m, None)
            }
        },
        FrameSyncState::CollectingPixels { header_count, pixel_count, expected_pixels } => {
            if control.spec_is_pixel() {
                let buf = m.buffer + chunk;
                if pixel_count + 1 >= expected_pixels {
                    (
                        SyncModel {
                            state: FrameSyncState::WaitingForFrame,
                            buffer: Seq::empty(),
                            frames_completed: bump(m.frames_completed),
                            ..m
                        },
                        Some(buf),
                    )
                } else {
                    (
                        SyncModel {
                            state: FrameSyncState::CollectingPixels {
                                header_count,
                                pixel_count: (pixel_count + 1) as usize,
                                expected_pixels,
                            },
                            buffer: buf,
                            ..m
                        },
                        None,
                    )
                }
            } else if control.spec_is_frame_start() {
                (
                    spec_start_frame(SyncModel { sync_errors: bump(m.sync_errors), ..m }, chunk),
                    None,
                )
            } else {
                (m, None)
            }
        },
        FrameSyncState::FrameComplete => (m, None),
    }
}

/// The full 96-bit word carried by a 12-byte chunk.
pub open spec fn spec_chunk_word(c: Seq<u8>) -> int {
    (c[0] as int / 32) * 0x2000_0000_0000_0000_0000_0000 + ((c[0] as int / 16) % 2)
        * 0x1000_0000_0000_0000_0000_0000 + spec_chunk_payload(c)
}

/// A parsed HWord carries exactly the 96-bit word of its chunk.
pub proof fn lemma_word_of_chunk(h: HWord, c: Seq<u8>)
    requires
        c.len() == 12,
        spec_hword_matches(h, c),
    ensures
        h.word() == spec_chunk_word(c),
{
    lemma_payload_of_chunk(h, c);
    assert(h.control_bits.spec_code() == c[0] / 32);
    assert((h.parity ==> ((c[0] as int / 16) % 2 == 1)) && (!h.parity ==> ((c[0] as int / 16) % 2
        == 0)));
}

/// Run the state machine over a sequence of chunks, collecting the emitted
/// frames in order.
pub open spec fn spec_run_stream(m: SyncModel, chunks: Seq<Seq<u8>>) -> (SyncModel, Seq<Seq<u8>>)
    decreases chunks.len(),
{
    if chunks.len() == 0 {
        (m, Seq::empty())
    } else {
        let first = spec_step(m, chunks.first());
        let rest = spec_run_stream(first.0, chunks.drop_first());
        (
            rest.0,
            (match first.1 {
                Some(f) => seq![f],
                None => Seq::empty(),
            }) + rest.1,
        )
    }
}

/// Running a stream extended by one chunk is running the stream, then
/// stepping on that chunk.
#[verifier::rlimit(100)]
#[verifier::spinoff_prover]
pub proof fn lemma_run_snoc(m: SyncModel, chunks: Seq<Seq<u8>>, c: Seq<u8>)
    ensures
        spec_run_stream(m, chunks.push(c)).0 == spec_step(spec_run_stream(m, chunks).0, c).0,
        spec_run_stream(m, chunks.push(c)).1 == spec_run_stream(m, chunks).1 + (match spec_step(
            spec_run_stream(m, chunks).0,
            c,
        ).1 {
            Some(f) => seq![f],
            None => Seq::empty(),
        }),
    decreases chunks.len(),
{
    if chunks.len() == 0 {
        let st = spec_step(m, c);
        let emit = (match st.1 {
            Some(f) => seq![f],
            None => Seq::<Seq<u8>>::empty(),
        });
        assert(chunks.push(c).first() == c);
        assert(chunks.push(c).drop_first() =~= Seq::<Seq<u8>>::empty());
        assert(spec_run_stream(st.0, Seq::<Seq<u8>>::empty()).0 == st.0);
        assert(spec_run_stream(m, chunks.push(c)).0 == st.0);
        assert(spec_run_stream(m, chunks).0 == m);
        assert(spec_run_stream(m, chunks.push(c)).1 == emit + Seq::<Seq<u8>>::empty());
        assert(emit + Seq::<Seq<u8>>::empty() =~= Seq::<Seq<u8>>::empty() + emit);
        assert(spec_run_stream(m, chunks).1 == Seq::<Seq<u8>>::empty());
    } else {
        assert(chunks.push(c).first() == chunks.first());
        assert(chunks.push(c).drop_first() =~= chunks.drop_first().push(c));
        let m1 = spec_step(m, chunks.first()).0;
        lemma_run_snoc(m1, chunks.drop_first(), c);
        let e0 = (match spec_step(m, chunks.first()).1 {
            Some(f) => seq![f],
            None => Seq::<Seq<u8>>::empty(),
        });
        let e_rest = spec_run_stream(m1, chunks.drop_first()).1;
        let e_last = (match spec_step(spec_run_stream(m, chunks).0, c).1 {
            Some(f) => seq![f],
            None => Seq::<Seq<u8>>::empty(),
        });
        assert(spec_run_stream(m, chunks).0 == spec_run_stream(m1, chunks.drop_first()).0);
        assert(e0 + (e_rest + e_last) =~= (e0 + e_rest) + e_last);
    }
}

/// The bytes of a sequence of chunks, concatenated in order.
pub open spec fn concat_chunks(cs: Seq<Seq<u8>>) -> Seq<u8>
    decreases cs.len(),
{
    if cs.len() == 0 {
        Seq::empty()
    } else {
        cs.first() + concat_chunks(cs.drop_first())
    }
}

/// The chunks of a sequence of frames, concatenated in order.
pub open spec fn concat_streams(fs: Seq<Seq<Seq<u8>>>) -> Seq<Seq<u8>>
    decreases fs.len(),
{
    if fs.len() == 0 {
        Seq::empty()
    } else {
        fs.first() + concat_streams(fs.drop_first())
    }
}

/// Concatenating chunk lists concatenates their bytes.
pub proof fn lemma_concat_chunks_append(a: Seq<Seq<u8>>, b: Seq<Seq<u8>>)
    ensures
        concat_chunks(a + b) == concat_chunks(a) + concat_chunks(b),
    decreases a.len(),
{
    if a.len() == 0 {
        assert(a + b =~= b);
        assert(concat_chunks(a) + concat_chunks(b) =~= concat_chunks(b));
    } else {
        assert((a + b).first() == a.first());
        assert((a + b).drop_first() =~= a.drop_first() + b);
        lemma_concat_chunks_append(a.drop_first(), b);
        assert(a.first() + (concat_chunks(a.drop_first()) + concat_chunks(b)) =~= (a.first()
            + concat_chunks(a.drop_first())) + concat_chunks(b));
    }
}

/// Running one stream after another is running their concatenation.
pub proof fn lemma_run_append(m: SyncModel, a: Seq<Seq<u8>>, b: Seq<Seq<u8>>)
    ensures
        spec_run_stream(m, a + b).0 == spec_run_stream(spec_run_stream(m, a).0, b).0,
        spec_run_stream(m, a + b).1 == spec_run_stream(m, a).1 + spec_run_stream(
            spec_run_stream(m, a).0,
            b,
        ).1,
    decreases a.len(),
{
    if a.len() == 0 {
        assert(a + b =~= b);
        assert(spec_run_stream(m, a).0 == m);
        assert(spec_run_stream(m, a).1 + spec_run_stream(m, b).1 =~= spec_run_stream(m, b).1);
    } else {
        assert((a + b).first() == a.first());
        assert((a + b).drop_first() =~= a.drop_first() + b);
        let m1 = spec_step(m, a.first()).0;
        lemma_run_append(m1, a.drop_first(), b);
        let e0 = (match spec_step(m, a.first()).1 {
            Some(f) => seq![f],
            None => Seq::<Seq<u8>>::empty(),
        });
        assert(e0 + (spec_run_stream(m1, a.drop_first()).1 + spec_run_stream(
            spec_run_stream(m, a).0,
            b,
        ).1) =~= (e0 + spec_run_stream(m1, a.drop_first()).1) + spec_run_stream(
            spec_run_stream(m, a).0,
            b,
        ).1);
    }
}

/// A well-formed frame cycle on the wire: one `FirstHeader` announcing `n`
/// pixels, 109 `SubsequentHeader`s, then a `FirstPixel` and `n - 1`
/// `SubsequentPixel`s.
pub open spec fn spec_wf_frame(f: Seq<Seq<u8>>, n: int) -> bool {
    &&& n >= 1
    &&& f.len() == 110 + n
    &&& (forall|i: int| 0 <= i < f.len() ==> (#[trigger] f[i]).len() == 12)
    &&& spec_chunk_control(f[0]) == ControlBits::FirstHeader
    &&& spec_num_pixels(spec_chunk_payload(f[0])) == n
    &&& (forall|i: int| 1 <= i < 110 ==> spec_chunk_control(#[trigger] f[i])
        == ControlBits::SubsequentHeader)
    &&& spec_chunk_control(f[110]) == ControlBits::FirstPixel
    &&& (forall|i: int| 110 < i < f.len() ==> spec_chunk_control(#[trigger] f[i])
        == ControlBits::SubsequentPixel)
}

/// Collecting the remaining headers of a frame: no emission, no error, the
/// buffer grows by exactly these chunks.
proof fn lemma_headers_phase(m: SyncModel, cs: Seq<Seq<u8>>)
    requires
        m.wf(),
        m.state matches FrameSyncState::CollectingHeader { count, .. } && count + cs.len()
            == HEADER_HWORDS_PER_FRAME,
        cs.len() >= 1,
        forall|i: int| 0 <= i < cs.len() ==> (#[trigger] cs[i]).len() == 12 && spec_chunk_control(
            cs[i],
        ) == ControlBits::SubsequentHeader,
    ensures
        ({
            let r = spec_run_stream(m, cs);
            &&& r.0.state == (FrameSyncState::CollectingPixels {
                header_count: HEADER_HWORDS_PER_FRAME,
                pixel_count: 0,
                expected_pixels: m.mode.spec_expected_pixel_count() as usize,
            })
            &&& r.0.mode == m.mode
            &&& r.0.buffer == m.buffer + concat_chunks(cs)
            &&& r.0.frames_completed == m.frames_completed
            &&& r.0.sync_errors == m.sync_errors
            &&& r.0.wf()
            &&& r.1 == Seq::<Seq<u8>>::empty()
        }),
    decreases cs.len(),
{
    reveal(spec_step);
    let c = cs.first();
    let st = spec_step(m, c);
    lemma_step_wf(m, c);
    assert(!spec_chunk_control(c).spec_is_frame_start());
    assert(spec_chunk_control(c).spec_is_header());
    if cs.len() == 1 {
        assert(st.0.buffer =~= m.buffer + concat_chunks(cs)) by {
            assert(concat_chunks(cs.drop_first()) == Seq::<u8>::empty());
            assert(c + Seq::<u8>::empty() =~= c);
            assert(concat_chunks(cs) =~= c);
        }
        assert(spec_run_stream(st.0, cs.drop_first()).0 == st.0);
        assert(spec_run_stream(m, cs).1 =~= Seq::<Seq<u8>>::empty());
    } else {
        lemma_headers_phase(st.0, cs.drop_first());
        assert(st.0.mode == m.mode);
        assert(st.0.buffer == m.buffer + c);
        assert(m.buffer + c + concat_chunks(cs.drop_first()) =~= m.buffer + (c + concat_chunks(
            cs.drop_first(),
        )));
        assert(concat_chunks(cs) == c + concat_chunks(cs.drop_first()));
        assert(spec_run_stream(m, cs).1 =~= Seq::<Seq<u8>>::empty());
    }
}

/// Collecting the pixels of a frame: exactly one emission, of the buffer
/// grown by these chunks, and no sync error.
proof fn lemma_pixels_phase(m: SyncModel, cs: Seq<Seq<u8>>)
    requires
        m.wf(),
        m.state matches FrameSyncState::CollectingPixels { header_count, pixel_count, expected_pixels }
            && pixel_count + cs.len() == expected_pixels,
        cs.len() >= 1,
        forall|i: int| 0 <= i < cs.len() ==> (#[trigger] cs[i]).len() == 12 && spec_chunk_control(
            cs[i],
        ).spec_is_pixel(),
    ensures
        ({
            let r = spec_run_stream(m, cs);
            &&& r.0.state == FrameSyncState::WaitingForFrame
            &&& r.0.mode == m.mode
            &&& r.0.buffer == Seq::<u8>::empty()
            &&& r.0.frames_completed == bump(m.frames_completed)
            &&& r.0.sync_errors == m.sync_errors
            &&& r.0.wf()
            &&& r.1 == seq![m.buffer + concat_chunks(cs)]
        }),
    decreases cs.len(),
{
    reveal(spec_step);
    let c = cs.first();
    let st = spec_step(m, c);
    lemma_step_wf(m, c);
    assert(!spec_chunk_control(c).spec_is_frame_start());
    assert(spec_chunk_control(c).spec_is_pixel());
    if cs.len() == 1 {
        assert(m.buffer + c =~= m.buffer + concat_chunks(cs)) by {
            assert(concat_chunks(cs.drop_first()) == Seq::<u8>::empty());
            assert(c + Seq::<u8>::empty() =~= c);
            assert(concat_chunks(cs) =~= c);
        }
        assert(spec_run_stream(st.0, cs.drop_first()).0 == st.0);
        assert(st.1 matches Some(f) && f == m.buffer + concat_chunks(cs));
        assert(spec_run_stream(m, cs).1 =~= seq![m.buffer + concat_chunks(cs)]);
    } else {
        assert(st.1 is None);
        lemma_pixels_phase(st.0, cs.drop_first());
        assert(st.0.buffer == m.buffer + c);
        assert(m.buffer + c + concat_chunks(cs.drop_first()) =~= m.buffer + (c + concat_chunks(
            cs.drop_first(),
        )));
        assert(concat_chunks(cs) == c + concat_chunks(cs.drop_first()));
        assert(spec_run_stream(m, cs).1 =~= seq![m.buffer + concat_chunks(cs)]);
    }
}

/// Idle fillers leave a synchronized or unsynchronized engine waiting with
/// nothing emitted; the first one synchronizes a cold engine.
proof fn lemma_idle_phase(m: SyncModel, idles: Seq<Seq<u8>>)
    requires
        m.wf(),
        m.state == FrameSyncState::WaitingForSync || m.state == FrameSyncState::WaitingForFrame,
        forall|i: int| 0 <= i < idles.len() ==> #[trigger] idles[i] == spec_idle_pattern(),
    ensures
        ({
            let r = spec_run_stream(m, idles);
            &&& r.0 == SyncModel {
                state: if m.state == FrameSyncState::WaitingForSync && idles.len() > 0 {
                    FrameSyncState::WaitingForFrame
                } else {
                    m.state
                },
                ..m
            }
            &&& r.0.wf()
            &&& r.1 == Seq::<Seq<u8>>::empty()
        }),
    decreases idles.len(),
{
    reveal(spec_step);
    if idles.len() == 0 {
        assert(spec_run_stream(m, idles).0 == m);
        assert(m == SyncModel { state: m.state, ..m });
    } else {
        let c = idles.first();
        assert(c == spec_idle_pattern());
        assert(spec_chunk_control(c) == ControlBits::Idle) by {
            assert(spec_idle_pattern()[0] == 0xFDu8);
        }
        let st = spec_step(m, c);
        lemma_idle_phase(st.0, idles.drop_first());
        assert(spec_run_stream(m, idles).1 =~= Seq::<Seq<u8>>::empty());
    }
}

/// A `FirstHeader` chunk reaching a waiting engine opens a new frame.
proof fn lemma_step_start(m: SyncModel, c: Seq<u8>)
    requires
        m.state == FrameSyncState::WaitingForSync || m.state == FrameSyncState::WaitingForFrame,
        spec_chunk_control(c).spec_is_frame_start(),
        c != spec_idle_pattern(),
    ensures
        spec_step(m, c).0 == spec_start_frame(m, c),
        spec_step(m, c).1 is None,
{
    reveal(spec_step);
}

/// Running a single chunk is one step.
proof fn lemma_run_singleton(m: SyncModel, c: Seq<u8>)
    ensures
        spec_run_stream(m, seq![c]).0 == spec_step(m, c).0,
        spec_run_stream(m, seq![c]).1 == (match spec_step(m, c).1 {
            Some(f) => seq![f],
            None => Seq::<Seq<u8>>::empty(),
        }),
{
    assert(seq![c].first() == c);
    assert(seq![c].drop_first() =~= Seq::<Seq<u8>>::empty());
    let st = spec_step(m, c);
    assert(spec_run_stream(st.0, Seq::<Seq<u8>>::empty()).0 == st.0);
    assert(spec_run_stream(st.0, Seq::<Seq<u8>>::empty()).1 == Seq::<Seq<u8>>::empty());
    let emit = (match st.1 {
        Some(f) => seq![f],
        None => Seq::<Seq<u8>>::empty(),
    });
    assert(emit + Seq::<Seq<u8>>::empty() =~= emit);
}

/// The rest of a frame cycle after its `FirstHeader` has opened the
/// frame: the remaining headers and all pixels, ending in one emission.
proof fn lemma_cycle_rest(m1: SyncModel, f: Seq<Seq<u8>>, n: int)
    requires
        m1.wf(),
        spec_wf_frame(f, n),
        m1.state == (FrameSyncState::CollectingHeader { count: 1, last_index: Some(0u8) }),
        m1.mode.spec_expected_pixel_count() == n,
        m1.buffer == f[0],
    ensures
        ({
            let r = spec_run_stream(m1, f.subrange(1, f.len() as int));
            &&& r.0.state == FrameSyncState::WaitingForFrame
            &&& r.0.frames_completed == bump(m1.frames_completed)
            &&& r.0.sync_errors == m1.sync_errors
            &&& r.0.wf()
            &&& r.1 == seq![concat_chunks(f)]
        }),
{
    let hs = f.subrange(1, 110);
    let ps = f.subrange(110, f.len() as int);
    assert(f.subrange(1, f.len() as int) =~= hs + ps);
    lemma_run_append(m1, hs, ps);
    lemma_headers_phase(m1, hs);
    let m2 = spec_run_stream(m1, hs).0;
    assert(n <= 0xFFFF) by {
        assert(m1.mode_ok());
    }
    assert(m2.state == (FrameSyncState::CollectingPixels {
        header_count: HEADER_HWORDS_PER_FRAME,
        pixel_count: 0,
        expected_pixels: n as usize,
    }));
    assert(forall|i: int| 0 <= i < ps.len() ==> (#[trigger] ps[i]).len() == 12
        && spec_chunk_control(ps[i]).spec_is_pixel());
    lemma_pixels_phase(m2, ps);
    assert(m2.buffer + concat_chunks(ps) =~= concat_chunks(f)) by {
        assert(f.drop_first() =~= hs + ps);
        assert(concat_chunks(f) == f.first() + concat_chunks(hs + ps));
        lemma_concat_chunks_append(hs, ps);
        assert(m2.buffer == f[0] + concat_chunks(hs));
        assert(f[0] == f.first());
    }
    assert(spec_run_stream(m1, f.subrange(1, f.len() as int)).1 =~= seq![concat_chunks(f)]);
}

/// One well-formed frame cycle from a waiting engine: exactly one frame is
/// emitted (the cycle's bytes), and no sync error is counted.
proof fn lemma_frame_cycle(m: SyncModel, f: Seq<Seq<u8>>, n: int)
    requires
        m.wf(),
        m.state == FrameSyncState::WaitingForSync || m.state == FrameSyncState::WaitingForFrame,
        spec_wf_frame(f, n),
    ensures
        ({
            let r = spec_run_stream(m, f);
            &&& r.0.state == FrameSyncState::WaitingForFrame
            &&& r.0.frames_completed == bump(m.frames_completed)
            &&& r.0.sync_errors == m.sync_errors
            &&& r.0.wf()
            &&& r.1 == seq![concat_chunks(f)]
        }),
{
    let c = f[0];
    assert(c == f.first());
    assert(spec_chunk_control(c).spec_is_frame_start());
    assert(c != spec_idle_pattern()) by {
        assert(spec_chunk_control(spec_idle_pattern()) == ControlBits::Idle) by {
            assert(spec_idle_pattern()[0] == 0xFDu8);
        }
    }
    lemma_step_start(m, c);
    let m1 = spec_step(m, c).0;
    assert(m1 == spec_start_frame(m, c));
    assert(1 <= n <= 0xFFFF) by {
        assert(n == spec_num_pixels(spec_chunk_payload(c)));
    }
    assert(m1.mode == FrameMode::spec_mode_for(n));
    assert(m1.mode.spec_expected_pixel_count() == n) by {
        if n != 1 && n != 5 {
            assert(FrameMode::spec_mode_for(n) == (FrameMode::Imaging {
                expected_pixels: n as usize,
            }));
        }
    }
    assert(m1.wf());
    let rest = f.subrange(1, f.len() as int);
    assert(f =~= seq![c] + rest);
    lemma_run_singleton(m, c);
    lemma_run_append(m, seq![c], rest);
    lemma_cycle_rest(m1, f, n);
    assert(spec_run_stream(m, f).1 =~= seq![concat_chunks(f)]);
}

/// A sequence of well-formed frame cycles from a waiting engine: one
/// emission per cycle, in order, and no sync errors.
proof fn lemma_cycles(m: SyncModel, frames: Seq<Seq<Seq<u8>>>, ns: Seq<int>)
    requires
        m.wf(),
        m.state == FrameSyncState::WaitingForSync || m.state == FrameSyncState::WaitingForFrame,
        ns.len() == frames.len(),
        forall|k: int| 0 <= k < frames.len() ==> spec_wf_frame(#[trigger] frames[k], ns[k]),
        m.frames_completed + frames.len() <= u64::MAX,
    ensures
        ({
            let r = spec_run_stream(m, concat_streams(frames));
            &&& (r.0.state == m.state || r.0.state == FrameSyncState::WaitingForFrame)
            &&& r.0.frames_completed == m.frames_completed + frames.len()
            &&& r.0.sync_errors == m.sync_errors
            &&& r.0.wf()
            &&& r.1 == frames.map_values(|f: Seq<Seq<u8>>| concat_chunks(f))
        }),
    decreases frames.len(),
{
    if frames.len() == 0 {
        assert(spec_run_stream(m, concat_streams(frames)).0 == m);
        assert(spec_run_stream(m, concat_streams(frames)).1 =~= frames.map_values(
            |f: Seq<Seq<u8>>| concat_chunks(f),
        ));
    } else {
        let f0 = frames.first();
        let rest = frames.drop_first();
        assert(concat_streams(frames) == f0 + concat_streams(rest));
        lemma_run_append(m, f0, concat_streams(rest));
        assert(spec_wf_frame(f0, ns[0]));
        lemma_frame_cycle(m, f0, ns[0]);
        let m1 = spec_run_stream(m, f0).0;
        assert(m1.frames_completed == m.frames_completed + 1);
        lemma_cycles(m1, rest, ns.drop_first());
        assert(spec_run_stream(m, concat_streams(frames)).1 =~= frames.map_values(
            |f: Seq<Seq<u8>>| concat_chunks(f),
        )) by {
            assert(spec_run_stream(m, concat_streams(frames)).1 == seq![concat_chunks(f0)]
                + rest.map_values(|f: Seq<Seq<u8>>| concat_chunks(f)));
            assert(frames.map_values(|f: Seq<Seq<u8>>| concat_chunks(f)).len() == frames.len());
            assert(forall|k: int| 0 <= k < frames.len() ==> frames.map_values(
                |f: Seq<Seq<u8>>| concat_chunks(f),
            )[k] == concat_chunks(#[trigger] frames[k]));
        }
    }
}

/// Law (sync monotonicity): for a byte stream of idle fillers followed by
/// any number of well-formed frame cycles, a fresh engine emits exactly one
/// blob per cycle — each cycle's own bytes, in order — and counts no sync
/// errors.
pub proof fn lemma_sync_monotonicity(idles: Seq<Seq<u8>>, frames: Seq<Seq<Seq<u8>>>, ns: Seq<int>)
    requires
        forall|i: int| 0 <= i < idles.len() ==> #[trigger] idles[i] == spec_idle_pattern(),
        ns.len() == frames.len(),
        forall|k: int| 0 <= k < frames.len() ==> spec_wf_frame(#[trigger] frames[k], ns[k]),
        frames.len() <= u64::MAX,
    ensures
        ({
            let r = spec_run_stream(SyncModel::initial(), idles + concat_streams(frames));
            &&& r.1 == frames.map_values(|f: Seq<Seq<u8>>| concat_chunks(f))
            &&& r.0.sync_errors == 0
            &&& r.0.frames_completed == frames.len()
        }),
{
    let m0 = SyncModel::initial();
    assert(m0.wf());
    lemma_run_append(m0, idles, concat_streams(frames));
    lemma_idle_phase(m0, idles);
    let m1 = spec_run_stream(m0, idles).0;
    lemma_cycles(m1, frames, ns);
    assert(spec_run_stream(m0, idles + concat_streams(frames)).1 =~= frames.map_values(
        |f: Seq<Seq<u8>>| concat_chunks(f),
    ));
}

/// Each step keeps the model well formed, and any emitted frame is the new
/// buffer, whose length is a non-zero multiple of 12.
pub proof fn lemma_step_wf(m: SyncModel, chunk: Seq<u8>)
    requires
        m.wf(),
        chunk.len() == 12,
    ensures
        spec_step(m, chunk).0.wf(),
        spec_step(m, chunk).1 matches Some(f) ==> f.len() % 12 == 0 && f.len() > 0 && f.len()
            <= 0x1000000,
{
    reveal(spec_step);
}

/// Frame synchronization engine.
#[derive(Debug)]
pub struct FrameSyncEngine {
    state: FrameSyncState,
    frame_buffer: Vec<u8>,
    current_mode: FrameMode,
    frames_completed: u64,
    sync_errors: u64,
    header_index_errors: u64,
}

impl View for FrameSyncEngine {
    type V = SyncModel;

    closed spec fn view(&self) -> SyncModel {
        SyncModel {
            state: self.state,
            mode: self.current_mode,
            buffer: self.frame_buffer@,
            frames_completed: self.frames_completed,
            sync_errors: self.sync_errors,
            header_index_errors: self.header_index_errors,
        }
    }
}

/// Append the 12 bytes of a chunk to a byte buffer.
fn append_chunk(buf: &mut Vec<u8>, chunk: &[u8; 12])
    requires
        old(buf)@.len() + 12 <= usize::MAX,
    ensures
        final(buf)@ == old(buf)@ + chunk@,
{
    let mut i: usize = 0;
    while i < 12
        invariant
            i <= 12,
            buf@ == old(buf)@ + chunk@.subrange(0, i as int),
        decreases 12 - i,
    {
        buf.push(chunk[i]);
        proof {
            assert(chunk@.subrange(0, i + 1) =~= chunk@.subrange(0, i as int).push(
                chunk@[i as int],
            ));
        }
        i += 1;
    }
    proof {
        assert(chunk@.subrange(0, 12) =~= chunk@);
    }
}

/// Copy a byte buffer.
fn clone_bytes(v: &Vec<u8>) -> (r: Vec<u8>)
    ensures
        r@ == v@,
{
    let mut r: Vec<u8> = Vec::new();
    let n = v.len();
    let mut i: usize = 0;
    while i < n
        invariant
            n == v@.len(),
            i <= n,
            r@ == v@.subrange(0, i as int),
        decreases n - i,
    {
        r.push(v[i]);
        proof {
            assert(v@.subrange(0, i + 1) =~= v@.subrange(0, i as int).push(v@[i as int]));
        }
        i += 1;
    }
    proof {
        assert(v@.subrange(0, n as int) =~= v@);
    }
    r
}

impl FrameSyncEngine {
    /// Create a new frame synchronization engine.
    pub fn new() -> (r: FrameSyncEngine)
        ensures
            r@ == SyncModel::initial(),
            r@.wf(),
    {
        let r = FrameSyncEngine {
            state: FrameSyncState::WaitingForSync,
            frame_buffer: Vec::new(),
            current_mode: FrameMode::Unknown,
            frames_completed: 0,
            sync_errors: 0,
            header_index_errors: 0,
        };
        proof {
            assert(r@.buffer =~= SyncModel::initial().buffer);
        }
        r
    }

    /// Get current state.
    pub fn state(&self) -> (r: FrameSyncState)
        ensures
            r == self@.state,
    {
        self.state
    }

    /// Get statistics: frames completed, sync errors, header index errors.
    pub fn stats(&self) -> (r: (u64, u64, u64))
        ensures
            r.0 == self@.frames_completed,
            r.1 == self@.sync_errors,
            r.2 == self@.header_index_errors,
    {
        (self.frames_completed, self.sync_errors, self.header_index_errors)
    }

    /// Get the bytes accumulated for the frame in progress.
    pub fn current_buffer(&self) -> (r: &[u8])
        ensures
            r@ == self@.buffer,
    {
        self.frame_buffer.as_slice()
    }

    /// Check if a chunk is exactly the 12-byte idle pattern.
    pub fn is_idle_hword(chunk: &[u8]) -> (r: bool)
        ensures
            r == (chunk@ == spec_idle_pattern()),
    {
        if chunk.len() != 12 {
            return false;
        }
        let pattern: [u8; 12] = [
            0xFD, 0x3C, 0x4B, 0x5A, 0x69, 0x78, 0x87, 0x96, 0xA5, 0xB4, 0xC3, 0xB2,
        ];
        proof {
            assert(pattern@ =~= spec_idle_pattern());
        }
        let mut i: usize = 0;
        while i < 12
            invariant
                chunk@.len() == 12,
                pattern@ == spec_idle_pattern(),
                i <= 12,
                forall|j: int| 0 <= j < i ==> chunk@[j] == spec_idle_pattern()[j],
            decreases 12 - i,
        {
            if chunk[i] != pattern[i] {
                proof {
                    assert(chunk@[i as int] != spec_idle_pattern()[i as int]);
                }
                return false;
            }
            i += 1;
        }
        proof {
            assert(chunk@ =~= spec_idle_pattern());
        }
        true
    }

    /// Extract the header index (payload bits 87:84) from a header HWORD.
    pub fn extract_header_index(hword: &HWord) -> (r: Option<u8>)
        requires
            hword.wf(),
        ensures
            hword.control_bits.spec_is_header() ==> r == Some(
                spec_header_index(hword.payload()) as u8,
            ),
            !hword.control_bits.spec_is_header() ==> r is None,
    {
        if !hword.control_bits.is_header() {
            return None;
        }
        let data = hword.data_as_u128();
        let index = ((data / 0x10_0000_0000_0000_0000_0000) % 16) as u8;
        Some(index)
    }

    /// Extract NUM_PIXELS_RW (register 2, payload bits 47:32) from a
    /// `FirstHeader` HWORD; 0 defaults to 1.
    pub fn extract_num_pixels(first_header_hword: &HWord) -> (r: Option<usize>)
        requires
            first_header_hword.wf(),
        ensures
            first_header_hword.control_bits.spec_is_frame_start() ==> r == Some(
                spec_num_pixels(first_header_hword.payload()) as usize,
            ),
            !first_header_hword.control_bits.spec_is_frame_start() ==> r is None,
    {
        if !first_header_hword.control_bits.is_frame_start() {
            return None;
        }
        let data = first_header_hword.data_as_u128();
        let num_pixels = ((data / 0x1_0000_0000) % 0x1_0000) as usize;
        if num_pixels > 0 {
            Some(num_pixels)
        } else {
            Some(1)
        }
    }

    /// Open a new frame on a `FirstHeader` chunk: reset the buffer, derive
    /// the mode from the announced pixel count, and count this header.
    fn start_frame(&mut self, chunk: &[u8; 12], hword: &HWord)
        requires
            old(self)@.wf(),
            spec_hword_matches(*hword, chunk@),
            hword.control_bits.spec_is_frame_start(),
        ensures
            final(self)@ == spec_start_frame(old(self)@, chunk@),
            final(self)@.wf(),
    {
        proof {
            lemma_payload_of_chunk(*hword, chunk@);
        }
        self.frame_buffer.clear();
        append_chunk(&mut self.frame_buffer, chunk);
        let expected_pixels = match Self::extract_num_pixels(hword) {
            Some(n) => n,
            None => {
                proof {
                    assert(false);
                }
                1
            },
        };
        self.current_mode = if expected_pixels == 1 {
            FrameMode::OnePointScan
        } else if expected_pixels == 5 {
            FrameMode::FivePointScan
        } else {
            FrameMode::Imaging { expected_pixels }
        };
        self.state = FrameSyncState::CollectingHeader { count: 1, last_index: Some(0) };
    }

    /// Process a 12-byte HWORD chunk; returns the completed frame's bytes
    /// when this chunk finishes a frame.
    pub fn process_hword(&mut self, chunk: &[u8; 12]) -> (r: Option<Vec<u8>>)
        requires
            old(self)@.wf(),
        ensures
            final(self)@.wf(),
            final(self)@ == spec_step(old(self)@, chunk@).0,
            (spec_step(old(self)@, chunk@).1 matches Some(f) ==> (r matches Some(v) && v@ == f)),
            spec_step(old(self)@, chunk@).1 is None ==> r is None,
    {
        proof {
            reveal(spec_step);
            lemma_step_wf(old(self)@, chunk@);
        }
        let hword = match HWord::from_bytes(chunk) {
            Ok(h) => h,
            Err(_) => {
                proof {
                    assert(false);
                }
                return None;
            },
        };
        proof {
            lemma_payload_of_chunk(hword, chunk@);
        }
        match self.state {
            FrameSyncState::WaitingForSync => {
                if Self::is_idle_hword(chunk.as_slice()) {
                    self.state = FrameSyncState::WaitingForFrame;
                } else if hword.control_bits.is_frame_start() {
                    self.start_frame(chunk, &hword);
                }
                None
            },
            FrameSyncState::WaitingForFrame => {
                if hword.control_bits.is_frame_start() {
                    self.start_frame(chunk, &hword);
                }
                None
            },
            FrameSyncState::CollectingHeader { count, last_index } => {
                if hword.control_bits.is_frame_start() {
                    self.sync_errors = if self.sync_errors < u64::MAX {
                        self.sync_errors + 1
                    } else {
                        self.sync_errors
                    };
                    self.start_frame(chunk, &hword);
                } else if hword.control_bits.is_header() {
                    let index = match Self::extract_header_index(&hword) {
                        Some(i) => i,
                        None => {
                            proof {
                                assert(false);
                            }
                            0
                        },
                    };
                    if let Some(last) = last_index {
                        let expected = (last as u64 + 1) % 16;
                        if index as u64 != expected && count < HEADER_HWORDS_PER_FRAME {
                            self.header_index_errors = if self.header_index_errors < u64::MAX {
                                self.header_index_errors + 1
                            } else {
                                self.header_index_errors
                            };
                        }
                    }
                    append_chunk(&mut self.frame_buffer, chunk);
                    if count + 1 >= HEADER_HWORDS_PER_FRAME {
                        self.state = FrameSyncState::CollectingPixels {
                            header_count: count + 1,
                            pixel_count: 0,
                            expected_pixels: self.current_mode.expected_pixel_count(),
                        };
                    } else {
                        self.state = FrameSyncState::CollectingHeader {
                            count: count + 1,
                            last_index: Some(index),
                        };
                    }
                } else if hword.control_bits.is_pixel() {
                    append_chunk(&mut self.frame_buffer, chunk);
                    self.state = FrameSyncState::CollectingPixels {
                        header_count: count,
                        pixel_count: 1,
                        expected_pixels: self.current_mode.expected_pixel_count(),
                    };
                }
                None
            },
            FrameSyncState::CollectingPixels { header_count, pixel_count, expected_pixels } => {
                if hword.control_bits.is_pixel() {
                    append_chunk(&mut self.frame_buffer, chunk);
                    if pixel_count + 1 >= expected_pixels {
                        self.frames_completed = if self.frames_completed < u64::MAX {
                            self.frames_completed + 1
                        } else {
                            self.frames_completed
                        };
                        self.state = FrameSyncState::WaitingForFrame;
                        let completed = clone_bytes(&self.frame_buffer);
                        self.frame_buffer.clear();
                        return Some(completed);
                    } else {
                        self.state = FrameSyncState::CollectingPixels {
                            header_count,
                            pixel_count: pixel_count + 1,
                            expected_pixels,
                        };
                    }
                } else if hword.control_bits.is_frame_start() {
                    self.sync_errors = if self.sync_errors < u64::MAX {
                        self.sync_errors + 1
                    } else {
                        self.sync_errors
                    };
                    self.start_frame(chunk, &hword);
                }
                None
            },
            FrameSyncState::FrameComplete => None,
        }
    }
}

impl Default for FrameSyncEngine {
    /// The default engine starts unsynchronized with empty statistics.
    fn default() -> (r: Self)
        ensures
            r@ == SyncModel::initial(),
            r@.wf(),
    {
        FrameSyncEngine::new()
    }
}

} // verus!
