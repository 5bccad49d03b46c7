//! Frame data structures and the frame decoder.
//!
//! A frame blob is a sequence of 12-byte HWORDs: header HWORDs first, then
//! pixel HWORDs, possibly interspersed with idle fillers (which the decoder
//! skips).  File reading itself happens outside the library; the decoder
//! works on in-memory bytes and on plain file names.

use vstd::prelude::*;
use vstd::string::*;
use crate::hword::{HWord, ControlBits, spec_hword_matches};
use crate::coordinates::{
    CoordinateData, FieldWhitelist, FieldType, extract_coordinates_from_hword, spec_extract_point,
    spec_field_from_str, decimated_len,
};
use crate::error::SharedError;
use crate::digits::{
    all_digits, all_hex, is_ascii_digit, spec_parse_dec, spec_parse_hex, spec_stem, spec_stem_hash,
    spec_digit_run, parse_dec_u32, parse_hex_u32, file_stem, stem_hash, find_digit_run,
    lemma_parse_hex_bound, lemma_digit_run_unique,
};

verus! {

/// The five 16-bit registers carried in bits 79:0 of a header HWORD's
/// payload, in lane order.
pub open spec fn spec_registers_of(h: HWord) -> Seq<u16> {
    let p = h.payload();
    seq![
        (p % 0x1_0000) as u16,
        ((p / 0x1_0000) % 0x1_0000) as u16,
        ((p / 0x1_0000_0000) % 0x1_0000) as u16,
        ((p / 0x1_0000_0000_0000) % 0x1_0000) as u16,
        ((p / 0x1_0000_0000_0000_0000) % 0x1_0000) as u16,
    ]
}

/// The registers of a whole header list, concatenated in order.
pub open spec fn spec_registers_of_all(hs: Seq<HWord>) -> Seq<u16>
    decreases hs.len(),
{
    if hs.len() == 0 {
        Seq::empty()
    } else {
        spec_registers_of_all(hs.drop_last()) + spec_registers_of(hs.last())
    }
}

/// Frame header containing register data and metadata.
#[derive(Debug, Clone)]
pub struct FrameHeader {
    pub hwords: Vec<HWord>,
    pub registers: Vec<u16>,
}

impl FrameHeader {
    /// All stored HWords are well formed.
    pub open spec fn wf(self) -> bool {
        forall|i: int| 0 <= i < self.hwords@.len() ==> (#[trigger] self.hwords@[i]).wf()
    }

    /// Create a new empty frame header.
    pub fn new() -> (r: FrameHeader)
        ensures
            r.hwords@.len() == 0,
            r.registers@.len() == 0,
            r.wf(),
    {
        FrameHeader { hwords: Vec::new(), registers: Vec::new() }
    }

    /// Add an HWORD to the header; only header HWORDs are accepted.
    pub fn add_hword(&mut self, hword: HWord) -> (r: Result<(), SharedError>)
        requires
            hword.wf(),
            old(self).wf(),
        ensures
            final(self).wf(),
            final(self).registers@ == old(self).registers@,
            hword.control_bits.spec_is_header() ==> r is Ok && final(self).hwords@ == old(
                self,
            ).hwords@.push(hword),
            !hword.control_bits.spec_is_header() ==> (r matches Err(e) && (e matches
            SharedError::InvalidFrame(_))) && final(self).hwords@ == old(self).hwords@,
    {
        if !hword.control_bits.is_header() {
            return Err(
                SharedError::invalid_frame(
                    String::from_str("Attempted to add non-header HWORD to frame header"),
                ),
            );
        }
        self.hwords.push(hword);
        Ok(())
    }

    /// Check if the header is complete (110 HWORDs expected).
    pub fn is_complete(&self) -> (r: bool)
        ensures
            r == (self.hwords@.len() >= crate::protocol::HEADER_HWORDS_PER_FRAME),
    {
        self.hwords.len() >= crate::protocol::HEADER_HWORDS_PER_FRAME
    }

    /// Extract register data from header HWORDs: five 16-bit lanes per
    /// HWORD, in order.
    pub fn extract_registers(&mut self) -> (r: Result<(), SharedError>)
        requires
            old(self).wf(),
        ensures
            r is Ok,
            final(self).wf(),
            final(self).hwords@ == old(self).hwords@,
            final(self).registers@ == spec_registers_of_all(old(self).hwords@),
    {
        self.registers.clear();
        let n = self.hwords.len();
        let mut i: usize = 0;
        while i < n
            invariant
                n == self.hwords@.len(),
                i <= n,
                self.hwords@ == old(self).hwords@,
                old(self).wf(),
                self.registers@ == spec_registers_of_all(self.hwords@.subrange(0, i as int)),
            decreases n - i,
        {
            let h = self.hwords[i];
            let data = h.data_as_u128();
            self.registers.push((data % 0x1_0000) as u16);
            self.registers.push(((data / 0x1_0000) % 0x1_0000) as u16);
            self.registers.push(((data / 0x1_0000_0000) % 0x1_0000) as u16);
            self.registers.push(((data / 0x1_0000_0000_0000) % 0x1_0000) as u16);
            self.registers.push(((data / 0x1_0000_0000_0000_0000) % 0x1_0000) as u16);
            proof {
                let pre = self.hwords@.subrange(0, i as int);
                let post = self.hwords@.subrange(0, i + 1);
                assert(post.drop_last() =~= pre);
                assert(post.last() == self.hwords@[i as int]);
                assert(self.registers@ =~= spec_registers_of_all(pre) + spec_registers_of(
                    self.hwords@[i as int],
                ));
            }
            i += 1;
        }
        proof {
            assert(self.hwords@.subrange(0, n as int) =~= self.hwords@);
        }
        Ok(())
    }
}

impl Default for FrameHeader {
    /// The default header is empty.
    fn default() -> (r: Self)
        ensures
            r.hwords@.len() == 0,
            r.registers@.len() == 0,
            r.wf(),
    {
        FrameHeader::new()
    }
}

/// Pixel data containing coordinate information.
#[derive(Debug, Clone)]
pub struct PixelData {
    pub hwords: Vec<HWord>,
}

impl PixelData {
    /// All stored HWords are well formed and carry pixel control codes.
    pub open spec fn wf(self) -> bool {
        forall|i: int| 0 <= i < self.hwords@.len() ==> ((#[trigger] self.hwords@[i]).wf()
            && self.hwords@[i].control_bits.spec_is_pixel())
    }

    /// Create new empty pixel data.
    pub fn new() -> (r: PixelData)
        ensures
            r.hwords@.len() == 0,
            r.wf(),
    {
        PixelData { hwords: Vec::new() }
    }

    /// Add an HWORD to the pixel data; only pixel HWORDs are accepted.
    pub fn add_hword(&mut self, hword: HWord) -> (r: Result<(), SharedError>)
        requires
            hword.wf(),
            old(self).wf(),
        ensures
            final(self).wf(),
            hword.control_bits.spec_is_pixel() ==> r is Ok && final(self).hwords@ == old(
                self,
            ).hwords@.push(hword),
            !hword.control_bits.spec_is_pixel() ==> (r matches Err(e) && (e matches
            SharedError::InvalidFrame(_))) && final(self).hwords@ == old(self).hwords@,
    {
        if !hword.control_bits.is_pixel() {
            return Err(
                SharedError::invalid_frame(
                    String::from_str("Attempted to add non-pixel HWORD to pixel data"),
                ),
            );
        }
        self.hwords.push(hword);
        Ok(())
    }

    /// Get the number of pixel HWORDs.
    pub fn len(&self) -> (r: usize)
        ensures
            r == self.hwords@.len(),
    {
        self.hwords.len()
    }

    /// Check if pixel data is empty.
    pub fn is_empty(&self) -> (r: bool)
        ensures
            r == (self.hwords@.len() == 0),
    {
        self.hwords.is_empty()
    }

    /// Extract coordinate data from pixel HWORDs, keeping every
    /// `decimation`-th pixel (0 and 1 keep all) and only the whitelisted
    /// fields.
    pub fn extract_coordinates(&self, whitelist: &FieldWhitelist, decimation: usize) -> (r:
        CoordinateData)
        requires
            self.wf(),
        ensures
            spec_points_decimated(
                r.points@,
                self.hwords@,
                if decimation <= 1 { 1int } else { decimation as int },
                *whitelist,
            ),
    {
        let len = self.hwords.len();
        let d: usize = if decimation <= 1 {
            1
        } else {
            decimation
        };
        let mut coordinates = CoordinateData::with_capacity(len / d);
        if len == 0 {
            proof {
                assert(decimated_len(0, d as int) == 0) by {
                    vstd::arithmetic::div_mod::lemma_basic_div(d as int - 1, d as int);
                }
            }
            return coordinates;
        }
        let mut i: usize = 0;
        proof {
            vstd::arithmetic::mul::lemma_mul_basics(d as int);
        }
        loop
            invariant_except_break
                d >= 1,
                len == self.hwords@.len(),
                self.wf(),
                0 < len,
                i < len,
                i as int == coordinates.points@.len() * (d as int),
                forall|j: int| 0 <= j < coordinates.points@.len()
                    ==> coordinates.points@[j] == spec_extract_point(
                    self.hwords@[j * (d as int)].payload(),
                    *whitelist,
                ),
            ensures
                d >= 1,
                len == self.hwords@.len(),
                coordinates.points@.len() >= 1,
                i as int == (coordinates.points@.len() - 1) * (d as int),
                i < len,
                len - i <= d,
                forall|j: int| 0 <= j < coordinates.points@.len()
                    ==> coordinates.points@[j] == spec_extract_point(
                    self.hwords@[j * (d as int)].payload(),
                    *whitelist,
                ),
            decreases len - i,
        {
            let ghost k_before = coordinates.points@.len() as int;
            let h = self.hwords[i];
            match extract_coordinates_from_hword(&h, whitelist) {
                Some(point) => {
                    coordinates.add_point(point);
                },
                None => {
                    proof {
                        assert(false);
                    }
                },
            }
            if len - i <= d {
                break;
            }
            proof {
                assert((k_before + 1) * (d as int) == k_before * (d as int) + (d as int))
                    by (nonlinear_arith);
            }
            i += d;
        }
        proof {
            let k = coordinates.points@.len() as int;
            let f = d as int;
            let l = len as int;
            assert(0 <= l + f - 1 - f * k && l + f - 1 - f * k < f) by (nonlinear_arith)
                requires
                    k >= 1,
                    f >= 1,
                    i as int == (k - 1) * f,
                    (i as int) < l,
                    l - (i as int) <= f,
            ;
            vstd::arithmetic::div_mod::lemma_div_multiples_vanish_fancy(k, l + f - 1 - f * k, f);
            assert(f * k + (l + f - 1 - f * k) == l + f - 1);
            assert(decimated_len(l, f) == k);
        }
        coordinates
    }
}

impl Default for PixelData {
    /// The default pixel data is empty.
    fn default() -> (r: Self)
        ensures
            r.hwords@.len() == 0,
            r.wf(),
    {
        PixelData::new()
    }
}

/// The points produced by striding through `hs` with step `d` and decoding
/// each kept pixel under whitelist `w`.
pub open spec fn spec_points_decimated(
    ps: Seq<crate::coordinates::CoordinatePoint>,
    hs: Seq<HWord>,
    d: int,
    w: FieldWhitelist,
) -> bool {
    &&& ps.len() == decimated_len(hs.len() as int, d)
    &&& forall|i: int| 0 <= i < ps.len() ==> ps[i] == spec_extract_point(
        hs[i * d].payload(),
        w,
    )
}

/// The result of classifying a sequence of HWords into header and pixel
/// lists: `FirstHeader` always opens the header section, `FirstPixel` always
/// opens the pixel section, subsequent HWords are kept only while their
/// section is open, and idle or reserved HWords are skipped.
pub struct FrameParts {
    pub headers: Seq<HWord>,
    pub pixels: Seq<HWord>,
    pub in_header: bool,
}

/// Classify a sequence of HWords into header and pixel lists.
pub open spec fn spec_collect(hs: Seq<HWord>) -> FrameParts
    decreases hs.len(),
{
    if hs.len() == 0 {
        FrameParts { headers: Seq::empty(), pixels: Seq::empty(), in_header: false }
    } else {
        let prev = spec_collect(hs.drop_last());
        let h = hs.last();
        match h.control_bits {
            ControlBits::FirstHeader => FrameParts {
                headers: prev.headers.push(h),
                pixels: prev.pixels,
                in_header: true,
            },
            ControlBits::SubsequentHeader => if prev.in_header {
                FrameParts {
                    headers: prev.headers.push(h),
                    pixels: prev.pixels,
                    in_header: prev.in_header,
                }
            } else {
                prev
            },
            ControlBits::FirstPixel => FrameParts {
                headers: prev.headers,
                pixels: prev.pixels.push(h),
                in_header: false,
            },
            ControlBits::SubsequentPixel => if !prev.in_header {
                FrameParts {
                    headers: prev.headers,
                    pixels: prev.pixels.push(h),
                    in_header: prev.in_header,
                }
            } else {
                prev
            },
            _ => prev,
        }
    }
}

/// Parse a byte buffer into consecutive HWords; the length must be a
/// multiple of 12.
pub fn parse_hwords(data: &[u8]) -> (r: Result<Vec<HWord>, SharedError>)
    ensures
        data@.len() % 12 != 0 ==> (r matches Err(e) && (e matches SharedError::InvalidFileFormat(
            _,
        ))),
        data@.len() % 12 == 0 ==> (r matches Ok(hws) && hws@.len() == data@.len() / 12 && (forall|
            i: int,
        | 0 <= i < hws@.len() ==> spec_hword_matches(
            #[trigger] hws@[i],
            data@.subrange(12 * i, 12 * i + 12),
        ))),
{
    let n = data.len();
    if n % 12 != 0 {
        return Err(
            SharedError::invalid_file_format(
                String::from_str("File size is not a multiple of HWORD size (12 bytes)"),
            ),
        );
    }
    let mut hws: Vec<HWord> = Vec::new();
    let mut pos: usize = 0;
    while pos < n
        invariant
            n == data@.len(),
            n % 12 == 0,
            pos % 12 == 0,
            pos <= n,
            hws@.len() == pos / 12,
            forall|i: int| 0 <= i < hws@.len() ==> spec_hword_matches(
                #[trigger] hws@[i],
                data@.subrange(12 * i, 12 * i + 12),
            ),
        decreases n - pos,
    {
        proof {
            assert((n - pos) % 12 == 0) by {
                assert(12 * ((pos / 12) as int) == pos as int);
                assert(12 * ((n / 12) as int) == n as int);
            }
            assert(n - pos >= 12);
        }
        let chunk: [u8; 12] = [
            data[pos], data[pos + 1], data[pos + 2], data[pos + 3], data[pos + 4], data[pos + 5],
            data[pos + 6], data[pos + 7], data[pos + 8], data[pos + 9], data[pos + 10], data[pos
                + 11],
        ];
        proof {
            assert(chunk@ =~= data@.subrange(pos as int, pos as int + 12));
        }
        match HWord::from_bytes(&chunk) {
            Ok(h) => {
                hws.push(h);
            },
            Err(_) => {
                proof {
                    assert(false);
                }
            },
        }
        proof {
            assert(12 * ((pos / 12) as int) == pos as int);
            assert((pos + 12) / 12 == pos / 12 + 1) by {
                vstd::arithmetic::div_mod::lemma_div_multiples_vanish_fancy(
                    (pos / 12 + 1) as int,
                    0,
                    12,
                );
                assert((pos + 12) as int == 12 * ((pos / 12 + 1) as int));
            }
        }
        pos += 12;
    }
    proof {
        assert(pos == n);
    }
    Ok(hws)
}

/// Complete frame with header and pixel data.
#[derive(Debug, Clone)]
pub struct Frame {
    pub frame_id: u32,
    pub header: FrameHeader,
    pub pixels: PixelData,
    pub frame_type: String,
}

impl Frame {
    /// The frame's pieces are well formed.
    pub open spec fn wf(self) -> bool {
        self.header.wf() && self.pixels.wf()
    }

    /// Create a new empty frame with the given ID.
    pub fn new(frame_id: u32) -> (r: Frame)
        ensures
            r.frame_id == frame_id,
            r.header.hwords@.len() == 0,
            r.header.registers@.len() == 0,
            r.pixels.hwords@.len() == 0,
            r.frame_type@ == "point_cloud"@,
            r.wf(),
    {
        Frame {
            frame_id,
            header: FrameHeader::new(),
            pixels: PixelData::new(),
            frame_type: String::from_str("point_cloud"),
        }
    }

    /// Create a frame from raw bytes: parse each 12-byte HWORD, classify
    /// headers and pixels by control code, and extract the header registers.
    /// Fails exactly when the length is not a multiple of 12.
    pub fn from_bytes(frame_id: u32, data: &[u8]) -> (r: Result<Frame, SharedError>)
        ensures
            data@.len() % 12 != 0 ==> (r matches Err(e) && (e matches
            SharedError::InvalidFileFormat(_))),
            data@.len() % 12 == 0 ==> (r matches Ok(f) && f.wf() && (exists|hws: Seq<HWord>|
                #[trigger] spec_frame_parsed(f, frame_id, data@, hws))),
    {
        let hws = match parse_hwords(data) {
            Ok(v) => v,
            Err(e) => {
                return Err(e);
            },
        };
        let mut frame = Frame::new(frame_id);
        let n = hws.len();
        let mut i: usize = 0;
        let mut in_header = false;
        while i < n
            invariant
                n == hws@.len(),
                i <= n,
                forall|j: int| 0 <= j < n ==> (#[trigger] hws@[j]).wf(),
                frame.wf(),
                frame.frame_id == frame_id,
                frame.frame_type@ == "point_cloud"@,
                frame.header.registers@.len() == 0,
                frame.header.hwords@ == spec_collect(hws@.subrange(0, i as int)).headers,
                frame.pixels.hwords@ == spec_collect(hws@.subrange(0, i as int)).pixels,
                in_header == spec_collect(hws@.subrange(0, i as int)).in_header,
            decreases n - i,
        {
            let h = hws[i];
            proof {
                let pre = hws@.subrange(0, i as int);
                let post = hws@.subrange(0, i + 1);
                assert(post.drop_last() =~= pre);
                assert(post.last() == hws@[i as int]);
            }
            match h.control_bits {
                ControlBits::FirstHeader => {
                    in_header = true;
                    let res = frame.header.add_hword(h);
                    proof {
                        assert(res is Ok);
                    }
                },
                ControlBits::SubsequentHeader => {
                    if in_header {
                        let res = frame.header.add_hword(h);
                        proof {
                            assert(res is Ok);
                        }
                    }
                },
                ControlBits::FirstPixel => {
                    in_header = false;
                    let res = frame.pixels.add_hword(h);
                    proof {
                        assert(res is Ok);
                    }
                },
                ControlBits::SubsequentPixel => {
                    if !in_header {
                        let res = frame.pixels.add_hword(h);
                        proof {
                            assert(res is Ok);
                        }
                    }
                },
                _ => {},
            }
            i += 1;
        }
        proof {
            assert(hws@.subrange(0, n as int) =~= hws@);
        }
        let res = frame.header.extract_registers();
        proof {
            assert(res is Ok);
            assert(spec_frame_parsed(frame, frame_id, data@, hws@));
        }
        Ok(frame)
    }

    /// Get the frame number.
    pub fn number(&self) -> (r: u32)
        ensures
            r == self.frame_id,
    {
        self.frame_id
    }

    /// Get the frame type.
    pub fn frame_type(&self) -> (r: &str)
        ensures
            r@ == self.frame_type@,
    {
        self.frame_type.as_str()
    }

    /// Get the number of pixel HWORDs in the frame.
    pub fn num_pixels(&self) -> (r: usize)
        ensures
            r == self.pixels.hwords@.len(),
    {
        self.pixels.len()
    }

    /// Extract coordinate data with optional decimation and field filtering.
    pub fn data(&self, decimation: Option<usize>, field_whitelist: Option<&[&str]>) -> (r:
        CoordinateData)
        requires
            self.pixels.wf(),
        ensures
            exists|wl: FieldWhitelist|
                {
                    &&& #[trigger] spec_whitelist_chosen(wl, field_whitelist)
                    &&& spec_points_decimated(
                        r.points@,
                        self.pixels.hwords@,
                        spec_decimation(decimation),
                        wl,
                    )
                },
    {
        let d: usize = match decimation {
            Some(v) => v,
            None => 1,
        };
        let whitelist = match field_whitelist {
            Some(fields) => FieldWhitelist::new(fields),
            None => FieldWhitelist::all(),
        };
        let r = self.pixels.extract_coordinates(&whitelist, d);
        proof {
            assert(spec_whitelist_chosen(whitelist, field_whitelist));
            assert(spec_decimation(decimation) == if d <= 1 { 1int } else { d as int });
        }
        r
    }
}

/// The relation between a decoded frame and the bytes it came from: `hws`
/// are the HWords denoted by the consecutive 12-byte chunks of `data`, and
/// the frame holds their classification into headers and pixels together
/// with the extracted registers.
pub open spec fn spec_frame_parsed(f: Frame, frame_id: u32, data: Seq<u8>, hws: Seq<HWord>) -> bool {
    &&& hws.len() == data.len() / 12
    &&& (forall|i: int| 0 <= i < hws.len() ==> spec_hword_matches(
        #[trigger] hws[i],
        data.subrange(12 * i, 12 * i + 12),
    ))
    &&& f.frame_id == frame_id
    &&& f.frame_type@ == "point_cloud"@
    &&& f.header.hwords@ == spec_collect(hws).headers
    &&& f.pixels.hwords@ == spec_collect(hws).pixels
    &&& f.header.registers@ == spec_registers_of_all(spec_collect(hws).headers)
}

/// The effective stride of an optional decimation argument: absent, zero and
/// one all mean "keep every pixel".
pub open spec fn spec_decimation(decimation: Option<usize>) -> int {
    match decimation {
        None => 1,
        Some(d) => if d <= 1 { 1int } else { d as int },
    }
}

/// `wl` includes exactly the fields named by the optional whitelist
/// argument; an absent argument includes every field.
pub open spec fn spec_whitelist_chosen(wl: FieldWhitelist, names: Option<&[&str]>) -> bool {
    match names {
        Some(ns) => forall|ft: FieldType| #[trigger] wl.spec_includes(ft) == exists|i: int|
            0 <= i < ns@.len() && spec_field_from_str(ns@[i]@) == Some(ft),
        None => forall|ft: FieldType| #[trigger] wl.spec_includes(ft),
    }
}

/// Law (frame file length): every blob the sync engine emits has a byte
/// length that is a positive multiple of 12 — exactly the condition under
/// which [`Frame::from_bytes`] decodes it without an `InvalidFileFormat`
/// error.
pub proof fn lemma_frame_file_length(m: crate::frame_sync::SyncModel, chunk: Seq<u8>)
    requires
        m.wf(),
        chunk.len() == 12,
    ensures
        crate::frame_sync::spec_step(m, chunk).1 matches Some(f) ==> f.len() % 12 == 0 && f.len()
            > 0,
{
    crate::frame_sync::lemma_step_wf(m, chunk);
}

/// True if `s` contains an ASCII digit.
pub open spec fn spec_has_digit(s: Seq<char>) -> bool {
    exists|i: int| 0 <= i < s.len() && is_ascii_digit(#[trigger] s[i])
}

/// `t` is the (unique) leftmost maximal digit run of `s`.
pub open spec fn spec_is_run_of(s: Seq<char>, t: Seq<char>) -> bool {
    exists|start: int| #[trigger] spec_digit_run(s, start, t)
}

/// The value of the leftmost maximal digit run of `s` (meaningful only when
/// `s` has a digit).
pub open spec fn spec_run_value(s: Seq<char>) -> int {
    spec_parse_dec(choose|t: Seq<char>| spec_is_run_of(s, t))
}

/// The frame identifier derived from a `.dsql` file name: the stem read as
/// eight hex digits, else as a decimal number, else the first decimal
/// substring, else a stable hash of the stem.
pub open spec fn spec_frame_number_from_name(name: Seq<char>) -> int {
    let st = spec_stem(name);
    if st.len() == 8 && all_hex(st) {
        spec_parse_hex(st)
    } else if st.len() > 0 && all_digits(st) && spec_parse_dec(st) <= u32::MAX {
        spec_parse_dec(st)
    } else if spec_has_digit(st) && spec_run_value(st) <= u32::MAX {
        spec_run_value(st)
    } else {
        spec_stem_hash(st)
    }
}

/// Derive a frame number from a `.dsql` file name (without its directory).
pub fn extract_frame_number_from_name(name: &str) -> (r: u32)
    ensures
        r as int == spec_frame_number_from_name(name@),
{
    let stem = file_stem(name);
    let stem_len = stem.unicode_len();
    if stem_len == 8 {
        match parse_hex_u32(stem) {
            Some(v) => {
                return v;
            },
            None => {
                proof {
                    assert(!all_hex(stem@)) by {
                        if all_hex(stem@) {
                            lemma_parse_hex_bound(stem@);
                        }
                    }
                }
            },
        }
    }
    match parse_dec_u32(stem) {
        Some(v) => {
            proof {
                assert(!(stem@.len() == 8 && all_hex(stem@)));
            }
            return v;
        },
        None => {},
    }
    let run = match find_digit_run(stem) {
        Some(run) => run,
        None => {
            proof {
                assert(!spec_has_digit(stem@));
                assert(!(stem@.len() > 0 && all_digits(stem@)) || spec_parse_dec(stem@)
                    > u32::MAX);
            }
            return stem_hash(stem);
        },
    };
    proof {
        let start = choose|start: int| spec_digit_run(stem@, start, run@);
        assert(is_ascii_digit(stem@[start]) && 0 <= start < stem@.len()) by {
            assert(run@[0] == stem@.subrange(start, start + run@.len())[0]);
        }
        assert(spec_has_digit(stem@));
        assert(spec_is_run_of(stem@, run@));
        let t0 = choose|t: Seq<char>| spec_is_run_of(stem@, t);
        assert(spec_is_run_of(stem@, t0));
        let s0 = choose|s0: int| spec_digit_run(stem@, s0, t0);
        lemma_digit_run_unique(stem@, s0, t0, start, run@);
        assert(spec_run_value(stem@) == spec_parse_dec(run@));
    }
    match parse_dec_u32(run.as_str()) {
        Some(v) => v,
        None => {
            proof {
                let start = choose|start: int| spec_digit_run(stem@, start, run@);
                assert(run@.len() > 0 && all_digits(run@));
                assert(spec_parse_dec(run@) > u32::MAX);
            }
            stem_hash(stem)
        },
    }
}

} // verus!
