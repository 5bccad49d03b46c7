//! Coordinate extraction from pixel HWORDs.
//!
//! Pixel payload layout (within the 92-bit payload):
//! bits 23:0 carry `X` (19-bit signed, 9.10 fixed point), bits 47:24 carry
//! `Y` (same format), bits 71:48 carry `Z` (22-bit signed, 12.10 fixed
//! point), bits 87:72 the intensity (masked to 12 bits), bit 90 the
//! over-range flag and bit 91 the gain flag.  Raw fixed-point values divide
//! by 1024 to give metres; that final conversion is left to the caller so
//! that everything here stays in exact integers.

use vstd::prelude::*;
use crate::hword::HWord;

verus! {

/// Represents the fields that can be extracted from frame data.
#[derive(Debug, Clone, Copy, PartialEq, Eq, Structural, Hash)]
pub enum FieldType {
    X,
    Y,
    Z,
    Intensity,
    Gain,
    OverRange,
}

/// The Unicode code of `c`, with ASCII upper-case letters mapped to their
/// lower-case counterparts.
pub open spec fn lower_code(c: char) -> int {
    if 65 <= c as int && c as int <= 90 {
        c as int + 32
    } else {
        c as int
    }
}

/// Case-insensitive equality of two character sequences (ASCII case folding).
pub open spec fn eq_ignore_case(s: Seq<char>, t: Seq<char>) -> bool {
    s.len() == t.len() && forall|i: int| 0 <= i < s.len() ==> lower_code(s[i]) == lower_code(t[i])
}

/// The field named by a string, if any (case-insensitive).
pub open spec fn spec_field_from_str(s: Seq<char>) -> Option<FieldType> {
    if eq_ignore_case(s, "x"@) {
        Some(FieldType::X)
    } else if eq_ignore_case(s, "y"@) {
        Some(FieldType::Y)
    } else if eq_ignore_case(s, "z"@) {
        Some(FieldType::Z)
    } else if eq_ignore_case(s, "intensity"@) {
        Some(FieldType::Intensity)
    } else if eq_ignore_case(s, "gain"@) {
        Some(FieldType::Gain)
    } else if eq_ignore_case(s, "over_range"@) || eq_ignore_case(s, "overrange"@) {
        Some(FieldType::OverRange)
    } else {
        None
    }
}

/// The Unicode code of `c` with ASCII upper-case letters folded to lower
/// case.
pub fn lower_char_code(c: char) -> (r: u32)
    ensures
        r as int == lower_code(c),
{
    let v = c as u32;
    if 65 <= v && v <= 90 {
        v + 32
    } else {
        v
    }
}

/// Compare two strings for equality up to ASCII case.
pub fn str_eq_ignore_case(a: &str, b: &str) -> (r: bool)
    ensures
        r == eq_ignore_case(a@, b@),
{
    let alen = a.unicode_len();
    let blen = b.unicode_len();
    if alen != blen {
        return false;
    }
    let mut i: usize = 0;
    while i < alen
        invariant
            alen == a@.len(),
            blen == b@.len(),
            alen == blen,
            i <= alen,
            forall|j: int| 0 <= j < i ==> lower_code(a@[j]) == lower_code(b@[j]),
        decreases alen - i,
    {
        let ca = a.get_char(i);
        let cb = b.get_char(i);
        if lower_char_code(ca) != lower_char_code(cb) {
            proof {
                assert(lower_code(a@[i as int]) != lower_code(b@[i as int]));
            }
            return false;
        }
        i += 1;
    }
    true
}

impl FieldType {
    /// Parse field type from string (case-insensitive).
    pub fn from_str(s: &str) -> (r: Option<FieldType>)
        ensures
            r == spec_field_from_str(s@),
    {
        if str_eq_ignore_case(s, "x") {
            Some(FieldType::X)
        } else if str_eq_ignore_case(s, "y") {
            Some(FieldType::Y)
        } else if str_eq_ignore_case(s, "z") {
            Some(FieldType::Z)
        } else if str_eq_ignore_case(s, "intensity") {
            Some(FieldType::Intensity)
        } else if str_eq_ignore_case(s, "gain") {
            Some(FieldType::Gain)
        } else if str_eq_ignore_case(s, "over_range") || str_eq_ignore_case(s, "overrange") {
            Some(FieldType::OverRange)
        } else {
            None
        }
    }

    /// The canonical (lower-case) name of this field.
    pub open spec fn spec_name(self) -> Seq<char> {
        match self {
            FieldType::X => "x"@,
            FieldType::Y => "y"@,
            FieldType::Z => "z"@,
            FieldType::Intensity => "intensity"@,
            FieldType::Gain => "gain"@,
            FieldType::OverRange => "over_range"@,
        }
    }

    /// Convert to string representation.
    pub fn as_str(&self) -> (r: &'static str)
        ensures
            r@ == self.spec_name(),
    {
        match self {
            FieldType::X => "x",
            FieldType::Y => "y",
            FieldType::Z => "z",
            FieldType::Intensity => "intensity",
            FieldType::Gain => "gain",
            FieldType::OverRange => "over_range",
        }
    }
}

/// Field whitelist for controlling which fields to extract.
#[derive(Debug, Clone, Copy)]
pub struct FieldWhitelist {
    x: bool,
    y: bool,
    z: bool,
    intensity: bool,
    gain: bool,
    over_range: bool,
}

impl FieldWhitelist {
    /// Whether a field is included in this whitelist.
    pub closed spec fn spec_includes(self, field: FieldType) -> bool {
        match field {
            FieldType::X => self.x,
            FieldType::Y => self.y,
            FieldType::Z => self.z,
            FieldType::Intensity => self.intensity,
            FieldType::Gain => self.gain,
            FieldType::OverRange => self.over_range,
        }
    }

    /// Create a new field whitelist from a list of field names; names that
    /// parse to no field are ignored.
    pub fn new(field_names: &[&str]) -> (r: FieldWhitelist)
        ensures
            forall|ft: FieldType| #[trigger] r.spec_includes(ft) == exists|i: int|
                0 <= i < field_names@.len() && spec_field_from_str(field_names@[i]@) == Some(ft),
    {
        let mut r = FieldWhitelist {
            x: false,
            y: false,
            z: false,
            intensity: false,
            gain: false,
            over_range: false,
        };
        let n = field_names.len();
        let mut k: usize = 0;
        while k < n
            invariant
                n == field_names@.len(),
                k <= n,
                forall|ft: FieldType| #[trigger] r.spec_includes(ft) == exists|i: int|
                    0 <= i < k && spec_field_from_str(field_names@[i]@) == Some(ft),
            decreases n - k,
        {
            let ghost old_r = r;
            match FieldType::from_str(field_names[k]) {
                Some(FieldType::X) => r.x = true,
                Some(FieldType::Y) => r.y = true,
                Some(FieldType::Z) => r.z = true,
                Some(FieldType::Intensity) => r.intensity = true,
                Some(FieldType::Gain) => r.gain = true,
                Some(FieldType::OverRange) => r.over_range = true,
                None => (),
            }
            proof {
                assert forall|ft: FieldType| #[trigger] r.spec_includes(ft) == exists|i: int|
                    0 <= i < k + 1 && spec_field_from_str(field_names@[i]@) == Some(ft) by {
                    if spec_field_from_str(field_names@[k as int]@) == Some(ft) {
                        assert(r.spec_includes(ft));
                    } else {
                        assert(r.spec_includes(ft) == old_r.spec_includes(ft));
                        if exists|i: int|
                            0 <= i < k + 1 && spec_field_from_str(field_names@[i]@) == Some(ft) {
                            let i = choose|i: int|
                                0 <= i < k + 1 && spec_field_from_str(field_names@[i]@) == Some(
                                    ft,
                                );
                            assert(i < k);
                        }
                    }
                }
            }
            k += 1;
        }
        r
    }

    /// Create a whitelist with all available fields.
    pub fn all() -> (r: FieldWhitelist)
        ensures
            forall|ft: FieldType| #[trigger] r.spec_includes(ft),
    {
        FieldWhitelist { x: true, y: true, z: true, intensity: true, gain: true, over_range: true }
    }

    /// Check if a field should be included.
    pub fn includes(&self, field: &FieldType) -> (r: bool)
        ensures
            r == self.spec_includes(*field),
    {
        match field {
            FieldType::X => self.x,
            FieldType::Y => self.y,
            FieldType::Z => self.z,
            FieldType::Intensity => self.intensity,
            FieldType::Gain => self.gain,
            FieldType::OverRange => self.over_range,
        }
    }

    /// The included fields in declaration order.
    pub closed spec fn spec_fields(self) -> Seq<FieldType> {
        (if self.x { seq![FieldType::X] } else { Seq::empty() })
        + (if self.y { seq![FieldType::Y] } else { Seq::empty() })
        + (if self.z { seq![FieldType::Z] } else { Seq::empty() })
        + (if self.intensity { seq![FieldType::Intensity] } else { Seq::empty() })
        + (if self.gain { seq![FieldType::Gain] } else { Seq::empty() })
        + (if self.over_range { seq![FieldType::OverRange] } else { Seq::empty() })
    }

    /// Get all included fields, in declaration order.
    pub fn fields(&self) -> (r: Vec<FieldType>)
        ensures
            r@ == self.spec_fields(),
    {
        let mut r: Vec<FieldType> = Vec::new();
        if self.x {
            r.push(FieldType::X);
        }
        if self.y {
            r.push(FieldType::Y);
        }
        if self.z {
            r.push(FieldType::Z);
        }
        if self.intensity {
            r.push(FieldType::Intensity);
        }
        if self.gain {
            r.push(FieldType::Gain);
        }
        if self.over_range {
            r.push(FieldType::OverRange);
        }
        proof {
            assert(r@ =~= self.spec_fields());
        }
        r
    }
}

impl Default for FieldWhitelist {
    /// The default whitelist includes every field.
    fn default() -> (r: Self)
        ensures
            forall|ft: FieldType| #[trigger] r.spec_includes(ft),
    {
        FieldWhitelist::all()
    }
}

/// Represents a single point's coordinate data.  The `x`, `y` and `z`
/// fields hold raw signed fixed-point values (9.10 for `x`/`y`, 12.10 for
/// `z`): divide by 1024 to obtain metres.
#[derive(Debug, Clone, Copy, PartialEq)]
pub struct CoordinatePoint {
    pub x: Option<i32>,
    pub y: Option<i32>,
    pub z: Option<i32>,
    pub intensity: Option<u16>,
    pub gain: Option<bool>,
    pub over_range: Option<bool>,
}

impl CoordinatePoint {
    /// The point with every field absent.
    pub open spec fn spec_empty() -> CoordinatePoint {
        CoordinatePoint { x: None, y: None, z: None, intensity: None, gain: None, over_range: None }
    }

    /// Create a new coordinate point with all fields set to None.
    pub fn new() -> (r: CoordinatePoint)
        ensures
            r == CoordinatePoint::spec_empty(),
    {
        CoordinatePoint { x: None, y: None, z: None, intensity: None, gain: None, over_range: None }
    }
}

impl Default for CoordinatePoint {
    /// The default point has every field absent.
    fn default() -> (r: Self)
        ensures
            r == CoordinatePoint::spec_empty(),
    {
        CoordinatePoint::new()
    }
}

/// Sign extension of a 19-bit two's-complement value.
pub open spec fn sign_extend19(v: int) -> int {
    if v >= 0x40000 {
        v - 0x80000
    } else {
        v
    }
}

/// Sign extension of a 22-bit two's-complement value.
pub open spec fn sign_extend22(v: int) -> int {
    if v >= 0x200000 {
        v - 0x400000
    } else {
        v
    }
}

/// The raw (sign-extended) X coordinate of a pixel payload: bits 18:0.
pub open spec fn spec_x(p: int) -> int {
    sign_extend19(p % 0x80000)
}

/// The raw (sign-extended) Y coordinate of a pixel payload: bits 42:24.
pub open spec fn spec_y(p: int) -> int {
    sign_extend19((p / 0x100_0000) % 0x80000)
}

/// The raw (sign-extended) Z coordinate of a pixel payload: bits 69:48.
pub open spec fn spec_z(p: int) -> int {
    sign_extend22((p / 0x1_0000_0000_0000) % 0x400000)
}

/// The intensity of a pixel payload: bits 83:72 (12 bits).
pub open spec fn spec_intensity(p: int) -> int {
    (p / 0x100_0000_0000_0000_0000) % 0x1000
}

/// The over-range flag of a pixel payload: bit 90.
pub open spec fn spec_over_range(p: int) -> bool {
    (p / 0x400_0000_0000_0000_0000_0000) % 2 == 1
}

/// The gain flag of a pixel payload: bit 91 (true = low gain).
pub open spec fn spec_gain(p: int) -> bool {
    (p / 0x800_0000_0000_0000_0000_0000) % 2 == 1
}

/// The point decoded from a pixel payload under a whitelist: exactly the
/// whitelisted fields are present.
pub open spec fn spec_extract_point(p: int, w: FieldWhitelist) -> CoordinatePoint {
    CoordinatePoint {
        x: if w.spec_includes(FieldType::X) { Some(spec_x(p) as i32) } else { None },
        y: if w.spec_includes(FieldType::Y) { Some(spec_y(p) as i32) } else { None },
        z: if w.spec_includes(FieldType::Z) { Some(spec_z(p) as i32) } else { None },
        intensity: if w.spec_includes(FieldType::Intensity) {
            Some(spec_intensity(p) as u16)
        } else {
            None
        },
        gain: if w.spec_includes(FieldType::Gain) { Some(spec_gain(p)) } else { None },
        over_range: if w.spec_includes(FieldType::OverRange) {
            Some(spec_over_range(p))
        } else {
            None
        },
    }
}

/// Extract coordinate data from a pixel HWORD; non-pixel HWORDs yield None.
pub fn extract_coordinates_from_hword(hword: &HWord, whitelist: &FieldWhitelist) -> (r: Option<
    CoordinatePoint,
>)
    requires
        hword.wf(),
    ensures
        !hword.control_bits.spec_is_pixel() ==> r is None,
        hword.control_bits.spec_is_pixel() ==> r == Some(
            spec_extract_point(hword.payload(), *whitelist),
        ),
{
    if !hword.control_bits.is_pixel() {
        return None;
    }
    let data = hword.data_as_u128();
    let mut point = CoordinatePoint::new();

    if whitelist.includes(&FieldType::X) {
        let x_raw = (data % 0x80000) as u32;
        let x_signed: i32 = if x_raw >= 0x40000 {
            x_raw as i32 - 0x80000
        } else {
            x_raw as i32
        };
        point.x = Some(x_signed);
    }
    if whitelist.includes(&FieldType::Y) {
        let y_raw = ((data / 0x100_0000) % 0x80000) as u32;
        let y_signed: i32 = if y_raw >= 0x40000 {
            y_raw as i32 - 0x80000
        } else {
            y_raw as i32
        };
        point.y = Some(y_signed);
    }
    if whitelist.includes(&FieldType::Z) {
        let z_raw = ((data / 0x1_0000_0000_0000) % 0x400000) as u32;
        let z_signed: i32 = if z_raw >= 0x200000 {
            z_raw as i32 - 0x400000
        } else {
            z_raw as i32
        };
        point.z = Some(z_signed);
    }
    if whitelist.includes(&FieldType::Intensity) {
        let intensity = ((data / 0x100_0000_0000_0000_0000) % 0x1000) as u16;
        point.intensity = Some(intensity);
    }
    if whitelist.includes(&FieldType::OverRange) {
        let over_range = (data / 0x400_0000_0000_0000_0000_0000) % 2 == 1;
        point.over_range = Some(over_range);
    }
    if whitelist.includes(&FieldType::Gain) {
        let gain = (data / 0x800_0000_0000_0000_0000_0000) % 2 == 1;
        point.gain = Some(gain);
    }
    Some(point)
}

/// Law: storing a raw coordinate in `[-2^18, 2^18)` as a 19-bit
/// two's-complement lane and decoding it gives back the original value.
pub proof fn lemma_sign_extension_19(x: int)
    requires
        -0x40000 <= x < 0x40000,
    ensures
        sign_extend19(x % 0x80000) == x,
{
    if x >= 0 {
        assert(x % 0x80000 == x);
    } else {
        assert(x % 0x80000 == x + 0x80000);
    }
}

/// Law: storing a raw coordinate in `[-2^21, 2^21)` as a 22-bit
/// two's-complement lane and decoding it gives back the original value.
pub proof fn lemma_sign_extension_22(z: int)
    requires
        -0x200000 <= z < 0x200000,
    ensures
        sign_extend22(z % 0x400000) == z,
{
    if z >= 0 {
        assert(z % 0x400000 == z);
    } else {
        assert(z % 0x400000 == z + 0x400000);
    }
}

/// Collection of coordinate data for multiple points.
#[derive(Debug, Clone)]
pub struct CoordinateData {
    pub points: Vec<CoordinatePoint>,
}

/// The number of elements kept when striding through `len` elements with
/// step `factor`: the ceiling of `len / factor`.
pub open spec fn decimated_len(len: int, factor: int) -> int {
    (len + factor - 1) / factor
}

impl CoordinateData {
    /// Create new empty coordinate data.
    pub fn new() -> (r: CoordinateData)
        ensures
            r.points@.len() == 0,
    {
        CoordinateData { points: Vec::new() }
    }

    /// Create coordinate data with a specific capacity.
    pub fn with_capacity(capacity: usize) -> (r: CoordinateData)
        ensures
            r.points@.len() == 0,
    {
        CoordinateData { points: Vec::with_capacity(capacity) }
    }

    /// Add a point to the coordinate data.
    pub fn add_point(&mut self, point: CoordinatePoint)
        ensures
            final(self).points@ == old(self).points@.push(point),
    {
        self.points.push(point);
    }

    /// Get the number of points.
    pub fn len(&self) -> (r: usize)
        ensures
            r == self.points@.len(),
    {
        self.points.len()
    }

    /// Check if the coordinate data is empty.
    pub fn is_empty(&self) -> (r: bool)
        ensures
            r == (self.points@.len() == 0),
    {
        self.points.is_empty()
    }

    /// Apply decimation: keep every `factor`-th point, starting at index 0.
    /// Factors of 0 or 1 keep every point.
    pub fn decimate(&mut self, factor: usize)
        ensures
            factor <= 1 ==> final(self).points@ == old(self).points@,
            factor > 1 ==> {
                &&& final(self).points@.len() == decimated_len(
                    old(self).points@.len() as int,
                    factor as int,
                )
                &&& forall|i: int| 0 <= i < final(self).points@.len()
                    ==> final(self).points@[i] == old(self).points@[i * (factor as int)]
            },
    {
        if factor <= 1 {
            return;
        }
        let len = self.points.len();
        let mut decimated_points: Vec<CoordinatePoint> = Vec::new();
        if len == 0 {
            proof {
                assert(decimated_len(0, factor as int) == 0) by {
                    lemma_div_small(factor as int - 1, factor as int);
                }
            }
            self.points = decimated_points;
            return;
        }
        let mut i: usize = 0;
        proof {
            vstd::arithmetic::mul::lemma_mul_basics(factor as int);
        }
        loop
            invariant_except_break
                factor > 1,
                len == self.points@.len(),
                0 < len,
                i < len,
                i as int == decimated_points@.len() * (factor as int),
                forall|j: int| 0 <= j < decimated_points@.len()
                    ==> decimated_points@[j] == self.points@[j * (factor as int)],
            ensures
                factor > 1,
                len == self.points@.len(),
                decimated_points@.len() >= 1,
                i as int == (decimated_points@.len() - 1) * (factor as int),
                i < len,
                len - i <= factor,
                forall|j: int| 0 <= j < decimated_points@.len()
                    ==> decimated_points@[j] == self.points@[j * (factor as int)],
            decreases len - i,
        {
            let ghost k_before = decimated_points@.len() as int;
            decimated_points.push(self.points[i]);
            if len - i <= factor {
                break;
            }
            proof {
                assert((k_before + 1) * (factor as int) == k_before * (factor as int) + (
                factor as int)) by (nonlinear_arith);
            }
            i += factor;
        }
        proof {
            let k = decimated_points@.len() as int;
            let f = factor as int;
            let l = len as int;
            assert(0 <= l + f - 1 - f * k && l + f - 1 - f * k < f) by (nonlinear_arith)
                requires
                    k >= 1,
                    f > 1,
                    i as int == (k - 1) * f,
                    (i as int) < l,
                    l - (i as int) <= f,
            ;
            vstd::arithmetic::div_mod::lemma_div_multiples_vanish_fancy(k, l + f - 1 - f * k, f);
            assert(f * k + (l + f - 1 - f * k) == l + f - 1);
            assert(decimated_len(l, f) == k);
        }
        self.points = decimated_points;
    }
}

impl Default for CoordinateData {
    /// The default coordinate data is empty.
    fn default() -> (r: Self)
        ensures
            r.points@.len() == 0,
    {
        CoordinateData::new()
    }
}

/// Division of a value smaller than the divisor yields zero.
proof fn lemma_div_small(x: int, d: int)
    requires
        0 <= x < d,
    ensures
        x / d == 0,
{
    vstd::arithmetic::div_mod::lemma_basic_div(x, d);
}

} // verus!
