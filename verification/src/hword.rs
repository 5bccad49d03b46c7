//! HWORD (96-bit word) parsing and manipulation.
//!
//! An HWORD is transmitted as 12 bytes, most-significant byte first.  Bits
//! 95:93 carry the control code, bit 92 the parity bit (odd parity over the
//! whole 96-bit word), and bits 91:0 the payload.

use vstd::prelude::*;
use vstd::arithmetic::power2::{pow2, lemma_pow2_adds, lemma2_to64};
use vstd::arithmetic::div_mod::{lemma_div_denominator, lemma_div_multiples_vanish_fancy};

verus! {

/// Control code values occupying the top three bits of an HWORD.
#[derive(Debug, Clone, Copy, PartialEq, Eq, Structural)]
pub enum ControlBits {
    Reserved0,
    Reserved1,
    FirstHeader,
    SubsequentHeader,
    FirstPixel,
    SubsequentPixel,
    Reserved6,
    Idle,
}

impl ControlBits {
    /// The 3-bit value of this control code on the wire.
    pub open spec fn spec_code(self) -> u8 {
        match self {
            ControlBits::Reserved0 => 0,
            ControlBits::Reserved1 => 1,
            ControlBits::FirstHeader => 2,
            ControlBits::SubsequentHeader => 3,
            ControlBits::FirstPixel => 4,
            ControlBits::SubsequentPixel => 5,
            ControlBits::Reserved6 => 6,
            ControlBits::Idle => 7,
        }
    }

    /// The control code denoted by a 3-bit value.
    pub open spec fn spec_from_code(v: u8) -> ControlBits {
        if v == 0 {
            ControlBits::Reserved0
        } else if v == 1 {
            ControlBits::Reserved1
        } else if v == 2 {
            ControlBits::FirstHeader
        } else if v == 3 {
            ControlBits::SubsequentHeader
        } else if v == 4 {
            ControlBits::FirstPixel
        } else if v == 5 {
            ControlBits::SubsequentPixel
        } else if v == 6 {
            ControlBits::Reserved6
        } else {
            ControlBits::Idle
        }
    }

    /// The 3-bit wire value of this control code.
    pub fn code(self) -> (r: u8)
        ensures
            r == self.spec_code(),
    {
        match self {
            ControlBits::Reserved0 => 0,
            ControlBits::Reserved1 => 1,
            ControlBits::FirstHeader => 2,
            ControlBits::SubsequentHeader => 3,
            ControlBits::FirstPixel => 4,
            ControlBits::SubsequentPixel => 5,
            ControlBits::Reserved6 => 6,
            ControlBits::Idle => 7,
        }
    }

    /// Parse control bits from a u8 value; values above 7 are rejected.
    pub fn from_u8(value: u8) -> (r: Option<ControlBits>)
        ensures
            value < 8 ==> r == Some(ControlBits::spec_from_code(value)),
            value >= 8 ==> r is None,
    {
        match value {
            0 => Some(ControlBits::Reserved0),
            1 => Some(ControlBits::Reserved1),
            2 => Some(ControlBits::FirstHeader),
            3 => Some(ControlBits::SubsequentHeader),
            4 => Some(ControlBits::FirstPixel),
            5 => Some(ControlBits::SubsequentPixel),
            6 => Some(ControlBits::Reserved6),
            7 => Some(ControlBits::Idle),
            _ => None,
        }
    }

    /// True for the two header control codes.
    pub open spec fn spec_is_header(self) -> bool {
        self == ControlBits::FirstHeader || self == ControlBits::SubsequentHeader
    }

    /// True for the two pixel control codes.
    pub open spec fn spec_is_pixel(self) -> bool {
        self == ControlBits::FirstPixel || self == ControlBits::SubsequentPixel
    }

    /// True for the control code that starts a frame.
    pub open spec fn spec_is_frame_start(self) -> bool {
        self == ControlBits::FirstHeader
    }

    /// True for the idle filler control code.
    pub open spec fn spec_is_idle(self) -> bool {
        self == ControlBits::Idle
    }

    /// Check if this is a header HWORD.
    pub fn is_header(self) -> (r: bool)
        ensures
            r == self.spec_is_header(),
    {
        matches!(self, ControlBits::FirstHeader | ControlBits::SubsequentHeader)
    }

    /// Check if this is a pixel HWORD.
    pub fn is_pixel(self) -> (r: bool)
        ensures
            r == self.spec_is_pixel(),
    {
        matches!(self, ControlBits::FirstPixel | ControlBits::SubsequentPixel)
    }

    /// Check if this is a frame start HWORD.
    pub fn is_frame_start(self) -> (r: bool)
        ensures
            r == self.spec_is_frame_start(),
    {
        matches!(self, ControlBits::FirstHeader)
    }

    /// Check if this is an idle HWORD.
    pub fn is_idle(self) -> (r: bool)
        ensures
            r == self.spec_is_idle(),
    {
        matches!(self, ControlBits::Idle)
    }
}

/// Errors that can occur during HWORD parsing.
#[derive(Debug, Clone, Copy, PartialEq, Eq)]
pub enum HWordError {
    /// HWORD input whose length is not 12 bytes; carries the offending length.
    InvalidLength(usize),
    /// A control code outside the 3-bit tag set; carries the offending value.
    InvalidControlBits(u8),
    /// Odd-parity check failed.
    ParityCheckFailed,
    /// A payload field violates its format.
    InvalidDataField,
}

/// A 96-bit HWORD (12 bytes).  The 92-bit payload is stored as 11 bytes in
/// little-endian lane order plus the top 4 bits in `remaining_bits`.
#[derive(Debug, Clone, Copy, PartialEq)]
pub struct HWord {
    pub control_bits: ControlBits,
    pub parity: bool,
    pub data: [u8; 11],
    pub remaining_bits: u8,
}

/// Number of ones in the binary representation of `n`.
pub open spec fn popcount(n: nat) -> nat
    decreases n,
{
    if n == 0 {
        0
    } else {
        (n % 2) + popcount(n / 2)
    }
}

impl HWord {
    /// A well-formed HWord keeps only the top 4 payload bits in
    /// `remaining_bits`.
    pub open spec fn wf(self) -> bool {
        self.remaining_bits < 16
    }

    /// The 92-bit payload as an unbounded integer: `data[i]` holds payload
    /// bits `8i+7 : 8i` and `remaining_bits` holds bits 91:88.
    pub open spec fn payload(self) -> int {
        self.data@[0] as int
        + self.data@[1] as int * 0x100
        + self.data@[2] as int * 0x1_0000
        + self.data@[3] as int * 0x100_0000
        + self.data@[4] as int * 0x1_0000_0000
        + self.data@[5] as int * 0x100_0000_0000
        + self.data@[6] as int * 0x1_0000_0000_0000
        + self.data@[7] as int * 0x100_0000_0000_0000
        + self.data@[8] as int * 0x1_0000_0000_0000_0000
        + self.data@[9] as int * 0x100_0000_0000_0000_0000
        + self.data@[10] as int * 0x1_0000_0000_0000_0000_0000
        + self.remaining_bits as int * 0x100_0000_0000_0000_0000_0000
    }

    /// The full 96-bit word: control code, parity bit, then payload.
    pub open spec fn word(self) -> int {
        self.control_bits.spec_code() as int * 0x2000_0000_0000_0000_0000_0000
        + (if self.parity { 0x1000_0000_0000_0000_0000_0000int } else { 0 })
        + self.payload()
    }

    /// Parse an HWORD from 12 bytes of raw data.  Every 3-bit control code
    /// denotes a member of the tag set, so parsing always succeeds.
    pub fn from_bytes(bytes: &[u8; 12]) -> (r: Result<HWord, HWordError>)
        ensures
            r matches Ok(h) && spec_hword_matches(h, bytes@),
    {
        let b0 = bytes[0];
        let raw_control_bits = b0 / 32;
        proof {
            assert(b0 / 32 < 8) by (bit_vector);
        }
        let control_bits = match ControlBits::from_u8(raw_control_bits) {
            Some(c) => c,
            None => {
                proof {
                    assert(false);
                }
                return Err(HWordError::InvalidControlBits(raw_control_bits));
            },
        };
        let parity = (b0 / 16) % 2 == 1;
        let remaining_bits = b0 % 16;
        let data = [
            bytes[11], bytes[10], bytes[9], bytes[8], bytes[7], bytes[6], bytes[5], bytes[4],
            bytes[3], bytes[2], bytes[1],
        ];
        let h = HWord { control_bits, parity, data, remaining_bits };
        proof {
            assert(h.data@ =~= bytes@.subrange(1, 12).reverse());
        }
        Ok(h)
    }

    /// Convert the HWORD back to its 12 wire bytes.
    pub fn to_bytes(&self) -> (r: [u8; 12])
        requires
            self.wf(),
        ensures
            r@ == spec_serialize(*self),
    {
        let code = self.control_bits.code();
        let b0: u8 = code * 32 + (if self.parity { 16 } else { 0 }) + self.remaining_bits;
        let r = [
            b0, self.data[10], self.data[9], self.data[8], self.data[7], self.data[6],
            self.data[5], self.data[4], self.data[3], self.data[2], self.data[1], self.data[0],
        ];
        proof {
            assert(r@ =~= spec_serialize(*self));
        }
        r
    }

    /// Get the 92-bit payload zero-extended to a u128.
    pub fn data_as_u128(&self) -> (r: u128)
        requires
            self.wf(),
        ensures
            r as int == self.payload(),
    {
        self.data[0] as u128
        + self.data[1] as u128 * 0x100
        + self.data[2] as u128 * 0x1_0000
        + self.data[3] as u128 * 0x100_0000
        + self.data[4] as u128 * 0x1_0000_0000
        + self.data[5] as u128 * 0x100_0000_0000
        + self.data[6] as u128 * 0x1_0000_0000_0000
        + self.data[7] as u128 * 0x100_0000_0000_0000
        + self.data[8] as u128 * 0x1_0000_0000_0000_0000
        + self.data[9] as u128 * 0x100_0000_0000_0000_0000
        + self.data[10] as u128 * 0x1_0000_0000_0000_0000_0000
        + self.remaining_bits as u128 * 0x100_0000_0000_0000_0000_0000
    }

    /// Verify the odd parity of this HWORD: true iff the 96-bit word has an
    /// odd number of one bits.
    pub fn verify_parity(&self) -> (r: bool)
        requires
            self.wf(),
        ensures
            r == (popcount(self.word() as nat) % 2 == 1),
    {
        let payload = self.data_as_u128();
        let word: u128 = self.control_bits.code() as u128 * 0x2000_0000_0000_0000_0000_0000
            + (if self.parity { 0x1000_0000_0000_0000_0000_0000u128 } else { 0 })
            + payload;
        let ones = popcount_u128(word);
        ones % 2 == 1
    }

    /// Build an HWord with the given control code and payload, choosing the
    /// parity bit so that the full 96-bit word has odd parity.
    pub fn with_parity(control_bits: ControlBits, payload: u128) -> (h: HWord)
        requires
            payload < 0x1000_0000_0000_0000_0000_0000,
        ensures
            h.wf(),
            h.control_bits == control_bits,
            h.payload() == payload as int,
            popcount(h.word() as nat) % 2 == 1,
    {
        let base: u128 = control_bits.code() as u128 * 0x2000_0000_0000_0000_0000_0000 + payload;
        let ones = popcount_u128(base);
        let parity = ones % 2 == 0;
        let h = HWord::from_payload(control_bits, parity, payload);
        proof {
            let c = control_bits.spec_code() as int;
            assert((base as int / 0x1000_0000_0000_0000_0000_0000) % 2 == 0) by {
                lemma_div_multiples_vanish_fancy(
                    2 * c,
                    payload as int,
                    0x1000_0000_0000_0000_0000_0000,
                );
                assert(base as int == 0x1000_0000_0000_0000_0000_0000 * (2 * c) + payload as int);
            }
            if parity {
                assert(pow2(92) == 0x1000_0000_0000_0000_0000_0000) by {
                    lemma_pow2_adds(64, 28);
                    lemma2_to64();
                }
                lemma_popcount_set_bit(base as nat, 92);
                assert(h.word() == base as int + 0x1000_0000_0000_0000_0000_0000);
            } else {
                assert(h.word() == base as int);
            }
        }
        h
    }

    /// Assemble an HWord from a control code, parity flag and 92-bit payload.
    pub fn from_payload(control_bits: ControlBits, parity: bool, payload: u128) -> (h: HWord)
        requires
            payload < 0x1000_0000_0000_0000_0000_0000,
        ensures
            h.wf(),
            h.control_bits == control_bits,
            h.parity == parity,
            h.payload() == payload as int,
    {
        let data = [
            (payload % 0x100) as u8,
            ((payload / 0x100) % 0x100) as u8,
            ((payload / 0x1_0000) % 0x100) as u8,
            ((payload / 0x100_0000) % 0x100) as u8,
            ((payload / 0x1_0000_0000) % 0x100) as u8,
            ((payload / 0x100_0000_0000) % 0x100) as u8,
            ((payload / 0x1_0000_0000_0000) % 0x100) as u8,
            ((payload / 0x100_0000_0000_0000) % 0x100) as u8,
            ((payload / 0x1_0000_0000_0000_0000) % 0x100) as u8,
            ((payload / 0x100_0000_0000_0000_0000) % 0x100) as u8,
            ((payload / 0x1_0000_0000_0000_0000_0000) % 0x100) as u8,
        ];
        let remaining_bits = (payload / 0x100_0000_0000_0000_0000_0000) as u8;
        let h = HWord { control_bits, parity, data, remaining_bits };
        proof {
            let p = payload as int;
            assert(p % 0x100 + ((p / 0x100) % 0x100) * 0x100 + ((p / 0x1_0000) % 0x100) * 0x1_0000
                + ((p / 0x100_0000) % 0x100) * 0x100_0000
                + ((p / 0x1_0000_0000) % 0x100) * 0x1_0000_0000
                + ((p / 0x100_0000_0000) % 0x100) * 0x100_0000_0000
                + ((p / 0x1_0000_0000_0000) % 0x100) * 0x1_0000_0000_0000
                + ((p / 0x100_0000_0000_0000) % 0x100) * 0x100_0000_0000_0000
                + ((p / 0x1_0000_0000_0000_0000) % 0x100) * 0x1_0000_0000_0000_0000
                + ((p / 0x100_0000_0000_0000_0000) % 0x100) * 0x100_0000_0000_0000_0000
                + ((p / 0x1_0000_0000_0000_0000_0000) % 0x100) * 0x1_0000_0000_0000_0000_0000
                + (p / 0x100_0000_0000_0000_0000_0000) * 0x100_0000_0000_0000_0000_0000 == p)
                by {
                lemma_byte_decomposition(p);
            }
        }
        h
    }
}

/// The HWord denoted by a 12-byte chunk: byte 0 splits into control code,
/// parity bit and the top payload bits; the other bytes are the payload
/// lanes, most significant first.  This pins every field of `h`, so it
/// characterizes [`HWord::from_bytes`] exactly.
pub open spec fn spec_hword_matches(h: HWord, chunk: Seq<u8>) -> bool {
    &&& h.wf()
    &&& h.control_bits == ControlBits::spec_from_code((chunk[0] / 32) as u8)
    &&& h.parity == (chunk[0] / 16 % 2 == 1)
    &&& h.remaining_bits == chunk[0] % 16
    &&& h.data@ == chunk.subrange(1, 12).reverse()
}

/// Serialization of a well-formed HWord to its 12 wire bytes: byte 0 packs
/// control code, parity and the top payload bits; the remaining bytes are the
/// payload lanes most-significant first.
pub open spec fn spec_serialize(h: HWord) -> Seq<u8> {
    seq![
        (h.control_bits.spec_code() * 32 + (if h.parity { 16int } else { 0 })
            + h.remaining_bits) as u8,
    ] + h.data@.reverse()
}

/// Law: parsing any 12-byte sequence and serializing the result reproduces
/// the input bytes exactly.  The hypothesis on `h` is precisely what
/// [`HWord::from_bytes`] ensures of its result on input `b`.
pub proof fn lemma_codec_round_trip(b: Seq<u8>, h: HWord)
    requires
        b.len() == 12,
        spec_hword_matches(h, b),
    ensures
        spec_serialize(h) == b,
{
    let b0 = b[0];
    assert(ControlBits::spec_from_code((b0 / 32) as u8).spec_code() == b0 / 32);
    assert(b0 / 32 * 32 + ((b0 / 16) % 2) * 16 + b0 % 16 == b0) by (bit_vector);
    if h.parity {
        assert((if h.parity { 16int } else { 0 }) == ((b0 / 16) % 2) * 16);
    } else {
        assert((b0 / 16) % 2 == 0);
    }
    assert(h.data@.reverse() =~= b.subrange(1, 12));
    assert(spec_serialize(h) =~= b);
}

/// Law: serializing a well-formed HWord yields bytes that parse back to the
/// same HWord.  Together with [`lemma_codec_round_trip`] this makes the
/// codec a bijection between well-formed HWords and 12-byte chunks.
pub proof fn lemma_serialize_parses(h: HWord)
    requires
        h.wf(),
    ensures
        spec_hword_matches(h, spec_serialize(h)),
{
    let b = spec_serialize(h);
    let cc: u8 = h.control_bits.spec_code();
    let pp: u8 = if h.parity {
        1
    } else {
        0
    };
    let rr: u8 = h.remaining_bits;
    assert(cc < 8);
    assert(b[0] == (cc * 32 + pp * 16 + rr) as u8);
    let b0: u8 = (cc * 32 + pp * 16 + rr) as u8;
    assert(b0 / 32 == cc && (b0 / 16) % 2 == pp && b0 % 16 == rr) by (bit_vector)
        requires
            cc < 8,
            pp < 2,
            rr < 16,
            b0 == (cc * 32 + pp * 16 + rr) as u8,
    ;
    assert(ControlBits::spec_from_code(cc) == h.control_bits);
    assert(b.subrange(1, 12) =~= h.data@.reverse());
    assert(h.data@ =~= b.subrange(1, 12).reverse());
}

/// Number of one bits in a u128, computed bit by bit.
pub fn popcount_u128(n: u128) -> (r: u64)
    ensures
        r == popcount(n as nat),
{
    let mut rest = n;
    let mut count: u64 = 0;
    proof {
        assert(pow2(128) == 0x1_0000_0000_0000_0000_0000_0000_0000_0000) by {
            lemma_pow2_adds(64, 64);
            lemma2_to64();
        }
        lemma_popcount_bound(n as nat, 128);
    }
    while rest > 0
        invariant
            count + popcount(rest as nat) == popcount(n as nat),
            popcount(n as nat) <= 128,
        decreases rest,
    {
        proof {
            assert(rest as nat % 2 == (rest % 2) as nat);
            assert(rest as nat / 2 == (rest / 2) as nat);
        }
        count = count + (rest % 2) as u64;
        rest = rest / 2;
    }
    count
}

/// A number below `2^k` has at most `k` one bits.
proof fn lemma_popcount_bound(n: nat, k: nat)
    requires
        n < pow2(k),
    ensures
        popcount(n) <= k,
    decreases k,
{
    vstd::arithmetic::power2::lemma_pow2_pos(k);
    if k == 0 {
        assert(pow2(0) == 1) by {
            lemma2_to64();
        }
    } else {
        let k1 = (k - 1) as nat;
        assert(pow2(k) == 2 * pow2(k1)) by {
            lemma_pow2_adds(1, k1);
            lemma2_to64();
        }
        assert(n / 2 < pow2(k1));
        lemma_popcount_bound(n / 2, k1);
    }
}

/// Setting a zero bit of `w` increases its popcount by exactly one.
proof fn lemma_popcount_set_bit(w: nat, k: nat)
    requires
        (w / pow2(k)) % 2 == 0,
    ensures
        popcount(w + pow2(k)) == popcount(w) + 1,
    decreases k,
{
    vstd::arithmetic::power2::lemma_pow2_pos(k);
    if k == 0 {
        assert(pow2(0) == 1) by {
            lemma2_to64();
        }
        assert(w as int / 1 == w as int) by {
            vstd::arithmetic::div_mod::lemma_div_basics(w as int);
        }
        assert(w % 2 == 0);
        assert((w + 1) % 2 == 1);
        assert((w + 1) / 2 == w / 2);
        assert(popcount(w + 1) == 1 + popcount(w / 2));
        assert(popcount(w) == popcount(w / 2));
    } else {
        let k1 = (k - 1) as nat;
        assert(pow2(k) == 2 * pow2(k1)) by {
            lemma_pow2_adds(1, k1);
            lemma2_to64();
        }
        vstd::arithmetic::power2::lemma_pow2_pos(k1);
        let m = pow2(k1) as int;
        assert((w + pow2(k)) % 2 == w % 2 && (w + pow2(k)) / 2 == w / 2 + pow2(k1)) by {
            lemma_div_multiples_vanish_fancy(m + (w as int / 2), (w as int % 2), 2);
            assert(w as int + 2 * m == 2 * (m + w as int / 2) + w as int % 2);
        }
        assert(w as nat / 2 / pow2(k1) % 2 == 0) by {
            lemma_div_denominator(w as int, 2, m);
        }
        lemma_popcount_set_bit(w / 2, k1);
        assert(popcount(w + pow2(k)) == (w % 2) + popcount(w / 2 + pow2(k1)));
        assert(popcount(w) == (w % 2) + popcount(w / 2));
    }
}

/// Base-256 digit decomposition: the payload lanes reassemble to the payload.
proof fn lemma_byte_decomposition(p: int)
    requires
        0 <= p < 0x1000_0000_0000_0000_0000_0000,
    ensures
        p % 0x100 + ((p / 0x100) % 0x100) * 0x100 + ((p / 0x1_0000) % 0x100) * 0x1_0000
            + ((p / 0x100_0000) % 0x100) * 0x100_0000
            + ((p / 0x1_0000_0000) % 0x100) * 0x1_0000_0000
            + ((p / 0x100_0000_0000) % 0x100) * 0x100_0000_0000
            + ((p / 0x1_0000_0000_0000) % 0x100) * 0x1_0000_0000_0000
            + ((p / 0x100_0000_0000_0000) % 0x100) * 0x100_0000_0000_0000
            + ((p / 0x1_0000_0000_0000_0000) % 0x100) * 0x1_0000_0000_0000_0000
            + ((p / 0x100_0000_0000_0000_0000) % 0x100) * 0x100_0000_0000_0000_0000
            + ((p / 0x1_0000_0000_0000_0000_0000) % 0x100) * 0x1_0000_0000_0000_0000_0000
            + (p / 0x100_0000_0000_0000_0000_0000) * 0x100_0000_0000_0000_0000_0000 == p,
{
    let q = p as u128;
    assert(q % 0x100 + ((q / 0x100) % 0x100) * 0x100 + ((q / 0x1_0000) % 0x100) * 0x1_0000
        + ((q / 0x100_0000) % 0x100) * 0x100_0000
        + ((q / 0x1_0000_0000) % 0x100) * 0x1_0000_0000
        + ((q / 0x100_0000_0000) % 0x100) * 0x100_0000_0000
        + ((q / 0x1_0000_0000_0000) % 0x100) * 0x1_0000_0000_0000
        + ((q / 0x100_0000_0000_0000) % 0x100) * 0x100_0000_0000_0000
        + ((q / 0x1_0000_0000_0000_0000) % 0x100) * 0x1_0000_0000_0000_0000
        + ((q / 0x100_0000_0000_0000_0000) % 0x100) * 0x100_0000_0000_0000_0000
        + ((q / 0x1_0000_0000_0000_0000_0000) % 0x100) * 0x1_0000_0000_0000_0000_0000
        + (q / 0x100_0000_0000_0000_0000_0000) * 0x100_0000_0000_0000_0000_0000 == q)
        by (bit_vector);
}

} // verus!
