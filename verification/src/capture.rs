//! Pure logic of the capture pipeline: the assembler that drains packet
//! bytes through the sync engine, the bounded-queue admission policy of the
//! receiver, frame-file naming and resume numbering, the length-prefixed
//! stream record, and the synthetic frame builder.
//!
//! The sockets, threads and file writes around these live outside the
//! library; they hand packets, directory listings and clock readings in as
//! plain values.

use vstd::prelude::*;
use vstd::string::*;
use crate::digits::{
    all_hex, spec_parse_hex, parse_hex_u32, string_push, lemma_parse_hex_bound,
};
use crate::frame_sync::{
    FrameSyncEngine, SyncModel, spec_run_stream, spec_step, lemma_run_snoc, spec_chunk_control,
    spec_chunk_payload, spec_chunk_word,
};
use crate::hword::{HWord, ControlBits, popcount, lemma_serialize_parses};

verus! {

/// The character for a single hexadecimal digit, upper case.
pub open spec fn spec_hex_char(d: int) -> char {
    if d == 0 {
        '0'
    } else if d == 1 {
        '1'
    } else if d == 2 {
        '2'
    } else if d == 3 {
        '3'
    } else if d == 4 {
        '4'
    } else if d == 5 {
        '5'
    } else if d == 6 {
        '6'
    } else if d == 7 {
        '7'
    } else if d == 8 {
        '8'
    } else if d == 9 {
        '9'
    } else if d == 10 {
        'A'
    } else if d == 11 {
        'B'
    } else if d == 12 {
        'C'
    } else if d == 13 {
        'D'
    } else if d == 14 {
        'E'
    } else {
        'F'
    }
}

/// The character for a single hexadecimal digit, upper case.
pub fn hex_char(d: u8) -> (r: char)
    requires
        d < 16,
    ensures
        r == spec_hex_char(d as int),
{
    match d {
        0 => '0',
        1 => '1',
        2 => '2',
        3 => '3',
        4 => '4',
        5 => '5',
        6 => '6',
        7 => '7',
        8 => '8',
        9 => '9',
        10 => 'A',
        11 => 'B',
        12 => 'C',
        13 => 'D',
        14 => 'E',
        _ => 'F',
    }
}

/// A 32-bit value as eight upper-case hexadecimal digits, zero padded.
pub open spec fn spec_hex8(n: int) -> Seq<char> {
    seq![
        spec_hex_char((n / 0x1000_0000) % 16),
        spec_hex_char((n / 0x100_0000) % 16),
        spec_hex_char((n / 0x10_0000) % 16),
        spec_hex_char((n / 0x1_0000) % 16),
        spec_hex_char((n / 0x1000) % 16),
        spec_hex_char((n / 0x100) % 16),
        spec_hex_char((n / 0x10) % 16),
        spec_hex_char(n % 16),
    ]
}

/// The `.dsql` file name of a complete frame: eight hex digits and the
/// extension.
pub open spec fn spec_frame_file_name(n: int) -> Seq<char> {
    spec_hex8(n) + ".dsql"@
}

/// The `.dsql` file name of an incomplete frame left at shutdown.
pub open spec fn spec_incomplete_frame_file_name(n: int) -> Seq<char> {
    spec_hex8(n) + "_incomplete.dsql"@
}

/// Append the eight zero-padded hex digits of `n` to a string.
fn push_hex8(s: &mut String, n: u32)
    ensures
        final(s)@ == old(s)@ + spec_hex8(n as int),
{
    string_push(s, hex_char(((n / 0x1000_0000) % 16) as u8));
    string_push(s, hex_char(((n / 0x100_0000) % 16) as u8));
    string_push(s, hex_char(((n / 0x10_0000) % 16) as u8));
    string_push(s, hex_char(((n / 0x1_0000) % 16) as u8));
    string_push(s, hex_char(((n / 0x1000) % 16) as u8));
    string_push(s, hex_char(((n / 0x100) % 16) as u8));
    string_push(s, hex_char(((n / 0x10) % 16) as u8));
    string_push(s, hex_char((n % 16) as u8));
    proof {
        assert(s@ =~= old(s)@ + spec_hex8(n as int));
    }
}

/// The file name of a complete frame: zero-padded upper-case hex counter
/// plus the `.dsql` extension.
pub fn frame_file_name(frame_counter: u32) -> (r: String)
    ensures
        r@ == spec_frame_file_name(frame_counter as int),
{
    let mut s = String::new();
    push_hex8(&mut s, frame_counter);
    s.append(".dsql");
    proof {
        assert(s@ =~= spec_frame_file_name(frame_counter as int));
    }
    s
}

/// The file name used for bytes still inside the sync engine at shutdown.
pub fn incomplete_frame_file_name(frame_counter: u32) -> (r: String)
    ensures
        r@ == spec_incomplete_frame_file_name(frame_counter as int),
{
    let mut s = String::new();
    push_hex8(&mut s, frame_counter);
    s.append("_incomplete.dsql");
    proof {
        assert(s@ =~= spec_incomplete_frame_file_name(frame_counter as int));
    }
    s
}

/// True for names of complete frame files: at least eight characters, the
/// first eight hexadecimal, ending in `.dsql`.
pub open spec fn spec_is_frame_file(s: Seq<char>) -> bool {
    &&& s.len() >= 8
    &&& spec_ends_with_dsql(s)
    &&& all_hex(s.subrange(0, 8))
}

/// True if `s` ends with the five characters `.dsql`.
pub open spec fn spec_ends_with_dsql(s: Seq<char>) -> bool {
    &&& s.len() >= 5
    &&& s[s.len() - 5] == '.'
    &&& s[s.len() - 4] == 'd'
    &&& s[s.len() - 3] == 's'
    &&& s[s.len() - 2] == 'q'
    &&& s[s.len() - 1] == 'l'
}

/// One more than the largest frame counter among the given frame file
/// names, or 0 when none matches.
pub open spec fn spec_next_frame_number(names: Seq<Seq<char>>) -> int
    decreases names.len(),
{
    if names.len() == 0 {
        0
    } else {
        let rest = spec_next_frame_number(names.drop_last());
        let s = names.last();
        if spec_is_frame_file(s) && spec_parse_hex(s.subrange(0, 8)) + 1 > rest {
            spec_parse_hex(s.subrange(0, 8)) + 1
        } else {
            rest
        }
    }
}

/// Whether a file name is a complete frame file (`XXXXXXXX.dsql`).
pub fn is_frame_file_name(name: &str) -> (r: Option<u32>)
    ensures
        spec_is_frame_file(name@) ==> r == Some(spec_parse_hex(name@.subrange(0, 8)) as u32),
        !spec_is_frame_file(name@) ==> r is None,
{
    let n = name.unicode_len();
    if n < 8 {
        return None;
    }
    if !(name.get_char(n - 5) == '.' && name.get_char(n - 4) == 'd' && name.get_char(n - 3) == 's'
        && name.get_char(n - 2) == 'q' && name.get_char(n - 1) == 'l') {
        return None;
    }
    let prefix = name.substring_char(0, 8);
    match parse_hex_u32(prefix) {
        Some(v) => Some(v),
        None => {
            proof {
                assert(!all_hex(name@.subrange(0, 8))) by {
                    if all_hex(name@.subrange(0, 8)) {
                        lemma_parse_hex_bound(name@.subrange(0, 8));
                    }
                }
            }
            None
        },
    }
}

/// Find the next available frame number from a directory's file names:
/// resume after the highest existing `XXXXXXXX.dsql`, saturating at the
/// largest 32-bit counter.
pub fn next_frame_number(names: &Vec<String>) -> (r: u32)
    ensures
        r as int == if spec_next_frame_number(names@.map_values(|s: String| s@)) < u32::MAX as int {
            spec_next_frame_number(names@.map_values(|s: String| s@))
        } else {
            u32::MAX as int
        },
{
    let ghost views = names@.map_values(|s: String| s@);
    let n = names.len();
    let mut max_frame: u32 = 0;
    let mut i: usize = 0;
    while i < n
        invariant
            n == names@.len(),
            views == names@.map_values(|s: String| s@),
            i <= n,
            max_frame as int == if spec_next_frame_number(views.subrange(0, i as int))
                < u32::MAX as int {
                spec_next_frame_number(views.subrange(0, i as int))
            } else {
                u32::MAX as int
            },
        decreases n - i,
    {
        proof {
            assert(views.subrange(0, i + 1).drop_last() =~= views.subrange(0, i as int));
            assert(views.subrange(0, i + 1).last() == names@[i as int]@);
            if spec_is_frame_file(names@[i as int]@) {
                lemma_parse_hex_bound(names@[i as int]@.subrange(0, 8));
            }
        }
        match is_frame_file_name(names[i].as_str()) {
            Some(frame_num) => {
                if frame_num >= max_frame {
                    max_frame = if frame_num < u32::MAX {
                        frame_num + 1
                    } else {
                        u32::MAX
                    };
                }
            },
            None => (),
        }
        i += 1;
    }
    proof {
        assert(views.subrange(0, n as int) =~= views);
    }
    max_frame
}

/// Every hex digit character denotes its digit.
proof fn lemma_hex_char_val()
    ensures
        forall|d: int| 0 <= d < 16 ==> crate::digits::hex_val(#[trigger] spec_hex_char(d)) == d,
        forall|d: int| 0 <= d < 16 ==> crate::digits::is_hex_digit(#[trigger] spec_hex_char(d)),
{
}

/// The eight-hex-digit form of a 32-bit value parses back to the value.
pub proof fn lemma_hex8_value(v: int)
    requires
        0 <= v < 0x1_0000_0000,
    ensures
        spec_parse_hex(spec_hex8(v)) == v,
{
    lemma_hex_char_val();
    let s = spec_hex8(v);
    let s6 = seq![
        spec_hex_char((v / 0x1000_0000) % 16),
        spec_hex_char((v / 0x100_0000) % 16),
        spec_hex_char((v / 0x10_0000) % 16),
        spec_hex_char((v / 0x1_0000) % 16),
        spec_hex_char((v / 0x1000) % 16),
        spec_hex_char((v / 0x100) % 16),
        spec_hex_char((v / 0x10) % 16),
    ];
    let s5 = s6.drop_last();
    let s4 = s5.drop_last();
    let s3 = s4.drop_last();
    let s2 = s3.drop_last();
    let s1 = s2.drop_last();
    let s0 = s1.drop_last();
    assert(s.drop_last() =~= s6);
    assert(s0.drop_last() =~= Seq::<char>::empty());
    let vv = v as u32;
    let d0: u32 = vv / 0x1000_0000 % 16;
    let d1: u32 = vv / 0x100_0000 % 16;
    let d2: u32 = vv / 0x10_0000 % 16;
    let d3: u32 = vv / 0x1_0000 % 16;
    let d4: u32 = vv / 0x1000 % 16;
    let d5: u32 = vv / 0x100 % 16;
    let d6: u32 = vv / 0x10 % 16;
    let d7: u32 = vv % 16;
    assert(d0 * 0x1000_0000 + d1 * 0x100_0000 + d2 * 0x10_0000 + d3 * 0x1_0000 + d4 * 0x1000 + d5
        * 0x100 + d6 * 0x10 + d7 == vv) by (bit_vector)
        requires
            d0 == vv / 0x1000_0000 % 16,
            d1 == vv / 0x100_0000 % 16,
            d2 == vv / 0x10_0000 % 16,
            d3 == vv / 0x1_0000 % 16,
            d4 == vv / 0x1000 % 16,
            d5 == vv / 0x100 % 16,
            d6 == vv / 0x10 % 16,
            d7 == vv % 16,
    ;
    assert(spec_parse_hex(Seq::<char>::empty()) == 0);
    assert(s0.len() == 1);
    assert(s0.last() == spec_hex_char((v / 0x1000_0000) % 16));
    assert(s1.last() == spec_hex_char((v / 0x100_0000) % 16));
    assert(s2.last() == spec_hex_char((v / 0x10_0000) % 16));
    assert(s3.last() == spec_hex_char((v / 0x1_0000) % 16));
    assert(s4.last() == spec_hex_char((v / 0x1000) % 16));
    assert(s5.last() == spec_hex_char((v / 0x100) % 16));
    assert(spec_parse_hex(s0) == d0);
    assert(spec_parse_hex(s1) == spec_parse_hex(s0) * 16 + d1);
    assert(spec_parse_hex(s2) == spec_parse_hex(s1) * 16 + d2);
    assert(spec_parse_hex(s3) == spec_parse_hex(s2) * 16 + d3);
    assert(spec_parse_hex(s4) == spec_parse_hex(s3) * 16 + d4);
    assert(spec_parse_hex(s5) == spec_parse_hex(s4) * 16 + d5);
    assert(spec_parse_hex(s6) == spec_parse_hex(s5) * 16 + d6);
    assert(spec_parse_hex(s) == spec_parse_hex(s6) * 16 + d7);
}

/// A generated frame file name is recognized and parses back to its
/// counter.
pub proof fn lemma_frame_file_name_parses(v: int)
    requires
        0 <= v < 0x1_0000_0000,
    ensures
        spec_is_frame_file(spec_frame_file_name(v)),
        spec_parse_hex(spec_frame_file_name(v).subrange(0, 8)) == v,
{
    reveal_strlit(".dsql");
    lemma_hex_char_val();
    let s = spec_frame_file_name(v);
    assert(s.len() == 13);
    assert(s.subrange(0, 8) =~= spec_hex8(v));
    assert(all_hex(spec_hex8(v))) by {
        assert(forall|k: int| 0 <= k < 8 ==> crate::digits::is_hex_digit(
            #[trigger] spec_hex8(v)[k],
        ));
    }
    assert(s[8] == '.' && s[9] == 'd' && s[10] == 's' && s[11] == 'q' && s[12] == 'l');
    lemma_hex8_value(v);
}

/// Law (resume numbering): for a session directory holding exactly the
/// frame files numbered `0` to `n - 1`, the next session resumes at `n`.
pub proof fn lemma_resume_numbering(n: int)
    requires
        0 <= n <= 0x1_0000_0000,
    ensures
        spec_next_frame_number(Seq::new(n as nat, |i: int| spec_frame_file_name(i))) == n,
    decreases n,
{
    if n > 0 {
        let names = Seq::new(n as nat, |i: int| spec_frame_file_name(i));
        assert(names.drop_last() =~= Seq::new((n - 1) as nat, |i: int| spec_frame_file_name(i)));
        lemma_resume_numbering(n - 1);
        assert(names.last() == spec_frame_file_name(n - 1));
        lemma_frame_file_name_parses(n - 1);
    }
}

/// The capture session directory name `YYYYMMDD_HHMMSS` for a local civil
/// time.
pub open spec fn spec_session_dir_name(
    year: int,
    month: int,
    day: int,
    hour: int,
    minute: int,
    second: int,
) -> Seq<char> {
    seq![
        spec_hex_char((year / 1000) % 10),
        spec_hex_char((year / 100) % 10),
        spec_hex_char((year / 10) % 10),
        spec_hex_char(year % 10),
        spec_hex_char((month / 10) % 10),
        spec_hex_char(month % 10),
        spec_hex_char((day / 10) % 10),
        spec_hex_char(day % 10),
        '_',
        spec_hex_char((hour / 10) % 10),
        spec_hex_char(hour % 10),
        spec_hex_char((minute / 10) % 10),
        spec_hex_char(minute % 10),
        spec_hex_char((second / 10) % 10),
        spec_hex_char(second % 10),
    ]
}

/// Format a local civil time as the session directory name
/// `YYYYMMDD_HHMMSS`.
#[verifier::rlimit(50)]
pub fn session_dir_name(year: u32, month: u32, day: u32, hour: u32, minute: u32, second: u32) -> (r:
    String)
    requires
        year < 10000,
    ensures
        r@ == spec_session_dir_name(
            year as int,
            month as int,
            day as int,
            hour as int,
            minute as int,
            second as int,
        ),
{
    let mut s = String::new();
    string_push(&mut s, hex_char(((year / 1000) % 10) as u8));
    string_push(&mut s, hex_char(((year / 100) % 10) as u8));
    string_push(&mut s, hex_char(((year / 10) % 10) as u8));
    string_push(&mut s, hex_char((year % 10) as u8));
    string_push(&mut s, hex_char(((month / 10) % 10) as u8));
    string_push(&mut s, hex_char((month % 10) as u8));
    string_push(&mut s, hex_char(((day / 10) % 10) as u8));
    string_push(&mut s, hex_char((day % 10) as u8));
    string_push(&mut s, '_');
    string_push(&mut s, hex_char(((hour / 10) % 10) as u8));
    string_push(&mut s, hex_char((hour % 10) as u8));
    string_push(&mut s, hex_char(((minute / 10) % 10) as u8));
    string_push(&mut s, hex_char((minute % 10) as u8));
    string_push(&mut s, hex_char(((second / 10) % 10) as u8));
    string_push(&mut s, hex_char((second % 10) as u8));
    proof {
        assert(s@ =~= spec_session_dir_name(
            year as int,
            month as int,
            day as int,
            hour as int,
            minute as int,
            second as int,
        ));
    }
    s
}

/// The four little-endian bytes of a 32-bit length.
pub open spec fn spec_le32(n: int) -> Seq<u8> {
    seq![
        (n % 0x100) as u8,
        ((n / 0x100) % 0x100) as u8,
        ((n / 0x1_0000) % 0x100) as u8,
        ((n / 0x100_0000) % 0x100) as u8,
    ]
}

/// The record written to the live binary stream for one frame: a
/// little-endian 32-bit length prefix followed by the frame bytes.
pub fn frame_record(frame: &Vec<u8>) -> (r: Vec<u8>)
    requires
        frame@.len() <= u32::MAX,
    ensures
        r@ == spec_le32(frame@.len() as int) + frame@,
{
    let len = frame.len() as u32;
    let mut r: Vec<u8> = Vec::new();
    r.push((len % 0x100) as u8);
    r.push(((len / 0x100) % 0x100) as u8);
    r.push(((len / 0x1_0000) % 0x100) as u8);
    r.push(((len / 0x100_0000) % 0x100) as u8);
    r.extend_from_slice(frame.as_slice());
    proof {
        assert(r@ =~= spec_le32(frame@.len() as int) + frame@);
    }
    r
}

/// The abstract state of a [`PacketQueue`].
pub struct QueueModel {
    pub items: Seq<Seq<u8>>,
    pub capacity: int,
    pub dropped: u64,
}

impl QueueModel {
    /// The queue never holds more than its capacity.
    pub open spec fn wf(self) -> bool {
        self.items.len() <= self.capacity
    }
}

/// The admission policy of the bounded packet queue: a full queue drops the
/// packet and counts it, never blocking and never growing without bound.
pub open spec fn spec_try_send(m: QueueModel, buf: Seq<u8>) -> (QueueModel, bool) {
    if m.items.len() < m.capacity {
        (QueueModel { items: m.items.push(buf), ..m }, true)
    } else {
        (QueueModel { dropped: crate::frame_sync::bump(m.dropped), ..m }, false)
    }
}

/// Offer every buffer of `bufs` to the queue in order.
pub open spec fn spec_feed_all(m: QueueModel, bufs: Seq<Seq<u8>>) -> QueueModel
    decreases bufs.len(),
{
    if bufs.len() == 0 {
        m
    } else {
        spec_feed_all(spec_try_send(m, bufs.first()).0, bufs.drop_first())
    }
}

/// The bounded single-producer queue between the receiver and the
/// assembler.  `try_send` never blocks: a full queue drops the packet and
/// counts the loss.
#[derive(Debug)]
pub struct PacketQueue {
    items: Vec<Vec<u8>>,
    capacity: usize,
    dropped: u64,
}

impl View for PacketQueue {
    type V = QueueModel;

    closed spec fn view(&self) -> QueueModel {
        QueueModel {
            items: self.items@.map_values(|v: Vec<u8>| v@),
            capacity: self.capacity as int,
            dropped: self.dropped,
        }
    }
}

impl PacketQueue {
    /// Create a queue holding at most `capacity` packet buffers.
    pub fn new(capacity: usize) -> (r: PacketQueue)
        ensures
            r@.items.len() == 0,
            r@.capacity == capacity,
            r@.dropped == 0,
            r@.wf(),
    {
        let r = PacketQueue { items: Vec::new(), capacity, dropped: 0 };
        proof {
            assert(r@.items =~= Seq::<Seq<u8>>::empty());
        }
        r
    }

    /// Number of queued packets.
    pub fn len(&self) -> (r: usize)
        ensures
            r == self@.items.len(),
    {
        self.items.len()
    }

    /// Number of packets dropped because the queue was full.
    pub fn dropped(&self) -> (r: u64)
        ensures
            r == self@.dropped,
    {
        self.dropped
    }

    /// Offer a packet without blocking: false means the queue was full and
    /// the packet was dropped and counted.
    pub fn try_send(&mut self, buf: Vec<u8>) -> (r: bool)
        requires
            old(self)@.wf(),
        ensures
            final(self)@.wf(),
            final(self)@ == spec_try_send(old(self)@, buf@).0,
            r == spec_try_send(old(self)@, buf@).1,
    {
        if self.items.len() < self.capacity {
            self.items.push(buf);
            proof {
                assert(self@.items =~= old(self)@.items.push(buf@));
            }
            true
        } else {
            self.dropped = if self.dropped < u64::MAX {
                self.dropped + 1
            } else {
                self.dropped
            };
            false
        }
    }

    /// Take the oldest queued packet, if any.
    pub fn recv(&mut self) -> (r: Option<Vec<u8>>)
        requires
            old(self)@.wf(),
        ensures
            final(self)@.wf(),
            final(self)@.capacity == old(self)@.capacity,
            final(self)@.dropped == old(self)@.dropped,
            old(self)@.items.len() == 0 ==> r is None && final(self)@.items == old(self)@.items,
            old(self)@.items.len() > 0 ==> (r matches Some(v) && v@ == old(self)@.items[0]
                && final(self)@.items == old(self)@.items.drop_first()),
    {
        if self.items.is_empty() {
            return None;
        }
        let v = self.items.remove(0);
        proof {
            assert(self@.items =~= old(self)@.items.drop_first());
        }
        Some(v)
    }
}

/// Law: a burst of `bufs` offered to an empty queue with no consumer keeps
/// exactly `min(bufs.len(), capacity)` packets, and the number of newly
/// dropped packets is exactly the excess — bounded loss, no unbounded
/// growth.
pub proof fn lemma_queue_full_bounded_loss(m: QueueModel, bufs: Seq<Seq<u8>>)
    requires
        m.wf(),
        m.items.len() == 0,
        m.capacity >= 0,
        m.dropped + bufs.len() <= u64::MAX,
    ensures
        spec_feed_all(m, bufs).items.len() == if bufs.len() <= m.capacity {
            bufs.len() as int
        } else {
            m.capacity
        },
        spec_feed_all(m, bufs).dropped == m.dropped + (if bufs.len() <= m.capacity {
            0int
        } else {
            bufs.len() - m.capacity
        }),
        spec_feed_all(m, bufs).wf(),
{
    lemma_feed_all_general(m, bufs);
}

/// The consecutive 12-byte chunks at the front of a byte buffer.
pub open spec fn spec_chunks_of(all: Seq<u8>) -> Seq<Seq<u8>> {
    Seq::new((all.len() / 12) as nat, |i: int| all.subrange(12 * i, 12 * i + 12))
}

/// The abstract state of a [`FrameAssembler`]: bytes not yet forming a full
/// chunk, and the sync engine's model.
pub struct AssemblerModel {
    pub pending: Seq<u8>,
    pub engine: SyncModel,
}

/// The assembler half of the capture pipeline: it appends packet bytes to a
/// continuous buffer, drains strict 12-byte chunks into the sync engine,
/// and hands back each completed frame.
#[derive(Debug)]
pub struct FrameAssembler {
    buffer: Vec<u8>,
    engine: FrameSyncEngine,
}

impl View for FrameAssembler {
    type V = AssemblerModel;

    closed spec fn view(&self) -> AssemblerModel {
        AssemblerModel { pending: self.buffer@, engine: self.engine@ }
    }
}

impl FrameAssembler {
    /// Create an assembler with an unsynchronized engine and no pending
    /// bytes.
    pub fn new() -> (r: FrameAssembler)
        ensures
            r@.pending.len() == 0,
            r@.engine == SyncModel::initial(),
            r@.engine.wf(),
    {
        FrameAssembler { buffer: Vec::new(), engine: FrameSyncEngine::new() }
    }

    /// Statistics of the sync engine: frames completed, sync errors, header
    /// index errors.
    pub fn stats(&self) -> (r: (u64, u64, u64))
        ensures
            r.0 == self@.engine.frames_completed,
            r.1 == self@.engine.sync_errors,
            r.2 == self@.engine.header_index_errors,
    {
        self.engine.stats()
    }

    /// The bytes accumulated inside the sync engine for the frame in
    /// progress (written out as an incomplete frame at shutdown).
    pub fn sync_buffer(&self) -> (r: &[u8])
        ensures
            r@ == self@.engine.buffer,
    {
        self.engine.current_buffer()
    }

    /// The bytes that do not yet form a complete 12-byte chunk.
    pub fn pending(&self) -> (r: &[u8])
        ensures
            r@ == self@.pending,
    {
        self.buffer.as_slice()
    }

    /// Append a packet's bytes and drain every complete 12-byte chunk
    /// through the sync engine; returns the frames completed by this
    /// packet, in order.
    pub fn feed(&mut self, packet: &[u8]) -> (r: Vec<Vec<u8>>)
        requires
            old(self)@.engine.wf(),
        ensures
            ({
                let all = old(self)@.pending + packet@;
                let run = spec_run_stream(old(self)@.engine, spec_chunks_of(all));
                &&& final(self)@.engine == run.0
                &&& final(self)@.engine.wf()
                &&& r.deep_view() == run.1
                &&& final(self)@.pending == all.subrange(12 * (all.len() as int / 12), all.len() as int)
            }),
    {
        let ghost m0 = old(self)@.engine;
        self.buffer.extend_from_slice(packet);
        let ghost all = self.buffer@;
        let ghost chunks = spec_chunks_of(all);
        proof {
            assert(all == old(self)@.pending + packet@);
        }
        let mut frames: Vec<Vec<u8>> = Vec::new();
        let len = self.buffer.len();
        let mut pos: usize = 0;
        proof {
            assert(chunks.subrange(0, 0) =~= Seq::<Seq<u8>>::empty());
            assert(frames.deep_view() =~= Seq::<Seq<u8>>::empty());
        }
        while len - pos >= 12
            invariant
                self.buffer@ == all,
                len == all.len(),
                pos <= len,
                pos % 12 == 0,
                chunks == spec_chunks_of(all),
                pos / 12 <= chunks.len(),
                self.engine@ == spec_run_stream(m0, chunks.subrange(0, pos as int / 12)).0,
                self.engine@.wf(),
                frames.deep_view() == spec_run_stream(m0, chunks.subrange(0, pos as int / 12)).1,
            decreases len - pos,
        {
            let ghost j = pos as int / 12;
            let chunk: [u8; 12] = [
                self.buffer[pos], self.buffer[pos + 1], self.buffer[pos + 2], self.buffer[pos + 3],
                self.buffer[pos + 4], self.buffer[pos + 5], self.buffer[pos + 6], self.buffer[pos
                    + 7], self.buffer[pos + 8], self.buffer[pos + 9], self.buffer[pos + 10],
                self.buffer[pos + 11],
            ];
            proof {
                assert(12 * j == pos as int);
                assert(chunk@ =~= all.subrange(12 * j, 12 * j + 12));
                assert((pos + 12) / 12 == pos / 12 + 1) by {
                    vstd::arithmetic::div_mod::lemma_div_multiples_vanish_fancy(j + 1, 0, 12);
                    assert((pos + 12) as int == 12 * (j + 1));
                }
                assert(j < chunks.len()) by {
                    vstd::arithmetic::div_mod::lemma_div_is_ordered(
                        (pos + 12) as int,
                        len as int,
                        12,
                    );
                }
                assert(chunks[j] == chunk@);
                lemma_run_snoc(m0, chunks.subrange(0, j), chunks[j]);
                assert(chunks.subrange(0, j + 1) =~= chunks.subrange(0, j).push(chunks[j]));
            }
            let ghost frames_before = frames.deep_view();
            match self.engine.process_hword(&chunk) {
                Some(f) => {
                    frames.push(f);
                    proof {
                        assert(f.deep_view() =~= f@);
                        assert(frames.deep_view() =~= frames_before.push(f@));
                        assert(spec_step(
                            spec_run_stream(m0, chunks.subrange(0, j)).0,
                            chunks[j],
                        ).1 matches Some(e) && e == f@);
                        assert(frames.deep_view() =~= spec_run_stream(
                            m0,
                            chunks.subrange(0, j + 1),
                        ).1);
                    }
                },
                None => {
                    proof {
                        assert(frames.deep_view() =~= spec_run_stream(
                            m0,
                            chunks.subrange(0, j + 1),
                        ).1);
                    }
                },
            }
            pos += 12;
        }
        proof {
            assert(all.len() as int / 12 == pos as int / 12) by {
                assert(12 * ((pos / 12) as int) == pos as int);
                vstd::arithmetic::div_mod::lemma_div_multiples_vanish_fancy(
                    pos as int / 12,
                    all.len() as int - pos as int,
                    12,
                );
                assert(all.len() as int == 12 * (pos as int / 12) + (all.len() as int
                    - pos as int));
            }
            assert(chunks.subrange(0, chunks.len() as int) =~= chunks);
            assert(pos as int / 12 == chunks.len());
        }
        let mut rest_buf: Vec<u8> = Vec::new();
        let mut i: usize = pos;
        while i < len
            invariant
                self.buffer@ == all,
                len == all.len(),
                pos <= i <= len,
                rest_buf@ == all.subrange(pos as int, i as int),
            decreases len - i,
        {
            rest_buf.push(self.buffer[i]);
            proof {
                assert(all.subrange(pos as int, i + 1) =~= all.subrange(pos as int, i as int).push(
                    all[i as int],
                ));
            }
            i += 1;
        }
        self.buffer = rest_buf;
        proof {
            assert(self.buffer@ == all.subrange(12 * (all.len() as int / 12), all.len() as int));
        }
        frames
    }
}

/// One synthetic point of the debug data generator, already clamped to the
/// wire's fixed-point ranges (9.10 for `x`/`y`, 12.10 for `z`).
#[derive(Debug, Clone, Copy, PartialEq, Eq, Structural)]
pub struct PixelSample {
    pub x: i32,
    pub y: i32,
    pub z: i32,
    pub intensity: u16,
}

impl PixelSample {
    /// The coordinates fit their two's-complement lanes.
    pub open spec fn wf(self) -> bool {
        &&& -0x40000 <= self.x < 0x40000
        &&& -0x40000 <= self.y < 0x40000
        &&& -0x200000 <= self.z < 0x200000
    }
}

/// The pixel payload encoding a sample: X in bits 18:0, Y in bits 42:24,
/// Z in bits 69:48, intensity in bits 87:72, both flags clear.
pub open spec fn spec_pixel_payload(s: PixelSample) -> int {
    (s.x as int % 0x80000) + (s.y as int % 0x80000) * 0x100_0000 + (s.z as int % 0x400000)
        * 0x1_0000_0000_0000 + (s.intensity as int) * 0x100_0000_0000_0000_0000
}

/// Law: the pixel payload built from a sample decodes back to the sample —
/// the raw coordinates survive their two's-complement lanes exactly, the
/// intensity keeps its low 12 bits, and both flags stay clear.
pub proof fn lemma_pixel_payload_round_trip(s: PixelSample)
    requires
        s.wf(),
    ensures
        crate::coordinates::spec_x(spec_pixel_payload(s)) == s.x as int,
        crate::coordinates::spec_y(spec_pixel_payload(s)) == s.y as int,
        crate::coordinates::spec_z(spec_pixel_payload(s)) == s.z as int,
        crate::coordinates::spec_intensity(spec_pixel_payload(s)) == s.intensity as int % 0x1000,
        !crate::coordinates::spec_over_range(spec_pixel_payload(s)),
        !crate::coordinates::spec_gain(spec_pixel_payload(s)),
{
    let a: u32 = (s.x as int % 0x80000) as u32;
    let b: u32 = (s.y as int % 0x80000) as u32;
    let c: u32 = (s.z as int % 0x400000) as u32;
    let d: u16 = s.intensity;
    let p: u128 = (a as u128 + b as u128 * 0x100_0000 + c as u128 * 0x1_0000_0000_0000
        + d as u128 * 0x100_0000_0000_0000_0000) as u128;
    assert(p as int == spec_pixel_payload(s));
    assert(p % 0x80000 == a && (p / 0x100_0000) % 0x80000 == b && (p / 0x1_0000_0000_0000)
        % 0x400000 == c && (p / 0x100_0000_0000_0000_0000) % 0x1000 == d % 0x1000 && (p
        / 0x400_0000_0000_0000_0000_0000) % 2 == 0 && (p / 0x800_0000_0000_0000_0000_0000) % 2
        == 0) by (bit_vector)
        requires
            a < 0x80000,
            b < 0x80000,
            c < 0x400000,
            p == (a as u128 + b as u128 * 0x100_0000 + c as u128 * 0x1_0000_0000_0000 + d as u128
                * 0x100_0000_0000_0000_0000) as u128,
    ;
    crate::coordinates::lemma_sign_extension_19(s.x as int);
    crate::coordinates::lemma_sign_extension_19(s.y as int);
    crate::coordinates::lemma_sign_extension_22(s.z as int);
}

/// Encode a raw coordinate as a 19-bit two's-complement lane.
fn encode19(v: i32) -> (r: u32)
    requires
        -0x40000 <= v < 0x40000,
    ensures
        r as int == v as int % 0x80000,
        r < 0x80000,
{
    if v >= 0 {
        v as u32
    } else {
        proof {
            assert(v as int % 0x80000 == v as int + 0x80000);
        }
        (v + 0x80000) as u32
    }
}

/// Encode a raw coordinate as a 22-bit two's-complement lane.
fn encode22(v: i32) -> (r: u32)
    requires
        -0x200000 <= v < 0x200000,
    ensures
        r as int == v as int % 0x400000,
        r < 0x400000,
{
    if v >= 0 {
        v as u32
    } else {
        proof {
            assert(v as int % 0x400000 == v as int + 0x400000);
        }
        (v + 0x400000) as u32
    }
}

/// Build the 12 wire bytes of one pixel HWORD with correct odd parity.
pub fn build_pixel_hword(sample: &PixelSample, first: bool) -> (r: [u8; 12])
    requires
        sample.wf(),
    ensures
        spec_chunk_control(r@) == (if first {
            ControlBits::FirstPixel
        } else {
            ControlBits::SubsequentPixel
        }),
        spec_chunk_payload(r@) == spec_pixel_payload(*sample),
        popcount(spec_chunk_word(r@) as nat) % 2 == 1,
{
    let payload: u128 = encode19(sample.x) as u128 + (encode19(sample.y) as u128) * 0x100_0000 + (
    encode22(sample.z) as u128) * 0x1_0000_0000_0000 + (sample.intensity as u128)
        * 0x100_0000_0000_0000_0000;
    let control = if first {
        ControlBits::FirstPixel
    } else {
        ControlBits::SubsequentPixel
    };
    let h = HWord::with_parity(control, payload);
    let bytes = h.to_bytes();
    proof {
        lemma_serialize_parses(h);
        crate::frame_sync::lemma_payload_of_chunk(h, bytes@);
        crate::frame_sync::lemma_word_of_chunk(h, bytes@);
    }
    bytes
}

/// Build the 12 wire bytes of a synthetic `FirstHeader`: the frame number
/// in the low payload bits and the pixel count in the NUM_PIXELS_RW lane.
pub fn build_first_header(frame_number: u32, num_pixels: usize) -> (r: [u8; 12])
    requires
        num_pixels < 0x1000_0000,
    ensures
        spec_chunk_control(r@) == ControlBits::FirstHeader,
        spec_chunk_payload(r@) == frame_number + num_pixels * 0x1_0000_0000,
        r@[0] / 16 % 2 == 0,
{
    let payload: u128 = frame_number as u128 + (num_pixels as u128) * 0x1_0000_0000;
    let h = HWord::from_payload(ControlBits::FirstHeader, false, payload);
    let bytes = h.to_bytes();
    proof {
        lemma_serialize_parses(h);
        crate::frame_sync::lemma_payload_of_chunk(h, bytes@);
    }
    bytes
}

/// Build the 12 wire bytes of a synthetic `SubsequentHeader` with an empty
/// payload.
pub fn build_subsequent_header() -> (r: [u8; 12])
    ensures
        spec_chunk_control(r@) == ControlBits::SubsequentHeader,
        spec_chunk_payload(r@) == 0,
        r@[0] / 16 % 2 == 0,
{
    let h = HWord::from_payload(ControlBits::SubsequentHeader, false, 0);
    let bytes = h.to_bytes();
    proof {
        lemma_serialize_parses(h);
        crate::frame_sync::lemma_payload_of_chunk(h, bytes@);
    }
    bytes
}

/// Generate one synthetic frame blob: a `FirstHeader` announcing the pixel
/// count, one `SubsequentHeader`, then one pixel HWORD per sample (the
/// first a `FirstPixel`), each pixel with correct odd parity.
pub fn generate_synthetic_frame(frame_number: u32, points: &Vec<PixelSample>) -> (r: Vec<u8>)
    requires
        forall|i: int| 0 <= i < points@.len() ==> (#[trigger] points@[i]).wf(),
        points@.len() < 0x1000_0000,
    ensures
        r@.len() == 12 * (2 + points@.len()),
        spec_chunk_control(r@.subrange(0, 12)) == ControlBits::FirstHeader,
        spec_chunk_payload(r@.subrange(0, 12)) == frame_number + points@.len() * 0x1_0000_0000,
        spec_chunk_control(r@.subrange(12, 24)) == ControlBits::SubsequentHeader,
        forall|i: int| 0 <= i < points@.len() ==> {
            &&& spec_chunk_control(#[trigger] r@.subrange(12 * (i + 2), 12 * (i + 2) + 12)) == (
            if i == 0 {
                ControlBits::FirstPixel
            } else {
                ControlBits::SubsequentPixel
            })
            &&& spec_chunk_payload(r@.subrange(12 * (i + 2), 12 * (i + 2) + 12))
                == spec_pixel_payload(points@[i])
            &&& popcount(spec_chunk_word(r@.subrange(12 * (i + 2), 12 * (i + 2) + 12)) as nat) % 2
                == 1
        },
{
    let n = points.len();
    let mut frame_data: Vec<u8> = Vec::new();
    let first_header = build_first_header(frame_number, n);
    frame_data.extend_from_slice(first_header.as_slice());
    let subsequent_header = build_subsequent_header();
    frame_data.extend_from_slice(subsequent_header.as_slice());
    proof {
        assert(frame_data@.subrange(0, 12) =~= first_header@);
        assert(frame_data@.subrange(12, 24) =~= subsequent_header@);
    }
    let mut i: usize = 0;
    while i < n
        invariant
            n == points@.len(),
            n < 0x1000_0000,
            forall|k: int| 0 <= k < n ==> (#[trigger] points@[k]).wf(),
            i <= n,
            frame_data@.len() == 12 * (2 + i),
            spec_chunk_control(frame_data@.subrange(0, 12)) == ControlBits::FirstHeader,
            spec_chunk_payload(frame_data@.subrange(0, 12)) == frame_number + points@.len()
                * 0x1_0000_0000,
            spec_chunk_control(frame_data@.subrange(12, 24)) == ControlBits::SubsequentHeader,
            forall|k: int| 0 <= k < i ==> {
                &&& spec_chunk_control(
                    #[trigger] frame_data@.subrange(12 * (k + 2), 12 * (k + 2) + 12),
                ) == (if k == 0 {
                    ControlBits::FirstPixel
                } else {
                    ControlBits::SubsequentPixel
                })
                &&& spec_chunk_payload(frame_data@.subrange(12 * (k + 2), 12 * (k + 2) + 12))
                    == spec_pixel_payload(points@[k])
                &&& popcount(
                    spec_chunk_word(frame_data@.subrange(12 * (k + 2), 12 * (k + 2) + 12)) as nat,
                ) % 2 == 1
            },
        decreases n - i,
    {
        let ghost before = frame_data@;
        let sample = points[i];
        let hword = build_pixel_hword(&sample, i == 0);
        frame_data.extend_from_slice(hword.as_slice());
        proof {
            assert(frame_data@.subrange(0, 12) =~= before.subrange(0, 12));
            assert(frame_data@.subrange(12, 24) =~= before.subrange(12, 24));
            assert(frame_data@.subrange(12 * (i + 2), 12 * (i + 2) + 12) =~= hword@);
            assert forall|k: int| 0 <= k < i implies #[trigger] frame_data@.subrange(
                12 * (k + 2),
                12 * (k + 2) + 12,
            ) == before.subrange(12 * (k + 2), 12 * (k + 2) + 12) by {
                assert(frame_data@.subrange(12 * (k + 2), 12 * (k + 2) + 12) =~= before.subrange(
                    12 * (k + 2),
                    12 * (k + 2) + 12,
                ));
            }
        }
        i += 1;
    }
    frame_data
}

/// Feeding from any starting fill keeps the queue within capacity and
/// counts exactly the overflow.
proof fn lemma_feed_all_general(m: QueueModel, bufs: Seq<Seq<u8>>)
    requires
        m.wf(),
        m.dropped + bufs.len() <= u64::MAX,
    ensures
        spec_feed_all(m, bufs).capacity == m.capacity,
        spec_feed_all(m, bufs).items.len() == if m.items.len() + bufs.len() <= m.capacity {
            m.items.len() + bufs.len()
        } else {
            m.capacity as nat
        },
        spec_feed_all(m, bufs).dropped == m.dropped + (if m.items.len() + bufs.len() <= m.capacity {
            0int
        } else {
            m.items.len() + bufs.len() - m.capacity
        }),
        spec_feed_all(m, bufs).wf(),
    decreases bufs.len(),
{
    if bufs.len() > 0 {
        let next = spec_try_send(m, bufs.first()).0;
        lemma_feed_all_general(next, bufs.drop_first());
    }
}

} // verus!
