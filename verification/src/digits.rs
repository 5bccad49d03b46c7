//! Parsing and formatting of the numeric file-name forms used by the
//! pipeline: zero-padded hexadecimal frame counters, decimal frame numbers,
//! digit runs inside free-form names, and a stable fallback hash.

use vstd::prelude::*;
use vstd::string::*;

verus! {

/// True for the ASCII digits '0' to '9'.
pub open spec fn is_ascii_digit(c: char) -> bool {
    48 <= c as int && c as int <= 57
}

/// True for ASCII hexadecimal digits (both cases).
pub open spec fn is_hex_digit(c: char) -> bool {
    (48 <= c as int && c as int <= 57) || (97 <= c as int && c as int <= 102) || (65 <= c as int
        && c as int <= 70)
}

/// The value of an ASCII decimal digit.
pub open spec fn digit_val(c: char) -> int {
    c as int - 48
}

/// The value of an ASCII hexadecimal digit.
pub open spec fn hex_val(c: char) -> int {
    if 48 <= c as int && c as int <= 57 {
        c as int - 48
    } else if 97 <= c as int && c as int <= 102 {
        c as int - 87
    } else {
        c as int - 55
    }
}

/// True if every character of `s` is an ASCII decimal digit.
pub open spec fn all_digits(s: Seq<char>) -> bool {
    forall|i: int| 0 <= i < s.len() ==> is_ascii_digit(#[trigger] s[i])
}

/// True if every character of `s` is an ASCII hexadecimal digit.
pub open spec fn all_hex(s: Seq<char>) -> bool {
    forall|i: int| 0 <= i < s.len() ==> is_hex_digit(#[trigger] s[i])
}

/// The number denoted by a string of decimal digits (most significant
/// first); the empty string denotes zero.
pub open spec fn spec_parse_dec(s: Seq<char>) -> int
    decreases s.len(),
{
    if s.len() == 0 {
        0
    } else {
        spec_parse_dec(s.drop_last()) * 10 + digit_val(s.last())
    }
}

/// The number denoted by a string of hexadecimal digits (most significant
/// first); the empty string denotes zero.
pub open spec fn spec_parse_hex(s: Seq<char>) -> int
    decreases s.len(),
{
    if s.len() == 0 {
        0
    } else {
        spec_parse_hex(s.drop_last()) * 16 + hex_val(s.last())
    }
}

/// Parse a non-empty all-decimal-digit string as a u32; anything else,
/// including values above `u32::MAX`, yields None.
pub fn parse_dec_u32(s: &str) -> (r: Option<u32>)
    ensures
        r matches Some(v) ==> s@.len() > 0 && all_digits(s@) && spec_parse_dec(s@) == v as int,
        r is None ==> s@.len() == 0 || !all_digits(s@) || spec_parse_dec(s@) > u32::MAX,
{
    let n = s.unicode_len();
    if n == 0 {
        return None;
    }
    let mut acc: u64 = 0;
    let mut i: usize = 0;
    while i < n
        invariant
            n == s@.len(),
            i <= n,
            all_digits(s@.subrange(0, i as int)),
            acc <= 0x1_0000_0000,
            spec_parse_dec(s@.subrange(0, i as int)) <= u32::MAX ==> acc == spec_parse_dec(
                s@.subrange(0, i as int),
            ),
            spec_parse_dec(s@.subrange(0, i as int)) > u32::MAX ==> acc == 0x1_0000_0000,
        decreases n - i,
    {
        let c = s.get_char(i);
        let v = c as u32;
        if v < 48 || v > 57 {
            proof {
                assert(!is_ascii_digit(s@[i as int]));
            }
            return None;
        }
        let d = (v - 48) as u64;
        let raw = acc * 10 + d;
        let capped = if raw > 0xFFFF_FFFF {
            0x1_0000_0000u64
        } else {
            raw
        };
        proof {
            let pre = s@.subrange(0, i as int);
            let post = s@.subrange(0, i + 1);
            assert(post.drop_last() =~= pre);
            assert(post.last() == s@[i as int]);
            assert(spec_parse_dec(post) == spec_parse_dec(pre) * 10 + digit_val(s@[i as int]));
        }
        acc = capped;
        i += 1;
    }
    proof {
        assert(s@.subrange(0, n as int) =~= s@);
    }
    if acc > 0xFFFF_FFFF {
        None
    } else {
        Some(acc as u32)
    }
}

/// Parse a non-empty all-hex-digit string as a u32; anything else,
/// including values above `u32::MAX`, yields None.
pub fn parse_hex_u32(s: &str) -> (r: Option<u32>)
    ensures
        r matches Some(v) ==> s@.len() > 0 && all_hex(s@) && spec_parse_hex(s@) == v as int,
        r is None ==> s@.len() == 0 || !all_hex(s@) || spec_parse_hex(s@) > u32::MAX,
{
    let n = s.unicode_len();
    if n == 0 {
        return None;
    }
    let mut acc: u64 = 0;
    let mut i: usize = 0;
    while i < n
        invariant
            n == s@.len(),
            i <= n,
            all_hex(s@.subrange(0, i as int)),
            acc <= 0x1_0000_0000,
            spec_parse_hex(s@.subrange(0, i as int)) <= u32::MAX ==> acc == spec_parse_hex(
                s@.subrange(0, i as int),
            ),
            spec_parse_hex(s@.subrange(0, i as int)) > u32::MAX ==> acc == 0x1_0000_0000,
        decreases n - i,
    {
        let c = s.get_char(i);
        let v = c as u32;
        let d: u64 = if 48 <= v && v <= 57 {
            (v - 48) as u64
        } else if 97 <= v && v <= 102 {
            (v - 87) as u64
        } else if 65 <= v && v <= 70 {
            (v - 55) as u64
        } else {
            proof {
                assert(!is_hex_digit(s@[i as int]));
            }
            return None;
        };
        let raw = acc * 16 + d;
        let capped = if raw > 0xFFFF_FFFF {
            0x1_0000_0000u64
        } else {
            raw
        };
        proof {
            let pre = s@.subrange(0, i as int);
            let post = s@.subrange(0, i + 1);
            assert(post.drop_last() =~= pre);
            assert(post.last() == s@[i as int]);
            assert(spec_parse_hex(post) == spec_parse_hex(pre) * 16 + hex_val(s@[i as int]));
        }
        acc = capped;
        i += 1;
    }
    proof {
        assert(s@.subrange(0, n as int) =~= s@);
    }
    if acc > 0xFFFF_FFFF {
        None
    } else {
        Some(acc as u32)
    }
}

/// Sixteen raised to the `n`-th power.
pub open spec fn sixteen_pow(n: nat) -> int
    decreases n,
{
    if n == 0 {
        1
    } else {
        16 * sixteen_pow((n - 1) as nat)
    }
}

/// A string of hexadecimal digits of length `n` denotes a value below
/// `16^n`.
pub proof fn lemma_parse_hex_pow(s: Seq<char>)
    requires
        all_hex(s),
    ensures
        0 <= spec_parse_hex(s) < sixteen_pow(s.len()),
    decreases s.len(),
{
    if s.len() > 0 {
        assert(all_hex(s.drop_last())) by {
            assert(forall|i: int| 0 <= i < s.len() - 1 ==> s.drop_last()[i] == s[i]);
        }
        lemma_parse_hex_pow(s.drop_last());
        assert(0 <= hex_val(s.last()) < 16);
        assert(sixteen_pow(s.len()) == 16 * sixteen_pow((s.len() - 1) as nat));
    }
}

/// In particular, 8 hexadecimal digits always fit a u32.
pub proof fn lemma_parse_hex_bound(s: Seq<char>)
    requires
        all_hex(s),
        s.len() == 8,
    ensures
        0 <= spec_parse_hex(s) < 0x1_0000_0000,
{
    lemma_parse_hex_pow(s);
    reveal_with_fuel(sixteen_pow, 9);
    assert(sixteen_pow(8) == 0x1_0000_0000);
}

/// The index of the last '.' in `s`, or -1 if there is none.
pub open spec fn spec_last_dot(s: Seq<char>) -> int
    decreases s.len(),
{
    if s.len() == 0 {
        -1
    } else if s.last() == '.' {
        s.len() - 1
    } else {
        spec_last_dot(s.drop_last())
    }
}

/// The file stem of a name: everything before the last '.', unless the only
/// '.' is the leading character (or there is none), in which case the whole
/// name.
pub open spec fn spec_stem(s: Seq<char>) -> Seq<char> {
    if spec_last_dot(s) > 0 {
        s.subrange(0, spec_last_dot(s))
    } else {
        s
    }
}

/// A '.' with no '.' after it is the last one.
proof fn lemma_last_dot_at(s: Seq<char>, j: int)
    requires
        0 <= j < s.len(),
        s[j] == '.',
        forall|k: int| j < k < s.len() ==> s[k] != '.',
    ensures
        spec_last_dot(s) == j,
    decreases s.len(),
{
    if j == s.len() - 1 {
    } else {
        assert(s.last() != '.');
        assert(forall|k: int| j < k < s.len() - 1 ==> s.drop_last()[k] == s[k]);
        assert(s.drop_last()[j] == s[j]);
        lemma_last_dot_at(s.drop_last(), j);
    }
}

/// With no '.' after index 0, the last dot is at index 0 or absent.
proof fn lemma_last_dot_le0(s: Seq<char>)
    requires
        forall|k: int| 1 <= k < s.len() ==> s[k] != '.',
    ensures
        spec_last_dot(s) <= 0,
    decreases s.len(),
{
    if s.len() == 0 {
        assert(spec_last_dot(s) == -1);
    } else if s.len() == 1 {
        if s.last() == '.' {
            assert(spec_last_dot(s) == 0);
        } else {
            assert(spec_last_dot(s) == spec_last_dot(s.drop_last()));
            assert(s.drop_last().len() == 0);
            assert(spec_last_dot(s.drop_last()) == -1);
        }
    } else {
        assert(s[s.len() - 1] != '.');
        assert(s.last() != '.');
        assert(forall|k: int| 1 <= k < s.len() - 1 ==> s.drop_last()[k] == s[k]);
        lemma_last_dot_le0(s.drop_last());
        assert(spec_last_dot(s) == spec_last_dot(s.drop_last()));
    }
}

/// The file stem of a plain file name: the part before the last '.', or the
/// whole name when the only '.' leads it or none exists.
pub fn file_stem(name: &str) -> (r: &str)
    ensures
        r@ == spec_stem(name@),
{
    let n = name.unicode_len();
    let mut i: usize = n;
    while i > 1
        invariant
            n == name@.len(),
            i <= n,
            forall|k: int| i <= k < n ==> name@[k] != '.',
        decreases i,
    {
        let c = name.get_char(i - 1);
        if c == '.' {
            proof {
                lemma_last_dot_at(name@, i - 1);
            }
            return name.substring_char(0, i - 1);
        }
        i -= 1;
    }
    proof {
        lemma_last_dot_le0(name@);
    }
    name
}

/// A polynomial rolling hash of the characters of `s`, reduced to 32 bits.
/// It depends on the characters alone, so it is stable across runs and
/// machines.
pub open spec fn spec_stem_hash(s: Seq<char>) -> int
    decreases s.len(),
{
    if s.len() == 0 {
        5381
    } else {
        (spec_stem_hash(s.drop_last()) * 31 + s.last() as int) % 0x1_0000_0000
    }
}

/// Hash a name to a 32-bit value (used as a last-resort frame identifier).
pub fn stem_hash(s: &str) -> (r: u32)
    ensures
        r as int == spec_stem_hash(s@),
{
    let n = s.unicode_len();
    let mut acc: u32 = 5381;
    let mut i: usize = 0;
    while i < n
        invariant
            n == s@.len(),
            i <= n,
            acc as int == spec_stem_hash(s@.subrange(0, i as int)),
        decreases n - i,
    {
        let c = s.get_char(i);
        let v = c as u64;
        let raw: u64 = acc as u64 * 31 + v;
        proof {
            let pre = s@.subrange(0, i as int);
            let post = s@.subrange(0, i + 1);
            assert(post.drop_last() =~= pre);
            assert(post.last() == s@[i as int]);
        }
        acc = (raw % 0x1_0000_0000) as u32;
        i += 1;
    }
    proof {
        assert(s@.subrange(0, n as int) =~= s@);
    }
    acc
}

/// A maximal leftmost run of ASCII digits: `t` occurs in `s` at `start`,
/// consists only of digits, nothing before it is a digit, and it cannot be
/// extended to the right.
pub open spec fn spec_digit_run(s: Seq<char>, start: int, t: Seq<char>) -> bool {
    &&& 0 <= start
    &&& start + t.len() <= s.len()
    &&& t.len() > 0
    &&& t == s.subrange(start, start + t.len())
    &&& all_digits(t)
    &&& forall|j: int| 0 <= j < start ==> !is_ascii_digit(#[trigger] s[j])
    &&& (start + t.len() == s.len() || !is_ascii_digit(s[start + t.len()]))
}

/// The leftmost maximal digit run of a string is unique.
pub proof fn lemma_digit_run_unique(s: Seq<char>, a: int, t1: Seq<char>, b: int, t2: Seq<char>)
    requires
        spec_digit_run(s, a, t1),
        spec_digit_run(s, b, t2),
    ensures
        a == b,
        t1 == t2,
{
    assert(is_ascii_digit(t1[0]));
    assert(t1[0] == s.subrange(a, a + t1.len())[0]);
    assert(is_ascii_digit(s[a]));
    assert(is_ascii_digit(t2[0]));
    assert(t2[0] == s.subrange(b, b + t2.len())[0]);
    assert(is_ascii_digit(s[b]));
    assert(a >= b && b >= a);
    if t1.len() < t2.len() {
        assert(is_ascii_digit(t2[t1.len() as int]));
        assert(t2[t1.len() as int] == s.subrange(b, b + t2.len())[t1.len() as int]);
        assert(is_ascii_digit(s[a + t1.len()]));
        assert(false);
    }
    if t2.len() < t1.len() {
        assert(is_ascii_digit(t1[t2.len() as int]));
        assert(t1[t2.len() as int] == s.subrange(a, a + t1.len())[t2.len() as int]);
        assert(is_ascii_digit(s[b + t2.len()]));
        assert(false);
    }
    assert(t1 =~= t2);
}

/// Relies on `regex::Regex::find` with the pattern `[0-9]+`: the match, if
/// any, is the leftmost run of one or more ASCII digits, extended as far to
/// the right as possible.
#[verifier::external_body]
pub fn find_digit_run(s: &str) -> (r: Option<String>)
    ensures
        r matches Some(t) ==> exists|start: int| spec_digit_run(s@, start, t@),
        r is None ==> forall|i: int| 0 <= i < s@.len() ==> !is_ascii_digit(#[trigger] s@[i]),
{
    let re = regex::Regex::new("[0-9]+").unwrap();
    re.find(s).map(|m| m.as_str().to_string())
}

/// Relies on `String::push`: appends exactly one character.
#[verifier::external_body]
pub fn string_push(s: &mut String, c: char)
    ensures
        final(s)@ == old(s)@.push(c),
{
    s.push(c);
}

} // verus!
