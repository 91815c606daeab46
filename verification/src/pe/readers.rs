//! Little-endian readers over caller-owned file bytes.
//!
//! Every reader is total: a byte past the end of the buffer reads as zero, so
//! a truncated header decodes with its missing tail zeroed instead of failing.
use vstd::prelude::*;
use vstd::utf8::{decode_utf8, valid_utf8};

verus! {

/// The byte at `i`, or zero when `i` lies outside `raw`.
pub open spec fn byte_at(raw: Seq<u8>, i: int) -> int {
    if 0 <= i < raw.len() {
        raw[i] as int
    } else {
        0
    }
}

/// Little-endian 16-bit value at `off`.
#[verifier::opaque]
pub open spec fn le_u16(raw: Seq<u8>, off: int) -> u16 {
    (byte_at(raw, off) + 0x100 * byte_at(raw, off + 1)) as u16
}

/// Little-endian 32-bit value at `off`.
#[verifier::opaque]
pub open spec fn le_u32(raw: Seq<u8>, off: int) -> u32 {
    (le_u16(raw, off) + 0x1_0000 * le_u16(raw, off + 2)) as u32
}

/// Little-endian 64-bit value at `off`.
#[verifier::opaque]
pub open spec fn le_u64(raw: Seq<u8>, off: int) -> u64 {
    (le_u32(raw, off) + 0x1_0000_0000 * le_u32(raw, off + 4)) as u64
}

/// Index of the first NUL byte at or after `i`, or the length when there is none.
pub open spec fn c_end(raw: Seq<u8>, i: int) -> int
    decreases raw.len() - i,
{
    if i >= raw.len() || i < 0 {
        raw.len() as int
    } else if raw[i] == 0 {
        i
    } else {
        c_end(raw, i + 1)
    }
}

/// The bytes of the NUL-terminated string that starts at `off` (without the
/// terminator); empty when `off` is past the end.
pub open spec fn c_bytes(raw: Seq<u8>, off: int) -> Seq<u8> {
    if 0 <= off < raw.len() {
        raw.subrange(off, c_end(raw, off))
    } else {
        Seq::empty()
    }
}

/// What `String::from_utf8_lossy` decodes from `bytes`.
pub uninterp spec fn utf8_lossy(bytes: Seq<u8>) -> Seq<char>;

/// The text of the NUL-terminated string at `off`, decoded as lossy UTF-8.
pub open spec fn c_string(raw: Seq<u8>, off: int) -> Seq<char> {
    utf8_lossy(c_bytes(raw, off))
}

/// Reads that start at or past the end of the buffer yield zero.
pub proof fn lemma_read_past_end(raw: Seq<u8>, off: int)
    requires
        off >= raw.len(),
    ensures
        le_u16(raw, off) == 0,
        le_u32(raw, off) == 0,
        le_u64(raw, off) == 0,
{
    reveal(le_u16);
    reveal(le_u32);
    reveal(le_u64);
}

pub proof fn lemma_c_end_bounds(raw: Seq<u8>, i: int)
    requires
        0 <= i <= raw.len(),
    ensures
        i <= c_end(raw, i) <= raw.len(),
        forall|j: int| i <= j < c_end(raw, i) ==> raw[j] != 0,
        c_end(raw, i) < raw.len() ==> raw[c_end(raw, i)] == 0,
    decreases raw.len() - i,
{
    if i < raw.len() && raw[i] != 0 {
        lemma_c_end_bounds(raw, i + 1);
    }
}

/// Decodes `bytes` as UTF-8, replacing each invalid sequence with U+FFFD.
///
/// Calls `String::from_utf8_lossy`. The contract names its result, and states
/// that valid UTF-8 is decoded as is; how invalid sequences are replaced is
/// left to the name.
#[verifier::external_body]
fn bytes_to_string(bytes: &[u8]) -> (s: String)
    ensures
        s@ == utf8_lossy(bytes@),
        valid_utf8(bytes@) ==> s@ == decode_utf8(bytes@),
{
    String::from_utf8_lossy(bytes).into_owned()
}

/// The byte at `off`, or zero past the end.
pub fn read_u8(raw: &[u8], off: u64) -> (v: u8)
    ensures
        v as int == byte_at(raw@, off as int),
{
    if off < raw.len() as u64 {
        raw[off as usize]
    } else {
        0
    }
}

/// Little-endian 16-bit value at `off` (zero-filled past the end).
pub fn read_u16_le(raw: &[u8], off: u64) -> (v: u16)
    requires
        off + 2 <= u64::MAX,
    ensures
        v == le_u16(raw@, off as int),
{
    reveal(le_u16);
    let b0 = read_u8(raw, off) as u16;
    let b1 = read_u8(raw, off + 1) as u16;
    b0 + 0x100 * b1
}

/// Little-endian 32-bit value at `off` (zero-filled past the end).
pub fn read_u32_le(raw: &[u8], off: u64) -> (v: u32)
    requires
        off + 4 <= u64::MAX,
    ensures
        v == le_u32(raw@, off as int),
{
    reveal(le_u32);
    let lo = read_u16_le(raw, off) as u32;
    let hi = read_u16_le(raw, off + 2) as u32;
    lo + 0x1_0000 * hi
}

/// Little-endian 64-bit value at `off` (zero-filled past the end).
pub fn read_u64_le(raw: &[u8], off: u64) -> (v: u64)
    requires
        off + 8 <= u64::MAX,
    ensures
        v == le_u64(raw@, off as int),
{
    reveal(le_u64);
    let lo = read_u32_le(raw, off) as u64;
    let hi = read_u32_le(raw, off + 4) as u64;
    lo + 0x1_0000_0000 * hi
}

/// Reads the NUL-terminated string at `off` (empty when `off` is past the end),
/// decoding its bytes as lossy UTF-8.
pub fn read_c_string(raw: &[u8], off: u64) -> (s: String)
    ensures
        s@ == c_string(raw@, off as int),
{
    if off >= raw.len() as u64 {
        let empty: &[u8] = &raw[0..0];
        assert(empty@ =~= c_bytes(raw@, off as int));
        return bytes_to_string(empty);
    }
    let start = off as usize;
    let mut end = start;
    proof {
        lemma_c_end_bounds(raw@, start as int);
    }
    while end < raw.len() && raw[end] != 0
        invariant
            start <= end <= raw.len(),
            start < raw.len(),
            c_end(raw@, start as int) == c_end(raw@, end as int),
        decreases raw.len() - end,
    {
        end = end + 1;
    }
    let bytes = &raw[start..end];
    assert(bytes@ =~= c_bytes(raw@, off as int));
    bytes_to_string(bytes)
}

/// UTF-16 decoding of `units`: a unit outside the surrogate range is its own
/// character, a high surrogate followed by a low one is the supplementary
/// character they encode, and any other surrogate becomes U+FFFD.
pub open spec fn utf16_lossy(units: Seq<u16>) -> Seq<char>
    decreases units.len(),
{
    if units.len() == 0 {
        Seq::empty()
    } else {
        let u = units[0];
        if u < 0xD800 || u > 0xDFFF {
            seq![u as char] + utf16_lossy(units.drop_first())
        } else if u <= 0xDBFF && units.len() >= 2 && 0xDC00 <= units[1] && units[1] <= 0xDFFF {
            seq![(0x1_0000 + (u - 0xD800) * 0x400 + (units[1] - 0xDC00)) as char] + utf16_lossy(
                units.skip(2),
            )
        } else {
            seq!['\u{FFFD}'] + utf16_lossy(units.drop_first())
        }
    }
}

/// Decodes `units` as UTF-16, replacing each unpaired surrogate with U+FFFD.
///
/// Calls `String::from_utf16_lossy`.
#[verifier::external_body]
pub(crate) fn units_to_string(units: &[u16]) -> (s: String)
    ensures
        s@ == utf16_lossy(units@),
{
    String::from_utf16_lossy(units)
}

} // verus!
