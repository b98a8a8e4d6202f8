//! Reading little-endian integers and byte patterns.
use crate::text::chars_of;
use vstd::prelude::*;

verus! {

/// The 16-bit integer that starts at index `off`, low byte first.
pub open spec fn word16(data: Seq<u8>, off: int) -> Option<u16> {
    if 0 <= off && off + 2 <= data.len() {
        Some((data[off] + 0x100 * data[off + 1]) as u16)
    } else {
        None
    }
}

/// The 32-bit integer that starts at index `off`, low byte first.
pub open spec fn word32(data: Seq<u8>, off: int) -> Option<u32> {
    if 0 <= off && off + 4 <= data.len() {
        Some(
            (data[off] + 0x100 * data[off + 1] + 0x1_0000 * data[off + 2] + 0x100_0000 * data[off
                + 3]) as u32,
        )
    } else {
        None
    }
}

/// The 64-bit integer that starts at index `off`, low byte first.
pub open spec fn word64(data: Seq<u8>, off: int) -> Option<u64> {
    if 0 <= off && off + 8 <= data.len() {
        Some(
            (word32(data, off)->0 + 0x1_0000_0000 * word32(data, off + 4)->0) as u64,
        )
    } else {
        None
    }
}

/// The 16-bit integer that starts at index `off`, as long as the data reaches
/// that far.
pub fn u16_at(data: &[u8], off: usize) -> (r: Option<u16>)
    ensures
        r == word16(data@, off as int),
{
    if off <= data.len() && data.len() - off >= 2 {
        Some(data[off] as u16 + 0x100 * (data[off + 1] as u16))
    } else {
        None
    }
}

/// The 32-bit integer that starts at index `off`, as long as the data reaches
/// that far.
pub fn u32_at(data: &[u8], off: usize) -> (r: Option<u32>)
    ensures
        r == word32(data@, off as int),
{
    if off <= data.len() && data.len() - off >= 4 {
        Some(
            data[off] as u32 + 0x100 * (data[off + 1] as u32) + 0x1_0000 * (data[off + 2] as u32)
                + 0x100_0000 * (data[off + 3] as u32),
        )
    } else {
        None
    }
}

/// The 64-bit integer that starts at index `off`, as long as the data reaches
/// that far.
pub fn u64_at(data: &[u8], off: usize) -> (r: Option<u64>)
    ensures
        r == word64(data@, off as int),
{
    if off <= data.len() && data.len() - off >= 8 {
        match (u32_at(data, off), u32_at(data, off + 4)) {
            (Some(low), Some(high)) => Some(low as u64 + 0x1_0000_0000 * (high as u64)),
            _ => None,
        }
    } else {
        None
    }
}

/// A 16-bit integer as two bytes, low byte first.
pub open spec fn bytes16(n: u16) -> Seq<u8> {
    seq![(n % 0x100) as u8, (n / 0x100) as u8]
}

/// A 32-bit integer as four bytes, low byte first.
pub open spec fn bytes32(n: u32) -> Seq<u8> {
    seq![
        (n % 0x100) as u8,
        (n / 0x100 % 0x100) as u8,
        (n / 0x1_0000 % 0x100) as u8,
        (n / 0x100_0000) as u8,
    ]
}

/// Reading gives back the integer that was written.
pub proof fn lemma_bytes32_round_trip(n: u32, rest: Seq<u8>)
    ensures
        word32(bytes32(n) + rest, 0) == Some(n),
{
    let s = bytes32(n) + rest;
    assert(s[0] == bytes32(n)[0]);
    assert(s[1] == bytes32(n)[1]);
    assert(s[2] == bytes32(n)[2]);
    assert(s[3] == bytes32(n)[3]);
}

/// The byte that a character of a pattern stands for.
pub open spec fn byte_of(c: char) -> u8 {
    (c as u32 % 0x100) as u8
}

/// The bytes of a pattern: each character stands for the byte of its code.
pub open spec fn pattern(s: Seq<char>) -> Seq<u8> {
    s.map_values(|c: char| byte_of(c))
}

/// The bytes of a pattern.
pub fn pattern_bytes(s: &str) -> (r: Vec<u8>)
    ensures
        r@ == pattern(s@),
{
    let chars = chars_of(s);
    let mut out: Vec<u8> = Vec::new();
    let mut i: usize = 0;
    while i < chars.len()
        invariant
            i <= chars@.len(),
            chars@ == s@,
            out@.len() == i,
            forall|j: int| 0 <= j < i ==> #[trigger] out@[j] == byte_of(s@[j]),
        decreases chars@.len() - i,
    {
        let code: u32 = chars[i] as u32;
        out.push((code % 0x100) as u8);
        i += 1;
    }
    assert(out@ =~= pattern(s@));
    out
}

/// Integers read as they were written, low byte first, wherever they stand; what
/// does not lie within the data is not read.
pub proof fn law_integers_read_as_written(
    before: Seq<u8>,
    n: u16,
    low: u32,
    high: u32,
    after: Seq<u8>,
)
    ensures
        word16(before + bytes16(n) + after, before.len() as int) == Some(n),
        word32(before + bytes32(low) + after, before.len() as int) == Some(low),
        word64(before + bytes32(low) + bytes32(high) + after, before.len() as int) == Some(
            (low + 0x1_0000_0000 * high) as u64,
        ),
        word16(before, before.len() - 1) is None,
        word32(before, before.len() - 3) is None,
        word64(before, before.len() - 7) is None,
{
    let at = before.len() as int;
    let a = before + bytes16(n) + after;
    assert(a[at] == bytes16(n)[0] && a[at + 1] == bytes16(n)[1]);
    let b = before + bytes32(low) + after;
    lemma_word32_at(b, at, low, before, after);
    let c = before + bytes32(low) + bytes32(high) + after;
    lemma_word32_at(c, at, low, before, bytes32(high) + after);
    lemma_word32_at(c, at + 4, high, before + bytes32(low), after);
}

proof fn lemma_word32_at(data: Seq<u8>, at: int, n: u32, before: Seq<u8>, after: Seq<u8>)
    requires
        data =~= before + bytes32(n) + after,
        at == before.len(),
    ensures
        word32(data, at) == Some(n),
{
    let four = bytes32(n);
    assert(data[at] == four[0] && data[at + 1] == four[1]);
    assert(data[at + 2] == four[2] && data[at + 3] == four[3]);
}

/// A pattern of ASCII characters has their codes for its bytes.
pub proof fn law_a_pattern_has_the_codes_of_its_characters(s: Seq<char>, i: int)
    requires
        0 <= i < s.len(),
        (s[i] as u32) < 0x100,
    ensures
        pattern(s).len() == s.len(),
        pattern(s)[i] == s[i] as u32,
{
}

} // verus!
