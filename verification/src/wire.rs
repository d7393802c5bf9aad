//! Little-endian byte-order primitives: the byte image of 32- and 64-bit
//! integers, the two's-complement bridge for signed values, and the exec
//! writers and readers that match them.

use vstd::prelude::*;

verus! {

/// The four little-endian bytes of a 32-bit integer.
#[verifier::opaque]
pub open spec fn u32_le_bytes(v: u32) -> Seq<u8> {
    seq![
        (v as int % 256) as u8,
        (v as int / 256 % 256) as u8,
        (v as int / 65536 % 256) as u8,
        (v as int / 16777216 % 256) as u8,
    ]
}

/// The eight little-endian bytes of a 64-bit integer.
#[verifier::opaque]
pub open spec fn u64_le_bytes(v: u64) -> Seq<u8> {
    seq![
        (v as int % 256) as u8,
        (v as int / 256 % 256) as u8,
        (v as int / 0x1_0000 % 256) as u8,
        (v as int / 0x100_0000 % 256) as u8,
        (v as int / 0x1_0000_0000 % 256) as u8,
        (v as int / 0x100_0000_0000 % 256) as u8,
        (v as int / 0x1_0000_0000_0000 % 256) as u8,
        (v as int / 0x100_0000_0000_0000 % 256) as u8,
    ]
}

/// The two's-complement 64-bit pattern of a signed value.
pub open spec fn u64_of_i64(v: i64) -> u64 {
    if v >= 0 {
        v as u64
    } else {
        (v as int + 0x1_0000_0000_0000_0000) as u64
    }
}

/// The signed value of a two's-complement 64-bit pattern.
pub open spec fn i64_of_u64(v: u64) -> i64 {
    if v < 0x8000_0000_0000_0000 {
        v as i64
    } else {
        (v as int - 0x1_0000_0000_0000_0000) as i64
    }
}

pub open spec fn i64_le_bytes(v: i64) -> Seq<u8> {
    u64_le_bytes(u64_of_i64(v))
}

/// The little-endian value of four bytes.
pub open spec fn u32_from_le(b0: u8, b1: u8, b2: u8, b3: u8) -> u32 {
    (b0 as int + b1 as int * 256 + b2 as int * 65536 + b3 as int * 16777216) as u32
}

/// The little-endian value of eight bytes.
pub open spec fn u64_from_le(b: Seq<u8>) -> u64
    recommends
        b.len() == 8,
{
    (b[0] as int + b[1] as int * 256 + b[2] as int * 0x1_0000 + b[3] as int * 0x100_0000 + b[4]
        as int * 0x1_0000_0000 + b[5] as int * 0x100_0000_0000 + b[6] as int * 0x1_0000_0000_0000
        + b[7] as int * 0x100_0000_0000_0000) as u64
}

pub broadcast proof fn lemma_u32_le_len(v: u32)
    ensures
        #[trigger] u32_le_bytes(v).len() == 4,
{
    reveal(u32_le_bytes);
}

pub broadcast proof fn lemma_u64_le_len(v: u64)
    ensures
        #[trigger] u64_le_bytes(v).len() == 8,
{
    reveal(u64_le_bytes);
}

/// A 32-bit value survives the trip through its little-endian bytes.
pub proof fn lemma_u32_le_round_trip(v: u32)
    ensures
        ({
            let b = u32_le_bytes(v);
            u32_from_le(b[0], b[1], b[2], b[3]) == v
        }),
{
    reveal(u32_le_bytes);
    assert(v == v % 256 + v / 256 % 256 * 256 + v / 65536 % 256 * 65536 + v / 16777216 % 256
        * 16777216) by (bit_vector);
}

/// A 64-bit value survives the trip through its little-endian bytes.
pub proof fn lemma_u64_le_round_trip(v: u64)
    ensures
        u64_from_le(u64_le_bytes(v)) == v,
{
    reveal(u64_le_bytes);
    assert(v == v % 256 + v / 256 % 256 * 256 + v / 0x1_0000 % 256 * 0x1_0000 + v / 0x100_0000
        % 256 * 0x100_0000 + v / 0x1_0000_0000 % 256 * 0x1_0000_0000 + v / 0x100_0000_0000 % 256
        * 0x100_0000_0000 + v / 0x1_0000_0000_0000 % 256 * 0x1_0000_0000_0000
        + v / 0x100_0000_0000_0000 % 256 * 0x100_0000_0000_0000) by (bit_vector);
}

/// A signed 64-bit value survives the trip through its bit pattern.
pub proof fn lemma_i64_round_trip(v: i64)
    ensures
        i64_of_u64(u64_of_i64(v)) == v,
{
}

pub fn push_u32_le(buf: &mut Vec<u8>, v: u32)
    ensures
        final(buf)@ == old(buf)@ + u32_le_bytes(v),
{
    buf.push((v % 256) as u8);
    buf.push((v / 256 % 256) as u8);
    buf.push((v / 65536 % 256) as u8);
    buf.push((v / 16777216 % 256) as u8);
    proof {
        reveal(u32_le_bytes);
        assert(buf@ =~= old(buf)@ + u32_le_bytes(v));
    }
}

pub fn push_u64_le(buf: &mut Vec<u8>, v: u64)
    ensures
        final(buf)@ == old(buf)@ + u64_le_bytes(v),
{
    buf.push((v % 256) as u8);
    buf.push((v / 256 % 256) as u8);
    buf.push((v / 0x1_0000 % 256) as u8);
    buf.push((v / 0x100_0000 % 256) as u8);
    buf.push((v / 0x1_0000_0000 % 256) as u8);
    buf.push((v / 0x100_0000_0000 % 256) as u8);
    buf.push((v / 0x1_0000_0000_0000 % 256) as u8);
    buf.push((v / 0x100_0000_0000_0000 % 256) as u8);
    proof {
        reveal(u64_le_bytes);
        assert(buf@ =~= old(buf)@ + u64_le_bytes(v));
    }
}

/// The two's-complement pattern of a signed value.
pub fn i64_to_u64(v: i64) -> (r: u64)
    ensures
        r == u64_of_i64(v),
{
    if v >= 0 {
        v as u64
    } else {
        ((v as i128) + 0x1_0000_0000_0000_0000i128) as u64
    }
}

/// The signed value of a two's-complement pattern.
pub fn u64_to_i64(v: u64) -> (r: i64)
    ensures
        r == i64_of_u64(v),
{
    if v < 0x8000_0000_0000_0000 {
        v as i64
    } else {
        ((v as i128) - 0x1_0000_0000_0000_0000i128) as i64
    }
}

pub fn push_i64_le(buf: &mut Vec<u8>, v: i64)
    ensures
        final(buf)@ == old(buf)@ + i64_le_bytes(v),
{
    let u = i64_to_u64(v);
    push_u64_le(buf, u);
}

/// Read four little-endian bytes at `off`.
pub fn read_u32_le(bytes: &Vec<u8>, off: usize) -> (r: u32)
    requires
        off + 4 <= bytes.len(),
    ensures
        r == u32_from_le(bytes@[off as int], bytes@[off as int + 1], bytes@[off as int + 2],
            bytes@[off as int + 3]),
{
    let n = bytes.len();
    proof {
        assert(off + 4 <= n);
    }
    let b0 = bytes[off] as u32;
    let b1 = bytes[off + 1] as u32;
    let b2 = bytes[off + 2] as u32;
    let b3 = bytes[off + 3] as u32;
    b0 + b1 * 256 + b2 * 65536 + b3 * 16777216
}

/// Read eight little-endian bytes at `off`.
pub fn read_u64_le(bytes: &Vec<u8>, off: usize) -> (r: u64)
    requires
        off + 8 <= bytes.len(),
    ensures
        r == u64_from_le(bytes@.subrange(off as int, off as int + 8)),
{
    let n = bytes.len();
    proof {
        assert(off + 8 <= n);
    }
    let b0 = bytes[off] as u64;
    let b1 = bytes[off + 1] as u64;
    let b2 = bytes[off + 2] as u64;
    let b3 = bytes[off + 3] as u64;
    let b4 = bytes[off + 4] as u64;
    let b5 = bytes[off + 5] as u64;
    let b6 = bytes[off + 6] as u64;
    let b7 = bytes[off + 7] as u64;
    let r = b0 + b1 * 256 + b2 * 0x1_0000 + b3 * 0x100_0000 + b4 * 0x1_0000_0000 + b5
        * 0x100_0000_0000 + b6 * 0x1_0000_0000_0000 + b7 * 0x100_0000_0000_0000;
    proof {
        let s = bytes@.subrange(off as int, off as int + 8);
        assert(s[0] == bytes@[off as int] && s[1] == bytes@[off as int + 1] && s[2]
            == bytes@[off as int + 2] && s[3] == bytes@[off as int + 3] && s[4]
            == bytes@[off as int + 4] && s[5] == bytes@[off as int + 5] && s[6]
            == bytes@[off as int + 6] && s[7] == bytes@[off as int + 7]);
    }
    r
}

} // verus!
