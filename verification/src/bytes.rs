//! Primitive readers over an in-memory byte sequence: fixed-width big-endian
//! integers and raw 4-byte type tags, each read at an absolute position.
//!
//! A read fails (returns `None`) exactly when fewer bytes remain than
//! requested; the box-tree walker turns that into a parse failure.

use vstd::prelude::*;

verus! {

/// Big-endian value of the two bytes of `d` at `p`.
pub open spec fn be16_at(d: Seq<u8>, p: int) -> u16 {
    (d[p] * 0x100 + d[p + 1]) as u16
}

/// Big-endian value of the four bytes of `d` at `p`.
pub open spec fn be32_at(d: Seq<u8>, p: int) -> u32 {
    (d[p] * 0x100_0000 + d[p + 1] * 0x1_0000 + d[p + 2] * 0x100 + d[p + 3]) as u32
}

/// Big-endian value of the eight bytes of `d` at `p`.
pub open spec fn be64_at(d: Seq<u8>, p: int) -> u64 {
    (d[p] * 0x100_0000_0000_0000
        + d[p + 1] * 0x1_0000_0000_0000
        + d[p + 2] * 0x100_0000_0000
        + d[p + 3] * 0x1_0000_0000
        + d[p + 4] * 0x100_0000
        + d[p + 5] * 0x1_0000
        + d[p + 6] * 0x100
        + d[p + 7]) as u64
}

/// Read one byte at `pos`; `None` when `pos` lies outside `data`.
pub fn read_u8(data: &Vec<u8>, pos: u64) -> (r: Option<u8>)
    ensures
        pos + 1 <= data@.len() ==> r == Some(data@[pos as int]),
        pos + 1 > data@.len() ==> r is None,
{
    if data.len() >= 1 && pos <= (data.len() - 1) as u64 {
        Some(data[pos as usize])
    } else {
        None
    }
}

/// Read a big-endian 16-bit integer at `pos`.
pub fn read_u16(data: &Vec<u8>, pos: u64) -> (r: Option<u16>)
    ensures
        pos + 2 <= data@.len() ==> r == Some(be16_at(data@, pos as int)),
        pos + 2 > data@.len() ==> r is None,
{
    if data.len() >= 2 && pos <= (data.len() - 2) as u64 {
        let p = pos as usize;
        Some((data[p] as u16) * 0x100 + (data[p + 1] as u16))
    } else {
        None
    }
}

/// Read a big-endian 32-bit integer at `pos`.
pub fn read_u32(data: &Vec<u8>, pos: u64) -> (r: Option<u32>)
    ensures
        pos + 4 <= data@.len() ==> r == Some(be32_at(data@, pos as int)),
        pos + 4 > data@.len() ==> r is None,
{
    if data.len() >= 4 && pos <= (data.len() - 4) as u64 {
        let p = pos as usize;
        Some(
            (data[p] as u32) * 0x100_0000 + (data[p + 1] as u32) * 0x1_0000
                + (data[p + 2] as u32) * 0x100 + (data[p + 3] as u32),
        )
    } else {
        None
    }
}

/// Read a big-endian 64-bit integer at `pos` (the extended box size form).
pub fn read_u64(data: &Vec<u8>, pos: u64) -> (r: Option<u64>)
    ensures
        pos + 8 <= data@.len() ==> r == Some(be64_at(data@, pos as int)),
        pos + 8 > data@.len() ==> r is None,
{
    if data.len() >= 8 && pos <= (data.len() - 8) as u64 {
        let p = pos as usize;
        Some(
            (data[p] as u64) * 0x100_0000_0000_0000 + (data[p + 1] as u64) * 0x1_0000_0000_0000
                + (data[p + 2] as u64) * 0x100_0000_0000 + (data[p + 3] as u64) * 0x1_0000_0000
                + (data[p + 4] as u64) * 0x100_0000 + (data[p + 5] as u64) * 0x1_0000
                + (data[p + 6] as u64) * 0x100 + (data[p + 7] as u64),
        )
    } else {
        None
    }
}

/// What `String::from_utf8_lossy` yields on a given byte sequence; the
/// result depends on the bytes alone.
pub uninterp spec fn lossy_of(s: Seq<u8>) -> Seq<char>;

/// Relies on `String::from_utf8_lossy`: the result is a function of the
/// bytes alone, and bytes that form valid UTF-8 decode to exactly the
/// characters they encode.
#[verifier::external_body]
pub(crate) fn utf8_lossy(b: &Vec<u8>) -> (r: String)
    ensures
        r@ == lossy_of(b@),
        vstd::utf8::valid_utf8(b@) ==> r@ == vstd::utf8::decode_utf8(b@),
{
    String::from_utf8_lossy(b).into_owned()
}

/// Read a raw 4-byte type tag at `pos` as text, substituting lossily where
/// the bytes are not valid UTF-8. For display only: the walker compares tags
/// byte-wise, never through this decoding.
pub fn read_type(data: &Vec<u8>, pos: u64) -> (r: Option<String>)
    ensures
        pos + 4 <= data@.len() ==> (r matches Some(s) && s@ == lossy_of(
            data@.subrange(pos as int, pos as int + 4),
        )),
        pos + 4 > data@.len() ==> r is None,
{
    if data.len() >= 4 && pos <= (data.len() - 4) as u64 {
        let p = pos as usize;
        let raw = vec![data[p], data[p + 1], data[p + 2], data[p + 3]];
        proof {
            assert(raw@ =~= data@.subrange(pos as int, pos as int + 4));
        }
        Some(utf8_lossy(&raw))
    } else {
        None
    }
}

} // verus!
