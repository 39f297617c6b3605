//! Little-endian integer encodings, as written and read by borsh.
use vstd::prelude::*;
use borsh::{BorshDeserialize, BorshSerialize};

verus! {

/// The value of eight little-endian bytes.
pub open spec fn le_u64(b: Seq<u8>) -> u64 {
    (b[0] as u64) | (b[1] as u64) << 8 | (b[2] as u64) << 16 | (b[3] as u64) << 24 | (b[4] as u64)
        << 32 | (b[5] as u64) << 40 | (b[6] as u64) << 48 | (b[7] as u64) << 56
}

/// The eight little-endian bytes of a `u64`.
pub open spec fn u64_le_bytes(x: u64) -> Seq<u8> {
    seq![
        (x & 0xff) as u8,
        ((x >> 8) & 0xff) as u8,
        ((x >> 16) & 0xff) as u8,
        ((x >> 24) & 0xff) as u8,
        ((x >> 32) & 0xff) as u8,
        ((x >> 40) & 0xff) as u8,
        ((x >> 48) & 0xff) as u8,
        ((x >> 56) & 0xff) as u8,
    ]
}

/// Reading back the bytes of a `u64` gives the `u64`.
pub proof fn lemma_u64_value_roundtrip(x: u64)
    ensures
        le_u64(u64_le_bytes(x)) == x,
        u64_le_bytes(x).len() == 8,
{
    let b = u64_le_bytes(x);
    let b0 = b[0];
    let b1 = b[1];
    let b2 = b[2];
    let b3 = b[3];
    let b4 = b[4];
    let b5 = b[5];
    let b6 = b[6];
    let b7 = b[7];
    assert((b0 as u64) | (b1 as u64) << 8 | (b2 as u64) << 16 | (b3 as u64) << 24 | (b4 as u64)
        << 32 | (b5 as u64) << 40 | (b6 as u64) << 48 | (b7 as u64) << 56 == x) by (bit_vector)
        requires
            b0 == (x & 0xff) as u8,
            b1 == ((x >> 8) & 0xff) as u8,
            b2 == ((x >> 16) & 0xff) as u8,
            b3 == ((x >> 24) & 0xff) as u8,
            b4 == ((x >> 32) & 0xff) as u8,
            b5 == ((x >> 40) & 0xff) as u8,
            b6 == ((x >> 48) & 0xff) as u8,
            b7 == ((x >> 56) & 0xff) as u8,
    ;
}

/// Writing out the value of eight bytes gives the same bytes.
pub proof fn lemma_u64_bytes_roundtrip(b: Seq<u8>)
    requires
        b.len() == 8,
    ensures
        u64_le_bytes(le_u64(b)) == b,
{
    let x = le_u64(b);
    let b0 = b[0];
    let b1 = b[1];
    let b2 = b[2];
    let b3 = b[3];
    let b4 = b[4];
    let b5 = b[5];
    let b6 = b[6];
    let b7 = b[7];
    assert(b0 == (x & 0xff) as u8 && b1 == ((x >> 8) & 0xff) as u8 && b2 == ((x >> 16) & 0xff) as u8
        && b3 == ((x >> 24) & 0xff) as u8 && b4 == ((x >> 32) & 0xff) as u8 && b5 == ((x >> 40)
        & 0xff) as u8 && b6 == ((x >> 48) & 0xff) as u8 && b7 == ((x >> 56) & 0xff) as u8)
        by (bit_vector)
        requires
            x == (b0 as u64) | (b1 as u64) << 8 | (b2 as u64) << 16 | (b3 as u64) << 24 | (b4 as u64)
                << 32 | (b5 as u64) << 40 | (b6 as u64) << 48 | (b7 as u64) << 56,
    ;
    assert(u64_le_bytes(x) =~= b);
}

/// Reads a `u64` with borsh from the eight bytes of `data` that start at `pos`.
/// Borsh reads an integer as its little-endian bytes (`from_le_bytes`) and, since
/// the slice handed to it holds exactly eight bytes, it succeeds; this item claims
/// the value read is `le_u64` of those bytes.
#[verifier::external_body]
pub(crate) fn borsh_read_u64(data: &[u8], pos: usize) -> (r: Option<u64>)
    requires
        pos + 8 <= data@.len(),
    ensures
        r == Some(le_u64(data@.subrange(pos as int, pos + 8))),
{
    u64::try_from_slice(&data[pos..pos + 8]).ok()
}

/// Serialises a `u64` with borsh. Borsh writes `to_le_bytes` into a fresh vector,
/// which cannot fail; this item claims the vector holds those eight bytes.
#[verifier::external_body]
pub(crate) fn borsh_write_u64(x: u64) -> (r: Vec<u8>)
    ensures
        r@ == u64_le_bytes(x),
{
    match x.try_to_vec() {
        Ok(v) => v,
        Err(_) => Vec::new(),
    }
}

/// The value of four little-endian bytes.
pub open spec fn le_u32(b: Seq<u8>) -> u32 {
    (b[0] as u32) | (b[1] as u32) << 8 | (b[2] as u32) << 16 | (b[3] as u32) << 24
}

/// The four little-endian bytes of a `u32`.
pub open spec fn u32_le_bytes(x: u32) -> Seq<u8> {
    seq![(x & 0xff) as u8, ((x >> 8) & 0xff) as u8, ((x >> 16) & 0xff) as u8, ((x >> 24) & 0xff) as u8]
}

/// Reading back the bytes of a `u32` gives the `u32`.
pub proof fn lemma_u32_value_roundtrip(x: u32)
    ensures
        le_u32(u32_le_bytes(x)) == x,
        u32_le_bytes(x).len() == 4,
{
    let b = u32_le_bytes(x);
    let b0 = b[0];
    let b1 = b[1];
    let b2 = b[2];
    let b3 = b[3];
    assert((b0 as u32) | (b1 as u32) << 8 | (b2 as u32) << 16 | (b3 as u32) << 24 == x)
        by (bit_vector)
        requires
            b0 == (x & 0xff) as u8,
            b1 == ((x >> 8) & 0xff) as u8,
            b2 == ((x >> 16) & 0xff) as u8,
            b3 == ((x >> 24) & 0xff) as u8,
    ;
}

/// Writing out the value of four bytes gives the same bytes.
pub proof fn lemma_u32_bytes_roundtrip(b: Seq<u8>)
    requires
        b.len() == 4,
    ensures
        u32_le_bytes(le_u32(b)) == b,
{
    let x = le_u32(b);
    let b0 = b[0];
    let b1 = b[1];
    let b2 = b[2];
    let b3 = b[3];
    assert(b0 == (x & 0xff) as u8 && b1 == ((x >> 8) & 0xff) as u8 && b2 == ((x >> 16) & 0xff) as u8
        && b3 == ((x >> 24) & 0xff) as u8) by (bit_vector)
        requires
            x == (b0 as u32) | (b1 as u32) << 8 | (b2 as u32) << 16 | (b3 as u32) << 24,
    ;
    assert(u32_le_bytes(x) =~= b);
}

/// Reads a `u32` with borsh from the four bytes of `data` that start at `pos`;
/// as for `borsh_read_u64`, this item claims the value is `le_u32` of those bytes.
#[verifier::external_body]
pub(crate) fn borsh_read_u32(data: &[u8], pos: usize) -> (r: Option<u32>)
    requires
        pos + 4 <= data@.len(),
    ensures
        r == Some(le_u32(data@.subrange(pos as int, pos + 4))),
{
    u32::try_from_slice(&data[pos..pos + 4]).ok()
}

/// Serialises a `u32` with borsh; this item claims the result is its four
/// little-endian bytes.
#[verifier::external_body]
pub(crate) fn borsh_write_u32(x: u32) -> (r: Vec<u8>)
    ensures
        r@ == u32_le_bytes(x),
{
    match x.try_to_vec() {
        Ok(v) => v,
        Err(_) => Vec::new(),
    }
}

/// Reads a 32-byte array with borsh from the bytes of `data` that start at `pos`.
/// Borsh reads a byte array as the bytes themselves (`read_exact`); this item
/// claims the array equals those 32 bytes.
#[verifier::external_body]
pub(crate) fn borsh_read_key(data: &[u8], pos: usize) -> (r: Option<[u8; 32]>)
    requires
        pos + 32 <= data@.len(),
    ensures
        r is Some,
        r.unwrap()@ == data@.subrange(pos as int, pos + 32),
{
    <[u8; 32]>::try_from_slice(&data[pos..pos + 32]).ok()
}

/// Serialises a 32-byte array with borsh, which writes the bytes as they stand;
/// this item claims the vector holds exactly those bytes.
#[verifier::external_body]
pub(crate) fn borsh_write_key(k: &[u8; 32]) -> (r: Vec<u8>)
    ensures
        r@ == k@,
{
    match k.try_to_vec() {
        Ok(v) => v,
        Err(_) => Vec::new(),
    }
}

} // verus!
