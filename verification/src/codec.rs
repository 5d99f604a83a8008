//! The fixed-width integers of the JAM codec, as the services store them.
use vstd::prelude::*;

verus! {

/// The view of an optional stored value.
pub open spec fn entry_view(entry: Option<Vec<u8>>) -> Option<Seq<u8>> {
    match entry {
        Some(v) => Some(v@),
        None => None,
    }
}

/// The number that eight bytes give, read little-endian.
pub open spec fn le_u64_value(b: Seq<u8>) -> nat {
    b[0] as nat + 0x100 * b[1] as nat + 0x1_0000 * b[2] as nat + 0x100_0000 * b[3] as nat
        + 0x1_0000_0000 * b[4] as nat + 0x100_0000_0000 * b[5] as nat + 0x1_0000_0000_0000
        * b[6] as nat + 0x100_0000_0000_0000 * b[7] as nat
}

/// The eight little-endian bytes of a `u64`.
pub open spec fn le_u64_bytes(v: u64) -> Seq<u8> {
    seq![
        (v & 0xff) as u8,
        ((v >> 8) & 0xff) as u8,
        ((v >> 16) & 0xff) as u8,
        ((v >> 24) & 0xff) as u8,
        ((v >> 32) & 0xff) as u8,
        ((v >> 40) & 0xff) as u8,
        ((v >> 48) & 0xff) as u8,
        ((v >> 56) & 0xff) as u8,
    ]
}

/// The number that four bytes give, read little-endian.
pub open spec fn le_u32_value(b: Seq<u8>) -> nat {
    b[0] as nat + 0x100 * b[1] as nat + 0x1_0000 * b[2] as nat + 0x100_0000 * b[3] as nat
}

/// The four little-endian bytes of a `u32`.
pub open spec fn le_u32_bytes(v: u32) -> Seq<u8> {
    seq![
        (v & 0xff) as u8,
        ((v >> 8) & 0xff) as u8,
        ((v >> 16) & 0xff) as u8,
        ((v >> 24) & 0xff) as u8,
    ]
}

/// `Decode for u64` of the JAM codec: it reads the first eight bytes as a
/// little-endian number and fails when there are fewer than eight.
#[verifier::external_body]
pub(crate) fn decode_u64(bytes: &[u8]) -> (value: Option<u64>)
    ensures
        value is Some <==> bytes@.len() >= 8,
        value matches Some(v) ==> v == le_u64_value(bytes@),
{
    <u64 as jam_types::Decode>::decode(&mut &bytes[..]).ok()
}

/// `Encode for u64` of the JAM codec: the eight little-endian bytes.
#[verifier::external_body]
pub(crate) fn encode_u64(value: u64) -> (bytes: Vec<u8>)
    ensures
        bytes@ == le_u64_bytes(value),
{
    jam_types::Encode::encode(&value)
}

/// `Decode for u32` of the JAM codec: it reads the first four bytes as a
/// little-endian number and fails when there are fewer than four.
#[verifier::external_body]
pub(crate) fn decode_u32(bytes: &[u8]) -> (value: Option<u32>)
    ensures
        value is Some <==> bytes@.len() >= 4,
        value matches Some(v) ==> v == le_u32_value(bytes@),
{
    <u32 as jam_types::Decode>::decode(&mut &bytes[..]).ok()
}

/// `Encode for u32` of the JAM codec: the four little-endian bytes.
#[verifier::external_body]
pub(crate) fn encode_u32(value: u32) -> (bytes: Vec<u8>)
    ensures
        bytes@ == le_u32_bytes(value),
{
    jam_types::Encode::encode(&value)
}

/// `Encode for (ServiceId, Balance, Memo)` of the JAM codec: the service as
/// four little-endian bytes, the amount as eight, then the 128 bytes of the
/// memo, which encodes as its array.
#[verifier::external_body]
pub(crate) fn encode_transfer_record(source: u32, amount: u64, memo: [u8; 128]) -> (bytes: Vec<u8>)
    ensures
        bytes@ == le_u32_bytes(source) + le_u64_bytes(amount) + memo@,
{
    jam_types::Encode::encode(&(source, amount, jam_types::Memo(memo)))
}

/// A `u64` written with `Encode` reads back with `Decode` as the same number.
pub proof fn lemma_u64_roundtrip(count: u64)
    ensures
        le_u64_value(le_u64_bytes(count)) == count,
{
    assert(((count & 0xff) as u8) as nat + 0x100 * (((count >> 8) & 0xff) as u8) as nat
        + 0x1_0000 * (((count >> 16) & 0xff) as u8) as nat + 0x100_0000 * (((count >> 24) & 0xff) as u8) as nat
        + 0x1_0000_0000 * (((count >> 32) & 0xff) as u8) as nat + 0x100_0000_0000 * (((count >> 40)
        & 0xff) as u8) as nat + 0x1_0000_0000_0000 * (((count >> 48) & 0xff) as u8) as nat
        + 0x100_0000_0000_0000 * (((count >> 56) & 0xff) as u8) as nat == count) by (bit_vector);
}

/// A `u32` written with `Encode` reads back with `Decode` as the same number.
pub proof fn lemma_u32_roundtrip(count: u32)
    ensures
        le_u32_value(le_u32_bytes(count)) == count,
{
    assert(((count & 0xff) as u8) as nat + 0x100 * (((count >> 8) & 0xff) as u8) as nat
        + 0x1_0000 * (((count >> 16) & 0xff) as u8) as nat + 0x100_0000 * (((count >> 24) & 0xff) as u8) as nat == count) by (bit_vector);
}

} // verus!
