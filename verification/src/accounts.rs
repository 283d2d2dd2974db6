//! The accounts of the reward pots, derived from their identifiers.

use vstd::prelude::*;

verus! {

/// The bytes that prefix the identifier of a pallet's account: "modl".
pub open spec fn pallet_prefix() -> Seq<u8> {
    seq![109u8, 111u8, 100u8, 108u8]
}

/// The number that eight bytes stand for, little-endian.
pub open spec fn le_u64(b: Seq<u8>) -> int {
    b[0] + 256 * (b[1] + 256 * (b[2] + 256 * (b[3] + 256 * (b[4] + 256 * (b[5] + 256 * (b[6] + 256
        * b[7] as int) as int) as int) as int) as int) as int)
}

/// The account derived from a pallet identifier: the first eight bytes of "modl" followed by
/// the identifier, read as a little-endian number.
pub open spec fn pallet_account(id: Seq<u8>) -> int {
    le_u64(pallet_prefix() + id)
}

/// Calls `parity_scale_codec::Encode::encode` on the pair of the prefix "modl" and `id`.
/// SCALE encodes a fixed-size byte array as its bytes and a tuple as the concatenation of its
/// parts, so the result is the four prefix bytes followed by the eight bytes of `id`.
#[verifier::external_body]
fn encode_pallet_id(id: [u8; 8]) -> (r: Vec<u8>)
    ensures
        r@ == pallet_prefix() + id@,
{
    parity_scale_codec::Encode::encode(&([109u8, 111u8, 100u8, 108u8], id))
}

/// Calls `parity_scale_codec::Decode::decode` for a `u64` on `bytes`. SCALE encodes a `u64`
/// as its eight bytes in little-endian order; decoding reads the first eight bytes, so with at
/// least eight bytes it cannot fail.
#[verifier::external_body]
fn decode_u64(bytes: &[u8]) -> (r: u64)
    requires
        bytes@.len() >= 8,
    ensures
        r == le_u64(bytes@),
{
    <u64 as parity_scale_codec::Decode>::decode(&mut &bytes[..]).unwrap_or(0)
}

/// The account of a pallet with identifier `id`: the identifier prefixed with "modl",
/// encoded, and decoded into an account id (which keeps the first eight bytes).
pub fn into_account_truncating(id: [u8; 8]) -> (r: u64)
    ensures
        r == pallet_account(id@),
{
    let bytes = encode_pallet_id(id);
    decode_u64(bytes.as_slice())
}

} // verus!
