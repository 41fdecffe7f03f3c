//! SCALE encoding of the plain values that the pallets put into calls and
//! account ids, through `parity-scale-codec`.
use vstd::prelude::*;

verus! {

/// The `n` low bytes of `x`, least significant first.
pub open spec fn le_bytes(x: nat, n: nat) -> Seq<u8>
    decreases n,
{
    if n == 0 {
        Seq::empty()
    } else {
        seq![(x % 256) as u8] + le_bytes(x / 256, (n - 1) as nat)
    }
}

/// The SCALE compact encoding of a `u32`: one, two or four bytes holding
/// the value shifted left by two above a two-bit mode, or the mode byte 3
/// followed by the four bytes of the value.
pub open spec fn compact_u32(n: u32) -> Seq<u8> {
    if n < 0x40 {
        seq![(n * 4) as u8]
    } else if n < 0x4000 {
        le_bytes((n * 4 + 1) as nat, 2)
    } else if n < 0x4000_0000 {
        le_bytes((n * 4 + 2) as nat, 4)
    } else {
        seq![3u8] + le_bytes(n as nat, 4)
    }
}

/// The SCALE encoding of a byte vector: its compact length, then its bytes.
pub open spec fn encoded_bytes(v: Seq<u8>) -> Seq<u8> {
    compact_u32(v.len() as u32) + v
}

/// `<u32 as Encode>::encode` of parity-scale-codec: the four bytes of `x`,
/// least significant first.
#[verifier::external_body]
pub(crate) fn encode_u32(x: u32) -> (r: Vec<u8>)
    ensures
        r@ == le_bytes(x as nat, 4),
{
    parity_scale_codec::Encode::encode(&x)
}

/// `<u64 as Encode>::encode` of parity-scale-codec: the eight bytes of `x`,
/// least significant first.
#[verifier::external_body]
pub(crate) fn encode_u64(x: u64) -> (r: Vec<u8>)
    ensures
        r@ == le_bytes(x as nat, 8),
{
    parity_scale_codec::Encode::encode(&x)
}

/// `<Vec<u8> as Encode>::encode` of parity-scale-codec: the compact length,
/// then the bytes. The codec panics on a length beyond `u32::MAX`, which the
/// `requires` leaves out.
#[verifier::external_body]
pub(crate) fn encode_bytes(v: &Vec<u8>) -> (r: Vec<u8>)
    requires
        v.len() <= u32::MAX,
    ensures
        r@ == encoded_bytes(v@),
{
    parity_scale_codec::Encode::encode(v)
}

/// `<u64 as Decode>::decode` of parity-scale-codec on `bytes`: the value of
/// the first eight bytes, least significant first, or `None` when there are
/// fewer than eight.
#[verifier::external_body]
pub(crate) fn decode_u64(bytes: &Vec<u8>) -> (r: Option<u64>)
    ensures
        r is Some <==> bytes.len() >= 8,
        r matches Some(x) ==> le_bytes(x as nat, 8) == bytes@.subrange(0, 8),
{
    <u64 as parity_scale_codec::Decode>::decode(&mut bytes.as_slice()).ok()
}

} // verus!
