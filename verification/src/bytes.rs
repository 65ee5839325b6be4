//! Four-byte little-endian numbers, as the database stores them.
use vstd::prelude::*;

verus! {

/// The four bytes of `n`, least significant first.
pub open spec fn le_bytes(n: nat) -> Seq<u8> {
    seq![
        (n % 256) as u8,
        ((n / 256) % 256) as u8,
        ((n / 65536) % 256) as u8,
        ((n / 16777216) % 256) as u8,
    ]
}

/// The number whose bytes, least significant first, are the first four of `b`.
pub open spec fn le_value(b: Seq<u8>) -> nat {
    (b[0] as nat) + 256 * (b[1] as nat) + 65536 * (b[2] as nat) + 16777216 * (b[3] as nat)
}

/// The unsigned number with the bit pattern of `n` in two's complement.
pub open spec fn to_unsigned(n: i32) -> nat {
    if n >= 0 {
        n as nat
    } else {
        (n + 0x1_0000_0000) as nat
    }
}

/// The signed number with the bit pattern of `n` in two's complement.
pub open spec fn to_signed(n: nat) -> i32 {
    if n < 0x8000_0000 {
        n as i32
    } else {
        (n - 0x1_0000_0000) as i32
    }
}

/// Bytes of an unsigned number in the database.
pub open spec fn u32_bytes(n: u32) -> Seq<u8> {
    le_bytes(n as nat)
}

/// Bytes of a signed number in the database.
pub open spec fn i32_bytes(n: i32) -> Seq<u8> {
    le_bytes(to_unsigned(n))
}

/// Bytes of a character in the database: those of its scalar value.
pub open spec fn char_bytes(c: char) -> Seq<u8> {
    le_bytes(c as u32 as nat)
}

/// `zerocopy::byteorder::U32::<LittleEndian>::new` followed by `to_bytes`:
/// the stored bytes of a little-endian `U32` are those of `u32::to_le_bytes`,
/// the least significant byte first.
#[verifier::external_body]
pub(crate) fn u32_to_le(n: u32) -> (r: [u8; 4])
    ensures
        r@ == le_bytes(n as nat),
{
    zerocopy::byteorder::U32::<zerocopy::byteorder::LittleEndian>::new(n).to_bytes()
}

/// `zerocopy::byteorder::I32::<LittleEndian>::new` followed by `to_bytes`:
/// the stored bytes of a little-endian `I32` are those of `i32::to_le_bytes`,
/// the two's complement pattern with the least significant byte first.
#[verifier::external_body]
pub(crate) fn i32_to_le(n: i32) -> (r: [u8; 4])
    ensures
        r@ == le_bytes(to_unsigned(n)),
{
    zerocopy::byteorder::I32::<zerocopy::byteorder::LittleEndian>::new(n).to_bytes()
}

/// `zerocopy::byteorder::U32::<LittleEndian>::from_bytes` followed by `get`:
/// the number that `u32::from_le_bytes` reads from the four bytes.
#[verifier::external_body]
pub(crate) fn u32_from_le(b: [u8; 4]) -> (n: u32)
    ensures
        n as nat == le_value(b@),
{
    zerocopy::byteorder::U32::<zerocopy::byteorder::LittleEndian>::from_bytes(b).get()
}

/// `zerocopy::byteorder::I32::<LittleEndian>::from_bytes` followed by `get`:
/// the number that `i32::from_le_bytes` reads from the four bytes, taken as a
/// two's complement pattern.
#[verifier::external_body]
pub(crate) fn i32_from_le(b: [u8; 4]) -> (n: i32)
    ensures
        n == to_signed(le_value(b@)),
{
    zerocopy::byteorder::I32::<zerocopy::byteorder::LittleEndian>::from_bytes(b).get()
}

/// `char::from_u32`: the character with scalar value `n`, where there is one.
/// Scalar values are the code points up to 0x10FFFF that are no surrogates.
#[verifier::external_body]
pub(crate) fn char_of(n: u32) -> (r: Option<char>)
    ensures
        r is Some <==> is_scalar_value(n as nat),
        r matches Some(c) ==> c as u32 == n,
{
    char::from_u32(n)
}

/// `n` is the scalar value of a character.
pub open spec fn is_scalar_value(n: nat) -> bool {
    n <= 0xD7FF || 0xE000 <= n <= 0x10FFFF
}

/// Reading back the bytes of a number gives the number.
pub proof fn lemma_le_value_of_bytes(n: nat)
    requires
        n < 0x1_0000_0000,
    ensures
        le_bytes(n).len() == 4,
        le_value(le_bytes(n)) == n,
{
}

/// A signed number survives the passage through its bit pattern.
pub proof fn lemma_signed_round_trip(n: i32)
    ensures
        to_unsigned(n) < 0x1_0000_0000,
        to_signed(to_unsigned(n)) == n,
{
}

} // verus!
