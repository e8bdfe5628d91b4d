//! The primitives of the record format: big-endian integers, the CRC-32
//! checksum and UTF-8 keys.
//!
//! The executable functions here stand on `byteorder`, `crc32fast` and the
//! standard library; their contracts are taken on trust and everything else in
//! the crate is proved from them.

use byteorder::{BigEndian, ByteOrder};
use std::string::FromUtf8Error;
use vstd::prelude::*;
use vstd::utf8::*;

verus! {

/// The two bytes of `n`, most significant first.
pub open spec fn be_bytes_u16(n: u16) -> Seq<u8> {
    seq![(n / 0x100) as u8, (n % 0x100) as u8]
}

/// The four bytes of `n`, most significant first.
pub open spec fn be_bytes_u32(n: u32) -> Seq<u8> {
    seq![
        (n / 0x100_0000) as u8,
        ((n / 0x1_0000) % 0x100) as u8,
        ((n / 0x100) % 0x100) as u8,
        (n % 0x100) as u8,
    ]
}

/// The number that the first two bytes of `b` spell, most significant first.
pub open spec fn be_value_u16(b: Seq<u8>) -> u16 {
    (b[0] * 0x100 + b[1]) as u16
}

/// The number that the first four bytes of `b` spell, most significant first.
pub open spec fn be_value_u32(b: Seq<u8>) -> u32 {
    (b[0] * 0x100_0000 + b[1] * 0x1_0000 + b[2] * 0x100 + b[3]) as u32
}

/// Reading back what was written gives the number.
pub proof fn lemma_be_u16_value_of_bytes(n: u16)
    ensures
        be_bytes_u16(n).len() == 2,
        be_value_u16(be_bytes_u16(n)) == n,
{
}

/// Writing what was read gives the two bytes.
pub proof fn lemma_be_u16_bytes_of_value(b: Seq<u8>)
    requires
        b.len() >= 2,
    ensures
        be_bytes_u16(be_value_u16(b)) == b.subrange(0, 2),
{
    assert(be_bytes_u16(be_value_u16(b)) =~= b.subrange(0, 2));
}

/// Reading back what was written gives the number.
pub proof fn lemma_be_u32_value_of_bytes(n: u32)
    ensures
        be_bytes_u32(n).len() == 4,
        be_value_u32(be_bytes_u32(n)) == n,
{
}

/// Writing what was read gives the four bytes.
pub proof fn lemma_be_u32_bytes_of_value(b: Seq<u8>)
    requires
        b.len() >= 4,
    ensures
        be_bytes_u32(be_value_u32(b)) == b.subrange(0, 4),
{
    let (b0, b1, b2, b3) = (b[0] as int, b[1] as int, b[2] as int, b[3] as int);
    let lo2 = b2 * 0x100 + b3;
    let lo3 = b1 * 0x1_0000 + lo2;
    let v = b0 * 0x100_0000 + lo3;
    assert(lo2 % 0x100 == b3 && lo2 / 0x100 == b2);
    assert(lo3 % 0x100 == b3 && lo3 / 0x100 == b1 * 0x100 + b2);
    assert((lo3 / 0x100) % 0x100 == b2 && lo3 / 0x1_0000 == b1);
    assert(v % 0x100 == b3 && v / 0x100 == b0 * 0x1_0000 + b1 * 0x100 + b2);
    assert((v / 0x100) % 0x100 == b2 && v / 0x1_0000 == b0 * 0x100 + b1);
    assert((v / 0x1_0000) % 0x100 == b1 && v / 0x100_0000 == b0);
    assert(be_value_u32(b) == v);
    assert(be_bytes_u32(be_value_u32(b)) =~= b.subrange(0, 4));
}

/// `byteorder::BigEndian::read_u16`: the number spelled by the first two bytes
/// of `buf`. The call panics on a shorter buffer, which `requires` rules out.
#[verifier::external_body]
pub(crate) fn read_u16_be(buf: &[u8]) -> (n: u16)
    requires
        buf@.len() >= 2,
    ensures
        n == be_value_u16(buf@),
{
    BigEndian::read_u16(buf)
}

/// `byteorder::BigEndian::read_u32`: the number spelled by the first four
/// bytes of `buf`. The call panics on a shorter buffer, which `requires` rules
/// out.
#[verifier::external_body]
pub(crate) fn read_u32_be(buf: &[u8]) -> (n: u32)
    requires
        buf@.len() >= 4,
    ensures
        n == be_value_u32(buf@),
{
    BigEndian::read_u32(buf)
}

/// `byteorder::BigEndian::write_u16` into a fresh two-byte buffer: the bytes
/// of `n`, most significant first.
#[verifier::external_body]
pub(crate) fn write_u16_be(n: u16) -> (out: [u8; 2])
    ensures
        out@ == be_bytes_u16(n),
{
    let mut out = [0u8; 2];
    BigEndian::write_u16(&mut out, n);
    out
}

/// `byteorder::BigEndian::write_u32` into a fresh four-byte buffer: the bytes
/// of `n`, most significant first.
#[verifier::external_body]
pub(crate) fn write_u32_be(n: u32) -> (out: [u8; 4])
    ensures
        out@ == be_bytes_u32(n),
{
    let mut out = [0u8; 4];
    BigEndian::write_u32(&mut out, n);
    out
}

/// The CRC-32 (IEEE) checksum of a byte sequence, as `crc32fast` computes it.
pub uninterp spec fn crc32(bytes: Seq<u8>) -> u32;

/// `crc32fast::hash`: the CRC-32 checksum of `bytes`, which depends on the
/// bytes alone.
#[verifier::external_body]
pub(crate) fn crc32_of(bytes: &[u8]) -> (sum: u32)
    ensures
        sum == crc32(bytes@),
{
    crc32fast::hash(bytes)
}

/// `std::string::FromUtf8Error`, the error of `String::from_utf8`: carried
/// through as it is, nothing is known of what it holds.
#[verifier::external_type_specification]
#[verifier::external_body]
pub struct ExFromUtf8Error(FromUtf8Error);

/// `String::from_utf8` succeeds exactly on valid UTF-8, and the string it
/// returns is then made of the very bytes it was given.
pub assume_specification[ String::from_utf8 ](vec: Vec<u8>) -> (res: Result<String, FromUtf8Error>)
    ensures
        res is Ok <==> valid_utf8(vec@),
        res matches Ok(s) ==> encode_utf8(s@) == vec@,
;

} // verus!
