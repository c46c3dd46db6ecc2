//! Verified manipulation of PNG files at the chunk level.
//!
//! A PNG file is an 8-byte signature followed by a sequence of chunks, each
//! framed as a big-endian length, a 4-byte type code, the payload, and a
//! CRC-32 checksum over the type and payload. This crate models that format,
//! parses and re-serializes it byte-exactly, and proves the round-trip.

use vstd::prelude::*;
use vstd::utf8::decode_utf8;
use vstd::utf8::encode_utf8_decode_utf8;
use vstd::utf8::encode_utf8_valid_utf8;
use vstd::utf8::is_ascii_chars;
use vstd::utf8::is_ascii_chars_encode_utf8;
use vstd::utf8::valid_utf8;

pub mod chunk;
pub mod chunk_type;
pub mod error;
pub mod png;

verus! {

/// Big-endian value of four bytes.
pub open spec fn u32_of_be(b: Seq<u8>) -> int
    recommends
        b.len() == 4,
{
    b[0] * 0x100_0000 + b[1] * 0x1_0000 + b[2] * 0x100 + b[3]
}

/// The four big-endian bytes of a 32-bit value.
pub open spec fn be_of_u32(n: u32) -> Seq<u8> {
    seq![
        (n / 0x100_0000) as u8,
        ((n / 0x1_0000) % 0x100) as u8,
        ((n / 0x100) % 0x100) as u8,
        (n % 0x100) as u8,
    ]
}

/// Reading back the four big-endian bytes of `n` yields `n`.
pub proof fn lemma_be_of_u32_inverse(n: u32)
    ensures
        u32_of_be(be_of_u32(n)) == n,
{
    assert(n / 0x100_0000 * 0x100_0000 + n / 0x1_0000 % 0x100 * 0x1_0000 + n / 0x100 % 0x100
        * 0x100 + n % 0x100 == n) by (bit_vector);
}

/// Reads the big-endian 32-bit value stored at `pos`.
pub fn read_u32_be(buf: &[u8], pos: usize) -> (r: u32)
    requires
        pos + 4 <= buf@.len(),
    ensures
        r == u32_of_be(buf@.subrange(pos as int, pos + 4)),
{
    let b0 = buf[pos] as u32;
    let b1 = buf[pos + 1] as u32;
    let b2 = buf[pos + 2] as u32;
    let b3 = buf[pos + 3] as u32;
    b0 * 0x100_0000 + b1 * 0x1_0000 + b2 * 0x100 + b3
}

/// Appends the four big-endian bytes of `n` to `out`.
pub fn push_u32_be(out: &mut Vec<u8>, n: u32)
    ensures
        final(out)@ == old(out)@ + be_of_u32(n),
{
    out.push((n / 0x100_0000) as u8);
    out.push((n / 0x1_0000 % 0x100) as u8);
    out.push((n / 0x100 % 0x100) as u8);
    out.push((n % 0x100) as u8);
    assert(out@ =~= old(out)@ + be_of_u32(n));
}

/// The characters that a sequence of bytes below 0x80 decodes to.
pub open spec fn chars_of_bytes(b: Seq<u8>) -> Seq<char> {
    b.map(|i: int, c: u8| c as char)
}

/// A sequence of bytes below 0x80 is valid UTF-8 and decodes byte for byte.
pub proof fn lemma_ascii_bytes_decode(b: Seq<u8>)
    requires
        forall|i: int| 0 <= i < b.len() ==> b[i] < 128,
    ensures
        valid_utf8(b),
        decode_utf8(b) == chars_of_bytes(b),
{
    let chars = chars_of_bytes(b);
    assert forall|i: int| 0 <= i < chars.len() implies '\0' <= #[trigger] chars[i]
        <= '\u{7f}' by {
        assert(chars[i] == b[i] as char);
    }
    assert(is_ascii_chars(chars));
    is_ascii_chars_encode_utf8(chars);
    assert(vstd::utf8::encode_utf8(chars) =~= b) by {
        assert forall|i: int| 0 <= i < chars.len() implies #[trigger] vstd::utf8::encode_utf8(
            chars,
        )[i] == b[i] by {
            assert(chars[i] as u8 == vstd::utf8::encode_utf8(chars)[i]);
            assert((b[i] as char) as u8 == b[i]);
        }
    }
    encode_utf8_valid_utf8(chars);
    encode_utf8_decode_utf8(chars);
}

/// The checksum that a chunk over this type code and payload will carry.
pub fn get_crc(chunk_type: chunk_type::ChunkType, chunk_data: Vec<u8>) -> (r: u32)
    requires
        chunk_type.wf(),
    ensures
        r == chunk::crc32_of(chunk_type@ + chunk_data@),
{
    let joined = chunk::type_and_data(&chunk_type, &chunk_data);
    chunk::calculate_crc(joined.as_slice())
}

/// Relies on `String::from_utf8`: it succeeds exactly on valid UTF-8 input
/// and decodes it, as vstd's `valid_utf8` and `decode_utf8` specify.
#[verifier::external_body]
pub(crate) fn utf8_to_string(v: Vec<u8>) -> (r: Option<String>)
    ensures
        r is Some <==> valid_utf8(v@),
        r is Some ==> r.unwrap()@ == decode_utf8(v@),
{
    match String::from_utf8(v) {
        Ok(s) => Some(s),
        Err(_) => None,
    }
}

} // verus!
