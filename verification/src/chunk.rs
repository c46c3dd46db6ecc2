//! One length-prefixed, checksummed PNG data chunk.

use vstd::prelude::*;
use vstd::slice::slice_subrange;
use vstd::slice::slice_to_vec;
use vstd::utf8::decode_utf8;
use vstd::utf8::valid_utf8;

use crate::be_of_u32;
use crate::chunk_type::all_letters;
use crate::chunk_type::ChunkType;
use crate::error::PngError;
use crate::lemma_be_of_u32_inverse;
use crate::push_u32_be;
use crate::read_u32_be;
use crate::u32_of_be;
use crate::utf8_to_string;

verus! {

/// The CRC-32 checksum (ISO-HDLC polynomial, the one PNG uses) of a byte
/// sequence, as the crc crate computes it.
pub uninterp spec fn crc32_of(bytes: Seq<u8>) -> u32;

/// Relies on crc's `Crc::<u32>::checksum` with the `CRC_32_ISO_HDLC`
/// algorithm: the checksum is a function of the input bytes alone.
#[verifier::external_body]
fn crc32_checksum(val: &[u8]) -> (r: u32)
    ensures
        r == crc32_of(val@),
{
    crc::Crc::<u32>::new(&crc::CRC_32_ISO_HDLC).checksum(val)
}

/// The CRC-32 checksum used by the PNG chunk framing.
pub fn calculate_crc(val: &[u8]) -> (r: u32)
    ensures
        r == crc32_of(val@),
{
    crc32_checksum(val)
}

/// The mathematical content of one chunk.
#[verifier::ext_equal]
pub struct ChunkView {
    pub length: u32,
    pub ctype: Seq<u8>,
    pub data: Seq<u8>,
    pub crc: u32,
}

impl ChunkView {
    /// A declared length matching the data, a 4-letter type code, and a
    /// checksum over the type bytes followed by the data.
    pub open spec fn wf(self) -> bool {
        &&& self.ctype.len() == 4
        &&& all_letters(self.ctype)
        &&& self.data.len() == self.length
        &&& self.crc == crc32_of(self.ctype + self.data)
    }

    /// The wire form: big-endian length, type, data, big-endian checksum.
    pub open spec fn serial(self) -> Seq<u8> {
        be_of_u32(self.length) + self.ctype + self.data + be_of_u32(self.crc)
    }
}

/// The buffer begins with a whole frame: 12 framing bytes plus as many
/// data bytes as the length field declares.
pub open spec fn front_framing_ok(b: Seq<u8>) -> bool {
    b.len() >= 12 && u32_of_be(b.subrange(0, 4)) + 12 <= b.len()
}

/// The checksum stored at the end of the frame at the front of `b`.
pub open spec fn front_stored_crc(b: Seq<u8>) -> int {
    let n = u32_of_be(b.subrange(0, 4));
    u32_of_be(b.subrange(8 + n, 12 + n))
}

/// A well-formed chunk stands at the front of `b`.
pub open spec fn valid_chunk_front(b: Seq<u8>) -> bool {
    &&& front_framing_ok(b)
    &&& all_letters(b.subrange(4, 8))
    &&& front_stored_crc(b) == crc32_of(b.subrange(4, 8 + u32_of_be(b.subrange(0, 4))))
}

/// The chunk at the front of `b`; meaningful when `valid_chunk_front(b)`.
pub open spec fn chunk_front(b: Seq<u8>) -> ChunkView {
    let n = u32_of_be(b.subrange(0, 4));
    ChunkView {
        length: n as u32,
        ctype: b.subrange(4, 8),
        data: b.subrange(8, 8 + n),
        crc: front_stored_crc(b) as u32,
    }
}

/// The error reported when no chunk stands at the front of `b`: a bad type
/// code inside intact framing is its own kind, all else is a parse error.
pub open spec fn front_error(b: Seq<u8>) -> PngError {
    if front_framing_ok(b) && !all_letters(b.subrange(4, 8)) {
        PngError::InvalidChunkType
    } else {
        PngError::ChunkParseError
    }
}

/// One PNG data chunk: a type code, a payload, and the payload's length and
/// CRC-32 checksum as the wire format stores them.
#[derive(Debug)]
pub struct Chunk {
    len: u32,
    chunk_type: ChunkType,
    chunk_data: Vec<u8>,
    crc: u32,
}

impl View for Chunk {
    type V = ChunkView;

    closed spec fn view(&self) -> ChunkView {
        ChunkView {
            length: self.len,
            ctype: self.chunk_type@,
            data: self.chunk_data@,
            crc: self.crc,
        }
    }
}

impl Chunk {
    /// The stored length, type, and checksum agree with the payload.
    pub open spec fn wf(self) -> bool {
        self@.wf()
    }

    /// Builds a chunk over `data`, computing its length and checksum.
    pub fn new(chunk_type: ChunkType, data: Vec<u8>) -> (r: Chunk)
        requires
            chunk_type.wf(),
            data@.len() <= u32::MAX,
        ensures
            r@ == (ChunkView {
                length: data@.len() as u32,
                ctype: chunk_type@,
                data: data@,
                crc: crc32_of(chunk_type@ + data@),
            }),
            r.wf(),
    {
        let joined = type_and_data(&chunk_type, &data);
        let crc = calculate_crc(joined.as_slice());
        let r = Chunk { len: data.len() as u32, chunk_type, chunk_data: data, crc };
        proof {
            assert(r@ =~= (ChunkView {
                length: r.chunk_data@.len() as u32,
                ctype: r.chunk_type@,
                data: r.chunk_data@,
                crc: crc32_of(r.chunk_type@ + r.chunk_data@),
            }));
        }
        r
    }

    /// The byte count of the payload.
    pub fn length(&self) -> (r: u32)
        ensures
            r == self@.length,
    {
        self.len
    }

    /// The chunk's type code.
    pub fn chunk_type(&self) -> (r: &ChunkType)
        ensures
            r@ == self@.ctype,
    {
        &self.chunk_type
    }

    /// The payload bytes.
    pub fn data(&self) -> (r: &[u8])
        ensures
            r@ == self@.data,
    {
        self.chunk_data.as_slice()
    }

    /// The stored checksum.
    pub fn crc(&self) -> (r: u32)
        ensures
            r == self@.crc,
    {
        self.crc
    }

    /// The payload decoded as UTF-8 text; fails exactly when the payload is
    /// not valid UTF-8.
    pub fn data_as_string(&self) -> (r: Result<String, PngError>)
        ensures
            r is Ok <==> valid_utf8(self@.data),
            r matches Ok(s) ==> s@ == decode_utf8(self@.data),
            r matches Err(e) ==> e == PngError::TextDecodeError,
    {
        let v = slice_to_vec(self.chunk_data.as_slice());
        match utf8_to_string(v) {
            Some(s) => Ok(s),
            None => Err(PngError::TextDecodeError),
        }
    }

    /// The wire form of the chunk.
    pub fn as_bytes(&self) -> (r: Vec<u8>)
        ensures
            r@ == self@.serial(),
    {
        let mut out: Vec<u8> = Vec::new();
        push_u32_be(&mut out, self.len);
        let tb = self.chunk_type.bytes();
        out.push(tb[0]);
        out.push(tb[1]);
        out.push(tb[2]);
        out.push(tb[3]);
        proof {
            assert(out@ =~= be_of_u32(self@.length) + self@.ctype + self@.data.subrange(0, 0));
        }
        let mut i: usize = 0;
        while i < self.chunk_data.len()
            invariant
                i <= self@.data.len(),
                out@ == be_of_u32(self@.length) + self@.ctype + self@.data.subrange(0, i as int),
            decreases self@.data.len() - i,
        {
            out.push(self.chunk_data[i]);
            i += 1;
            proof {
                assert(out@ =~= be_of_u32(self@.length) + self@.ctype + self@.data.subrange(
                    0,
                    i as int,
                ));
            }
        }
        proof {
            assert(self@.data.subrange(0, self@.data.len() as int) =~= self@.data);
        }
        push_u32_be(&mut out, self.crc);
        proof {
            assert(out@ =~= self@.serial());
        }
        out
    }

    /// Parses the chunk that starts at `pos`, returning it and the position
    /// of the first byte after it.
    pub fn read(buf: &[u8], pos: usize) -> (r: Result<(Chunk, usize), PngError>)
        requires
            pos <= buf@.len(),
        ensures
            r is Ok <==> valid_chunk_front(buf@.skip(pos as int)),
            r matches Ok((c, end)) ==> c@ == chunk_front(buf@.skip(pos as int)) && c.wf() && end
                == pos + 12 + c@.length && end <= buf@.len(),
            r matches Err(e) ==> e == front_error(buf@.skip(pos as int)),
    {
        let ghost b = buf@.skip(pos as int);
        let rem = buf.len() - pos;
        if rem < 12 {
            return Err(PngError::ChunkParseError);
        }
        let n = read_u32_be(buf, pos);
        proof {
            assert(buf@.subrange(pos as int, pos + 4) =~= b.subrange(0, 4));
        }
        if (n as usize) > rem - 12 {
            return Err(PngError::ChunkParseError);
        }
        let n_us = n as usize;
        let type_arr = [buf[pos + 4], buf[pos + 5], buf[pos + 6], buf[pos + 7]];
        proof {
            assert(type_arr@ =~= b.subrange(4, 8));
        }
        let ct = match ChunkType::try_from(type_arr) {
            Ok(t) => t,
            Err(_) => {
                return Err(PngError::InvalidChunkType);
            },
        };
        let data_slice = slice_subrange(buf, pos + 8, pos + 8 + n_us);
        let data = slice_to_vec(data_slice);
        let stored = read_u32_be(buf, pos + 8 + n_us);
        let computed = calculate_crc(slice_subrange(buf, pos + 4, pos + 8 + n_us));
        proof {
            assert(buf@.subrange(pos + 8 + n_us, pos + 8 + n_us + 4) =~= b.subrange(
                8 + n as int,
                12 + n as int,
            ));
            assert(buf@.subrange(pos + 4, pos + 8 + n_us) =~= b.subrange(4, 8 + n as int));
        }
        if stored != computed {
            return Err(PngError::ChunkParseError);
        }
        let c = Chunk { len: n, chunk_type: ct, chunk_data: data, crc: stored };
        proof {
            assert(buf@.subrange(pos + 8, pos + 8 + n_us) =~= b.subrange(8, 8 + n as int));
            assert(b.subrange(4, 8 + n as int) =~= b.subrange(4, 8) + b.subrange(8, 8 + n as int));
            assert(c@ =~= chunk_front(b));
        }
        Ok((c, pos + 12 + n_us))
    }

    /// Parses one chunk from the front of the slice; bytes after the frame
    /// are left for the caller.
    pub fn try_from(value: &[u8]) -> (r: Result<Chunk, PngError>)
        ensures
            r is Ok <==> valid_chunk_front(value@),
            r matches Ok(c) ==> c@ == chunk_front(value@) && c.wf(),
            r matches Err(e) ==> e == front_error(value@),
    {
        proof {
            assert(value@.skip(0) =~= value@);
        }
        match Chunk::read(value, 0) {
            Ok((c, _)) => Ok(c),
            Err(e) => Err(e),
        }
    }
}

/// The type bytes followed by the payload: the input of the checksum.
pub(crate) fn type_and_data(chunk_type: &ChunkType, data: &Vec<u8>) -> (r: Vec<u8>)
    requires
        chunk_type.wf(),
    ensures
        r@ == chunk_type@ + data@,
{
    let tb = chunk_type.bytes();
    let mut r: Vec<u8> = Vec::new();
    r.push(tb[0]);
    r.push(tb[1]);
    r.push(tb[2]);
    r.push(tb[3]);
    proof {
        assert(r@ =~= chunk_type@ + data@.subrange(0, 0));
    }
    let mut i: usize = 0;
    while i < data.len()
        invariant
            i <= data@.len(),
            r@ == chunk_type@ + data@.subrange(0, i as int),
        decreases data@.len() - i,
    {
        r.push(data[i]);
        i += 1;
        proof {
            assert(r@ =~= chunk_type@ + data@.subrange(0, i as int));
        }
    }
    proof {
        assert(data@.subrange(0, data@.len() as int) =~= data@);
    }
    r
}

/// Reads the big-endian 32-bit value at the front of the slice; fails
/// exactly when fewer than 4 bytes are there.
pub fn buffer_u32(val: &[u8]) -> (r: Result<u32, ()>)
    ensures
        r is Ok <==> val@.len() >= 4,
        r matches Ok(n) ==> n == u32_of_be(val@.subrange(0, 4)),
{
    if val.len() >= 4 {
        Ok(read_u32_be(val, 0))
    } else {
        Err(())
    }
}

/// A serialized well-formed chunk, followed by anything, parses back to
/// itself, consuming exactly its own bytes.
pub proof fn lemma_chunk_serial_parses(c: ChunkView, rest: Seq<u8>)
    requires
        c.wf(),
    ensures
        valid_chunk_front(c.serial() + rest),
        chunk_front(c.serial() + rest) == c,
        (c.serial() + rest).skip(12 + c.length as int) == rest,
        c.serial().len() == 12 + c.length,
{
    let b = c.serial() + rest;
    lemma_be_of_u32_inverse(c.length);
    lemma_be_of_u32_inverse(c.crc);
    assert(b.subrange(0, 4) =~= be_of_u32(c.length));
    let n = u32_of_be(b.subrange(0, 4));
    assert(n == c.length);
    assert(b.subrange(4, 8) =~= c.ctype);
    assert(b.subrange(8, 8 + n) =~= c.data);
    assert(b.subrange(8 + n, 12 + n) =~= be_of_u32(c.crc));
    assert(b.subrange(4, 8 + n) =~= c.ctype + c.data);
    assert(b.skip(12 + c.length as int) =~= rest);
    assert(chunk_front(b) =~= c);
}

/// Parsing the serialization of a well-formed chunk yields it back.
pub proof fn lemma_chunk_round_trip(c: ChunkView)
    requires
        c.wf(),
    ensures
        valid_chunk_front(c.serial()),
        chunk_front(c.serial()) == c,
{
    lemma_chunk_serial_parses(c, Seq::empty());
    assert(c.serial() + Seq::<u8>::empty() =~= c.serial());
}

} // verus!
