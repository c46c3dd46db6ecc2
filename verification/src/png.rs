//! The PNG container: a fixed signature followed by an ordered chunk
//! sequence, with byte-exact parsing and serialization.

use vstd::prelude::*;

use crate::chars_of_bytes;
use crate::chunk::chunk_front;
use crate::chunk::front_error;
use crate::chunk::lemma_chunk_serial_parses;
use crate::chunk::valid_chunk_front;
use crate::chunk::Chunk;
use crate::chunk::ChunkView;
use crate::chunk_type::ChunkType;
use crate::error::PngError;
use vstd::string::StrSliceExecFns;

verus! {

/// The canonical 8-byte PNG signature.
pub open spec fn png_sig() -> Seq<u8> {
    seq![137u8, 80u8, 78u8, 71u8, 13u8, 10u8, 26u8, 10u8]
}

/// The concatenation of the wire forms of the chunks, in order.
pub open spec fn chunks_serial(s: Seq<ChunkView>) -> Seq<u8>
    decreases s.len(),
{
    if s.len() == 0 {
        Seq::empty()
    } else {
        s[0].serial() + chunks_serial(s.drop_first())
    }
}

/// The wire form of a whole file: the signature, then every chunk.
pub open spec fn png_serial(s: Seq<ChunkView>) -> Seq<u8> {
    png_sig() + chunks_serial(s)
}

/// Splits `b` into consecutive chunks until it is exhausted; the error of
/// the first chunk that fails otherwise.
pub open spec fn parse_chunks(b: Seq<u8>) -> Result<Seq<ChunkView>, PngError>
    decreases b.len(),
{
    if b.len() == 0 {
        Ok(Seq::empty())
    } else if valid_chunk_front(b) {
        match parse_chunks(b.skip(12 + chunk_front(b).length as int)) {
            Ok(s) => Ok(seq![chunk_front(b)] + s),
            Err(e) => Err(e),
        }
    } else {
        Err(front_error(b))
    }
}

/// The whole-buffer result once `acc` has been parsed and `b` remains.
pub open spec fn parse_rest(acc: Seq<ChunkView>, b: Seq<u8>) -> Result<
    Seq<ChunkView>,
    PngError,
> {
    match parse_chunks(b) {
        Ok(s) => Ok(acc + s),
        Err(e) => Err(e),
    }
}

/// The type code's text rendering equals the given text.
pub open spec fn text_matches(ct: Seq<u8>, t: Seq<char>) -> bool {
    chars_of_bytes(ct) == t
}

/// Some chunk in the sequence has the given type text.
pub open spec fn has_match(s: Seq<ChunkView>, t: Seq<char>) -> bool {
    exists|i: int| 0 <= i < s.len() && text_matches(#[trigger] s[i].ctype, t)
}

/// An ordered sequence of chunks behind the fixed signature.
#[derive(Debug)]
pub struct Png {
    chunks: Vec<Chunk>,
}

impl View for Png {
    type V = Seq<ChunkView>;

    closed spec fn view(&self) -> Seq<ChunkView> {
        self.chunks@.map_values(|c: Chunk| c@)
    }
}

impl Png {
    /// Every held chunk is internally consistent.
    pub open spec fn wf(self) -> bool {
        forall|i: int| 0 <= i < self@.len() ==> (#[trigger] self@[i]).wf()
    }

    /// An empty container: the signature and no chunks.
    pub fn new() -> (r: Png)
        ensures
            r@ == Seq::<ChunkView>::empty(),
            r.wf(),
    {
        let r = Png { chunks: Vec::new() };
        proof {
            assert(r@ =~= Seq::<ChunkView>::empty());
        }
        r
    }

    /// Parses a whole file: the signature, then chunks until the buffer is
    /// exhausted. Any chunk-level failure fails the whole parse.
    pub fn try_from(buf: &[u8]) -> (r: Result<Png, PngError>)
        ensures
            r is Ok <==> (buf@.len() >= 8 && buf@.subrange(0, 8) == png_sig() && parse_chunks(
                buf@.skip(8),
            ) is Ok),
            r matches Ok(p) ==> p@ == parse_chunks(buf@.skip(8))->Ok_0 && p.wf(),
            r matches Err(e) ==> e == (if buf@.len() < 8 || buf@.subrange(0, 8) != png_sig() {
                PngError::InvalidSignature
            } else {
                parse_chunks(buf@.skip(8))->Err_0
            }),
    {
        if buf.len() < 8 {
            return Err(PngError::InvalidSignature);
        }
        let sig = signature_bytes();
        let mut k: usize = 0;
        while k < 8
            invariant
                0 <= k <= 8,
                buf@.len() >= 8,
                sig@ == png_sig(),
                forall|j: int| 0 <= j < k ==> buf@[j] == png_sig()[j],
            decreases 8 - k,
        {
            if buf[k] != sig[k] {
                proof {
                    assert(buf@.subrange(0, 8)[k as int] != png_sig()[k as int]);
                }
                return Err(PngError::InvalidSignature);
            }
            k += 1;
        }
        proof {
            assert(buf@.subrange(0, 8) =~= png_sig());
        }
        let mut chunks: Vec<Chunk> = Vec::new();
        let mut pos: usize = 8;
        proof {
            assert(chunks@.map_values(|c: Chunk| c@) =~= Seq::<ChunkView>::empty());
            if parse_chunks(buf@.skip(8)) is Ok {
                assert(Seq::<ChunkView>::empty() + parse_chunks(buf@.skip(8))->Ok_0 =~= parse_chunks(
                    buf@.skip(8),
                )->Ok_0);
            }
        }
        while pos < buf.len()
            invariant
                8 <= pos <= buf@.len(),
                buf@.subrange(0, 8) == png_sig(),
                forall|i: int| 0 <= i < chunks@.len() ==> (#[trigger] chunks@[i])@.wf(),
                parse_rest(chunks@.map_values(|c: Chunk| c@), buf@.skip(pos as int)) == parse_chunks(
                    buf@.skip(8),
                ),
            decreases buf@.len() - pos,
        {
            let ghost s0 = chunks@.map_values(|c: Chunk| c@);
            let ghost bpos = buf@.skip(pos as int);
            match Chunk::read(buf, pos) {
                Ok((c, end)) => {
                    proof {
                        assert(bpos.len() > 0);
                        assert(bpos.skip(12 + chunk_front(bpos).length as int) =~= buf@.skip(
                            end as int,
                        ));
                        match parse_chunks(buf@.skip(end as int)) {
                            Ok(s) => {
                                assert(parse_chunks(bpos) == Ok::<Seq<ChunkView>, PngError>(
                                    seq![c@] + s,
                                ));
                                assert(s0 + (seq![c@] + s) =~= s0.push(c@) + s);
                            },
                            Err(e) => {
                                assert(parse_chunks(bpos) == Err::<Seq<ChunkView>, PngError>(e));
                            },
                        }
                    }
                    chunks.push(c);
                    proof {
                        assert(chunks@.map_values(|cc: Chunk| cc@) =~= s0.push(c@));
                    }
                    pos = end;
                },
                Err(e) => {
                    proof {
                        assert(bpos.len() > 0);
                        assert(parse_chunks(bpos) == Err::<Seq<ChunkView>, PngError>(e));
                    }
                    return Err(e);
                },
            }
        }
        proof {
            assert(buf@.skip(pos as int) =~= Seq::<u8>::empty());
            let s0 = chunks@.map_values(|c: Chunk| c@);
            assert(parse_chunks(Seq::<u8>::empty()) == Ok::<Seq<ChunkView>, PngError>(Seq::empty()));
            assert(s0 + Seq::<ChunkView>::empty() =~= s0);
        }
        Ok(Png { chunks })
    }

    /// Adds the chunk at the end of the sequence; the rest is unchanged.
    pub fn append_chunk(&mut self, chunk: Chunk)
        ensures
            final(self)@ == old(self)@.push(chunk@),
    {
        let ghost s0 = self@;
        self.chunks.push(chunk);
        proof {
            assert(self@ =~= s0.push(chunk@));
        }
    }

    /// The ordered chunk sequence, read-only.
    pub fn chunks(&self) -> (r: &Vec<Chunk>)
        ensures
            r@.len() == self@.len(),
            forall|i: int| 0 <= i < self@.len() ==> (#[trigger] r@[i])@ == self@[i],
    {
        &self.chunks
    }

    /// The first chunk, in sequence order, whose type text equals the given
    /// code exactly; nothing when no chunk matches.
    pub fn chunk_by_type(&self, chunk_type: &str) -> (r: Option<&Chunk>)
        ensures
            r is Some <==> has_match(self@, chunk_type@),
            r matches Some(c) ==> exists|i: int|
                0 <= i < self@.len() && text_matches(#[trigger] self@[i].ctype, chunk_type@) && c@
                    == self@[i] && (forall|j: int|
                    0 <= j < i ==> !text_matches(#[trigger] self@[j].ctype, chunk_type@)),
    {
        let mut i: usize = 0;
        while i < self.chunks.len()
            invariant
                i <= self@.len(),
                forall|j: int| 0 <= j < i ==> !text_matches(#[trigger] self@[j].ctype, chunk_type@),
            decreases self@.len() - i,
        {
            let c = &self.chunks[i];
            proof {
                assert(c@ == self@[i as int]);
            }
            if code_matches_str(c.chunk_type(), chunk_type) {
                proof {
                    assert(text_matches(self@[i as int].ctype, chunk_type@));
                }
                return Some(c);
            }
            i += 1;
        }
        None
    }

    /// Removes the first chunk whose type text equals the given code,
    /// preserving the order of the rest; fails exactly when none matches,
    /// leaving the sequence unchanged.
    pub fn remove_chunk(&mut self, chunk_type: &str) -> (r: Result<Chunk, PngError>)
        ensures
            r is Ok <==> has_match(old(self)@, chunk_type@),
            r matches Ok(c) ==> exists|i: int|
                0 <= i < old(self)@.len() && text_matches(
                    #[trigger] old(self)@[i].ctype,
                    chunk_type@,
                ) && (forall|j: int|
                    0 <= j < i ==> !text_matches(#[trigger] old(self)@[j].ctype, chunk_type@)) && c@
                    == old(self)@[i] && final(self)@ == old(self)@.remove(i),
            r matches Err(e) ==> e == PngError::ChunkNotFound && final(self)@ == old(self)@,
    {
        let mut i: usize = 0;
        while i < self.chunks.len()
            invariant
                i <= self@.len(),
                self@ == old(self)@,
                forall|j: int| 0 <= j < i ==> !text_matches(#[trigger] self@[j].ctype, chunk_type@),
            decreases self@.len() - i,
        {
            let matched = code_matches_str(self.chunks[i].chunk_type(), chunk_type);
            if matched {
                let ghost s0 = self@;
                let c = self.chunks.remove(i);
                proof {
                    assert(c@ == s0[i as int]);
                    assert(self@ =~= s0.remove(i as int));
                    assert(text_matches(s0[i as int].ctype, chunk_type@));
                }
                return Ok(c);
            }
            i += 1;
        }
        Err(PngError::ChunkNotFound)
    }

    /// The wire form of the whole file: signature, then each chunk in order.
    pub fn as_bytes(&self) -> (r: Vec<u8>)
        ensures
            r@ == png_serial(self@),
    {
        let mut out: Vec<u8> = Vec::new();
        let sig = signature_bytes();
        let mut k: usize = 0;
        while k < 8
            invariant
                0 <= k <= 8,
                sig@ == png_sig(),
                out@ == png_sig().take(k as int),
            decreases 8 - k,
        {
            out.push(sig[k]);
            proof {
                assert(out@ =~= png_sig().take(k + 1));
            }
            k += 1;
        }
        proof {
            assert(png_sig().take(8) =~= png_sig());
            assert(self@.take(0) =~= Seq::<ChunkView>::empty());
            assert(out@ =~= png_sig() + chunks_serial(self@.take(0)));
        }
        let mut i: usize = 0;
        while i < self.chunks.len()
            invariant
                i <= self@.len(),
                out@ == png_sig() + chunks_serial(self@.take(i as int)),
            decreases self@.len() - i,
        {
            let mut cb = self.chunks[i].as_bytes();
            out.append(&mut cb);
            proof {
                lemma_chunks_serial_push(self@.take(i as int), self@[i as int]);
                assert(self@.take(i + 1) =~= self@.take(i as int).push(self@[i as int]));
                assert(out@ =~= png_sig() + chunks_serial(self@.take(i + 1)));
            }
            i += 1;
        }
        proof {
            assert(self@.take(self@.len() as int) =~= self@);
        }
        out
    }
}

/// Whether the 4 letter bytes of a type code render as the given text.
fn code_matches_str(ct: &ChunkType, s: &str) -> (r: bool)
    ensures
        r == text_matches(ct@, s@),
{
    let tb = ct.bytes();
    if s.unicode_len() != 4 {
        proof {
            assert(chars_of_bytes(ct@).len() == 4);
        }
        return false;
    }
    let r = (tb[0] as char == s.get_char(0)) && (tb[1] as char == s.get_char(1)) && (tb[2] as char
        == s.get_char(2)) && (tb[3] as char == s.get_char(3));
    proof {
        if r {
            assert(chars_of_bytes(ct@) =~= s@);
        } else {
            if chars_of_bytes(ct@) == s@ {
                assert(chars_of_bytes(ct@)[0] == s@[0]);
                assert(chars_of_bytes(ct@)[1] == s@[1]);
                assert(chars_of_bytes(ct@)[2] == s@[2]);
                assert(chars_of_bytes(ct@)[3] == s@[3]);
                assert(false);
            }
        }
    }
    r
}

/// The 8 canonical PNG signature bytes.
pub fn signature_bytes() -> (r: [u8; 8])
    ensures
        r@ == png_sig(),
{
    let r = [137u8, 80u8, 78u8, 71u8, 13u8, 10u8, 26u8, 10u8];
    proof {
        assert(r@ =~= png_sig());
    }
    r
}

/// Serializing a sequence with one more chunk appends that chunk's bytes.
pub proof fn lemma_chunks_serial_push(s: Seq<ChunkView>, c: ChunkView)
    ensures
        chunks_serial(s.push(c)) == chunks_serial(s) + c.serial(),
    decreases s.len(),
{
    if s.len() == 0 {
        assert(s.push(c).drop_first() =~= Seq::<ChunkView>::empty());
        assert(s.push(c)[0] == c);
        assert(chunks_serial(s.push(c)) == c.serial() + chunks_serial(Seq::<ChunkView>::empty()));
        assert(chunks_serial(s.push(c)) =~= chunks_serial(s) + c.serial());
    } else {
        lemma_chunks_serial_push(s.drop_first(), c);
        assert(s.push(c).drop_first() =~= s.drop_first().push(c));
        assert(s.push(c)[0] == s[0]);
        assert(chunks_serial(s.push(c)) == s[0].serial() + chunks_serial(s.drop_first().push(c)));
        assert(chunks_serial(s) == s[0].serial() + chunks_serial(s.drop_first()));
        assert(chunks_serial(s.push(c)) =~= chunks_serial(s) + c.serial());
    }
}

/// Parsing the chunk area of a serialized well-formed sequence yields the
/// same chunks back.
#[verifier::rlimit(50)]
proof fn lemma_chunks_serial_parses(s: Seq<ChunkView>)
    requires
        forall|i: int| 0 <= i < s.len() ==> (#[trigger] s[i]).wf(),
    ensures
        parse_chunks(chunks_serial(s)) == Ok::<Seq<ChunkView>, PngError>(s),
    decreases s.len(),
{
    if s.len() == 0 {
        assert(s =~= Seq::<ChunkView>::empty());
    } else {
        let b = chunks_serial(s);
        let rest = chunks_serial(s.drop_first());
        assert(b == s[0].serial() + rest);
        lemma_chunk_serial_parses(s[0], rest);
        assert(b.len() > 0);
        assert(valid_chunk_front(b));
        assert(chunk_front(b) == s[0]);
        assert(b.skip(12 + s[0].length as int) == rest);
        assert forall|i: int|
            0 <= i < s.drop_first().len() implies (#[trigger] s.drop_first()[i]).wf() by {
            assert(s.drop_first()[i] == s[i + 1]);
        }
        lemma_chunks_serial_parses(s.drop_first());
        assert(parse_chunks(rest) == Ok::<Seq<ChunkView>, PngError>(s.drop_first()));
        assert(parse_chunks(b) == Ok::<Seq<ChunkView>, PngError>(seq![s[0]] + s.drop_first()));
        assert(seq![s[0]] + s.drop_first() =~= s);
    }
}

/// The round trip: a serialized well-formed container parses back to the
/// same signature and the same chunks in the same order.
pub proof fn lemma_png_round_trip(s: Seq<ChunkView>)
    requires
        forall|i: int| 0 <= i < s.len() ==> (#[trigger] s[i]).wf(),
    ensures
        png_serial(s).len() >= 8,
        png_serial(s).subrange(0, 8) == png_sig(),
        parse_chunks(png_serial(s).skip(8)) == Ok::<Seq<ChunkView>, PngError>(s),
{
    assert(png_serial(s).subrange(0, 8) =~= png_sig());
    assert(png_serial(s).skip(8) =~= chunks_serial(s));
    lemma_chunks_serial_parses(s);
}

/// Appending a chunk whose type text is absent from the sequence and then
/// removing by that text restores the sequence exactly: the appended chunk
/// is the only match, and removing it yields the original.
pub proof fn lemma_append_remove(s: Seq<ChunkView>, c: ChunkView, t: Seq<char>)
    requires
        forall|i: int| 0 <= i < s.len() ==> !text_matches(#[trigger] s[i].ctype, t),
        text_matches(c.ctype, t),
    ensures
        has_match(s.push(c), t),
        forall|i: int|
            0 <= i < s.push(c).len() && text_matches(#[trigger] s.push(c)[i].ctype, t) ==> i
                == s.len(),
        s.push(c).remove(s.len() as int) == s,
{
    assert(s.push(c)[s.len() as int] == c);
    assert forall|i: int|
        0 <= i < s.push(c).len() && text_matches(#[trigger] s.push(c)[i].ctype, t) implies i
        == s.len() by {
        if i < s.len() {
            assert(s.push(c)[i] == s[i]);
        }
    }
    assert(s.push(c).remove(s.len() as int) =~= s);
}

} // verus!
