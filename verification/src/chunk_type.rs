//! The 4-byte PNG chunk-type code and its case-encoded bit flags.

use vstd::prelude::*;

use crate::chars_of_bytes;
use crate::error::PngError;
use crate::lemma_ascii_bytes_decode;
use crate::utf8_to_string;
use vstd::string::StrSliceExecFns;

verus! {

/// An uppercase ASCII letter.
pub open spec fn is_capital(b: u8) -> bool {
    65 <= b <= 90
}

/// A lowercase ASCII letter.
pub open spec fn is_small(b: u8) -> bool {
    97 <= b <= 122
}

/// An ASCII letter of either case.
pub open spec fn is_letter(b: u8) -> bool {
    is_capital(b) || is_small(b)
}

/// Every byte of the sequence is an ASCII letter.
pub open spec fn all_letters(s: Seq<u8>) -> bool {
    forall|i: int| 0 <= i < s.len() ==> is_letter(#[trigger] s[i])
}

/// A character that is an ASCII letter of either case.
pub open spec fn is_letter_char(c: char) -> bool {
    ('A' <= c <= 'Z') || ('a' <= c <= 'z')
}

/// One 4-byte PNG chunk-type code. Each field holds one byte of the code,
/// named after the flag that its letter case encodes (flag positions 0-3).
/// Constructors admit only ASCII letters, so a value always views as four
/// letter bytes.
#[derive(Clone, Copy, Debug, PartialEq, Eq, Structural)]
pub struct ChunkType {
    ancillary: u8,
    private: u8,
    reserved: u8,
    safe_to_copy: u8,
}

impl View for ChunkType {
    type V = Seq<u8>;

    closed spec fn view(&self) -> Seq<u8> {
        seq![self.ancillary, self.private, self.reserved, self.safe_to_copy]
    }
}

impl ChunkType {
    /// Four bytes, all ASCII letters: the construction gate.
    pub open spec fn wf(self) -> bool {
        self@.len() == 4 && all_letters(self@)
    }

    /// The four raw bytes of the code, in order.
    pub fn bytes(&self) -> (r: [u8; 4])
        ensures
            r@ == self@,
    {
        let r = [self.ancillary, self.private, self.reserved, self.safe_to_copy];
        assert(r@ =~= self@);
        r
    }

    /// Builds a code from 4 raw bytes; succeeds exactly when all four are
    /// ASCII letters.
    pub fn try_from(value: [u8; 4]) -> (r: Result<ChunkType, PngError>)
        ensures
            r is Ok <==> all_letters(value@),
            r matches Ok(t) ==> t@ == value@ && t.wf(),
            r matches Err(e) ==> e == PngError::InvalidChunkType,
    {
        let t = ChunkType {
            ancillary: value[0],
            private: value[1],
            reserved: value[2],
            safe_to_copy: value[3],
        };
        if check(t.ancillary) && check(t.private) && check(t.reserved) && check(t.safe_to_copy) {
            assert(t@ =~= value@);
            Ok(t)
        } else {
            assert(!all_letters(value@));
            Err(PngError::InvalidChunkType)
        }
    }

    /// Builds a code from text; succeeds exactly when the text is 4 ASCII
    /// letters, taking the bytes of the letters.
    pub fn from_str(s: &str) -> (r: Result<ChunkType, PngError>)
        ensures
            r is Ok <==> (s@.len() == 4 && (forall|i: int|
                0 <= i < 4 ==> is_letter_char(#[trigger] s@[i]))),
            r matches Ok(t) ==> t@ == s@.map(|i: int, c: char| c as u8) && t.wf(),
            r matches Err(e) ==> e == PngError::InvalidChunkType,
    {
        if s.unicode_len() != 4 {
            return Err(PngError::InvalidChunkType);
        }
        if !s.is_ascii() {
            proof {
                let j = choose|j: int|
                    0 <= j < s@.len() && !('\0' <= #[trigger] s@[j] <= '\u{7f}');
                assert(!is_letter_char(s@[j]));
            }
            return Err(PngError::InvalidChunkType);
        }
        let b0 = s.get_ascii(0);
        let b1 = s.get_ascii(1);
        let b2 = s.get_ascii(2);
        let b3 = s.get_ascii(3);
        proof {
            lemma_ascii_char_letter(s@[0]);
            lemma_ascii_char_letter(s@[1]);
            lemma_ascii_char_letter(s@[2]);
            lemma_ascii_char_letter(s@[3]);
        }
        if check(b0) && check(b1) && check(b2) && check(b3) {
            let t = ChunkType { ancillary: b0, private: b1, reserved: b2, safe_to_copy: b3 };
            proof {
                assert forall|i: int| 0 <= i < 4 implies is_letter_char(#[trigger] s@[i]) by {
                    assert(is_letter_char(s@[0]) && is_letter_char(s@[1]) && is_letter_char(
                        s@[2],
                    ) && is_letter_char(s@[3]));
                }
                assert(t@ =~= s@.map(|i: int, c: char| c as u8));
            }
            Ok(t)
        } else {
            proof {
                if forall|i: int| 0 <= i < 4 ==> is_letter_char(#[trigger] s@[i]) {
                    assert(is_letter_char(s@[0]) && is_letter_char(s@[1]) && is_letter_char(
                        s@[2],
                    ) && is_letter_char(s@[3]));
                    assert(false);
                }
            }
            Err(PngError::InvalidChunkType)
        }
    }

    /// True exactly when bytes 0, 1, 3 are ASCII letters and byte 2 is
    /// uppercase: full structural validity per the PNG specification.
    pub fn is_valid(&self) -> (r: bool)
        ensures
            r == (self.wf() && is_capital(self@[2])),
    {
        check(self.ancillary) && check(self.private) && check_capital(self.reserved) && check(
            self.safe_to_copy,
        )
    }

    /// True exactly when byte 0 (`ancillary`) is uppercase.
    pub fn is_critical(&self) -> (r: bool)
        ensures
            r == is_capital(self@[0]),
    {
        check_capital(self.ancillary)
    }

    /// True exactly when byte 1 (`private`) is uppercase.
    pub fn is_public(&self) -> (r: bool)
        ensures
            r == is_capital(self@[1]),
    {
        check_capital(self.private)
    }

    /// True exactly when byte 2 (`reserved`) is uppercase.
    pub fn is_reserved_bit_valid(&self) -> (r: bool)
        ensures
            r == is_capital(self@[2]),
    {
        check_capital(self.reserved)
    }

    /// True exactly when byte 3 (`safe_to_copy`) is lowercase.
    pub fn is_safe_to_copy(&self) -> (r: bool)
        ensures
            r == is_small(self@[3]),
    {
        check_small(self.safe_to_copy)
    }

    /// The code rendered as text: the four letter bytes decoded as ASCII.
    pub fn to_string(&self) -> (r: String)
        requires
            self.wf(),
        ensures
            r@ == chars_of_bytes(self@),
    {
        let v: Vec<u8> = vec![self.ancillary, self.private, self.reserved, self.safe_to_copy];
        proof {
            assert(v@ =~= self@);
            lemma_ascii_bytes_decode(v@);
        }
        match utf8_to_string(v) {
            Some(s) => s,
            None => {
                proof {
                    assert(false);
                }
                String::new()
            },
        }
    }
}

/// For an ASCII character, being a letter is the same question of the
/// character and of its byte value.
proof fn lemma_ascii_char_letter(c: char)
    requires
        '\0' <= c <= '\u{7f}',
    ensures
        is_letter_char(c) <==> is_letter(c as u8),
{
    vstd::utf8::char_u32_cast(c, c as u32);
}

/// The byte is an ASCII letter of either case.
pub fn check(val: u8) -> (r: bool)
    ensures
        r == is_letter(val),
{
    check_capital(val) || check_small(val)
}

/// The byte is an uppercase ASCII letter.
pub fn check_capital(val: u8) -> (r: bool)
    ensures
        r == is_capital(val),
{
    65 <= val && val <= 90
}

/// The byte is a lowercase ASCII letter.
pub fn check_small(val: u8) -> (r: bool)
    ensures
        r == is_small(val),
{
    97 <= val && val <= 122
}

} // verus!
