//! The four-byte code that names the purpose of a chunk.

use crate::error::PngError;
use crate::text::utf8_text;
use crate::utils::segment4;
use std::str::FromStr;
use vstd::prelude::*;
use vstd::std_specs::cmp::PartialEqSpecImpl;
use vstd::std_specs::convert::TryFromSpecImpl;
use vstd::string::*;
use vstd::utf8::*;

verus! {

/// True for the bytes of the ASCII letters `A` to `Z`.
pub open spec fn is_upper(byte: u8) -> bool {
    0x41 <= byte <= 0x5a
}

/// True for the bytes of the ASCII letters `a` to `z`.
pub open spec fn is_lower(byte: u8) -> bool {
    0x61 <= byte <= 0x7a
}

/// True for the bytes of the ASCII letters.
pub open spec fn is_letter(byte: u8) -> bool {
    is_upper(byte) || is_lower(byte)
}

/// A chunk type code: four bytes, stored as given.
///
/// Any four bytes make a code. Whether they form a code that the format
/// allows is a separate question, answered by [`ChunkType::is_valid`].
#[derive(Debug, Clone, Copy)]
pub struct ChunkType {
    bytes: [u8; 4],
}

impl View for ChunkType {
    type V = Seq<u8>;

    /// The four bytes of the code.
    closed spec fn view(&self) -> Seq<u8> {
        self.bytes@
    }
}

impl ChunkType {
    /// The code that holds exactly `bytes`.
    pub closed spec fn spec_from_bytes(bytes: [u8; 4]) -> ChunkType {
        ChunkType { bytes }
    }

    /// A critical chunk has an upper-case first letter.
    pub open spec fn spec_is_critical(&self) -> bool {
        is_upper(self@[0])
    }

    /// A public chunk has an upper-case second letter.
    pub open spec fn spec_is_public(&self) -> bool {
        is_upper(self@[1])
    }

    /// The reserved bit is valid when the third letter is upper-case.
    pub open spec fn spec_is_reserved_bit_valid(&self) -> bool {
        is_upper(self@[2])
    }

    /// A chunk is safe to copy when its fourth letter is upper-case.
    pub open spec fn spec_is_safe_to_copy(&self) -> bool {
        is_upper(self@[3])
    }

    /// A valid code is made of four ASCII letters, the third of them upper-case.
    pub open spec fn spec_is_valid(&self) -> bool {
        &&& self.spec_is_reserved_bit_valid()
        &&& forall|i: int| 0 <= i < 4 ==> is_letter(#[trigger] self@[i])
    }

    /// Every code has four bytes, and two codes with the same bytes are the
    /// same code.
    pub broadcast proof fn lemma_view(self)
        ensures
            #[trigger] self@.len() == 4,
            forall|other: ChunkType| #[trigger] other@ == self@ ==> other == self,
    {
        assert forall|other: ChunkType| #[trigger] other@ == self@ implies other == self by {
            assert(other.bytes@ =~= self.bytes@);
            assert(other.bytes == self.bytes);
        }
    }

    /// The four bytes of the code.
    pub fn bytes(&self) -> (bytes: [u8; 4])
        ensures
            bytes@ == self@,
    {
        self.bytes
    }

    /// Reads a code from a text token of exactly four bytes; a token of any
    /// other length is refused with `InvalidSegment`.
    pub fn from_str(s: &str) -> (code: Result<ChunkType, PngError>)
        ensures
            s.spec_bytes().len() == 4 ==> code is Ok && code->Ok_0@ == s.spec_bytes(),
            s.spec_bytes().len() != 4 ==> code == Err::<ChunkType, PngError>(
                PngError::InvalidSegment,
            ),
    {
        match segment4(s.as_bytes()) {
            Ok(bytes) => Ok(ChunkType { bytes }),
            Err(e) => Err(e),
        }
    }

    /// Whether the four bytes are letters and the reserved bit is valid.
    pub fn is_valid(&self) -> (valid: bool)
        ensures
            valid == self.spec_is_valid(),
    {
        if !self.is_reserved_bit_valid() {
            return false;
        }
        let mut i: usize = 0;
        while i < 4
            invariant
                0 <= i <= 4,
                forall|j: int| 0 <= j < i ==> is_letter(#[trigger] self@[j]),
            decreases 4 - i,
        {
            let byte: u8 = self.bytes[i];
            if !(byte_is_upper(byte) || byte_is_lower(byte)) {
                assert(!is_letter(self@[i as int]));
                return false;
            }
            i += 1;
        }
        true
    }

    /// Whether the chunk is critical rather than ancillary.
    pub fn is_critical(&self) -> (critical: bool)
        ensures
            critical == self.spec_is_critical(),
    {
        byte_is_upper(self.bytes[0])
    }

    /// Whether the chunk is public rather than private.
    pub fn is_public(&self) -> (public: bool)
        ensures
            public == self.spec_is_public(),
    {
        byte_is_upper(self.bytes[1])
    }

    /// Whether the reserved bit of the code is valid.
    pub fn is_reserved_bit_valid(&self) -> (valid: bool)
        ensures
            valid == self.spec_is_reserved_bit_valid(),
    {
        byte_is_upper(self.bytes[2])
    }

    /// Whether an editor that does not know the chunk may copy it.
    pub fn is_safe_to_copy(&self) -> (safe: bool)
        ensures
            safe == self.spec_is_safe_to_copy(),
    {
        byte_is_upper(self.bytes[3])
    }

    /// Renders the code as text. Four bytes that are not UTF-8 cannot be
    /// rendered and give `ChunkDataUTF8Error`.
    pub fn to_string(&self) -> (text: Result<String, PngError>)
        ensures
            valid_utf8(self@) ==> text is Ok && text->Ok_0@ == decode_utf8(self@),
            !valid_utf8(self@) ==> text == Err::<String, PngError>(PngError::ChunkDataUTF8Error),
    {
        let mut bytes: Vec<u8> = Vec::new();
        bytes.push(self.bytes[0]);
        bytes.push(self.bytes[1]);
        bytes.push(self.bytes[2]);
        bytes.push(self.bytes[3]);
        assert(bytes@ =~= self@);
        match utf8_text(bytes) {
            Some(text) => Ok(text),
            None => Err(PngError::ChunkDataUTF8Error),
        }
    }
}

/// Whether `byte` is one of the ASCII letters `A` to `Z`.
pub fn byte_is_upper(byte: u8) -> (upper: bool)
    ensures
        upper == is_upper(byte),
{
    0x41 <= byte && byte <= 0x5a
}

/// Whether `byte` is one of the ASCII letters `a` to `z`.
pub fn byte_is_lower(byte: u8) -> (lower: bool)
    ensures
        lower == is_lower(byte),
{
    0x61 <= byte && byte <= 0x7a
}

impl PartialEq for ChunkType {
    fn eq(&self, other: &Self) -> (equal: bool) {
        let equal = self.bytes[0] == other.bytes[0] && self.bytes[1] == other.bytes[1]
            && self.bytes[2] == other.bytes[2] && self.bytes[3] == other.bytes[3];
        proof {
            if equal {
                assert(self@ =~= other@);
            }
        }
        equal
    }
}

impl PartialEqSpecImpl for ChunkType {
    open spec fn obeys_eq_spec() -> bool {
        true
    }

    /// Two codes are equal when their four bytes are.
    open spec fn eq_spec(&self, other: &Self) -> bool {
        self@ == other@
    }
}

impl Eq for ChunkType {

}

impl TryFrom<[u8; 4]> for ChunkType {
    type Error = PngError;

    /// Makes a code of any four bytes; this never fails.
    fn try_from(value: [u8; 4]) -> (code: Result<Self, PngError>)
        ensures
            code is Ok,
            code->Ok_0@ == value@,
    {
        Ok(ChunkType { bytes: value })
    }
}

impl TryFromSpecImpl<[u8; 4]> for ChunkType {
    open spec fn obeys_try_from_spec() -> bool {
        true
    }

    open spec fn try_from_spec(value: [u8; 4]) -> Result<Self, PngError> {
        Ok(ChunkType::spec_from_bytes(value))
    }
}

impl FromStr for ChunkType {
    type Err = PngError;

    /// Reads a code from a text token, as the function of the same name on
    /// the type does.
    fn from_str(s: &str) -> (code: Result<Self, PngError>)
        ensures
            s.spec_bytes().len() == 4 ==> code is Ok && code->Ok_0@ == s.spec_bytes(),
            s.spec_bytes().len() != 4 ==> code == Err::<ChunkType, PngError>(
                PngError::InvalidSegment,
            ),
    {
        ChunkType::from_str(s)
    }
}

} // verus!
