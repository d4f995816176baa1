//! The four-letter type code of a chunk.

use std::str::FromStr;
use vstd::prelude::*;
use vstd::std_specs::cmp::PartialEqSpecImpl;
use vstd::std_specs::convert::TryFromSpecImpl;
use vstd::string::{StringExecFns, StringSliceAdditionalSpecFns};
use vstd::utf8::{encode_utf8, encode_utf8_decode_utf8};

use crate::text::{
    ascii_chars, ascii_to_string, binary, binary_string, decimal, decimal_string, is_ascii_bytes,
    lemma_ascii_is_utf8,
};

verus! {

/// `b` is an ASCII letter, `A..=Z` or `a..=z`.
pub open spec fn is_letter(b: u8) -> bool {
    (0x41 <= b <= 0x5a) || (0x61 <= b <= 0x7a)
}

/// `code` is four ASCII letters: what every type code is.
pub open spec fn is_type_code(code: Seq<u8>) -> bool {
    code.len() == 4 && forall|i: int| 0 <= i < 4 ==> is_letter(#[trigger] code[i])
}

/// The first of the four bytes of `code` that is no letter.
pub open spec fn first_bad_byte(code: Seq<u8>) -> u8
    recommends
        code.len() == 4,
        !is_type_code(code),
{
    if !is_letter(code[0]) {
        code[0]
    } else if !is_letter(code[1]) {
        code[1]
    } else if !is_letter(code[2]) {
        code[2]
    } else {
        code[3]
    }
}

/// Bit 5 of a byte, the bit in which upper and lower case letters differ.
pub open spec fn bit5(b: u8) -> bool {
    b & 0x20 == 0x20
}

/// `b` is an upper case ASCII letter.
pub open spec fn is_upper_case(b: u8) -> bool {
    0x41 <= b <= 0x5a
}

/// `b` is a lower case ASCII letter.
pub open spec fn is_lower_case(b: u8) -> bool {
    0x61 <= b <= 0x7a
}

/// Why bytes or text were not accepted as a type code.
#[derive(Debug, Clone, Copy, PartialEq, Eq, Structural)]
pub enum ChunkTypeDecodingError {
    /// A byte that is no ASCII letter: the first such byte.
    BadByte(u8),
    /// The text was not four bytes long: the length it had.
    BadLength(usize),
}

impl ChunkTypeDecodingError {
    /// The error in words: the byte in decimal and in binary digits, or the
    /// length in decimal digits.
    pub open spec fn text(self) -> Seq<char> {
        match self {
            ChunkTypeDecodingError::BadByte(byte) => "Bad byte: "@ + ascii_chars(
                decimal(byte as nat),
            ) + " ("@ + ascii_chars(binary(byte as nat)) + ")"@,
            ChunkTypeDecodingError::BadLength(length) => "Bad length: "@ + ascii_chars(
                decimal(length as nat),
            ) + " (expected 4)"@,
        }
    }

    /// The error in words.
    pub fn to_string(&self) -> (s: String)
        ensures
            s@ == self.text(),
    {
        let mut s: String = String::new();
        match *self {
            ChunkTypeDecodingError::BadByte(byte) => {
                s.append("Bad byte: ");
                s.append(decimal_string(byte as u64).as_str());
                s.append(" (");
                s.append(binary_string(byte as u64).as_str());
                s.append(")");
                assert(s@ =~= self.text());
            },
            ChunkTypeDecodingError::BadLength(length) => {
                s.append("Bad length: ");
                s.append(decimal_string(length as u64).as_str());
                s.append(" (expected 4)");
                assert(s@ =~= self.text());
            },
        }
        s
    }
}

/// What four raw bytes decode to: themselves, if all are letters.
pub open spec fn decode_type_code(code: Seq<u8>) -> Result<Seq<u8>, ChunkTypeDecodingError>
    recommends
        code.len() == 4,
{
    if is_type_code(code) {
        Ok(code)
    } else {
        Err(ChunkTypeDecodingError::BadByte(first_bad_byte(code)))
    }
}

/// What the UTF-8 bytes of a text decode to. A wrong length is reported
/// before any byte is looked at.
pub open spec fn decode_type_text(text: Seq<u8>) -> Result<Seq<u8>, ChunkTypeDecodingError> {
    if text.len() != 4 {
        Err(ChunkTypeDecodingError::BadLength(text.len() as usize))
    } else {
        decode_type_code(text)
    }
}

/// A chunk's type code: four ASCII letters.
#[derive(Debug, Eq)]
pub struct ChunkType {
    bytes: [u8; 4],
}

impl View for ChunkType {
    type V = Seq<u8>;

    closed spec fn view(&self) -> Seq<u8> {
        self.bytes@
    }
}

impl PartialEq for ChunkType {
    /// Two type codes are equal if their bytes are.
    fn eq(&self, other: &Self) -> (r: bool) {
        let r: bool = self.bytes[0] == other.bytes[0] && self.bytes[1] == other.bytes[1]
            && self.bytes[2] == other.bytes[2] && self.bytes[3] == other.bytes[3];
        assert(r == (self@ =~= other@));
        r
    }
}

impl PartialEqSpecImpl for ChunkType {
    open spec fn obeys_eq_spec() -> bool {
        true
    }

    open spec fn eq_spec(&self, other: &Self) -> bool {
        self@ == other@
    }
}

impl Clone for ChunkType {
    fn clone(&self) -> (r: Self)
        ensures
            r@ == self@,
    {
        proof {
            use_type_invariant(self);
        }
        ChunkType { bytes: self.bytes }
    }
}

impl ChunkType {
    /// Every type code holds four ASCII letters.
    #[verifier::type_invariant]
    pub open spec fn well_formed(self) -> bool {
        is_type_code(self@)
    }

    /// The four bytes of the code.
    pub fn bytes(&self) -> (r: [u8; 4])
        ensures
            r@ == self@,
            is_type_code(self@),
    {
        proof {
            use_type_invariant(self);
        }
        return self.bytes;
    }

    /// Critical chunks have bit 5 of the first byte clear: an upper case
    /// first letter.
    pub fn is_critical(&self) -> (r: bool)
        ensures
            r == !bit5(self@[0]),
            r == is_upper_case(self@[0]),
    {
        proof {
            use_type_invariant(self);
            lemma_bit5_is_lower_case(self@[0]);
        }
        return self.bytes[0] & 0x20 == 0;
    }

    /// Public chunks have bit 5 of the second byte clear: an upper case
    /// second letter.
    pub fn is_public(&self) -> (r: bool)
        ensures
            r == !bit5(self@[1]),
            r == is_upper_case(self@[1]),
    {
        proof {
            use_type_invariant(self);
            lemma_bit5_is_lower_case(self@[1]);
        }
        return self.bytes[1] & 0x20 == 0;
    }

    /// The reserved bit, bit 5 of the third byte, must be clear: the third
    /// letter must be upper case.
    pub fn is_reserved_bit_valid(&self) -> (r: bool)
        ensures
            r == !bit5(self@[2]),
            r == is_upper_case(self@[2]),
    {
        proof {
            use_type_invariant(self);
            lemma_bit5_is_lower_case(self@[2]);
        }
        return self.bytes[2] & 0x20 == 0;
    }

    /// Chunks that are safe to copy have bit 5 of the fourth byte set: a
    /// lower case fourth letter.
    pub fn is_safe_to_copy(&self) -> (r: bool)
        ensures
            r == bit5(self@[3]),
            r == is_lower_case(self@[3]),
    {
        proof {
            use_type_invariant(self);
            lemma_bit5_is_lower_case(self@[3]);
        }
        return self.bytes[3] & 0x20 == 0x20;
    }

    /// The code as text: its four letters.
    pub fn to_string(&self) -> (s: String)
        ensures
            s@ == ascii_chars(self@),
    {
        proof {
            use_type_invariant(self);
        }
        ascii_to_string(self.bytes.as_slice())
    }

    /// Tells whether the code is the one that `text` spells: whether its four
    /// bytes are the bytes of `text`, which is to say whether it reads as
    /// `text`.
    pub fn is_text(&self, text: &str) -> (r: bool)
        ensures
            r == (self@ == text.spec_bytes()),
            r == (ascii_chars(self@) == text@),
    {
        proof {
            use_type_invariant(self);
            lemma_spelled_by(self@, text@);
        }
        let other: &[u8] = text.as_bytes();
        if other.len() != 4 {
            return false;
        }
        let mut i: usize = 0;
        while i < 4
            invariant
                i <= 4,
                self@.len() == 4,
                other@.len() == 4,
                other@ == text.spec_bytes(),
                (self@ == text.spec_bytes()) == (ascii_chars(self@) == text@),
                forall|j: int| 0 <= j < i ==> self@[j] == #[trigger] other@[j],
            decreases 4 - i,
        {
            if self.bytes[i] != other[i] {
                assert(self@[i as int] != other@[i as int]);
                return false;
            }
            i += 1;
        }
        assert(self@ =~= other@);
        true
    }

    /// A type code is valid if its reserved bit is.
    pub fn is_valid(&self) -> (r: bool)
        ensures
            r == !bit5(self@[2]),
            r == is_upper_case(self@[2]),
    {
        self.is_reserved_bit_valid()
    }
}

impl TryFrom<[u8; 4]> for ChunkType {
    type Error = ChunkTypeDecodingError;

    /// Accepts four bytes that are all ASCII letters, and reports the first
    /// byte that is none.
    fn try_from(chunk_type: [u8; 4]) -> (r: Result<Self, Self::Error>)
        ensures
            match r {
                Ok(t) => decode_type_code(chunk_type@) == Ok::<Seq<u8>, ChunkTypeDecodingError>(t@),
                Err(e) => decode_type_code(chunk_type@) == Err::<Seq<u8>, ChunkTypeDecodingError>(e),
            },
    {
        let mut i: usize = 0;
        while i < 4
            invariant
                i <= 4,
                forall|j: int| 0 <= j < i ==> is_letter(#[trigger] chunk_type@[j]),
            decreases 4 - i,
        {
            let byte: u8 = chunk_type[i];
            if !letter(byte) {
                return Err(ChunkTypeDecodingError::BadByte(byte));
            }
            i += 1;
        }
        Ok(ChunkType { bytes: chunk_type })
    }
}

impl TryFromSpecImpl<[u8; 4]> for ChunkType {
    open spec fn obeys_try_from_spec() -> bool {
        true
    }

    closed spec fn try_from_spec(chunk_type: [u8; 4]) -> Result<Self, Self::Error> {
        if is_type_code(chunk_type@) {
            Ok(ChunkType { bytes: chunk_type })
        } else {
            Err(ChunkTypeDecodingError::BadByte(first_bad_byte(chunk_type@)))
        }
    }
}

impl FromStr for ChunkType {
    type Err = ChunkTypeDecodingError;

    /// Accepts a text of four ASCII letters. A text of another length is
    /// refused for its length, whatever it holds.
    fn from_str(s: &str) -> (r: Result<Self, Self::Err>)
        ensures
            match r {
                Ok(t) => decode_type_text(s.spec_bytes()) == Ok::<Seq<u8>, ChunkTypeDecodingError>(
                    t@,
                ),
                Err(e) => decode_type_text(s.spec_bytes()) == Err::<
                    Seq<u8>,
                    ChunkTypeDecodingError,
                >(e),
            },
    {
        let bytes: &[u8] = s.as_bytes();
        if bytes.len() != 4 {
            return Err(ChunkTypeDecodingError::BadLength(bytes.len()));
        }
        let code: [u8; 4] = [bytes[0], bytes[1], bytes[2], bytes[3]];
        assert(code@ =~= bytes@);
        ChunkType::try_from(code)
    }
}

/// Tells whether a byte is an ASCII letter.
fn letter(b: u8) -> (r: bool)
    ensures
        r == is_letter(b),
{
    (b >= 0x41 && b <= 0x5a) || (b >= 0x61 && b <= 0x7a)
}

/// A letter has bit 5 set exactly if it is lower case, and clear exactly if
/// it is upper case.
pub proof fn lemma_bit5_is_lower_case(b: u8)
    requires
        is_letter(b),
    ensures
        bit5(b) <==> is_lower_case(b),
        !bit5(b) <==> is_upper_case(b),
        !bit5(b) <==> b & 0x20 == 0,
{
    assert(((0x41 <= b && b <= 0x5a) || (0x61 <= b && b <= 0x7a)) ==> ((b & 0x20 == 0x20) <==> (
    0x61 <= b && b <= 0x7a))) by (bit_vector);
    assert((b & 0x20 != 0x20) <==> (b & 0x20 == 0)) by (bit_vector);
}

/// A text spells a type code, byte for byte, exactly if the code reads as
/// that text, letter for letter.
pub proof fn lemma_spelled_by(code: Seq<u8>, text: Seq<char>)
    requires
        is_type_code(code),
    ensures
        encode_utf8(text) == code <==> text == ascii_chars(code),
{
    assert(is_ascii_bytes(code));
    lemma_ascii_is_utf8(code);
    encode_utf8_decode_utf8(text);
}

/// The text of a type code is read back as that type code.
pub proof fn lemma_type_text_round_trip(code: Seq<u8>)
    requires
        is_type_code(code),
    ensures
        decode_type_text(encode_utf8(ascii_chars(code))) == Ok::<Seq<u8>, ChunkTypeDecodingError>(
            code,
        ),
{
    lemma_spelled_by(code, ascii_chars(code));
}

} // verus!
