//! Chunks and the frames that carry them.
//!
//! On the wire a chunk is one frame:
//!
//! ```text
//! offset      size    field
//! 0           4       length of the data, big-endian
//! 4           4       type code, four ASCII letters
//! 8           length  data
//! 8 + length  4       CRC-32 over type code and data, big-endian
//! ```

use vstd::prelude::*;
use vstd::std_specs::convert::{FromSpecImpl, TryFromSpecImpl};
use vstd::string::StringExecFns;
use vstd::utf8::{decode_utf8, valid_utf8};

use crate::be32::{
    be_bytes, be_value, lemma_be_bytes_of_be_value, lemma_be_value_fits,
    lemma_be_value_of_be_bytes, u32_from_be_bytes, u32_to_be_bytes,
};
use crate::checksum::{checksum_ieee, crc32_ieee};
use crate::chunk_type::{bit5, first_bad_byte, is_type_code, ChunkType, ChunkTypeDecodingError};
use crate::text::{ascii_chars, decimal, decimal_string, utf8_to_string};

verus! {

/// What a chunk is, apart from how it is stored: a type code and a payload.
/// Length and checksum follow from these two.
pub struct ChunkView {
    pub chunk_type: Seq<u8>,
    pub data: Seq<u8>,
}

impl ChunkView {
    /// The type code is four letters, and the payload's length fits the
    /// frame's 32-bit length field.
    pub open spec fn wf(self) -> bool {
        is_type_code(self.chunk_type) && self.data.len() <= u32::MAX
    }

    /// The reserved bit, bit 5 of the third letter, is clear: only such a
    /// chunk is accepted from the wire.
    pub open spec fn is_valid(self) -> bool {
        !bit5(self.chunk_type[2])
    }

    /// The length field: the number of payload bytes.
    pub open spec fn length(self) -> u32 {
        self.data.len() as u32
    }

    /// The bytes that the checksum covers: type code, then payload.
    pub open spec fn checked_bytes(self) -> Seq<u8> {
        self.chunk_type + self.data
    }

    /// The checksum field.
    pub open spec fn crc(self) -> u32 {
        crc32_ieee(self.checked_bytes())
    }

    /// The chunk's frame: length, type code, payload, checksum.
    pub open spec fn frame(self) -> Seq<u8> {
        be_bytes(self.length()) + self.chunk_type + self.data + be_bytes(self.crc())
    }

    /// The chunk in words: its length, its type code, the size of its
    /// payload and its checksum, the numbers in decimal digits.
    pub open spec fn text(self) -> Seq<char> {
        "Chunk {\n  Length: "@ + ascii_chars(decimal(self.length() as nat)) + "\n  Type: "@
            + ascii_chars(self.chunk_type) + "\n  Data: "@ + ascii_chars(decimal(self.data.len()))
            + " bytes\n  Crc: "@ + ascii_chars(decimal(self.crc() as nat)) + "\n}\n"@
    }
}

/// Why a frame was not accepted, or a chunk's payload not read as text.
#[derive(Debug, Clone, Copy, PartialEq, Eq, Structural)]
pub enum ChunkError {
    /// Fewer than the twelve bytes that the smallest frame has.
    TooShort,
    /// A length that does not fit in 32 bits.
    LengthOverflow,
    /// The length field disagrees with the number of bytes present.
    LengthMismatch,
    /// A byte of the type code that is no ASCII letter: the first such byte.
    InvalidByte(u8),
    /// A type code given as text that is not four bytes long: its length.
    InvalidLength(usize),
    /// A type code whose reserved bit is set.
    InvalidTypeCode,
    /// The checksum field is not the checksum of type code and payload.
    CrcMismatch,
    /// The payload is not UTF-8.
    InvalidEncoding,
}

impl ChunkError {
    /// The error in words.
    pub open spec fn text(self) -> Seq<char> {
        match self {
            ChunkError::TooShort => "chunk is too short"@,
            ChunkError::LengthOverflow => "length exceeds max size of u32"@,
            ChunkError::LengthMismatch => "length does not match chunk_data length"@,
            ChunkError::InvalidByte(byte) => ChunkTypeDecodingError::BadByte(byte).text(),
            ChunkError::InvalidLength(length) => ChunkTypeDecodingError::BadLength(length).text(),
            ChunkError::InvalidTypeCode => "chunk type not valid"@,
            ChunkError::CrcMismatch => "expected crc does not match the actual crc"@,
            ChunkError::InvalidEncoding => "chunk data is not valid utf8"@,
        }
    }

    /// The error in words.
    pub fn to_string(&self) -> (s: String)
        ensures
            s@ == self.text(),
    {
        match *self {
            ChunkError::TooShort => "chunk is too short".to_owned(),
            ChunkError::LengthOverflow => "length exceeds max size of u32".to_owned(),
            ChunkError::LengthMismatch => "length does not match chunk_data length".to_owned(),
            ChunkError::InvalidByte(byte) => ChunkTypeDecodingError::BadByte(byte).to_string(),
            ChunkError::InvalidLength(length) => ChunkTypeDecodingError::BadLength(
                length,
            ).to_string(),
            ChunkError::InvalidTypeCode => "chunk type not valid".to_owned(),
            ChunkError::CrcMismatch => "expected crc does not match the actual crc".to_owned(),
            ChunkError::InvalidEncoding => "chunk data is not valid utf8".to_owned(),
        }
    }
}

impl From<ChunkTypeDecodingError> for ChunkError {
    fn from(e: ChunkTypeDecodingError) -> (r: ChunkError) {
        match e {
            ChunkTypeDecodingError::BadByte(byte) => ChunkError::InvalidByte(byte),
            ChunkTypeDecodingError::BadLength(length) => ChunkError::InvalidLength(length),
        }
    }
}

impl FromSpecImpl<ChunkTypeDecodingError> for ChunkError {
    open spec fn obeys_from_spec() -> bool {
        true
    }

    open spec fn from_spec(e: ChunkTypeDecodingError) -> ChunkError {
        match e {
            ChunkTypeDecodingError::BadByte(byte) => ChunkError::InvalidByte(byte),
            ChunkTypeDecodingError::BadLength(length) => ChunkError::InvalidLength(length),
        }
    }
}

/// The part of a frame that its checksum covers: all but the first and the
/// last four bytes.
pub open spec fn checked_region(frame: Seq<u8>) -> Seq<u8>
    recommends
        frame.len() >= 12,
{
    frame.subrange(4, frame.len() - 4)
}

/// What a frame decodes to when `checksum` is the CRC-32 of its checked
/// region. The tests are made in this order, and the first that fails names
/// the error. The length field is four bytes, which always fit in 32 bits:
/// no frame is refused for a length that overflows.
pub open spec fn decode_frame_with(frame: Seq<u8>, checksum: u32) -> Result<ChunkView, ChunkError> {
    let code = frame.subrange(4, 8);
    if frame.len() < 12 {
        Err(ChunkError::TooShort)
    } else if !is_type_code(code) {
        Err(ChunkError::InvalidByte(first_bad_byte(code)))
    } else if bit5(code[2]) {
        Err(ChunkError::InvalidTypeCode)
    } else if be_value(frame.subrange(0, 4)) != frame.len() - 12 {
        Err(ChunkError::LengthMismatch)
    } else if be_value(frame.subrange(frame.len() - 4, frame.len() as int)) != checksum {
        Err(ChunkError::CrcMismatch)
    } else {
        Ok(ChunkView { chunk_type: code, data: frame.subrange(8, frame.len() - 4) })
    }
}

/// What a frame decodes to.
pub open spec fn decode_frame(frame: Seq<u8>) -> Result<ChunkView, ChunkError> {
    decode_frame_with(frame, crc32_ieee(checked_region(frame)))
}

/// One chunk: a type code and a payload, with the length and the checksum
/// that belong to them.
#[derive(Debug)]
pub struct Chunk {
    length: u32,
    chunk_type: ChunkType,
    chunk_data: Vec<u8>,
    crc: u32,
}

impl View for Chunk {
    type V = ChunkView;

    closed spec fn view(&self) -> ChunkView {
        ChunkView { chunk_type: self.chunk_type@, data: self.chunk_data@ }
    }
}

impl Chunk {
    /// The length that the chunk stores.
    pub closed spec fn stored_length(self) -> u32 {
        self.length
    }

    /// The checksum that the chunk stores.
    pub closed spec fn stored_crc(self) -> u32 {
        self.crc
    }

    /// Length and checksum are never set on their own: they are always the
    /// ones that type code and payload give.
    #[verifier::type_invariant]
    pub open spec fn well_formed(self) -> bool {
        &&& self@.wf()
        &&& self.stored_length() == self@.length()
        &&& self.stored_crc() == self@.crc()
    }

    /// Makes a chunk of a type code and a payload, and computes its length
    /// and checksum. The reserved bit of the type code is not looked at.
    pub fn new(chunk_type: ChunkType, chunk_data: Vec<u8>) -> (chunk: Chunk)
        requires
            chunk_data@.len() <= u32::MAX,
        ensures
            chunk@ == (ChunkView { chunk_type: chunk_type@, data: chunk_data@ }),
            chunk@.wf(),
    {
        let code: [u8; 4] = chunk_type.bytes();
        let mut checked: Vec<u8> = Vec::new();
        checked.extend_from_slice(code.as_slice());
        checked.extend_from_slice(chunk_data.as_slice());
        assert(checked@ =~= chunk_type@ + chunk_data@);
        let crc: u32 = checksum_ieee(checked.as_slice());
        Chunk { length: chunk_data.len() as u32, chunk_type, chunk_data, crc }
    }

    /// Makes a chunk as `new` does, but only of what a frame can carry and
    /// a decoder accepts: the reserved bit of the type code must be clear,
    /// and the payload's length must fit in 32 bits. The type code is looked
    /// at first.
    pub fn new_checked(chunk_type: ChunkType, chunk_data: Vec<u8>) -> (r: Result<Chunk, ChunkError>)
        ensures
            match r {
                Ok(chunk) => {
                    &&& chunk@ == (ChunkView { chunk_type: chunk_type@, data: chunk_data@ })
                    &&& chunk@.wf()
                    &&& chunk@.is_valid()
                },
                Err(e) => if bit5(chunk_type@[2]) {
                    e == ChunkError::InvalidTypeCode
                } else {
                    chunk_data@.len() > u32::MAX && e == ChunkError::LengthOverflow
                },
            },
    {
        if !chunk_type.is_valid() {
            return Err(ChunkError::InvalidTypeCode);
        }
        if chunk_data.len() as u64 > u32::MAX as u64 {
            return Err(ChunkError::LengthOverflow);
        }
        Ok(Chunk::new(chunk_type, chunk_data))
    }

    /// The number of payload bytes.
    pub fn length(&self) -> (r: u32)
        ensures
            r == self@.length(),
            r == self@.data.len(),
    {
        proof {
            use_type_invariant(self);
        }
        self.length
    }

    /// The type code.
    pub fn chunk_type(&self) -> (r: &ChunkType)
        ensures
            r@ == self@.chunk_type,
            is_type_code(r@),
    {
        proof {
            use_type_invariant(self);
        }
        &self.chunk_type
    }

    /// The checksum over type code and payload.
    pub fn crc(&self) -> (r: u32)
        ensures
            r == self@.crc(),
    {
        proof {
            use_type_invariant(self);
        }
        self.crc
    }

    /// The payload.
    pub fn data(&self) -> (r: &[u8])
        ensures
            r@ == self@.data,
            r@.len() <= u32::MAX,
    {
        proof {
            use_type_invariant(self);
        }
        self.chunk_data.as_slice()
    }

    /// The chunk in words, one line for each of length, type code, size of
    /// the payload and checksum.
    pub fn to_string(&self) -> (s: String)
        ensures
            s@ == self@.text(),
    {
        proof {
            use_type_invariant(self);
        }
        let mut s: String = String::new();
        s.append("Chunk {\n  Length: ");
        s.append(decimal_string(self.length as u64).as_str());
        s.append("\n  Type: ");
        s.append(self.chunk_type.to_string().as_str());
        s.append("\n  Data: ");
        s.append(decimal_string(self.chunk_data.len() as u64).as_str());
        s.append(" bytes\n  Crc: ");
        s.append(decimal_string(self.crc as u64).as_str());
        s.append("\n}\n");
        assert(s@ =~= self@.text());
        s
    }

    /// The payload as text, where it is UTF-8. Bytes that are not UTF-8 are
    /// refused, never replaced.
    pub fn data_as_string(&self) -> (r: Result<String, ChunkError>)
        ensures
            match r {
                Ok(s) => valid_utf8(self@.data) && s@ == decode_utf8(self@.data),
                Err(e) => !valid_utf8(self@.data) && e == ChunkError::InvalidEncoding,
            },
    {
        match utf8_to_string(self.chunk_data.as_slice()) {
            Some(s) => Ok(s),
            None => Err(ChunkError::InvalidEncoding),
        }
    }

    /// The chunk's frame: length, type code, payload and checksum, the two
    /// numbers big-endian.
    pub fn as_bytes(&self) -> (out: Vec<u8>)
        ensures
            out@ == self@.frame(),
            self@.wf(),
            self@.is_valid() ==> decode_frame(out@) == Ok::<ChunkView, ChunkError>(self@),
    {
        proof {
            use_type_invariant(self);
            if self@.is_valid() {
                lemma_decode_of_frame(self@);
            }
        }
        let length: [u8; 4] = u32_to_be_bytes(self.length);
        let code: [u8; 4] = self.chunk_type.bytes();
        let crc: [u8; 4] = u32_to_be_bytes(self.crc);
        let mut out: Vec<u8> = Vec::new();
        out.extend_from_slice(length.as_slice());
        out.extend_from_slice(code.as_slice());
        out.extend_from_slice(self.chunk_data.as_slice());
        out.extend_from_slice(crc.as_slice());
        assert(out@ =~= self@.frame());
        out
    }

    /// Decodes a frame whose checked region has the CRC-32 `checksum`, and
    /// hands out the type code and the payload that it holds.
    ///
    /// The frame must be twelve bytes or more, its type code four letters
    /// with the reserved bit clear, its length field the number of bytes
    /// between type code and checksum field, and its checksum field equal to
    /// `checksum`.
    pub fn decode_with_checksum(bytes: &[u8], checksum: u32) -> (r: Result<
        (ChunkType, Vec<u8>),
        ChunkError,
    >)
        ensures
            match r {
                Ok((chunk_type, data)) => decode_frame_with(bytes@, checksum) == Ok::<
                    ChunkView,
                    ChunkError,
                >(ChunkView { chunk_type: chunk_type@, data: data@ }),
                Err(e) => decode_frame_with(bytes@, checksum) == Err::<ChunkView, ChunkError>(e),
            },
    {
        let total: usize = bytes.len();
        if total < 12 {
            return Err(ChunkError::TooShort);
        }
        let length_field: [u8; 4] = [bytes[0], bytes[1], bytes[2], bytes[3]];
        assert(length_field@ =~= bytes@.subrange(0, 4));
        // Four bytes cannot hold more than 32 bits; the test guards the
        // widening all the same.
        let declared: u64 = u32_from_be_bytes(length_field) as u64;
        if declared > u32::MAX as u64 {
            return Err(ChunkError::LengthOverflow);
        }
        let code: [u8; 4] = [bytes[4], bytes[5], bytes[6], bytes[7]];
        assert(code@ =~= bytes@.subrange(4, 8));
        let chunk_type: ChunkType = match ChunkType::try_from(code) {
            Ok(chunk_type) => chunk_type,
            Err(e) => {
                return Err(ChunkError::from(e));
            },
        };
        if !chunk_type.is_valid() {
            return Err(ChunkError::InvalidTypeCode);
        }
        if (total - 12) as u64 != declared {
            return Err(ChunkError::LengthMismatch);
        }
        let crc_field: [u8; 4] = [
            bytes[total - 4],
            bytes[total - 3],
            bytes[total - 2],
            bytes[total - 1],
        ];
        assert(crc_field@ =~= bytes@.subrange(total - 4, total as int));
        if u32_from_be_bytes(crc_field) != checksum {
            return Err(ChunkError::CrcMismatch);
        }
        let mut data: Vec<u8> = Vec::new();
        data.extend_from_slice(&bytes[8..total - 4]);
        assert(data@ =~= bytes@.subrange(8, total - 4));
        Ok((chunk_type, data))
    }
}

impl<'a> TryFrom<&'a [u8]> for Chunk {
    type Error = ChunkError;

    /// Decodes one frame: exactly the bytes of one chunk, no more and no
    /// fewer. The checksum of the chunk that comes back is the one computed
    /// here, which the frame's own checksum field was found to equal.
    fn try_from(bytes: &'a [u8]) -> (r: Result<Self, Self::Error>)
        ensures
            match r {
                Ok(chunk) => decode_frame(bytes@) == Ok::<ChunkView, ChunkError>(chunk@),
                Err(e) => decode_frame(bytes@) == Err::<ChunkView, ChunkError>(e),
            },
            r matches Ok(chunk) ==> chunk@.is_valid() && chunk@.frame() == bytes@,
    {
        let total: usize = bytes.len();
        if total < 12 {
            return Err(ChunkError::TooShort);
        }
        proof {
            if decode_frame(bytes@) is Ok {
                lemma_frame_of_decode(bytes@);
            }
        }
        let crc: u32 = checksum_ieee(&bytes[4..total - 4]);
        match Chunk::decode_with_checksum(bytes, crc) {
            Ok((chunk_type, chunk_data)) => {
                proof {
                    use_type_invariant(&chunk_type);
                    assert(chunk_type@ + chunk_data@ =~= checked_region(bytes@));
                }
                Ok(Chunk { length: chunk_data.len() as u32, chunk_type, chunk_data, crc })
            },
            Err(e) => Err(e),
        }
    }
}

impl<'a> TryFromSpecImpl<&'a [u8]> for Chunk {
    /// Two chunks with the same view need not be the same value, so the
    /// contract is stated on `try_from` itself, over views.
    open spec fn obeys_try_from_spec() -> bool {
        false
    }

    open spec fn try_from_spec(bytes: &'a [u8]) -> Result<Self, Self::Error> {
        match decode_frame(bytes@) {
            Ok(view) => Ok(choose|chunk: Chunk| chunk@ == view),
            Err(e) => Err(e),
        }
    }
}

/// Round trip: the frame of a chunk decodes to that chunk, whenever the
/// chunk's reserved bit is clear.
pub proof fn lemma_decode_of_frame(chunk: ChunkView)
    requires
        chunk.wf(),
        chunk.is_valid(),
    ensures
        decode_frame(chunk.frame()) == Ok::<ChunkView, ChunkError>(chunk),
{
    lemma_frame_fields(chunk);
    lemma_be_value_of_be_bytes(chunk.length());
    lemma_be_value_of_be_bytes(chunk.crc());
}

/// A frame that decodes holds nothing but its chunk: the chunk's frame is
/// the very same bytes.
pub proof fn lemma_frame_of_decode(frame: Seq<u8>)
    requires
        decode_frame(frame) is Ok,
    ensures
        decode_frame(frame)->Ok_0.wf(),
        decode_frame(frame)->Ok_0.is_valid(),
        decode_frame(frame)->Ok_0.frame() == frame,
{
    let chunk = decode_frame(frame)->Ok_0;
    let length_field = frame.subrange(0, 4);
    let crc_field = frame.subrange(frame.len() - 4, frame.len() as int);
    lemma_be_value_fits(length_field);
    lemma_be_bytes_of_be_value(length_field);
    lemma_be_bytes_of_be_value(crc_field);
    assert(chunk.checked_bytes() =~= checked_region(frame));
    assert(chunk.frame() =~= frame);
}

/// A frame cut short does not decode to a shorter chunk: with fewer than
/// twelve bytes left it is too short, and with twelve or more its length
/// field no longer fits.
pub proof fn lemma_truncated_frame(chunk: ChunkView, kept: int)
    requires
        chunk.wf(),
        chunk.is_valid(),
        0 <= kept < chunk.frame().len(),
    ensures
        decode_frame(chunk.frame().subrange(0, kept)) == Err::<ChunkView, ChunkError>(
            if kept < 12 {
                ChunkError::TooShort
            } else {
                ChunkError::LengthMismatch
            },
        ),
{
    lemma_frame_fields(chunk);
    lemma_be_value_of_be_bytes(chunk.length());
    let cut = chunk.frame().subrange(0, kept);
    if kept >= 12 {
        assert(cut.subrange(0, 4) =~= chunk.frame().subrange(0, 4));
        assert(cut.subrange(4, 8) =~= chunk.frame().subrange(4, 8));
    }
}

/// A frame whose type code or payload was changed on the way, while its
/// length and checksum fields stayed. It never decodes to the chunk that
/// was sent. Where the type code it now holds is still one that passes, it
/// is refused for its checksum, unless the changed bytes happen to have the
/// checksum of the bytes that were sent.
pub proof fn lemma_changed_frame(chunk: ChunkView, received: ChunkView)
    requires
        chunk.wf(),
        received.chunk_type.len() == 4,
        received.data.len() == chunk.data.len(),
        received != chunk,
    ensures
        decode_frame(
            be_bytes(chunk.length()) + received.chunk_type + received.data + be_bytes(chunk.crc()),
        ) == if !is_type_code(received.chunk_type) {
            Err::<ChunkView, ChunkError>(
                ChunkError::InvalidByte(first_bad_byte(received.chunk_type)),
            )
        } else if !received.is_valid() {
            Err::<ChunkView, ChunkError>(ChunkError::InvalidTypeCode)
        } else if received.crc() != chunk.crc() {
            Err::<ChunkView, ChunkError>(ChunkError::CrcMismatch)
        } else {
            Ok::<ChunkView, ChunkError>(received)
        },
        decode_frame(
            be_bytes(chunk.length()) + received.chunk_type + received.data + be_bytes(chunk.crc()),
        ) != Ok::<ChunkView, ChunkError>(chunk),
{
    let frame = be_bytes(chunk.length()) + received.chunk_type + received.data + be_bytes(
        chunk.crc(),
    );
    lemma_be_value_of_be_bytes(chunk.length());
    lemma_be_value_of_be_bytes(chunk.crc());
    assert(frame.subrange(0, 4) =~= be_bytes(chunk.length()));
    assert(frame.subrange(4, 8) =~= received.chunk_type);
    assert(frame.subrange(8, frame.len() - 4) =~= received.data);
    assert(frame.subrange(frame.len() - 4, frame.len() as int) =~= be_bytes(chunk.crc()));
    assert(checked_region(frame) =~= received.checked_bytes());
}

/// The four fields of a frame, as they lie in it.
pub proof fn lemma_frame_fields(chunk: ChunkView)
    requires
        chunk.wf(),
    ensures
        chunk.frame().len() == 12 + chunk.data.len(),
        chunk.frame().subrange(0, 4) == be_bytes(chunk.length()),
        chunk.frame().subrange(4, 8) == chunk.chunk_type,
        chunk.frame().subrange(8, chunk.frame().len() - 4) == chunk.data,
        chunk.frame().subrange(chunk.frame().len() - 4, chunk.frame().len() as int) == be_bytes(
            chunk.crc(),
        ),
        checked_region(chunk.frame()) == chunk.checked_bytes(),
{
    let frame = chunk.frame();
    let length = be_bytes(chunk.length());
    let crc = be_bytes(chunk.crc());
    assert(length.len() == 4 && crc.len() == 4);
    assert(frame.subrange(0, 4) =~= length);
    assert(frame.subrange(4, 8) =~= chunk.chunk_type);
    assert(frame.subrange(8, frame.len() - 4) =~= chunk.data);
    assert(frame.subrange(frame.len() - 4, frame.len() as int) =~= crc);
    assert(checked_region(frame) =~= chunk.checked_bytes());
}

} // verus!
