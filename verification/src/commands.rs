//! The four things done to a PNG file: hide a message in it, read a message
//! back, take a message out, and list what the file holds.
//!
//! Each takes the file's bytes and gives back bytes or text. Reading and
//! writing the file is left to the caller.

use std::str::FromStr;
use vstd::prelude::*;
use vstd::std_specs::convert::FromSpec;
use vstd::string::StringSliceAdditionalSpecFns;
use vstd::utf8::{
    decode_utf8, encode_utf8, encode_utf8_decode_utf8, encode_utf8_valid_utf8, valid_utf8,
};

use crate::chunk::{Chunk, ChunkError, ChunkView};
use crate::chunk_type::{bit5, decode_type_text, is_type_code, ChunkType};
use crate::png::{
    decode_png, encode_png, first_of_type, lemma_all_valid_push, lemma_decode_of_encode,
    lemma_encode_of_decode, lemma_encode_push, lemma_first_of_type_push, texts, Png, PngError,
};

verus! {

/// Why a command could not be carried out.
#[derive(Debug, Clone, Copy, PartialEq, Eq, Structural)]
pub enum CommandError {
    /// The file was not accepted, or holds no chunk of the type asked for.
    Png(PngError),
    /// The type code or the message cannot make a chunk, or the chunk found
    /// holds no text.
    Chunk(ChunkError),
}

impl CommandError {
    /// The error in words.
    pub open spec fn text(self) -> Seq<char> {
        match self {
            CommandError::Png(e) => e.text(),
            CommandError::Chunk(e) => e.text(),
        }
    }

    /// The error in words.
    pub fn to_string(&self) -> (s: String)
        ensures
            s@ == self.text(),
    {
        match *self {
            CommandError::Png(e) => e.to_string(),
            CommandError::Chunk(e) => e.to_string(),
        }
    }
}

/// What hiding `message` under the type code spelled by `chunk_type` makes
/// of `image`: the same file with one more chunk at its end. The file is
/// looked at first, then the type code, then the length of the message. The
/// type code's reserved bit is not looked at.
pub open spec fn encoded(image: Seq<u8>, chunk_type: Seq<u8>, message: Seq<u8>) -> Result<
    Seq<u8>,
    CommandError,
> {
    match decode_png(image) {
        Err(e) => Err(CommandError::Png(e)),
        Ok(chunks) => match decode_type_text(chunk_type) {
            Err(e) => Err(CommandError::Chunk(ChunkError::from_spec(e))),
            Ok(code) => if message.len() > u32::MAX {
                Err(CommandError::Chunk(ChunkError::LengthOverflow))
            } else {
                Ok(encode_png(chunks.push(ChunkView { chunk_type: code, data: message })))
            },
        },
    }
}

/// The message that `image` holds under the type code spelled by
/// `chunk_type`: the payload of the first chunk of that type, as text.
pub open spec fn decoded(image: Seq<u8>, chunk_type: Seq<u8>) -> Result<Seq<char>, CommandError> {
    match decode_png(image) {
        Err(e) => Err(CommandError::Png(e)),
        Ok(chunks) => match first_of_type(chunks, chunk_type) {
            None => Err(CommandError::Png(PngError::NotFound)),
            Some(i) => if valid_utf8(chunks[i].data) {
                Ok(decode_utf8(chunks[i].data))
            } else {
                Err(CommandError::Chunk(ChunkError::InvalidEncoding))
            },
        },
    }
}

/// What taking out the first chunk of the type code spelled by `chunk_type`
/// makes of `image`.
pub open spec fn removed(image: Seq<u8>, chunk_type: Seq<u8>) -> Result<Seq<u8>, CommandError> {
    match decode_png(image) {
        Err(e) => Err(CommandError::Png(e)),
        Ok(chunks) => match first_of_type(chunks, chunk_type) {
            None => Err(CommandError::Png(PngError::NotFound)),
            Some(i) => Ok(encode_png(chunks.remove(i))),
        },
    }
}

/// The chunks of `image` in words.
pub open spec fn printed(image: Seq<u8>) -> Result<Seq<char>, CommandError> {
    match decode_png(image) {
        Err(e) => Err(CommandError::Png(e)),
        Ok(chunks) => Ok(texts(chunks)),
    }
}

/// Hides `message` in the file `image`, in a new last chunk of the type
/// spelled by `chunk_type`, and gives back the new file.
pub fn encode(image: &[u8], chunk_type: &str, message: &str) -> (r: Result<Vec<u8>, CommandError>)
    ensures
        match r {
            Ok(out) => encoded(image@, chunk_type.spec_bytes(), message.spec_bytes()) == Ok::<
                Seq<u8>,
                CommandError,
            >(out@),
            Err(e) => encoded(image@, chunk_type.spec_bytes(), message.spec_bytes()) == Err::<
                Seq<u8>,
                CommandError,
            >(e),
        },
{
    let mut png: Png = match Png::try_from(image) {
        Ok(png) => png,
        Err(e) => {
            return Err(CommandError::Png(e));
        },
    };
    let code: ChunkType = match ChunkType::from_str(chunk_type) {
        Ok(code) => code,
        Err(e) => {
            return Err(CommandError::Chunk(ChunkError::from(e)));
        },
    };
    let text: &[u8] = message.as_bytes();
    if text.len() as u64 > u32::MAX as u64 {
        return Err(CommandError::Chunk(ChunkError::LengthOverflow));
    }
    let mut data: Vec<u8> = Vec::new();
    data.extend_from_slice(text);
    assert(data@ =~= message.spec_bytes());
    png.append_chunk(Chunk::new(code, data));
    Ok(png.as_bytes())
}

/// Reads the message that the file `image` holds in its first chunk of the
/// type spelled by `chunk_type`.
pub fn decode(image: &[u8], chunk_type: &str) -> (r: Result<String, CommandError>)
    ensures
        match r {
            Ok(message) => decoded(image@, chunk_type.spec_bytes()) == Ok::<
                Seq<char>,
                CommandError,
            >(message@),
            Err(e) => decoded(image@, chunk_type.spec_bytes()) == Err::<Seq<char>, CommandError>(e),
        },
{
    let png: Png = match Png::try_from(image) {
        Ok(png) => png,
        Err(e) => {
            return Err(CommandError::Png(e));
        },
    };
    match png.chunk_by_type(chunk_type) {
        None => Err(CommandError::Png(PngError::NotFound)),
        Some(chunk) => match chunk.data_as_string() {
            Ok(message) => Ok(message),
            Err(e) => Err(CommandError::Chunk(e)),
        },
    }
}

/// Takes the first chunk of the type spelled by `chunk_type` out of the file
/// `image`, and gives back the new file.
pub fn remove(image: &[u8], chunk_type: &str) -> (r: Result<Vec<u8>, CommandError>)
    ensures
        match r {
            Ok(out) => removed(image@, chunk_type.spec_bytes()) == Ok::<Seq<u8>, CommandError>(
                out@,
            ),
            Err(e) => removed(image@, chunk_type.spec_bytes()) == Err::<Seq<u8>, CommandError>(e),
        },
{
    let mut png: Png = match Png::try_from(image) {
        Ok(png) => png,
        Err(e) => {
            return Err(CommandError::Png(e));
        },
    };
    match png.remove_first_chunk(chunk_type) {
        Ok(_) => Ok(png.as_bytes()),
        Err(e) => Err(CommandError::Png(e)),
    }
}

/// Lists the chunks of the file `image`, each in words.
pub fn print_chunks(image: &[u8]) -> (r: Result<String, CommandError>)
    ensures
        match r {
            Ok(listing) => printed(image@) == Ok::<Seq<char>, CommandError>(listing@),
            Err(e) => printed(image@) == Err::<Seq<char>, CommandError>(e),
        },
{
    match Png::try_from(image) {
        Ok(png) => Ok(png.to_string()),
        Err(e) => Err(CommandError::Png(e)),
    }
}

/// Hiding a message leaves every byte of the file in place and puts the new
/// chunk's frame behind them.
pub proof fn lemma_encoded_appends(image: Seq<u8>, chunk_type: Seq<u8>, message: Seq<u8>)
    requires
        encoded(image, chunk_type, message) is Ok,
    ensures
        encoded(image, chunk_type, message) == Ok::<Seq<u8>, CommandError>(
            image + (ChunkView { chunk_type, data: message }).frame(),
        ),
{
    let chunks = decode_png(image)->Ok_0;
    let chunk = ChunkView { chunk_type, data: message };
    lemma_encode_of_decode(image);
    lemma_encode_push(chunks, chunk);
}

/// What `encoded` puts at the end of a file is found again: where the file
/// held no chunk of the type before, and the type's reserved bit is clear,
/// `decoded` reads the message back and `removed` gives back the file as it
/// was.
pub proof fn lemma_encoded_is_found(image: Seq<u8>, chunk_type: Seq<u8>, message: Seq<char>)
    requires
        decode_png(image) is Ok,
        first_of_type(decode_png(image)->Ok_0, chunk_type) is None,
        is_type_code(chunk_type),
        !bit5(chunk_type[2]),
        encode_utf8(message).len() <= u32::MAX,
    ensures
        encoded(image, chunk_type, encode_utf8(message)) is Ok,
        decoded(encoded(image, chunk_type, encode_utf8(message))->Ok_0, chunk_type) == Ok::<
            Seq<char>,
            CommandError,
        >(message),
        removed(encoded(image, chunk_type, encode_utf8(message))->Ok_0, chunk_type) == Ok::<
            Seq<u8>,
            CommandError,
        >(image),
{
    let chunks = decode_png(image)->Ok_0;
    let chunk = ChunkView { chunk_type, data: encode_utf8(message) };
    let longer = chunks.push(chunk);
    lemma_encode_of_decode(image);
    lemma_all_valid_push(chunks, chunk);
    lemma_decode_of_encode(longer);
    lemma_first_of_type_push(chunks, chunk, chunk_type);
    encode_utf8_valid_utf8(message);
    encode_utf8_decode_utf8(message);
    assert(longer[chunks.len() as int] == chunk);
    assert(longer.remove(chunks.len() as int) == chunks) by {
        assert(longer.remove(chunks.len() as int) =~= chunks);
    }
}

} // verus!
