//! A PNG file as an ordered list of chunks behind the fixed signature.
//!
//! Nothing is asked of the chunks beyond what each frame asks of itself: the
//! list may be empty, and no header or end chunk is looked for.

use vstd::prelude::*;
use vstd::seq_lib::lemma_flatten_concat;
use vstd::std_specs::convert::TryFromSpecImpl;
use vstd::string::{StringExecFns, StringSliceAdditionalSpecFns};

use crate::be32::{be_value, lemma_be_value_of_be_bytes, u32_from_be_bytes};
use crate::chunk::{
    decode_frame, lemma_decode_of_frame, lemma_frame_fields, lemma_frame_of_decode, Chunk,
    ChunkError, ChunkView,
};
use crate::text::{ascii_chars, decimal, decimal_string};

verus! {

/// The eight bytes that every PNG file starts with.
pub const STANDARD_HEADER: [u8; 8] = [137, 80, 78, 71, 13, 10, 26, 10];

/// The signature as a sequence.
pub open spec fn signature() -> Seq<u8> {
    seq![137u8, 80u8, 78u8, 71u8, 13u8, 10u8, 26u8, 10u8]
}

/// `bytes` starts with the signature.
pub open spec fn has_signature(bytes: Seq<u8>) -> bool {
    bytes.len() >= 8 && bytes.subrange(0, 8) == signature()
}

/// The frames of the chunks, one after the other.
pub open spec fn frames(chunks: Seq<ChunkView>) -> Seq<u8> {
    chunks.map_values(|chunk: ChunkView| chunk.frame()).flatten()
}

/// The file that holds the chunks: the signature, then their frames.
pub open spec fn encode_png(chunks: Seq<ChunkView>) -> Seq<u8> {
    signature() + frames(chunks)
}

/// The chunks in words, one after the other.
pub open spec fn texts(chunks: Seq<ChunkView>) -> Seq<char> {
    chunks.map_values(|chunk: ChunkView| chunk.text()).flatten()
}

/// Every chunk of the list is well formed: what any list of chunks is.
pub open spec fn all_wf(chunks: Seq<ChunkView>) -> bool {
    forall|i: int| 0 <= i < chunks.len() ==> (#[trigger] chunks[i]).wf()
}

/// Every chunk of the list is well formed and has its reserved bit clear:
/// what a file can hold.
pub open spec fn all_valid(chunks: Seq<ChunkView>) -> bool {
    forall|i: int| 0 <= i < chunks.len() ==> (#[trigger] chunks[i]).wf() && chunks[i].is_valid()
}

/// The bytes of the frame that starts `rest`: as many as its length field
/// announces, or all of `rest` where that holds fewer.
pub open spec fn first_frame(rest: Seq<u8>) -> Seq<u8> {
    if rest.len() < 12 || rest.len() - 12 < be_value(rest.subrange(0, 4)) {
        rest
    } else {
        rest.subrange(0, 12 + be_value(rest.subrange(0, 4)))
    }
}

/// `chunks`, followed by what `rest` decoded to.
pub open spec fn after(chunks: Seq<ChunkView>, rest: Result<Seq<ChunkView>, PngError>) -> Result<
    Seq<ChunkView>,
    PngError,
> {
    match rest {
        Ok(more) => Ok(chunks + more),
        Err(e) => Err(e),
    }
}

/// What the frames from `offset` to the end of `bytes` decode to: the chunks
/// in order, or the first frame that is not accepted.
pub open spec fn decode_frames(bytes: Seq<u8>, offset: int) -> Result<Seq<ChunkView>, PngError>
    decreases bytes.len() - offset,
{
    if offset < 0 || offset >= bytes.len() {
        Ok(Seq::empty())
    } else {
        let first = first_frame(bytes.subrange(offset, bytes.len() as int));
        match decode_frame(first) {
            Err(error) => Err(PngError::BadChunk { offset: offset as usize, error }),
            Ok(chunk) => after(seq![chunk], decode_frames(bytes, offset + first.len())),
        }
    }
}

/// What a whole file decodes to.
pub open spec fn decode_png(bytes: Seq<u8>) -> Result<Seq<ChunkView>, PngError> {
    if !has_signature(bytes) {
        Err(PngError::BadSignature)
    } else {
        decode_frames(bytes, 8)
    }
}

/// Some chunk of the list has the type code `code`.
pub open spec fn has_type(chunks: Seq<ChunkView>, code: Seq<u8>) -> bool {
    exists|i: int| 0 <= i < chunks.len() && (#[trigger] chunks[i]).chunk_type == code
}

/// The chunk at `i` is the first of the list with the type code `code`.
pub open spec fn is_first_of_type(chunks: Seq<ChunkView>, code: Seq<u8>, i: int) -> bool {
    &&& 0 <= i < chunks.len()
    &&& chunks[i].chunk_type == code
    &&& forall|j: int| 0 <= j < i ==> (#[trigger] chunks[j]).chunk_type != code
}

/// Where the first chunk with the type code `code` stands in the list, if
/// any chunk has that code.
pub open spec fn first_of_type(chunks: Seq<ChunkView>, code: Seq<u8>) -> Option<int> {
    if exists|i: int| is_first_of_type(chunks, code, i) {
        Some(choose|i: int| is_first_of_type(chunks, code, i))
    } else {
        None
    }
}

/// The chunks of the list with the type code `code`, in the order of the
/// list.
pub open spec fn of_type(chunks: Seq<ChunkView>, code: Seq<u8>) -> Seq<ChunkView> {
    chunks.filter(|chunk: ChunkView| chunk.chunk_type == code)
}

/// Why a buffer was not accepted as a PNG file, or a chunk not found in one.
#[derive(Debug, Clone, Copy, PartialEq, Eq, Structural)]
pub enum PngError {
    /// The buffer does not start with the signature.
    BadSignature,
    /// A frame was not accepted: the offset in the buffer at which it starts,
    /// and what was wrong with it.
    BadChunk { offset: usize, error: ChunkError },
    /// No chunk has the type that was asked for.
    NotFound,
}

impl PngError {
    /// The error in words. A frame that was not accepted is named by the
    /// offset at which it starts, in decimal digits.
    pub open spec fn text(self) -> Seq<char> {
        match self {
            PngError::BadSignature => "file does not start with the png signature"@,
            PngError::BadChunk { offset, error } => "chunk at offset "@ + ascii_chars(
                decimal(offset as nat),
            ) + ": "@ + error.text(),
            PngError::NotFound => "incorrect chunk type"@,
        }
    }

    /// The error in words.
    pub fn to_string(&self) -> (s: String)
        ensures
            s@ == self.text(),
    {
        match *self {
            PngError::BadSignature => "file does not start with the png signature".to_owned(),
            PngError::BadChunk { offset, error } => {
                let mut s: String = String::new();
                s.append("chunk at offset ");
                s.append(decimal_string(offset as u64).as_str());
                s.append(": ");
                s.append(error.to_string().as_str());
                assert(s@ =~= self.text());
                s
            },
            PngError::NotFound => "incorrect chunk type".to_owned(),
        }
    }
}

/// The views of a list of chunks.
pub open spec fn chunk_views(chunks: Seq<Chunk>) -> Seq<ChunkView> {
    chunks.map_values(|chunk: Chunk| chunk@)
}

/// A PNG file: its chunks, in the order in which the file holds them.
#[derive(Debug)]
pub struct Png {
    chunks: Vec<Chunk>,
}

impl View for Png {
    type V = Seq<ChunkView>;

    closed spec fn view(&self) -> Seq<ChunkView> {
        chunk_views(self.chunks@)
    }
}

impl Png {
    /// A file that holds the given chunks, in their order.
    pub fn from_chunks(chunks: Vec<Chunk>) -> (png: Png)
        ensures
            png@ == chunk_views(chunks@),
    {
        Png { chunks }
    }

    /// The signature.
    pub fn header(&self) -> (r: &[u8; 8])
        ensures
            r@ == signature(),
    {
        assert(STANDARD_HEADER@ =~= signature());
        &STANDARD_HEADER
    }

    /// The chunks, in order.
    pub fn chunks(&self) -> (r: &[Chunk])
        ensures
            chunk_views(r@) == self@,
    {
        self.chunks.as_slice()
    }

    /// Puts a chunk at the end of the list. Nothing else moves, and a chunk
    /// of the same type that is already there stays.
    pub fn append_chunk(&mut self, chunk: Chunk)
        ensures
            final(self)@ == old(self)@.push(chunk@),
    {
        assert(chunk_views(self.chunks@.push(chunk)) =~= chunk_views(self.chunks@).push(chunk@));
        self.chunks.push(chunk);
    }

    /// The file's bytes: the signature, then the frame of each chunk in
    /// order.
    pub fn as_bytes(&self) -> (out: Vec<u8>)
        ensures
            out@ == encode_png(self@),
            all_wf(self@),
            all_valid(self@) ==> decode_png(out@) == Ok::<Seq<ChunkView>, PngError>(self@),
    {
        proof {
            if all_valid(self@) {
                lemma_decode_of_encode(self@);
            }
        }
        let mut out: Vec<u8> = Vec::new();
        out.extend_from_slice(STANDARD_HEADER.as_slice());
        assert(out@ =~= signature() + frames(self@.take(0)));
        let mut i: usize = 0;
        while i < self.chunks.len()
            invariant
                i <= self.chunks@.len(),
                out@ == signature() + frames(self@.take(i as int)),
                forall|j: int| 0 <= j < i ==> (#[trigger] self@[j]).wf(),
            decreases self.chunks@.len() - i,
        {
            let frame: Vec<u8> = self.chunks[i].as_bytes();
            proof {
                lemma_frames_push(self@.take(i as int), self@[i as int]);
                assert(self@.take(i as int).push(self@[i as int]) =~= self@.take(i + 1));
            }
            out.extend_from_slice(frame.as_slice());
            assert(out@ =~= signature() + frames(self@.take(i + 1)));
            i += 1;
        }
        assert(self@.take(i as int) =~= self@);
        out
    }

    /// The file in words: each chunk in words, in order.
    pub fn to_string(&self) -> (s: String)
        ensures
            s@ == texts(self@),
    {
        let ghost in_words = |chunk: ChunkView| chunk.text();
        let mut s: String = String::new();
        let mut i: usize = 0;
        assert(self@.take(0).map_values(in_words) =~= Seq::<Seq<char>>::empty());
        while i < self.chunks.len()
            invariant
                i <= self.chunks@.len(),
                in_words == |chunk: ChunkView| chunk.text(),
                s@ == self@.take(i as int).map_values(in_words).flatten(),
            decreases self.chunks@.len() - i,
        {
            let text: String = self.chunks[i].to_string();
            proof {
                let ghost before = self@.take(i as int).map_values(in_words);
                before.lemma_flatten_push(text@);
                assert(self@.take(i + 1).map_values(in_words) =~= before.push(text@));
            }
            s.append(text.as_str());
            i += 1;
        }
        assert(self@.take(i as int) =~= self@);
        s
    }

    /// All chunks whose type code is spelled by `chunk_type`, in the order
    /// of the list.
    pub fn chunks_by_type(&self, chunk_type: &str) -> (r: Vec<&Chunk>)
        ensures
            r@.map_values(|chunk: &Chunk| chunk@) == of_type(self@, chunk_type.spec_bytes()),
    {
        let ghost code = chunk_type.spec_bytes();
        let ghost is_code = |chunk: ChunkView| chunk.chunk_type == code;
        let mut found: Vec<&Chunk> = Vec::new();
        let mut i: usize = 0;
        while i < self.chunks.len()
            invariant
                i <= self.chunks@.len(),
                code == chunk_type.spec_bytes(),
                is_code == |chunk: ChunkView| chunk.chunk_type == code,
                found@.map_values(|chunk: &Chunk| chunk@) == self@.take(i as int).filter(is_code),
            decreases self.chunks@.len() - i,
        {
            let chunk: &Chunk = &self.chunks[i];
            proof {
                self@.take(i as int).lemma_filter_push(self@[i as int], is_code);
                assert(self@.take(i as int).push(self@[i as int]) =~= self@.take(i + 1));
            }
            if chunk.chunk_type().is_text(chunk_type) {
                assert(found@.push(chunk).map_values(|chunk: &Chunk| chunk@) =~= found@.map_values(
                    |chunk: &Chunk| chunk@,
                ).push(chunk@));
                found.push(chunk);
            }
            i += 1;
        }
        assert(self@.take(i as int) =~= self@);
        found
    }

    /// The position of the first chunk whose type code is spelled by
    /// `chunk_type`, if there is one.
    pub fn position_by_type(&self, chunk_type: &str) -> (r: Option<usize>)
        ensures
            match r {
                Some(i) => first_of_type(self@, chunk_type.spec_bytes()) == Some(i as int),
                None => first_of_type(self@, chunk_type.spec_bytes()) is None,
            },
            r matches Some(i) ==> i < self@.len(),
    {
        proof {
            lemma_first_of_type_none(self@, chunk_type.spec_bytes());
        }
        let mut i: usize = 0;
        while i < self.chunks.len()
            invariant
                i <= self.chunks@.len(),
                forall|j: int|
                    0 <= j < i ==> (#[trigger] self@[j]).chunk_type != chunk_type.spec_bytes(),
            decreases self.chunks@.len() - i,
        {
            if self.chunks[i].chunk_type().is_text(chunk_type) {
                proof {
                    lemma_first_of_type_some(self@, chunk_type.spec_bytes(), i as int);
                }
                return Some(i);
            }
            i += 1;
        }
        None
    }

    /// The first chunk whose type code is spelled by `chunk_type`, if there
    /// is one.
    pub fn chunk_by_type(&self, chunk_type: &str) -> (r: Option<&Chunk>)
        ensures
            match first_of_type(self@, chunk_type.spec_bytes()) {
                Some(i) => r matches Some(chunk) && chunk@ == self@[i],
                None => r is None,
            },
    {
        match self.position_by_type(chunk_type) {
            Some(i) => Some(&self.chunks[i]),
            None => None,
        }
    }

    /// Takes the first chunk whose type code is spelled by `chunk_type` out
    /// of the list and hands it back. The chunks behind it move up by one.
    /// Where no chunk has that type, the list stays as it is.
    pub fn remove_first_chunk(&mut self, chunk_type: &str) -> (r: Result<Chunk, PngError>)
        ensures
            match first_of_type(old(self)@, chunk_type.spec_bytes()) {
                Some(i) => {
                    &&& r matches Ok(chunk) && chunk@ == old(self)@[i]
                    &&& final(self)@ == old(self)@.remove(i)
                },
                None => {
                    &&& r == Err::<Chunk, PngError>(PngError::NotFound)
                    &&& final(self)@ == old(self)@
                },
            },
    {
        match self.position_by_type(chunk_type) {
            Some(i) => {
                assert(chunk_views(self.chunks@.remove(i as int)) =~= chunk_views(
                    self.chunks@,
                ).remove(i as int));
                let chunk: Chunk = self.chunks.remove(i);
                Ok(chunk)
            },
            None => Err(PngError::NotFound),
        }
    }
}

/// Tells whether `bytes` starts with the signature.
pub fn starts_with_signature(bytes: &[u8]) -> (r: bool)
    ensures
        r == has_signature(bytes@),
{
    if bytes.len() < 8 {
        return false;
    }
    let mut i: usize = 0;
    while i < 8
        invariant
            i <= 8,
            bytes@.len() >= 8,
            forall|j: int| 0 <= j < i ==> bytes@[j] == #[trigger] signature()[j],
        decreases 8 - i,
    {
        if bytes[i] != STANDARD_HEADER[i] {
            assert(bytes@.subrange(0, 8)[i as int] != signature()[i as int]);
            return false;
        }
        i += 1;
    }
    assert(bytes@.subrange(0, 8) =~= signature());
    true
}

/// The length of the frame that starts `rest`: twelve bytes and what its
/// length field announces, or all of `rest` where that holds fewer.
pub fn first_frame_len(rest: &[u8]) -> (n: usize)
    ensures
        n <= rest@.len(),
        first_frame(rest@) == rest@.subrange(0, n as int),
{
    let available: usize = rest.len();
    if available < 12 {
        assert(rest@.subrange(0, available as int) =~= rest@);
        return available;
    }
    let length_field: [u8; 4] = [rest[0], rest[1], rest[2], rest[3]];
    assert(length_field@ =~= rest@.subrange(0, 4));
    let declared: u32 = u32_from_be_bytes(length_field);
    if (available - 12) as u64 >= declared as u64 {
        12 + declared as usize
    } else {
        assert(rest@.subrange(0, available as int) =~= rest@);
        available
    }
}

impl<'a> TryFrom<&'a [u8]> for Png {
    type Error = PngError;

    /// Decodes a whole file: the signature, then frame after frame until the
    /// bytes are used up. The first frame that is not accepted ends the
    /// decoding, and the error says where that frame starts.
    fn try_from(bytes: &'a [u8]) -> (r: Result<Self, Self::Error>)
        ensures
            match r {
                Ok(png) => decode_png(bytes@) == Ok::<Seq<ChunkView>, PngError>(png@),
                Err(e) => decode_png(bytes@) == Err::<Seq<ChunkView>, PngError>(e),
            },
            !has_signature(bytes@) ==> r is Err && r->Err_0 == PngError::BadSignature,
            r matches Ok(png) ==> all_valid(png@) && encode_png(png@) == bytes@,
    {
        if !starts_with_signature(bytes) {
            return Err(PngError::BadSignature);
        }
        let total: usize = bytes.len();
        let mut chunks: Vec<Chunk> = Vec::new();
        let mut offset: usize = 8;
        while offset < total
            invariant
                total == bytes@.len(),
                8 <= offset <= total,
                has_signature(bytes@),
                decode_frames(bytes@, 8) == after(
                    chunk_views(chunks@),
                    decode_frames(bytes@, offset as int),
                ),
            decreases total - offset,
        {
            let rest: &[u8] = &bytes[offset..total];
            let n: usize = first_frame_len(rest);
            let frame: &[u8] = &rest[0..n];
            match Chunk::try_from(frame) {
                Err(error) => {
                    return Err(PngError::BadChunk { offset, error });
                },
                Ok(chunk) => {
                    proof {
                        let ghost before = chunk_views(chunks@);
                        let ghost rest_result = decode_frames(bytes@, offset + n);
                        assert(chunk_views(chunks@.push(chunk)) =~= before + seq![chunk@]);
                        assert(after(before, after(seq![chunk@], rest_result)) == after(
                            before + seq![chunk@],
                            rest_result,
                        )) by {
                            if let Ok(more) = rest_result {
                                assert(before + (seq![chunk@] + more) =~= (before + seq![chunk@])
                                    + more);
                            }
                        }
                    }
                    chunks.push(chunk);
                    offset = offset + n;
                },
            }
        }
        proof {
            assert(chunk_views(chunks@) + Seq::<ChunkView>::empty() =~= chunk_views(chunks@));
            lemma_encode_of_decode(bytes@);
        }
        Ok(Png { chunks })
    }
}

impl<'a> TryFromSpecImpl<&'a [u8]> for Png {
    /// Two files with the same view need not be the same value, so the
    /// contract is stated on `try_from` itself, over views.
    open spec fn obeys_try_from_spec() -> bool {
        false
    }

    open spec fn try_from_spec(bytes: &'a [u8]) -> Result<Self, Self::Error> {
        match decode_png(bytes@) {
            Ok(view) => Ok(choose|png: Png| png@ == view),
            Err(e) => Err(e),
        }
    }
}

/// Round trip: the file that holds a list of chunks decodes to that list,
/// whenever every chunk is one that a file can hold.
pub proof fn lemma_decode_of_encode(chunks: Seq<ChunkView>)
    requires
        all_valid(chunks),
    ensures
        decode_png(encode_png(chunks)) == Ok::<Seq<ChunkView>, PngError>(chunks),
{
    let bytes = encode_png(chunks);
    assert(bytes.subrange(0, 8) =~= signature());
    assert(bytes.subrange(8, bytes.len() as int) =~= frames(chunks));
    lemma_decode_of_frames(bytes, 8, chunks);
}

/// A file that decodes holds nothing but its chunks: encoding them gives the
/// very same bytes.
pub proof fn lemma_encode_of_decode(bytes: Seq<u8>)
    requires
        decode_png(bytes) is Ok,
    ensures
        all_valid(decode_png(bytes)->Ok_0),
        encode_png(decode_png(bytes)->Ok_0) == bytes,
{
    lemma_frames_of_decode(bytes, 8);
    lemma_split_rest(bytes, 0, 8);
    lemma_whole(bytes);
}

/// Frames that decode hold nothing but their chunks: the chunks' frames are
/// the very same bytes.
pub proof fn lemma_frames_of_decode(bytes: Seq<u8>, offset: int)
    requires
        0 <= offset <= bytes.len(),
        decode_frames(bytes, offset) is Ok,
    ensures
        all_valid(decode_frames(bytes, offset)->Ok_0),
        frames(decode_frames(bytes, offset)->Ok_0) == bytes.subrange(offset, bytes.len() as int),
    decreases bytes.len() - offset,
{
    let rest = bytes.subrange(offset, bytes.len() as int);
    if offset >= bytes.len() {
        assert(rest =~= Seq::<u8>::empty());
    } else {
        let first = first_frame(rest);
        let chunk = decode_frame(first)->Ok_0;
        let next = offset + first.len();
        let more = decode_frames(bytes, next)->Ok_0;
        lemma_first_frame_is_prefix(rest);
        lemma_frame_of_decode(first);
        lemma_frames_of_decode(bytes, next);
        lemma_all_valid_cons(chunk, more);
        lemma_frames_cons(chunk, more);
        lemma_split_rest(bytes, offset, first.len() as int);
    }
}

/// The frames of chunks that a file can hold decode to those chunks.
pub proof fn lemma_decode_of_frames(bytes: Seq<u8>, offset: int, chunks: Seq<ChunkView>)
    requires
        0 <= offset <= bytes.len(),
        all_valid(chunks),
        bytes.subrange(offset, bytes.len() as int) == frames(chunks),
    ensures
        decode_frames(bytes, offset) == Ok::<Seq<ChunkView>, PngError>(chunks),
    decreases chunks.len(),
{
    if chunks.len() == 0 {
        assert(chunks =~= Seq::<ChunkView>::empty());
    } else {
        let chunk = chunks.first();
        let more = chunks.drop_first();
        lemma_all_valid_drop_first(chunks);
        lemma_frames_cons(chunk, more);
        lemma_frame_fields(chunk);
        lemma_decode_of_frame(chunk);
        lemma_first_frame_of_frame(chunk, frames(more));
        lemma_rest_behind(bytes, offset, chunk.frame(), frames(more));
        lemma_decode_of_frames(bytes, offset + chunk.frame().len(), more);
    }
}

/// A chunk put at the end of a list puts its frame at the end of the frames.
pub proof fn lemma_frames_push(chunks: Seq<ChunkView>, chunk: ChunkView)
    ensures
        frames(chunks.push(chunk)) == frames(chunks) + chunk.frame(),
{
    lemma_frames_add(chunks, seq![chunk]);
    lemma_frames_single(chunk);
    assert(chunks.push(chunk) =~= chunks + seq![chunk]);
}

/// A chunk put at the end of a list puts its frame at the end of the file.
pub proof fn lemma_encode_push(chunks: Seq<ChunkView>, chunk: ChunkView)
    ensures
        encode_png(chunks.push(chunk)) == encode_png(chunks) + chunk.frame(),
{
    lemma_frames_push(chunks, chunk);
    lemma_add_is_associative(signature(), frames(chunks), chunk.frame());
}

/// A chunk that a file can hold, put at the end of a list of such chunks,
/// makes a list of such chunks.
pub proof fn lemma_all_valid_push(chunks: Seq<ChunkView>, chunk: ChunkView)
    requires
        all_valid(chunks),
        chunk.wf(),
        chunk.is_valid(),
    ensures
        all_valid(chunks.push(chunk)),
{
    let longer = chunks.push(chunk);
    assert forall|i: int| 0 <= i < longer.len() implies (#[trigger] longer[i]).wf()
        && longer[i].is_valid() by {
        if i < chunks.len() {
            assert(longer[i] == chunks[i]);
        }
    }
}

/// The frames of two lists, one after the other, are the frames of the
/// joined list.
pub proof fn lemma_frames_add(left: Seq<ChunkView>, right: Seq<ChunkView>)
    ensures
        frames(left + right) == frames(left) + frames(right),
{
    let framed = |chunk: ChunkView| chunk.frame();
    assert((left + right).map_values(framed) =~= left.map_values(framed) + right.map_values(
        framed,
    ));
    lemma_flatten_concat(left.map_values(framed), right.map_values(framed));
}

/// The frames of a list of one chunk are that chunk's frame.
pub proof fn lemma_frames_single(chunk: ChunkView)
    ensures
        frames(seq![chunk]) == chunk.frame(),
{
    let framed = |chunk: ChunkView| chunk.frame();
    let single = seq![chunk].map_values(framed);
    assert(single.len() == 1 && single[0] == chunk.frame());
    single.lemma_flatten_singleton();
}

/// The frames of a list are the frame of its first chunk, then the frames
/// of the others.
pub proof fn lemma_frames_cons(chunk: ChunkView, more: Seq<ChunkView>)
    ensures
        frames(seq![chunk] + more) == chunk.frame() + frames(more),
{
    lemma_frames_add(seq![chunk], more);
    lemma_frames_single(chunk);
}

/// The first chunk of a type is found at `i` exactly if the chunk at `i` is
/// the first of that type.
pub proof fn lemma_first_of_type_some(chunks: Seq<ChunkView>, code: Seq<u8>, i: int)
    ensures
        first_of_type(chunks, code) == Some(i) <==> is_first_of_type(chunks, code, i),
{
    if is_first_of_type(chunks, code, i) {
        let k = choose|k: int| is_first_of_type(chunks, code, k);
        assert(is_first_of_type(chunks, code, k));
        if k < i {
            assert(chunks[k].chunk_type != code);
        }
        if i < k {
            assert(chunks[i].chunk_type != code);
        }
    }
}

/// No first chunk of a type is found exactly if no chunk has the type.
pub proof fn lemma_first_of_type_none(chunks: Seq<ChunkView>, code: Seq<u8>)
    ensures
        first_of_type(chunks, code) is None <==> !has_type(chunks, code),
{
    if has_type(chunks, code) {
        let i = choose|i: int| 0 <= i < chunks.len() && (#[trigger] chunks[i]).chunk_type == code;
        lemma_has_first(chunks, code, i);
    }
    if exists|k: int| is_first_of_type(chunks, code, k) {
        let k = choose|k: int| is_first_of_type(chunks, code, k);
        assert(chunks[k].chunk_type == code);
    }
}

/// A chunk put at the end of a list does not come before the chunks that
/// are there: the first chunk of a type stays the first, and only where no
/// chunk had the type does the new one, if it has it, become the first.
pub proof fn lemma_first_of_type_push(chunks: Seq<ChunkView>, chunk: ChunkView, code: Seq<u8>)
    ensures
        first_of_type(chunks.push(chunk), code) == if first_of_type(chunks, code) is Some {
            first_of_type(chunks, code)
        } else if chunk.chunk_type == code {
            Some(chunks.len() as int)
        } else {
            None
        },
{
    let longer = chunks.push(chunk);
    lemma_first_of_type_none(chunks, code);
    lemma_first_of_type_none(longer, code);
    if first_of_type(chunks, code) is Some {
        let i = first_of_type(chunks, code)->Some_0;
        lemma_first_of_type_some(chunks, code, i);
        assert(is_first_of_type(longer, code, i)) by {
            assert(longer[i] == chunks[i]);
            assert forall|j: int| 0 <= j < i implies (#[trigger] longer[j]).chunk_type != code by {
                assert(longer[j] == chunks[j]);
            }
        }
        lemma_first_of_type_some(longer, code, i);
    } else if chunk.chunk_type == code {
        let n = chunks.len() as int;
        assert(is_first_of_type(longer, code, n)) by {
            assert(longer[n] == chunk);
            assert forall|j: int| 0 <= j < n implies (#[trigger] longer[j]).chunk_type != code by {
                assert(longer[j] == chunks[j]);
            }
        }
        lemma_first_of_type_some(longer, code, n);
    } else {
        assert forall|j: int| 0 <= j < longer.len() implies (#[trigger] longer[j]).chunk_type
            != code by {
            if j < chunks.len() {
                assert(longer[j] == chunks[j]);
            }
        }
    }
}

/// Among chunks of which one has the type, one is the first that has it.
proof fn lemma_has_first(chunks: Seq<ChunkView>, code: Seq<u8>, i: int)
    requires
        0 <= i < chunks.len(),
        chunks[i].chunk_type == code,
    ensures
        exists|k: int| is_first_of_type(chunks, code, k),
    decreases i,
{
    if exists|j: int| 0 <= j < i && (#[trigger] chunks[j]).chunk_type == code {
        let j = choose|j: int| 0 <= j < i && (#[trigger] chunks[j]).chunk_type == code;
        lemma_has_first(chunks, code, j);
    } else {
        assert(is_first_of_type(chunks, code, i));
    }
}

/// The first frame of some bytes is a prefix of them.
pub proof fn lemma_first_frame_is_prefix(rest: Seq<u8>)
    ensures
        first_frame(rest).len() <= rest.len(),
        first_frame(rest) == rest.subrange(0, first_frame(rest).len() as int),
        rest.len() > 0 ==> first_frame(rest).len() > 0,
{
    assert(rest.subrange(0, rest.len() as int) =~= rest);
}

/// The bytes from `offset` on are the next `n` of them, then those from
/// `offset + n` on.
proof fn lemma_split_rest(bytes: Seq<u8>, offset: int, n: int)
    requires
        0 <= offset,
        0 <= n,
        offset + n <= bytes.len(),
    ensures
        bytes.subrange(offset, bytes.len() as int) == bytes.subrange(
            offset,
            bytes.len() as int,
        ).subrange(0, n) + bytes.subrange(offset + n, bytes.len() as int),
{
    assert(bytes.subrange(offset, bytes.len() as int) =~= bytes.subrange(
        offset,
        bytes.len() as int,
    ).subrange(0, n) + bytes.subrange(offset + n, bytes.len() as int));
}

/// Joining three sequences gives the same, whichever two are joined first.
proof fn lemma_add_is_associative(a: Seq<u8>, b: Seq<u8>, c: Seq<u8>)
    ensures
        a + (b + c) == (a + b) + c,
{
    assert(a + (b + c) =~= (a + b) + c);
}

/// All of a sequence, taken as a range, is the sequence.
proof fn lemma_whole(bytes: Seq<u8>)
    ensures
        bytes.subrange(0, bytes.len() as int) == bytes,
{
    assert(bytes.subrange(0, bytes.len() as int) =~= bytes);
}

/// Bytes that start with a chunk's frame have that frame as their first
/// frame.
proof fn lemma_first_frame_of_frame(chunk: ChunkView, tail: Seq<u8>)
    requires
        chunk.wf(),
    ensures
        first_frame(chunk.frame() + tail) == chunk.frame(),
{
    let frame = chunk.frame();
    let rest = frame + tail;
    lemma_frame_fields(chunk);
    lemma_be_value_of_be_bytes(chunk.length());
    assert(rest.subrange(0, 4) =~= frame.subrange(0, 4));
    assert(rest.subrange(0, frame.len() as int) =~= frame);
}

/// What is left of `front + tail` behind `front` is `tail`.
proof fn lemma_rest_behind(bytes: Seq<u8>, offset: int, front: Seq<u8>, tail: Seq<u8>)
    requires
        0 <= offset <= bytes.len(),
        bytes.subrange(offset, bytes.len() as int) == front + tail,
    ensures
        bytes.subrange(offset + front.len(), bytes.len() as int) == tail,
{
    let rest = bytes.subrange(offset, bytes.len() as int);
    assert(rest.len() == front.len() + tail.len());
    assert forall|i: int| 0 <= i < tail.len() implies bytes[offset + front.len() + i]
        == tail[i] by {
        assert(rest[front.len() + i] == tail[i]);
    }
    assert(bytes.subrange(offset + front.len(), bytes.len() as int) =~= tail);
}

/// The chunks behind the first of a list of valid chunks are valid.
proof fn lemma_all_valid_drop_first(chunks: Seq<ChunkView>)
    requires
        all_valid(chunks),
        chunks.len() > 0,
    ensures
        all_valid(chunks.drop_first()),
        chunks.first().wf(),
        chunks.first().is_valid(),
        seq![chunks.first()] + chunks.drop_first() == chunks,
{
    let more = chunks.drop_first();
    assert forall|i: int| 0 <= i < more.len() implies (#[trigger] more[i]).wf()
        && more[i].is_valid() by {
        assert(more[i] == chunks[i + 1]);
    }
    assert(seq![chunks.first()] + more =~= chunks);
}

/// A valid chunk in front of valid chunks makes a list of valid chunks.
proof fn lemma_all_valid_cons(chunk: ChunkView, more: Seq<ChunkView>)
    requires
        chunk.wf(),
        chunk.is_valid(),
        all_valid(more),
    ensures
        all_valid(seq![chunk] + more),
{
    let chunks = seq![chunk] + more;
    assert forall|i: int| 0 <= i < chunks.len() implies (#[trigger] chunks[i]).wf()
        && chunks[i].is_valid() by {
        if i > 0 {
            assert(chunks[i] == more[i - 1]);
        }
    }
}

} // verus!
