//! One chunk of a container, its wire form, and the splitting of a buffer
//! into chunks.

use crate::checksum::{checksum_ieee, crc32_ieee};
use crate::chunk_type::ChunkType;
use crate::error::PngError;
use crate::text::{byte_list, decimal, push_byte_list, push_decimal, utf8_text};
use crate::utils::{
    be_bytes, be_value, lemma_be_bytes_of_value, lemma_be_value_of_bytes, ref_buffer_to_u32,
    segment4, u32_to_be_bytes,
};
use vstd::prelude::*;
use vstd::slice::{slice_subrange, slice_to_vec};
use vstd::std_specs::convert::TryFromSpecImpl;
use vstd::string::*;
use vstd::utf8::*;

verus! {

/// What a chunk is, apart from how it is stored: the four bytes of its type
/// and the bytes of its payload.
pub struct ChunkModel {
    pub chunk_type: Seq<u8>,
    pub data: Seq<u8>,
}

impl ChunkModel {
    /// A chunk can be written when its type has four bytes and the length of
    /// its payload fits the 32-bit length field.
    pub open spec fn wf(self) -> bool {
        &&& self.chunk_type.len() == 4
        &&& self.data.len() <= u32::MAX
    }

    /// The checksum of a chunk covers its type and its payload, in that
    /// order, and not its length field.
    pub open spec fn crc(self) -> u32 {
        crc32_ieee(self.chunk_type + self.data)
    }

    /// The bytes of a chunk on the wire, with `crc` written as its checksum:
    /// length, type, payload, checksum.
    pub open spec fn framed(self, crc: u32) -> Seq<u8> {
        be_bytes(self.data.len() as u32) + self.chunk_type + self.data + be_bytes(crc)
    }

    /// The bytes of a chunk on the wire: its frame around its own checksum.
    pub open spec fn wire(self) -> Seq<u8> {
        self.framed(self.crc())
    }

    /// The five lines that show a chunk whose checksum is `crc`: its type,
    /// the length of its payload, the payload, the checksum and the bytes of
    /// its wire form.
    pub open spec fn text_with(self, crc: u32) -> Seq<char> {
        "chunk_type: "@ + decode_utf8(self.chunk_type) + "\n\r"@ + "length: "@ + decimal(
            self.data.len(),
        ) + "\n\r"@ + "data: "@ + payload_text(self.data) + "\n\r"@ + "crc: "@ + decimal(
            crc as nat,
        ) + "\n\r"@ + "bytes: "@ + byte_list(self.framed(crc)) + "\n\r"@
    }

    /// The five lines that show a chunk.
    pub open spec fn text(self) -> Seq<char> {
        self.text_with(self.crc())
    }
}

/// A payload as a dump shows it: its text, or `None` where it is not UTF-8.
pub open spec fn payload_text(data: Seq<u8>) -> Seq<char> {
    if valid_utf8(data) {
        decode_utf8(data)
    } else {
        "None"@
    }
}

/// Splits the wire form of exactly one chunk into the chunk and the checksum
/// stored behind it.
///
/// Fewer than eight bytes cannot hold a length and a type: `ShortChunk`.
/// Eight to eleven bytes leave no room for a whole checksum: `EmptyCrc`. A
/// payload too long for any length field is no chunk: `InvalidSegment`.
/// Otherwise the type is taken from bytes 4 to 8, the checksum from the last
/// four bytes, and the payload is all that lies between; the length field is
/// not consulted.
pub open spec fn split_chunk(bytes: Seq<u8>) -> Result<(ChunkModel, int), PngError> {
    let len = bytes.len() as int;
    if len < 8 {
        Err(PngError::ShortChunk)
    } else if len < 12 {
        Err(PngError::EmptyCrc)
    } else if len - 12 > u32::MAX {
        Err(PngError::InvalidSegment)
    } else {
        Ok(
            (
                ChunkModel { chunk_type: bytes.subrange(4, 8), data: bytes.subrange(8, len - 4) },
                be_value(bytes.subrange(len - 4, len)),
            ),
        )
    }
}

/// A chunk is accepted when the checksum stored behind it is the one
/// computed, and refused with `InvalidCrc` when it is not.
pub open spec fn accepted(chunk: ChunkModel, stored: int, computed: u32) -> Result<
    ChunkModel,
    PngError,
> {
    if stored == computed {
        Ok(chunk)
    } else {
        Err(PngError::InvalidCrc)
    }
}

/// Reads `bytes` as the wire form of exactly one chunk: splits them, and
/// accepts the chunk when the stored checksum is the one computed from its
/// type and payload.
pub open spec fn parse_chunk(bytes: Seq<u8>) -> Result<ChunkModel, PngError> {
    match split_chunk(bytes) {
        Ok((chunk, stored)) => accepted(chunk, stored, chunk.crc()),
        Err(e) => Err(e),
    }
}

/// A chunk: a type code and the payload it owns.
#[derive(Debug)]
pub struct Chunk {
    chunk_type: ChunkType,
    data: Vec<u8>,
}

impl View for Chunk {
    type V = ChunkModel;

    closed spec fn view(&self) -> ChunkModel {
        ChunkModel { chunk_type: self.chunk_type@, data: self.data@ }
    }
}

/// The outcome of reading a chunk, with the chunk replaced by its model.
pub open spec fn parsed_view(parsed: Result<Chunk, PngError>) -> Result<ChunkModel, PngError> {
    match parsed {
        Ok(chunk) => Ok(chunk@),
        Err(e) => Err(e),
    }
}

/// The outcome of splitting the bytes of a chunk, with the chunk replaced by
/// its model.
pub open spec fn split_view(parts: Result<(Chunk, u32), PngError>) -> Result<
    (ChunkModel, int),
    PngError,
> {
    match parts {
        Ok((chunk, stored)) => Ok((chunk@, stored as int)),
        Err(e) => Err(e),
    }
}

/// Appends `bytes` to `out`.
pub(crate) fn append_bytes(out: &mut Vec<u8>, bytes: &[u8])
    ensures
        final(out)@ == old(out)@ + bytes@,
{
    out.extend_from_slice(bytes);
    assert(out@ =~= old(out)@ + bytes@);
}

impl Chunk {
    /// The bytes that a chunk adds around its payload: length, type and
    /// checksum.
    pub const CHUNK_METADATA_LENGTH: usize = 12;

    /// The payload of every chunk fits the length field.
    #[verifier::type_invariant]
    spec fn payload_fits(self) -> bool {
        self.data@.len() <= u32::MAX
    }

    /// Makes a chunk of a type and a payload.
    pub fn new(chunk_type: ChunkType, data: Vec<u8>) -> (chunk: Chunk)
        requires
            data@.len() <= u32::MAX,
        ensures
            chunk@ == (ChunkModel { chunk_type: chunk_type@, data: data@ }),
            chunk@.wf(),
    {
        proof {
            chunk_type.lemma_view();
        }
        Chunk { chunk_type, data }
    }

    /// The number of bytes in the payload.
    pub fn length(&self) -> (length: u32)
        ensures
            length == self@.data.len(),
            self@.wf(),
    {
        proof {
            use_type_invariant(self);
            self.chunk_type.lemma_view();
        }
        self.data.len() as u32
    }

    /// The type of the chunk.
    pub fn chunk_type(&self) -> (chunk_type: &ChunkType)
        ensures
            chunk_type@ == self@.chunk_type,
            self@.wf(),
    {
        proof {
            use_type_invariant(self);
            self.chunk_type.lemma_view();
        }
        &self.chunk_type
    }

    /// The payload of the chunk.
    pub fn data(&self) -> (data: &[u8])
        ensures
            data@ == self@.data,
            self@.wf(),
    {
        proof {
            use_type_invariant(self);
            self.chunk_type.lemma_view();
        }
        self.data.as_slice()
    }

    /// The checksum of the chunk, computed afresh from its type and payload.
    pub fn crc(&self) -> (crc: u32)
        ensures
            crc == self@.crc(),
    {
        let type_bytes = self.chunk_type.bytes();
        let mut covered: Vec<u8> = Vec::new();
        append_bytes(&mut covered, type_bytes.as_slice());
        append_bytes(&mut covered, self.data.as_slice());
        assert(covered@ =~= self@.chunk_type + self@.data);
        checksum_ieee(covered.as_slice())
    }

    /// The payload as text. A payload that is not UTF-8 gives
    /// `ChunkDataUTF8Error`.
    pub fn data_as_string(&self) -> (text: Result<String, PngError>)
        ensures
            valid_utf8(self@.data) ==> text is Ok && text->Ok_0@ == decode_utf8(self@.data),
            !valid_utf8(self@.data) ==> text == Err::<String, PngError>(
                PngError::ChunkDataUTF8Error,
            ),
    {
        match utf8_text(self.data.clone()) {
            Some(text) => Ok(text),
            None => Err(PngError::ChunkDataUTF8Error),
        }
    }

    /// The chunk as text, for a dump, with `crc` shown as its checksum. The
    /// payload is shown leniently, as [`payload_text`] says; a type that is
    /// not UTF-8 cannot be shown and gives `ChunkDataUTF8Error`.
    pub fn text_with(&self, crc: u32) -> (text: Result<String, PngError>)
        ensures
            valid_utf8(self@.chunk_type) ==> text is Ok && text->Ok_0@ == self@.text_with(crc),
            !valid_utf8(self@.chunk_type) ==> text == Err::<String, PngError>(
                PngError::ChunkDataUTF8Error,
            ),
    {
        let type_text = match self.chunk_type.to_string() {
            Ok(type_text) => type_text,
            Err(e) => { return Err(e); },
        };
        let mut out = String::new();
        out.append("chunk_type: ");
        out.append(type_text.as_str());
        out.append("\n\r");
        out.append("length: ");
        push_decimal(&mut out, self.length());
        out.append("\n\r");
        out.append("data: ");
        match self.data_as_string() {
            Ok(data) => out.append(data.as_str()),
            Err(_) => out.append("None"),
        }
        out.append("\n\r");
        out.append("crc: ");
        push_decimal(&mut out, crc);
        out.append("\n\r");
        out.append("bytes: ");
        let bytes = self.framed(crc);
        push_byte_list(&mut out, bytes.as_slice());
        out.append("\n\r");
        assert(out@ =~= self@.text_with(crc));
        Ok(out)
    }

    /// The chunk as text, for a dump: [`Chunk::text_with`] its own checksum.
    pub fn to_string(&self) -> (text: Result<String, PngError>)
        ensures
            valid_utf8(self@.chunk_type) ==> text is Ok && text->Ok_0@ == self@.text(),
            !valid_utf8(self@.chunk_type) ==> text == Err::<String, PngError>(
                PngError::ChunkDataUTF8Error,
            ),
    {
        self.text_with(self.crc())
    }

    /// The wire form of the chunk with `crc` written as its checksum.
    pub fn framed(&self, crc: u32) -> (bytes: Vec<u8>)
        ensures
            bytes@ == self@.framed(crc),
            self@.wf(),
    {
        let length = u32_to_be_bytes(self.length());
        let type_bytes = self.chunk_type.bytes();
        let crc = u32_to_be_bytes(crc);
        let mut bytes: Vec<u8> = Vec::new();
        append_bytes(&mut bytes, length.as_slice());
        append_bytes(&mut bytes, type_bytes.as_slice());
        append_bytes(&mut bytes, self.data.as_slice());
        append_bytes(&mut bytes, crc.as_slice());
        bytes
    }

    /// The wire form of the chunk. Reading it back gives the chunk again.
    pub fn as_bytes(&self) -> (bytes: Vec<u8>)
        ensures
            bytes@ == self@.wire(),
            parse_chunk(bytes@) == Ok::<ChunkModel, PngError>(self@),
            self@.wf(),
    {
        let bytes = self.framed(self.crc());
        proof {
            lemma_chunk_round_trip(self@);
        }
        bytes
    }

    /// Splits the wire form of exactly one chunk into the chunk and the
    /// checksum stored behind it, as [`split_chunk`] says. The checksum is
    /// not checked here.
    pub fn split(value: &[u8]) -> (parts: Result<(Chunk, u32), PngError>)
        ensures
            split_view(parts) == split_chunk(value@),
    {
        let len = value.len();
        if len < 8 {
            return Err(PngError::ShortChunk);
        }
        if len < Chunk::CHUNK_METADATA_LENGTH {
            return Err(PngError::EmptyCrc);
        }
        if len - Chunk::CHUNK_METADATA_LENGTH > u32::MAX as usize {
            return Err(PngError::InvalidSegment);
        }
        let type_bytes = match segment4(slice_subrange(value, 4, 8)) {
            Ok(type_bytes) => type_bytes,
            Err(e) => { return Err(e); },
        };
        let chunk_type = match ChunkType::try_from(type_bytes) {
            Ok(chunk_type) => chunk_type,
            Err(e) => { return Err(e); },
        };
        let data = slice_to_vec(slice_subrange(value, 8, len - 4));
        let stored = match ref_buffer_to_u32(slice_subrange(value, len - 4, len)) {
            Ok(stored) => stored,
            Err(e) => { return Err(e); },
        };
        Ok((Chunk::new(chunk_type, data), stored))
    }

    /// Accepts the chunk when the checksum stored behind it is the one
    /// computed, and refuses it with `InvalidCrc` when it is not.
    pub fn accept(self, stored: u32, computed: u32) -> (parsed: Result<Chunk, PngError>)
        ensures
            parsed_view(parsed) == accepted(self@, stored as int, computed),
    {
        if computed != stored {
            return Err(PngError::InvalidCrc);
        }
        Ok(self)
    }
}

impl<'a> TryFrom<&'a [u8]> for Chunk {
    type Error = PngError;

    /// Reads the wire form of exactly one chunk, as [`parse_chunk`] says.
    fn try_from(value: &'a [u8]) -> (parsed: Result<Self, PngError>)
        ensures
            parsed_view(parsed) == parse_chunk(value@),
    {
        let (chunk, stored) = match Chunk::split(value) {
            Ok(parts) => parts,
            Err(e) => { return Err(e); },
        };
        let computed = chunk.crc();
        chunk.accept(stored, computed)
    }
}

/// What `try_from` gives is stated over models, in its own contract; no
/// specification names the chunk itself.
impl<'a> TryFromSpecImpl<&'a [u8]> for Chunk {
    open spec fn obeys_try_from_spec() -> bool {
        false
    }

    open spec fn try_from_spec(value: &'a [u8]) -> Result<Self, PngError> {
        arbitrary()
    }
}

/// Where a walk over a buffer stands: the bytes not yet consumed, and whether
/// an error has ended the walk for good.
pub struct IterModel {
    pub rest: Seq<u8>,
    pub tainted: bool,
}

/// What one step of the walk yields, with each chunk replaced by its model.
pub open spec fn item_view(item: Option<Result<Chunk, PngError>>) -> Option<
    Result<ChunkModel, PngError>,
> {
    match item {
        Some(parsed) => Some(parsed_view(parsed)),
        None => None,
    }
}

/// The number of bytes that the chunk at the front of `rest` claims: the
/// payload length written in its first four bytes, and the twelve bytes
/// around the payload.
pub open spec fn claimed_span(rest: Seq<u8>) -> int
    recommends
        rest.len() >= 4,
{
    be_value(rest) + 12
}

/// One step of the walk: what it yields and the state it leaves.
///
/// A tainted or exhausted walk yields nothing and stays as it is. A front
/// chunk that is cut short yields `ShortChunk` and taints the walk without
/// consuming anything. Otherwise the claimed span is consumed and read as one
/// chunk; if that fails, the error is yielded and the walk is tainted.
pub open spec fn step(state: IterModel) -> (Option<Result<ChunkModel, PngError>>, IterModel) {
    if state.tainted || state.rest.len() == 0 {
        (None, state)
    } else if state.rest.len() < 12 || state.rest.len() < claimed_span(state.rest) {
        (Some(Err(PngError::ShortChunk)), IterModel { rest: state.rest, tainted: true })
    } else {
        let span = claimed_span(state.rest);
        let parsed = parse_chunk(state.rest.subrange(0, span));
        (
            Some(parsed),
            IterModel {
                rest: state.rest.subrange(span, state.rest.len() as int),
                tainted: parsed is Err,
            },
        )
    }
}

/// Everything that a walk yields from `state` on, in order.
pub open spec fn items(state: IterModel) -> Seq<Result<ChunkModel, PngError>>
    decreases state.rest.len(), (if state.tainted { 0int } else { 1int }),
{
    match step(state).0 {
        None => Seq::empty(),
        Some(item) => seq![item] + items(step(state).1),
    }
}

/// What reading all of a walk gives: the chunks that it yields, or the error
/// that ends it.
pub open spec fn drain(state: IterModel) -> Result<Seq<ChunkModel>, PngError>
    decreases state.rest.len(), (if state.tainted { 0int } else { 1int }),
{
    match step(state).0 {
        None => Ok(Seq::empty()),
        Some(Err(e)) => Err(e),
        Some(Ok(chunk)) => match drain(step(state).1) {
            Ok(rest) => Ok(seq![chunk] + rest),
            Err(e) => Err(e),
        },
    }
}

/// A walk over a buffer that yields its chunks one by one, and stops for good
/// after the first error.
pub struct ChunkIterator<'a> {
    cur: &'a [u8],
    tainted: bool,
}

impl<'a> View for ChunkIterator<'a> {
    type V = IterModel;

    closed spec fn view(&self) -> IterModel {
        IterModel { rest: self.cur@, tainted: self.tainted }
    }
}

impl<'a> ChunkIterator<'a> {
    /// Starts a walk at the front of `chunks`.
    pub fn new(chunks: &'a [u8]) -> (walk: ChunkIterator<'a>)
        ensures
            walk@ == (IterModel { rest: chunks@, tainted: false }),
    {
        ChunkIterator { cur: chunks, tainted: false }
    }

    /// Takes one step, as [`step`] says: the next chunk, the error that ends
    /// the walk, or nothing.
    pub fn next(&mut self) -> (item: Option<Result<Chunk, PngError>>)
        ensures
            item_view(item) == step(old(self)@).0,
            final(self)@ == step(old(self)@).1,
    {
        if self.tainted || self.cur.len() == 0 {
            return None;
        }
        if self.cur.len() < Chunk::CHUNK_METADATA_LENGTH {
            self.tainted = true;
            return Some(Err(PngError::ShortChunk));
        }
        let declared: u32 = match ref_buffer_to_u32(self.cur) {
            Ok(declared) => declared,
            Err(e) => {
                self.tainted = true;
                return Some(Err(e));
            },
        };
        let span: u64 = declared as u64 + 12;
        if (self.cur.len() as u64) < span {
            self.tainted = true;
            return Some(Err(PngError::ShortChunk));
        }
        let span: usize = span as usize;
        let chunk = slice_subrange(self.cur, 0, span);
        self.cur = slice_subrange(self.cur, span, self.cur.len());
        match Chunk::try_from(chunk) {
            Ok(chunk) => Some(Ok(chunk)),
            Err(e) => {
                self.tainted = true;
                Some(Err(e))
            },
        }
    }
}

/// Writing a chunk and reading the bytes back gives the same chunk: the same
/// type, the same payload, and so the same checksum.
pub proof fn lemma_chunk_round_trip(chunk: ChunkModel)
    requires
        chunk.wf(),
    ensures
        parse_chunk(chunk.wire()) == Ok::<ChunkModel, PngError>(chunk),
{
    let bytes = chunk.wire();
    let len = bytes.len() as int;
    lemma_be_value_of_bytes(chunk.crc());
    assert(len == chunk.data.len() + 12);
    assert(bytes.subrange(4, 8) =~= chunk.chunk_type);
    assert(bytes.subrange(8, len - 4) =~= chunk.data);
    assert(bytes.subrange(len - 4, len) =~= be_bytes(chunk.crc()));
}

/// A chunk that was read can be written: its type has four bytes and its
/// payload fits the length field.
pub proof fn lemma_parsed_chunk_is_wf(bytes: Seq<u8>)
    requires
        parse_chunk(bytes) is Ok,
    ensures
        parse_chunk(bytes)->Ok_0.wf(),
{
}

/// Writing a chunk that was read gives the bytes it was read from exactly
/// when their length field held the length of the payload they carried.
pub proof fn lemma_rewritten_chunk(bytes: Seq<u8>)
    requires
        parse_chunk(bytes) is Ok,
    ensures
        parse_chunk(bytes)->Ok_0.wire() == bytes <==> be_value(bytes) == bytes.len() - 12,
{
    let chunk = parse_chunk(bytes)->Ok_0;
    let len = bytes.len() as int;
    let length_field = bytes.subrange(0, 4);
    let checksum_field = bytes.subrange(len - 4, len);
    lemma_be_bytes_of_value(length_field);
    lemma_be_bytes_of_value(checksum_field);
    lemma_be_value_of_bytes(chunk.data.len() as u32);
    assert(be_value(length_field) == be_value(bytes));
    if be_value(bytes) == len - 12 {
        assert(chunk.wire() =~= bytes);
    } else {
        assert(chunk.wire().subrange(0, 4) =~= be_bytes(chunk.data.len() as u32));
    }
}

/// The bytes of `bytes` that the checksum covers: the type and the payload.
pub open spec fn covered(bytes: Seq<u8>) -> Seq<u8>
    recommends
        bytes.len() >= 12,
{
    bytes.subrange(4, bytes.len() - 4)
}

/// The checksum that `bytes` carries in its last four bytes.
pub open spec fn stored_crc(bytes: Seq<u8>) -> int
    recommends
        bytes.len() >= 12,
{
    be_value(bytes.subrange(bytes.len() - 4, bytes.len() as int))
}

/// A chunk is never accepted with a wrong checksum: bytes that are read as a
/// chunk carry the checksum of what they cover, and bytes of a fitting length
/// that carry another one are refused with `InvalidCrc`.
pub proof fn lemma_wrong_checksum_is_refused(bytes: Seq<u8>)
    ensures
        parse_chunk(bytes) is Ok ==> stored_crc(bytes) == crc32_ieee(covered(bytes)),
        12 <= bytes.len() <= u32::MAX + 12 && stored_crc(bytes) != crc32_ieee(covered(bytes))
            ==> parse_chunk(bytes) == Err::<ChunkModel, PngError>(PngError::InvalidCrc),
{
    let len = bytes.len() as int;
    if 12 <= len {
        assert(bytes.subrange(4, 8) + bytes.subrange(8, len - 4) =~= covered(bytes));
    }
}

/// A walk that has been tainted yields nothing more, whatever bytes remain.
pub proof fn lemma_tainted_walk_is_over(state: IterModel)
    requires
        state.tainted,
    ensures
        step(state) == (None::<Result<ChunkModel, PngError>>, state),
        items(state) == Seq::<Result<ChunkModel, PngError>>::empty(),
{
}

/// Every error taints the walk: after a step that yields an error, the walk
/// yields nothing more.
pub proof fn lemma_error_ends_walk(state: IterModel)
    requires
        step(state).0 is Some,
        step(state).0->Some_0 is Err,
    ensures
        step(state).1.tainted,
        step(step(state).1).0 is None,
        items(step(state).1) == Seq::<Result<ChunkModel, PngError>>::empty(),
{
}

/// A front chunk that is cut short, with fewer than twelve bytes or fewer
/// than it claims, yields `ShortChunk` as the last item of the walk, and
/// reading the whole walk fails with that error.
pub proof fn lemma_truncated_chunk(state: IterModel)
    requires
        !state.tainted,
        state.rest.len() > 0,
        state.rest.len() < 12 || state.rest.len() < claimed_span(state.rest),
    ensures
        step(state).0 == Some(Err::<ChunkModel, PngError>(PngError::ShortChunk)),
        step(state).1.tainted,
        items(state) == seq![Err::<ChunkModel, PngError>(PngError::ShortChunk)],
        drain(state) == Err::<Seq<ChunkModel>, PngError>(PngError::ShortChunk),
{
    lemma_error_ends_walk(state);
    assert(items(state) =~= seq![Err::<ChunkModel, PngError>(PngError::ShortChunk)]);
}

/// A walk yields at most one error, and only as its last item.
pub proof fn lemma_error_is_last(state: IterModel, i: int)
    requires
        0 <= i < items(state).len() - 1,
    ensures
        items(state)[i] is Ok,
    decreases state.rest.len(), (if state.tainted { 0int } else { 1int }),
{
    let (item, next) = step(state);
    if item is Some {
        if item->Some_0 is Err {
            lemma_error_ends_walk(state);
        } else if i > 0 {
            lemma_error_is_last(next, i - 1);
        }
    }
}

/// Every chunk that a walk gives can be written.
pub proof fn lemma_drained_chunks_are_wf(state: IterModel)
    requires
        drain(state) is Ok,
    ensures
        forall|i: int| 0 <= i < drain(state)->Ok_0.len() ==> (#[trigger] drain(state)->Ok_0[i]).wf(),
    decreases state.rest.len(), (if state.tainted { 0int } else { 1int }),
{
    let (item, next) = step(state);
    match item {
        Some(Ok(chunk)) => {
            lemma_drained_chunks_are_wf(next);
            let rest = drain(next)->Ok_0;
            assert forall|i: int| 0 <= i < drain(state)->Ok_0.len() implies (#[trigger] drain(
                state,
            )->Ok_0[i]).wf() by {
                if i > 0 {
                    assert(drain(state)->Ok_0[i] == rest[i - 1]);
                }
            }
        },
        _ => {},
    }
}

/// Reading a whole walk gives its chunks exactly when none of its items is an
/// error, and otherwise the error that it ends with.
pub proof fn lemma_drain_of_items(state: IterModel)
    ensures
        match drain(state) {
            Ok(chunks) => items(state) == chunks.map_values(
                |chunk: ChunkModel| Ok::<ChunkModel, PngError>(chunk),
            ),
            Err(e) => items(state).len() > 0 && items(state).last() == Err::<ChunkModel, PngError>(
                e,
            ),
        },
    decreases state.rest.len(), (if state.tainted { 0int } else { 1int }),
{
    let (item, next) = step(state);
    let wrap = |chunk: ChunkModel| Ok::<ChunkModel, PngError>(chunk);
    match item {
        None => {
            assert(items(state) =~= Seq::<ChunkModel>::empty().map_values(wrap));
        },
        Some(Err(e)) => {
            lemma_error_ends_walk(state);
        },
        Some(Ok(chunk)) => {
            lemma_drain_of_items(next);
            match drain(next) {
                Ok(rest) => {
                    assert(items(state) =~= (seq![chunk] + rest).map_values(wrap));
                },
                Err(e) => {},
            }
        },
    }
}

} // verus!
