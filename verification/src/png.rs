//! The container: the PNG signature and the chunks behind it, in order.

use crate::chunk::{
    append_bytes, claimed_span, drain, lemma_chunk_round_trip, lemma_drained_chunks_are_wf, step,
    Chunk, ChunkIterator, ChunkModel, IterModel,
};
use crate::error::PngError;
use crate::text::{byte_list, push_byte_list};
use crate::utils::{be_bytes, be_value, lemma_be_value_of_bytes};
use vstd::prelude::*;
use vstd::slice::slice_subrange;
use vstd::std_specs::convert::TryFromSpecImpl;
use vstd::string::*;
use vstd::utf8::*;

verus! {

/// The eight bytes of the signature.
pub open spec fn standard_header() -> Seq<u8> {
    seq![137u8, 80u8, 78u8, 71u8, 13u8, 10u8, 26u8, 10u8]
}

/// The models of a sequence of chunks, in the same order.
pub open spec fn models(chunks: Seq<Chunk>) -> Seq<ChunkModel> {
    Seq::new(chunks.len(), |i: int| chunks[i]@)
}

/// The wire forms of `chunks`, one behind the other.
pub open spec fn wire_of(chunks: Seq<ChunkModel>) -> Seq<u8>
    decreases chunks.len(),
{
    if chunks.len() == 0 {
        Seq::empty()
    } else {
        wire_of(chunks.drop_last()) + chunks.last().wire()
    }
}

/// The bytes of a whole container: the signature, then its chunks.
pub open spec fn png_wire(chunks: Seq<ChunkModel>) -> Seq<u8> {
    standard_header() + wire_of(chunks)
}

/// Reads a whole buffer: the signature must open it, and all that follows
/// must split into chunks without an error.
pub open spec fn parse_png(bytes: Seq<u8>) -> Result<Seq<ChunkModel>, PngError> {
    if bytes.len() < 8 || bytes.subrange(0, 8) != standard_header() {
        Err(PngError::InvalidPngFile)
    } else {
        drain(IterModel { rest: bytes.subrange(8, bytes.len() as int), tainted: false })
    }
}

/// The texts of `chunks`, one behind the other.
pub open spec fn chunks_text(chunks: Seq<ChunkModel>) -> Seq<char>
    decreases chunks.len(),
{
    if chunks.len() == 0 {
        Seq::empty()
    } else {
        chunks_text(chunks.drop_last()) + chunks.last().text()
    }
}

/// A dump of a container: a line for the signature, then the text of each
/// chunk in order.
pub open spec fn png_text(chunks: Seq<ChunkModel>) -> Seq<char> {
    "header: "@ + byte_list(standard_header()) + "\n\r"@ + chunks_text(chunks)
}

/// Whether the type of every chunk can be shown as text.
pub open spec fn types_are_text(chunks: Seq<ChunkModel>) -> bool {
    forall|i: int| 0 <= i < chunks.len() ==> valid_utf8((#[trigger] chunks[i]).chunk_type)
}

/// The position of the first chunk of type `code`, or the number of chunks
/// when there is none.
pub open spec fn first_index(chunks: Seq<ChunkModel>, code: Seq<u8>) -> int
    decreases chunks.len(),
{
    if chunks.len() == 0 || chunks[0].chunk_type == code {
        0
    } else {
        1 + first_index(chunks.drop_first(), code)
    }
}

/// `first_index` is the least position of a chunk of type `code`: no chunk
/// before it has that type, and the chunk at it, if there is one, has.
pub proof fn lemma_first_index(chunks: Seq<ChunkModel>, code: Seq<u8>)
    ensures
        0 <= first_index(chunks, code) <= chunks.len(),
        forall|j: int| 0 <= j < first_index(chunks, code) ==> (#[trigger] chunks[j]).chunk_type != code,
        first_index(chunks, code) < chunks.len() ==> chunks[first_index(chunks, code)].chunk_type
            == code,
    decreases chunks.len(),
{
    if chunks.len() == 0 || chunks[0].chunk_type == code {
    } else {
        let rest = chunks.drop_first();
        lemma_first_index(rest, code);
        assert forall|j: int| 0 <= j < first_index(chunks, code) implies (#[trigger] chunks[j]).chunk_type
            != code by {
            if j > 0 {
                assert(chunks[j] == rest[j - 1]);
            }
        }
    }
}

/// A position that holds a chunk of type `code`, with none before it, is the
/// first index.
pub proof fn lemma_first_index_is(chunks: Seq<ChunkModel>, code: Seq<u8>, i: int)
    requires
        0 <= i <= chunks.len(),
        forall|j: int| 0 <= j < i ==> (#[trigger] chunks[j]).chunk_type != code,
        i < chunks.len() ==> chunks[i].chunk_type == code,
    ensures
        first_index(chunks, code) == i,
{
    lemma_first_index(chunks, code);
    let k = first_index(chunks, code);
    if k < i {
        assert(chunks[k].chunk_type != code);
    } else if i < k {
        assert(chunks[i].chunk_type != code);
    }
}

/// Whether two slices hold the same bytes.
fn same_bytes(left: &[u8], right: &[u8]) -> (same: bool)
    ensures
        same == (left@ == right@),
{
    if left.len() != right.len() {
        return false;
    }
    let mut i: usize = 0;
    while i < left.len()
        invariant
            left@.len() == right@.len(),
            0 <= i <= left@.len(),
            forall|j: int| 0 <= j < i ==> left@[j] == right@[j],
        decreases left@.len() - i,
    {
        if left[i] != right[i] {
            return false;
        }
        i += 1;
    }
    assert(left@ =~= right@);
    true
}

/// A PNG container held in memory: the signature and the chunks, in the order
/// in which they are written and searched.
#[derive(Debug)]
pub struct Png {
    chunks: Vec<Chunk>,
}

impl View for Png {
    type V = Seq<ChunkModel>;

    closed spec fn view(&self) -> Seq<ChunkModel> {
        models(self.chunks@)
    }
}

impl Png {
    /// The signature that opens every PNG container.
    pub const STANDARD_HEADER: [u8; 8] = [137, 80, 78, 71, 13, 10, 26, 10];

    /// A container that holds `chunks`, in that order.
    pub fn from_chunks(chunks: Vec<Chunk>) -> (png: Png)
        ensures
            png@ == models(chunks@),
    {
        Png { chunks }
    }

    /// Adds `chunk` behind all others. Chunks of the same type may repeat.
    pub fn append_chunk(&mut self, chunk: Chunk)
        ensures
            final(self)@ == old(self)@.push(chunk@),
    {
        self.chunks.push(chunk);
        assert(models(self.chunks@) =~= models(old(self).chunks@).push(chunk@));
    }

    /// The position of the first chunk whose type is spelled by `chunk_type`.
    fn position(&self, chunk_type: &str) -> (i: usize)
        ensures
            i == first_index(self@, chunk_type.spec_bytes()),
            i <= self.chunks@.len(),
    {
        let code = chunk_type.as_bytes();
        let mut i: usize = 0;
        while i < self.chunks.len()
            invariant
                0 <= i <= self.chunks@.len(),
                code@ == chunk_type.spec_bytes(),
                forall|j: int| 0 <= j < i ==> (#[trigger] self@[j]).chunk_type != code@,
            decreases self.chunks@.len() - i,
        {
            let type_bytes = self.chunks[i].chunk_type().bytes();
            if same_bytes(type_bytes.as_slice(), code) {
                proof {
                    lemma_first_index_is(self@, code@, i as int);
                }
                return i;
            }
            i += 1;
        }
        proof {
            lemma_first_index_is(self@, code@, i as int);
        }
        i
    }

    /// The first chunk whose type is spelled by `chunk_type`, if there is one.
    pub fn chunk_by_type(&self, chunk_type: &str) -> (found: Option<&Chunk>)
        ensures
            ({
                let i = first_index(self@, chunk_type.spec_bytes());
                if i < self@.len() {
                    found is Some && found->Some_0@ == self@[i]
                } else {
                    found is None
                }
            }),
    {
        let i = self.position(chunk_type);
        if i < self.chunks.len() {
            Some(&self.chunks[i])
        } else {
            None
        }
    }

    /// Takes out the first chunk whose type is spelled by `chunk_type` and
    /// returns it; the other chunks keep their order. Without such a chunk
    /// the container stays as it is and the error is `ChunkNotFound`.
    pub fn remove_chunk(&mut self, chunk_type: &str) -> (removed: Result<Chunk, PngError>)
        ensures
            ({
                let i = first_index(old(self)@, chunk_type.spec_bytes());
                if i < old(self)@.len() {
                    &&& removed is Ok
                    &&& removed->Ok_0@ == old(self)@[i]
                    &&& final(self)@ == old(self)@.remove(i)
                } else {
                    &&& removed == Err::<Chunk, PngError>(PngError::ChunkNotFound)
                    &&& final(self)@ == old(self)@
                }
            }),
    {
        let i = self.position(chunk_type);
        if i < self.chunks.len() {
            let chunk = self.chunks.remove(i);
            assert(models(self.chunks@) =~= models(old(self).chunks@).remove(i as int));
            Ok(chunk)
        } else {
            Err(PngError::ChunkNotFound)
        }
    }

    /// The signature at the front of the container.
    pub fn header(&self) -> (header: &[u8; 8])
        ensures
            header@ == standard_header(),
    {
        assert(Png::STANDARD_HEADER@ =~= standard_header());
        &Png::STANDARD_HEADER
    }

    /// The chunks of the container, in order.
    pub fn chunks(&self) -> (chunks: &[Chunk])
        ensures
            models(chunks@) == self@,
    {
        self.chunks.as_slice()
    }

    /// The container as text, for a dump, as [`png_text`] says. A chunk whose
    /// type is not UTF-8 cannot be shown and gives `ChunkDataUTF8Error`.
    pub fn to_string(&self) -> (text: Result<String, PngError>)
        ensures
            types_are_text(self@) ==> text is Ok && text->Ok_0@ == png_text(self@),
            !types_are_text(self@) ==> text == Err::<String, PngError>(
                PngError::ChunkDataUTF8Error,
            ),
    {
        let mut out = String::new();
        out.append("header: ");
        push_byte_list(&mut out, self.header().as_slice());
        out.append("\n\r");
        let ghost head = out@;
        assert(head =~= "header: "@ + byte_list(standard_header()) + "\n\r"@);
        let mut i: usize = 0;
        while i < self.chunks.len()
            invariant
                0 <= i <= self.chunks@.len(),
                head == "header: "@ + byte_list(standard_header()) + "\n\r"@,
                out@ == head + chunks_text(self@.take(i as int)),
                types_are_text(self@.take(i as int)),
            decreases self.chunks@.len() - i,
        {
            let shown = match self.chunks[i].to_string() {
                Ok(shown) => shown,
                Err(e) => {
                    assert(!valid_utf8(self@[i as int].chunk_type));
                    return Err(e);
                },
            };
            out.append(shown.as_str());
            proof {
                let upto = self@.take(i as int + 1);
                assert(upto.drop_last() =~= self@.take(i as int));
                assert(upto.last() == self@[i as int]);
                assert(out@ =~= head + chunks_text(upto));
                assert forall|j: int| 0 <= j < upto.len() implies valid_utf8(
                    (#[trigger] upto[j]).chunk_type,
                ) by {
                    if j < i {
                        assert(upto[j] == self@.take(i as int)[j]);
                    }
                }
            }
            i += 1;
        }
        assert(self@.take(i as int) =~= self@);
        Ok(out)
    }

    /// The bytes of the container: the signature, then the wire form of each
    /// chunk in order. Reading them back gives the container again.
    pub fn as_bytes(&self) -> (bytes: Vec<u8>)
        ensures
            bytes@ == png_wire(self@),
            parse_png(bytes@) == Ok::<Seq<ChunkModel>, PngError>(self@),
    {
        let mut bytes: Vec<u8> = Vec::new();
        append_bytes(&mut bytes, self.header().as_slice());
        let mut i: usize = 0;
        while i < self.chunks.len()
            invariant
                0 <= i <= self.chunks@.len(),
                bytes@ == standard_header() + wire_of(self@.take(i as int)),
                forall|j: int| 0 <= j < i ==> (#[trigger] self@[j]).wf(),
            decreases self.chunks@.len() - i,
        {
            let wire = self.chunks[i].as_bytes();
            append_bytes(&mut bytes, wire.as_slice());
            proof {
                let upto = self@.take(i as int + 1);
                assert(upto.drop_last() =~= self@.take(i as int));
                assert(upto.last() == self@[i as int]);
                assert(bytes@ =~= standard_header() + wire_of(upto));
            }
            i += 1;
        }
        assert(self@.take(i as int) =~= self@);
        proof {
            lemma_png_round_trip(self@);
        }
        bytes
    }
}

/// The outcome of reading a container, with the container replaced by its
/// chunks.
pub open spec fn read_view(read: Result<Png, PngError>) -> Result<Seq<ChunkModel>, PngError> {
    match read {
        Ok(png) => Ok(png@),
        Err(e) => Err(e),
    }
}

/// The chunks `front`, followed by what `back` gives, if it gives any.
pub open spec fn chunks_then(front: Seq<ChunkModel>, back: Result<Seq<ChunkModel>, PngError>) -> Result<
    Seq<ChunkModel>,
    PngError,
> {
    match back {
        Ok(rest) => Ok(front + rest),
        Err(e) => Err(e),
    }
}

impl<'a> TryFrom<&'a [u8]> for Png {
    type Error = PngError;

    /// Reads a whole buffer, as [`parse_png`] says: a buffer without the
    /// signature is refused with `InvalidPngFile`, and the first chunk that
    /// cannot be read ends the reading with its error.
    fn try_from(bytes: &'a [u8]) -> (read: Result<Self, PngError>)
        ensures
            read_view(read) == parse_png(bytes@),
    {
        if bytes.len() < 8 {
            return Err(PngError::InvalidPngFile);
        }
        assert(Png::STANDARD_HEADER@ =~= standard_header());
        if !same_bytes(slice_subrange(bytes, 0, 8), Png::STANDARD_HEADER.as_slice()) {
            return Err(PngError::InvalidPngFile);
        }
        let mut walk = ChunkIterator::new(slice_subrange(bytes, 8, bytes.len()));
        let mut chunks: Vec<Chunk> = Vec::new();
        let ghost start = walk@;
        assert(models(chunks@) + drain(start)->Ok_0 =~= drain(start)->Ok_0);
        loop
            invariant
                parse_png(bytes@) == drain(start),
                drain(start) == chunks_then(models(chunks@), drain(walk@)),
            ensures
                drain(start) == Ok::<Seq<ChunkModel>, PngError>(models(chunks@)),
            decreases walk@.rest.len(),
        {
            let ghost before = walk@;
            let ghost front = models(chunks@);
            match walk.next() {
                None => {
                    assert(front + Seq::<ChunkModel>::empty() =~= front);
                    break ;
                },
                Some(Err(e)) => {
                    return Err(e);
                },
                Some(Ok(chunk)) => {
                    chunks.push(chunk);
                    proof {
                        assert(models(chunks@) =~= front.push(chunk@));
                        if drain(walk@) is Ok {
                            let rest = drain(walk@)->Ok_0;
                            assert(front + (seq![chunk@] + rest) =~= front.push(chunk@) + rest);
                        }
                    }
                },
            }
        }
        Ok(Png { chunks })
    }
}

/// What `try_from` gives is stated over models, in its own contract; no
/// specification names the container itself.
impl<'a> TryFromSpecImpl<&'a [u8]> for Png {
    open spec fn obeys_try_from_spec() -> bool {
        false
    }

    open spec fn try_from_spec(value: &'a [u8]) -> Result<Self, PngError> {
        arbitrary()
    }
}

/// The number of chunks of type `code`.
pub open spec fn count_of_type(chunks: Seq<ChunkModel>, code: Seq<u8>) -> nat
    decreases chunks.len(),
{
    if chunks.len() == 0 {
        0
    } else if chunks.last().chunk_type == code {
        count_of_type(chunks.drop_last(), code) + 1
    } else {
        count_of_type(chunks.drop_last(), code)
    }
}

/// There is a chunk of type `code` exactly when their count is not zero.
pub proof fn lemma_count_and_first_index(chunks: Seq<ChunkModel>, code: Seq<u8>)
    ensures
        count_of_type(chunks, code) == 0 <==> first_index(chunks, code) == chunks.len(),
    decreases chunks.len(),
{
    lemma_first_index(chunks, code);
    if chunks.len() > 0 {
        let front = chunks.drop_last();
        lemma_count_and_first_index(front, code);
        lemma_first_index(front, code);
        let i = first_index(front, code);
        if i < front.len() {
            assert(chunks[i] == front[i]);
            assert forall|j: int| 0 <= j < i implies (#[trigger] chunks[j]).chunk_type != code by {
                assert(chunks[j] == front[j]);
            }
            lemma_first_index_is(chunks, code, i);
        } else if chunks.last().chunk_type != code {
            assert forall|j: int| 0 <= j < chunks.len() implies (#[trigger] chunks[j]).chunk_type
                != code by {
                if j < front.len() {
                    assert(chunks[j] == front[j]);
                }
            }
            lemma_first_index_is(chunks, code, chunks.len() as int);
        }
    }
}

/// Taking out one chunk lowers the count of its type by one and leaves the
/// count of every other type as it was.
pub proof fn lemma_count_after_remove(chunks: Seq<ChunkModel>, i: int, code: Seq<u8>)
    requires
        0 <= i < chunks.len(),
    ensures
        count_of_type(chunks, code) == count_of_type(chunks.remove(i), code) + (if chunks[i].chunk_type
            == code {
            1nat
        } else {
            0nat
        }),
    decreases chunks.len(),
{
    if i == chunks.len() - 1 {
        assert(chunks.remove(i) =~= chunks.drop_last());
    } else {
        let after = chunks.remove(i);
        assert(after.drop_last() =~= chunks.drop_last().remove(i));
        assert(after.last() == chunks.last());
        lemma_count_after_remove(chunks.drop_last(), i, code);
    }
}

/// Appending a chunk and then removing by its type takes out one chunk of
/// that type, so that as many of them are left as there were before. The
/// chunk taken out equals the appended one wherever the container did not
/// already hold another chunk of that type in front of it; and where it held
/// none of that type, the container is again what it was.
pub proof fn lemma_append_then_remove(chunks: Seq<ChunkModel>, chunk: ChunkModel)
    ensures
        ({
            let code = chunk.chunk_type;
            let appended = chunks.push(chunk);
            let i = first_index(appended, code);
            let before = first_index(chunks, code);
            &&& i < appended.len()
            &&& appended[i].chunk_type == code
            &&& count_of_type(appended.remove(i), code) == count_of_type(appended, code) - 1
            &&& count_of_type(appended.remove(i), code) == count_of_type(chunks, code)
            &&& (before == chunks.len() || chunks[before] == chunk) ==> appended[i] == chunk
            &&& before == chunks.len() ==> appended.remove(i) == chunks
        }),
{
    let code = chunk.chunk_type;
    let appended = chunks.push(chunk);
    let before = first_index(chunks, code);
    lemma_first_index(chunks, code);
    assert forall|j: int| 0 <= j < before implies (#[trigger] appended[j]).chunk_type != code by {
        assert(appended[j] == chunks[j]);
    }
    if before < chunks.len() {
        assert(appended[before] == chunks[before]);
    }
    lemma_first_index_is(appended, code, before);
    lemma_count_after_remove(appended, before, code);
    assert(appended.drop_last() =~= chunks);
    if before == chunks.len() {
        assert(appended.remove(before) =~= chunks);
    }
}

/// Of two chunks of one type appended to a container that held none of that
/// type, a lookup finds the first, and one removal takes the first out and
/// leaves the second as the only chunk of that type, found by the next lookup.
pub proof fn lemma_first_match_wins(chunks: Seq<ChunkModel>, a: ChunkModel, b: ChunkModel)
    requires
        a.chunk_type == b.chunk_type,
        first_index(chunks, a.chunk_type) == chunks.len(),
    ensures
        ({
            let code = a.chunk_type;
            let both = chunks.push(a).push(b);
            let i = first_index(both, code);
            let after = both.remove(i);
            &&& i == chunks.len()
            &&& both[i] == a
            &&& after == chunks.push(b)
            &&& first_index(after, code) == chunks.len()
            &&& after[first_index(after, code)] == b
            &&& count_of_type(after, code) == 1
        }),
{
    let code = a.chunk_type;
    let n = chunks.len() as int;
    let both = chunks.push(a).push(b);
    let after = chunks.push(b);
    lemma_first_index(chunks, code);
    assert forall|j: int| 0 <= j < n implies (#[trigger] both[j]).chunk_type != code by {
        assert(both[j] == chunks[j]);
    }
    lemma_first_index_is(both, code, n);
    assert(both.remove(n) =~= after);
    assert forall|j: int| 0 <= j < n implies (#[trigger] after[j]).chunk_type != code by {
        assert(after[j] == chunks[j]);
    }
    lemma_first_index_is(after, code, n);
    lemma_count_and_first_index(chunks, code);
    assert(after.drop_last() =~= chunks);
}

/// Removing by a type that no chunk has finds nothing to take out.
pub proof fn lemma_absent_type(chunks: Seq<ChunkModel>, code: Seq<u8>)
    requires
        forall|j: int| 0 <= j < chunks.len() ==> (#[trigger] chunks[j]).chunk_type != code,
    ensures
        first_index(chunks, code) == chunks.len(),
        count_of_type(chunks, code) == 0,
{
    lemma_first_index_is(chunks, code, chunks.len() as int);
    lemma_count_and_first_index(chunks, code);
}

/// The wire form of a sequence of chunks starts with the wire form of its
/// first chunk.
pub proof fn lemma_wire_of_front(chunk: ChunkModel, rest: Seq<ChunkModel>)
    ensures
        wire_of(seq![chunk] + rest) == chunk.wire() + wire_of(rest),
    decreases rest.len(),
{
    let all = seq![chunk] + rest;
    if rest.len() == 0 {
        assert(all.drop_last() =~= Seq::<ChunkModel>::empty());
        assert(all.last() == chunk);
        assert(wire_of(Seq::<ChunkModel>::empty()) =~= Seq::<u8>::empty());
        assert(wire_of(all) =~= chunk.wire());
        assert(chunk.wire() + wire_of(rest) =~= chunk.wire());
    } else {
        assert(all.drop_last() =~= seq![chunk] + rest.drop_last());
        assert(all.last() == rest.last());
        lemma_wire_of_front(chunk, rest.drop_last());
        assert(wire_of(all) =~= chunk.wire() + wire_of(rest));
    }
}

/// A walk over the wire forms of chunks gives those chunks back.
pub proof fn lemma_drain_of_wire(chunks: Seq<ChunkModel>)
    requires
        forall|i: int| 0 <= i < chunks.len() ==> (#[trigger] chunks[i]).wf(),
    ensures
        drain(IterModel { rest: wire_of(chunks), tainted: false }) == Ok::<
            Seq<ChunkModel>,
            PngError,
        >(chunks),
    decreases chunks.len(),
{
    let state = IterModel { rest: wire_of(chunks), tainted: false };
    if chunks.len() == 0 {
        assert(drain(state)->Ok_0 =~= chunks);
    } else {
        let chunk = chunks[0];
        let rest = chunks.drop_first();
        assert(chunks =~= seq![chunk] + rest);
        lemma_wire_of_front(chunk, rest);
        let wire = chunk.wire();
        let tail = wire_of(rest);
        assert(state.rest == wire + tail);
        assert(chunk.wf());
        lemma_be_value_of_bytes(chunk.data.len() as u32);
        assert(wire.len() == chunk.data.len() + 12);
        assert(be_value(state.rest) == be_value(be_bytes(chunk.data.len() as u32)));
        assert(claimed_span(state.rest) == wire.len());
        assert(state.rest.subrange(0, wire.len() as int) =~= wire);
        assert(state.rest.subrange(wire.len() as int, state.rest.len() as int) =~= tail);
        lemma_chunk_round_trip(chunk);
        assert forall|i: int| 0 <= i < rest.len() implies (#[trigger] rest[i]).wf() by {
            assert(rest[i] == chunks[i + 1]);
        }
        lemma_drain_of_wire(rest);
        assert(step(state).1 == IterModel { rest: tail, tainted: false });
    }
}

/// Every chunk of a container that was read can be written.
pub proof fn lemma_parsed_png_is_wf(bytes: Seq<u8>)
    requires
        parse_png(bytes) is Ok,
    ensures
        forall|i: int|
            0 <= i < parse_png(bytes)->Ok_0.len() ==> (#[trigger] parse_png(bytes)->Ok_0[i]).wf(),
{
    lemma_drained_chunks_are_wf(
        IterModel { rest: bytes.subrange(8, bytes.len() as int), tainted: false },
    );
}

/// Writing a container and reading the bytes back gives the same chunks in
/// the same order.
pub proof fn lemma_png_round_trip(chunks: Seq<ChunkModel>)
    requires
        forall|i: int| 0 <= i < chunks.len() ==> (#[trigger] chunks[i]).wf(),
    ensures
        parse_png(png_wire(chunks)) == Ok::<Seq<ChunkModel>, PngError>(chunks),
{
    let bytes = png_wire(chunks);
    assert(bytes.subrange(0, 8) =~= standard_header());
    assert(bytes.subrange(8, bytes.len() as int) =~= wire_of(chunks));
    lemma_drain_of_wire(chunks);
}

} // verus!
