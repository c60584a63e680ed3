//! The commands of the tool, as functions from the bytes of a container to
//! what the command gives back. Reading the input and writing or printing
//! the outcome is left to the caller.

use crate::chunk::{Chunk, ChunkModel};
use crate::chunk_type::ChunkType;
use crate::error::PngError;
use crate::png::{
    first_index, lemma_append_then_remove, lemma_first_index, lemma_parsed_png_is_wf,
    lemma_png_round_trip, parse_png, png_text, png_wire, types_are_text, Png,
};
use vstd::prelude::*;
use vstd::slice::slice_to_vec;
use vstd::string::*;

verus! {

/// Where the container to encode into comes from.
#[derive(Debug, Clone, Copy, PartialEq, Eq, Structural)]
pub enum EncodeSource {
    /// A file on disk.
    File,
    /// A URL to fetch.
    Url,
}

/// Where the encoded container goes.
#[derive(Debug, Clone, Copy, PartialEq, Eq, Structural)]
pub enum EncodeTarget {
    /// The output file that was named.
    OutputFile,
    /// The file that the container was read from, which is overwritten.
    SourceFile,
}

/// What the caller of `encode` has to read and where it has to write.
#[derive(Debug, Clone, Copy, PartialEq, Eq, Structural)]
pub struct EncodePlan {
    pub source: EncodeSource,
    pub target: EncodeTarget,
}

/// The plan for the arguments that were given. A file path wins over a URL,
/// and a named output file over the source file. A URL alone leaves nowhere
/// to write, and nothing at all leaves nothing to read.
pub open spec fn planned(has_file_path: bool, has_url: bool, has_output_file: bool) -> Result<
    EncodePlan,
    PngError,
> {
    if !has_file_path && !has_url {
        Err(PngError::NoSource)
    } else if !has_file_path && !has_output_file {
        Err(PngError::OutputFileNotSpecified)
    } else {
        Ok(
            EncodePlan {
                source: if has_file_path {
                    EncodeSource::File
                } else {
                    EncodeSource::Url
                },
                target: if has_output_file {
                    EncodeTarget::OutputFile
                } else {
                    EncodeTarget::SourceFile
                },
            },
        )
    }
}

/// Decides from which of the given arguments `encode` reads and to which it
/// writes, as [`planned`] says.
pub fn plan_encode(has_file_path: bool, has_url: bool, has_output_file: bool) -> (plan: Result<
    EncodePlan,
    PngError,
>)
    ensures
        plan == planned(has_file_path, has_url, has_output_file),
{
    let source = if has_file_path {
        EncodeSource::File
    } else if has_url {
        if !has_output_file {
            return Err(PngError::OutputFileNotSpecified);
        }
        EncodeSource::Url
    } else {
        return Err(PngError::NoSource);
    };
    let target = if has_output_file {
        EncodeTarget::OutputFile
    } else {
        EncodeTarget::SourceFile
    };
    Ok(EncodePlan { source, target })
}

/// An outcome that carries bytes, with the bytes as a sequence.
pub open spec fn bytes_view(outcome: Result<Vec<u8>, PngError>) -> Result<Seq<u8>, PngError> {
    match outcome {
        Ok(bytes) => Ok(bytes@),
        Err(e) => Err(e),
    }
}

/// The container `png_bytes` with one more chunk behind all others, of type
/// `code` and with `message` as its payload. The container is read first, so
/// its errors come before the one for a type that is not four bytes long.
pub open spec fn encoded(png_bytes: Seq<u8>, code: Seq<u8>, message: Seq<u8>) -> Result<
    Seq<u8>,
    PngError,
> {
    match parse_png(png_bytes) {
        Err(e) => Err(e),
        Ok(chunks) => if code.len() != 4 {
            Err(PngError::InvalidSegment)
        } else {
            Ok(png_wire(chunks.push(ChunkModel { chunk_type: code, data: message })))
        },
    }
}

/// Hides `message` in the container `png_bytes`, in a new last chunk of the
/// type spelled by `chunk_type`, and returns the bytes of the new container.
pub fn encode(png_bytes: &[u8], chunk_type: &str, message: &str) -> (outcome: Result<
    Vec<u8>,
    PngError,
>)
    requires
        message.spec_bytes().len() <= u32::MAX,
    ensures
        bytes_view(outcome) == encoded(png_bytes@, chunk_type.spec_bytes(), message.spec_bytes()),
{
    let mut png = match Png::try_from(png_bytes) {
        Ok(png) => png,
        Err(e) => { return Err(e); },
    };
    let chunk_type = match ChunkType::from_str(chunk_type) {
        Ok(chunk_type) => chunk_type,
        Err(e) => { return Err(e); },
    };
    png.append_chunk(Chunk::new(chunk_type, slice_to_vec(message.as_bytes())));
    Ok(png.as_bytes())
}

/// What a lookup gives, with the chunk replaced by its model.
pub open spec fn found_view(outcome: Result<Option<Chunk>, PngError>) -> Result<
    Option<ChunkModel>,
    PngError,
> {
    match outcome {
        Ok(Some(chunk)) => Ok(Some(chunk@)),
        Ok(None) => Ok(None),
        Err(e) => Err(e),
    }
}

/// The first chunk of type `code` in the container `png_bytes`; a container
/// without one gives `ChunkNotFound`.
pub open spec fn decoded(png_bytes: Seq<u8>, code: Seq<u8>) -> Result<Option<ChunkModel>, PngError> {
    match parse_png(png_bytes) {
        Err(e) => Err(e),
        Ok(chunks) => {
            let i = first_index(chunks, code);
            if i < chunks.len() {
                Ok(Some(chunks[i]))
            } else {
                Err(PngError::ChunkNotFound)
            }
        },
    }
}

/// Reads back a hidden message: a copy of the first chunk of the type
/// spelled by `chunk_type` in the container `png_bytes`.
pub fn decode(png_bytes: &[u8], chunk_type: &str) -> (outcome: Result<Option<Chunk>, PngError>)
    ensures
        found_view(outcome) == decoded(png_bytes@, chunk_type.spec_bytes()),
{
    let png = match Png::try_from(png_bytes) {
        Ok(png) => png,
        Err(e) => { return Err(e); },
    };
    match png.chunk_by_type(chunk_type) {
        Some(chunk) => {
            proof {
                lemma_first_index(png@, chunk_type.spec_bytes());
            }
            let data = slice_to_vec(chunk.data());
            let code = match ChunkType::from_str(chunk_type) {
                Ok(code) => code,
                Err(e) => { return Err(e); },
            };
            Ok(Some(Chunk::new(code, data)))
        },
        None => Err(PngError::ChunkNotFound),
    }
}

/// What a removal gives, with the chunk taken out as its model and the new
/// container as a sequence of bytes.
pub open spec fn removal_view(outcome: Result<(Option<Chunk>, Vec<u8>), PngError>) -> Result<
    (Option<ChunkModel>, Seq<u8>),
    PngError,
> {
    match outcome {
        Ok((Some(chunk), bytes)) => Ok((Some(chunk@), bytes@)),
        Ok((None, bytes)) => Ok((None, bytes@)),
        Err(e) => Err(e),
    }
}

/// The first chunk of type `code` in the container `png_bytes`, and the
/// bytes of the container without it; a container without such a chunk gives
/// `ChunkNotFound`.
pub open spec fn removed(png_bytes: Seq<u8>, code: Seq<u8>) -> Result<
    (Option<ChunkModel>, Seq<u8>),
    PngError,
> {
    match parse_png(png_bytes) {
        Err(e) => Err(e),
        Ok(chunks) => {
            let i = first_index(chunks, code);
            if i < chunks.len() {
                Ok((Some(chunks[i]), png_wire(chunks.remove(i))))
            } else {
                Err(PngError::ChunkNotFound)
            }
        },
    }
}

/// Takes the first chunk of the type spelled by `chunk_type` out of the
/// container `png_bytes`, and returns it with the bytes of the new container.
pub fn remove(png_bytes: &[u8], chunk_type: &str) -> (outcome: Result<
    (Option<Chunk>, Vec<u8>),
    PngError,
>)
    ensures
        removal_view(outcome) == removed(png_bytes@, chunk_type.spec_bytes()),
{
    let mut png = match Png::try_from(png_bytes) {
        Ok(png) => png,
        Err(e) => { return Err(e); },
    };
    match png.remove_chunk(chunk_type) {
        Ok(chunk) => {
            let bytes = png.as_bytes();
            Ok((Some(chunk), bytes))
        },
        Err(e) => Err(e),
    }
}

/// An outcome that carries text, with the text as a sequence of characters.
pub open spec fn text_view(outcome: Result<String, PngError>) -> Result<Seq<char>, PngError> {
    match outcome {
        Ok(text) => Ok(text@),
        Err(e) => Err(e),
    }
}

/// The dump of the container `png_bytes`; a chunk whose type is not UTF-8
/// cannot be shown and gives `ChunkDataUTF8Error`.
pub open spec fn printed(png_bytes: Seq<u8>) -> Result<Seq<char>, PngError> {
    match parse_png(png_bytes) {
        Err(e) => Err(e),
        Ok(chunks) => if types_are_text(chunks) {
            Ok(png_text(chunks))
        } else {
            Err(PngError::ChunkDataUTF8Error)
        },
    }
}

/// Shows every chunk of the container `png_bytes` as text.
pub fn print(png_bytes: &[u8]) -> (outcome: Result<String, PngError>)
    ensures
        text_view(outcome) == printed(png_bytes@),
{
    let png = match Png::try_from(png_bytes) {
        Ok(png) => png,
        Err(e) => { return Err(e); },
    };
    png.to_string()
}

/// A message hidden under a type that the container did not hold before is
/// the one that decoding by that type reads back, and removing by that type
/// takes it out again and leaves the chunks that were there.
pub proof fn lemma_encode_then_decode(png_bytes: Seq<u8>, code: Seq<u8>, message: Seq<u8>)
    requires
        parse_png(png_bytes) is Ok,
        first_index(parse_png(png_bytes)->Ok_0, code) == parse_png(png_bytes)->Ok_0.len(),
        code.len() == 4,
        message.len() <= u32::MAX,
    ensures
        ({
            let hidden = ChunkModel { chunk_type: code, data: message };
            let chunks = parse_png(png_bytes)->Ok_0;
            let out = encoded(png_bytes, code, message);
            &&& out is Ok
            &&& parse_png(out->Ok_0) == Ok::<Seq<ChunkModel>, PngError>(chunks.push(hidden))
            &&& decoded(out->Ok_0, code) == Ok::<Option<ChunkModel>, PngError>(Some(hidden))
            &&& removed(out->Ok_0, code) == Ok::<(Option<ChunkModel>, Seq<u8>), PngError>(
                (Some(hidden), png_wire(chunks)),
            )
        }),
{
    let hidden = ChunkModel { chunk_type: code, data: message };
    let chunks = parse_png(png_bytes)->Ok_0;
    let longer = chunks.push(hidden);
    lemma_parsed_png_is_wf(png_bytes);
    assert forall|i: int| 0 <= i < longer.len() implies (#[trigger] longer[i]).wf() by {
        if i < chunks.len() {
            assert(longer[i] == chunks[i]);
        }
    }
    lemma_png_round_trip(longer);
    lemma_append_then_remove(chunks, hidden);
}

} // verus!
