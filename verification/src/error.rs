//! The error kinds shared by every operation of the crate.

use vstd::prelude::*;
use vstd::std_specs::convert::FromSpecImpl;

verus! {

/// Everything that can go wrong while reading, editing or writing a container.
#[derive(Debug, Clone, Copy, PartialEq, Eq, Structural)]
pub enum PngError {
    /// No chunk of the wanted type is in the container.
    ChunkNotFound,
    /// The buffer does not start with the PNG signature.
    InvalidPngFile,
    /// The checksum stored behind a chunk differs from the one computed.
    InvalidCrc,
    /// The bytes of a chunk end before its checksum field is complete.
    EmptyCrc,
    /// A chunk type was not given as exactly four bytes.
    InvalidSegment,
    /// The buffer ends before the chunk that it announces.
    ShortChunk,
    /// The bytes are not UTF-8 and cannot be shown as text.
    ChunkDataUTF8Error,
    /// Reading or writing the underlying storage failed.
    FileNotFound,
    /// The input is remote and no output file was named.
    OutputFileNotSpecified,
    /// Neither a file nor a URL was named as input.
    NoSource,
    /// The remote input could not be fetched.
    DownloadFailed,
}

impl PngError {
    /// The message shown to the user for this error.
    pub open spec fn message(self) -> Seq<char> {
        match self {
            PngError::ChunkNotFound => "Chunk not found"@,
            PngError::InvalidPngFile => "Invalid png file"@,
            PngError::InvalidCrc => "Invalid crc"@,
            PngError::EmptyCrc => "Empty crc"@,
            PngError::InvalidSegment => "Invalid segment"@,
            PngError::ShortChunk => "Short chunk"@,
            PngError::ChunkDataUTF8Error => "Chunk data is not UTF-8"@,
            PngError::FileNotFound => "File not found"@,
            PngError::OutputFileNotSpecified => "Output file not specified"@,
            PngError::NoSource => "No source specified"@,
            PngError::DownloadFailed => "Download failed"@,
        }
    }

    /// Renders the error as its message.
    pub fn to_string(&self) -> (text: String)
        ensures
            text@ == self.message(),
    {
        let literal: &str = match self {
            PngError::ChunkNotFound => "Chunk not found",
            PngError::InvalidPngFile => "Invalid png file",
            PngError::InvalidCrc => "Invalid crc",
            PngError::EmptyCrc => "Empty crc",
            PngError::InvalidSegment => "Invalid segment",
            PngError::ShortChunk => "Short chunk",
            PngError::ChunkDataUTF8Error => "Chunk data is not UTF-8",
            PngError::FileNotFound => "File not found",
            PngError::OutputFileNotSpecified => "Output file not specified",
            PngError::NoSource => "No source specified",
            PngError::DownloadFailed => "Download failed",
        };
        literal.to_owned()
    }
}

/// The error type of the standard library's input and output, which callers
/// hand over when reading or writing fails. Nothing is known of its contents.
#[verifier::external_type_specification]
#[verifier::external_body]
pub struct ExIoError(std::io::Error);

impl From<std::io::Error> for PngError {
    /// Every failure of the underlying storage becomes `FileNotFound`.
    fn from(_error: std::io::Error) -> (error: PngError)
        ensures
            error == PngError::FileNotFound,
    {
        PngError::FileNotFound
    }
}

impl FromSpecImpl<std::io::Error> for PngError {
    open spec fn obeys_from_spec() -> bool {
        true
    }

    open spec fn from_spec(_error: std::io::Error) -> PngError {
        PngError::FileNotFound
    }
}

} // verus!
