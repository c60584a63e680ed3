use pngme::error::PngError;
use pngme::text::{push_byte_list, push_decimal};
use pngme::utils::{ref_buffer_to_u32, segment4, u32_to_be_bytes};

#[test]
fn segment4_copies_exactly_four_bytes() {
    assert_eq!(segment4(&[1, 2, 3, 4]), Ok([1, 2, 3, 4]));
    assert_eq!(segment4(&[82, 117, 83, 116]), Ok(*b"RuSt"));
}

#[test]
fn segment4_refuses_other_lengths() {
    assert_eq!(segment4(&[]), Err(PngError::InvalidSegment));
    assert_eq!(segment4(&[1, 2, 3]), Err(PngError::InvalidSegment));
    assert_eq!(segment4(&[1, 2, 3, 4, 5]), Err(PngError::InvalidSegment));
}

#[test]
fn ref_buffer_to_u32_reads_big_endian() {
    assert_eq!(ref_buffer_to_u32(&[0, 0, 0, 42]), Ok(42));
    assert_eq!(ref_buffer_to_u32(&[0, 0, 1, 0]), Ok(256));
    assert_eq!(ref_buffer_to_u32(&[1, 2, 3, 4]), Ok(0x0102_0304));
    assert_eq!(ref_buffer_to_u32(&[255, 255, 255, 255]), Ok(u32::MAX));
    assert_eq!(ref_buffer_to_u32(&[171, 209, 216, 78]), Ok(2882656334));
}

#[test]
fn ref_buffer_to_u32_reads_only_the_first_four_bytes() {
    assert_eq!(ref_buffer_to_u32(&[0, 0, 0, 42, 9, 9, 9]), Ok(42));
}

#[test]
fn ref_buffer_to_u32_refuses_a_short_buffer() {
    assert_eq!(ref_buffer_to_u32(&[]), Err(PngError::InvalidSegment));
    assert_eq!(ref_buffer_to_u32(&[0, 0, 42]), Err(PngError::InvalidSegment));
}

#[test]
fn u32_to_be_bytes_writes_most_significant_first() {
    assert_eq!(u32_to_be_bytes(0), [0, 0, 0, 0]);
    assert_eq!(u32_to_be_bytes(42), [0, 0, 0, 42]);
    assert_eq!(u32_to_be_bytes(0x0102_0304), [1, 2, 3, 4]);
    assert_eq!(u32_to_be_bytes(u32::MAX), [255, 255, 255, 255]);
    assert_eq!(u32_to_be_bytes(2882656334), 2882656334u32.to_be_bytes());
}

#[test]
fn big_endian_bytes_read_back_as_the_number() {
    for value in [0u32, 1, 255, 256, 65535, 65536, 16777215, 16777216, 2882656334, u32::MAX] {
        assert_eq!(ref_buffer_to_u32(&u32_to_be_bytes(value)), Ok(value));
        assert_eq!(u32_to_be_bytes(value), value.to_be_bytes());
    }
}

#[test]
fn decimal_notation_has_no_leading_zeros() {
    for value in [0u32, 7, 10, 42, 99, 100, 1234567890, 2882656334, u32::MAX] {
        let mut out = String::from("n=");
        push_decimal(&mut out, value);
        assert_eq!(out, format!("n={}", value));
    }
}

#[test]
fn byte_list_is_bracketed_and_comma_separated() {
    let mut out = String::new();
    push_byte_list(&mut out, &[]);
    assert_eq!(out, "[]");
    let mut out = String::new();
    push_byte_list(&mut out, &[7]);
    assert_eq!(out, "[7]");
    let mut out = String::from("bytes: ");
    push_byte_list(&mut out, &[0, 0, 0, 42, 255]);
    assert_eq!(out, "bytes: [0, 0, 0, 42, 255]");
}

#[test]
fn every_error_has_its_message() {
    assert_eq!(PngError::ChunkNotFound.to_string(), "Chunk not found");
    assert_eq!(PngError::InvalidPngFile.to_string(), "Invalid png file");
    assert_eq!(PngError::InvalidCrc.to_string(), "Invalid crc");
    assert_eq!(PngError::EmptyCrc.to_string(), "Empty crc");
    assert_eq!(PngError::InvalidSegment.to_string(), "Invalid segment");
    assert_eq!(PngError::ShortChunk.to_string(), "Short chunk");
    assert_eq!(PngError::ChunkDataUTF8Error.to_string(), "Chunk data is not UTF-8");
    assert_eq!(PngError::FileNotFound.to_string(), "File not found");
    assert_eq!(PngError::OutputFileNotSpecified.to_string(), "Output file not specified");
    assert_eq!(PngError::NoSource.to_string(), "No source specified");
    assert_eq!(PngError::DownloadFailed.to_string(), "Download failed");
}

#[test]
fn storage_failures_become_file_not_found() {
    let failure = std::io::Error::new(std::io::ErrorKind::PermissionDenied, "denied");
    assert_eq!(PngError::from(failure), PngError::FileNotFound);
    let failure = std::io::Error::new(std::io::ErrorKind::NotFound, "missing");
    let converted: PngError = failure.into();
    assert_eq!(converted, PngError::FileNotFound);
}
