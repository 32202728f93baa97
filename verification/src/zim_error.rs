//! Errors raised while reading a ZIM archive.
use vstd::prelude::*;
use crate::cluster::Compression;
use crate::text::{decimal_string, spec_decimal, Utf8Failure};
use vstd::string::StringExecFns;

verus! {

/// Why a part of a ZIM archive could not be read.
#[derive(Debug, Clone, PartialEq, Eq)]
pub enum ZimError {
    /// A read ran past the end of the data ("failed to fill whole buffer").
    UnexpectedEof,
    /// The blob data of a cluster ends before the last blob offset.
    BlobDataEof,
    /// A string field is not valid UTF-8.
    InvalidUtf8(Utf8Failure),
    /// The header does not start with the ZIM magic number.
    InvalidMagicNumber(u32),
    /// The cluster compression nibble is not a known compression type.
    InvalidCompression(u8),
    /// The cluster uses a compression type that is known but not supported.
    UnsupportedCompression(Compression),
    /// The zstd decoder could not be created; the text is zstd's.
    ZstdCreate(String),
    /// The zstd stream of a cluster could not be decompressed; the text is zstd's.
    ZstdDecode(String),
    /// The first blob offset announces more blobs than allowed.
    TooManyBlobs(u64),
    /// The last blob offset lies before the first one.
    BlobOffsetsOutOfOrder,
    /// The MIME type list ends before it starts.
    InvalidMimeListPosition,
    /// The MIME type list has an entry without a terminating NUL byte.
    MimeListNotTerminated,
    /// A MIME type is not valid UTF-8.
    InvalidMimeTypeUtf8(Utf8Failure),
}

impl ZimError {
    /// The message describing the error.
    pub open spec fn spec_message(self) -> Seq<char> {
        match self {
            ZimError::UnexpectedEof => "failed to fill whole buffer"@,
            ZimError::BlobDataEof => "Failed to read blob data: failed to fill whole buffer"@,
            ZimError::InvalidUtf8(f) => f.spec_message(),
            ZimError::InvalidMagicNumber(m) => "Invalid magic number: "@ + spec_decimal(m as nat),
            ZimError::InvalidCompression(v) => "Invalid compression type: "@ + spec_decimal(v as nat),
            ZimError::UnsupportedCompression(c) => "Unsupported compression type: "@ + match c {
                Compression::Uncompressed => "None"@,
                Compression::Zip => "Zip"@,
                Compression::Bzip2 => "Bzip2"@,
                Compression::Lzma => "Lzma"@,
                Compression::Zstd => "Zstd"@,
            },
            ZimError::ZstdCreate(t) => "Failed to create zstd decoder: "@ + t@,
            ZimError::ZstdDecode(t) => "Failed to decompress zstd cluster: "@ + t@,
            ZimError::TooManyBlobs(n) => "Too many blobs in cluster: "@ + spec_decimal(n as nat),
            ZimError::BlobOffsetsOutOfOrder => "Blob offsets out of order"@,
            ZimError::InvalidMimeListPosition => "Invalid mime list position"@,
            ZimError::MimeListNotTerminated => "Mime list not null terminated"@,
            ZimError::InvalidMimeTypeUtf8(f) => "Invalid UTF-8 in mime type: "@ + f.spec_message(),
        }
    }

    /// The message describing the error.
    pub fn to_string(&self) -> (s: String)
        ensures
            s@ == self.spec_message(),
    {
        match self {
            ZimError::UnexpectedEof => String::from_str("failed to fill whole buffer"),
            ZimError::BlobDataEof => String::from_str("Failed to read blob data: failed to fill whole buffer"),
            ZimError::InvalidUtf8(f) => f.to_string(),
            ZimError::InvalidMagicNumber(m) => {
                let mut s = String::from_str("Invalid magic number: ");
                s.append(decimal_string(*m as u64).as_str());
                s
            },
            ZimError::InvalidCompression(v) => {
                let mut s = String::from_str("Invalid compression type: ");
                s.append(decimal_string(*v as u64).as_str());
                s
            },
            ZimError::UnsupportedCompression(c) => {
                let mut s = String::from_str("Unsupported compression type: ");
                let name = match c {
                    Compression::Uncompressed => "None",
                    Compression::Zip => "Zip",
                    Compression::Bzip2 => "Bzip2",
                    Compression::Lzma => "Lzma",
                    Compression::Zstd => "Zstd",
                };
                s.append(name);
                s
            },
            ZimError::ZstdCreate(t) => {
                let mut s = String::from_str("Failed to create zstd decoder: ");
                s.append(t.as_str());
                s
            },
            ZimError::ZstdDecode(t) => {
                let mut s = String::from_str("Failed to decompress zstd cluster: ");
                s.append(t.as_str());
                s
            },
            ZimError::TooManyBlobs(n) => {
                let mut s = String::from_str("Too many blobs in cluster: ");
                s.append(decimal_string(*n).as_str());
                s
            },
            ZimError::BlobOffsetsOutOfOrder => String::from_str("Blob offsets out of order"),
            ZimError::InvalidMimeListPosition => String::from_str("Invalid mime list position"),
            ZimError::MimeListNotTerminated => String::from_str("Mime list not null terminated"),
            ZimError::InvalidMimeTypeUtf8(f) => {
                let mut s = String::from_str("Invalid UTF-8 in mime type: ");
                s.append(f.to_string().as_str());
                s
            },
        }
    }
}

} // verus!
