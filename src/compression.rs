//! Stream compression of encoded arrays.
use vstd::prelude::*;
use crate::error::ParseError;
use crate::text::{lower_of, lowercase, str_eq};

verus! {

/// Compression applied to the bytes of a binary data array.
#[derive(Debug, Clone, Copy, PartialEq, Eq, Structural)]
pub enum CompressionType {
    /// Stored as is.
    NoCompression,
    Zlib,
    Gzip,
}

/// What inflating a zlib stream gives: `None` for a malformed stream.
pub uninterp spec fn zlib_inflated(data: Seq<u8>) -> Option<Seq<u8>>;

/// What inflating a gzip stream gives: `None` for a malformed stream.
pub uninterp spec fn gzip_inflated(data: Seq<u8>) -> Option<Seq<u8>>;

/// The payload that stored bytes hold under a compression setting; `None`
/// when the stream cannot be inflated.
pub open spec fn inflated(compression: Option<CompressionType>, data: Seq<u8>) -> Option<Seq<u8>> {
    match compression {
        Some(CompressionType::Zlib) => zlib_inflated(data),
        Some(CompressionType::Gzip) => gzip_inflated(data),
        _ => Some(data),
    }
}

/// The compression that a lower-case name of the file format stands for.
pub open spec fn compression_named(name: Seq<char>) -> Option<CompressionType> {
    if name == "none"@ || name == "no compression"@ {
        Some(CompressionType::NoCompression)
    } else if name == "zlib"@ {
        Some(CompressionType::Zlib)
    } else if name == "gzip"@ {
        Some(CompressionType::Gzip)
    } else {
        None
    }
}

impl CompressionType {
    /// Looks up an already lower-cased compression name.
    pub fn from_lowercase(name: &str) -> (r: Option<CompressionType>)
        ensures
            r == compression_named(name@),
    {
        if str_eq(name, "none") || str_eq(name, "no compression") {
            Some(CompressionType::NoCompression)
        } else if str_eq(name, "zlib") {
            Some(CompressionType::Zlib)
        } else if str_eq(name, "gzip") {
            Some(CompressionType::Gzip)
        } else {
            None
        }
    }

    /// Parses a compression name, ignoring case; an unknown name is reported
    /// as it was given.
    pub fn from_string(compression: &str) -> (r: Result<CompressionType, ParseError>)
        ensures
            compression_named(lower_of(compression@)) is Some ==> r == Ok::<CompressionType, ParseError>(
                compression_named(lower_of(compression@))->0,
            ),
            compression_named(lower_of(compression@)) is None ==> (r matches Err(
                ParseError::UnknownCompression(t),
            ) && t@ == compression@),
    {
        let lower = lowercase(compression);
        match CompressionType::from_lowercase(lower.as_str()) {
            Some(c) => Ok(c),
            None => Err(ParseError::UnknownCompression(compression.to_owned())),
        }
    }
}

/// Relies on `flate2::read::ZlibDecoder` read to the end: the inflated
/// stream, or an error for a malformed one.
#[verifier::external_body]
fn zlib_decompress(data: &[u8]) -> (r: Option<Vec<u8>>)
    ensures
        match r {
            Some(v) => zlib_inflated(data@) == Some(v@),
            None => zlib_inflated(data@) is None,
        },
{
    let mut decoder = flate2::read::ZlibDecoder::new(data);
    let mut out = Vec::new();
    match std::io::Read::read_to_end(&mut decoder, &mut out) {
        Ok(_) => Some(out),
        Err(_) => None,
    }
}

/// Relies on `flate2::read::GzDecoder` read to the end: the inflated
/// stream, or an error for a malformed one.
#[verifier::external_body]
fn gzip_decompress(data: &[u8]) -> (r: Option<Vec<u8>>)
    ensures
        match r {
            Some(v) => gzip_inflated(data@) == Some(v@),
            None => gzip_inflated(data@) is None,
        },
{
    let mut decoder = flate2::read::GzDecoder::new(data);
    let mut out = Vec::new();
    match std::io::Read::read_to_end(&mut decoder, &mut out) {
        Ok(_) => Some(out),
        Err(_) => None,
    }
}

/// Relies on `flate2::write::ZlibEncoder` at the default level: writing into
/// a `Vec` fails only when the compressor reports an error, which deflate on
/// in-memory input does not; deflate is lossless, so inflating the stream it
/// writes gives back the input.
#[verifier::external_body]
fn zlib_compress(data: &[u8]) -> (r: Option<Vec<u8>>)
    ensures
        r is Some,
        r matches Some(v) ==> zlib_inflated(v@) == Some(data@),
{
    let mut encoder = flate2::write::ZlibEncoder::new(Vec::new(), flate2::Compression::default());
    match std::io::Write::write_all(&mut encoder, data) {
        Ok(()) => encoder.finish().ok(),
        Err(_) => None,
    }
}

/// Relies on `flate2::write::GzEncoder` at the default level: writing into
/// a `Vec` fails only when the compressor reports an error, which deflate on
/// in-memory input does not; deflate is lossless, so inflating the stream it
/// writes gives back the input.
#[verifier::external_body]
fn gzip_compress(data: &[u8]) -> (r: Option<Vec<u8>>)
    ensures
        r is Some,
        r matches Some(v) ==> gzip_inflated(v@) == Some(data@),
{
    let mut encoder = flate2::write::GzEncoder::new(Vec::new(), flate2::Compression::default());
    match std::io::Write::write_all(&mut encoder, data) {
        Ok(()) => encoder.finish().ok(),
        Err(_) => None,
    }
}

/// Inflates stored bytes under a compression setting.
pub fn decompress(compression: Option<CompressionType>, data: &Vec<u8>) -> (r: Option<Vec<u8>>)
    ensures
        match r {
            Some(v) => inflated(compression, data@) == Some(v@),
            None => inflated(compression, data@) is None,
        },
{
    match compression {
        Some(CompressionType::Zlib) => zlib_decompress(data.as_slice()),
        Some(CompressionType::Gzip) => gzip_decompress(data.as_slice()),
        _ => Some(data.clone()),
    }
}

/// Compresses a payload. What comes back inflates to the payload, and is
/// the payload itself when nothing is to be compressed.
pub fn compress(compression: Option<CompressionType>, data: &Vec<u8>) -> (r: Vec<u8>)
    ensures
        inflated(compression, r@) == Some(data@),
        compression is None || compression == Some(CompressionType::NoCompression) ==> r@ == data@,
{
    match compression {
        Some(CompressionType::Zlib) => zlib_compress(data.as_slice()).unwrap(),
        Some(CompressionType::Gzip) => gzip_compress(data.as_slice()).unwrap(),
        _ => data.clone(),
    }
}

} // verus!
