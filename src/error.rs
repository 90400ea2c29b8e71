//! Error kinds of the library.
use vstd::prelude::*;
use crate::encoding::BinaryDataEncoding;

verus! {

/// Errors of the spectrum model and of the encoder.
///
/// Floating-point quantities are carried as their IEEE-754 bit patterns.
#[derive(Debug, Clone, PartialEq, Eq)]
pub enum CoreError {
    InvalidMSLevel { level: u8, min: u8, max: u8 },
    InvalidCharge { charge: i8, min: i8, max: i8 },
    InvalidRetentionTime { rt: u64 },
    InvalidDriftTime { dt: u64 },
    EmptyPeakList,
    InvalidPeakData { mz: u64, intensity: u64 },
    DuplicateKey { key: String },
    KeyNotFound { key: String },
    /// Floats were asked for with an integer encoding, or the reverse.
    UnsupportedEncoding { encoding: BinaryDataEncoding },
    /// The transport text is not valid base64.
    Base64Decode,
    /// Extraction was asked of an extractor that holds no spectra.
    ExtractorNotLoaded,
}

/// What a decoder expected to find in an array or a parameter.
#[derive(Debug, Clone, Copy, PartialEq, Eq, Structural)]
pub enum DataKind {
    Float,
    Integer,
}

/// Errors of decoding binary arrays and of reading mzML metadata.
#[derive(Debug, Clone, PartialEq, Eq)]
pub enum ParseError {
    Xml(String),
    InvalidFormat(String),
    MissingField { field: String },
    /// A float array was decoded as integers, or the reverse.
    EncodingMismatch { expected: DataKind, actual: BinaryDataEncoding },
    /// A parameter value does not parse as the kind asked for.
    InvalidDataType { expected: DataKind, actual: String },
    /// The transport text is not valid base64.
    Base64Decode,
    /// The compressed stream is malformed.
    ZlibDecompress,
    InvalidBinaryEncoding(String),
    UnknownCompression(String),
    IndexOutOfBounds { index: usize, length: usize },
    EmptyDataArray,
    /// The m/z and intensity arrays of a record differ in length.
    LengthMismatch { mz: usize, intensity: usize },
    /// Fewer bytes than the declared length needs.
    CorruptedData { expected: usize, actual: usize },
}

} // verus!
