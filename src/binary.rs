//! Binary data arrays: a declared element count and encoding over stored,
//! possibly compressed, bytes.
use vstd::prelude::*;
use crate::compression::{decompress, inflated, CompressionType};
use crate::encoding::{decode_words, decode_words_raw, BinaryDataEncoding};
use crate::error::{DataKind, ParseError};

verus! {

/// A numeric array as the file format stores it.
#[derive(Debug, Clone)]
pub struct BinaryDataArray {
    /// Number of elements the array declares.
    pub length: usize,
    pub encoding: BinaryDataEncoding,
    pub compression: Option<CompressionType>,
    /// Declared floating-point precision in bits, when given.
    pub precision: Option<u8>,
    /// The stored bytes.
    pub data: Vec<u8>,
}

/// The number of payload bytes that `length` elements need, capped at the
/// largest `usize`.
pub open spec fn needed_bytes(length: usize, enc: BinaryDataEncoding) -> usize {
    if length * enc.spec_size() > usize::MAX {
        usize::MAX
    } else {
        (length * enc.spec_size()) as usize
    }
}

/// A decoded 32-bit word as a 32-bit signed integer.
pub open spec fn word_as_i32(enc: BinaryDataEncoding, w: u64) -> i32 {
    if enc.spec_size() == 4 {
        (w as u32) as i32
    } else {
        w as i32
    }
}

/// A decoded word as a 64-bit signed integer; 32-bit values are sign-extended.
pub open spec fn word_as_i64(enc: BinaryDataEncoding, w: u64) -> i64 {
    if enc.spec_size() == 4 {
        ((w as u32) as i32) as i64
    } else {
        w as i64
    }
}

impl BinaryDataArray {
    /// The words the array holds, or why they cannot be read.
    pub open spec fn spec_words(&self) -> Result<Seq<u64>, ParseError> {
        match inflated(self.compression, self.data@) {
            None => Err(ParseError::ZlibDecompress),
            Some(p) => if p.len() < self.length * self.encoding.spec_size() {
                Err(
                    ParseError::CorruptedData {
                        expected: needed_bytes(self.length, self.encoding),
                        actual: p.len() as usize,
                    },
                )
            } else {
                Ok(decode_words(self.encoding, p, self.length as nat))
            },
        }
    }

    /// An uncompressed array.
    pub fn new(length: usize, encoding: BinaryDataEncoding, data: Vec<u8>) -> (r: BinaryDataArray)
        ensures
            r.length == length,
            r.encoding == encoding,
            r.compression is None,
            r.precision is None,
            r.data@ == data@,
    {
        BinaryDataArray { length, encoding, compression: None, precision: None, data }
    }

    /// The same array, declared as compressed with `compression`.
    pub fn with_compression(self, compression: CompressionType) -> (r: BinaryDataArray)
        ensures
            r.compression == Some(compression),
            r.length == self.length,
            r.encoding == self.encoding,
            r.precision == self.precision,
            r.data@ == self.data@,
    {
        let mut a = self;
        a.compression = Some(compression);
        a
    }

    /// The same array, with a declared precision.
    pub fn with_precision(self, precision: u8) -> (r: BinaryDataArray)
        ensures
            r.precision == Some(precision),
            r.length == self.length,
            r.encoding == self.encoding,
            r.compression == self.compression,
            r.data@ == self.data@,
    {
        let mut a = self;
        a.precision = Some(precision);
        a
    }

    /// Inflates the stored bytes and reads `length` words from them.
    pub fn decode_words(&self) -> (r: Result<Vec<u64>, ParseError>)
        ensures
            match self.spec_words() {
                Ok(ws) => r matches Ok(v) && v@ == ws,
                Err(e) => r == Err::<Vec<u64>, ParseError>(e),
            },
    {
        let payload = match decompress(self.compression, &self.data) {
            Some(p) => p,
            None => {
                return Err(ParseError::ZlibDecompress);
            },
        };
        let size = self.encoding.size();
        let actual = payload.len();
        if self.length > usize::MAX / size {
            assert(self.length * size > usize::MAX) by (nonlinear_arith)
                requires
                    self.length > usize::MAX / size,
                    size > 0,
            ;
            return Err(ParseError::CorruptedData { expected: usize::MAX, actual });
        }
        assert(self.length * size <= usize::MAX) by (nonlinear_arith)
            requires
                self.length <= usize::MAX / size,
                size > 0,
        ;
        let expected = self.length * size;
        if actual < expected {
            return Err(ParseError::CorruptedData { expected, actual });
        }
        Ok(decode_words_raw(&payload, self.encoding, self.length))
    }

    /// The raw bit patterns of a float array: IEEE-754 binary64 patterns for
    /// 64-bit encodings, binary32 patterns for 32-bit ones.
    pub fn decode_float_bits(&self) -> (r: Result<Vec<u64>, ParseError>)
        ensures
            !self.encoding.spec_is_float() ==> r == Err::<Vec<u64>, ParseError>(
                ParseError::EncodingMismatch { expected: DataKind::Float, actual: self.encoding },
            ),
            self.encoding.spec_is_float() ==> match self.spec_words() {
                Ok(ws) => r matches Ok(v) && v@ == ws,
                Err(e) => r == Err::<Vec<u64>, ParseError>(e),
            },
    {
        if !self.encoding.is_float() {
            return Err(ParseError::EncodingMismatch { expected: DataKind::Float, actual: self.encoding });
        }
        self.decode_words()
    }

    /// Decodes an integer array to 64-bit integers.
    pub fn decode_i64(&self) -> (r: Result<Vec<i64>, ParseError>)
        ensures
            self.encoding.spec_is_float() ==> r == Err::<Vec<i64>, ParseError>(
                ParseError::EncodingMismatch { expected: DataKind::Integer, actual: self.encoding },
            ),
            !self.encoding.spec_is_float() ==> match self.spec_words() {
                Ok(ws) => r matches Ok(v) && v@ == Seq::new(
                    ws.len(),
                    |i: int| word_as_i64(self.encoding, ws[i]),
                ),
                Err(e) => r == Err::<Vec<i64>, ParseError>(e),
            },
    {
        if self.encoding.is_float() {
            return Err(ParseError::EncodingMismatch { expected: DataKind::Integer, actual: self.encoding });
        }
        let words = match self.decode_words() {
            Ok(w) => w,
            Err(e) => {
                return Err(e);
            },
        };
        let narrow = self.encoding.size() == 4;
        let mut out: Vec<i64> = Vec::new();
        let mut i: usize = 0;
        while i < words.len()
            invariant
                i <= words@.len(),
                narrow == (self.encoding.spec_size() == 4),
                out@ == Seq::new(i as nat, |j: int| word_as_i64(self.encoding, words@[j])),
            decreases words@.len() - i,
        {
            let w = words[i];
            let v: i64 = if narrow {
                (w as u32) as i32 as i64
            } else {
                w as i64
            };
            out.push(v);
            i = i + 1;
            assert(out@ =~= Seq::new(i as nat, |j: int| word_as_i64(self.encoding, words@[j])));
        }
        Ok(out)
    }

    /// Decodes an integer array to 32-bit integers; 64-bit values are truncated.
    pub fn decode_i32(&self) -> (r: Result<Vec<i32>, ParseError>)
        ensures
            self.encoding.spec_is_float() ==> r == Err::<Vec<i32>, ParseError>(
                ParseError::EncodingMismatch { expected: DataKind::Integer, actual: self.encoding },
            ),
            !self.encoding.spec_is_float() ==> match self.spec_words() {
                Ok(ws) => r matches Ok(v) && v@ == Seq::new(
                    ws.len(),
                    |i: int| word_as_i32(self.encoding, ws[i]),
                ),
                Err(e) => r == Err::<Vec<i32>, ParseError>(e),
            },
    {
        if self.encoding.is_float() {
            return Err(ParseError::EncodingMismatch { expected: DataKind::Integer, actual: self.encoding });
        }
        let words = match self.decode_words() {
            Ok(w) => w,
            Err(e) => {
                return Err(e);
            },
        };
        let narrow = self.encoding.size() == 4;
        let mut out: Vec<i32> = Vec::new();
        let mut i: usize = 0;
        while i < words.len()
            invariant
                i <= words@.len(),
                narrow == (self.encoding.spec_size() == 4),
                out@ == Seq::new(i as nat, |j: int| word_as_i32(self.encoding, words@[j])),
            decreases words@.len() - i,
        {
            let w = words[i];
            let v: i32 = if narrow {
                (w as u32) as i32
            } else {
                w as i32
            };
            out.push(v);
            i = i + 1;
            assert(out@ =~= Seq::new(i as nat, |j: int| word_as_i32(self.encoding, words@[j])));
        }
        Ok(out)
    }
}

} // verus!
