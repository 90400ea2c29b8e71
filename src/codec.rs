//! Encoder and decoder of peak arrays, with their default settings, and the
//! base64 transport text.
use vstd::prelude::*;
use crate::binary::BinaryDataArray;
use crate::compression::{compress, inflated, CompressionType};
use crate::encoding::{encode_words, encode_words_raw, words_fit, BinaryDataEncoding};
use crate::encoding::{lemma_words_round_trip, stored_word};
use crate::binary::word_as_i64;
use crate::error::{CoreError, ParseError};

verus! {

/// Standard base64 text (padded, standard alphabet) of a byte string.
pub uninterp spec fn base64_text(b: Seq<u8>) -> Seq<char>;

/// Relies on `base64::engine::general_purpose::STANDARD.encode`: padded
/// standard-alphabet text, four characters for each started group of three bytes.
#[verifier::external_body]
fn base64_encode(data: &[u8]) -> (r: String)
    ensures
        r@ == base64_text(data@),
        r@.len() == 4 * ((data@.len() + 2) / 3),
{
    base64::Engine::encode(&base64::engine::general_purpose::STANDARD, data)
}

/// Relies on `base64::engine::general_purpose::STANDARD.decode`: it requires
/// canonical padding and refuses trailing bits, so it accepts exactly the texts
/// that `encode` writes, each giving back the bytes it was written from.
#[verifier::external_body]
pub(crate) fn base64_decode(text: &str) -> (r: Option<Vec<u8>>)
    ensures
        match r {
            Some(v) => forall|b: Seq<u8>| #[trigger] base64_text(b) == text@ <==> b == v@,
            None => forall|b: Seq<u8>| #[trigger] base64_text(b) != text@,
        },
{
    base64::Engine::decode(&base64::engine::general_purpose::STANDARD, text).ok()
}

/// The array that `encode_*` builds from `words` when compression succeeds:
/// it declares the word count, the encoding and the compression, and its
/// bytes inflate to the encoded words.
pub open spec fn encodes(
    arr: BinaryDataArray,
    words: Seq<u64>,
    encoding: BinaryDataEncoding,
    compression: Option<CompressionType>,
) -> bool {
    &&& arr.length == words.len()
    &&& arr.encoding == encoding
    &&& arr.compression == compression
    &&& arr.precision is None
    &&& inflated(compression, arr.data@) == Some(encode_words(encoding, words))
    &&& (compression is None || compression == Some(CompressionType::NoCompression)) ==> arr.data@
        == encode_words(encoding, words)
}

/// Encodes arrays with a default encoding and compression.
pub struct Encoder {
    pub default_encoding: BinaryDataEncoding,
    pub default_compression: Option<CompressionType>,
}

impl Encoder {
    /// 64-bit little-endian floats, zlib-compressed.
    pub fn new() -> (r: Encoder)
        ensures
            r.default_encoding == BinaryDataEncoding::Float64Little,
            r.default_compression == Some(CompressionType::Zlib),
    {
        Encoder {
            default_encoding: BinaryDataEncoding::Float64Little,
            default_compression: Some(CompressionType::Zlib),
        }
    }

    pub fn with_encoding(self, encoding: BinaryDataEncoding) -> (r: Encoder)
        ensures
            r.default_encoding == encoding,
            r.default_compression == self.default_compression,
    {
        Encoder { default_encoding: encoding, default_compression: self.default_compression }
    }

    pub fn with_compression(self, compression: Option<CompressionType>) -> (r: Encoder)
        ensures
            r.default_encoding == self.default_encoding,
            r.default_compression == compression,
    {
        Encoder { default_encoding: self.default_encoding, default_compression: compression }
    }

    /// Encodes words and applies the default compression.
    fn encode_words_array(&self, words: &Vec<u64>, encoding: BinaryDataEncoding) -> (r: BinaryDataArray)
        ensures
            encodes(r, words@, encoding, self.default_compression),
    {
        let raw = encode_words_raw(words, encoding);
        let data = compress(self.default_compression, &raw);
        let mut arr = BinaryDataArray::new(words.len(), encoding, data);
        arr.compression = self.default_compression;
        arr
    }

    /// Encodes float values given as bit patterns: IEEE-754 binary64 patterns
    /// for a 64-bit encoding, binary32 patterns for a 32-bit one. An integer
    /// encoding is refused.
    pub fn encode_float_array(&self, bits: &Vec<u64>, encoding: BinaryDataEncoding) -> (r: Result<
        BinaryDataArray,
        CoreError,
    >)
        ensures
            !encoding.spec_is_float() ==> r == Err::<BinaryDataArray, CoreError>(
                CoreError::UnsupportedEncoding { encoding },
            ),
            encoding.spec_is_float() ==> (r matches Ok(arr) && encodes(
                arr,
                bits@,
                encoding,
                self.default_compression,
            )),
    {
        if !encoding.is_float() {
            return Err(CoreError::UnsupportedEncoding { encoding });
        }
        Ok(self.encode_words_array(bits, encoding))
    }

    /// Encodes integers; a 32-bit encoding keeps the low 32 bits of each
    /// value. A float encoding is refused.
    pub fn encode_int_array(&self, values: &Vec<i64>, encoding: BinaryDataEncoding) -> (r: Result<
        BinaryDataArray,
        CoreError,
    >)
        ensures
            encoding.spec_is_float() ==> r == Err::<BinaryDataArray, CoreError>(
                CoreError::UnsupportedEncoding { encoding },
            ),
            !encoding.spec_is_float() ==> (r matches Ok(arr) && encodes(
                arr,
                Seq::new(values@.len(), |i: int| values@[i] as u64),
                encoding,
                self.default_compression,
            )),
    {
        if encoding.is_float() {
            return Err(CoreError::UnsupportedEncoding { encoding });
        }
        let mut words: Vec<u64> = Vec::new();
        let mut i: usize = 0;
        while i < values.len()
            invariant
                i <= values@.len(),
                words@ == Seq::new(i as nat, |j: int| values@[j] as u64),
            decreases values@.len() - i,
        {
            words.push(values[i] as u64);
            i = i + 1;
            assert(words@ =~= Seq::new(i as nat, |j: int| values@[j] as u64));
        }
        assert(words@ =~= Seq::new(values@.len(), |j: int| values@[j] as u64));
        Ok(self.encode_words_array(&words, encoding))
    }

    /// The standard base64 text of `data`.
    pub fn encode_to_base64(&self, data: &Vec<u8>) -> (r: String)
        ensures
            r@ == base64_text(data@),
    {
        base64_encode(data.as_slice())
    }
}

impl Default for Encoder {
    fn default() -> (r: Encoder)
        ensures
            r.default_encoding == BinaryDataEncoding::Float64Little,
            r.default_compression == Some(CompressionType::Zlib),
    {
        Encoder::new()
    }
}

/// Decodes arrays; remembers a default encoding.
pub struct Decoder {
    pub default_encoding: BinaryDataEncoding,
}

impl Decoder {
    /// 64-bit little-endian floats.
    pub fn new() -> (r: Decoder)
        ensures
            r.default_encoding == BinaryDataEncoding::Float64Little,
    {
        Decoder { default_encoding: BinaryDataEncoding::Float64Little }
    }

    pub fn with_encoding(self, encoding: BinaryDataEncoding) -> (r: Decoder)
        ensures
            r.default_encoding == encoding,
    {
        Decoder { default_encoding: encoding }
    }

    /// The bytes that a standard base64 text stands for.
    pub fn decode_from_base64(&self, encoded: &str) -> (r: Result<Vec<u8>, CoreError>)
        ensures
            match r {
                Ok(v) => forall|b: Seq<u8>| #[trigger] base64_text(b) == encoded@ <==> b == v@,
                Err(e) => e == CoreError::Base64Decode && forall|b: Seq<u8>| #[trigger]
                    base64_text(b) != encoded@,
            },
    {
        match base64_decode(encoded) {
            Some(v) => Ok(v),
            None => Err(CoreError::Base64Decode),
        }
    }
}

impl Default for Decoder {
    fn default() -> (r: Decoder)
        ensures
            r.default_encoding == BinaryDataEncoding::Float64Little,
    {
        Decoder::new()
    }
}

/// Decoding what the encoder built gives back the encoded words, for every
/// encoding and compression, when the words fit the element width (a 32-bit
/// encoding stores only the low 32 bits of a word).
pub proof fn lemma_encode_decode_round_trip(
    arr: BinaryDataArray,
    words: Seq<u64>,
    encoding: BinaryDataEncoding,
    compression: Option<CompressionType>,
)
    requires
        encodes(arr, words, encoding, compression),
        words_fit(encoding, words),
    ensures
        arr.spec_words() == Ok::<Seq<u64>, ParseError>(words),
{
    lemma_words_round_trip(encoding, words);
}

/// An integer as it comes back from an array: itself for a 64-bit
/// encoding; for a 32-bit one its low 32 bits, sign-extended.
pub open spec fn int_read_back(encoding: BinaryDataEncoding, x: i64) -> i64 {
    if encoding.spec_size() == 8 {
        x
    } else {
        (x as i32) as i64
    }
}

proof fn lemma_int_word(encoding: BinaryDataEncoding, x: i64)
    ensures
        word_as_i64(encoding, stored_word(encoding, x as u64)) == int_read_back(encoding, x),
{
    let w = x as u64;
    assert((w as i64) == x) by (bit_vector)
        requires
            w == x as u64,
    ;
    let v = (w as u32) as u64;
    assert(((v as u32) as i32) as i64 == (x as i32) as i64) by (bit_vector)
        requires
            w == x as u64,
            v == (w as u32) as u64,
    ;
}

/// Decoding what the encoder built from integers gives them back: exactly
/// for a 64-bit encoding, truncated to 32 bits and sign-extended for a
/// 32-bit one (so exactly when every value fits in `i32`).
pub proof fn lemma_int_round_trip(
    arr: BinaryDataArray,
    values: Seq<i64>,
    encoding: BinaryDataEncoding,
    compression: Option<CompressionType>,
)
    requires
        !encoding.spec_is_float(),
        encodes(arr, Seq::new(values.len(), |i: int| values[i] as u64), encoding, compression),
    ensures
        arr.spec_words() matches Ok(ws) && Seq::new(ws.len(), |i: int| word_as_i64(encoding, ws[i]))
            == Seq::new(values.len(), |i: int| int_read_back(encoding, values[i])),
{
    let words = Seq::new(values.len(), |i: int| values[i] as u64);
    lemma_words_round_trip(encoding, words);
    let ws = Seq::new(words.len(), |i: int| stored_word(encoding, words[i]));
    assert(arr.spec_words() == Ok::<Seq<u64>, ParseError>(ws));
    assert forall|i: int| 0 <= i < values.len() implies word_as_i64(encoding, ws[i]) == int_read_back(
        encoding,
        values[i],
    ) by {
        lemma_int_word(encoding, values[i]);
    }
    assert(Seq::new(ws.len(), |i: int| word_as_i64(encoding, ws[i])) =~= Seq::new(
        values.len(),
        |i: int| int_read_back(encoding, values[i]),
    ));
}

} // verus!
