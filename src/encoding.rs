//! Numeric element encodings and stream compression of binary data arrays.
use vstd::prelude::*;
use crate::error::ParseError;
use crate::text::{lower_of, lowercase, str_eq};
use vstd::bytes::{
    spec_u32_from_le_bytes, spec_u32_to_le_bytes, spec_u64_from_le_bytes, spec_u64_to_le_bytes,
    u32_from_le_bytes, u32_to_le_bytes, u64_from_le_bytes, u64_to_le_bytes,
};

verus! {

/// Width, byte order and kind of the elements of a binary data array.
#[derive(Debug, Clone, Copy, PartialEq, Eq, Structural)]
pub enum BinaryDataEncoding {
    Float32Little,
    Float64Little,
    Float32Big,
    Float64Big,
    Int32Little,
    Int64Little,
    Int32Big,
    Int64Big,
}

/// The encoding that a lower-case name of the file format stands for.
pub open spec fn encoding_named(name: Seq<char>) -> Option<BinaryDataEncoding> {
    if name == "32-bit float"@ {
        Some(BinaryDataEncoding::Float32Little)
    } else if name == "64-bit float"@ {
        Some(BinaryDataEncoding::Float64Little)
    } else if name == "32-bit integer"@ {
        Some(BinaryDataEncoding::Int32Little)
    } else if name == "64-bit integer"@ {
        Some(BinaryDataEncoding::Int64Little)
    } else {
        None
    }
}

impl BinaryDataEncoding {
    /// Looks up an already lower-cased encoding name.
    pub fn from_lowercase(name: &str) -> (r: Option<BinaryDataEncoding>)
        ensures
            r == encoding_named(name@),
    {
        if str_eq(name, "32-bit float") {
            Some(BinaryDataEncoding::Float32Little)
        } else if str_eq(name, "64-bit float") {
            Some(BinaryDataEncoding::Float64Little)
        } else if str_eq(name, "32-bit integer") {
            Some(BinaryDataEncoding::Int32Little)
        } else if str_eq(name, "64-bit integer") {
            Some(BinaryDataEncoding::Int64Little)
        } else {
            None
        }
    }

    /// Parses an encoding name, ignoring case; an unknown name is reported
    /// as it was given.
    pub fn from_string(encoding: &str) -> (r: Result<BinaryDataEncoding, ParseError>)
        ensures
            encoding_named(lower_of(encoding@)) is Some ==> r == Ok::<BinaryDataEncoding, ParseError>(
                encoding_named(lower_of(encoding@))->0,
            ),
            encoding_named(lower_of(encoding@)) is None ==> (r matches Err(
                ParseError::InvalidBinaryEncoding(t),
            ) && t@ == encoding@),
    {
        let lower = lowercase(encoding);
        match BinaryDataEncoding::from_lowercase(lower.as_str()) {
            Some(e) => Ok(e),
            None => Err(ParseError::InvalidBinaryEncoding(encoding.to_owned())),
        }
    }

    /// Bytes per element.
    pub open spec fn spec_size(self) -> nat {
        match self {
            BinaryDataEncoding::Float64Little | BinaryDataEncoding::Float64Big
            | BinaryDataEncoding::Int64Little | BinaryDataEncoding::Int64Big => 8,
            _ => 4,
        }
    }

    pub open spec fn spec_is_float(self) -> bool {
        match self {
            BinaryDataEncoding::Float32Little | BinaryDataEncoding::Float64Little
            | BinaryDataEncoding::Float32Big | BinaryDataEncoding::Float64Big => true,
            _ => false,
        }
    }

    pub open spec fn spec_is_little_endian(self) -> bool {
        match self {
            BinaryDataEncoding::Float32Little | BinaryDataEncoding::Float64Little
            | BinaryDataEncoding::Int32Little | BinaryDataEncoding::Int64Little => true,
            _ => false,
        }
    }

    /// Number of bytes one element takes.
    pub fn size(&self) -> (r: usize)
        ensures
            r == self.spec_size(),
    {
        match self {
            BinaryDataEncoding::Float64Little | BinaryDataEncoding::Float64Big
            | BinaryDataEncoding::Int64Little | BinaryDataEncoding::Int64Big => 8,
            _ => 4,
        }
    }

    /// Whether the elements are floating-point values.
    pub fn is_float(&self) -> (r: bool)
        ensures
            r == self.spec_is_float(),
    {
        match self {
            BinaryDataEncoding::Float32Little | BinaryDataEncoding::Float64Little
            | BinaryDataEncoding::Float32Big | BinaryDataEncoding::Float64Big => true,
            _ => false,
        }
    }

    /// Whether the elements are stored least significant byte first.
    pub fn is_little_endian(&self) -> (r: bool)
        ensures
            r == self.spec_is_little_endian(),
    {
        match self {
            BinaryDataEncoding::Float32Little | BinaryDataEncoding::Float64Little
            | BinaryDataEncoding::Int32Little | BinaryDataEncoding::Int64Little => true,
            _ => false,
        }
    }
}


/// The words of an array fit the element width of `enc`: a four-byte
/// encoding holds only values below 2^32.
pub open spec fn words_fit(enc: BinaryDataEncoding, ws: Seq<u64>) -> bool {
    enc.spec_size() == 4 ==> forall|i: int| 0 <= i < ws.len() ==> #[trigger] ws[i] <= u32::MAX
}

/// The bytes of one element, in the byte order of `enc`.
pub open spec fn element_bytes(enc: BinaryDataEncoding, w: u64) -> Seq<u8> {
    let le = if enc.spec_size() == 8 {
        spec_u64_to_le_bytes(w)
    } else {
        spec_u32_to_le_bytes(w as u32)
    };
    if enc.spec_is_little_endian() {
        le
    } else {
        le.reverse()
    }
}

/// The word that a chunk of `enc.spec_size()` bytes stands for.
pub open spec fn element_value(enc: BinaryDataEncoding, chunk: Seq<u8>) -> u64 {
    let le = if enc.spec_is_little_endian() {
        chunk
    } else {
        chunk.reverse()
    };
    if enc.spec_size() == 8 {
        spec_u64_from_le_bytes(le)
    } else {
        spec_u32_from_le_bytes(le) as u64
    }
}

/// The bytes of a whole array: each word's bytes, one after the other.
pub open spec fn encode_words(enc: BinaryDataEncoding, ws: Seq<u64>) -> Seq<u8>
    decreases ws.len(),
{
    if ws.len() == 0 {
        Seq::empty()
    } else {
        encode_words(enc, ws.drop_last()) + element_bytes(enc, ws.last())
    }
}

/// The first `n` words that `bytes` holds.
pub open spec fn decode_words(enc: BinaryDataEncoding, bytes: Seq<u8>, n: nat) -> Seq<u64> {
    Seq::new(
        n,
        |i: int|
            element_value(
                enc,
                bytes.subrange(i * enc.spec_size() as int, i * enc.spec_size() as int + enc.spec_size() as int),
            ),
    )
}

proof fn lemma_reverse_twice(s: Seq<u8>)
    ensures
        s.reverse().reverse() == s,
        s.reverse().len() == s.len(),
{
    if s.len() > 0 {
        assert(s.reverse().reverse() =~= s);
    }
}

/// What reading back an element gives: the word, or its low 32 bits for a
/// four-byte encoding.
pub open spec fn stored_word(enc: BinaryDataEncoding, w: u64) -> u64 {
    if enc.spec_size() == 8 {
        w
    } else {
        (w as u32) as u64
    }
}

/// One element's bytes have the element width and read back as the word
/// (its low 32 bits for a four-byte encoding).
pub proof fn lemma_element_round_trip(enc: BinaryDataEncoding, w: u64)
    ensures
        element_bytes(enc, w).len() == enc.spec_size(),
        element_value(enc, element_bytes(enc, w)) == stored_word(enc, w),
{
    vstd::bytes::lemma_auto_spec_u64_to_from_le_bytes();
    vstd::bytes::lemma_auto_spec_u32_to_from_le_bytes();
    let le = if enc.spec_size() == 8 {
        spec_u64_to_le_bytes(w)
    } else {
        spec_u32_to_le_bytes(w as u32)
    };
    lemma_reverse_twice(le);
}

/// The encoded bytes have one element width per word, and each word's
/// bytes stand at its position.
pub proof fn lemma_encode_words_layout(enc: BinaryDataEncoding, ws: Seq<u64>)
    ensures
        encode_words(enc, ws).len() == ws.len() * enc.spec_size(),
        forall|i: int|
            0 <= i < ws.len() ==> #[trigger] encode_words(enc, ws).subrange(
                i * enc.spec_size() as int,
                i * enc.spec_size() as int + enc.spec_size() as int,
            ) == element_bytes(enc, ws[i]),
    decreases ws.len(),
{
    let s = enc.spec_size() as int;
    if ws.len() > 0 {
        let init = ws.drop_last();
        lemma_encode_words_layout(enc, init);
        lemma_element_round_trip(enc, ws.last());
        let pre = encode_words(enc, init);
        let e = encode_words(enc, ws);
        assert(pre.len() == init.len() * s);
        assert(e.len() == ws.len() * s) by (nonlinear_arith)
            requires
                e.len() == pre.len() + s,
                pre.len() == init.len() * s,
                ws.len() == init.len() + 1,
        ;
        assert forall|i: int| 0 <= i < ws.len() implies #[trigger] e.subrange(i * s, i * s + s)
            == element_bytes(enc, ws[i]) by {
            if i < init.len() {
                assert(i * s + s <= init.len() * s) by (nonlinear_arith)
                    requires
                        i < init.len(),
                        s >= 0,
                ;
                assert(0 <= i * s) by (nonlinear_arith)
                    requires
                        0 <= i,
                        s >= 0,
                ;
                assert(e.subrange(i * s, i * s + s) =~= pre.subrange(i * s, i * s + s));
                assert(init[i] == ws[i]);
            } else {
                assert(i * s == init.len() * s);
                assert(e.subrange(i * s, i * s + s) =~= element_bytes(enc, ws.last()));
            }
        }
    }
}

/// Decoding the bytes of an array gives back its words, each as stored
/// (the low 32 bits for a four-byte encoding); the words themselves when
/// they fit the element width.
pub proof fn lemma_words_round_trip(enc: BinaryDataEncoding, ws: Seq<u64>)
    ensures
        encode_words(enc, ws).len() == ws.len() * enc.spec_size(),
        decode_words(enc, encode_words(enc, ws), ws.len()) == Seq::new(
            ws.len(),
            |i: int| stored_word(enc, ws[i]),
        ),
        words_fit(enc, ws) ==> decode_words(enc, encode_words(enc, ws), ws.len()) == ws,
{
    lemma_encode_words_layout(enc, ws);
    let d = decode_words(enc, encode_words(enc, ws), ws.len());
    assert forall|i: int| 0 <= i < ws.len() implies d[i] == stored_word(enc, ws[i]) by {
        let s = enc.spec_size() as int;
        assert(encode_words(enc, ws).subrange(i * s, i * s + s) == element_bytes(enc, ws[i]));
        lemma_element_round_trip(enc, ws[i]);
    }
    assert(d =~= Seq::new(ws.len(), |i: int| stored_word(enc, ws[i])));
    if words_fit(enc, ws) {
        assert forall|i: int| 0 <= i < ws.len() implies d[i] == ws[i] by {
            if enc.spec_size() == 4 {
                assert(ws[i] <= u32::MAX);
            }
        }
        assert(d =~= ws);
    }
}

/// Appends the bytes of one element.
fn push_element(data: &mut Vec<u8>, enc: BinaryDataEncoding, w: u64)
    ensures
        final(data)@ == old(data)@ + element_bytes(enc, w),
{
    let le: Vec<u8> = if enc.size() == 8 {
        u64_to_le_bytes(w)
    } else {
        u32_to_le_bytes(w as u32)
    };
    let n = le.len();
    let little = enc.is_little_endian();
    let ghost target = element_bytes(enc, w);
    assert(target.len() == n);
    let mut k: usize = 0;
    while k < n
        invariant
            n == le@.len(),
            k <= n,
            little == enc.spec_is_little_endian(),
            target == (if little { le@ } else { le@.reverse() }),
            data@ == old(data)@ + target.take(k as int),
        decreases n - k,
    {
        let b = if little {
            le[k]
        } else {
            le[n - 1 - k]
        };
        data.push(b);
        k = k + 1;
        assert(target.take(k as int) =~= target.take(k - 1) + seq![b]);
    }
    assert(target.take(n as int) =~= target);
}

/// The bytes of `ws`, with no compression. A four-byte encoding keeps the
/// low 32 bits of each word.
pub fn encode_words_raw(ws: &Vec<u64>, enc: BinaryDataEncoding) -> (r: Vec<u8>)
    ensures
        r@ == encode_words(enc, ws@),
{
    let mut data: Vec<u8> = Vec::new();
    let mut i: usize = 0;
    while i < ws.len()
        invariant
            i <= ws@.len(),
            data@ == encode_words(enc, ws@.take(i as int)),
        decreases ws@.len() - i,
    {
        let w = ws[i];
        push_element(&mut data, enc, w);
        assert(ws@.take(i + 1).drop_last() =~= ws@.take(i as int));
        i = i + 1;
    }
    assert(ws@.take(i as int) =~= ws@);
    data
}

/// Reads the element that starts at byte `start`.
fn read_element(bytes: &Vec<u8>, enc: BinaryDataEncoding, start: usize) -> (r: u64)
    requires
        start + enc.spec_size() <= bytes@.len(),
    ensures
        r == element_value(enc, bytes@.subrange(start as int, start + enc.spec_size())),
{
    let n = enc.size();
    let little = enc.is_little_endian();
    let ghost chunk = bytes@.subrange(start as int, start + n);
    let ghost le = if little { chunk } else { chunk.reverse() };
    let blen = bytes.len();
    let mut buf: Vec<u8> = Vec::new();
    let mut k: usize = 0;
    while k < n
        invariant
            blen == bytes@.len(),
            k <= n,
            n == enc.spec_size(),
            start + n <= bytes@.len(),
            little == enc.spec_is_little_endian(),
            chunk == bytes@.subrange(start as int, start + n),
            le == (if little { chunk } else { chunk.reverse() }),
            buf@ == le.take(k as int),
        decreases n - k,
    {
        let b = if little {
            bytes[start + k]
        } else {
            bytes[start + n - 1 - k]
        };
        buf.push(b);
        k = k + 1;
        assert(buf@ =~= le.take(k as int));
    }
    assert(buf@ =~= le);
    if n == 8 {
        u64_from_le_bytes(buf.as_slice())
    } else {
        u32_from_le_bytes(buf.as_slice()) as u64
    }
}

/// The first `n` words of `bytes`.
pub fn decode_words_raw(bytes: &Vec<u8>, enc: BinaryDataEncoding, n: usize) -> (r: Vec<u64>)
    requires
        n * enc.spec_size() <= bytes@.len(),
    ensures
        r@ == decode_words(enc, bytes@, n as nat),
{
    let size = enc.size();
    let blen = bytes.len();
    let mut out: Vec<u64> = Vec::new();
    let mut i: usize = 0;
    while i < n
        invariant
            blen == bytes@.len(),
            i <= n,
            size == enc.spec_size(),
            n * size <= bytes@.len(),
            out@ == decode_words(enc, bytes@, n as nat).take(i as int),
        decreases n - i,
    {
        assert(i * size + size <= n * size) by (nonlinear_arith)
            requires
                i < n,
        ;
        let start = i * size;
        let w = read_element(bytes, enc, start);
        out.push(w);
        i = i + 1;
        assert(out@ =~= decode_words(enc, bytes@, n as nat).take(i as int));
    }
    assert(out@ =~= decode_words(enc, bytes@, n as nat));
    out
}

} // verus!
