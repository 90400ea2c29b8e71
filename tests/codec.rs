use base64::Engine;
use msdata::binary::BinaryDataArray;
use msdata::codec::{Decoder, Encoder};
use msdata::compression::CompressionType;
use msdata::encoding::BinaryDataEncoding;
use msdata::error::{CoreError, DataKind, ParseError};

fn bits(values: &[f64]) -> Vec<u64> {
    values.iter().map(|v| v.to_bits()).collect()
}

fn floats(words: &[u64]) -> Vec<f64> {
    words.iter().map(|w| f64::from_bits(*w)).collect()
}

#[test]
fn test_encoder_creation() {
    let encoder = Encoder::new();
    assert!(matches!(encoder.default_encoding, BinaryDataEncoding::Float64Little));
    assert!(encoder.default_compression.is_some());
}

#[test]
fn test_base64_encoding() {
    let encoder = Encoder::new();
    let data = b"Hello, World!";
    let encoded = encoder.encode_to_base64(&data.to_vec());
    let decoded = base64::engine::general_purpose::STANDARD.decode(encoded).unwrap();
    assert_eq!(data, decoded.as_slice());
}

#[test]
fn base64_text_is_standard_and_round_trips() {
    let encoder = Encoder::new();
    let decoder = Decoder::new();
    let text = encoder.encode_to_base64(&b"Hello, World!".to_vec());
    assert_eq!(text, "SGVsbG8sIFdvcmxkIQ==");
    assert_eq!(decoder.decode_from_base64(&text).unwrap(), b"Hello, World!".to_vec());
    assert_eq!(encoder.encode_to_base64(&Vec::new()), "");
}

#[test]
fn base64_malformed_text_is_refused() {
    let decoder = Decoder::new();
    assert_eq!(decoder.decode_from_base64("SGVsbG8*"), Err(CoreError::Base64Decode));
    assert_eq!(decoder.decode_from_base64("SGVsbG8"), Err(CoreError::Base64Decode));
}

#[test]
fn test_binary_data_encoding() {
    let encoding = BinaryDataEncoding::from_string("32-bit float").unwrap();
    assert_eq!(encoding, BinaryDataEncoding::Float32Little);
    assert_eq!(encoding.size(), 4);
    assert!(encoding.is_float());
    assert!(encoding.is_little_endian());
}

#[test]
fn encoding_names_ignore_case_and_unknown_names_are_refused() {
    assert_eq!(
        BinaryDataEncoding::from_string("64-BIT Float").unwrap(),
        BinaryDataEncoding::Float64Little
    );
    assert_eq!(
        BinaryDataEncoding::from_string("64-bit integer").unwrap(),
        BinaryDataEncoding::Int64Little
    );
    assert_eq!(
        BinaryDataEncoding::from_string("16-bit float"),
        Err(ParseError::InvalidBinaryEncoding("16-bit float".to_string()))
    );
    assert_eq!(BinaryDataEncoding::from_lowercase("32-bit integer"), Some(BinaryDataEncoding::Int32Little));
    assert_eq!(BinaryDataEncoding::from_lowercase("32-BIT integer"), None);
    assert_eq!(BinaryDataEncoding::Int64Big.size(), 8);
    assert!(!BinaryDataEncoding::Int64Big.is_little_endian());
    assert!(!BinaryDataEncoding::Int32Little.is_float());
}

#[test]
fn test_binary_data_array() {
    let data = vec![0x00, 0x00, 0x28, 0x42]; // 42.0 in f32 little endian
    let array = BinaryDataArray::new(1, BinaryDataEncoding::Float32Little, data);

    let decoded: Vec<f32> = array
        .decode_float_bits()
        .unwrap()
        .iter()
        .map(|w| f32::from_bits(*w as u32))
        .collect();
    assert_eq!(decoded.len(), 1);
    assert_eq!(decoded[0], 42.0);
}

#[test]
fn test_compression_type() {
    let compression = CompressionType::from_string("zlib").unwrap();
    assert_eq!(compression, CompressionType::Zlib);

    let compression = CompressionType::from_string("none").unwrap();
    assert_eq!(compression, CompressionType::NoCompression);
}

#[test]
fn compression_names() {
    assert_eq!(CompressionType::from_string("No Compression").unwrap(), CompressionType::NoCompression);
    assert_eq!(CompressionType::from_string("GZIP").unwrap(), CompressionType::Gzip);
    assert_eq!(
        CompressionType::from_string("lz4"),
        Err(ParseError::UnknownCompression("lz4".to_string()))
    );
}

#[test]
fn float64_little_uncompressed_round_trip() {
    let encoder = Encoder::new().with_compression(None);
    let arr = encoder
        .encode_float_array(&bits(&[100.0, 200.0]), BinaryDataEncoding::Float64Little)
        .unwrap();
    assert_eq!(arr.length, 2);
    assert_eq!(arr.data.len(), 16);
    assert_eq!(arr.data[..8], 100.0f64.to_le_bytes());
    assert_eq!(floats(&arr.decode_float_bits().unwrap()), vec![100.0, 200.0]);
}

#[test]
fn big_endian_bytes_are_reversed() {
    let encoder = Encoder::new().with_compression(Some(CompressionType::NoCompression));
    let arr = encoder
        .encode_float_array(&bits(&[1.5]), BinaryDataEncoding::Float64Big)
        .unwrap();
    assert_eq!(arr.data, 1.5f64.to_be_bytes().to_vec());
    assert_eq!(floats(&arr.decode_float_bits().unwrap()), vec![1.5]);
}

#[test]
fn round_trip_every_encoding_and_compression() {
    let values = [0.0, 1.25, 100.5, 1.0e10, 123456.789];
    let compressions = [
        None,
        Some(CompressionType::NoCompression),
        Some(CompressionType::Zlib),
        Some(CompressionType::Gzip),
    ];
    for compression in compressions {
        let encoder = Encoder::new().with_compression(compression);
        for enc in [BinaryDataEncoding::Float64Little, BinaryDataEncoding::Float64Big] {
            let arr = encoder.encode_float_array(&bits(&values), enc).unwrap();
            assert_eq!(arr.compression, compression);
            assert_eq!(floats(&arr.decode_float_bits().unwrap()), values.to_vec());
        }
        for enc in [BinaryDataEncoding::Float32Little, BinaryDataEncoding::Float32Big] {
            let narrow: Vec<u64> = values.iter().map(|v| (*v as f32).to_bits() as u64).collect();
            let arr = encoder.encode_float_array(&narrow, enc).unwrap();
            let back: Vec<f64> = arr
                .decode_float_bits()
                .unwrap()
                .iter()
                .map(|w| f32::from_bits(*w as u32) as f64)
                .collect();
            for (a, b) in back.iter().zip(values.iter()) {
                assert!((a - b).abs() <= b.abs() * 1e-6);
            }
        }
        let ints = vec![0i64, -1, 42, i64::MAX, i64::MIN];
        for enc in [BinaryDataEncoding::Int64Little, BinaryDataEncoding::Int64Big] {
            let arr = encoder.encode_int_array(&ints, enc).unwrap();
            assert_eq!(arr.decode_i64().unwrap(), ints);
        }
        let small = vec![0i64, -1, 42, -100000];
        for enc in [BinaryDataEncoding::Int32Little, BinaryDataEncoding::Int32Big] {
            let arr = encoder.encode_int_array(&small, enc).unwrap();
            assert_eq!(arr.decode_i64().unwrap(), small);
            assert_eq!(arr.decode_i32().unwrap(), vec![0i32, -1, 42, -100000]);
        }
    }
}

#[test]
fn compressed_data_differs_from_payload() {
    let encoder = Encoder::new();
    let arr = encoder
        .encode_float_array(&bits(&[1.0; 64]), BinaryDataEncoding::Float64Little)
        .unwrap();
    assert_eq!(arr.compression, Some(CompressionType::Zlib));
    assert!(arr.data.len() < 64 * 8);
    let gz = Encoder::new().with_compression(Some(CompressionType::Gzip));
    let arr = gz.encode_float_array(&bits(&[1.0; 64]), BinaryDataEncoding::Float64Little).unwrap();
    assert_eq!(&arr.data[..2], &[0x1f, 0x8b]);
}

#[test]
fn int64_truncates_to_int32() {
    let encoder = Encoder::new().with_compression(None);
    let arr = encoder
        .encode_int_array(&vec![0x1_0000_0005i64], BinaryDataEncoding::Int64Little)
        .unwrap();
    assert_eq!(arr.decode_i32().unwrap(), vec![5]);
}

#[test]
fn encoding_kind_mismatches_are_refused() {
    let encoder = Encoder::new();
    assert_eq!(
        encoder.encode_float_array(&bits(&[1.0]), BinaryDataEncoding::Int32Little).unwrap_err(),
        CoreError::UnsupportedEncoding { encoding: BinaryDataEncoding::Int32Little }
    );
    assert_eq!(
        encoder.encode_float_array(&Vec::new(), BinaryDataEncoding::Int64Big).unwrap_err(),
        CoreError::UnsupportedEncoding { encoding: BinaryDataEncoding::Int64Big }
    );
    assert_eq!(
        encoder.encode_int_array(&vec![1], BinaryDataEncoding::Float64Little).unwrap_err(),
        CoreError::UnsupportedEncoding { encoding: BinaryDataEncoding::Float64Little }
    );
    let floats_arr = BinaryDataArray::new(1, BinaryDataEncoding::Float64Little, vec![0; 8]);
    assert_eq!(
        floats_arr.decode_i64(),
        Err(ParseError::EncodingMismatch {
            expected: DataKind::Integer,
            actual: BinaryDataEncoding::Float64Little
        })
    );
    let ints_arr = BinaryDataArray::new(1, BinaryDataEncoding::Int32Big, vec![0; 4]);
    assert_eq!(
        ints_arr.decode_float_bits(),
        Err(ParseError::EncodingMismatch { expected: DataKind::Float, actual: BinaryDataEncoding::Int32Big })
    );
}

#[test]
fn short_payload_is_corrupted() {
    let arr = BinaryDataArray::new(3, BinaryDataEncoding::Float64Little, vec![0; 20]);
    assert_eq!(arr.decode_float_bits(), Err(ParseError::CorruptedData { expected: 24, actual: 20 }));
    let huge = BinaryDataArray::new(usize::MAX, BinaryDataEncoding::Int64Little, vec![0; 8]);
    assert_eq!(huge.decode_i64(), Err(ParseError::CorruptedData { expected: usize::MAX, actual: 8 }));
}

#[test]
fn longer_payload_decodes_declared_length_only() {
    let arr = BinaryDataArray::new(1, BinaryDataEncoding::Int32Little, vec![7, 0, 0, 0, 9, 0, 0, 0]);
    assert_eq!(arr.decode_i32().unwrap(), vec![7]);
}

#[test]
fn malformed_stream_is_a_decompression_error() {
    let arr = BinaryDataArray::new(1, BinaryDataEncoding::Float64Little, vec![1, 2, 3, 4])
        .with_compression(CompressionType::Zlib);
    assert_eq!(arr.decode_float_bits(), Err(ParseError::ZlibDecompress));
    let arr = BinaryDataArray::new(1, BinaryDataEncoding::Float64Little, vec![1, 2, 3, 4])
        .with_compression(CompressionType::Gzip);
    assert_eq!(arr.decode_float_bits(), Err(ParseError::ZlibDecompress));
}

#[test]
fn array_builders_set_fields() {
    let arr = BinaryDataArray::new(2, BinaryDataEncoding::Int32Big, vec![1, 2])
        .with_precision(32)
        .with_compression(CompressionType::Gzip);
    assert_eq!(arr.precision, Some(32));
    assert_eq!(arr.compression, Some(CompressionType::Gzip));
    assert_eq!(arr.length, 2);
    assert_eq!(arr.data, vec![1, 2]);
    let decoder = Decoder::new().with_encoding(BinaryDataEncoding::Int32Big);
    assert_eq!(decoder.default_encoding, BinaryDataEncoding::Int32Big);
    let encoder = Encoder::new().with_encoding(BinaryDataEncoding::Float32Big);
    assert_eq!(encoder.default_encoding, BinaryDataEncoding::Float32Big);
    assert_eq!(encoder.default_compression, Some(CompressionType::Zlib));
}
