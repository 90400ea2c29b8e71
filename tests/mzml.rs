use msdata::binary::BinaryDataArray;
use msdata::codec::Encoder;
use msdata::encoding::BinaryDataEncoding;
use msdata::error::{DataKind, ParseError};
use msdata::merger::{AdvancedPeakMerger, MergeStrategy, PeakMerger};
use msdata::mzml::{
    MZMLActivation, MZMLBinaryDataArray, MZMLIsolationWindow, MZMLPrecursor, MZMLScan, MZMLScanList,
    MZMLSpectrum,
};
use msdata::params::{parse_i64, CVParam, UserParam};

fn float_array(accession: &str, values: &[f64]) -> MZMLBinaryDataArray {
    let words: Vec<u64> = values.iter().map(|v| v.to_bits()).collect();
    let binary = Encoder::new()
        .encode_float_array(&words, BinaryDataEncoding::Float64Little)
        .unwrap();
    let mut array = MZMLBinaryDataArray::new();
    array.add_cv_param(CVParam::new(accession, "array", ""));
    array.set_binary(binary);
    array
}

#[test]
fn test_cv_param() {
    let param = CVParam::new("MS:1000514", "m/z array", "100.0");
    assert_eq!(param.accession, "MS:1000514");
    assert_eq!(param.name, "m/z array");
    assert_eq!(param.as_string(), "100.0");
    assert!(param.is_accession("MS:1000514"));
    assert!(param.is_name("m/z array"));
}

#[test]
fn cv_param_integers() {
    assert_eq!(CVParam::new("a", "b", "-42").as_i64(), Ok(-42));
    assert_eq!(CVParam::new("a", "b", "+7").as_i64(), Ok(7));
    assert_eq!(
        CVParam::new("a", "b", "4.5").as_i64(),
        Err(ParseError::InvalidDataType { expected: DataKind::Integer, actual: "4.5".to_string() })
    );
    assert!(CVParam::new("a", "b", "99999999999999999999").as_i64().is_err());
    let p = CVParam::new("a", "b", "c").with_unit("u").with_data_type("t");
    assert_eq!(p.unit.as_deref(), Some("u"));
    assert_eq!(p.data_type.as_deref(), Some("t"));
    let u = UserParam::new("n", "v").with_unit("s").with_data_type("xsd:float");
    assert_eq!(u.name, "n");
    assert_eq!(u.unit.as_deref(), Some("s"));
    assert_eq!(u.data_type.as_deref(), Some("xsd:float"));
}

#[test]
fn test_mzml_spectrum_creation() {
    let spectrum = MZMLSpectrum::new("spectrum1".to_string(), 100);
    assert_eq!(spectrum.id, "spectrum1");
    assert_eq!(spectrum.default_array_length, 100);
}

#[test]
fn test_cv_param_access() {
    let mut spectrum = MZMLSpectrum::new("spectrum1".to_string(), 100);
    spectrum.add_cv_param(CVParam::new("MS:1000511", "ms level", "2"));
    assert_eq!(spectrum.get_ms_level().unwrap(), 2);
}

#[test]
fn missing_or_bad_level() {
    let mut spectrum = MZMLSpectrum::new("s".to_string(), 0).with_index(Some(3));
    assert_eq!(spectrum.index, Some(3));
    assert_eq!(
        spectrum.get_ms_level(),
        Err(ParseError::MissingField { field: "MS level".to_string() })
    );
    assert_eq!(
        spectrum.validate(),
        Err(ParseError::MissingField { field: "MS level".to_string() })
    );
    spectrum.add_cv_param(CVParam::new("MS:1000511", "ms level", "two"));
    assert!(matches!(spectrum.get_ms_level(), Err(ParseError::InvalidDataType { .. })));
    assert!(spectrum.validate().is_err());
}

#[test]
fn spectrum_type_and_arrays() {
    let mut spectrum = MZMLSpectrum::new("s".to_string(), 2);
    spectrum.add_cv_param(CVParam::new("MS:1000511", "ms level", "1"));
    spectrum.add_cv_param(CVParam::new("MS:1000510", "spectrum type", "centroid"));
    spectrum.add_user_param(UserParam::new("note", "x"));
    assert_eq!(spectrum.get_spectrum_type(), Some("centroid".to_string()));
    assert_eq!(spectrum.get_mz_array(), Ok(None));
    assert_eq!(spectrum.validate(), Ok(()));
    spectrum.add_binary_data_array(float_array("MS:1000514", &[100.0, 200.0]));
    spectrum.add_binary_data_array(float_array("MS:1000515", &[10.0]));
    let mz = spectrum.get_mz_array().unwrap().unwrap();
    assert_eq!(mz, vec![100.0f64.to_bits(), 200.0f64.to_bits()]);
    assert_eq!(spectrum.get_intensity_array().unwrap().unwrap().len(), 1);
    assert_eq!(spectrum.validate(), Err(ParseError::LengthMismatch { mz: 2, intensity: 1 }));
    assert!(spectrum.binary_data_arrays[0].is_mz_array());
    assert!(spectrum.binary_data_arrays[1].is_intensity_array());
    assert!(!spectrum.binary_data_arrays[1].is_mz_array());
}

#[test]
fn array_without_binary_is_empty() {
    let mut array = MZMLBinaryDataArray::new();
    array.add_cv_param(CVParam::new("MS:1000514", "m/z array", ""));
    array.add_user_param(UserParam::new("a", "b"));
    assert_eq!(array.decode_float_bits(), Err(ParseError::EmptyDataArray));
    let mut spectrum = MZMLSpectrum::new("s".to_string(), 0);
    spectrum.add_binary_data_array(array);
    assert_eq!(spectrum.get_mz_array(), Err(ParseError::EmptyDataArray));
    let ints = BinaryDataArray::new(0, BinaryDataEncoding::Int32Little, Vec::new());
    let mut arr = MZMLBinaryDataArray::new();
    arr.set_binary(ints);
    assert!(arr.decode_float_bits().is_err());
}

#[test]
fn precursor_charge_and_activation() {
    let mut precursor = MZMLPrecursor::new();
    assert_eq!(precursor.get_precursor_charge(), None);
    precursor.add_cv_param(CVParam::new("MS:1000041", "charge state", "3"));
    precursor.add_user_param(UserParam::new("a", "b"));
    assert_eq!(precursor.get_precursor_charge(), Some(3));
    let mut window = MZMLIsolationWindow::new();
    window.add_cv_param(CVParam::new("MS:1000827", "target", "500"));
    window.add_user_param(UserParam::new("a", "b"));
    precursor.add_isolation_window(window);
    let mut activation = MZMLActivation::new();
    assert_eq!(activation.get_activation_method(), None);
    activation.add_cv_param(CVParam::new("MS:1000045", "collision energy", "35"));
    activation.add_cv_param(CVParam::new("MS:1000133", "collision-induced dissociation", "CID"));
    activation.add_user_param(UserParam::new("a", "b"));
    assert_eq!(activation.get_activation_method(), Some("CID".to_string()));
    precursor.set_activation(activation);
    assert!(precursor.activation.is_some());
    assert_eq!(precursor.isolation_windows.len(), 1);
    let mut spectrum = MZMLSpectrum::new("s".to_string(), 0);
    spectrum.add_precursor(precursor);
    assert_eq!(spectrum.precursors.len(), 1);
}

#[test]
fn scan_list_first_scan() {
    let mut list = MZMLScanList::new();
    assert!(list.first_scan().is_none());
    let mut scan = MZMLScan::new();
    scan.add_cv_param(CVParam::new("MS:1000016", "scan start time", "10.5"));
    scan.add_user_param(UserParam::new("a", "b"));
    list.add_scan(scan);
    assert_eq!(list.first_scan().unwrap().cv_params.len(), 1);
}

#[test]
fn merger_settings() {
    assert_eq!(PeakMerger::default().strategy(), MergeStrategy::MaxIntensity);
    assert_eq!(PeakMerger::new(MergeStrategy::SumIntensity).strategy(), MergeStrategy::SumIntensity);
    let advanced = AdvancedPeakMerger::new(MergeStrategy::WeightedAverage);
    assert_eq!(advanced.base_merger().strategy(), MergeStrategy::WeightedAverage);
}

#[test]
fn integer_parsing_agrees_with_std() {
    let cases = [
        "", "+", "-", "0", "-0", "+7", "007", "42", "-42", " 1", "1 ", "1_000", "4.5", "+-1",
        "9223372036854775807", "9223372036854775808", "-9223372036854775808", "-9223372036854775809",
        "99999999999999999999999", "12a", "\u{0661}",
    ];
    for t in cases {
        assert_eq!(parse_i64(t), t.parse::<i64>().ok(), "text {t:?}");
    }
}
