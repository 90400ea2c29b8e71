//! The record structure of mzML spectra: parameters, scans, precursors and
//! binary data arrays, and the values read from their parameters.
use vstd::prelude::*;
use crate::binary::BinaryDataArray;
use crate::codec::{base64_decode, base64_text};
use crate::compression::CompressionType;
use crate::encoding::BinaryDataEncoding;
use crate::error::{DataKind, ParseError};
use crate::params::{
    find_accession, first_with_accession, lacks_accession, parsed_i64, CVParam, UserParam,
};

verus! {

/// Whether one of the parameters has accession `acc`.
pub open spec fn mentions(params: Seq<CVParam>, acc: Seq<char>) -> bool {
    exists|j: int| 0 <= j < params.len() && (#[trigger] params[j]).accession@ == acc
}

/// Whether some parameter names one of the dissociation methods (CID, HCD,
/// ETD, ECD, PQD).
pub open spec fn is_activation_accession(acc: Seq<char>) -> bool {
    acc == "MS:1000133"@ || acc == "MS:1000134"@ || acc == "MS:1000135"@ || acc == "MS:1000136"@
        || acc == "MS:1000137"@
}

/// Whether parameter list `params` holds accession `acc`.
fn holds_accession(params: &Vec<CVParam>, acc: &str) -> (r: bool)
    ensures
        r == mentions(params@, acc@),
{
    match find_accession(params, acc) {
        Some(i) => {
            assert(params@[i as int].accession@ == acc@);
            true
        },
        None => false,
    }
}

/// Element encoding and compression that the parameters of a binary data
/// array declare, a later parameter overriding an earlier one: 64-bit
/// little-endian floats and no declared compression unless stated.
pub open spec fn declared_settings(params: Seq<CVParam>) -> (BinaryDataEncoding, Option<CompressionType>)
    decreases params.len(),
{
    if params.len() == 0 {
        (BinaryDataEncoding::Float64Little, None)
    } else {
        let (e, c) = declared_settings(params.drop_last());
        let a = params.last().accession@;
        if a == "MS:1000523"@ {
            (BinaryDataEncoding::Float64Little, c)
        } else if a == "MS:1000521"@ {
            (BinaryDataEncoding::Float32Little, c)
        } else if a == "MS:1000576"@ {
            (e, Some(CompressionType::Zlib))
        } else if a == "MS:1000574"@ {
            (e, Some(CompressionType::NoCompression))
        } else {
            (e, c)
        }
    }
}

/// The binary data array of a spectrum record.
#[derive(Debug, Clone)]
pub struct MZMLBinaryDataArray {
    pub length: Option<usize>,
    pub cv_params: Vec<CVParam>,
    pub user_params: Vec<UserParam>,
    pub binary: Option<BinaryDataArray>,
}

impl MZMLBinaryDataArray {
    /// What the array decodes to as float bit patterns.
    pub open spec fn spec_float_bits(&self) -> Result<Seq<u64>, ParseError> {
        match self.binary {
            None => Err(ParseError::EmptyDataArray),
            Some(b) => if !b.encoding.spec_is_float() {
                Err(ParseError::EncodingMismatch { expected: DataKind::Float, actual: b.encoding })
            } else {
                b.spec_words()
            },
        }
    }

    pub fn new() -> (r: MZMLBinaryDataArray)
        ensures
            r.length is None,
            r.cv_params@.len() == 0,
            r.user_params@.len() == 0,
            r.binary is None,
    {
        MZMLBinaryDataArray { length: None, cv_params: Vec::new(), user_params: Vec::new(), binary: None }
    }

    pub fn add_cv_param(&mut self, param: CVParam)
        ensures
            final(self).cv_params@ == old(self).cv_params@.push(param),
            *final(self) == (MZMLBinaryDataArray { cv_params: final(self).cv_params, ..*old(self) }),
    {
        self.cv_params.push(param);
    }

    pub fn add_user_param(&mut self, param: UserParam)
        ensures
            final(self).user_params@ == old(self).user_params@.push(param),
            *final(self) == (MZMLBinaryDataArray { user_params: final(self).user_params, ..*old(self) }),
    {
        self.user_params.push(param);
    }

    pub fn set_binary(&mut self, binary: BinaryDataArray)
        ensures
            *final(self) == (MZMLBinaryDataArray { binary: Some(binary), ..*old(self) }),
    {
        self.binary = Some(binary);
    }

    /// Whether the array holds m/z values.
    pub fn is_mz_array(&self) -> (r: bool)
        ensures
            r == mentions(self.cv_params@, "MS:1000514"@),
    {
        holds_accession(&self.cv_params, "MS:1000514")
    }

    /// Whether the array holds intensities.
    pub fn is_intensity_array(&self) -> (r: bool)
        ensures
            r == mentions(self.cv_params@, "MS:1000515"@),
    {
        holds_accession(&self.cv_params, "MS:1000515")
    }

    /// The encoding and compression that the parameters declare.
    pub fn settings(&self) -> (r: (BinaryDataEncoding, Option<CompressionType>))
        ensures
            r == declared_settings(self.cv_params@),
    {
        let mut encoding = BinaryDataEncoding::Float64Little;
        let mut compression: Option<CompressionType> = None;
        let mut i: usize = 0;
        while i < self.cv_params.len()
            invariant
                i <= self.cv_params@.len(),
                (encoding, compression) == declared_settings(self.cv_params@.take(i as int)),
            decreases self.cv_params@.len() - i,
        {
            let p = &self.cv_params[i];
            assert(self.cv_params@.take(i + 1).drop_last() =~= self.cv_params@.take(i as int));
            if p.is_accession("MS:1000523") {
                encoding = BinaryDataEncoding::Float64Little;
            } else if p.is_accession("MS:1000521") {
                encoding = BinaryDataEncoding::Float32Little;
            } else if p.is_accession("MS:1000576") {
                compression = Some(CompressionType::Zlib);
            } else if p.is_accession("MS:1000574") {
                compression = Some(CompressionType::NoCompression);
            }
            i = i + 1;
        }
        assert(self.cv_params@.take(i as int) =~= self.cv_params@);
        (encoding, compression)
    }

    /// The binary array that base64 `text` holds under the declared
    /// settings, declaring `length` elements.
    pub fn binary_from_text(&self, text: &str, length: usize) -> (r: Result<BinaryDataArray, ParseError>)
        ensures
            match r {
                Ok(b) => base64_text(b.data@) == text@ && b.length == length && b.encoding
                    == declared_settings(self.cv_params@).0 && b.compression == declared_settings(
                    self.cv_params@,
                ).1 && b.precision is None,
                Err(e) => e == ParseError::Base64Decode && forall|d: Seq<u8>|
                    #[trigger] base64_text(d) != text@,
            },
    {
        let data = match base64_decode(text) {
            Some(d) => d,
            None => {
                return Err(ParseError::Base64Decode);
            },
        };
        let (encoding, compression) = self.settings();
        let mut b = BinaryDataArray::new(length, encoding, data);
        b.compression = compression;
        Ok(b)
    }

    /// The float values as bit patterns (see `BinaryDataArray::decode_float_bits`).
    pub fn decode_float_bits(&self) -> (r: Result<Vec<u64>, ParseError>)
        ensures
            match self.spec_float_bits() {
                Ok(ws) => r matches Ok(v) && v@ == ws,
                Err(e) => r == Err::<Vec<u64>, ParseError>(e),
            },
    {
        match &self.binary {
            Some(b) => b.decode_float_bits(),
            None => Err(ParseError::EmptyDataArray),
        }
    }
}

/// `i` is the first array whose parameters hold `acc`.
pub open spec fn first_array_with(arrays: Seq<MZMLBinaryDataArray>, acc: Seq<char>, i: int) -> bool {
    &&& 0 <= i < arrays.len()
    &&& mentions(arrays[i].cv_params@, acc)
    &&& forall|j: int| 0 <= j < i ==> !mentions((#[trigger] arrays[j]).cv_params@, acc)
}

/// What the first array holding `acc` decodes to; `Ok(None)` when no array does.
pub open spec fn array_with(arrays: Seq<MZMLBinaryDataArray>, acc: Seq<char>) -> Result<
    Option<Seq<u64>>,
    ParseError,
> {
    if exists|i: int| first_array_with(arrays, acc, i) {
        let i = choose|i: int| first_array_with(arrays, acc, i);
        match arrays[i].spec_float_bits() {
            Ok(ws) => Ok(Some(ws)),
            Err(e) => Err(e),
        }
    } else {
        Ok(None)
    }
}

/// Decodes the first array that holds `acc`.
fn decode_first_with(arrays: &Vec<MZMLBinaryDataArray>, acc: &str) -> (r: Result<
    Option<Vec<u64>>,
    ParseError,
>)
    ensures
        match array_with(arrays@, acc@) {
            Ok(None) => r matches Ok(None),
            Ok(Some(ws)) => r matches Ok(Some(v)) && v@ == ws,
            Err(e) => r == Err::<Option<Vec<u64>>, ParseError>(e),
        },
{
    let mut i: usize = 0;
    while i < arrays.len()
        invariant
            i <= arrays@.len(),
            forall|j: int| 0 <= j < i ==> !mentions((#[trigger] arrays@[j]).cv_params@, acc@),
        decreases arrays@.len() - i,
    {
        if holds_accession(&arrays[i].cv_params, acc) {
            proof {
                assert(first_array_with(arrays@, acc@, i as int));
                let k = choose|k: int| first_array_with(arrays@, acc@, k);
                if k < i {
                    assert(!mentions(arrays@[k].cv_params@, acc@));
                } else if k > i {
                    assert(!mentions(arrays@[i as int].cv_params@, acc@));
                }
            }
            return match arrays[i].decode_float_bits() {
                Ok(v) => Ok(Some(v)),
                Err(e) => Err(e),
            };
        }
        i = i + 1;
    }
    assert(!exists|k: int| first_array_with(arrays@, acc@, k));
    Ok(None)
}

/// The activation (dissociation) settings of a precursor.
#[derive(Debug, Clone)]
pub struct MZMLActivation {
    pub cv_params: Vec<CVParam>,
    pub user_params: Vec<UserParam>,
}

impl MZMLActivation {
    pub fn new() -> (r: MZMLActivation)
        ensures
            r.cv_params@.len() == 0,
            r.user_params@.len() == 0,
    {
        MZMLActivation { cv_params: Vec::new(), user_params: Vec::new() }
    }

    pub fn add_cv_param(&mut self, param: CVParam)
        ensures
            final(self).cv_params@ == old(self).cv_params@.push(param),
            final(self).user_params == old(self).user_params,
    {
        self.cv_params.push(param);
    }

    pub fn add_user_param(&mut self, param: UserParam)
        ensures
            final(self).user_params@ == old(self).user_params@.push(param),
            final(self).cv_params == old(self).cv_params,
    {
        self.user_params.push(param);
    }

    /// The value of the first parameter that names a dissociation method.
    pub fn get_activation_method(&self) -> (r: Option<String>)
        ensures
            match r {
                Some(v) => exists|i: int|
                    0 <= i < self.cv_params@.len() && is_activation_accession(
                        (#[trigger] self.cv_params@[i]).accession@,
                    ) && v@ == self.cv_params@[i].value@ && forall|j: int|
                        0 <= j < i ==> !is_activation_accession(
                            (#[trigger] self.cv_params@[j]).accession@,
                        ),
                None => forall|j: int|
                    0 <= j < self.cv_params@.len() ==> !is_activation_accession(
                        (#[trigger] self.cv_params@[j]).accession@,
                    ),
            },
    {
        let mut i: usize = 0;
        while i < self.cv_params.len()
            invariant
                i <= self.cv_params@.len(),
                forall|j: int|
                    0 <= j < i ==> !is_activation_accession((#[trigger] self.cv_params@[j]).accession@),
            decreases self.cv_params@.len() - i,
        {
            let p = &self.cv_params[i];
            if p.is_accession("MS:1000133") || p.is_accession("MS:1000134") || p.is_accession(
                "MS:1000135",
            ) || p.is_accession("MS:1000136") || p.is_accession("MS:1000137") {
                let v = p.value.clone();
                assert(is_activation_accession(self.cv_params@[i as int].accession@));
                return Some(v);
            }
            i = i + 1;
        }
        None
    }
}

/// An isolation window of a precursor.
#[derive(Debug, Clone)]
pub struct MZMLIsolationWindow {
    pub cv_params: Vec<CVParam>,
    pub user_params: Vec<UserParam>,
}

impl MZMLIsolationWindow {
    pub fn new() -> (r: MZMLIsolationWindow)
        ensures
            r.cv_params@.len() == 0,
            r.user_params@.len() == 0,
    {
        MZMLIsolationWindow { cv_params: Vec::new(), user_params: Vec::new() }
    }

    pub fn add_cv_param(&mut self, param: CVParam)
        ensures
            final(self).cv_params@ == old(self).cv_params@.push(param),
            final(self).user_params == old(self).user_params,
    {
        self.cv_params.push(param);
    }

    pub fn add_user_param(&mut self, param: UserParam)
        ensures
            final(self).user_params@ == old(self).user_params@.push(param),
            final(self).cv_params == old(self).cv_params,
    {
        self.user_params.push(param);
    }
}

/// A precursor ion of a fragment spectrum.
#[derive(Debug, Clone)]
pub struct MZMLPrecursor {
    pub spectrum_ref: Option<String>,
    pub cv_params: Vec<CVParam>,
    pub user_params: Vec<UserParam>,
    pub isolation_windows: Vec<MZMLIsolationWindow>,
    pub activation: Option<MZMLActivation>,
}

impl MZMLPrecursor {
    pub fn new() -> (r: MZMLPrecursor)
        ensures
            r.spectrum_ref is None,
            r.cv_params@.len() == 0,
            r.user_params@.len() == 0,
            r.isolation_windows@.len() == 0,
            r.activation is None,
    {
        MZMLPrecursor {
            spectrum_ref: None,
            cv_params: Vec::new(),
            user_params: Vec::new(),
            isolation_windows: Vec::new(),
            activation: None,
        }
    }

    pub fn add_cv_param(&mut self, param: CVParam)
        ensures
            final(self).cv_params@ == old(self).cv_params@.push(param),
            *final(self) == (MZMLPrecursor { cv_params: final(self).cv_params, ..*old(self) }),
    {
        self.cv_params.push(param);
    }

    pub fn add_user_param(&mut self, param: UserParam)
        ensures
            final(self).user_params@ == old(self).user_params@.push(param),
            *final(self) == (MZMLPrecursor { user_params: final(self).user_params, ..*old(self) }),
    {
        self.user_params.push(param);
    }

    pub fn add_isolation_window(&mut self, window: MZMLIsolationWindow)
        ensures
            final(self).isolation_windows@ == old(self).isolation_windows@.push(window),
            *final(self) == (MZMLPrecursor {
                isolation_windows: final(self).isolation_windows,
                ..*old(self)
            }),
    {
        self.isolation_windows.push(window);
    }

    pub fn set_activation(&mut self, activation: MZMLActivation)
        ensures
            *final(self) == (MZMLPrecursor { activation: Some(activation), ..*old(self) }),
    {
        self.activation = Some(activation);
    }

    /// The charge state: the first charge parameter's value as an integer,
    /// kept to its low eight bits; `None` when absent or not an integer.
    pub fn get_precursor_charge(&self) -> (r: Option<i8>)
        ensures
            lacks_accession(self.cv_params@, "MS:1000041"@) ==> r is None,
            forall|i: int|
                first_with_accession(self.cv_params@, "MS:1000041"@, i) ==> r == match parsed_i64(
                    (#[trigger] self.cv_params@[i]).value@,
                ) {
                    Some(v) => Some(v as i8),
                    None => None,
                },
    {
        match find_accession(&self.cv_params, "MS:1000041") {
            Some(i) => match self.cv_params[i].as_i64() {
                Ok(v) => Some(v as i8),
                Err(_) => None,
            },
            None => None,
        }
    }
}

/// One scan of a spectrum record.
#[derive(Debug, Clone)]
pub struct MZMLScan {
    pub id: Option<String>,
    pub scan_number: Option<u32>,
    pub cv_params: Vec<CVParam>,
    pub user_params: Vec<UserParam>,
}

impl MZMLScan {
    pub fn new() -> (r: MZMLScan)
        ensures
            r.id is None,
            r.scan_number is None,
            r.cv_params@.len() == 0,
            r.user_params@.len() == 0,
    {
        MZMLScan { id: None, scan_number: None, cv_params: Vec::new(), user_params: Vec::new() }
    }

    pub fn add_cv_param(&mut self, param: CVParam)
        ensures
            final(self).cv_params@ == old(self).cv_params@.push(param),
            *final(self) == (MZMLScan { cv_params: final(self).cv_params, ..*old(self) }),
    {
        self.cv_params.push(param);
    }

    pub fn add_user_param(&mut self, param: UserParam)
        ensures
            final(self).user_params@ == old(self).user_params@.push(param),
            *final(self) == (MZMLScan { user_params: final(self).user_params, ..*old(self) }),
    {
        self.user_params.push(param);
    }
}

/// The scans of a spectrum record.
#[derive(Debug, Clone)]
pub struct MZMLScanList {
    pub scans: Vec<MZMLScan>,
}

impl MZMLScanList {
    pub fn new() -> (r: MZMLScanList)
        ensures
            r.scans@.len() == 0,
    {
        MZMLScanList { scans: Vec::new() }
    }

    pub fn add_scan(&mut self, scan: MZMLScan)
        ensures
            final(self).scans@ == old(self).scans@.push(scan),
    {
        self.scans.push(scan);
    }

    pub fn first_scan(&self) -> (r: Option<&MZMLScan>)
        ensures
            self.scans@.len() == 0 ==> r is None,
            self.scans@.len() > 0 ==> r == Some(&self.scans@[0]),
    {
        if self.scans.len() == 0 {
            None
        } else {
            Some(&self.scans[0])
        }
    }
}

/// A spectrum record as the file stores it.
#[derive(Debug, Clone)]
pub struct MZMLSpectrum {
    pub id: String,
    pub default_array_length: usize,
    pub index: Option<usize>,
    pub source_file_ref: Option<String>,
    pub cv_params: Vec<CVParam>,
    pub user_params: Vec<UserParam>,
    pub scan_list: MZMLScanList,
    pub precursors: Vec<MZMLPrecursor>,
    pub binary_data_arrays: Vec<MZMLBinaryDataArray>,
}

impl MZMLSpectrum {
    /// The m/z array, decoded.
    pub open spec fn spec_mz_array(&self) -> Result<Option<Seq<u64>>, ParseError> {
        array_with(self.binary_data_arrays@, "MS:1000514"@)
    }

    /// The intensity array, decoded.
    pub open spec fn spec_intensity_array(&self) -> Result<Option<Seq<u64>>, ParseError> {
        array_with(self.binary_data_arrays@, "MS:1000515"@)
    }

    /// Whether the acquisition level is given as an integer.
    pub open spec fn spec_has_ms_level(&self) -> bool {
        exists|i: int|
            first_with_accession(self.cv_params@, "MS:1000511"@, i) && parsed_i64(
                (#[trigger] self.cv_params@[i]).value@,
            ) is Some
    }

    pub fn new(id: String, default_array_length: usize) -> (r: MZMLSpectrum)
        ensures
            r.id == id,
            r.default_array_length == default_array_length,
            r.index is None,
            r.source_file_ref is None,
            r.cv_params@.len() == 0,
            r.user_params@.len() == 0,
            r.scan_list.scans@.len() == 0,
            r.precursors@.len() == 0,
            r.binary_data_arrays@.len() == 0,
    {
        MZMLSpectrum {
            id,
            default_array_length,
            index: None,
            source_file_ref: None,
            cv_params: Vec::new(),
            user_params: Vec::new(),
            scan_list: MZMLScanList::new(),
            precursors: Vec::new(),
            binary_data_arrays: Vec::new(),
        }
    }

    pub fn with_index(self, index: Option<usize>) -> (r: MZMLSpectrum)
        ensures
            r == (MZMLSpectrum { index, ..self }),
    {
        let mut s = self;
        s.index = index;
        s
    }

    pub fn add_cv_param(&mut self, param: CVParam)
        ensures
            final(self).cv_params@ == old(self).cv_params@.push(param),
            *final(self) == (MZMLSpectrum { cv_params: final(self).cv_params, ..*old(self) }),
    {
        self.cv_params.push(param);
    }

    pub fn add_user_param(&mut self, param: UserParam)
        ensures
            final(self).user_params@ == old(self).user_params@.push(param),
            *final(self) == (MZMLSpectrum { user_params: final(self).user_params, ..*old(self) }),
    {
        self.user_params.push(param);
    }

    pub fn add_binary_data_array(&mut self, array: MZMLBinaryDataArray)
        ensures
            final(self).binary_data_arrays@ == old(self).binary_data_arrays@.push(array),
            *final(self) == (MZMLSpectrum {
                binary_data_arrays: final(self).binary_data_arrays,
                ..*old(self)
            }),
    {
        self.binary_data_arrays.push(array);
    }

    pub fn add_precursor(&mut self, precursor: MZMLPrecursor)
        ensures
            final(self).precursors@ == old(self).precursors@.push(precursor),
            *final(self) == (MZMLSpectrum { precursors: final(self).precursors, ..*old(self) }),
    {
        self.precursors.push(precursor);
    }

    /// The acquisition level: the first level parameter's value as an
    /// integer, kept to its low eight bits.
    pub fn get_ms_level(&self) -> (r: Result<u8, ParseError>)
        ensures
            lacks_accession(self.cv_params@, "MS:1000511"@) ==> (r matches Err(
                ParseError::MissingField { field },
            ) && field@ == "MS level"@),
            forall|i: int|
                first_with_accession(self.cv_params@, "MS:1000511"@, i) ==> match parsed_i64(
                    (#[trigger] self.cv_params@[i]).value@,
                ) {
                    Some(v) => r == Ok::<u8, ParseError>(v as u8),
                    None => r matches Err(ParseError::InvalidDataType { expected, actual })
                        && expected == DataKind::Integer && actual@ == self.cv_params@[i].value@,
                },
    {
        match find_accession(&self.cv_params, "MS:1000511") {
            Some(i) => match self.cv_params[i].as_i64() {
                Ok(v) => Ok(v as u8),
                Err(e) => Err(e),
            },
            None => Err(ParseError::MissingField { field: "MS level".to_owned() }),
        }
    }

    /// The value of the first spectrum-type parameter.
    pub fn get_spectrum_type(&self) -> (r: Option<String>)
        ensures
            lacks_accession(self.cv_params@, "MS:1000510"@) ==> r is None,
            forall|i: int|
                first_with_accession(self.cv_params@, "MS:1000510"@, i) ==> (r matches Some(v) && v@
                    == (#[trigger] self.cv_params@[i]).value@),
    {
        match find_accession(&self.cv_params, "MS:1000510") {
            Some(i) => Some(self.cv_params[i].value.clone()),
            None => None,
        }
    }

    /// The first m/z array, as float bit patterns; `None` when there is none.
    pub fn get_mz_array(&self) -> (r: Result<Option<Vec<u64>>, ParseError>)
        ensures
            match self.spec_mz_array() {
                Ok(None) => r matches Ok(None),
                Ok(Some(ws)) => r matches Ok(Some(v)) && v@ == ws,
                Err(e) => r == Err::<Option<Vec<u64>>, ParseError>(e),
            },
    {
        decode_first_with(&self.binary_data_arrays, "MS:1000514")
    }

    /// The first intensity array, as float bit patterns; `None` when there is none.
    pub fn get_intensity_array(&self) -> (r: Result<Option<Vec<u64>>, ParseError>)
        ensures
            match self.spec_intensity_array() {
                Ok(None) => r matches Ok(None),
                Ok(Some(ws)) => r matches Ok(Some(v)) && v@ == ws,
                Err(e) => r == Err::<Option<Vec<u64>>, ParseError>(e),
            },
    {
        decode_first_with(&self.binary_data_arrays, "MS:1000515")
    }

    /// Checks that the level is given and that the m/z and intensity arrays,
    /// when both are present, decode to the same length.
    pub fn validate(&self) -> (r: Result<(), ParseError>)
        ensures
            !self.spec_has_ms_level() ==> (r matches Err(ParseError::MissingField { field }) && field@
                == "MS level"@),
            self.spec_has_ms_level() ==> match self.spec_mz_array() {
                Err(e) => r == Err::<(), ParseError>(e),
                Ok(None) => r is Ok,
                Ok(Some(mz)) => match self.spec_intensity_array() {
                    Err(e) => r == Err::<(), ParseError>(e),
                    Ok(None) => r is Ok,
                    Ok(Some(it)) => if mz.len() == it.len() {
                        r is Ok
                    } else {
                        r == Err::<(), ParseError>(
                            ParseError::LengthMismatch {
                                mz: mz.len() as usize,
                                intensity: it.len() as usize,
                            },
                        )
                    },
                },
            },
    {
        let has_level = match find_accession(&self.cv_params, "MS:1000511") {
            Some(i) => {
                let ok = self.cv_params[i].as_i64().is_ok();
                proof {
                    if ok {
                        assert(first_with_accession(self.cv_params@, "MS:1000511"@, i as int));
                    } else if self.spec_has_ms_level() {
                        let k = choose|k: int|
                            first_with_accession(self.cv_params@, "MS:1000511"@, k) && parsed_i64(
                                (#[trigger] self.cv_params@[k]).value@,
                            ) is Some;
                        if k < i {
                            assert(self.cv_params@[k].accession@ != "MS:1000511"@);
                        } else if k > i {
                            assert(self.cv_params@[i as int].accession@ != "MS:1000511"@);
                        }
                    }
                }
                ok
            },
            None => false,
        };
        if !has_level {
            return Err(ParseError::MissingField { field: "MS level".to_owned() });
        }
        match self.get_mz_array() {
            Err(e) => Err(e),
            Ok(None) => Ok(()),
            Ok(Some(mz)) => match self.get_intensity_array() {
                Err(e) => Err(e),
                Ok(None) => Ok(()),
                Ok(Some(it)) => {
                    if mz.len() == it.len() {
                        Ok(())
                    } else {
                        Err(ParseError::LengthMismatch { mz: mz.len(), intensity: it.len() })
                    }
                },
            },
        }
    }
}

} // verus!
