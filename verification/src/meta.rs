//! Inscription metadata: CBOR bytes validated, or JSON converted to CBOR,
//! through the `ciborium` and `serde_json` crates.

use vstd::prelude::*;

verus! {

/// Whether the bytes parse as a single CBOR value; what
/// `ciborium::from_reader` accepts.
pub uninterp spec fn cbor_valid(s: Seq<u8>) -> bool;

/// The CBOR encoding of the JSON value the bytes parse as, or nothing when
/// they are not JSON; what `serde_json::from_slice` followed by
/// `ciborium::into_writer` produces.
pub uninterp spec fn cbor_of_json(s: Seq<u8>) -> Option<Seq<u8>>;

/// What went wrong with the metadata arguments.
#[derive(Clone, Copy, PartialEq, Eq, Structural, Debug)]
pub enum MetadataError {
    /// The bytes given as CBOR do not parse as CBOR.
    InvalidCbor,
    /// The bytes given as JSON do not parse as JSON.
    InvalidJson,
}

/// Relies on `ciborium::from_reader`: whether the bytes parse as one CBOR
/// value, a function of the bytes alone.
#[verifier::external_body]
fn validate_cbor(bytes: &Vec<u8>) -> (r: bool)
    ensures
        r == cbor_valid(bytes@),
{
    let value: Result<ciborium::value::Value, _> =
        ciborium::from_reader(std::io::Cursor::new(bytes.as_slice()));
    value.is_ok()
}

/// Relies on `serde_json::from_slice` and `ciborium::into_writer`: the CBOR
/// re-encoding of the JSON value, a function of the bytes alone; `None`
/// exactly when the bytes are not JSON.
#[verifier::external_body]
fn json_to_cbor(bytes: &Vec<u8>) -> (r: Option<Vec<u8>>)
    ensures
        (match r {
            Some(c) => Some(c@),
            None => None,
        }) == cbor_of_json(bytes@),
{
    let value: serde_json::Value = serde_json::from_slice(bytes).ok()?;
    let mut cbor = Vec::new();
    ciborium::into_writer(&value, &mut cbor).ok()?;
    Some(cbor)
}

/// Parses the metadata arguments: CBOR bytes must validate and are kept as
/// they are; JSON bytes are converted to CBOR; with neither there is no
/// metadata. CBOR wins when both are given, as the flags are mutually
/// exclusive upstream.
pub fn parse_metadata(cbor: Option<Vec<u8>>, json: Option<Vec<u8>>) -> (r: Result<
    Option<Vec<u8>>,
    MetadataError,
>)
    ensures
        (match cbor {
            Some(c) => {
                &&& (cbor_valid(c@) ==> (r matches Ok(m) && (m matches Some(b) && b@ == c@)))
                &&& (!cbor_valid(c@) ==> r == Result::<Option<Vec<u8>>, MetadataError>::Err(
                    MetadataError::InvalidCbor,
                ))
            },
            None => (match json {
                Some(j) => (match cbor_of_json(j@) {
                    Some(converted) => (r matches Ok(m) && (m matches Some(b) && b@
                        == converted)),
                    None => r == Result::<Option<Vec<u8>>, MetadataError>::Err(
                        MetadataError::InvalidJson,
                    ),
                }),
                None => r == Result::<Option<Vec<u8>>, MetadataError>::Ok(
                    Option::<Vec<u8>>::None,
                ),
            }),
        }),
{
    match cbor {
        Some(c) => {
            if validate_cbor(&c) {
                Ok(Some(c))
            } else {
                Err(MetadataError::InvalidCbor)
            }
        },
        None => match json {
            Some(j) => match json_to_cbor(&j) {
                Some(converted) => Ok(Some(converted)),
                None => Err(MetadataError::InvalidJson),
            },
            None => Ok(None),
        },
    }
}

/// What is wrong with a flag combination.
#[derive(Clone, Copy, PartialEq, Eq, Structural, Debug)]
pub enum ArgError {
    /// `--cbor-metadata` cannot be used with `--json-metadata`.
    CborConflictsJson,
    /// `--sat` cannot be used with `--satpoint`.
    SatConflictsSatpoint,
    /// At least one of `--file` and `--delegate` is required.
    FileOrDelegateRequired,
}

/// The flag rules of the inscribe command: the two metadata flags are
/// mutually exclusive, so are `--sat` and `--satpoint`, and at least one of
/// `--file` and `--delegate` must be given.
pub fn validate_inscribe_flags(
    has_file: bool,
    has_delegate: bool,
    has_cbor_metadata: bool,
    has_json_metadata: bool,
    has_sat: bool,
    has_satpoint: bool,
) -> (r: Result<(), ArgError>)
    ensures
        r is Ok <==> (!(has_cbor_metadata && has_json_metadata) && !(has_sat && has_satpoint) && (
        has_file || has_delegate)),
        r == Result::<(), ArgError>::Err(ArgError::CborConflictsJson) <==> (has_cbor_metadata
            && has_json_metadata),
        r == Result::<(), ArgError>::Err(ArgError::SatConflictsSatpoint) <==> (!(has_cbor_metadata
            && has_json_metadata) && has_sat && has_satpoint),
        r == Result::<(), ArgError>::Err(ArgError::FileOrDelegateRequired) <==> (!(
        has_cbor_metadata && has_json_metadata) && !(has_sat && has_satpoint) && !has_file
            && !has_delegate),
{
    if has_cbor_metadata && has_json_metadata {
        Err(ArgError::CborConflictsJson)
    } else if has_sat && has_satpoint {
        Err(ArgError::SatConflictsSatpoint)
    } else if !has_file && !has_delegate {
        Err(ArgError::FileOrDelegateRequired)
    } else {
        Ok(())
    }
}

} // verus!
