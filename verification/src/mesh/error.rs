use vstd::prelude::*;

verus! {

/// `std::io::Error`, carried through unchanged by [`VtkError::IoError`].
#[verifier::external_type_specification]
#[verifier::external_body]
pub struct ExIoError(std::io::Error);

/// Errors that can occur while processing VTK data.
#[derive(Debug)]
pub enum VtkError {
    /// The VTK file could not be read or parsed.
    LoadError(String),
    /// The data does not have the expected layout.
    InvalidFormat(&'static str),
    /// The data type is not supported.
    UnsupportedDataType,
    /// Required data is missing.
    MissingData(&'static str),
    /// An index lies beyond the valid range.
    IndexOutOfBounds { index: usize, max: usize },
    /// The data type found is not the one expected.
    DataTypeMismatch { expected: &'static str, found: &'static str },
    /// The attribute size does not match the expected size.
    AttributeMismatch { attribute_size: usize, expected_size: usize },
    /// A value could not be converted.
    ConversionError(String),
    /// An I/O operation failed.
    IoError(std::io::Error),
    /// Any other error.
    GenericError(String),
}

impl From<std::io::Error> for VtkError {
    fn from(err: std::io::Error) -> (e: Self) {
        VtkError::IoError(err)
    }
}

impl vstd::std_specs::convert::FromSpecImpl<std::io::Error> for VtkError {
    open spec fn obeys_from_spec() -> bool {
        true
    }

    open spec fn from_spec(err: std::io::Error) -> VtkError {
        VtkError::IoError(err)
    }
}

} // verus!
