//! Error types of the library.
//!
//! `ConvertError` covers value conversions (text with interior NUL bytes,
//! byte buffers that are not valid text, size strings that do not parse).
//! `SchemaFail` classifies failures of a sysctl schema lookup; the
//! no-read-access case is the one callers may tolerate.  `LibJailError` is
//! the error type of every fallible operation.

use vstd::prelude::*;

verus! {

/// A value conversion failed.
#[derive(Clone, Copy, Debug, PartialEq, Eq, Structural)]
pub enum ConvertError {
    /// Text destined for a NUL-terminated buffer contained an interior NUL.
    NulError,
    /// A byte buffer could not be interpreted as text.
    IntoStringError,
    /// A decimal size string did not parse as an unsigned integer.
    ParseIntError,
}

/// Why a sysctl schema lookup failed.
#[derive(Clone, Copy, Debug, PartialEq, Eq, Structural)]
pub enum SchemaFail {
    /// The calling process may not read the leaf.
    NoReadAccess,
    /// The bare parameter name could not be formed from the leaf's name.
    MalformedName,
    /// Any other sysctl failure.
    Other,
}

/// The error type of every fallible operation of the library.
#[derive(Clone, Debug)]
pub enum LibJailError {
    /// A kernel jail call failed; carries the OS error code and its message.
    ExternalError { code: i32, message: String },
    /// The kernel schema tree could not be queried for a leaf.
    SchemaError(SchemaFail),
    /// A value conversion failed.
    ConvertError(ConvertError),
    /// The schema reported a primitive type this layer does not decode.
    MismatchCtlType,
    /// The schema reported a value shape this layer does not decode.
    MismatchCtlValue,
}

/// Mathematical model of a [`LibJailError`].
pub enum ErrModel {
    ExternalError { code: i32, message: Seq<char> },
    SchemaError(SchemaFail),
    ConvertError(ConvertError),
    MismatchCtlType,
    MismatchCtlValue,
}

impl View for LibJailError {
    type V = ErrModel;

    open spec fn view(&self) -> ErrModel {
        match self {
            LibJailError::ExternalError { code, message } => ErrModel::ExternalError {
                code: *code,
                message: message@,
            },
            LibJailError::SchemaError(f) => ErrModel::SchemaError(*f),
            LibJailError::ConvertError(c) => ErrModel::ConvertError(*c),
            LibJailError::MismatchCtlType => ErrModel::MismatchCtlType,
            LibJailError::MismatchCtlValue => ErrModel::MismatchCtlValue,
        }
    }
}

impl ConvertError {
    /// A short description of the conversion failure.
    pub fn describe(&self) -> (r: &'static str)
        ensures
            *self == ConvertError::NulError ==> r@ == "interior NUL byte in text"@,
            *self == ConvertError::IntoStringError ==> r@ == "buffer is not valid text"@,
            *self == ConvertError::ParseIntError ==> r@ == "size string is not an unsigned integer"@,
    {
        match self {
            ConvertError::NulError => "interior NUL byte in text",
            ConvertError::IntoStringError => "buffer is not valid text",
            ConvertError::ParseIntError => "size string is not an unsigned integer",
        }
    }
}

} // verus!
