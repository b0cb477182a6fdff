//! Errors of the parser and of the converter.

use vstd::prelude::*;

verus! {

/// Declares `std::io::Error` so that [`ParseError::IoError`] can carry it;
/// nothing is claimed of its content, which stays opaque.
#[verifier::external_type_specification]
#[verifier::external_body]
pub struct ExIoError(std::io::Error);

/// Why a unit file could not be read into a [`crate::parser::SystemdUnit`].
#[derive(Debug)]
pub enum ParseError {
    /// The file could not be read.
    IoError { path: String, source: std::io::Error },
    /// The text holds no `[Section]` header at all.
    NoSections { path: String },
}

/// Why a unit could not be converted.
#[derive(Debug)]
pub enum ConvertError {
    /// The `[Service]` section has no `ExecStart=`.
    NoExecStart { unit: String },
    /// The unit is of a kind the converter does not handle.
    UnsupportedType { unit_type: String },
}

/// What a [`ConvertError`] holds, as plain text.
pub enum ConvertErrorView {
    NoExecStart { unit: Seq<char> },
    UnsupportedType { unit_type: Seq<char> },
}

impl View for ConvertError {
    type V = ConvertErrorView;

    open spec fn view(&self) -> ConvertErrorView {
        match self {
            ConvertError::NoExecStart { unit } => ConvertErrorView::NoExecStart { unit: unit@ },
            ConvertError::UnsupportedType { unit_type } => ConvertErrorView::UnsupportedType {
                unit_type: unit_type@,
            },
        }
    }
}

} // verus!
