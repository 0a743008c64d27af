//! The envelope-level failures. Each variant carries the offending text.

use vstd::prelude::*;

verus! {

/// A hard envelope failure; extension-token problems never raise one.
#[derive(Debug, PartialEq, Eq, Clone)]
pub enum AprsError {
    /// Unknown leading marker, an input shorter than the variant's minimum,
    /// or malformed coordinate text.
    InvalidPosition(Vec<u8>),
    /// Timestamp digits or type letter malformed, or a status line too short
    /// to hold its mandatory timestamp.
    InvalidTimestamp(Vec<u8>),
    /// The compressed position encoding, detected and rejected.
    UnsupportedPositionFormat(Vec<u8>),
}

/// The mathematical shadow of `AprsError`.
#[verifier::ext_equal]
pub enum AprsErrorView {
    InvalidPosition(Seq<u8>),
    InvalidTimestamp(Seq<u8>),
    UnsupportedPositionFormat(Seq<u8>),
}

impl View for AprsError {
    type V = AprsErrorView;

    open spec fn view(&self) -> AprsErrorView {
        match self {
            AprsError::InvalidPosition(v) => AprsErrorView::InvalidPosition(v@),
            AprsError::InvalidTimestamp(v) => AprsErrorView::InvalidTimestamp(v@),
            AprsError::UnsupportedPositionFormat(v) => AprsErrorView::UnsupportedPositionFormat(
                v@,
            ),
        }
    }
}

} // verus!
