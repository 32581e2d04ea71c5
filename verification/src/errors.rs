//! The ways in which a request to the catalog can fail.

use vstd::prelude::*;

verus! {

/// A failure that the library reports to its caller.
///
/// Being asked about a path or a version that the catalog does not hold is
/// no failure: the operations answer those with an informational outcome.
#[derive(Clone, Copy, Debug, PartialEq, Eq, Structural)]
pub enum Error {
    /// A version selector that is not the letter `v` followed by a decimal
    /// number that fits in 32 bits.
    InvalidVersionFormat,
    /// A catalog document whose records do not have the expected shape.
    InvalidCatalog,
    /// A source path that is neither a regular file nor a directory.
    Unsupported,
    /// The record already holds the highest version number there is.
    VersionOverflow,
}

impl Error {
    /// Whether the failure is one of format: a malformed selector or a
    /// malformed catalog document.
    pub open spec fn spec_is_format_error(&self) -> bool {
        *self == Error::InvalidVersionFormat || *self == Error::InvalidCatalog
    }

    #[verifier::when_used_as_spec(spec_is_format_error)]
    pub fn is_format_error(&self) -> (result: bool)
        ensures
            result == self.spec_is_format_error(),
    {
        match self {
            Error::InvalidVersionFormat => true,
            Error::InvalidCatalog => true,
            Error::Unsupported => false,
            Error::VersionOverflow => false,
        }
    }

    /// The text shown to the user for this failure.
    pub fn message(&self) -> (result: String)
        ensures
            result@ == match *self {
                Error::InvalidVersionFormat =>
                    "invalid format for version, should be in form v1, v2..."@,
                Error::InvalidCatalog => "cannot read backup metadata"@,
                Error::Unsupported => "neither a file nor a directory"@,
                Error::VersionOverflow => "no version number is left"@,
            },
    {
        match self {
            Error::InvalidVersionFormat => String::from_str(
                "invalid format for version, should be in form v1, v2...",
            ),
            Error::InvalidCatalog => String::from_str("cannot read backup metadata"),
            Error::Unsupported => String::from_str("neither a file nor a directory"),
            Error::VersionOverflow => String::from_str("no version number is left"),
        }
    }
}

} // verus!
