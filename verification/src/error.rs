//! The error kinds that the library's operations report.

use vstd::prelude::*;

verus! {

/// What went wrong, by kind. Every fallible operation of the library states
/// in its contract on which inputs each kind is returned.
#[derive(Clone, Copy, Debug, PartialEq, Eq, Structural)]
pub enum OfficeError {
    /// The archive or its backing store could not be read or written.
    PackageIo,
    /// A blob could not be compressed, decompressed, encoded or decoded.
    Codec,
    /// A required attribute is missing, an element is unknown where the set
    /// of elements is closed, or an index points outside its table.
    Schema,
    /// A document was borrowed for writing while another borrow was live.
    ConcurrentAccess,
    /// A relationship id or sheet name is not present.
    NotFound,
    /// A sheet was renamed to a name that is already taken.
    Conflict,
    /// The caller passed an argument that the operation cannot accept.
    Programmer,
}

impl OfficeError {
    /// A short description of the kind, for messages.
    pub open spec fn description(self) -> Seq<char> {
        match self {
            OfficeError::PackageIo => "package input/output failed"@,
            OfficeError::Codec => "encoding or decoding failed"@,
            OfficeError::Schema => "document does not follow the schema"@,
            OfficeError::ConcurrentAccess => "document is already borrowed"@,
            OfficeError::NotFound => "item not found"@,
            OfficeError::Conflict => "name already exists"@,
            OfficeError::Programmer => "invalid argument"@,
        }
    }

    /// A short description of the kind, for messages.
    pub fn describe(&self) -> (text: &'static str)
        ensures
            text@ == self.description(),
    {
        match self {
            OfficeError::PackageIo => "package input/output failed",
            OfficeError::Codec => "encoding or decoding failed",
            OfficeError::Schema => "document does not follow the schema",
            OfficeError::ConcurrentAccess => "document is already borrowed",
            OfficeError::NotFound => "item not found",
            OfficeError::Conflict => "name already exists",
            OfficeError::Programmer => "invalid argument",
        }
    }
}

} // verus!
