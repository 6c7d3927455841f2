//! The ways in which scanning and patching fail.

use vstd::prelude::*;

verus! {

/// Why a scan of a class file did not yield an offset.
#[derive(Clone, Copy, Debug, PartialEq, Eq, Structural)]
pub enum ScanError {
    /// The input does not begin with the class-file signature.
    NotAClassFile,
    /// A constant-pool entry has a tag outside the known set, or the input
    /// ends before the entry does.
    MalformedConstantPool,
    /// Every entry was walked and none holds the target.
    ConstantNotFound,
}

/// Why a patch was not applied.
#[derive(Clone, Copy, Debug, PartialEq, Eq, Structural)]
pub enum PatchError {
    /// The scan that was to supply the offset failed.
    Scan(ScanError),
    /// The offset does not lie inside the file.
    IoError,
}

impl ScanError {
    /// The text that describes this error.
    pub open spec fn spec_message(self) -> Seq<char> {
        match self {
            ScanError::NotAClassFile => "not a class file: magic mismatch"@,
            ScanError::MalformedConstantPool =>
                "malformed constant pool: unrecognized tag or pool ended prematurely"@,
            ScanError::ConstantNotFound => "constant not found"@,
        }
    }

    /// A description of the error for the caller to show.
    pub fn message(&self) -> (text: &'static str)
        ensures
            text@ == self.spec_message(),
    {
        match self {
            ScanError::NotAClassFile => "not a class file: magic mismatch",
            ScanError::MalformedConstantPool =>
                "malformed constant pool: unrecognized tag or pool ended prematurely",
            ScanError::ConstantNotFound => "constant not found",
        }
    }
}

impl PatchError {
    /// The text that describes this error.
    pub open spec fn spec_message(self) -> Seq<char> {
        match self {
            PatchError::Scan(e) => e.spec_message(),
            PatchError::IoError => "i/o error: offset lies beyond the end of the file"@,
        }
    }

    /// A description of the error for the caller to show.
    pub fn message(&self) -> (text: &'static str)
        ensures
            text@ == self.spec_message(),
    {
        match self {
            PatchError::Scan(e) => e.message(),
            PatchError::IoError => "i/o error: offset lies beyond the end of the file",
        }
    }
}

} // verus!
