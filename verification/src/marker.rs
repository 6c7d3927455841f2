//! The one patch this library exists for: turning the language-version
//! marker `1.5` of a class file into `1.7`.

use vstd::prelude::*;
use crate::error::{PatchError, ScanError};
use crate::patcher::patch;
use crate::scanner::{scan, spec_outcome, spec_scan};

verus! {

/// The character `7`, which takes the place of the marker's `5`.
pub const DIGIT_SEVEN: u8 = 0x37;

/// The bytes of the marker `1.5`.
pub open spec fn spec_marker() -> Seq<u8> {
    seq![0x31u8, 0x2eu8, 0x35u8]
}

/// The marker `1.5` as bytes.
pub fn marker() -> (bytes: Vec<u8>)
    ensures
        bytes@ == spec_marker(),
{
    let mut bytes: Vec<u8> = Vec::new();
    bytes.push(0x31);
    bytes.push(0x2e);
    bytes.push(0x35);
    assert(bytes@ =~= spec_marker());
    bytes
}

/// Finds the offset of the `5` of the constant `1.5` in a class file.
pub fn find_5_offset(class_bytes: &[u8]) -> (r: Result<usize, ScanError>)
    ensures
        spec_outcome(r) == spec_scan(class_bytes@, spec_marker()),
        r matches Ok(offset) ==> {
            &&& 2 <= offset < class_bytes@.len()
            &&& class_bytes@[offset - 2] == 0x31
            &&& class_bytes@[offset - 1] == 0x2e
            &&& class_bytes@[offset as int] == 0x35
        },
{
    let target = marker();
    scan(class_bytes, target.as_slice())
}

/// Replaces the `5` of the constant `1.5` at `offset` by the character `7`.
///
/// Fails with `IoError`, changing nothing, exactly where `offset` does not
/// lie inside the file.
pub fn replace_5_as_7(class_bytes: &mut Vec<u8>, offset: usize) -> (r: Result<(), PatchError>)
    ensures
        offset < old(class_bytes)@.len() ==> {
            &&& r == Ok::<(), PatchError>(())
            &&& final(class_bytes)@ == old(class_bytes)@.update(offset as int, DIGIT_SEVEN)
        },
        offset >= old(class_bytes)@.len() ==> {
            &&& r == Err::<(), PatchError>(PatchError::IoError)
            &&& final(class_bytes)@ == old(class_bytes)@
        },
{
    patch(class_bytes, offset, DIGIT_SEVEN)
}

} // verus!
