//! The byte patcher: overwrites one byte of a class file held in memory.

use vstd::prelude::*;
use crate::error::{PatchError, ScanError};
use crate::scanner::{scan, spec_scan};

verus! {

/// Overwrites the byte at `offset` with `new_byte` and leaves every other
/// byte, and the length, as they were.
///
/// Fails with `IoError`, changing nothing, exactly where `offset` does not
/// lie inside `bytes`.
pub fn patch(bytes: &mut Vec<u8>, offset: usize, new_byte: u8) -> (r: Result<(), PatchError>)
    ensures
        offset < old(bytes)@.len() ==> {
            &&& r == Ok::<(), PatchError>(())
            &&& final(bytes)@ == old(bytes)@.update(offset as int, new_byte)
        },
        offset >= old(bytes)@.len() ==> {
            &&& r == Err::<(), PatchError>(PatchError::IoError)
            &&& final(bytes)@ == old(bytes)@
        },
        final(bytes)@.len() == old(bytes)@.len(),
        forall|i: int|
            0 <= i < old(bytes)@.len() && i != offset ==> final(bytes)@[i] == old(bytes)@[i],
        r is Ok ==> final(bytes)@[offset as int] == new_byte,
{
    if offset < bytes.len() {
        bytes[offset] = new_byte;
        Ok(())
    } else {
        Err(PatchError::IoError)
    }
}

/// Scans `bytes` for `target` and, where it is found, overwrites its last
/// byte with `new_byte`; gives the offset that was written.
///
/// Where the scan fails, its error is handed on and nothing is changed.
pub fn scan_and_patch(bytes: &mut Vec<u8>, target: &[u8], new_byte: u8) -> (r: Result<
    usize,
    PatchError,
>)
    ensures
        match spec_scan(old(bytes)@, target@) {
            Ok(offset) => {
                &&& r matches Ok(written)
                &&& written as int == offset
                &&& final(bytes)@ == old(bytes)@.update(offset, new_byte)
            },
            Err(e) => {
                &&& r == Err::<usize, PatchError>(PatchError::Scan(e))
                &&& final(bytes)@ == old(bytes)@
            },
        },
{
    match scan(bytes.as_slice(), target) {
        Ok(offset) => match patch(bytes, offset, new_byte) {
            Ok(()) => Ok(offset),
            Err(e) => Err(e),
        },
        Err(e) => Err(PatchError::Scan(e)),
    }
}

} // verus!
