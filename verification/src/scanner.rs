//! The constant-pool scanner: finds a UTF-8 constant in a class file.

use vstd::prelude::*;
use crate::error::ScanError;
use crate::pool::{be_u16, entry_at, spec_be_u16, spec_entry_at, ConstantPoolEntry, UTF8_HEADER_LEN};

verus! {

/// The length of what precedes the first constant-pool entry: the signature,
/// the two version fields and the declared entry count.
pub const HEADER_LEN: usize = 10;

/// Whether `bytes` begins with the class-file signature `CA FE BA BE`.
pub open spec fn spec_has_magic(bytes: Seq<u8>) -> bool {
    &&& bytes.len() >= 4
    &&& bytes[0] == 0xCA
    &&& bytes[1] == 0xFE
    &&& bytes[2] == 0xBA
    &&& bytes[3] == 0xBE
}

/// Tests for the class-file signature.
pub fn has_magic(bytes: &[u8]) -> (found: bool)
    ensures
        found == spec_has_magic(bytes@),
{
    bytes.len() >= 4 && bytes[0] == 0xCA && bytes[1] == 0xFE && bytes[2] == 0xBA && bytes[3]
        == 0xBE
}

/// The number of entries to walk for a declared count: one less than the
/// count, since slot zero is never stored. The subtraction is done in 16
/// bits, so a declared count of zero asks for 65535 entries.
pub open spec fn spec_entries_to_walk(declared_count: u16) -> nat {
    if declared_count == 0 {
        0xFFFF
    } else {
        (declared_count - 1) as nat
    }
}

/// Whether the entry at `pos` is a UTF-8 entry whose content is exactly
/// `target`: the same length and the same bytes.
pub open spec fn spec_entry_holds(bytes: Seq<u8>, pos: int, target: Seq<u8>) -> bool {
    match spec_entry_at(bytes, pos) {
        Some(ConstantPoolEntry::Utf8 { declared_length }) => {
            &&& declared_length as nat == target.len()
            &&& bytes.subrange(pos + 3, pos + 3 + declared_length as int) == target
        },
        _ => false,
    }
}

/// The outcome of walking `remaining` entries from `pos` on: the position of
/// the content of the first entry that holds `target`, or the reason why
/// there is none.
pub open spec fn spec_walk(bytes: Seq<u8>, target: Seq<u8>, pos: int, remaining: nat) -> Result<
    int,
    ScanError,
>
    decreases remaining,
{
    if remaining == 0 {
        Err(ScanError::ConstantNotFound)
    } else {
        match spec_entry_at(bytes, pos) {
            None => Err(ScanError::MalformedConstantPool),
            Some(entry) => if spec_entry_holds(bytes, pos, target) {
                Ok(pos + 3)
            } else {
                spec_walk(
                    bytes,
                    target,
                    pos + entry.spec_encoded_len(),
                    (remaining - 1) as nat,
                )
            },
        }
    }
}

/// Where the content of the first UTF-8 entry equal to `target` begins in the
/// class file `bytes`.
pub open spec fn spec_find_constant(bytes: Seq<u8>, target: Seq<u8>) -> Result<int, ScanError> {
    if !spec_has_magic(bytes) {
        Err(ScanError::NotAClassFile)
    } else if bytes.len() < HEADER_LEN {
        Err(ScanError::MalformedConstantPool)
    } else {
        spec_walk(
            bytes,
            target,
            HEADER_LEN as int,
            spec_entries_to_walk(spec_be_u16(bytes[8], bytes[9])),
        )
    }
}

/// The offset of the byte to overwrite: the last byte of the first UTF-8
/// entry equal to `target`. An empty target has no such byte, and is never
/// found.
pub open spec fn spec_scan(bytes: Seq<u8>, target: Seq<u8>) -> Result<int, ScanError> {
    spec_last_byte_of(spec_find_constant(bytes, target), target.len())
}

/// Turns the outcome of a search for content of length `len` into the offset
/// of that content's last byte.
pub open spec fn spec_last_byte_of(found: Result<int, ScanError>, len: nat) -> Result<
    int,
    ScanError,
> {
    match found {
        Ok(start) => if len == 0 {
            Err(ScanError::ConstantNotFound)
        } else {
            Ok(start + len - 1)
        },
        Err(e) => Err(e),
    }
}

/// An executable result read as the mathematical one.
pub open spec fn spec_outcome(r: Result<usize, ScanError>) -> Result<int, ScanError> {
    match r {
        Ok(offset) => Ok(offset as int),
        Err(e) => Err(e),
    }
}

/// Whether `target` stands in `bytes` at `start`, wholly inside it.
pub open spec fn spec_content_equals(bytes: Seq<u8>, start: int, target: Seq<u8>) -> bool {
    &&& 0 <= start
    &&& start + target.len() <= bytes.len()
    &&& bytes.subrange(start, start + target.len()) == target
}

/// Compares the `target.len()` bytes of `bytes` from `start` on with
/// `target`; where `bytes` ends before that, they differ.
pub fn content_equals(bytes: &[u8], start: usize, target: &[u8]) -> (same: bool)
    ensures
        same == spec_content_equals(bytes@, start as int, target@),
{
    let total: usize = bytes.len();
    if start > total || target.len() > total - start {
        return false;
    }
    let mut i: usize = 0;
    while i < target.len()
        invariant
            i <= target@.len(),
            total == bytes@.len(),
            start + target@.len() <= bytes@.len(),
            forall|j: int| 0 <= j < i ==> bytes@[start + j] == target@[j],
        decreases target@.len() - i,
    {
        if bytes[start + i] != target[i] {
            assert(bytes@.subrange(start as int, start + target@.len())[i as int] == bytes@[start
                + i]);
            return false;
        }
        i = i + 1;
    }
    assert(bytes@.subrange(start as int, start + target@.len()) =~= target@);
    true
}

/// Tests whether the entry at `pos` is a UTF-8 entry whose content is
/// exactly `target`.
pub fn entry_holds(bytes: &[u8], pos: usize, target: &[u8]) -> (holds: bool)
    ensures
        holds == spec_entry_holds(bytes@, pos as int, target@),
{
    let total: usize = bytes.len();
    match entry_at(bytes, pos) {
        Some(ConstantPoolEntry::Utf8 { declared_length }) => {
            declared_length as usize == target.len() && content_equals(
                bytes,
                pos + UTF8_HEADER_LEN,
                target,
            )
        },
        _ => false,
    }
}

/// Finds where the content of the first UTF-8 constant equal to `target`
/// begins.
///
/// The input must begin with the signature, or the result is
/// `NotAClassFile`. One entry less than the declared count is walked, each
/// by the length its tag announces; an unknown tag, or an input that ends
/// inside the header or an entry, gives `MalformedConstantPool`. Where no
/// walked entry holds `target`, the result is `ConstantNotFound`.
pub fn find_constant(bytes: &[u8], target: &[u8]) -> (r: Result<usize, ScanError>)
    ensures
        spec_outcome(r) == spec_find_constant(bytes@, target@),
        !spec_has_magic(bytes@) ==> r == Err::<usize, ScanError>(ScanError::NotAClassFile),
        r matches Ok(start) ==> {
            &&& HEADER_LEN + 3 <= start
            &&& start + target@.len() <= bytes@.len()
            &&& spec_entry_holds(bytes@, start - 3, target@)
        },
{
    if !has_magic(bytes) {
        return Err(ScanError::NotAClassFile);
    }
    if bytes.len() < HEADER_LEN {
        return Err(ScanError::MalformedConstantPool);
    }
    let declared_count: u16 = be_u16(bytes[8], bytes[9]);
    let count: u16 = declared_count.wrapping_sub(1);
    let mut remaining: u16 = count;
    let mut pos: usize = HEADER_LEN;
    let total: usize = bytes.len();
    while remaining > 0
        invariant
            total == bytes@.len(),
            HEADER_LEN <= pos <= total,
            spec_walk(bytes@, target@, pos as int, remaining as nat) == spec_find_constant(
                bytes@,
                target@,
            ),
        decreases remaining,
    {
        match entry_at(bytes, pos) {
            None => {
                return Err(ScanError::MalformedConstantPool);
            },
            Some(entry) => {
                if entry_holds(bytes, pos, target) {
                    return Ok(pos + UTF8_HEADER_LEN);
                }
                pos = pos + entry.encoded_len();
                remaining = remaining - 1;
            },
        }
    }
    Err(ScanError::ConstantNotFound)
}

/// Finds the byte to overwrite: the last byte of the first UTF-8 constant
/// equal to `target`, which is where a version marker such as `1.5` differs
/// from its successor.
///
/// Fails as `find_constant` does. An empty target has no last byte, so it is
/// reported as `ConstantNotFound` wherever the walk would have found it.
pub fn scan(bytes: &[u8], target: &[u8]) -> (r: Result<usize, ScanError>)
    ensures
        spec_outcome(r) == spec_scan(bytes@, target@),
        !spec_has_magic(bytes@) ==> r == Err::<usize, ScanError>(ScanError::NotAClassFile),
        r matches Ok(offset) ==> {
            &&& target@.len() > 0
            &&& HEADER_LEN + 3 + target@.len() <= offset + 1 <= bytes@.len()
            &&& bytes@[offset as int] == target@.last()
            &&& spec_entry_holds(bytes@, offset + 1 - target@.len() - 3, target@)
        },
{
    match find_constant(bytes, target) {
        Ok(start) => {
            let total: usize = bytes.len();
            if target.len() == 0 {
                Err(ScanError::ConstantNotFound)
            } else {
                proof {
                    lemma_walk_in_bounds(
                        bytes@,
                        target@,
                        HEADER_LEN as int,
                        spec_entries_to_walk(spec_be_u16(bytes@[8], bytes@[9])),
                    );
                }
                Ok(start + (target.len() - 1))
            }
        },
        Err(e) => Err(e),
    }
}

/// A match found by the walk lies wholly inside the input, behind a UTF-8 tag
/// and a length equal to the target's, and its bytes are the target's.
pub proof fn lemma_walk_in_bounds(bytes: Seq<u8>, target: Seq<u8>, pos: int, remaining: nat)
    requires
        spec_walk(bytes, target, pos, remaining) is Ok,
        0 <= pos,
    ensures
        ({
            let start = spec_walk(bytes, target, pos, remaining)->Ok_0;
            &&& pos + 3 <= start
            &&& start + target.len() <= bytes.len()
            &&& spec_entry_holds(bytes, start - 3, target)
        }),
    decreases remaining,
{
    if remaining > 0 {
        let entry = spec_entry_at(bytes, pos)->Some_0;
        if !spec_entry_holds(bytes, pos, target) {
            lemma_walk_in_bounds(
                bytes,
                target,
                pos + entry.spec_encoded_len(),
                (remaining - 1) as nat,
            );
        }
    }
}

} // verus!
