//! What holds of the scanner and the patcher together.

use vstd::prelude::*;
use crate::error::ScanError;
use crate::pool::{spec_be_u16, spec_entry_at, spec_fixed_entry, ConstantPoolEntry, TAG_UTF8};
use crate::scanner::{
    lemma_walk_in_bounds,
    spec_entries_to_walk,
    spec_entry_holds,
    spec_find_constant,
    spec_has_magic,
    spec_last_byte_of,
    spec_scan,
    spec_walk,
    HEADER_LEN,
};

verus! {

/// The number of entries still to be walked once the walk of `remaining`
/// entries from `pos` on has met the first entry that holds `target`.
pub open spec fn spec_rest_after_match(
    bytes: Seq<u8>,
    target: Seq<u8>,
    pos: int,
    remaining: nat,
) -> nat
    decreases remaining,
{
    if remaining == 0 {
        0
    } else {
        match spec_entry_at(bytes, pos) {
            None => 0,
            Some(entry) => if spec_entry_holds(bytes, pos, target) {
                (remaining - 1) as nat
            } else {
                spec_rest_after_match(
                    bytes,
                    target,
                    pos + entry.spec_encoded_len(),
                    (remaining - 1) as nat,
                )
            },
        }
    }
}

/// An input without the signature is no class file, whatever follows and
/// whatever is looked for.
pub proof fn lemma_magic_is_checked_first(bytes: Seq<u8>, target: Seq<u8>)
    requires
        !spec_has_magic(bytes),
    ensures
        spec_find_constant(bytes, target) == Err::<int, ScanError>(ScanError::NotAClassFile),
        spec_scan(bytes, target) == Err::<int, ScanError>(ScanError::NotAClassFile),
{
}

/// A walk with no entry left to read has found nothing.
pub proof fn lemma_end_of_pool(bytes: Seq<u8>, target: Seq<u8>, pos: int)
    ensures
        spec_walk(bytes, target, pos, 0) == Err::<int, ScanError>(ScanError::ConstantNotFound),
{
}

/// An entry of a fixed-length kind that lies wholly inside the input is
/// stepped over: the walk goes on behind its payload, whatever the payload
/// holds.
pub proof fn lemma_fixed_entry_is_skipped(
    bytes: Seq<u8>,
    target: Seq<u8>,
    pos: int,
    remaining: nat,
)
    requires
        remaining > 0,
        0 <= pos < bytes.len(),
        bytes[pos] != TAG_UTF8,
        spec_fixed_entry(bytes[pos]) is Some,
        pos + spec_fixed_entry(bytes[pos])->Some_0.spec_encoded_len() <= bytes.len(),
    ensures
        spec_walk(bytes, target, pos, remaining) == spec_walk(
            bytes,
            target,
            pos + spec_fixed_entry(bytes[pos])->Some_0.spec_encoded_len(),
            (remaining - 1) as nat,
        ),
{
}

/// A UTF-8 entry that lies wholly inside the input and whose content is not
/// the target, be it of another length or of other bytes, is stepped over:
/// the walk goes on behind its content.
pub proof fn lemma_other_utf8_is_skipped(
    bytes: Seq<u8>,
    target: Seq<u8>,
    pos: int,
    remaining: nat,
)
    requires
        remaining > 0,
        0 <= pos,
        pos + 3 <= bytes.len(),
        bytes[pos] == TAG_UTF8,
        pos + 3 + spec_be_u16(bytes[pos + 1], bytes[pos + 2]) <= bytes.len(),
        bytes.subrange(pos + 3, pos + 3 + spec_be_u16(bytes[pos + 1], bytes[pos + 2])) != target,
    ensures
        spec_walk(bytes, target, pos, remaining) == spec_walk(
            bytes,
            target,
            pos + 3 + spec_be_u16(bytes[pos + 1], bytes[pos + 2]),
            (remaining - 1) as nat,
        ),
{
}

/// A UTF-8 entry that lies wholly inside the input and whose content is the
/// target ends the walk: the content's position is the result.
pub proof fn lemma_matching_utf8_is_found(
    bytes: Seq<u8>,
    target: Seq<u8>,
    pos: int,
    remaining: nat,
)
    requires
        remaining > 0,
        0 <= pos,
        pos + 3 + target.len() <= bytes.len(),
        bytes[pos] == TAG_UTF8,
        spec_be_u16(bytes[pos + 1], bytes[pos + 2]) as nat == target.len(),
        bytes.subrange(pos + 3, pos + 3 + target.len()) == target,
    ensures
        spec_walk(bytes, target, pos, remaining) == Ok::<int, ScanError>(pos + 3),
{
}

/// A walk that comes upon a tag outside the known set ends there as
/// malformed.
pub proof fn lemma_unknown_tag_is_malformed(
    bytes: Seq<u8>,
    target: Seq<u8>,
    pos: int,
    remaining: nat,
)
    requires
        remaining > 0,
        0 <= pos < bytes.len(),
        bytes[pos] != TAG_UTF8,
        spec_fixed_entry(bytes[pos]) is None,
    ensures
        spec_walk(bytes, target, pos, remaining) == Err::<int, ScanError>(
            ScanError::MalformedConstantPool,
        ),
{
}

/// A class file whose first entry has an unknown tag is malformed, provided
/// its declared count asks for that entry to be read.
pub proof fn lemma_unknown_first_tag_is_malformed(bytes: Seq<u8>, target: Seq<u8>)
    requires
        spec_has_magic(bytes),
        bytes.len() > HEADER_LEN,
        spec_be_u16(bytes[8], bytes[9]) != 1,
        bytes[HEADER_LEN as int] != TAG_UTF8,
        spec_fixed_entry(bytes[HEADER_LEN as int]) is None,
    ensures
        spec_scan(bytes, target) == Err::<int, ScanError>(ScanError::MalformedConstantPool),
{
    lemma_unknown_tag_is_malformed(
        bytes,
        target,
        HEADER_LEN as int,
        spec_entries_to_walk(spec_be_u16(bytes[8], bytes[9])),
    );
}

/// Only an entry of the same length and the same bytes is found: the offset
/// that a scan reports is the last byte of a UTF-8 entry whose declared
/// length is the target's and whose content is the target, byte for byte.
pub proof fn lemma_match_is_exact(bytes: Seq<u8>, target: Seq<u8>)
    requires
        spec_scan(bytes, target) is Ok,
    ensures
        ({
            let offset = spec_scan(bytes, target)->Ok_0;
            let start = offset + 1 - target.len();
            &&& target.len() > 0
            &&& spec_find_constant(bytes, target) == Ok::<int, ScanError>(start)
            &&& HEADER_LEN + 3 <= start <= offset < bytes.len()
            &&& bytes[start - 3] == TAG_UTF8
            &&& spec_be_u16(bytes[start - 2], bytes[start - 1]) as nat == target.len()
            &&& bytes.subrange(start, start + target.len()) == target
            &&& bytes[offset] == target.last()
        }),
{
    lemma_walk_in_bounds(
        bytes,
        target,
        HEADER_LEN as int,
        spec_entries_to_walk(spec_be_u16(bytes[8], bytes[9])),
    );
}

/// Overwriting the byte that a scan reports rewrites the last byte of the
/// matched content and nothing else: the entry keeps its tag and its length,
/// its content becomes the target with the new last byte, and every other
/// byte of the file stays.
pub proof fn lemma_patch_rewrites_last_byte(bytes: Seq<u8>, target: Seq<u8>, new_byte: u8)
    requires
        spec_scan(bytes, target) is Ok,
    ensures
        ({
            let offset = spec_scan(bytes, target)->Ok_0;
            let start = offset + 1 - target.len();
            let patched = bytes.update(offset, new_byte);
            &&& patched.len() == bytes.len()
            &&& patched[offset] == new_byte
            &&& forall|i: int| 0 <= i < bytes.len() && i != offset ==> patched[i] == bytes[i]
            &&& spec_entry_at(patched, start - 3) == spec_entry_at(bytes, start - 3)
            &&& patched.subrange(start, start + target.len()) == target.drop_last().push(
                new_byte,
            )
        }),
{
    lemma_match_is_exact(bytes, target);
    let offset = spec_scan(bytes, target)->Ok_0;
    let start = offset + 1 - target.len();
    let patched = bytes.update(offset, new_byte);
    assert(patched.subrange(start, start + target.len()) =~= target.drop_last().push(new_byte))
        by {
        assert forall|i: int| 0 <= i < target.len() - 1 implies patched.subrange(
            start,
            start + target.len(),
        )[i] == target[i] by {
            assert(bytes.subrange(start, start + target.len())[i] == target[i]);
        }
    }
}

/// The walk from `pos` on reads nothing in front of `pos`: two inputs of one
/// length that agree from there on are walked alike.
pub proof fn lemma_walk_reads_forward(
    a: Seq<u8>,
    b: Seq<u8>,
    target: Seq<u8>,
    pos: int,
    remaining: nat,
)
    requires
        a.len() == b.len(),
        0 <= pos,
        forall|i: int| pos <= i < a.len() ==> a[i] == b[i],
    ensures
        spec_walk(a, target, pos, remaining) == spec_walk(b, target, pos, remaining),
    decreases remaining,
{
    if remaining > 0 {
        match spec_entry_at(a, pos) {
            Some(entry) => {
                lemma_same_content(a, b, target, pos);
                lemma_walk_reads_forward(
                    a,
                    b,
                    target,
                    pos + entry.spec_encoded_len(),
                    (remaining - 1) as nat,
                );
            },
            None => {},
        }
    }
}

/// Two inputs that read as the same entry at `pos` and agree over the whole
/// entry hold the same targets there.
proof fn lemma_same_content(a: Seq<u8>, b: Seq<u8>, target: Seq<u8>, pos: int)
    requires
        a.len() == b.len(),
        0 <= pos,
        spec_entry_at(a, pos) is Some,
        spec_entry_at(a, pos) == spec_entry_at(b, pos),
        forall|i: int|
            pos + 3 <= i < pos + spec_entry_at(a, pos)->Some_0.spec_encoded_len() ==> a[i] == b[i],
    ensures
        spec_entry_holds(a, pos, target) == spec_entry_holds(b, pos, target),
{
    match spec_entry_at(a, pos) {
        Some(ConstantPoolEntry::Utf8 { declared_length }) => {
            assert(a.subrange(pos + 3, pos + 3 + declared_length as int) =~= b.subrange(
                pos + 3,
                pos + 3 + declared_length as int,
            ));
        },
        _ => {},
    }
}

/// Walking a patched input: up to the entry that was found the walk goes as
/// before, finds that entry changed, and goes on behind it as it would have
/// in the unpatched input.
pub proof fn lemma_walk_after_patch(
    bytes: Seq<u8>,
    target: Seq<u8>,
    pos: int,
    remaining: nat,
    new_byte: u8,
)
    requires
        0 <= pos,
        target.len() > 0,
        spec_walk(bytes, target, pos, remaining) is Ok,
        new_byte != target.last(),
    ensures
        ({
            let offset = spec_walk(bytes, target, pos, remaining)->Ok_0 + target.len() - 1;
            spec_walk(bytes.update(offset, new_byte), target, pos, remaining) == spec_walk(
                bytes,
                target,
                offset + 1,
                spec_rest_after_match(bytes, target, pos, remaining),
            )
        }),
    decreases remaining,
{
    lemma_walk_in_bounds(bytes, target, pos, remaining);
    let start = spec_walk(bytes, target, pos, remaining)->Ok_0;
    let offset = start + target.len() - 1;
    let patched = bytes.update(offset, new_byte);
    let entry = spec_entry_at(bytes, pos)->Some_0;
    let next = pos + entry.spec_encoded_len();
    if spec_entry_holds(bytes, pos, target) {
        lemma_walk_reads_forward(patched, bytes, target, next, (remaining - 1) as nat);
    } else {
        lemma_walk_in_bounds(bytes, target, next, (remaining - 1) as nat);
        lemma_same_content(bytes, patched, target, pos);
        lemma_walk_after_patch(bytes, target, next, (remaining - 1) as nat, new_byte);
    }
}

/// Scanning again after a patch: the entry that was found is no longer
/// found, and the scan reports what the rest of the pool behind that entry
/// holds.
pub proof fn lemma_rescan_resumes_behind_patch(bytes: Seq<u8>, target: Seq<u8>, new_byte: u8)
    requires
        spec_scan(bytes, target) is Ok,
        new_byte != target.last(),
    ensures
        ({
            let offset = spec_scan(bytes, target)->Ok_0;
            let rest = spec_rest_after_match(
                bytes,
                target,
                HEADER_LEN as int,
                spec_entries_to_walk(spec_be_u16(bytes[8], bytes[9])),
            );
            &&& spec_scan(bytes.update(offset, new_byte), target) == spec_last_byte_of(
                spec_walk(bytes, target, offset + 1, rest),
                target.len(),
            )
            &&& spec_scan(bytes.update(offset, new_byte), target) matches Ok(again) ==> again
                > offset
        }),
{
    lemma_match_is_exact(bytes, target);
    let count = spec_entries_to_walk(spec_be_u16(bytes[8], bytes[9]));
    let offset = spec_scan(bytes, target)->Ok_0;
    let rest = spec_rest_after_match(bytes, target, HEADER_LEN as int, count);
    lemma_walk_after_patch(bytes, target, HEADER_LEN as int, count, new_byte);
    if spec_walk(bytes, target, offset + 1, rest) is Ok {
        lemma_walk_in_bounds(bytes, target, offset + 1, rest);
    }
}

/// A patched file no longer holds the target: where the pool behind the
/// entry that was found is well formed and holds no second copy of the
/// target, a scan after the patch reports `ConstantNotFound`.
pub proof fn lemma_patched_file_is_not_found(bytes: Seq<u8>, target: Seq<u8>, new_byte: u8)
    requires
        spec_scan(bytes, target) is Ok,
        new_byte != target.last(),
        spec_walk(
            bytes,
            target,
            spec_scan(bytes, target)->Ok_0 + 1,
            spec_rest_after_match(
                bytes,
                target,
                HEADER_LEN as int,
                spec_entries_to_walk(spec_be_u16(bytes[8], bytes[9])),
            ),
        ) == Err::<int, ScanError>(ScanError::ConstantNotFound),
    ensures
        spec_scan(bytes.update(spec_scan(bytes, target)->Ok_0, new_byte), target) == Err::<
            int,
            ScanError,
        >(ScanError::ConstantNotFound),
{
    lemma_rescan_resumes_behind_patch(bytes, target, new_byte);
}

} // verus!
