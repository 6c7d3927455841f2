//! Picking the plugin archive out of a directory listing.

use vstd::prelude::*;
use vstd::string::StringSliceAdditionalSpecFns;
use vstd::utf8::encode_utf8;
use crate::scanner::{content_equals, spec_content_equals};

verus! {

/// Whether `bytes` begins with `prefix`.
pub open spec fn spec_starts_with(bytes: Seq<u8>, prefix: Seq<u8>) -> bool {
    spec_content_equals(bytes, 0, prefix)
}

/// Whether `bytes` ends with `suffix`.
pub open spec fn spec_ends_with(bytes: Seq<u8>, suffix: Seq<u8>) -> bool {
    spec_content_equals(bytes, bytes.len() - suffix.len(), suffix)
}

/// Tests whether `bytes` begins with `prefix`.
pub fn starts_with(bytes: &[u8], prefix: &[u8]) -> (found: bool)
    ensures
        found == spec_starts_with(bytes@, prefix@),
{
    content_equals(bytes, 0, prefix)
}

/// Tests whether `bytes` ends with `suffix`.
pub fn ends_with(bytes: &[u8], suffix: &[u8]) -> (found: bool)
    ensures
        found == spec_ends_with(bytes@, suffix@),
{
    suffix.len() <= bytes.len() && content_equals(bytes, bytes.len() - suffix.len(), suffix)
}

/// Whether a file of this name is the plugin archive: the name begins with
/// the plugin's identifier and an underscore, and ends in `.jar`.
pub open spec fn spec_is_adt_jar_name(name: Seq<char>) -> bool {
    &&& spec_starts_with(encode_utf8(name), "com.android.ide.eclipse.adt_".spec_bytes())
    &&& spec_ends_with(encode_utf8(name), ".jar".spec_bytes())
}

/// Tests whether a file of this name is the plugin archive.
pub fn is_adt_jar_name(name: &str) -> (found: bool)
    ensures
        found == spec_is_adt_jar_name(name@),
{
    starts_with(name.as_bytes(), "com.android.ide.eclipse.adt_".as_bytes()) && ends_with(
        name.as_bytes(),
        ".jar".as_bytes(),
    )
}

/// Finds the plugin archive among the file names of a directory: the index
/// of the first name that `is_adt_jar_name` accepts, if there is one.
pub fn find_jar(names: &Vec<String>) -> (found: Option<usize>)
    ensures
        match found {
            Some(index) => {
                &&& index < names@.len()
                &&& spec_is_adt_jar_name(names@[index as int]@)
                &&& forall|j: int| 0 <= j < index ==> !spec_is_adt_jar_name(names@[j]@)
            },
            None => forall|j: int| 0 <= j < names@.len() ==> !spec_is_adt_jar_name(names@[j]@),
        },
{
    let mut i: usize = 0;
    while i < names.len()
        invariant
            i <= names@.len(),
            forall|j: int| 0 <= j < i ==> !spec_is_adt_jar_name(names@[j]@),
        decreases names@.len() - i,
    {
        if is_adt_jar_name(names[i].as_str()) {
            return Some(i);
        }
        i = i + 1;
    }
    None
}

} // verus!
