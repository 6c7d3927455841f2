//! The shape of constant-pool entries: which tag announces which payload.

use vstd::prelude::*;

verus! {

/// The tag of a UTF-8 entry, whose payload is a 16-bit length and then that
/// many content bytes.
pub const TAG_UTF8: u8 = 1;

/// The bytes in front of a UTF-8 entry's content: the tag and the length.
pub const UTF8_HEADER_LEN: usize = 3;

/// One entry of the constant pool, as far as walking past it needs to know.
#[derive(Clone, Copy, Debug, PartialEq, Eq, Structural)]
pub enum ConstantPoolEntry {
    /// A length-prefixed byte string.
    Utf8 { declared_length: u16 },
    /// Integer, Float, and the reference kinds with two 16-bit fields.
    FourByteValue,
    /// Long and Double.
    EightByteValue,
    /// Class and String references.
    TwoByteValue,
}

/// The 16-bit number that two bytes spell, most significant byte first.
pub open spec fn spec_be_u16(hi: u8, lo: u8) -> u16 {
    (hi as int * 256 + lo as int) as u16
}

/// Reads two bytes as a big-endian 16-bit number.
pub fn be_u16(hi: u8, lo: u8) -> (value: u16)
    ensures
        value == spec_be_u16(hi, lo),
        value as int == hi as int * 256 + lo as int,
{
    (hi as u16) * 256 + (lo as u16)
}

/// The table of tags with a payload of fixed length.
pub open spec fn spec_fixed_entry(tag: u8) -> Option<ConstantPoolEntry> {
    if tag == 3 || tag == 4 || tag == 9 || tag == 10 || tag == 11 || tag == 12 {
        Some(ConstantPoolEntry::FourByteValue)
    } else if tag == 5 || tag == 6 {
        Some(ConstantPoolEntry::EightByteValue)
    } else if tag == 7 || tag == 8 {
        Some(ConstantPoolEntry::TwoByteValue)
    } else {
        None
    }
}

/// Looks a tag up in the table of fixed-length kinds.
pub fn fixed_entry(tag: u8) -> (entry: Option<ConstantPoolEntry>)
    ensures
        entry == spec_fixed_entry(tag),
{
    match tag {
        3 | 4 | 9 | 10 | 11 | 12 => Some(ConstantPoolEntry::FourByteValue),
        5 | 6 => Some(ConstantPoolEntry::EightByteValue),
        7 | 8 => Some(ConstantPoolEntry::TwoByteValue),
        _ => None,
    }
}

impl ConstantPoolEntry {
    /// The number of bytes that follow the tag.
    pub open spec fn spec_payload_len(self) -> nat {
        match self {
            ConstantPoolEntry::Utf8 { declared_length } => 2 + declared_length as nat,
            ConstantPoolEntry::FourByteValue => 4,
            ConstantPoolEntry::EightByteValue => 8,
            ConstantPoolEntry::TwoByteValue => 2,
        }
    }

    /// The number of bytes the entry takes up, tag included.
    pub open spec fn spec_encoded_len(self) -> nat {
        1 + self.spec_payload_len()
    }

    /// The number of bytes that follow the tag.
    pub fn payload_len(&self) -> (len: usize)
        ensures
            len == self.spec_payload_len(),
    {
        match self {
            ConstantPoolEntry::Utf8 { declared_length } => 2 + (*declared_length as usize),
            ConstantPoolEntry::FourByteValue => 4,
            ConstantPoolEntry::EightByteValue => 8,
            ConstantPoolEntry::TwoByteValue => 2,
        }
    }

    /// The number of bytes the entry takes up, tag included.
    pub fn encoded_len(&self) -> (len: usize)
        ensures
            len == self.spec_encoded_len(),
            1 <= len <= 65538,
    {
        1 + self.payload_len()
    }
}

/// The entry whose tag stands at `pos`, if the tag is known and the whole
/// entry lies inside `bytes`.
pub open spec fn spec_entry_at(bytes: Seq<u8>, pos: int) -> Option<ConstantPoolEntry> {
    if pos < 0 || pos >= bytes.len() {
        None
    } else {
        let shape = if bytes[pos] == TAG_UTF8 {
            if pos + 3 <= bytes.len() {
                Some(
                    ConstantPoolEntry::Utf8 {
                        declared_length: spec_be_u16(bytes[pos + 1], bytes[pos + 2]),
                    },
                )
            } else {
                None
            }
        } else {
            spec_fixed_entry(bytes[pos])
        };
        match shape {
            Some(entry) => if pos + entry.spec_encoded_len() <= bytes.len() {
                Some(entry)
            } else {
                None
            },
            None => None,
        }
    }
}

/// Reads the entry whose tag stands at `pos`.
///
/// Gives `None` where `pos` lies outside the input, where the tag is not one
/// of the known kinds, and where the input ends before the entry does.
pub fn entry_at(bytes: &[u8], pos: usize) -> (entry: Option<ConstantPoolEntry>)
    ensures
        entry == spec_entry_at(bytes@, pos as int),
{
    if pos >= bytes.len() {
        return None;
    }
    let room: usize = bytes.len() - pos;
    let tag: u8 = bytes[pos];
    let shape = if tag == TAG_UTF8 {
        if room >= 3 {
            Some(ConstantPoolEntry::Utf8 { declared_length: be_u16(bytes[pos + 1], bytes[pos + 2]) })
        } else {
            None
        }
    } else {
        fixed_entry(tag)
    };
    match shape {
        Some(entry) => if entry.encoded_len() <= room {
            Some(entry)
        } else {
            None
        },
        None => None,
    }
}

} // verus!
