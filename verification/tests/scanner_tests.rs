use class_patch::error::ScanError;
use class_patch::marker::{find_5_offset, marker};
use class_patch::pool::{be_u16, entry_at, fixed_entry, ConstantPoolEntry};
use class_patch::scanner::{content_equals, entry_holds, find_constant, has_magic, scan};

fn header(declared_count: u16) -> Vec<u8> {
    let mut bytes = vec![0xCA, 0xFE, 0xBA, 0xBE, 0x00, 0x00, 0x00, 0x31];
    bytes.push((declared_count >> 8) as u8);
    bytes.push((declared_count & 0xFF) as u8);
    bytes
}

fn utf8(content: &[u8]) -> Vec<u8> {
    let mut bytes = vec![1, (content.len() >> 8) as u8, (content.len() & 0xFF) as u8];
    bytes.extend_from_slice(content);
    bytes
}

fn fixed(tag: u8, payload: usize) -> Vec<u8> {
    let mut bytes = vec![tag];
    bytes.extend(std::iter::repeat(0xEE).take(payload));
    bytes
}

fn class_file(declared_count: u16, entries: &[Vec<u8>]) -> Vec<u8> {
    let mut bytes = header(declared_count);
    for entry in entries {
        bytes.extend_from_slice(entry);
    }
    bytes
}

#[test]
fn magic_mismatch_is_not_a_class_file() {
    let mut bytes = class_file(2, &[utf8(b"1.5")]);
    bytes[3] = 0xBF;
    assert_eq!(scan(&bytes, b"1.5"), Err(ScanError::NotAClassFile));
    assert_eq!(find_constant(&bytes, b"1.5"), Err(ScanError::NotAClassFile));
    assert_eq!(find_5_offset(&bytes), Err(ScanError::NotAClassFile));
}

#[test]
fn each_signature_byte_is_checked() {
    for i in 0..4 {
        let mut bytes = class_file(2, &[utf8(b"1.5")]);
        bytes[i] ^= 0x01;
        assert_eq!(scan(&bytes, b"1.5"), Err(ScanError::NotAClassFile));
        assert!(!has_magic(&bytes));
    }
}

#[test]
fn empty_and_short_inputs_are_not_class_files() {
    assert_eq!(scan(&[], b"1.5"), Err(ScanError::NotAClassFile));
    assert_eq!(scan(&[0xCA, 0xFE, 0xBA], b"1.5"), Err(ScanError::NotAClassFile));
    assert_eq!(scan(b"PK\x03\x04 some archive", b"1.5"), Err(ScanError::NotAClassFile));
}

#[test]
fn header_cut_short_is_malformed() {
    assert_eq!(scan(&[0xCA, 0xFE, 0xBA, 0xBE], b"1.5"), Err(ScanError::MalformedConstantPool));
    let bytes = header(2);
    assert_eq!(scan(&bytes[..9], b"1.5"), Err(ScanError::MalformedConstantPool));
    assert!(has_magic(&bytes[..4]));
}

#[test]
fn every_skip_category_is_walked_past() {
    let mut entries = Vec::new();
    for tag in [3u8, 4, 9, 10, 11, 12] {
        entries.push(fixed(tag, 4));
    }
    for tag in [5u8, 6] {
        entries.push(fixed(tag, 8));
    }
    for tag in [7u8, 8] {
        entries.push(fixed(tag, 2));
    }
    entries.push(utf8(b"java/lang/Object"));
    entries.push(utf8(b""));
    let bytes = class_file(entries.len() as u16 + 1, &entries);
    assert_eq!(scan(&bytes, b"1.5"), Err(ScanError::ConstantNotFound));
    assert_eq!(find_5_offset(&bytes), Err(ScanError::ConstantNotFound));
}

#[test]
fn target_behind_every_skip_category_is_found() {
    let mut entries = vec![fixed(3, 4), fixed(5, 8), fixed(7, 2), utf8(b"other")];
    entries.push(utf8(b"1.5"));
    let bytes = class_file(6, &entries);
    // 10 header + 5 + 9 + 3 + 8 = 35: the tag; the content begins at 38.
    assert_eq!(find_constant(&bytes, b"1.5"), Ok(38));
    assert_eq!(scan(&bytes, b"1.5"), Ok(40));
    assert_eq!(bytes[40], b'5');
}

#[test]
fn longer_content_is_no_match() {
    let bytes = class_file(2, &[utf8(b"1.50")]);
    assert_eq!(scan(&bytes, b"1.5"), Err(ScanError::ConstantNotFound));
    assert_eq!(find_constant(&bytes, b"1.5"), Err(ScanError::ConstantNotFound));
}

#[test]
fn shorter_content_is_no_match() {
    let bytes = class_file(2, &[utf8(b"1.")]);
    assert_eq!(scan(&bytes, b"1.5"), Err(ScanError::ConstantNotFound));
}

#[test]
fn same_length_other_bytes_is_no_match() {
    let bytes = class_file(4, &[utf8(b"1.6"), utf8(b"2.5"), utf8(b"1,5")]);
    assert_eq!(scan(&bytes, b"1.5"), Err(ScanError::ConstantNotFound));
}

#[test]
fn target_inside_longer_content_is_no_match() {
    let bytes = class_file(2, &[utf8(b"x1.5")]);
    assert_eq!(scan(&bytes, b"1.5"), Err(ScanError::ConstantNotFound));
}

#[test]
fn offset_points_at_the_five() {
    let bytes = class_file(2, &[utf8(b"1.5")]);
    let offset = scan(&bytes, b"1.5").unwrap();
    assert_eq!(offset, 15);
    assert_eq!(bytes[offset], 0x35);
    assert_eq!(find_constant(&bytes, b"1.5"), Ok(13));
    assert_eq!(find_5_offset(&bytes), Ok(15));
}

#[test]
fn offset_is_the_last_byte_of_any_target() {
    let bytes = class_file(3, &[utf8(b"ab"), utf8(b"version-8")]);
    assert_eq!(find_constant(&bytes, b"version-8"), Ok(18));
    assert_eq!(scan(&bytes, b"version-8"), Ok(26));
    assert_eq!(bytes[26], b'8');
    assert_eq!(scan(&bytes, b"ab"), Ok(14));
    let one = class_file(2, &[utf8(b"Z")]);
    assert_eq!(scan(&one, b"Z"), Ok(13));
    assert_eq!(find_constant(&one, b"Z"), Ok(13));
}

#[test]
fn first_of_two_copies_is_reported() {
    let bytes = class_file(3, &[utf8(b"1.5"), utf8(b"1.5")]);
    assert_eq!(scan(&bytes, b"1.5"), Ok(15));
}

#[test]
fn tag_zero_is_malformed() {
    let bytes = class_file(2, &[vec![0, 0, 0, 0, 0]]);
    assert_eq!(scan(&bytes, b"1.5"), Err(ScanError::MalformedConstantPool));
    assert_eq!(find_5_offset(&bytes), Err(ScanError::MalformedConstantPool));
}

#[test]
fn unknown_tags_are_malformed() {
    for tag in [0u8, 2, 13, 14, 15, 16, 18, 100, 255] {
        let bytes = class_file(3, &[fixed(tag, 8), utf8(b"1.5")]);
        assert_eq!(scan(&bytes, b"1.5"), Err(ScanError::MalformedConstantPool));
        assert_eq!(fixed_entry(tag), None);
    }
}

#[test]
fn unknown_tag_behind_the_match_is_not_read() {
    let bytes = class_file(3, &[utf8(b"1.5"), fixed(0, 4)]);
    assert_eq!(scan(&bytes, b"1.5"), Ok(15));
}

#[test]
fn pool_that_ends_early_is_malformed() {
    let bytes = class_file(3, &[utf8(b"abc")]);
    assert_eq!(scan(&bytes, b"1.5"), Err(ScanError::MalformedConstantPool));
}

#[test]
fn entry_cut_short_is_malformed() {
    let whole = class_file(2, &[fixed(5, 8)]);
    assert_eq!(scan(&whole, b"1.5"), Err(ScanError::ConstantNotFound));
    assert_eq!(scan(&whole[..whole.len() - 1], b"1.5"), Err(ScanError::MalformedConstantPool));
    let text = class_file(2, &[utf8(b"1.5")]);
    assert_eq!(scan(&text[..15], b"1.5"), Err(ScanError::MalformedConstantPool));
    assert_eq!(scan(&text[..12], b"1.5"), Err(ScanError::MalformedConstantPool));
    assert_eq!(scan(&text[..11], b"1.5"), Err(ScanError::MalformedConstantPool));
    let long = class_file(2, &[vec![1, 0xFF, 0xFF, b'x']]);
    assert_eq!(scan(&long, b"1.5"), Err(ScanError::MalformedConstantPool));
}

#[test]
fn one_entry_less_than_declared_is_walked() {
    let entries = [utf8(b"a"), utf8(b"1.5")];
    assert_eq!(scan(&class_file(3, &entries), b"1.5"), Ok(19));
    assert_eq!(scan(&class_file(2, &entries), b"1.5"), Err(ScanError::ConstantNotFound));
    assert_eq!(scan(&class_file(1, &entries), b"1.5"), Err(ScanError::ConstantNotFound));
}

#[test]
fn declared_count_of_one_reads_no_entry() {
    let bytes = class_file(1, &[fixed(0, 3)]);
    assert_eq!(scan(&bytes, b"1.5"), Err(ScanError::ConstantNotFound));
    assert_eq!(scan(&header(1), b"1.5"), Err(ScanError::ConstantNotFound));
}

#[test]
fn declared_count_of_zero_wraps_round() {
    assert_eq!(scan(&header(0), b"1.5"), Err(ScanError::MalformedConstantPool));
    let bytes = class_file(0, &[utf8(b"a"), utf8(b"1.5")]);
    assert_eq!(scan(&bytes, b"1.5"), Ok(19));
}

#[test]
fn eight_byte_entry_counts_once() {
    let entries = [fixed(5, 8), fixed(6, 8), utf8(b"1.5")];
    assert_eq!(scan(&class_file(4, &entries), b"1.5"), Ok(33));
    assert_eq!(scan(&class_file(3, &entries), b"1.5"), Err(ScanError::ConstantNotFound));
}

#[test]
fn large_pool_is_walked_to_its_end() {
    let mut entries = Vec::new();
    for _ in 0..65533 {
        entries.push(fixed(7, 2));
    }
    entries.push(utf8(b"1.5"));
    let bytes = class_file(65535, &entries);
    assert_eq!(scan(&bytes, b"1.5"), Ok(10 + 65533 * 3 + 3 + 2));
}

#[test]
fn content_of_full_length_is_skipped() {
    let big = vec![b'1'; 65535];
    let bytes = class_file(3, &[utf8(&big), utf8(b"1.5")]);
    assert_eq!(scan(&bytes, b"1.5"), Ok(10 + 3 + 65535 + 3 + 2));
    assert_eq!(scan(&bytes, &big), Ok(10 + 3 + 65535 - 1));
}

#[test]
fn target_too_long_for_any_entry_is_not_found() {
    let huge = vec![b'x'; 65536];
    let bytes = class_file(2, &[utf8(b"")]);
    assert_eq!(scan(&bytes, &huge), Err(ScanError::ConstantNotFound));
}

#[test]
fn empty_target_has_no_byte_to_overwrite() {
    let bytes = class_file(3, &[utf8(b"a"), utf8(b"")]);
    assert_eq!(find_constant(&bytes, b""), Ok(17));
    assert_eq!(scan(&bytes, b""), Err(ScanError::ConstantNotFound));
    let bad = class_file(2, &[fixed(0, 1)]);
    assert_eq!(scan(&bad, b""), Err(ScanError::MalformedConstantPool));
}

#[test]
fn scanning_changes_nothing() {
    let bytes = class_file(3, &[fixed(9, 4), utf8(b"1.5")]);
    let before = bytes.clone();
    let _ = scan(&bytes, b"1.5");
    assert_eq!(bytes, before);
}

#[test]
fn marker_is_one_point_five() {
    assert_eq!(marker(), b"1.5".to_vec());
    assert_eq!(marker(), vec![0x31, 0x2e, 0x35]);
}

#[test]
fn big_endian_numbers() {
    assert_eq!(be_u16(0, 0), 0);
    assert_eq!(be_u16(0, 3), 3);
    assert_eq!(be_u16(1, 0), 256);
    assert_eq!(be_u16(0x12, 0x34), 0x1234);
    assert_eq!(be_u16(0xFF, 0xFF), 65535);
}

#[test]
fn tag_table() {
    for tag in [3u8, 4, 9, 10, 11, 12] {
        assert_eq!(fixed_entry(tag), Some(ConstantPoolEntry::FourByteValue));
    }
    for tag in [5u8, 6] {
        assert_eq!(fixed_entry(tag), Some(ConstantPoolEntry::EightByteValue));
    }
    for tag in [7u8, 8] {
        assert_eq!(fixed_entry(tag), Some(ConstantPoolEntry::TwoByteValue));
    }
    assert_eq!(fixed_entry(1), None);
}

#[test]
fn entry_lengths() {
    assert_eq!(ConstantPoolEntry::FourByteValue.payload_len(), 4);
    assert_eq!(ConstantPoolEntry::EightByteValue.payload_len(), 8);
    assert_eq!(ConstantPoolEntry::TwoByteValue.payload_len(), 2);
    assert_eq!(ConstantPoolEntry::Utf8 { declared_length: 0 }.payload_len(), 2);
    assert_eq!(ConstantPoolEntry::Utf8 { declared_length: 3 }.payload_len(), 5);
    assert_eq!(ConstantPoolEntry::Utf8 { declared_length: 65535 }.encoded_len(), 65538);
    assert_eq!(ConstantPoolEntry::FourByteValue.encoded_len(), 5);
    assert_eq!(ConstantPoolEntry::EightByteValue.encoded_len(), 9);
    assert_eq!(ConstantPoolEntry::TwoByteValue.encoded_len(), 3);
}

#[test]
fn reading_one_entry() {
    let bytes = [1u8, 0, 2, b'h', b'i', 7, 0, 9, 5, 0, 0];
    assert_eq!(entry_at(&bytes, 0), Some(ConstantPoolEntry::Utf8 { declared_length: 2 }));
    assert_eq!(entry_at(&bytes, 5), Some(ConstantPoolEntry::TwoByteValue));
    assert_eq!(entry_at(&bytes, 8), None);
    assert_eq!(entry_at(&bytes, 11), None);
    assert_eq!(entry_at(&bytes, 100), None);
    assert_eq!(entry_at(&bytes, 3), None);
    assert_eq!(entry_at(&bytes[..4], 0), None);
    assert_eq!(entry_at(&bytes[..2], 0), None);
}

#[test]
fn comparing_content() {
    let bytes = b"..1.5..";
    assert!(content_equals(bytes, 2, b"1.5"));
    assert!(!content_equals(bytes, 1, b"1.5"));
    assert!(content_equals(bytes, 7, b""));
    assert!(!content_equals(bytes, 4, b"5.,"));
    assert!(!content_equals(bytes, 5, b"..."));
    assert!(!content_equals(bytes, 8, b""));
    assert!(!content_equals(bytes, usize::MAX, b"1.5"));
}

#[test]
fn entry_holds_only_equal_content() {
    let bytes = [1u8, 0, 3, b'1', b'.', b'5', 3, 0, 0, 0, 0];
    assert!(entry_holds(&bytes, 0, b"1.5"));
    assert!(!entry_holds(&bytes, 0, b"1.7"));
    assert!(!entry_holds(&bytes, 0, b"1."));
    assert!(!entry_holds(&bytes, 6, b"\0\0\0\0"));
    assert!(!entry_holds(&bytes, 11, b"1.5"));
    assert!(!entry_holds(&bytes[..5], 0, b"1.5"));
}

#[test]
fn error_messages() {
    assert_eq!(ScanError::NotAClassFile.message(), "not a class file: magic mismatch");
    assert_eq!(
        ScanError::MalformedConstantPool.message(),
        "malformed constant pool: unrecognized tag or pool ended prematurely"
    );
    assert_eq!(ScanError::ConstantNotFound.message(), "constant not found");
}
