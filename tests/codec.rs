use std::time::UNIX_EPOCH;

use dumbfs::codec::{
    decode_name, FileAttrDump, FileHead, FileMetaFixedSizedPart, FileTypeDump, Timestamp,
};
use dumbfs::error::FsError;

fn sample_attr() -> FileAttrDump {
    let epoch = Timestamp { secs: 0, nanos: 0 };
    FileAttrDump {
        ino: 1,
        size: 1024,
        blocks: 2,
        atime: epoch,
        mtime: epoch,
        ctime: epoch,
        crtime: epoch,
        kind: FileTypeDump::RegularFile,
        perm: 0o777,
        nlink: 1,
        uid: 501,
        gid: 20,
        rdev: 0,
        flags: 0,
    }
}

#[test]
fn test_encode_decode() {
    let file_attr = sample_attr();
    let mut encoded: Vec<u8> = Vec::new();
    file_attr.encode(&mut encoded);
    assert_eq!(encoded.len(), 98);
    let decoded = FileAttrDump::decode(&encoded, 0).unwrap();
    assert_eq!(decoded.size, 1024);
}

#[test]
fn attributes_match_bincode_layout() {
    let mut encoded: Vec<u8> = Vec::new();
    sample_attr().encode(&mut encoded);
    let reference = bincode::serialize(&(
        1u64,
        1024u64,
        2u64,
        UNIX_EPOCH,
        UNIX_EPOCH,
        UNIX_EPOCH,
        UNIX_EPOCH,
        1u32,
        0o777u16,
        1u32,
        501u32,
        20u32,
        0u32,
        0u32,
    ))
    .unwrap();
    assert_eq!(encoded, reference);
}

#[test]
fn attributes_round_trip_every_field() {
    let a = FileAttrDump {
        ino: 0x0102_0304_0506_0708,
        size: u64::MAX,
        blocks: 77,
        atime: Timestamp { secs: 1, nanos: 2 },
        mtime: Timestamp { secs: 3, nanos: 999_999_999 },
        ctime: Timestamp { secs: u64::MAX, nanos: 5 },
        crtime: Timestamp { secs: 6, nanos: u32::MAX },
        kind: FileTypeDump::Symlink,
        perm: 0o644,
        nlink: 3,
        uid: 1000,
        gid: 1001,
        rdev: 9,
        flags: 0xdead_beef,
    };
    let mut bytes = vec![0xEE, 0xEE];
    a.encode(&mut bytes);
    assert_eq!(bytes.len(), 2 + 98);
    assert_eq!(FileAttrDump::decode(&bytes, 2), Ok(a));
    let mut other: Vec<u8> = Vec::new();
    sample_attr().encode(&mut other);
    assert_eq!(other.len(), 98);
}

#[test]
fn unknown_kind_is_corruption() {
    let mut bytes: Vec<u8> = Vec::new();
    sample_attr().encode(&mut bytes);
    bytes[72] = 3;
    assert_eq!(FileAttrDump::decode(&bytes, 0), Err(FsError::CorruptionError));
    assert_eq!(FileAttrDump::decode(&bytes[..97], 0), Err(FsError::CorruptionError));
}

#[test]
fn header_round_trip_and_size() {
    let mut head = FileHead::new();
    head.filename = "file1.txt".to_string();
    head.fixed_sized_part.first_child = 1024;
    head.fixed_sized_part.next_sibling = 2048;
    head.fixed_sized_part.file_attr.ino = 4;
    let mut bytes: Vec<u8> = Vec::new();
    head.serialize_into(&mut bytes);
    assert_eq!(head.serialize_size(), 122 + 9);
    assert_eq!(bytes.len() as u64, head.serialize_size());
    let back = FileHead::deserialize_from(&bytes).unwrap();
    assert_eq!(back.filename, "file1.txt");
    assert_eq!(back.fixed_sized_part, head.fixed_sized_part);
}

#[test]
fn name_matches_bincode_string() {
    let mut head = FileHead::new();
    head.filename = "dir1".to_string();
    let mut bytes: Vec<u8> = Vec::new();
    head.serialize_into(&mut bytes);
    let reference = bincode::serialize(&"dir1".to_string()).unwrap();
    assert_eq!(&bytes[114..], &reference[..]);
}

#[test]
fn blank_header_values() {
    let head = FileHead::new();
    let f: FileMetaFixedSizedPart = head.fixed_sized_part;
    assert_eq!(f.first_child, 0);
    assert_eq!(f.next_sibling, 0);
    assert_eq!(f.file_attr.kind, FileTypeDump::Directory);
    assert_eq!(f.file_attr.perm, 0o777);
    assert_eq!(head.filename, "");
    assert_eq!(head.serialize_size(), 122);
}

#[test]
fn malformed_name_is_corruption() {
    let mut head = FileHead::new();
    head.filename = "ab".to_string();
    let mut bytes: Vec<u8> = Vec::new();
    head.serialize_into(&mut bytes);
    bytes[122] = 0xFF;
    assert!(matches!(FileHead::deserialize_from(&bytes), Err(FsError::CorruptionError)));
    assert!(matches!(FileHead::deserialize_from(&bytes[..123]), Err(FsError::CorruptionError)));
    assert_eq!(decode_name(vec![0xC3, 0xA9]), Ok("é".to_string()));
    assert_eq!(decode_name(vec![0xC3]), Err(FsError::CorruptionError));
}
