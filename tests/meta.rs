use dumbfs::disk::Disk;
use dumbfs::error::FsError;
use dumbfs::meta::{DumbFsMeta, MAGIC};

#[test]
fn test_meta() {
    let mut disk = Disk::new(4096);
    let new_meta = DumbFsMeta::default();
    new_meta.sync(&mut disk).unwrap();
    let mut meta = DumbFsMeta::load(&disk).unwrap();
    assert_eq!(meta.next_free_address, 512);
    meta.next_free_address = 1024;
    assert_eq!(meta.acquire_next_ino(), 1);
    assert_eq!(meta.acquire_next_ino(), 2);
    meta.sync(&mut disk).unwrap();
    let mut meta = DumbFsMeta::load(&disk).unwrap();
    assert!(meta.valid());
    assert_eq!(meta.acquire_next_ino(), 3);
    assert_eq!(meta.next_free_address, 1024);
}

#[test]
fn reserve_returns_increasing_aligned_addresses() {
    let mut meta = DumbFsMeta::default();
    let mut last = None;
    for size in [1u64, 122, 512, 513, 4000, 7] {
        let a = meta.reserve(size);
        assert_eq!(a % 512, 0);
        if let Some(prev) = last {
            assert!(a > prev);
        }
        last = Some(a);
    }
    assert_eq!(meta.next_free_address, 512 + 512 + 512 + 512 + 1024 + 4096 + 512);
    let before = meta.next_free_address;
    assert_eq!(meta.reserve(0), before);
    assert_eq!(meta.next_free_address, before);
}

#[test]
fn inode_numbers_start_at_one() {
    let mut meta = DumbFsMeta::default();
    let inos: Vec<u64> = (0..5).map(|_| meta.acquire_next_ino()).collect();
    assert_eq!(inos, vec![1, 2, 3, 4, 5]);
}

#[test]
fn superblock_layout() {
    let meta = DumbFsMeta { magic: MAGIC, next_ino: 2, next_free_address: 1024 };
    let bytes = meta.encode();
    assert_eq!(bytes.len(), 20);
    assert_eq!(&bytes[..4], &[0x69, 0x96, 0x55, 0xAA]);
    assert_eq!(bytes, bincode::serialize(&(MAGIC, 2u64, 1024u64)).unwrap());
    assert_eq!(DumbFsMeta::decode(&bytes), Ok(meta));
}

#[test]
fn bad_or_missing_superblock_is_corruption() {
    let disk = Disk::new(4096);
    assert_eq!(DumbFsMeta::load(&disk), Err(FsError::CorruptionError));
    let mut disk = Disk::new(4096);
    let meta = DumbFsMeta { magic: 7, next_ino: 1, next_free_address: 512 };
    meta.sync(&mut disk).unwrap();
    assert_eq!(DumbFsMeta::load(&disk), Err(FsError::CorruptionError));
    assert!(!meta.valid());
    let mut tiny = Disk::new(10);
    assert_eq!(DumbFsMeta::default().sync(&mut tiny), Err(FsError::IoError));
}
