use dumbfs::codec::{FileHead, FileTypeDump, Timestamp};
use dumbfs::disk::Disk;
use dumbfs::error::FsError;
use dumbfs::node::{File, FileBuilder};

fn put(disk: &mut Disk, at: u64, ino: u64, name: &str, first_child: u64, next_sibling: u64) {
    let mut head = FileHead::new();
    head.fixed_sized_part.file_attr.ino = ino;
    head.fixed_sized_part.first_child = first_child;
    head.fixed_sized_part.next_sibling = next_sibling;
    head.filename = name.to_string();
    File::new(at).set_header(disk, &head).unwrap();
}

fn prepare_test_data() -> Disk {
    let mut disk = Disk::new(8192);
    put(&mut disk, 512, 1, "", 1024, 0);
    put(&mut disk, 1024, 2, "dir1", 2560, 1536);
    put(&mut disk, 1536, 3, "dir2", 0, 2048);
    put(&mut disk, 2048, 4, "file1.txt", 0, 0);
    put(&mut disk, 2560, 5, "file2.txt", 0, 0);
    disk
}

#[test]
fn test_file() {
    let mut disk = prepare_test_data();
    let root = File::new(512);
    let children = root.children(&disk).unwrap();
    assert_eq!(children.len(), 3);
    assert_eq!(children[2].header(&disk).unwrap().filename, "file1.txt");
    let children = children[0].children(&disk).unwrap();
    assert_eq!(children.len(), 1);
    assert_eq!(children[0].header(&disk).unwrap().filename, "file2.txt");
    children[0].write(&mut disk, 0, b"hello world").unwrap();
    let buffer = children[0].read_at(&disk, 6, 5).unwrap();
    assert_eq!(buffer[0], b'w');
}

#[test]
fn content_offset_follows_header() {
    let disk = prepare_test_data();
    assert_eq!(File::new(2048).content_address(&disk), Ok(2048 + 122 + 9));
    assert_eq!(File::new(512).content_address(&disk), Ok(512 + 122));
    assert_eq!(File::new(512).address(), 512);
}

#[test]
fn write_then_read_and_size() {
    let mut disk = prepare_test_data();
    let f = File::new(2048);
    f.write(&mut disk, 0, &[0x68, 0x65, 0x6C, 0x6C, 0x6F]).unwrap();
    assert_eq!(f.read_at(&disk, 0, 5).unwrap(), vec![0x68, 0x65, 0x6C, 0x6C, 0x6F]);
    assert_eq!(f.header(&disk).unwrap().fixed_sized_part.file_attr.size, 5);
    f.write(&mut disk, 1, b"E").unwrap();
    assert_eq!(f.read_at(&disk, 0, 5).unwrap(), b"hEllo".to_vec());
    assert_eq!(f.header(&disk).unwrap().fixed_sized_part.file_attr.size, 5);
    f.write(&mut disk, 10, b"!").unwrap();
    assert_eq!(f.header(&disk).unwrap().fixed_sized_part.file_attr.size, 11);
    assert_eq!(f.header(&disk).unwrap().filename, "file1.txt");
}

#[test]
fn read_beyond_size_is_raw_medium() {
    let mut disk = prepare_test_data();
    let f = File::new(1536);
    let after = f.read_at(&disk, 0, 4).unwrap();
    assert_eq!(after, vec![0, 0, 0, 0]);
    f.write(&mut disk, 0, b"xy").unwrap();
    assert_eq!(f.read_at(&disk, 0, 4).unwrap(), b"xy\0\0".to_vec());
}

#[test]
fn corrupt_records() {
    let mut disk = prepare_test_data();
    disk.write_at(4000, &[0xFF; 130]).unwrap();
    assert!(matches!(File::new(4000).header(&disk), Err(FsError::CorruptionError)));
    assert!(matches!(File::new(8000).header(&disk), Err(FsError::CorruptionError)));
    assert!(matches!(File::new(4000).children(&disk), Err(FsError::CorruptionError)));
    assert_eq!(File::new(4000).read_at(&disk, 0, 1), Err(FsError::CorruptionError));
}

#[test]
fn sibling_cycle_is_bounded() {
    let mut disk = Disk::new(4096);
    put(&mut disk, 512, 1, "", 1024, 0);
    put(&mut disk, 1024, 2, "a", 0, 1536);
    put(&mut disk, 1536, 3, "b", 0, 1024);
    assert!(matches!(File::new(512).children(&disk), Err(FsError::CorruptionError)));
}

#[test]
fn content_write_past_capacity_is_io_error() {
    let mut disk = prepare_test_data();
    let f = File::new(2560);
    assert_eq!(f.write(&mut disk, 8192, b"x"), Err(FsError::IoError));
    assert_eq!(f.header(&disk).unwrap().fixed_sized_part.file_attr.size, 0);
    assert_eq!(f.read_at(&disk, 9000, 1), Err(FsError::IoError));
}

#[test]
fn kinds_are_kept() {
    let mut disk = prepare_test_data();
    let mut head = File::new(2048).header(&disk).unwrap();
    head.fixed_sized_part.file_attr.kind = FileTypeDump::RegularFile;
    File::new(2048).set_header(&mut disk, &head).unwrap();
    assert_eq!(
        File::new(2048).header(&disk).unwrap().fixed_sized_part.file_attr.kind,
        FileTypeDump::RegularFile
    );
}

#[test]
fn header_setters() {
    let mut disk = prepare_test_data();
    let f = File::new(2048);
    f.set_ino(&mut disk, 40).unwrap();
    f.set_next_sibling(&mut disk, 2560).unwrap();
    let h = f.header(&disk).unwrap();
    assert_eq!(h.fixed_sized_part.next_sibling, 2560);
    f.set_first_child(&mut disk, 1536).unwrap();
    f.set_file_type(&mut disk, FileTypeDump::Symlink).unwrap();
    f.set_name(&mut disk, "renamed").unwrap();
    let h = f.header(&disk).unwrap();
    assert_eq!(h.fixed_sized_part.file_attr.ino, 40);
    assert_eq!(h.fixed_sized_part.first_child, 1536);
    assert_eq!(h.fixed_sized_part.file_attr.kind, FileTypeDump::Symlink);
    assert_eq!(h.filename, "renamed");
    disk.write_at(4000, &[0xFF; 130]).unwrap();
    assert_eq!(File::new(4000).set_ino(&mut disk, 1), Err(FsError::CorruptionError));
}

#[test]
fn set_content_sizes_and_places_bytes() {
    let mut disk = prepare_test_data();
    let f = File::new(2048);
    f.set_content(&mut disk, b"hello world\n").unwrap();
    let h = f.header(&disk).unwrap();
    assert_eq!(h.fixed_sized_part.file_attr.size, 12);
    assert_eq!(h.fixed_sized_part.file_attr.blocks, 1);
    assert_eq!(f.read_at(&disk, 0, 12).unwrap(), b"hello world\n".to_vec());
    assert_eq!(f.next_chunk_start(&disk), Ok(2560));
    f.set_content(&mut disk, &[7u8; 400]).unwrap();
    assert_eq!(f.header(&disk).unwrap().fixed_sized_part.file_attr.blocks, 2);
    assert_eq!(f.next_chunk_start(&disk), Ok(3072));
    assert_eq!(f.set_content(&mut disk, &[0u8; 8192]), Err(FsError::IoError));
}

#[test]
fn later_siblings() {
    let disk = prepare_test_data();
    let sibs: Vec<u64> = File::new(1024).siblings(&disk).unwrap().iter().map(|f| f.address()).collect();
    assert_eq!(sibs, vec![1536, 2048]);
    assert_eq!(File::new(2048).siblings(&disk).unwrap().len(), 0);
}

#[test]
fn builder_assembles_header() {
    let now = Timestamp { secs: 99, nanos: 1 };
    let (file, head) = FileBuilder::new(4096)
        .ino(9)
        .filename("notes")
        .first_child(0)
        .next_sibling(512)
        .size(1000)
        .kind(FileTypeDump::RegularFile)
        .build(now)
        .unwrap();
    assert_eq!(file.address(), 4096);
    assert_eq!(head.filename, "notes");
    let a = head.fixed_sized_part.file_attr;
    assert_eq!((a.ino, a.size, a.kind), (9, 1000, FileTypeDump::RegularFile));
    assert_eq!(a.blocks, 3);
    assert_eq!(a.mtime, now);
    assert_eq!(head.fixed_sized_part.next_sibling, 512);
    assert!(matches!(FileBuilder::new(0).size(u64::MAX).build(now), Err(FsError::NoSpace)));
}
