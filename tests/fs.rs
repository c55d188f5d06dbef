use dumbfs::codec::{FileTypeDump, Timestamp};
use dumbfs::disk::Disk;
use dumbfs::error::FsError;
use dumbfs::fs::DumbFS;
use dumbfs::meta::{DumbFsMeta, MAGIC};
use dumbfs::node::File;

const NOW: Timestamp = Timestamp { secs: 1_600_000_000, nanos: 5 };

fn empty_fs() -> DumbFS {
    let mut fs = DumbFS::new(Disk::new(1 << 20));
    fs.init_at(NOW).unwrap();
    fs
}

fn create_test_img() -> DumbFS {
    let mut fs = empty_fs();
    fs.create_node(1, "dir1", FileTypeDump::Directory, NOW).unwrap();
    fs.create_node(1, "dir2", FileTypeDump::Directory, NOW).unwrap();
    let (_, hello) = fs.create_node(1, "hello.txt", FileTypeDump::RegularFile, NOW).unwrap();
    let (_, bye) = fs.create_node(1, "bye.txt", FileTypeDump::RegularFile, NOW).unwrap();
    let fh = fs.open(hello.ino).unwrap();
    fs.write(fh, 0, b"hello world\n").unwrap();
    fs.release(fh).unwrap();
    let fh = fs.open(bye.ino).unwrap();
    fs.write(fh, 0, b"goodbye world\n").unwrap();
    fs.release(fh).unwrap();
    fs
}

fn names(fs: &DumbFS, ino: u64) -> Vec<String> {
    fs.readdir(ino, 0).unwrap().into_iter().map(|e| e.name).collect()
}

#[test]
fn f() {
    create_test_img();
}

#[test]
fn test_iterate() {
    let fs = create_test_img();
    let disk = fs.disk();
    let root = File::new(512);
    let children = root.children(disk).unwrap();
    assert_eq!(children.len(), 4);
    assert_eq!(children[0].header(disk).unwrap().filename, "dir1");
    assert_eq!(children[3].header(disk).unwrap().filename, "bye.txt");
    assert_eq!(
        children[1].header(disk).unwrap().fixed_sized_part.file_attr.kind,
        FileTypeDump::Directory
    );
    assert_eq!(
        children[2].header(disk).unwrap().fixed_sized_part.file_attr.kind,
        FileTypeDump::RegularFile
    );
}

#[test]
fn test_dumb_fs_iterator() {
    let mut fs = empty_fs();
    fs.mkdir(1, "dir1").unwrap();
    fs.mkdir(1, "dir2").unwrap();
    let inos: Vec<u64> = fs.readdir(1, 0).unwrap().iter().map(|e| e.ino).collect();
    assert_eq!(inos.len(), 2);
    assert!(inos.iter().any(|&it| it == 2));
    assert!(inos.iter().any(|&it| it == 3));
}

#[test]
fn initialized_image_layout() {
    let fs = empty_fs();
    let meta = fs.meta();
    assert_eq!(meta, DumbFsMeta { magic: MAGIC, next_ino: 2, next_free_address: 1024 });
    let root = fs.getattr(1).unwrap();
    assert_eq!(root.ino, 1);
    assert_eq!(root.size, 0);
    assert_eq!(root.kind, FileTypeDump::Directory);
    assert_eq!(root.crtime, NOW);
    assert_eq!(File::new(512).header(fs.disk()).unwrap().filename, "");
    assert_eq!(DumbFsMeta::load(fs.disk()), Ok(meta));
}

#[test]
fn children_keep_creation_order() {
    let mut fs = empty_fs();
    let (d, dir) = fs.create_node(1, "d", FileTypeDump::Directory, NOW).unwrap();
    let (c1, _) = fs.create_node(dir.ino, "c1", FileTypeDump::RegularFile, NOW).unwrap();
    let (c2, _) = fs.create_node(dir.ino, "c2", FileTypeDump::Directory, NOW).unwrap();
    let (c3, _) = fs.create_node(dir.ino, "c3", FileTypeDump::RegularFile, NOW).unwrap();
    let kids: Vec<u64> = d.children(fs.disk()).unwrap().iter().map(|f| f.address()).collect();
    assert_eq!(kids, vec![c1.address(), c2.address(), c3.address()]);
    assert_eq!(names(&fs, dir.ino), vec!["c1", "c2", "c3"]);
}

#[test]
fn hello_content_round_trip() {
    let mut fs = empty_fs();
    let (fh, attr) = fs.create(1, "hello.txt", FileTypeDump::RegularFile).unwrap();
    assert_eq!(fs.write(fh, 0, &[0x68, 0x65, 0x6C, 0x6C, 0x6F]), Ok(5));
    assert_eq!(fs.read(fh, 0, 5).unwrap(), vec![0x68, 0x65, 0x6C, 0x6C, 0x6F]);
    assert_eq!(fs.getattr(attr.ino).unwrap().size, 5);
    assert_eq!(fs.fsync(fh), Ok(()));
    assert_eq!(fs.release(fh), Ok(()));
    assert_eq!(fs.read(fh, 0, 5), Err(FsError::IoError));
}

#[test]
fn lookup_by_name() {
    let mut fs = empty_fs();
    let created = fs.mkdir(1, "dir1").unwrap();
    let found = fs.lookup(1, "dir1").unwrap();
    assert_eq!(found.ino, created.ino);
    assert_eq!(fs.lookup(1, "missing"), Err(FsError::NotFound));
    let root = File::new(512);
    let node = fs.find_by_name(&root, "dir1").unwrap();
    assert_eq!(node.header(fs.disk()).unwrap().fixed_sized_part.file_attr.ino, created.ino);
    assert!(matches!(fs.find_by_name(&root, "missing"), Err(FsError::NotFound)));
}

#[test]
fn first_of_equal_names_wins() {
    let mut fs = empty_fs();
    let first = fs.mkdir(1, "same").unwrap();
    let second = fs.mkdir(1, "same").unwrap();
    assert_ne!(first.ino, second.ino);
    assert_eq!(fs.lookup(1, "same").unwrap().ino, first.ino);
}

#[test]
fn end_to_end_listing() {
    let mut fs = empty_fs();
    let dir1 = fs.mkdir(1, "dir1").unwrap();
    fs.mkdir(1, "dir2").unwrap();
    fs.create_node(dir1.ino, "file1.txt", FileTypeDump::RegularFile, NOW).unwrap();
    let root = fs.readdir(1, 0).unwrap();
    assert_eq!(root.len(), 2);
    assert_eq!(root[0].name, "dir1");
    assert_eq!(root[1].name, "dir2");
    assert_eq!(root[0].offset, 1);
    assert_eq!(root[1].offset, 2);
    assert_eq!(root[1].kind, FileTypeDump::Directory);
    let inside = fs.readdir(dir1.ino, 0).unwrap();
    assert_eq!(inside.len(), 1);
    assert_eq!(inside[0].name, "file1.txt");
    assert_eq!(inside[0].kind, FileTypeDump::RegularFile);
    assert_eq!(fs.readdir(1, 1).unwrap().len(), 1);
    assert_eq!(fs.readdir(1, 5).unwrap().len(), 0);
}

#[test]
fn find_file_searches_depth_first() {
    let mut fs = empty_fs();
    let a = fs.mkdir(1, "a").unwrap();
    let b = fs.mkdir(a.ino, "b").unwrap();
    let (c, _) = fs.create_node(b.ino, "c", FileTypeDump::RegularFile, NOW).unwrap();
    let found = fs.find_file(4).unwrap();
    assert_eq!(found.address(), c.address());
    assert!(matches!(fs.find_file(99), Err(FsError::NotFound)));
    assert_eq!(fs.find_file_with_root(1, File::new(512)).unwrap().address(), 512);
}

#[test]
fn create_errors() {
    let mut fs = empty_fs();
    let (_, file) = fs.create_node(1, "f", FileTypeDump::RegularFile, NOW).unwrap();
    assert_eq!(
        fs.create_node(file.ino, "x", FileTypeDump::RegularFile, NOW).map(|p| p.1),
        Err(FsError::NotADirectory)
    );
    assert_eq!(fs.mkdir(42, "x"), Err(FsError::NotFound));
    assert_eq!(fs.readdir(file.ino, 0).map(|v| v.len()), Err(FsError::NotADirectory));
    assert_eq!(fs.getattr(42), Err(FsError::NotFound));
    assert_eq!(fs.open(42), Err(FsError::NotFound));
    assert_eq!(fs.release(77), Err(FsError::IoError));
    assert_eq!(fs.releasedir(77), Err(FsError::IoError));
    assert_eq!(fs.fsync(77), Err(FsError::IoError));
}

#[test]
fn create_beyond_capacity_is_io_error() {
    let mut fs = DumbFS::new(Disk::new(1100));
    fs.init_at(NOW).unwrap();
    assert_eq!(fs.mkdir(1, "dir1"), Err(FsError::IoError));
    let mut small = DumbFS::new(Disk::new(600));
    assert_eq!(small.init_at(NOW), Err(FsError::IoError));
}

#[test]
fn exhausted_counters_are_no_space() {
    let mut disk = Disk::new(1 << 16);
    let mut fs = DumbFS::new(Disk::new(1 << 16));
    fs.init_at(NOW).unwrap();
    let image = fs.into_disk();
    disk.write_at(0, image.image()).unwrap();
    let meta = DumbFsMeta { magic: MAGIC, next_ino: u64::MAX, next_free_address: 1024 };
    meta.sync(&mut disk).unwrap();
    let mut fs = DumbFS::new(disk);
    fs.init_at(NOW).unwrap();
    assert_eq!(fs.mkdir(1, "x"), Err(FsError::NoSpace));
    assert_eq!(fs.acquire_next_ino(), Err(FsError::NoSpace));
}

#[test]
fn corrupt_root_is_detected() {
    let mut disk = Disk::new(4096);
    DumbFsMeta::default().sync(&mut disk).unwrap();
    disk.write_at(512, &[0xFF; 200]).unwrap();
    let mut fs = DumbFS::new(disk);
    fs.init_at(NOW).unwrap();
    assert_eq!(fs.getattr(1), Err(FsError::CorruptionError));
    assert_eq!(fs.mkdir(1, "x"), Err(FsError::CorruptionError));
}

#[test]
fn remount_resumes_and_garbage_reinitializes() {
    let mut fs = empty_fs();
    fs.mkdir(1, "kept").unwrap();
    let disk = fs.into_disk();
    let mut again = DumbFS::new(disk);
    again.init().unwrap();
    assert_eq!(again.lookup(1, "kept").unwrap().ino, 2);
    assert_eq!(again.meta().next_ino, 3);

    let mut garbage = Disk::new(1 << 16);
    garbage.write_at(0, &[1, 2, 3, 4, 5, 6, 7, 8]).unwrap();
    let mut fresh = DumbFS::new(garbage);
    fresh.init().unwrap();
    assert_eq!(fresh.meta().next_ino, 2);
    assert_eq!(fresh.readdir(1, 0).unwrap().len(), 0);
}

#[test]
fn allocator_persists_every_step() {
    let mut fs = empty_fs();
    let a = fs.reserve(1).unwrap();
    let b = fs.reserve(600).unwrap();
    let c = fs.reserve(10).unwrap();
    assert_eq!((a, b, c), (1024, 1536, 2560));
    assert_eq!(DumbFsMeta::load(fs.disk()).unwrap().next_free_address, 3072);
    let i = fs.acquire_next_ino().unwrap();
    let j = fs.acquire_next_ino().unwrap();
    assert_eq!((i, j), (2, 3));
    assert_eq!(DumbFsMeta::load(fs.disk()).unwrap().next_ino, 4);
}

#[test]
fn handles_are_distinct() {
    let mut fs = empty_fs();
    let a = fs.open(1).unwrap();
    let b = fs.opendir(1).unwrap();
    assert_ne!(a, b);
    assert_eq!(fs.release(a), Ok(()));
    assert_eq!(fs.release(a), Err(FsError::IoError));
    assert_eq!(fs.releasedir(b), Ok(()));
}

#[test]
fn append_child_links_last() {
    let mut fs = empty_fs();
    let (x, _) = fs.create_node(1, "x", FileTypeDump::RegularFile, NOW).unwrap();
    let at = fs.reserve(200).unwrap();
    let mut disk_head = dumbfs::codec::FileHead::new();
    disk_head.filename = "y".to_string();
    disk_head.fixed_sized_part.file_attr.ino = fs.acquire_next_ino().unwrap();
    let kids_before = File::new(512).children(fs.disk()).unwrap().len();
    assert_eq!(kids_before, 1);
    let root = File::new(512);
    let mut disk = fs.into_disk();
    File::new(at).set_header(&mut disk, &disk_head).unwrap();
    let mut fs = DumbFS::new(disk);
    fs.init().unwrap();
    fs.append_child(&root, at).unwrap();
    let kids: Vec<u64> = root.children(fs.disk()).unwrap().iter().map(|f| f.address()).collect();
    assert_eq!(kids, vec![x.address(), at]);
}
