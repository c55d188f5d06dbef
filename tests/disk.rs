use dumbfs::disk::Disk;
use dumbfs::error::FsError;

#[test]
fn test_disk_size() {
    let disk = Disk::new(4 * 1024 * 1024 * 1024);
    assert_eq!(disk.size(), 4 * 1024 * 1024 * 1024);
}

#[test]
fn test_read_write() {
    let mut disk = Disk::new(4096);
    disk.write_at(0, &[0x69, 0x96, 0x55, 0xAA]).unwrap();
    let result = disk.read_at(0, 4).unwrap();
    assert_eq!(result, [0x69, 0x96, 0x55, 0xAA]);
}

#[test]
fn test_disk() {
    let mut disk = Disk::new(4096);
    disk.write_at(0, b"hello world").unwrap();
    let result = disk.read_at(6, 5).unwrap();
    assert_eq!(&result, b"world");
}

#[test]
fn write_past_end_fills_gap_with_zeros() {
    let mut disk = Disk::new(64);
    disk.write_at(4, &[7, 8]).unwrap();
    assert_eq!(disk.len(), 6);
    assert_eq!(disk.image(), &[0, 0, 0, 0, 7, 8]);
}

#[test]
fn write_past_capacity_is_io_error() {
    let mut disk = Disk::new(8);
    assert_eq!(disk.write_at(5, &[1, 2, 3, 4]), Err(FsError::IoError));
    assert_eq!(disk.len(), 0);
    assert_eq!(disk.write_at(4, &[1, 2, 3, 4]), Ok(()));
}

#[test]
fn read_past_end_is_io_error() {
    let mut disk = Disk::new(64);
    disk.write_at(0, b"abc").unwrap();
    assert_eq!(disk.read_at(1, 3), Err(FsError::IoError));
    assert_eq!(disk.read_at(1, 2).unwrap(), b"bc".to_vec());
}

#[test]
fn image_keeps_its_bytes() {
    let disk = Disk::from_image(vec![1, 2, 3], 2);
    assert_eq!(disk.size(), 3);
    assert_eq!(disk.image(), &[1, 2, 3]);
}
