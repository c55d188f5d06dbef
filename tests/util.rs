use dumbfs::util::align;

#[test]
fn test_align() {
    assert_eq!(align(0, 512), 0);
    assert_eq!(align(127, 0), 127);
    assert_eq!(align(0u64, 512u64), 0);
    assert_eq!(align(0usize as u64, 512usize as u64), 0);
    assert_eq!(align(512, 512), 512);
    assert_eq!(align(128, 512), 512);
    assert_eq!(align(513, 512), 1024);
}

#[test]
fn align_rounds_to_block_multiples() {
    for n in [0u64, 1, 511, 512, 513, 1023, 1024, 4097, 1 << 40] {
        let a = align(n, 512);
        assert_eq!(a % 512, 0);
        assert!(a >= n);
        assert!(a < n + 512);
    }
    assert_eq!(align(1, 512), 512);
    assert_eq!(align(u64::MAX - 511, 512), u64::MAX - 511);
}
