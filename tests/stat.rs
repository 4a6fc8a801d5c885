use uspace_fs::stat::{fstat_result, statx_check, statx_result, BackendStat, Kstat, StatX, AT_EMPTY_PATH, KSTAT_SIZE, STATX_SIZE};

fn backend() -> BackendStat {
    BackendStat {
        st_dev: 3,
        st_ino: 42,
        st_mode: 0o100644,
        st_nlink: 2,
        st_uid: 1000,
        st_gid: 100,
        st_rdev: 9,
        st_size: 1234,
        st_blksize: 512,
        st_blocks: 3,
        st_atime_sec: 11,
        st_atime_nsec: 12,
        st_mtime_sec: 21,
        st_mtime_nsec: 22,
        st_ctime_sec: -31,
        st_ctime_nsec: 32,
    }
}

fn u64_at(b: &[u8], pos: usize) -> u64 {
    let mut v = [0u8; 8];
    v.copy_from_slice(&b[pos..pos + 8]);
    u64::from_le_bytes(v)
}

fn u32_at(b: &[u8], pos: usize) -> u32 {
    u32::from_le_bytes([b[pos], b[pos + 1], b[pos + 2], b[pos + 3]])
}

#[test]
fn kstat_copies_every_field() {
    let k = Kstat::from(backend());
    assert_eq!(k.st_dev, 3);
    assert_eq!(k.st_ino, 42);
    assert_eq!(k.st_mode, 0o100644);
    assert_eq!(k.st_nlink, 2);
    assert_eq!(k.st_uid, 1000);
    assert_eq!(k.st_gid, 100);
    assert_eq!(k.st_rdev, 9);
    assert_eq!(k._pad0, 0);
    assert_eq!(k.st_size, 1234);
    assert_eq!(k.st_blksize, 512);
    assert_eq!(k._pad1, 0);
    assert_eq!(k.st_blocks, 3);
    assert_eq!((k.st_atime_sec, k.st_atime_nsec), (11, 12));
    assert_eq!((k.st_mtime_sec, k.st_mtime_nsec), (21, 22));
    assert_eq!((k.st_ctime_sec, k.st_ctime_nsec), (-31, 32));
}

#[test]
fn kstat_bytes_layout() {
    let b = Kstat::from(backend()).to_bytes();
    assert_eq!(b.len(), KSTAT_SIZE);
    assert_eq!(u64_at(&b, 0), 3);
    assert_eq!(u64_at(&b, 8), 42);
    assert_eq!(u32_at(&b, 16), 0o100644);
    assert_eq!(u32_at(&b, 20), 2);
    assert_eq!(u32_at(&b, 24), 1000);
    assert_eq!(u32_at(&b, 28), 100);
    assert_eq!(u64_at(&b, 32), 9);
    assert_eq!(&b[40..48], &[0u8; 8]);
    assert_eq!(u64_at(&b, 48), 1234);
    assert_eq!(u32_at(&b, 56), 512);
    assert_eq!(&b[60..64], &[0u8; 4]);
    assert_eq!(u64_at(&b, 64), 3);
    assert_eq!(u64_at(&b, 72), 11);
    assert_eq!(u64_at(&b, 80), 12);
    assert_eq!(u64_at(&b, 88), 21);
    assert_eq!(u64_at(&b, 96), 22);
    assert_eq!(u64_at(&b, 104) as i64, -31);
    assert_eq!(u64_at(&b, 112), 32);
}

#[test]
fn kstat_narrows_negative_size_as_a_cast() {
    let mut s = backend();
    s.st_size = -1;
    s.st_blksize = 0x1_0000_0200;
    let k = Kstat::from(s);
    assert_eq!(k.st_size, u64::MAX);
    assert_eq!(k.st_blksize, 0x200);
}

#[test]
fn statx_fills_the_descriptor_fields() {
    let x = StatX::from_stat(&backend());
    assert_eq!(x.stx_mask, 0);
    assert_eq!(x.stx_blksize, 512);
    assert_eq!(x.stx_attributes, 0);
    assert_eq!(x.stx_nlink, 2);
    assert_eq!(x.stx_uid, 1000);
    assert_eq!(x.stx_gid, 100);
    assert_eq!(x.stx_mode, 0o100644u32 as u16);
    assert_eq!(x.stx_ino, 42);
    assert_eq!(x.stx_size, 1234);
    assert_eq!(x.stx_blocks, 3);
    assert_eq!(x.stx_attributes_mask, 0);
    assert_eq!((x.stx_atime.tv_sec, x.stx_atime.tv_nsec), (11, 12));
    assert_eq!((x.stx_btime.tv_sec, x.stx_btime.tv_nsec), (0, 0));
    assert_eq!((x.stx_ctime.tv_sec, x.stx_ctime.tv_nsec), (-31, 32));
    assert_eq!((x.stx_mtime.tv_sec, x.stx_mtime.tv_nsec), (21, 22));
    assert_eq!((x.stx_rdev_major, x.stx_rdev_minor, x.stx_dev_major, x.stx_dev_minor), (0, 0, 0, 0));
    assert_eq!(x.stx_mnt_id, 0);
    assert_eq!((x.stx_dio_mem_align, x.stx_dio_offset_align), (0, 0));
}

#[test]
fn statx_bytes_layout() {
    let b = StatX::from_stat(&backend()).to_bytes();
    assert_eq!(b.len(), STATX_SIZE);
    assert_eq!(u32_at(&b, 4), 512);
    assert_eq!(u64_at(&b, 8), 0);
    assert_eq!(u32_at(&b, 16), 2);
    assert_eq!(u16::from_le_bytes([b[28], b[29]]), 0o100644u32 as u16);
    assert_eq!(u64_at(&b, 32), 42);
    assert_eq!(u64_at(&b, 40), 1234);
    assert_eq!(u64_at(&b, 56), 0);
    assert_eq!(u64_at(&b, 64), 11);
    assert_eq!(u32_at(&b, 72), 12);
    assert_eq!(u64_at(&b, 96) as i64, -31);
    assert_eq!(u64_at(&b, 112), 21);
    assert_eq!(&b[128..], &[0u8; 32]);
}

#[test]
fn statx_with_a_path_is_not_implemented() {
    assert_eq!(statx_check(b"/etc/passwd", AT_EMPTY_PATH), Err(-38));
    assert_eq!(statx_check(b"x", 0), Err(-38));
}

#[test]
fn statx_empty_path_without_flag_is_einval() {
    assert_eq!(statx_check(b"", 0), Err(-22));
    assert_eq!(statx_check(b"", 0x100), Err(-22));
}

#[test]
fn statx_empty_path_with_flag_goes_by_descriptor() {
    assert_eq!(statx_check(b"", AT_EMPTY_PATH), Ok(()));
    assert_eq!(statx_result(Ok(backend())), Ok(StatX::from_stat(&backend())));
    assert_eq!(statx_result(Err(-9)), Err(-9));
}

#[test]
fn fstat_result_converts_or_fails_with_minus_one() {
    assert_eq!(fstat_result(Ok(backend())), Ok(Kstat::from(backend())));
    assert_eq!(fstat_result(Err(-9)), Err(-1));
}
