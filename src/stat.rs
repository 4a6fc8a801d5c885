//! The `stat` and `statx` records that user programs read, built from the
//! backend's own status record and laid out byte by byte.

use crate::codec::{le_bytes, push_le};
use axerrno::LinuxError;
use vstd::prelude::*;

verus! {

/// `statx` flag: an empty path names the file that `dirfd` refers to.
pub const AT_EMPTY_PATH: u32 = 0x1000;

/// Size in bytes of an encoded `Kstat`.
pub const KSTAT_SIZE: usize = 120;

/// Size in bytes of an encoded `StatX`.
pub const STATX_SIZE: usize = 160;

/// The file-system backend's status record of a file.
#[derive(Debug, Clone, Copy, PartialEq, Eq, Structural)]
pub struct BackendStat {
    pub st_dev: u64,
    pub st_ino: u64,
    pub st_mode: u32,
    pub st_nlink: u32,
    pub st_uid: u32,
    pub st_gid: u32,
    pub st_rdev: u64,
    pub st_size: i64,
    pub st_blksize: i64,
    pub st_blocks: i64,
    pub st_atime_sec: i64,
    pub st_atime_nsec: i64,
    pub st_mtime_sec: i64,
    pub st_mtime_nsec: i64,
    pub st_ctime_sec: i64,
    pub st_ctime_nsec: i64,
}

/// The Linux `stat` record.
#[derive(Debug, Clone, Copy, PartialEq, Eq, Structural)]
pub struct Kstat {
    pub st_dev: u64,
    pub st_ino: u64,
    pub st_mode: u32,
    pub st_nlink: u32,
    pub st_uid: u32,
    pub st_gid: u32,
    pub st_rdev: u64,
    pub _pad0: u64,
    pub st_size: u64,
    pub st_blksize: u32,
    pub _pad1: u32,
    pub st_blocks: u64,
    pub st_atime_sec: isize,
    pub st_atime_nsec: isize,
    pub st_mtime_sec: isize,
    pub st_mtime_nsec: isize,
    pub st_ctime_sec: isize,
    pub st_ctime_nsec: isize,
}

/// Field-wise copy of the backend record, each value brought to the width
/// of its field, with the padding zero.
pub open spec fn kstat_of(s: BackendStat) -> Kstat {
    Kstat {
        st_dev: s.st_dev,
        st_ino: s.st_ino,
        st_mode: s.st_mode,
        st_nlink: s.st_nlink,
        st_uid: s.st_uid,
        st_gid: s.st_gid,
        st_rdev: s.st_rdev,
        _pad0: 0,
        st_size: s.st_size as u64,
        st_blksize: s.st_blksize as u32,
        _pad1: 0,
        st_blocks: s.st_blocks as u64,
        st_atime_sec: s.st_atime_sec as isize,
        st_atime_nsec: s.st_atime_nsec as isize,
        st_mtime_sec: s.st_mtime_sec as isize,
        st_mtime_nsec: s.st_mtime_nsec as isize,
        st_ctime_sec: s.st_ctime_sec as isize,
        st_ctime_nsec: s.st_ctime_nsec as isize,
    }
}

impl From<BackendStat> for Kstat {
    fn from(s: BackendStat) -> (r: Kstat)
        ensures
            r == kstat_of(s),
    {
        Kstat {
            st_dev: s.st_dev,
            st_ino: s.st_ino,
            st_mode: s.st_mode,
            st_nlink: s.st_nlink,
            st_uid: s.st_uid,
            st_gid: s.st_gid,
            st_rdev: s.st_rdev,
            _pad0: 0,
            st_size: s.st_size as u64,
            st_blksize: s.st_blksize as u32,
            _pad1: 0,
            st_blocks: s.st_blocks as u64,
            st_atime_sec: s.st_atime_sec as isize,
            st_atime_nsec: s.st_atime_nsec as isize,
            st_mtime_sec: s.st_mtime_sec as isize,
            st_mtime_nsec: s.st_mtime_nsec as isize,
            st_ctime_sec: s.st_ctime_sec as isize,
            st_ctime_nsec: s.st_ctime_nsec as isize,
        }
    }
}

impl vstd::std_specs::convert::FromSpecImpl<BackendStat> for Kstat {
    open spec fn obeys_from_spec() -> bool {
        true
    }

    open spec fn from_spec(s: BackendStat) -> Kstat {
        kstat_of(s)
    }
}

/// Bytes of a signed machine word, two's complement.
pub open spec fn word_bytes(v: int) -> Seq<u8> {
    le_bytes((v as u64) as nat, 8)
}

/// The `stat` record's bytes, fields in declared order, each at its natural
/// alignment.
pub open spec fn kstat_bytes(k: Kstat) -> Seq<u8> {
    le_bytes(k.st_dev as nat, 8) + le_bytes(k.st_ino as nat, 8) + le_bytes(k.st_mode as nat, 4)
        + le_bytes(k.st_nlink as nat, 4) + le_bytes(k.st_uid as nat, 4) + le_bytes(
        k.st_gid as nat,
        4,
    ) + le_bytes(k.st_rdev as nat, 8) + le_bytes(k._pad0 as nat, 8) + le_bytes(
        k.st_size as nat,
        8,
    ) + le_bytes(k.st_blksize as nat, 4) + le_bytes(k._pad1 as nat, 4) + le_bytes(
        k.st_blocks as nat,
        8,
    ) + word_bytes(k.st_atime_sec as int) + word_bytes(k.st_atime_nsec as int) + word_bytes(
        k.st_mtime_sec as int,
    ) + word_bytes(k.st_mtime_nsec as int) + word_bytes(k.st_ctime_sec as int) + word_bytes(
        k.st_ctime_nsec as int,
    )
}

impl Kstat {
    /// The record as user programs read it.
    pub fn to_bytes(&self) -> (r: Vec<u8>)
        ensures
            r@ == kstat_bytes(*self),
    {
        let mut out: Vec<u8> = Vec::new();
        push_le(&mut out, self.st_dev, 8);
        push_le(&mut out, self.st_ino, 8);
        push_le(&mut out, self.st_mode as u64, 4);
        push_le(&mut out, self.st_nlink as u64, 4);
        push_le(&mut out, self.st_uid as u64, 4);
        push_le(&mut out, self.st_gid as u64, 4);
        push_le(&mut out, self.st_rdev, 8);
        push_le(&mut out, self._pad0, 8);
        push_le(&mut out, self.st_size, 8);
        push_le(&mut out, self.st_blksize as u64, 4);
        push_le(&mut out, self._pad1 as u64, 4);
        push_le(&mut out, self.st_blocks, 8);
        push_le(&mut out, self.st_atime_sec as u64, 8);
        push_le(&mut out, self.st_atime_nsec as u64, 8);
        push_le(&mut out, self.st_mtime_sec as u64, 8);
        push_le(&mut out, self.st_mtime_nsec as u64, 8);
        push_le(&mut out, self.st_ctime_sec as u64, 8);
        push_le(&mut out, self.st_ctime_nsec as u64, 8);
        out
    }
}

/// A `statx` timestamp: seconds and nanoseconds.
#[derive(Debug, Clone, Copy, PartialEq, Eq, Structural)]
pub struct FsStatxTimestamp {
    pub tv_sec: i64,
    pub tv_nsec: u32,
}

/// The Linux `statx` record.
#[derive(Debug, Clone, Copy, PartialEq, Eq, Structural)]
pub struct StatX {
    pub stx_mask: u32,
    pub stx_blksize: u32,
    pub stx_attributes: u64,
    pub stx_nlink: u32,
    pub stx_uid: u32,
    pub stx_gid: u32,
    pub stx_mode: u16,
    pub stx_ino: u64,
    pub stx_size: u64,
    pub stx_blocks: u64,
    pub stx_attributes_mask: u64,
    pub stx_atime: FsStatxTimestamp,
    pub stx_btime: FsStatxTimestamp,
    pub stx_ctime: FsStatxTimestamp,
    pub stx_mtime: FsStatxTimestamp,
    pub stx_rdev_major: u32,
    pub stx_rdev_minor: u32,
    pub stx_dev_major: u32,
    pub stx_dev_minor: u32,
    pub stx_mnt_id: u64,
    pub stx_dio_mem_align: u32,
    pub stx_dio_offset_align: u32,
}

pub open spec fn timestamp_of(sec: i64, nsec: i64) -> FsStatxTimestamp {
    FsStatxTimestamp { tv_sec: sec, tv_nsec: nsec as u32 }
}

/// The fields of a `statx` record that the backend's status gives (size,
/// inode, owner, mode, link count, block size and count, access, change and
/// modification times); the mask, attribute, birth-time, device, mount and
/// direct-I/O fields stay zero.
pub open spec fn statx_of(s: BackendStat) -> StatX {
    StatX {
        stx_mask: 0,
        stx_blksize: s.st_blksize as u32,
        stx_attributes: 0,
        stx_nlink: s.st_nlink,
        stx_uid: s.st_uid,
        stx_gid: s.st_gid,
        stx_mode: s.st_mode as u16,
        stx_ino: s.st_ino,
        stx_size: s.st_size as u64,
        stx_blocks: s.st_blocks as u64,
        stx_attributes_mask: 0,
        stx_atime: timestamp_of(s.st_atime_sec, s.st_atime_nsec),
        stx_btime: FsStatxTimestamp { tv_sec: 0, tv_nsec: 0 },
        stx_ctime: timestamp_of(s.st_ctime_sec, s.st_ctime_nsec),
        stx_mtime: timestamp_of(s.st_mtime_sec, s.st_mtime_nsec),
        stx_rdev_major: 0,
        stx_rdev_minor: 0,
        stx_dev_major: 0,
        stx_dev_minor: 0,
        stx_mnt_id: 0,
        stx_dio_mem_align: 0,
        stx_dio_offset_align: 0,
    }
}

/// A timestamp's bytes: seconds, nanoseconds, four bytes of padding.
pub open spec fn timestamp_bytes(t: FsStatxTimestamp) -> Seq<u8> {
    le_bytes((t.tv_sec as u64) as nat, 8) + le_bytes(t.tv_nsec as nat, 4) + le_bytes(0, 4)
}

/// The `statx` record's bytes, fields in declared order, each at its
/// natural alignment.
pub open spec fn statx_bytes(x: StatX) -> Seq<u8> {
    le_bytes(x.stx_mask as nat, 4) + le_bytes(x.stx_blksize as nat, 4) + le_bytes(
        x.stx_attributes as nat,
        8,
    ) + le_bytes(x.stx_nlink as nat, 4) + le_bytes(x.stx_uid as nat, 4) + le_bytes(
        x.stx_gid as nat,
        4,
    ) + le_bytes(x.stx_mode as nat, 2) + le_bytes(0, 2) + le_bytes(x.stx_ino as nat, 8)
        + le_bytes(x.stx_size as nat, 8) + le_bytes(x.stx_blocks as nat, 8) + le_bytes(
        x.stx_attributes_mask as nat,
        8,
    ) + timestamp_bytes(x.stx_atime) + timestamp_bytes(x.stx_btime) + timestamp_bytes(
        x.stx_ctime,
    ) + timestamp_bytes(x.stx_mtime) + le_bytes(x.stx_rdev_major as nat, 4) + le_bytes(
        x.stx_rdev_minor as nat,
        4,
    ) + le_bytes(x.stx_dev_major as nat, 4) + le_bytes(x.stx_dev_minor as nat, 4) + le_bytes(
        x.stx_mnt_id as nat,
        8,
    ) + le_bytes(x.stx_dio_mem_align as nat, 4) + le_bytes(x.stx_dio_offset_align as nat, 4)
}

fn push_timestamp(out: &mut Vec<u8>, t: FsStatxTimestamp)
    ensures
        final(out)@ == old(out)@ + timestamp_bytes(t),
{
    push_le(out, t.tv_sec as u64, 8);
    push_le(out, t.tv_nsec as u64, 4);
    push_le(out, 0, 4);
    assert(final(out)@ =~= old(out)@ + timestamp_bytes(t));
}

impl StatX {
    /// The record for a file whose backend status is `s`.
    pub fn from_stat(s: &BackendStat) -> (r: StatX)
        ensures
            r == statx_of(*s),
    {
        StatX {
            stx_mask: 0,
            stx_blksize: s.st_blksize as u32,
            stx_attributes: 0,
            stx_nlink: s.st_nlink,
            stx_uid: s.st_uid,
            stx_gid: s.st_gid,
            stx_mode: s.st_mode as u16,
            stx_ino: s.st_ino,
            stx_size: s.st_size as u64,
            stx_blocks: s.st_blocks as u64,
            stx_attributes_mask: 0,
            stx_atime: FsStatxTimestamp { tv_sec: s.st_atime_sec, tv_nsec: s.st_atime_nsec as u32 },
            stx_btime: FsStatxTimestamp { tv_sec: 0, tv_nsec: 0 },
            stx_ctime: FsStatxTimestamp { tv_sec: s.st_ctime_sec, tv_nsec: s.st_ctime_nsec as u32 },
            stx_mtime: FsStatxTimestamp { tv_sec: s.st_mtime_sec, tv_nsec: s.st_mtime_nsec as u32 },
            stx_rdev_major: 0,
            stx_rdev_minor: 0,
            stx_dev_major: 0,
            stx_dev_minor: 0,
            stx_mnt_id: 0,
            stx_dio_mem_align: 0,
            stx_dio_offset_align: 0,
        }
    }

    /// The record as user programs read it.
    pub fn to_bytes(&self) -> (r: Vec<u8>)
        ensures
            r@ == statx_bytes(*self),
    {
        let mut out: Vec<u8> = Vec::new();
        push_le(&mut out, self.stx_mask as u64, 4);
        push_le(&mut out, self.stx_blksize as u64, 4);
        push_le(&mut out, self.stx_attributes, 8);
        push_le(&mut out, self.stx_nlink as u64, 4);
        push_le(&mut out, self.stx_uid as u64, 4);
        push_le(&mut out, self.stx_gid as u64, 4);
        push_le(&mut out, self.stx_mode as u64, 2);
        push_le(&mut out, 0, 2);
        push_le(&mut out, self.stx_ino, 8);
        push_le(&mut out, self.stx_size, 8);
        push_le(&mut out, self.stx_blocks, 8);
        push_le(&mut out, self.stx_attributes_mask, 8);
        push_timestamp(&mut out, self.stx_atime);
        push_timestamp(&mut out, self.stx_btime);
        push_timestamp(&mut out, self.stx_ctime);
        push_timestamp(&mut out, self.stx_mtime);
        push_le(&mut out, self.stx_rdev_major as u64, 4);
        push_le(&mut out, self.stx_rdev_minor as u64, 4);
        push_le(&mut out, self.stx_dev_major as u64, 4);
        push_le(&mut out, self.stx_dev_minor as u64, 4);
        push_le(&mut out, self.stx_mnt_id, 8);
        push_le(&mut out, self.stx_dio_mem_align as u64, 4);
        push_le(&mut out, self.stx_dio_offset_align as u64, 4);
        out
    }
}

/// How `statx` finds its target: `Ok` where the path is empty and
/// `AT_EMPTY_PATH` is set, so the target is the file that `dirfd` refers to.
/// An empty path without that flag is `-EINVAL`; any other path is
/// `-ENOSYS`, since lookup by path is not offered.
pub fn statx_check(path: &[u8], flags: u32) -> (r: Result<(), i32>)
    ensures
        path@.len() == 0 && flags & AT_EMPTY_PATH != 0 <==> r is Ok,
        path@.len() == 0 && flags & AT_EMPTY_PATH == 0 ==> r == Err::<(), i32>(-22i32),
        path@.len() != 0 ==> r == Err::<(), i32>(-38i32),
{
    if path.len() == 0 {
        if flags & AT_EMPTY_PATH == 0 {
            return Err(-LinuxError::EINVAL.code());
        }
        Ok(())
    } else {
        Err(-LinuxError::ENOSYS.code())
    }
}

/// The outcome of `fstat`, given what the backend's status query returned
/// (an error number on failure): the record to write, or `-1` with nothing
/// to write.
pub fn fstat_result(res: Result<BackendStat, i32>) -> (r: Result<Kstat, i32>)
    ensures
        match res {
            Ok(s) => r == Ok::<Kstat, i32>(kstat_of(s)),
            Err(_) => r == Err::<Kstat, i32>(-1i32),
        },
{
    match res {
        Ok(s) => Ok(Kstat::from(s)),
        Err(_) => Err(-1),
    }
}

/// The outcome of `statx` on the "by descriptor" path, given what the
/// backend's status query returned (a negative error number on failure):
/// the record to write, or that error number.
pub fn statx_result(res: Result<BackendStat, i32>) -> (r: Result<StatX, i32>)
    ensures
        match res {
            Ok(s) => r == Ok::<StatX, i32>(statx_of(s)),
            Err(e) => r == Err::<StatX, i32>(e),
        },
{
    match res {
        Ok(s) => Ok(StatX::from_stat(&s)),
        Err(e) => Err(e),
    }
}

} // verus!
