//! The decisions of the directory, link and control calls, apart from the
//! backend work that they trigger.

use crate::hardlink::HardlinkManager;
use axerrno::LinuxError;
use vstd::prelude::*;

verus! {

/// The descriptor that stands for the current working directory.
pub const AT_FDCWD: i32 = -100;

/// `unlinkat` flag: remove a directory.
pub const AT_REMOVEDIR: usize = 0x200;

/// Whether `path` starts with `/`.
pub open spec fn is_absolute(path: Seq<u8>) -> bool {
    path.len() > 0 && path[0] == 0x2f
}

/// The return value of a call that reports success as `0` and any failure
/// as `-1`.
pub fn status_code<E>(res: Result<(), E>) -> (r: i32)
    ensures
        res is Ok ==> r == 0,
        res is Err ==> r == -1,
{
    match res {
        Ok(_) => 0,
        Err(_) => -1,
    }
}

/// `ioctl` does nothing and reports success.
pub fn sys_ioctl(fd: i32, op: usize, argp: usize) -> (r: i32)
    ensures
        r == 0,
{
    0
}

/// Whether `mkdirat` can create `path`: an absolute path, or one relative to
/// the current working directory; a path relative to any other descriptor
/// is refused.
pub fn mkdirat_allowed(dirfd: i32, path: &[u8]) -> (r: bool)
    ensures
        r == (is_absolute(path@) || dirfd == AT_FDCWD),
{
    (path.len() > 0 && path[0] == 0x2f) || dirfd == AT_FDCWD
}

/// What `unlinkat` removes.
#[derive(Debug, Clone, Copy, PartialEq, Eq, Structural)]
pub enum UnlinkAction {
    /// An empty directory.
    RemoveDir,
    /// A link to a file.
    UnlinkFile,
}

/// A directory where the `AT_REMOVEDIR` bit of `flags` is set, whatever the
/// other bits; else a link to a file.
pub fn unlink_action(flags: usize) -> (r: UnlinkAction)
    ensures
        r == (if flags & AT_REMOVEDIR != 0 {
            UnlinkAction::RemoveDir
        } else {
            UnlinkAction::UnlinkFile
        }),
{
    if flags & AT_REMOVEDIR != 0 {
        UnlinkAction::RemoveDir
    } else {
        UnlinkAction::UnlinkFile
    }
}

/// Removes the link `path`, which the backend reports to be a directory
/// where `is_dir`. A directory fails with `EISDIR`, a path that is no
/// tracked link with `ENOENT`.
pub fn unlink_file(links: &mut HardlinkManager, path: &[u8], is_dir: bool) -> (r: Result<(), i32>)
    requires
        old(links).wf(),
    ensures
        final(links).wf(),
        is_dir ==> r == Err::<(), i32>(21i32) && final(links)@ == old(links)@,
        !is_dir && old(links)@.contains_key(path@) ==> r is Ok,
        !is_dir && !old(links)@.contains_key(path@) ==> r == Err::<(), i32>(2i32),
        !is_dir ==> final(links)@ == old(links)@.remove(path@),
{
    if is_dir {
        return Err(LinuxError::EISDIR.code());
    }
    match links.remove_link(path) {
        Some(_) => Ok(()),
        None => Err(LinuxError::ENOENT.code()),
    }
}

/// `linkat` on resolved paths: makes `new_path` a link to what `old_path`
/// names (`old_exists`: the backend has a regular file there; `new_exists`:
/// the backend has anything at `new_path`). `0`, or `-1` where the table
/// refuses; an existing destination is refused.
pub fn sys_linkat(
    links: &mut HardlinkManager,
    old_path: &[u8],
    new_path: &[u8],
    old_exists: bool,
    new_exists: bool,
) -> (r: i32)
    requires
        old(links).wf(),
    ensures
        final(links).wf(),
        new_exists ==> r == -1,
        r == 0 <==> !old(links)@.contains_key(new_path@) && !new_exists && (old(
            links,
        )@.contains_key(old_path@) || old_exists),
        r == 0 || r == -1,
        r == 0 ==> final(links)@ == old(links)@.insert(
            new_path@,
            crate::hardlink::resolve_in(old(links)@, old_path@),
        ),
        r != 0 ==> final(links)@ == old(links)@,
{
    let res = links.create_link(new_path, old_path, old_exists, new_exists);
    status_code(res)
}

} // verus!
