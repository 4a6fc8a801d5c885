//! Linux-ABI file-system system call layer of a user-space task harness:
//! directory-entry encoding for `getdents64`, the `stat` and `statx`
//! records, hard-link bookkeeping and the path and flag rules of the
//! directory calls.

pub mod codec;
pub mod dirent;
pub mod errno;
pub mod getdents;
pub mod hardlink;
pub mod shims;
pub mod stat;


pub use dirent::{DirBuffer, DirEnt, FileType};
pub use hardlink::HardlinkManager;
pub use stat::{FsStatxTimestamp, Kstat, StatX};
