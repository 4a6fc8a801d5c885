//! Linux error numbers, taken from `axerrno`.

use axerrno::LinuxError;
use vstd::prelude::*;

verus! {

#[verifier::external_type_specification]
pub struct ExLinuxError(LinuxError);

/// Relies on axerrno's `LinuxError::code`, which is `self as i32` over the
/// discriminants that axerrno takes from Linux's `errno.h`.
pub assume_specification[ LinuxError::code ](e: LinuxError) -> (r: i32)
    ensures
        e == LinuxError::ENOENT ==> r == 2,
        e == LinuxError::EEXIST ==> r == 17,
        e == LinuxError::EISDIR ==> r == 21,
        e == LinuxError::EINVAL ==> r == 22,
        e == LinuxError::ENOSYS ==> r == 38,
;

} // verus!
