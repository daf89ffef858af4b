//! The error numbers that the kernel hands back to user programs.
use vstd::prelude::*;

verus! {

/// A Linux error number.
#[derive(Debug, Clone, Copy, PartialEq, Eq, Structural)]
pub enum Errno {
    EPERM,
    ENOENT,
    ESRCH,
    EINTR,
    EIO,
    EBADF,
    ECHILD,
    /// Also known as `EWOULDBLOCK`.
    EAGAIN,
    EFAULT,
    EEXIST,
    ENOTDIR,
    EINVAL,
    ENFILE,
    EMFILE,
    ENOTTY,
    EPIPE,
    ENOTEMPTY,
    ETIMEDOUT,
    EAFNOSUPPORT,
    EALREADY,
}

/// The number that Linux gives each error.
pub open spec fn errno_code(e: Errno) -> i32 {
    match e {
        Errno::EPERM => 1,
        Errno::ENOENT => 2,
        Errno::ESRCH => 3,
        Errno::EINTR => 4,
        Errno::EIO => 5,
        Errno::EBADF => 9,
        Errno::ECHILD => 10,
        Errno::EAGAIN => 11,
        Errno::EFAULT => 14,
        Errno::EEXIST => 17,
        Errno::ENOTDIR => 20,
        Errno::EINVAL => 22,
        Errno::ENFILE => 23,
        Errno::EMFILE => 24,
        Errno::ENOTTY => 25,
        Errno::EPIPE => 32,
        Errno::ENOTEMPTY => 39,
        Errno::ETIMEDOUT => 110,
        Errno::EAFNOSUPPORT => 97,
        Errno::EALREADY => 114,
    }
}

impl Errno {
    /// The Linux number of this error.
    pub fn code(&self) -> (res: i32)
        ensures
            res == errno_code(*self),
    {
        match self {
            Errno::EPERM => 1,
            Errno::ENOENT => 2,
            Errno::ESRCH => 3,
            Errno::EINTR => 4,
            Errno::EIO => 5,
            Errno::EBADF => 9,
            Errno::ECHILD => 10,
            Errno::EAGAIN => 11,
            Errno::EFAULT => 14,
            Errno::EEXIST => 17,
            Errno::ENOTDIR => 20,
            Errno::EINVAL => 22,
            Errno::ENFILE => 23,
            Errno::EMFILE => 24,
            Errno::ENOTTY => 25,
            Errno::EPIPE => 32,
            Errno::ENOTEMPTY => 39,
            Errno::ETIMEDOUT => 110,
            Errno::EAFNOSUPPORT => 97,
            Errno::EALREADY => 114,
        }
    }
}

/// Different errors have different numbers.
pub proof fn lemma_errno_code_injective(a: Errno, b: Errno)
    requires
        errno_code(a) == errno_code(b),
    ensures
        a == b,
{
}

} // verus!
