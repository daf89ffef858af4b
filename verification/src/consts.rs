//! Numbers and records of the system call interface, and how the kernel
//! decodes them.
use vstd::prelude::*;
use crate::errno::Errno;
use crate::time::TimeVal;
use crate::vfs::VfsError;

verus! {

/// The error number a file system error is reported as.
pub open spec fn vfs_errno(e: VfsError) -> Errno {
    match e {
        VfsError::NotLinkFile => Errno::EBADF,
        VfsError::NotDir => Errno::ENOTDIR,
        VfsError::NotFile => Errno::EBADF,
        VfsError::NotSupported => Errno::EPERM,
        VfsError::FileNotFound => Errno::ENOENT,
        VfsError::AlreadyExists => Errno::EEXIST,
        VfsError::InvalidData => Errno::EIO,
        VfsError::DirectoryNotEmpty => Errno::ENOTEMPTY,
        VfsError::InvalidInput => Errno::EINVAL,
        VfsError::StorageFull => Errno::EIO,
        VfsError::UnexpectedEof => Errno::EIO,
        VfsError::WriteZero => Errno::EIO,
        VfsError::Io => Errno::EIO,
        VfsError::Blocking => Errno::EAGAIN,
        VfsError::NoMountedPoint => Errno::ENOENT,
        VfsError::NotAPipe => Errno::EPIPE,
        VfsError::NotWriteable => Errno::EBADF,
    }
}

/// The error number a file system error is reported as.
pub fn from_vfs(vfs_error: VfsError) -> (res: Errno)
    ensures
        res == vfs_errno(vfs_error),
{
    match vfs_error {
        VfsError::NotLinkFile => Errno::EBADF,
        VfsError::NotDir => Errno::ENOTDIR,
        VfsError::NotFile => Errno::EBADF,
        VfsError::NotSupported => Errno::EPERM,
        VfsError::FileNotFound => Errno::ENOENT,
        VfsError::AlreadyExists => Errno::EEXIST,
        VfsError::InvalidData => Errno::EIO,
        VfsError::DirectoryNotEmpty => Errno::ENOTEMPTY,
        VfsError::InvalidInput => Errno::EINVAL,
        VfsError::StorageFull => Errno::EIO,
        VfsError::UnexpectedEof => Errno::EIO,
        VfsError::WriteZero => Errno::EIO,
        VfsError::Io => Errno::EIO,
        VfsError::Blocking => Errno::EAGAIN,
        VfsError::NoMountedPoint => Errno::ENOENT,
        VfsError::NotAPipe => Errno::EPIPE,
        VfsError::NotWriteable => Errno::EBADF,
    }
}

/// The directory file descriptor that stands for the current directory
/// (-100 as an unsigned number).
pub const AT_CWD: usize = usize::MAX - 99;

/// The low 32 bits of `AT_CWD`, which is how the kernel compares it.
pub const AT_CWD_U32: u32 = 0xffff_ff9c;

/// The resource number of the open-file limit.
pub const RLIMIT_NOFILE: usize = 7;

/// The most files a task may have open.
pub const FILE_MAX: usize = 255;

/// The system identification that `uname` reports.
pub struct UTSname {
    pub sysname: [u8; 65],
    pub nodename: [u8; 65],
    pub release: [u8; 65],
    pub version: [u8; 65],
    pub machine: [u8; 65],
    pub domainname: [u8; 65],
}

/// Futex operations.
#[derive(Debug, Clone, Copy, PartialEq, Eq, Structural)]
pub enum FutexFlags {
    Wait,
    Wake,
    Fd,
    Requeue,
    CmpRequeue,
    WakeOp,
    LockPi,
    UnlockPi,
    TrylockPi,
    WaitBitset,
}

impl FutexFlags {
    /// The operation numbered `value`, if any (0 to 9 in declaration order).
    pub fn from_usize(value: usize) -> (res: Option<Self>)
        ensures
            value == 0 <==> res == Some(FutexFlags::Wait),
            value == 1 <==> res == Some(FutexFlags::Wake),
            value == 2 <==> res == Some(FutexFlags::Fd),
            value == 3 <==> res == Some(FutexFlags::Requeue),
            value == 4 <==> res == Some(FutexFlags::CmpRequeue),
            value == 5 <==> res == Some(FutexFlags::WakeOp),
            value == 6 <==> res == Some(FutexFlags::LockPi),
            value == 7 <==> res == Some(FutexFlags::UnlockPi),
            value == 8 <==> res == Some(FutexFlags::TrylockPi),
            value == 9 <==> res == Some(FutexFlags::WaitBitset),
            value > 9 <==> res is None,
    {
        match value {
            0 => Some(FutexFlags::Wait),
            1 => Some(FutexFlags::Wake),
            2 => Some(FutexFlags::Fd),
            3 => Some(FutexFlags::Requeue),
            4 => Some(FutexFlags::CmpRequeue),
            5 => Some(FutexFlags::WakeOp),
            6 => Some(FutexFlags::LockPi),
            7 => Some(FutexFlags::UnlockPi),
            8 => Some(FutexFlags::TrylockPi),
            9 => Some(FutexFlags::WaitBitset),
            _ => None,
        }
    }
}

/// The futex operation of a `futex` call: the private flag (0x80) is
/// dropped.
pub fn futex_op(op: usize) -> (res: usize)
    ensures
        res == (if op >= 0x80 {
            op - 0x80
        } else {
            op as int
        }),
{
    if op >= 0x80 {
        op - 0x80
    } else {
        op
    }
}

/// One buffer of a vectored read or write.
#[derive(Clone, Copy)]
pub struct IoVec {
    pub base: usize,
    pub len: usize,
}

/// `fcntl` commands.
#[derive(Debug, Clone, Copy, PartialEq, Eq, Structural)]
pub enum FcntlCmd {
    DUPFD,
    GETFD,
    SETFD,
    GETFL,
    SETFL,
    GETLK,
    SETLK,
    SETLKW,
    DUPFDCLOEXEC,
}

impl FcntlCmd {
    /// The command numbered `value`, if any: 0 to 7 in declaration order,
    /// and 0x406 for `DUPFDCLOEXEC`.
    pub fn from_usize(value: usize) -> (res: Option<Self>)
        ensures
            value == 0 <==> res == Some(FcntlCmd::DUPFD),
            value == 1 <==> res == Some(FcntlCmd::GETFD),
            value == 2 <==> res == Some(FcntlCmd::SETFD),
            value == 3 <==> res == Some(FcntlCmd::GETFL),
            value == 4 <==> res == Some(FcntlCmd::SETFL),
            value == 5 <==> res == Some(FcntlCmd::GETLK),
            value == 6 <==> res == Some(FcntlCmd::SETLK),
            value == 7 <==> res == Some(FcntlCmd::SETLKW),
            value == 0x406 <==> res == Some(FcntlCmd::DUPFDCLOEXEC),
            (value > 7 && value != 0x406) <==> res is None,
    {
        match value {
            0 => Some(FcntlCmd::DUPFD),
            1 => Some(FcntlCmd::GETFD),
            2 => Some(FcntlCmd::SETFD),
            3 => Some(FcntlCmd::GETFL),
            4 => Some(FcntlCmd::SETFL),
            5 => Some(FcntlCmd::GETLK),
            6 => Some(FcntlCmd::SETLK),
            7 => Some(FcntlCmd::SETLKW),
            0x406 => Some(FcntlCmd::DUPFDCLOEXEC),
            _ => None,
        }
    }
}

/// `arch_prctl` codes.
#[derive(Debug, Clone, Copy, PartialEq, Eq, Structural)]
#[allow(non_camel_case_types)]
pub enum ArchPrctlCode {
    ARCH_SET_GS,
    ARCH_SET_FS,
    ARCH_GET_FS,
    ARCH_GET_GS,
}

impl ArchPrctlCode {
    /// The code numbered `value`, if any: 0x1001 to 0x1004.
    pub fn from_usize(value: usize) -> (res: Option<Self>)
        ensures
            value == 0x1001 <==> res == Some(ArchPrctlCode::ARCH_SET_GS),
            value == 0x1002 <==> res == Some(ArchPrctlCode::ARCH_SET_FS),
            value == 0x1003 <==> res == Some(ArchPrctlCode::ARCH_GET_FS),
            value == 0x1004 <==> res == Some(ArchPrctlCode::ARCH_GET_GS),
            (value < 0x1001 || value > 0x1004) <==> res is None,
    {
        match value {
            0x1001 => Some(ArchPrctlCode::ARCH_SET_GS),
            0x1002 => Some(ArchPrctlCode::ARCH_SET_FS),
            0x1003 => Some(ArchPrctlCode::ARCH_GET_FS),
            0x1004 => Some(ArchPrctlCode::ARCH_GET_GS),
            _ => None,
        }
    }
}

/// A resource limit.
#[derive(Debug, Clone, Copy)]
pub struct Rlimit {
    pub curr: usize,
    pub max: usize,
}

/// Signal stack flags.
pub const SS_ONSTACK: u32 = 1;
pub const SS_DISABLE: u32 = 2;
pub const SS_AUTODISARM: u32 = 0x80000000;

/// An alternate signal stack.
#[derive(Debug, Clone, Copy)]
pub struct SignalStack {
    pub sp: usize,
    pub flags: u32,
    pub size: usize,
}

/// Resource usage as `getrusage` reports it.
pub struct Rusage {
    pub ru_utime: TimeVal,
    pub ru_stime: TimeVal,
    pub ru_maxrss: i64,
    pub ru_ixrss: i64,
    pub ru_idrss: i64,
    pub ru_isrss: i64,
    pub ru_minflt: i64,
    pub ru_majflt: i64,
    pub ru_nswap: i64,
    pub ru_inblock: i64,
    pub ru_oublock: i64,
    pub ru_msgsnd: i64,
    pub ru_msgrcv: i64,
    pub ru_nsignals: i64,
    pub ru_nvcsw: i64,
    pub ru_nivcsw: i64,
}

/// The resource limits a new task starts with: eight limits, all 0 but the
/// open-file limit, which is `FILE_MAX`.
pub fn rlimits_new() -> (res: Vec<usize>)
    ensures
        res@.len() == 8,
        forall|i: int| 0 <= i < 8 && i != RLIMIT_NOFILE ==> res@[i] == 0,
        res@[RLIMIT_NOFILE as int] == FILE_MAX,
{
    let mut rlimits: Vec<usize> = Vec::new();
    let mut i: usize = 0;
    while i < 8
        invariant
            i <= 8,
            rlimits@.len() == i,
            forall|k: int| 0 <= k < i ==> rlimits@[k] == 0,
        decreases 8 - i,
    {
        rlimits.push(0);
        i = i + 1;
    }
    rlimits.set(RLIMIT_NOFILE, FILE_MAX);
    rlimits
}

/// `prlimit64`: for the open-file limit, a new limit sets the kept maximum
/// and the old limit reads the kept value as both current and maximum;
/// other resources are left alone. Returns the old limit when asked for.
pub fn prlimit(rlimits: &mut Vec<usize>, resource: usize, new_limit: Option<Rlimit>, want_old: bool)
    -> (res: Option<Rlimit>)
    requires
        old(rlimits)@.len() == 8,
    ensures
        resource != RLIMIT_NOFILE ==> final(rlimits)@ == old(rlimits)@ && res is None,
        resource == RLIMIT_NOFILE ==> {
            &&& final(rlimits)@ == match new_limit {
                Some(l) => old(rlimits)@.update(RLIMIT_NOFILE as int, l.max),
                None => old(rlimits)@,
            }
            &&& if want_old {
                res matches Some(l) && l.curr == final(rlimits)@[RLIMIT_NOFILE as int] && l.max
                    == final(rlimits)@[RLIMIT_NOFILE as int]
            } else {
                res is None
            }
        },
{
    if resource == RLIMIT_NOFILE {
        match new_limit {
            Some(l) => {
                rlimits.set(RLIMIT_NOFILE, l.max);
            },
            None => {},
        }
        if want_old {
            let m = rlimits[RLIMIT_NOFILE];
            return Some(Rlimit { curr: m, max: m });
        }
    }
    None
}

/// The kinds of socket the kernel makes.
#[derive(Clone, Copy, PartialEq, Eq, Debug, Structural)]
pub enum NetType {
    STEAM,
    DGRAME,
    RAW,
}

impl NetType {
    /// The socket kind numbered `value`: 1 for streams, 2 for datagrams;
    /// raw sockets cannot be asked for.
    pub fn from_usize(value: usize) -> (res: Option<Self>)
        ensures
            value == 1 <==> res == Some(NetType::STEAM),
            value == 2 <==> res == Some(NetType::DGRAME),
            (value != 1 && value != 2) <==> res is None,
    {
        match value {
            1 => Some(NetType::STEAM),
            2 => Some(NetType::DGRAME),
            _ => None,
        }
    }
}

/// The bytes a socket has sent and received.
#[derive(Clone, Copy)]
pub struct SocketOptions {
    pub wsize: usize,
    pub rsize: usize,
}

/// Whether a user task goes on running after a trap.
#[derive(Clone, Copy, PartialEq, Eq, Debug, Structural)]
pub enum UserTaskControlFlow {
    Continue,
    Break,
}

/// `mmap` protection bits.
pub const PROT_READ: u32 = 1;
pub const PROT_WRITE: u32 = 2;
pub const PROT_EXEC: u32 = 4;

/// Page mapping bits: user, readable, writable, executable.
pub const MAPPING_U: u64 = 1 << 1;
pub const MAPPING_R: u64 = 1 << 2;
pub const MAPPING_W: u64 = 1 << 3;
pub const MAPPING_X: u64 = 1 << 4;

/// A user page that can be read, written and run.
pub const MAPPING_URWX: u64 = 0b11110;

/// A user page that can be read and run.
pub const MAPPING_URX: u64 = 0b10110;

/// The page mapping bits of `mmap` protection bits.
pub open spec fn mapping_of_prot(prot: u32) -> u64 {
    (if prot & PROT_READ == PROT_READ {
        MAPPING_R
    } else {
        0u64
    }) | (if prot & PROT_WRITE == PROT_WRITE {
        MAPPING_W
    } else {
        0u64
    }) | (if prot & PROT_EXEC == PROT_EXEC {
        MAPPING_X
    } else {
        0u64
    })
}

/// The page mapping bits of `mmap` protection bits: readable, writable and
/// executable as asked.
pub fn map_mprot_to_flags(mprot: u32) -> (res: u64)
    ensures
        res == mapping_of_prot(mprot),
{
    let r: u64 = if mprot & PROT_READ == PROT_READ {
        MAPPING_R
    } else {
        0
    };
    let w: u64 = if mprot & PROT_WRITE == PROT_WRITE {
        MAPPING_W
    } else {
        0
    };
    let x: u64 = if mprot & PROT_EXEC == PROT_EXEC {
        MAPPING_X
    } else {
        0
    };
    r | w | x
}

/// The clone flags that the kernel acts on.
pub const CSIGNAL: usize = 0xff;
pub const CLONE_SETTLS: usize = 0x00080000;
pub const CLONE_PARENT_SETTID: usize = 0x00100000;
pub const CLONE_CHILD_CLEARTID: usize = 0x00200000;
pub const CLONE_CHILD_SETTID: usize = 0x01000000;
pub const CLONE_THREAD: usize = 0x00010000;

/// What `clone` is asked to do, decoded from its flags.
pub struct CloneRequest {
    /// The signal sent to the parent when the child exits.
    pub exit_signal: u8,
    /// A thread of this process rather than a new process.
    pub thread: bool,
    /// The address to clear when the child exits (0 for none).
    pub clear_child_tid: usize,
    /// The stack pointer of the child, when one is given.
    pub stack: Option<usize>,
    /// The thread-local storage pointer of the child, when asked to set it.
    pub tls: Option<usize>,
    /// Write the child's id at the parent's address.
    pub set_parent_tid: bool,
    /// Write the child's id at the child's address.
    pub set_child_tid: bool,
}

/// Decodes the arguments of `clone`.
pub fn decode_clone(flags: usize, stack: usize, tls: usize, ctid: usize) -> (res: CloneRequest)
    ensures
        res.exit_signal == (flags & CSIGNAL) as u8,
        res.thread == (flags & CLONE_THREAD == CLONE_THREAD),
        res.clear_child_tid == (if flags & CLONE_CHILD_CLEARTID == CLONE_CHILD_CLEARTID {
            ctid
        } else {
            0
        }),
        res.stack == (if stack != 0 {
            Some(stack)
        } else {
            None::<usize>
        }),
        res.tls == (if flags & CLONE_SETTLS == CLONE_SETTLS {
            Some(tls)
        } else {
            None::<usize>
        }),
        res.set_parent_tid == (flags & CLONE_PARENT_SETTID == CLONE_PARENT_SETTID),
        res.set_child_tid == (flags & CLONE_CHILD_SETTID == CLONE_CHILD_SETTID && ctid != 0),
{
    let sig = flags & CSIGNAL;
    assert(sig <= 0xff) by (bit_vector)
        requires
            sig == flags & 0xff,
    ;
    CloneRequest {
        exit_signal: sig as u8,
        thread: flags & CLONE_THREAD == CLONE_THREAD,
        clear_child_tid: if flags & CLONE_CHILD_CLEARTID == CLONE_CHILD_CLEARTID {
            ctid
        } else {
            0
        },
        stack: if stack != 0 {
            Some(stack)
        } else {
            None
        },
        tls: if flags & CLONE_SETTLS == CLONE_SETTLS {
            Some(tls)
        } else {
            None
        },
        set_parent_tid: flags & CLONE_PARENT_SETTID == CLONE_PARENT_SETTID,
        set_child_tid: flags & CLONE_CHILD_SETTID == CLONE_CHILD_SETTID && ctid != 0,
    }
}

} // verus!
