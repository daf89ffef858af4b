//! Types shared by the file systems: file kinds, seek positions, directory
//! entries, stat records and the Linux flag bits they use.
use vstd::prelude::*;

verus! {

/// The kind of a node in a file system.
#[derive(Debug, Copy, Clone, PartialEq, Eq, Structural)]
pub enum FileType {
    File,
    Directory,
    Device,
    Socket,
    Link,
}

/// Where a seek counts from.
#[derive(Debug, Copy, Clone)]
pub enum SeekFrom {
    SET(usize),
    CURRENT(isize),
    END(isize),
}

/// One entry of a directory listing.
pub struct DirEntry {
    pub filename: String,
    pub len: usize,
    pub file_type: FileType,
}

/// Errors of the virtual file system layer.
#[derive(Debug, Copy, Clone, PartialEq, Eq, Structural)]
pub enum VfsError {
    NotLinkFile,
    NotDir,
    NotFile,
    NotSupported,
    FileNotFound,
    AlreadyExists,
    InvalidData,
    DirectoryNotEmpty,
    InvalidInput,
    StorageFull,
    UnexpectedEof,
    WriteZero,
    Io,
    Blocking,
    NoMountedPoint,
    NotAPipe,
    NotWriteable,
}

/// A point in time: seconds and nanoseconds.
#[derive(Debug, Copy, Clone, PartialEq, Eq, Structural)]
pub struct TimeSpec {
    pub sec: usize,
    pub nsec: usize,
}

/// The nanoseconds of a time span.
pub open spec fn timespec_nsec(t: TimeSpec) -> int {
    t.sec * 1_000_000_000 + t.nsec
}

impl TimeSpec {
    /// The nanoseconds of this time span.
    pub fn to_nsec(&self) -> (res: usize)
        requires
            timespec_nsec(*self) <= usize::MAX,
        ensures
            res == timespec_nsec(*self),
    {
        self.sec * 1_000_000_000 + self.nsec
    }

    /// Time zero.
    pub fn zero() -> (res: Self)
        ensures
            res.sec == 0 && res.nsec == 0,
    {
        TimeSpec { sec: 0, nsec: 0 }
    }
}

/// The `nsec` value that asks to leave a time stamp unchanged.
pub const UTIME_OMIT: usize = 0x3ffffffe;

/// The `nsec` value that asks to set a time stamp to the current time.
pub const UTIME_NOW: usize = 0x3fffffff;

/// The file-kind bits of a mode.
pub const S_IFMT: u32 = 0o170000;
pub const S_IFSOCK: u32 = 0o140000;
pub const S_IFLNK: u32 = 0o120000;
pub const S_IFREG: u32 = 0o100000;
pub const S_IFBLK: u32 = 0o060000;
pub const S_IFDIR: u32 = 0o040000;
pub const S_IFCHR: u32 = 0o020000;
pub const S_IFIFO: u32 = 0o010000;
/// Read, write and execute for the owner.
pub const S_IRWXU: u32 = 0o700;

/// The status record of a node, as `stat` fills it.
#[derive(Debug, Copy, Clone)]
pub struct Stat {
    pub dev: u64,
    pub ino: u64,
    pub mode: u32,
    pub nlink: u32,
    pub uid: u32,
    pub gid: u32,
    pub rdev: u64,
    pub size: u64,
    pub blksize: u32,
    pub blocks: u64,
    pub atime: TimeSpec,
    pub mtime: TimeSpec,
    pub ctime: TimeSpec,
}

impl Stat {
    /// A record with every field zero.
    pub fn zeroed() -> (res: Self)
        ensures
            res.dev == 0 && res.ino == 0 && res.mode == 0 && res.nlink == 0 && res.uid == 0
                && res.gid == 0 && res.rdev == 0 && res.size == 0 && res.blksize == 0
                && res.blocks == 0 && res.atime == TimeSpec::spec_zero() && res.mtime
                == TimeSpec::spec_zero() && res.ctime == TimeSpec::spec_zero(),
    {
        Stat {
            dev: 0,
            ino: 0,
            mode: 0,
            nlink: 0,
            uid: 0,
            gid: 0,
            rdev: 0,
            size: 0,
            blksize: 0,
            blocks: 0,
            atime: TimeSpec::zero(),
            mtime: TimeSpec::zero(),
            ctime: TimeSpec::zero(),
        }
    }
}

impl TimeSpec {
    pub open spec fn spec_zero() -> TimeSpec {
        TimeSpec { sec: 0, nsec: 0 }
    }
}

/// The file kind that a mode's kind bits name, when they name one.
pub open spec fn mode_file_type(mode: u32) -> Option<FileType> {
    let t = mode & S_IFMT;
    if t == S_IFSOCK {
        Some(FileType::Socket)
    } else if t == S_IFLNK {
        Some(FileType::Link)
    } else if t == S_IFREG {
        Some(FileType::File)
    } else if t == S_IFBLK || t == S_IFCHR || t == S_IFIFO {
        Some(FileType::Device)
    } else if t == S_IFDIR {
        Some(FileType::Directory)
    } else {
        None
    }
}

impl FileType {
    /// The file kind that the kind bits of `mode` name: sockets, links,
    /// regular files and directories map to their kind, block and character
    /// devices and fifos to `Device`.
    pub fn from_mode(mode: u32) -> (res: FileType)
        requires
            mode_file_type(mode) is Some,
        ensures
            mode_file_type(mode) == Some(res),
    {
        let t = mode & S_IFMT;
        if t == S_IFSOCK {
            FileType::Socket
        } else if t == S_IFLNK {
            FileType::Link
        } else if t == S_IFREG {
            FileType::File
        } else if t == S_IFBLK || t == S_IFCHR || t == S_IFIFO {
            FileType::Device
        } else {
            FileType::Directory
        }
    }
}

/// Poll event bits.
pub const POLLIN: u16 = 0x001;
pub const POLLPRI: u16 = 0x002;
pub const POLLOUT: u16 = 0x004;
pub const POLLERR: u16 = 0x008;
pub const POLLHUP: u16 = 0x010;
pub const POLLNVAL: u16 = 0x020;

/// Open flag bits.
pub const O_RDONLY: usize = 0;
pub const O_WRONLY: usize = 0o1;
pub const O_RDWR: usize = 0o2;
pub const O_CREAT: usize = 0o100;
pub const O_NONBLOCK: usize = 0o4000;
pub const O_DIRECTORY: usize = 0o200000;

/// Whether all bits of `flag` are set in `bits`.
pub open spec fn has_bits(bits: u16, flag: u16) -> bool {
    bits & flag == flag
}

/// Whether all bits of `flag` are set in `bits`.
pub open spec fn has_flags(bits: usize, flag: usize) -> bool {
    bits & flag == flag
}

} // verus!
