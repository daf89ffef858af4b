//! An open file: its offset and flags, how it moves, and the lookups that
//! opening a path takes.
use vstd::prelude::*;
use crate::errno::Errno;
use crate::pathbuf::PathBuf;
use crate::vfs::{has_flags, FileType, SeekFrom, O_CREAT, O_DIRECTORY, O_NONBLOCK, O_RDWR, O_WRONLY};

verus! {

/// One step of opening a path on its mounted file system.
pub enum OpenStep {
    /// Go into the child of this name.
    Lookup(String),
    /// Create a child of this name and kind in the current directory.
    Create(String, FileType),
}

/// The name a step is about.
pub open spec fn step_name(s: OpenStep) -> Seq<char> {
    match s {
        OpenStep::Lookup(n) => n@,
        OpenStep::Create(n, _) => n@,
    }
}

/// The steps that open `path` (relative to its mount point) with `flags`:
/// into each directory on the way, then, with `O_CREAT`, create the last
/// component (a directory with `O_DIRECTORY`, else a file), then into it.
/// The mount point itself takes no step.
pub fn open_steps(path: &PathBuf, flags: usize) -> (res: Vec<OpenStep>)
    ensures
        path@.len() == 0 ==> res@.len() == 0,
        path@.len() > 0 ==> ({
            let d = path@.len() - 1;
            let c = has_flags(flags, O_CREAT);
            &&& res@.len() == d + 1 + (if c {
                1int
            } else {
                0int
            })
            &&& forall|i: int| 0 <= i < d ==> #[trigger] res@[i] is Lookup && step_name(res@[i]) == path@[i]
            &&& c ==> res@[d] == OpenStep::Create(
                res@[d]->Create_0,
                if has_flags(flags, O_DIRECTORY) {
                    FileType::Directory
                } else {
                    FileType::File
                },
            ) && step_name(res@[d]) == path@.last()
            &&& res@.last() is Lookup && step_name(res@.last()) == path@.last()
        }),
{
    let mut steps: Vec<OpenStep> = Vec::new();
    let n = path.levels();
    if n == 0 {
        return steps;
    }
    let comps = path.iter();
    let mut i: usize = 0;
    while i < n - 1
        invariant
            n == path@.len(),
            n > 0,
            comps@.len() == n,
            forall|k: int| 0 <= k < n ==> (#[trigger] comps@[k])@ == path@[k],
            i <= n - 1,
            steps@.len() == i,
            forall|k: int| 0 <= k < i ==> #[trigger] steps@[k] is Lookup && step_name(steps@[k]) == path@[k],
        decreases n - 1 - i,
    {
        steps.push(OpenStep::Lookup(comps[i].clone()));
        i = i + 1;
    }
    if flags & O_CREAT == O_CREAT {
        let kind = if flags & O_DIRECTORY == O_DIRECTORY {
            FileType::Directory
        } else {
            FileType::File
        };
        steps.push(OpenStep::Create(path.filename(), kind));
    }
    steps.push(OpenStep::Lookup(path.filename()));
    steps
}

/// The offset and open flags of an open file.
pub struct FileState {
    pub offset: usize,
    pub flags: usize,
}

/// Where a seek lands, before it is cut at 0, for a file of `size` bytes
/// read at `offset`.
pub open spec fn seek_target(from: SeekFrom, offset: usize, size: usize) -> int {
    match from {
        SeekFrom::SET(off) => off as isize as int,
        SeekFrom::CURRENT(off) => offset as isize + off,
        SeekFrom::END(off) => size as isize + off,
    }
}

impl FileState {
    /// A file just opened with `flags`, at offset 0.
    pub fn new(flags: usize) -> (res: Self)
        ensures
            res.offset == 0,
            res.flags == flags,
    {
        FileState { offset: 0, flags }
    }

    /// Writing needs the file open for writing (`O_RDWR` or `O_WRONLY`);
    /// else `EPERM`.
    pub fn check_writeable(&self) -> (res: Result<(), Errno>)
        ensures
            res is Ok <==> has_flags(self.flags, O_RDWR) || has_flags(self.flags, O_WRONLY),
            res matches Err(e) ==> e == Errno::EPERM,
    {
        if self.flags & O_RDWR == O_RDWR || self.flags & O_WRONLY == O_WRONLY {
            Ok(())
        } else {
            Err(Errno::EPERM)
        }
    }

    /// Whether reads should not wait for data.
    pub fn nonblocking(&self) -> (res: bool)
        ensures
            res == has_flags(self.flags, O_NONBLOCK),
    {
        self.flags & O_NONBLOCK == O_NONBLOCK
    }

    /// Before writing `len` bytes: `EPERM` when the file is not writable,
    /// nothing to do (`None`, 0 bytes written) for an empty write, else the
    /// offset to write at.
    pub fn write_start(&self, len: usize) -> (res: Result<Option<usize>, Errno>)
        ensures
            !(has_flags(self.flags, O_RDWR) || has_flags(self.flags, O_WRONLY)) ==> res == Err::<
                Option<usize>,
                Errno,
            >(Errno::EPERM),
            (has_flags(self.flags, O_RDWR) || has_flags(self.flags, O_WRONLY)) ==> res == Ok::<
                Option<usize>,
                Errno,
            >(
                if len == 0 {
                    None
                } else {
                    Some(self.offset)
                },
            ),
    {
        match self.check_writeable() {
            Err(e) => Err(e),
            Ok(()) => {
                if len == 0 {
                    Ok(None)
                } else {
                    Ok(Some(self.offset))
                }
            },
        }
    }

    /// After `n` bytes were read or written at the offset, it moves past
    /// them.
    pub fn advance(&mut self, n: usize)
        requires
            old(self).offset + n <= usize::MAX,
        ensures
            final(self).offset == old(self).offset + n,
            final(self).flags == old(self).flags,
    {
        self.offset = self.offset + n;
    }

    /// `lseek` on a file of `size` bytes: the new offset, cut at 0 where the
    /// seek lands before the start.
    pub fn seek(&mut self, from: SeekFrom, size: usize) -> (res: Result<usize, Errno>)
        requires
            isize::MIN <= seek_target(from, old(self).offset, size) <= isize::MAX,
        ensures
            ({
                let t = seek_target(from, old(self).offset, size);
                let new_off: usize = if t < 0 {
                    0
                } else {
                    t as usize
                };
                &&& res == Ok::<usize, Errno>(new_off)
                &&& final(self).offset == new_off
                &&& final(self).flags == old(self).flags
            }),
    {
        let mut new_off: isize = match from {
            SeekFrom::SET(off) => off as isize,
            SeekFrom::CURRENT(off) => self.offset as isize + off,
            SeekFrom::END(off) => size as isize + off,
        };
        if new_off < 0 {
            new_off = 0;
        }
        self.offset = new_off as usize;
        Ok(new_off as usize)
    }
}

} // verus!
