use vstd::prelude::*;

pub mod command;
pub mod consts;
pub mod dentry;
pub mod devfs;
pub mod devices;
pub mod elf;
pub mod elflayout;
pub mod epoll;
pub mod dirent;
pub mod errno;
pub mod ext4disk;
pub mod ext4path;
pub mod fdset;
pub mod laws;
pub mod file;
pub mod futex;
pub mod memset;
pub mod net;
pub mod pathbuf;
pub mod pipe;
pub mod poll;
pub mod ramfile;
pub mod random;
pub mod signal;
pub mod stack;
pub mod ramfs;
pub mod syscall;
pub mod time;
pub mod tty;
pub mod userloop;
pub mod vfs;

verus! {

/// The id of the hart that reports a panic; this kernel runs on hart 0.
pub fn hart_id() -> (id: usize)
    ensures
        id == 0,
{
    0
}

} // verus!
