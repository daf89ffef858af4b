//! The terminal's settings and the `ioctl` calls that read and change them.
use vstd::prelude::*;
use crate::errno::Errno;
use crate::vfs::{Stat, S_IFCHR};

verus! {

pub const TCGETS: usize = 0x5401;
pub const TCSETS: usize = 0x5402;
pub const TCSETSW: usize = 0x5403;
pub const TCSETSF: usize = 0x5404;
pub const TCGETA: usize = 0x5405;
pub const TIOCGPGRP: usize = 0x540f;
pub const TIOCSPGRP: usize = 0x5410;
pub const TIOCGWINSZ: usize = 0x5413;
pub const TIOCSWINSZ: usize = 0x5414;

/// The size of a terminal window.
#[derive(Clone, Copy, Debug, PartialEq, Eq, Structural)]
pub struct WinSize {
    pub row: u16,
    pub col: u16,
    pub xpixel: u16,
    pub ypixel: u16,
}

/// What a terminal `ioctl` asks for.
#[derive(Clone, Copy, Debug, PartialEq, Eq, Structural)]
pub enum TtyIoctl {
    GetTermios,
    SetTermios,
    GetPgrp,
    SetPgrp,
    GetWinsize,
    SetWinsize,
}

/// The request of `ioctl` command `cmd`: the settings are read by `TCGETS`
/// and `TCGETA`, set by `TCSETS`, `TCSETSW` and `TCSETSF`; the process group
/// and the window size are read and set by their own commands. Another
/// command of the terminal command table (`known`: the table names `cmd`)
/// gives `EPERM`; a number the table does not name gives `EINVAL`.
pub fn tty_request(cmd: usize, known: bool) -> (res: Result<TtyIoctl, Errno>)
    ensures
        (cmd == TCGETS || cmd == TCGETA) <==> res == Ok::<TtyIoctl, Errno>(TtyIoctl::GetTermios),
        (cmd == TCSETS || cmd == TCSETSW || cmd == TCSETSF) <==> res == Ok::<TtyIoctl, Errno>(
            TtyIoctl::SetTermios,
        ),
        cmd == TIOCGPGRP <==> res == Ok::<TtyIoctl, Errno>(TtyIoctl::GetPgrp),
        cmd == TIOCSPGRP <==> res == Ok::<TtyIoctl, Errno>(TtyIoctl::SetPgrp),
        cmd == TIOCGWINSZ <==> res == Ok::<TtyIoctl, Errno>(TtyIoctl::GetWinsize),
        cmd == TIOCSWINSZ <==> res == Ok::<TtyIoctl, Errno>(TtyIoctl::SetWinsize),
        res is Err && known ==> res == Err::<TtyIoctl, Errno>(Errno::EPERM),
        res is Err && !known ==> res == Err::<TtyIoctl, Errno>(Errno::EINVAL),
{
    if cmd == TCGETS || cmd == TCGETA {
        Ok(TtyIoctl::GetTermios)
    } else if cmd == TCSETS || cmd == TCSETSW || cmd == TCSETSF {
        Ok(TtyIoctl::SetTermios)
    } else if cmd == TIOCGPGRP {
        Ok(TtyIoctl::GetPgrp)
    } else if cmd == TIOCSPGRP {
        Ok(TtyIoctl::SetPgrp)
    } else if cmd == TIOCGWINSZ {
        Ok(TtyIoctl::GetWinsize)
    } else if cmd == TIOCSWINSZ {
        Ok(TtyIoctl::SetWinsize)
    } else if known {
        Err(Errno::EPERM)
    } else {
        Err(Errno::EINVAL)
    }
}

/// The settings of the terminal: its `termios` (as bytes), foreground
/// process group and window size.
pub struct TtyState {
    pub termios: Vec<u8>,
    pub pgid: u32,
    pub winsize: WinSize,
}

/// What a terminal `ioctl` hands back to the caller.
pub enum TtyReply {
    /// Nothing: the settings were changed.
    Done,
    Termios(Vec<u8>),
    Pgrp(u32),
    Winsize(WinSize),
}

/// What the caller of a terminal `ioctl` hands in (read from its argument).
pub enum TtyInput {
    Nothing,
    Termios(Vec<u8>),
    Pgrp(u32),
    Winsize(WinSize),
}

impl TtyState {
    /// A terminal of 24 rows of 140 columns, its settings all zero
    /// (`termios_len` bytes), process group 0.
    pub fn new(termios_len: usize) -> (res: Self)
        ensures
            res.termios@ == Seq::new(termios_len as nat, |i: int| 0u8),
            res.pgid == 0,
            res.winsize == (WinSize { row: 24, col: 140, xpixel: 0, ypixel: 0 }),
    {
        let mut t: Vec<u8> = Vec::new();
        let mut i: usize = 0;
        while i < termios_len
            invariant
                i <= termios_len,
                t@ == Seq::new(i as nat, |k: int| 0u8),
            decreases termios_len - i,
        {
            t.push(0);
            i = i + 1;
            proof {
                assert(t@ =~= Seq::new(i as nat, |k: int| 0u8));
            }
        }
        TtyState { termios: t, pgid: 0, winsize: WinSize { row: 24, col: 140, xpixel: 0, ypixel: 0 } }
    }

    /// A terminal `ioctl`: reads hand back the setting; writes take it from
    /// `input` (which must hold the matching kind). Reading or setting the
    /// process group with no argument (`arg_valid` false) gives `EINVAL`.
    pub fn ioctl(&mut self, req: TtyIoctl, arg_valid: bool, input: TtyInput) -> (res: Result<TtyReply, Errno>)
        requires
            req == TtyIoctl::SetTermios ==> input is Termios,
            req == TtyIoctl::SetPgrp && arg_valid ==> input is Pgrp,
            req == TtyIoctl::SetWinsize ==> input is Winsize,
        ensures
            (req == TtyIoctl::GetPgrp || req == TtyIoctl::SetPgrp) && !arg_valid ==> (res matches Err(e)
                && e == Errno::EINVAL),
            req == TtyIoctl::GetTermios ==> (res matches Ok(TtyReply::Termios(t)) && t@ == old(self).termios@),
            req == TtyIoctl::GetPgrp && arg_valid ==> (res matches Ok(TtyReply::Pgrp(p)) && p == old(self).pgid),
            req == TtyIoctl::GetWinsize ==> (res matches Ok(TtyReply::Winsize(w)) && w == old(self).winsize),
            req == TtyIoctl::SetTermios ==> (res matches Ok(TtyReply::Done)) && (input matches TtyInput::Termios(t)
                && final(self).termios@ == t@),
            req == TtyIoctl::SetPgrp && arg_valid ==> (res matches Ok(TtyReply::Done)) && (input matches TtyInput::Pgrp(p)
                && final(self).pgid == p),
            req == TtyIoctl::SetWinsize ==> (res matches Ok(TtyReply::Done)) && (input matches TtyInput::Winsize(w)
                && final(self).winsize == w),
            req != TtyIoctl::SetTermios ==> final(self).termios@ == old(self).termios@,
            !(req == TtyIoctl::SetPgrp && arg_valid) ==> final(self).pgid == old(self).pgid,
            req != TtyIoctl::SetWinsize ==> final(self).winsize == old(self).winsize,
    {
        match req {
            TtyIoctl::GetTermios => Ok(TtyReply::Termios(self.termios.clone())),
            TtyIoctl::SetTermios => {
                if let TtyInput::Termios(t) = input {
                    self.termios = t;
                }
                Ok(TtyReply::Done)
            },
            TtyIoctl::GetPgrp => {
                if !arg_valid {
                    return Err(Errno::EINVAL);
                }
                Ok(TtyReply::Pgrp(self.pgid))
            },
            TtyIoctl::SetPgrp => {
                if !arg_valid {
                    return Err(Errno::EINVAL);
                }
                if let TtyInput::Pgrp(p) = input {
                    self.pgid = p;
                }
                Ok(TtyReply::Done)
            },
            TtyIoctl::GetWinsize => Ok(TtyReply::Winsize(self.winsize)),
            TtyIoctl::SetWinsize => {
                if let TtyInput::Winsize(w) = input {
                    self.winsize = w;
                }
                Ok(TtyReply::Done)
            },
        }
    }

    /// A character device on device 1, owned by user 1000, of size 15.
    pub fn stat(&self, stat: &mut Stat) -> (res: Result<(), Errno>)
        ensures
            res == Ok::<(), Errno>(()),
            final(stat).dev == 1,
            final(stat).ino == 1,
            final(stat).mode == S_IFCHR,
            final(stat).nlink == 1,
            final(stat).uid == 1000,
            final(stat).gid == 1000,
            final(stat).size == 15,
            final(stat).blksize == 512,
            final(stat).blocks == 0,
            final(stat).rdev == 0,
            final(stat).atime == old(stat).atime,
            final(stat).mtime == old(stat).mtime,
            final(stat).ctime == old(stat).ctime,
    {
        stat.dev = 1;
        stat.ino = 1;
        stat.mode = S_IFCHR;
        stat.nlink = 1;
        stat.uid = 1000;
        stat.gid = 1000;
        stat.size = 15;
        stat.blksize = 512;
        stat.blocks = 0;
        stat.rdev = 0;
        Ok(())
    }
}

} // verus!
