//! The decisions that system calls take on their arguments.
use vstd::prelude::*;
use vstd::string::StrSliceExecFns;
use crate::consts::{AT_CWD_U32, FcntlCmd};
use crate::errno::{errno_code, Errno};
use crate::vfs::{SeekFrom, TimeSpec, UTIME_NOW};

verus! {

/// The node a path given with a directory descriptor is looked up from.
#[derive(Clone, Copy, Debug, PartialEq, Eq, Structural)]
pub enum NodeRef {
    /// The root, for absolute paths.
    Root,
    /// The current directory of the task.
    Cwd,
    /// The open file with this descriptor.
    Fd(usize),
}

/// Where a path given with directory descriptor `fd` is looked up from: the
/// root for absolute paths, else the current directory when the low 32 bits
/// of `fd` are those of `AT_CWD`, else the file with descriptor `fd`
/// (taken to 32 bits). The caller reports `EBADF` when that is not open.
pub fn to_node(fd: usize, path: &str) -> (res: NodeRef)
    ensures
        path@.len() > 0 && path@[0] == '/' ==> res == NodeRef::Root,
        !(path@.len() > 0 && path@[0] == '/') ==> res == (if fd as u32 == AT_CWD_U32 {
            NodeRef::Cwd
        } else {
            NodeRef::Fd(fd as u32 as usize)
        }),
{
    if path.unicode_len() > 0 && path.get_char(0) == '/' {
        return NodeRef::Root;
    }
    let x = fd as u32;
    if x == AT_CWD_U32 {
        NodeRef::Cwd
    } else {
        NodeRef::Fd(x as usize)
    }
}

/// The seek that `lseek` asks for: `whence` 0 sets, 1 moves from the
/// current offset, 2 moves from the end (the offset read as signed);
/// others give `EINVAL`.
pub fn lseek_whence(offset: usize, whence: usize) -> (res: Result<SeekFrom, Errno>)
    ensures
        whence == 0 ==> res == Ok::<SeekFrom, Errno>(SeekFrom::SET(offset)),
        whence == 1 ==> res == Ok::<SeekFrom, Errno>(SeekFrom::CURRENT(offset as isize)),
        whence == 2 ==> res == Ok::<SeekFrom, Errno>(SeekFrom::END(offset as isize)),
        whence > 2 ==> res == Err::<SeekFrom, Errno>(Errno::EINVAL),
{
    match whence {
        0 => Ok(SeekFrom::SET(offset)),
        1 => Ok(SeekFrom::CURRENT(offset as isize)),
        2 => Ok(SeekFrom::END(offset as isize)),
        _ => Err(Errno::EINVAL),
    }
}

/// What `fcntl` does.
#[derive(Clone, Copy, Debug, PartialEq, Eq, Structural)]
pub enum FcntlAction {
    /// Duplicate the descriptor onto the lowest free one.
    Dup,
    /// Return this value.
    Value(usize),
    /// Return the file's open flags.
    GetFlags,
    /// Set the file's open flags from the argument.
    SetFlags(usize),
}

/// The action of `fcntl` command `cmd` with argument `arg`: duplicating for
/// `DUPFD` and `DUPFDCLOEXEC`, 1 for `GETFD`, the flags for `GETFL`, setting
/// them for `SETFL`, 0 for the rest; an unknown command gives `EINVAL`.
pub fn fcntl_action(cmd: usize, arg: usize) -> (res: Result<FcntlAction, Errno>)
    ensures
        FcntlCmd::spec_from(cmd) is None ==> res == Err::<FcntlAction, Errno>(Errno::EINVAL),
        FcntlCmd::spec_from(cmd) matches Some(c) ==> res == Ok::<FcntlAction, Errno>(
            match c {
                FcntlCmd::DUPFD | FcntlCmd::DUPFDCLOEXEC => FcntlAction::Dup,
                FcntlCmd::GETFD => FcntlAction::Value(1),
                FcntlCmd::GETFL => FcntlAction::GetFlags,
                FcntlCmd::SETFL => FcntlAction::SetFlags(arg),
                _ => FcntlAction::Value(0),
            },
        ),
{
    match FcntlCmd::from_usize(cmd) {
        None => Err(Errno::EINVAL),
        Some(c) => Ok(
            match c {
                FcntlCmd::DUPFD => FcntlAction::Dup,
                FcntlCmd::DUPFDCLOEXEC => FcntlAction::Dup,
                FcntlCmd::GETFD => FcntlAction::Value(1),
                FcntlCmd::GETFL => FcntlAction::GetFlags,
                FcntlCmd::SETFL => FcntlAction::SetFlags(arg),
                _ => FcntlAction::Value(0),
            },
        ),
    }
}

impl FcntlCmd {
    /// The command numbered `value`, as `from_usize` reads it.
    pub open spec fn spec_from(value: usize) -> Option<FcntlCmd> {
        if value == 0 {
            Some(FcntlCmd::DUPFD)
        } else if value == 1 {
            Some(FcntlCmd::GETFD)
        } else if value == 2 {
            Some(FcntlCmd::SETFD)
        } else if value == 3 {
            Some(FcntlCmd::GETFL)
        } else if value == 4 {
            Some(FcntlCmd::SETFL)
        } else if value == 5 {
            Some(FcntlCmd::GETLK)
        } else if value == 6 {
            Some(FcntlCmd::SETLK)
        } else if value == 7 {
            Some(FcntlCmd::SETLKW)
        } else if value == 0x406 {
            Some(FcntlCmd::DUPFDCLOEXEC)
        } else {
            None
        }
    }
}

/// Copies as much of `src` as fits into the front of `dst`; returns how
/// much.
pub fn copy_prefix(src: &[u8], dst: &mut [u8]) -> (res: usize)
    ensures
        res == (if src@.len() < old(dst)@.len() {
            src@.len()
        } else {
            old(dst)@.len()
        }),
        final(dst)@.len() == old(dst)@.len(),
        forall|k: int|
            0 <= k < old(dst)@.len() ==> #[trigger] final(dst)@[k] == (if k < res {
                src@[k]
            } else {
                old(dst)@[k]
            }),
{
    let n = if src.len() < dst.len() {
        src.len()
    } else {
        dst.len()
    };
    let mut i: usize = 0;
    while i < n
        invariant
            n <= src@.len(),
            n <= old(dst)@.len(),
            i <= n,
            dst@.len() == old(dst)@.len(),
            forall|k: int|
                0 <= k < old(dst)@.len() ==> #[trigger] dst@[k] == (if k < i {
                    src@[k]
                } else {
                    old(dst)@[k]
                }),
        decreases n - i,
    {
        dst[i] = src[i];
        i = i + 1;
    }
    n
}

/// `getcwd`: the path bytes, cut to the buffer, followed by zeros to its
/// end.
pub fn fill_cwd(path: &[u8], buffer: &mut [u8])
    ensures
        final(buffer)@.len() == old(buffer)@.len(),
        forall|k: int|
            0 <= k < old(buffer)@.len() ==> #[trigger] final(buffer)@[k] == (if k < path@.len() {
                path@[k]
            } else {
                0u8
            }),
{
    let n = copy_prefix(path, buffer);
    let mut i = n;
    while i < buffer.len()
        invariant
            n <= i <= buffer@.len(),
            buffer@.len() == old(buffer)@.len(),
            n == (if path@.len() < old(buffer)@.len() {
                path@.len()
            } else {
                old(buffer)@.len()
            }),
            forall|k: int|
                0 <= k < old(buffer)@.len() ==> #[trigger] buffer@[k] == (if k < n {
                    path@[k]
                } else if k < i {
                    0u8
                } else {
                    buffer@[k]
                }),
        decreases buffer@.len() - i,
    {
        buffer[i] = 0;
        i = i + 1;
    }
}

/// `sendfile`: the bytes to move from offset `curr_off` of a file of `size`
/// bytes, at most `count`.
pub fn sendfile_len(size: usize, curr_off: usize, count: usize) -> (res: usize)
    requires
        curr_off <= size,
    ensures
        res == (if size - curr_off < count {
            (size - curr_off) as usize
        } else {
            count
        }),
{
    let left = size - curr_off;
    if left < count {
        left
    } else {
        count
    }
}

/// `utimensat`: the access and modification times to set. Without times
/// both are `now`; a time whose `nsec` is `UTIME_NOW` becomes `now`.
pub fn utimens_times(times: Option<(TimeSpec, TimeSpec)>, now: TimeSpec) -> (res: Vec<TimeSpec>)
    ensures
        res@.len() == 2,
        times is None ==> res@[0] == now && res@[1] == now,
        times matches Some(t) ==> res@[0] == (if t.0.nsec == UTIME_NOW {
            now
        } else {
            t.0
        }) && res@[1] == (if t.1.nsec == UTIME_NOW {
            now
        } else {
            t.1
        }),
{
    let mut v: Vec<TimeSpec> = Vec::new();
    match times {
        None => {
            v.push(now);
            v.push(now);
        },
        Some(t) => {
            v.push(
                if t.0.nsec == UTIME_NOW {
                    now
                } else {
                    t.0
                },
            );
            v.push(
                if t.1.nsec == UTIME_NOW {
                    now
                } else {
                    t.1
                },
            );
        },
    }
    v
}

/// How `wait4` waits.
#[derive(Clone, Copy, Debug, PartialEq, Eq, Structural)]
pub enum WaitMode {
    /// Wait until a child exits.
    Block,
    /// Return at once (`WNOHANG`).
    NoHang,
}

/// `wait4`: with no child, `ECHILD`; asked for a child id (`pid != -1`)
/// that no child has, `ECHILD`; options 0, 2, 3 and 10 wait, 1 does not,
/// others give `EPERM`.
pub fn wait4_mode(children: &[usize], pid: isize, options: usize) -> (res: Result<WaitMode, Errno>)
    ensures
        children@.len() == 0 ==> res == Err::<WaitMode, Errno>(Errno::ECHILD),
        children@.len() > 0 && pid != -1 && !children@.contains(pid as usize) ==> res == Err::<
            WaitMode,
            Errno,
        >(Errno::ECHILD),
        children@.len() > 0 && (pid == -1 || children@.contains(pid as usize)) ==> res == (if options
            == 0 || options == 2 || options == 3 || options == 10 {
            Ok::<WaitMode, Errno>(WaitMode::Block)
        } else if options == 1 {
            Ok::<WaitMode, Errno>(WaitMode::NoHang)
        } else {
            Err::<WaitMode, Errno>(Errno::EPERM)
        }),
{
    if children.len() == 0 {
        return Err(Errno::ECHILD);
    }
    if pid != -1 {
        let want = pid as usize;
        let mut found = false;
        let mut i: usize = 0;
        while i < children.len()
            invariant
                i <= children@.len(),
                found == exists|k: int| 0 <= k < i && children@[k] == want,
            decreases children@.len() - i,
        {
            if children[i] == want {
                found = true;
            }
            i = i + 1;
        }
        if !found {
            return Err(Errno::ECHILD);
        }
    }
    if options == 0 || options == 2 || options == 3 || options == 10 {
        Ok(WaitMode::Block)
    } else if options == 1 {
        Ok(WaitMode::NoHang)
    } else {
        Err(Errno::EPERM)
    }
}

/// The status word `wait4` reports for an exit code: the code (taken to
/// 32 bits) shifted up by 8 bits.
pub open spec fn status_of(exit_code: usize) -> i32 {
    ((exit_code as i32) << 8u32) as i32
}

/// The status word `wait4` reports for an exit code (see `status_of`); for
/// codes below 256 that is the code times 256.
pub fn wait_status(exit_code: usize) -> (res: i32)
    ensures
        res == status_of(exit_code),
        exit_code < 256 ==> res == exit_code * 256,
{
    let c = exit_code as i32;
    let r = c << 8u32;
    proof {
        if exit_code < 256 {
            assert(c == exit_code) by (bit_vector)
                requires
                    c == exit_code as i32,
                    exit_code < 256,
            ;
            assert(r == c * 256) by (bit_vector)
                requires
                    r == c << 8u32,
                    0 <= c < 256,
            ;
        }
    }
    r
}

/// What `wait4` finds among the children, each an id and its exit code
/// when it has exited.
#[derive(Clone, Copy, Debug, PartialEq, Eq, Structural)]
pub enum Reaped {
    /// This child has exited: it is taken away and its id and status are
    /// reported.
    Child { pid: usize, status: i32 },
    /// Waiting, no child that `pid` names has exited yet.
    Pending,
    /// Not waiting (`WNOHANG`) and no child that `pid` names has exited: 0
    /// is reported.
    NotYet,
}

/// Whether child `c` is one that `pid` names (-1 names every child).
pub open spec fn named(c: (usize, Option<usize>), pid: isize) -> bool {
    pid == -1 || c.0 == pid as usize
}

/// The first index at or after 0 where `p` holds, if any.
#[verifier::opaque]
pub open spec fn first_index(s: Seq<(usize, Option<usize>)>, p: spec_fn((usize, Option<usize>)) -> bool) -> Option<int> {
    if exists|i: int| 0 <= i < s.len() && p(#[trigger] s[i]) {
        Some(choose|i: int| 0 <= i < s.len() && p(#[trigger] s[i]) && forall|j: int| 0 <= j < i ==> !p(#[trigger] s[j]))
    } else {
        None
    }
}

/// What `first_index` finds: an index where `p` holds, with none before it;
/// `None` when `p` holds nowhere.
pub proof fn lemma_first_index_found(s: Seq<(usize, Option<usize>)>, p: spec_fn((usize, Option<usize>)) -> bool)
    ensures
        first_index(s, p) matches Some(i) ==> 0 <= i < s.len() && p(s[i]) && forall|j: int|
            0 <= j < i ==> !p(#[trigger] s[j]),
        first_index(s, p) is None ==> forall|j: int| 0 <= j < s.len() ==> !p(#[trigger] s[j]),
{
    reveal(first_index);
    if exists|i: int| 0 <= i < s.len() && p(#[trigger] s[i]) {
        let w = choose|i: int| 0 <= i < s.len() && p(#[trigger] s[i]);
        lemma_least(s, p, w);
    }
}

/// Where `p` holds somewhere, it holds at a first index.
proof fn lemma_least(s: Seq<(usize, Option<usize>)>, p: spec_fn((usize, Option<usize>)) -> bool, w: int)
    requires
        0 <= w < s.len(),
        p(s[w]),
    ensures
        exists|i: int| 0 <= i < s.len() && p(#[trigger] s[i]) && forall|j: int| 0 <= j < i ==> !p(#[trigger] s[j]),
    decreases w,
{
    if exists|j: int| 0 <= j < w && p(#[trigger] s[j]) {
        let j = choose|j: int| 0 <= j < w && p(#[trigger] s[j]);
        lemma_least(s, p, j);
    } else {
        assert(forall|j: int| 0 <= j < w ==> !p(#[trigger] s[j]));
    }
}

proof fn lemma_first_index(s: Seq<(usize, Option<usize>)>, p: spec_fn((usize, Option<usize>)) -> bool, i: int)
    requires
        0 <= i < s.len(),
        p(s[i]),
        forall|j: int| 0 <= j < i ==> !p(#[trigger] s[j]),
    ensures
        first_index(s, p) == Some(i),
{
    reveal(first_index);
    let c = choose|c: int| 0 <= c < s.len() && p(#[trigger] s[c]) && forall|j: int| 0 <= j < c ==> !p(#[trigger] s[j]);
    if c < i {
        assert(!p(s[c]));
    } else if c > i {
        assert(!p(s[i]));
    }
}

/// Whether a child's id differs from `id`.
pub open spec fn other_id(id: usize) -> spec_fn((usize, Option<usize>)) -> bool {
    |c: (usize, Option<usize>)| c.0 != id
}

/// The children left when those with id `id` are taken away.
pub open spec fn without(s: Seq<(usize, Option<usize>)>, id: usize) -> Seq<(usize, Option<usize>)> {
    s.filter(other_id(id))
}

/// The child `wait4` reaps: the first child that `pid` names and that has
/// exited, if any (`pid` -1 names every child). With or without `WNOHANG`
/// the same child is chosen; `nohang` only decides what happens when there
/// is none.
pub open spec fn chosen_child(s: Seq<(usize, Option<usize>)>, pid: isize, nohang: bool) -> Option<int> {
    first_index(s, |c: (usize, Option<usize>)| named(c, pid) && c.1 is Some)
}

fn find_child(children: &[(usize, Option<usize>)], pid: isize, nohang: bool) -> (res: Option<usize>)
    ensures
        res matches Some(i) ==> i < children@.len() && chosen_child(children@, pid, nohang) == Some(i as int)
            && children@[i as int].1 is Some,
        res is None ==> chosen_child(children@, pid, nohang) is None,
{
    let ghost s = children@;
    let mut i: usize = 0;
    while i < children.len()
        invariant
            children@ == s,
            i <= s.len(),
            forall|j: int| 0 <= j < i ==> !(named(#[trigger] s[j], pid) && s[j].1 is Some),
        decreases s.len() - i,
    {
        let c = children[i];
        let is_named = pid == -1 || c.0 == pid as usize;
        if is_named && c.1.is_some() {
            proof {
                lemma_first_index(s, |c: (usize, Option<usize>)| named(c, pid) && c.1 is Some, i as int);
            }
            return Some(i);
        }
        i = i + 1;
    }
    proof {
        reveal(first_index);
        assert(first_index(s, |c: (usize, Option<usize>)| named(c, pid) && c.1 is Some) is None);
    }
    None
}

fn remove_id(children: &mut Vec<(usize, Option<usize>)>, id: usize)
    ensures
        final(children)@ == without(old(children)@, id),
{
    let ghost s = children@;
    let mut kept: Vec<(usize, Option<usize>)> = Vec::new();
    let mut k: usize = 0;
    while k < children.len()
        invariant
            children@ == s,
            k <= s.len(),
            kept@ == s.subrange(0, k as int).filter(other_id(id)),
        decreases s.len() - k,
    {
        proof {
            s.subrange(0, k as int).lemma_filter_push(s[k as int], other_id(id));
            assert(s.subrange(0, k + 1) =~= s.subrange(0, k as int).push(s[k as int]));
        }
        if children[k].0 != id {
            kept.push(children[k]);
        }
        k = k + 1;
    }
    proof {
        assert(s.subrange(0, s.len() as int) =~= s);
    }
    *children = kept;
    assert(children@ == without(s, id));
}

/// The reaping step of `wait4` on the children (id and exit code of each)
/// for `pid` (-1 for any child): the first named child that has exited is
/// reaped and taken out of the list. When none has exited, the caller
/// waits on, or, with `WNOHANG`, 0 is reported.
pub fn reap(children: &mut Vec<(usize, Option<usize>)>, pid: isize, nohang: bool) -> (res: Reaped)
    ensures
        ({
            let s = old(children)@;
            match chosen_child(s, pid, nohang) {
                None => res == (if nohang { Reaped::NotYet } else { Reaped::Pending }) && final(children)@ == s
                    && forall|j: int| 0 <= j < s.len() ==> !(named(#[trigger] s[j], pid) && s[j].1 is Some),
                Some(i) => {
                    &&& 0 <= i < s.len()
                    &&& named(s[i], pid)
                    &&& s[i].1 is Some
                    &&& forall|j: int| 0 <= j < i ==> !(named(#[trigger] s[j], pid) && s[j].1 is Some)
                    &&& res == Reaped::Child { pid: s[i].0, status: status_of(s[i].1->0) }
                    &&& final(children)@ == without(s, s[i].0)
                },
            }
        }),
{
    proof {
        lemma_first_index_found(old(children)@, |c: (usize, Option<usize>)| named(c, pid) && c.1 is Some);
    }
    match find_child(children.as_slice(), pid, nohang) {
        None => {
            if nohang {
                Reaped::NotYet
            } else {
                Reaped::Pending
            }
        },
        Some(i) => {
            let c = children[i];
            assert(c == old(children)@[i as int]);
            let code = c.1.unwrap();
            remove_id(children, c.0);
            let status = wait_status(code);
            Reaped::Child { pid: c.0, status }
        },
    }
}

/// The page size of user memory.
pub const PAGE_SIZE: usize = 4096;

/// `len` rounded up to whole pages.
pub fn alignup(len: usize) -> (res: usize)
    requires
        len + PAGE_SIZE - 1 <= usize::MAX,
    ensures
        res % PAGE_SIZE == 0,
        res >= len,
        res < len + PAGE_SIZE,
{
    let r = (len + (PAGE_SIZE - 1)) / PAGE_SIZE * PAGE_SIZE;
    assert(r % PAGE_SIZE == 0 && r >= len && r < len + PAGE_SIZE) by (nonlinear_arith)
        requires
            r == (len + 4095) / 4096 * 4096,
            PAGE_SIZE == 4096,
    ;
    r
}

/// The lowest address `shmat` places shared memory at when none is given.
pub const SHM_AREA_START: u64 = 0x4000_0000;

/// `shmat`: the address to map shared memory at: the given one, or the
/// task's last free address but never below `SHM_AREA_START`.
pub fn shmat_addr(shmaddr: u64, last_free: u64) -> (res: u64)
    ensures
        shmaddr != 0 ==> res == shmaddr,
        shmaddr == 0 ==> res == (if last_free >= SHM_AREA_START {
            last_free
        } else {
            SHM_AREA_START
        }),
{
    if shmaddr == 0 {
        if last_free >= SHM_AREA_START {
            last_free
        } else {
            SHM_AREA_START
        }
    } else {
        shmaddr
    }
}

/// The largest key of a list, or 0 for none.
pub open spec fn max_key(keys: Seq<usize>) -> int
    decreases keys.len(),
{
    if keys.len() == 0 {
        0
    } else {
        let m = max_key(keys.drop_last());
        if keys.last() > m {
            keys.last() as int
        } else {
            m
        }
    }
}

/// The flag of `shmget` that asks to create the segment.
pub const IPC_CREAT: usize = 0o1000;

/// What `shmget` does.
#[derive(Clone, Copy, Debug, PartialEq, Eq, Structural)]
pub enum ShmGet {
    /// The segment exists: return its key.
    Existing(usize),
    /// Make a segment under this key.
    Create(usize),
}

/// `shmget`: key 0 asks for a new key, one past the largest in use; a key
/// in use is returned as it is; otherwise a segment is made when
/// `IPC_CREAT` is set, else `ENOENT`.
pub fn shmget_action(key: usize, keys: &[usize], shmflg: usize) -> (res: Result<ShmGet, Errno>)
    requires
        max_key(keys@) < usize::MAX,
    ensures
        ({
            let k: int = if key == 0 {
                max_key(keys@) + 1
            } else {
                key as int
            };
            if keys@.contains(k as usize) {
                res == Ok::<ShmGet, Errno>(ShmGet::Existing(k as usize))
            } else if shmflg & IPC_CREAT != 0 {
                res == Ok::<ShmGet, Errno>(ShmGet::Create(k as usize))
            } else {
                res == Err::<ShmGet, Errno>(Errno::ENOENT)
            }
        }),
{
    let mut k = key;
    if key == 0 {
        let mut m: usize = 0;
        let mut i: usize = 0;
        proof {
            assert(keys@.subrange(0, 0) =~= Seq::<usize>::empty());
        }
        while i < keys.len()
            invariant
                i <= keys@.len(),
                m == max_key(keys@.subrange(0, i as int)),
            decreases keys@.len() - i,
        {
            proof {
                assert(keys@.subrange(0, i + 1).drop_last() =~= keys@.subrange(0, i as int));
            }
            if keys[i] > m {
                m = keys[i];
            }
            i = i + 1;
        }
        proof {
            assert(keys@.subrange(0, keys@.len() as int) =~= keys@);
        }
        k = m + 1;
    }
    let mut found = false;
    let mut i: usize = 0;
    while i < keys.len()
        invariant
            i <= keys@.len(),
            found == exists|j: int| 0 <= j < i && keys@[j] == k,
        decreases keys@.len() - i,
    {
        if keys[i] == k {
            found = true;
        }
        i = i + 1;
    }
    if found {
        Ok(ShmGet::Existing(k))
    } else if shmflg & IPC_CREAT != 0 {
        Ok(ShmGet::Create(k))
    } else {
        Err(Errno::ENOENT)
    }
}

/// `mkdirat` refuses to make the root.
pub fn mkdir_check(path: &str) -> (res: Result<(), Errno>)
    ensures
        res is Err <==> path@ == seq!['/'],
        res matches Err(e) ==> e == Errno::EEXIST,
{
    if path.unicode_len() == 1 && path.get_char(0) == '/' {
        proof {
            assert(path@ =~= seq!['/']);
        }
        Err(Errno::EEXIST)
    } else {
        proof {
            if path@ == seq!['/'] {
                assert(path@.len() == 1);
            }
        }
        Ok(())
    }
}

/// The word a system call leaves in the return register: its result, or
/// its error number negated and wrapped to a word.
pub open spec fn ret_word(res: Result<usize, Errno>) -> int {
    match res {
        Ok(x) => x as int,
        Err(e) => usize::MAX as int + 1 - errno_code(e),
    }
}

/// The return register's value for the outcome of a system call.
pub fn syscall_ret(res: Result<usize, Errno>) -> (r: usize)
    ensures
        r == ret_word(res),
{
    match res {
        Ok(x) => x,
        Err(e) => {
            let code = e.code();
            assert(0 < code <= 114);
            0usize.wrapping_sub(code as usize)
        },
    }
}

} // verus!
