//! Small device nodes and the bookkeeping of the block device's DMA.
use vstd::prelude::*;
use crate::consts::{from_vfs, vfs_errno};
use crate::errno::Errno;
use crate::vfs::{Stat, VfsError, S_IFCHR};

verus! {

/// `/proc/meminfo`: reads as empty.
pub struct MemInfo {}

impl MemInfo {
    pub fn new() -> (res: Self) {
        MemInfo {  }
    }

    /// Reading gives no bytes, at any offset.
    pub fn readat(&self, offset: usize, buffer: &mut [u8]) -> (res: Result<usize, Errno>)
        ensures
            res == Ok::<usize, Errno>(0),
            final(buffer)@ == old(buffer)@,
    {
        Ok(0)
    }

    /// A character device owned by user 1000, of size 0.
    pub fn stat(&self, stat: &mut Stat) -> (res: Result<(), Errno>)
        ensures
            res == Ok::<(), Errno>(()),
            char_node_stat(*old(stat), *final(stat)),
    {
        fill_char_stat(stat);
        Ok(())
    }
}

/// What a character device node reports to `stat`: all but the times set.
pub open spec fn char_node_stat(before: Stat, after: Stat) -> bool {
    &&& after.dev == 0
    &&& after.ino == 1
    &&& after.mode == S_IFCHR
    &&& after.nlink == 1
    &&& after.uid == 1000
    &&& after.gid == 1000
    &&& after.size == 0
    &&& after.blksize == 512
    &&& after.blocks == 0
    &&& after.rdev == 0
    &&& after.atime == before.atime
    &&& after.mtime == before.mtime
    &&& after.ctime == before.ctime
}

fn fill_char_stat(stat: &mut Stat)
    ensures
        char_node_stat(*old(stat), *final(stat)),
{
    stat.dev = 0;
    stat.ino = 1;
    stat.mode = S_IFCHR;
    stat.nlink = 1;
    stat.uid = 1000;
    stat.gid = 1000;
    stat.size = 0;
    stat.blksize = 512;
    stat.blocks = 0;
    stat.rdev = 0;
}

/// A disk device node (`/dev/sdX`): the paths it is mounted at, the latest
/// last. Mounting and unmounting themselves are done by the caller with the
/// device id and path handed out here.
pub struct Sdx {
    id: usize,
    mount_paths: Vec<String>,
}

impl Sdx {
    /// The id of the disk.
    pub closed spec fn device(&self) -> usize {
        self.id
    }

    /// The id of the disk, which mounting and unmounting are done with.
    pub fn device_id(&self) -> (res: usize)
        ensures
            res == self.device(),
    {
        self.id
    }

    /// The paths it is mounted at, the latest last.
    pub closed spec fn mounts(&self) -> Seq<Seq<char>> {
        self.mount_paths@.map_values(|p: String| p@)
    }

    pub fn new(device_id: usize) -> (res: Self)
        ensures
            res.device() == device_id,
            res.mounts() == Seq::<Seq<char>>::empty(),
    {
        Sdx { id: device_id, mount_paths: Vec::new() }
    }

    /// Records a mount at `path`.
    pub fn mount(&mut self, path: &str)
        ensures
            final(self).device() == old(self).device(),
            final(self).mounts() == old(self).mounts().push(path@),
    {
        self.mount_paths.push(path.to_string());
        proof {
            assert(self.mounts() =~= old(self).mounts().push(path@));
        }
    }

    /// Takes back the latest mount, whose path is returned.
    pub fn umount(&mut self) -> (res: String)
        requires
            old(self).mounts().len() > 0,
        ensures
            final(self).device() == old(self).device(),
            res@ == old(self).mounts().last(),
            final(self).mounts() == old(self).mounts().drop_last(),
    {
        let path = self.mount_paths.pop().unwrap();
        proof {
            assert(self.mounts() =~= old(self).mounts().drop_last());
        }
        path
    }

    /// A character device owned by user 1000, of size 0.
    pub fn stat(&self, stat: &mut Stat) -> (res: Result<(), Errno>)
        ensures
            res == Ok::<(), Errno>(()),
            char_node_stat(*old(stat), *final(stat)),
    {
        fill_char_stat(stat);
        Ok(())
    }
}

/// The network device's side of the stack.
pub struct NetMod;

impl NetMod {
    /// The fixed MAC address of the network card.
    pub fn local_mac_address() -> (res: [u8; 6])
        ensures
            res@ == seq![0x52u8, 0x54u8, 0x00u8, 0x12u8, 0x34u8, 0x56u8],
    {
        let mac: [u8; 6] = [0x52, 0x54, 0x00, 0x12, 0x34, 0x56];
        proof {
            assert(mac@ =~= seq![0x52u8, 0x54u8, 0x00u8, 0x12u8, 0x34u8, 0x56u8]);
        }
        mac
    }
}

/// The page size the DMA bookkeeping works in.
pub const DMA_PAGE_SIZE: usize = 4096;

/// The block device's DMA memory: where the next allocation starts, and the
/// physical frame found for each virtual page so far.
pub struct HalImpl {
    next_addr: usize,
    frames: Vec<(usize, usize)>,
}

impl HalImpl {
    /// Where the next allocation starts.
    pub closed spec fn next(&self) -> usize {
        self.next_addr
    }

    /// The frame known for each virtual page.
    pub closed spec fn frame_map(&self) -> Map<usize, usize> {
        Map::new(
            |page: usize| exists|i: int| 0 <= i < self.frames@.len() && self.frames@[i].0 == page,
            |page: usize|
                self.frames@[choose|i: int| 0 <= i < self.frames@.len() && self.frames@[i].0 == page].1,
        )
    }

    /// Each page is recorded once, with a frame whose address fits.
    pub closed spec fn wf(&self) -> bool {
        &&& forall|i: int, j: int|
            0 <= i < j < self.frames@.len() ==> #[trigger] self.frames@[i].0 != #[trigger] self.frames@[j].0
        &&& forall|i: int|
            0 <= i < self.frames@.len() ==> #[trigger] self.frames@[i].1 <= usize::MAX / DMA_PAGE_SIZE
    }

    /// Bookkeeping that hands out DMA memory from `start` on.
    pub fn new(start: usize) -> (res: Self)
        ensures
            res.wf(),
            res.next() == start,
            res.frame_map() == Map::<usize, usize>::empty(),
    {
        let res = HalImpl { next_addr: start, frames: Vec::new() };
        proof {
            assert(res.frame_map() =~= Map::<usize, usize>::empty());
        }
        res
    }

    /// Takes `pages` pages from the DMA area; returns their virtual address.
    pub fn dma_alloc(&mut self, pages: usize) -> (res: usize)
        requires
            old(self).next() + pages * DMA_PAGE_SIZE <= usize::MAX,
        ensures
            res == old(self).next(),
            final(self).next() == old(self).next() + pages * DMA_PAGE_SIZE,
            final(self).frame_map() == old(self).frame_map(),
            final(self).wf() == old(self).wf(),
    {
        let vaddr = self.next_addr;
        assert(pages * DMA_PAGE_SIZE <= usize::MAX);
        self.next_addr = vaddr + pages * DMA_PAGE_SIZE;
        vaddr
    }

    /// The physical address of `vaddr` when its page's frame is known.
    pub fn cached_paddr(&self, vaddr: usize) -> (res: Option<usize>)
        requires
            self.wf(),
        ensures
            self.frame_map().contains_key(vaddr / DMA_PAGE_SIZE) ==> res == Some(
                (self.frame_map()[vaddr / DMA_PAGE_SIZE] * DMA_PAGE_SIZE + vaddr % DMA_PAGE_SIZE) as usize,
            ),
            !self.frame_map().contains_key(vaddr / DMA_PAGE_SIZE) ==> res is None,
    {
        let page = vaddr / DMA_PAGE_SIZE;
        let offset = vaddr % DMA_PAGE_SIZE;
        let mut i: usize = 0;
        while i < self.frames.len()
            invariant
                self.wf(),
                page == vaddr / DMA_PAGE_SIZE,
                offset == vaddr % DMA_PAGE_SIZE,
                i <= self.frames@.len(),
                forall|k: int| 0 <= k < i ==> #[trigger] self.frames@[k].0 != page,
            decreases self.frames@.len() - i,
        {
            if self.frames[i].0 == page {
                let frame = self.frames[i].1;
                proof {
                    assert(self.frame_map().contains_key(page));
                    let c = choose|k: int| 0 <= k < self.frames@.len() && self.frames@[k].0 == page;
                    assert(c == i as int);
                    assert(self.frame_map()[page] == frame);
                    assert(frame <= usize::MAX / DMA_PAGE_SIZE);
                    assert(frame * 4096 + offset <= usize::MAX) by (nonlinear_arith)
                        requires
                            frame <= usize::MAX / 4096,
                            offset < 4096,
                    ;
                }
                return Some(frame * DMA_PAGE_SIZE + offset);
            }
            i = i + 1;
        }
        None
    }

    /// Records the frame of the page of `vaddr`, whose physical address was
    /// found to be `paddr`, unless that page is known already.
    pub fn record(&mut self, vaddr: usize, paddr: usize)
        requires
            old(self).wf(),
        ensures
            final(self).wf(),
            final(self).next() == old(self).next(),
            final(self).frame_map() == (if old(self).frame_map().contains_key(vaddr / DMA_PAGE_SIZE) {
                old(self).frame_map()
            } else {
                old(self).frame_map().insert(vaddr / DMA_PAGE_SIZE, paddr / DMA_PAGE_SIZE)
            }),
    {
        let page = vaddr / DMA_PAGE_SIZE;
        let mut i: usize = 0;
        while i < self.frames.len()
            invariant
                *self == *old(self),
                self.wf(),
                page == vaddr / DMA_PAGE_SIZE,
                i <= self.frames@.len(),
                forall|k: int| 0 <= k < i ==> #[trigger] self.frames@[k].0 != page,
            decreases self.frames@.len() - i,
        {
            if self.frames[i].0 == page {
                proof {
                    assert(self.frame_map().contains_key(page));
                    assert(old(self).frame_map().contains_key(vaddr / DMA_PAGE_SIZE));
                    assert(self.frame_map() == old(self).frame_map());
                }
                return;
            }
            i = i + 1;
        }
        let ghost before = self.frame_map();
        let ghost old_frames = self.frames@;
        proof {
            assert(!before.contains_key(page));
        }
        self.frames.push((page, paddr / DMA_PAGE_SIZE));
        proof {
            let n = old_frames.len() as int;
            assert(self.frames@[n] == (page, paddr / DMA_PAGE_SIZE));
            assert forall|p: usize| #[trigger] self.frame_map().contains_key(p) == before.insert(
                page,
                paddr / DMA_PAGE_SIZE,
            ).contains_key(p) by {
                if p == page {
                    assert(self.frames@[n].0 == p);
                } else {
                    if before.contains_key(p) {
                        let k = choose|k: int| 0 <= k < old_frames.len() && old_frames[k].0 == p;
                        assert(self.frames@[k].0 == p);
                    }
                    if self.frame_map().contains_key(p) {
                        let k = choose|k: int| 0 <= k < self.frames@.len() && self.frames@[k].0 == p;
                        assert(k != n);
                        assert(old_frames[k].0 == p);
                    }
                }
            }
            assert forall|p: usize| #[trigger] self.frame_map().contains_key(p) implies self.frame_map()[p]
                == before.insert(page, paddr / DMA_PAGE_SIZE)[p] by {
                let k = choose|k: int| 0 <= k < self.frames@.len() && self.frames@[k].0 == p;
                if p == page {
                    assert(k == n);
                } else {
                    assert(k != n);
                    assert(old_frames[k].0 == p);
                    let k2 = choose|k2: int| 0 <= k2 < old_frames.len() && old_frames[k2].0 == p;
                    assert(old_frames[k2].0 == p);
                    assert(k2 == k);
                }
            }
            assert(self.frame_map() =~= before.insert(page, paddr / DMA_PAGE_SIZE));
        }
    }
}

/// Makes the executable at a path cached: what opening it gave (`opened`,
/// the open being done by the caller) decides, its error taken to an errno.
pub fn cache_exec_file(opened: Result<(), VfsError>) -> (res: Result<(), Errno>)
    ensures
        opened is Ok ==> res == Ok::<(), Errno>(()),
        opened matches Err(e) ==> res == Err::<(), Errno>(vfs_errno(e)),
{
    match opened {
        Ok(()) => Ok(()),
        Err(e) => Err(from_vfs(e)),
    }
}

} // verus!
