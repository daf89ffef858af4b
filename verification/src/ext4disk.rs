//! The block cursor that the ext4 driver moves over a disk, and the node
//! kinds of ext4.
use vstd::prelude::*;
use crate::vfs::FileType;

verus! {

/// The size of one disk block.
pub const BLOCK_SIZE: usize = 0x200;

/// Where a seek counts from.
pub const SEEK_SET: i32 = 0;
pub const SEEK_CUR: i32 = 1;
pub const SEEK_END: i32 = 2;

/// A cursor over block device `blk_id`: a block and an offset in it.
pub struct Ext4DiskWrapper {
    block_id: usize,
    offset: usize,
    blk_id: usize,
}

impl Ext4DiskWrapper {
    /// The block the cursor is in.
    pub closed spec fn block_view(&self) -> usize {
        self.block_id
    }

    /// The offset of the cursor in its block.
    pub closed spec fn offset_view(&self) -> usize {
        self.offset
    }

    /// The device the cursor moves over.
    pub closed spec fn device_view(&self) -> usize {
        self.blk_id
    }

    /// The byte position of the cursor.
    pub open spec fn position_view(&self) -> int {
        self.block_view() * BLOCK_SIZE + self.offset_view()
    }

    /// A cursor at the start of device `blk_id`.
    pub fn new(blk_id: usize) -> (res: Self)
        ensures
            res.block_view() == 0,
            res.offset_view() == 0,
            res.device_view() == blk_id,
    {
        Ext4DiskWrapper { block_id: 0, offset: 0, blk_id }
    }

    /// The byte position of the cursor.
    pub fn position(&self) -> (res: u64)
        requires
            self.position_view() <= usize::MAX,
        ensures
            res == self.position_view(),
    {
        (self.block_id * BLOCK_SIZE + self.offset) as u64
    }

    /// Moves the cursor to byte `pos` (taken as a `usize`): block
    /// `pos / BLOCK_SIZE`, offset `pos % BLOCK_SIZE`.
    pub fn set_position(&mut self, pos: u64)
        ensures
            final(self).block_view() == (pos as usize) / BLOCK_SIZE,
            final(self).offset_view() == (pos as usize) % BLOCK_SIZE,
            final(self).device_view() == old(self).device_view(),
    {
        let p = pos as usize;
        self.block_id = p / BLOCK_SIZE;
        self.offset = p % BLOCK_SIZE;
    }

    /// Moves the cursor by `off` from the start (`SEEK_SET`), the cursor
    /// (`SEEK_CUR`) or the end of a device of `size` bytes (`SEEK_END`);
    /// any other `whence` counts from the start. A position below 0 or past
    /// the integer range gives `Err(-1)`, with the cursor unmoved.
    pub fn seek(&mut self, off: i64, whence: i32, size: u64) -> (res: Result<i64, i32>)
        requires
            old(self).position_view() <= usize::MAX,
        ensures
            ({
                let target: int = if whence == SEEK_CUR {
                    old(self).position_view() + off
                } else if whence == SEEK_END {
                    size + off
                } else {
                    off as int
                };
                let ok = if whence == SEEK_CUR || whence == SEEK_END {
                    0 <= target <= u64::MAX
                } else {
                    true
                };
                &&& ok ==> res == Ok::<i64, i32>(target as i64)
                    && final(self).block_view() == ((target as i64) as u64 as usize) / BLOCK_SIZE
                    && final(self).offset_view() == ((target as i64) as u64 as usize) % BLOCK_SIZE
                &&& !ok ==> res == Err::<i64, i32>(-1i32) && final(self).block_view() == old(
                    self,
                ).block_view() && final(self).offset_view() == old(self).offset_view()
                &&& final(self).device_view() == old(self).device_view()
            }),
    {
        let new_pos: Option<i64> = if whence == SEEK_CUR {
            match self.position().checked_add_signed(off) {
                Some(v) => Some(v as i64),
                None => None,
            }
        } else if whence == SEEK_END {
            match size.checked_add_signed(off) {
                Some(v) => Some(v as i64),
                None => None,
            }
        } else {
            Some(off)
        };
        match new_pos {
            Some(p) => {
                self.set_position(p as u64);
                Ok(p)
            },
            None => Err(-1),
        }
    }
}

/// The node kinds that ext4 directory entries and inode modes name.
#[derive(Clone, Copy, Debug, PartialEq, Eq, Structural)]
#[allow(non_camel_case_types)]
pub enum InodeTypes {
    EXT4_DE_UNKNOWN,
    EXT4_DE_REG_FILE,
    EXT4_DE_DIR,
    EXT4_DE_CHRDEV,
    EXT4_DE_BLKDEV,
    EXT4_DE_FIFO,
    EXT4_DE_SOCK,
    EXT4_DE_SYMLINK,
    EXT4_INODE_MODE_FIFO,
    EXT4_INODE_MODE_CHARDEV,
    EXT4_INODE_MODE_DIRECTORY,
    EXT4_INODE_MODE_BLOCKDEV,
    EXT4_INODE_MODE_FILE,
    EXT4_INODE_MODE_SOFTLINK,
    EXT4_INODE_MODE_SOCKET,
    EXT4_INODE_MODE_TYPE_MASK,
}

/// Whether a kind is one of the directory-entry kinds.
pub open spec fn is_entry_type(t: InodeTypes) -> bool {
    match t {
        InodeTypes::EXT4_DE_UNKNOWN | InodeTypes::EXT4_DE_REG_FILE | InodeTypes::EXT4_DE_DIR
        | InodeTypes::EXT4_DE_CHRDEV | InodeTypes::EXT4_DE_BLKDEV | InodeTypes::EXT4_DE_FIFO
        | InodeTypes::EXT4_DE_SOCK | InodeTypes::EXT4_DE_SYMLINK => true,
        _ => false,
    }
}

/// The file kind of a directory-entry kind: unknown and regular entries are
/// files; character and block devices and fifos are devices.
pub fn map_ext4_type(value: InodeTypes) -> (res: FileType)
    requires
        is_entry_type(value),
    ensures
        res == match value {
            InodeTypes::EXT4_DE_DIR => FileType::Directory,
            InodeTypes::EXT4_DE_CHRDEV | InodeTypes::EXT4_DE_BLKDEV
            | InodeTypes::EXT4_DE_FIFO => FileType::Device,
            InodeTypes::EXT4_DE_SOCK => FileType::Socket,
            InodeTypes::EXT4_DE_SYMLINK => FileType::Link,
            _ => FileType::File,
        },
{
    match value {
        InodeTypes::EXT4_DE_UNKNOWN => FileType::File,
        InodeTypes::EXT4_DE_REG_FILE => FileType::File,
        InodeTypes::EXT4_DE_DIR => FileType::Directory,
        InodeTypes::EXT4_DE_CHRDEV => FileType::Device,
        InodeTypes::EXT4_DE_BLKDEV => FileType::Device,
        InodeTypes::EXT4_DE_FIFO => FileType::Device,
        InodeTypes::EXT4_DE_SOCK => FileType::Socket,
        InodeTypes::EXT4_DE_SYMLINK => FileType::Link,
        _ => FileType::File,
    }
}

impl Ext4DiskWrapper {
    /// A whole-block read or write of `len` bytes at the cursor: the block it
    /// starts at; the cursor moves past the blocks it covers.
    pub fn transfer(&mut self, len: usize) -> (res: usize)
        requires
            old(self).offset_view() % BLOCK_SIZE == 0,
            old(self).block_view() + len / BLOCK_SIZE <= usize::MAX,
        ensures
            res == old(self).block_view(),
            final(self).block_view() == old(self).block_view() + len / BLOCK_SIZE,
            final(self).offset_view() == old(self).offset_view(),
            final(self).device_view() == old(self).device_view(),
    {
        let b = self.block_id;
        self.block_id = b + len / BLOCK_SIZE;
        b
    }
}

/// The block size of the ext4 file system that `ext4_rs` reads.
pub const EXT4_BLOCK: usize = 4096;

/// The sector size of the disk.
pub const SECTOR: usize = 512;

/// `read_offset`: the file system block at byte `offset` of the disk, read
/// as the eight sectors from the one holding `offset` (`sectors`, one after
/// another): the bytes from `offset` on, then zeros for the part of the
/// first sector before it.
pub open spec fn block_at(offset: usize, sectors: Seq<u8>) -> Seq<u8> {
    let off = offset % SECTOR;
    Seq::new(EXT4_BLOCK as nat, |k: int| if k < EXT4_BLOCK - off { sectors[off + k] } else { 0u8 })
}

/// The sectors `read_offset` reads: from the one holding `offset`, eight of
/// them.
pub fn read_offset_sectors(offset: usize) -> (res: (usize, usize))
    ensures
        res == (offset / SECTOR, EXT4_BLOCK / SECTOR),
{
    (offset / SECTOR, EXT4_BLOCK / SECTOR)
}

/// `read_offset`, once the eight sectors are read (see `block_at`).
pub fn assemble_block(offset: usize, sectors: &[u8]) -> (res: Vec<u8>)
    requires
        sectors@.len() == EXT4_BLOCK,
    ensures
        res@ == block_at(offset, sectors@),
{
    let off = offset % SECTOR;
    let mut buf: Vec<u8> = Vec::new();
    let mut k: usize = 0;
    while k < EXT4_BLOCK
        invariant
            off == offset % SECTOR,
            sectors@.len() == EXT4_BLOCK,
            k <= EXT4_BLOCK,
            buf@ == block_at(offset, sectors@).subrange(0, k as int),
        decreases EXT4_BLOCK - k,
    {
        if k < EXT4_BLOCK - off {
            buf.push(sectors[off + k]);
        } else {
            buf.push(0);
        }
        proof {
            assert(buf@ =~= block_at(offset, sectors@).subrange(0, k + 1));
        }
        k = k + 1;
    }
    proof {
        assert(block_at(offset, sectors@).subrange(0, EXT4_BLOCK as int) =~= block_at(offset, sectors@));
    }
    buf
}

/// How many sectors `write_offset` writes for `len` bytes.
pub open spec fn write_sector_count(len: int) -> int {
    (len + SECTOR - 1) / SECTOR as int
}

/// Whether `write_offset` reads a sector before writing it: only when
/// fewer than a sector's bytes are written.
pub open spec fn write_reads_first(len: int) -> bool {
    len < SECTOR
}

/// Sector `i` of a `write_offset` of `buf` at byte `offset`, given the
/// sector as it was read (`old`, or zeros when it is not read): its part of
/// `buf` (the `i`-th run of a sector's size) put at the offset in the
/// sector for the first one, at its start for the others.
pub open spec fn sector_after(offset: usize, buf: Seq<u8>, i: int, old: Seq<u8>) -> Seq<u8> {
    let at = if i == 0 { offset % SECTOR } else { 0 };
    let s = i * SECTOR;
    let e = if s + SECTOR > buf.len() { buf.len() as int } else { s + SECTOR };
    Seq::new(SECTOR as nat, |k: int| if at <= k < at + (e - s) { buf[s + k - at] } else { old[k] })
}

/// The number of sectors `write_offset` writes and the first of them.
pub fn write_offset_sectors(offset: usize, len: usize) -> (res: (usize, usize))
    requires
        len + SECTOR <= usize::MAX,
    ensures
        res == (offset / SECTOR, write_sector_count(len as int) as usize),
{
    (offset / SECTOR, (len + SECTOR - 1) / SECTOR)
}

/// Sector `i` of a `write_offset` (see `sector_after`), from the sector as
/// read (`old`; all zeros where `write_reads_first` does not hold).
pub fn write_sector(offset: usize, buf: &[u8], i: usize, old: &[u8]) -> (res: Vec<u8>)
    requires
        old@.len() == SECTOR,
        0 <= i < write_sector_count(buf@.len() as int),
        i * SECTOR + SECTOR <= usize::MAX,
        i == 0 ==> offset % SECTOR + (if buf@.len() < SECTOR { buf@.len() as int } else { SECTOR as int })
            <= SECTOR,
    ensures
        res@ == sector_after(offset, buf@, i as int, old@),
{
    let at = if i == 0 {
        offset % SECTOR
    } else {
        0
    };
    let s = i * SECTOR;
    let e = if s + SECTOR > buf.len() {
        buf.len()
    } else {
        s + SECTOR
    };
    assert(s < buf@.len()) by (nonlinear_arith)
        requires
            0 <= i < (buf@.len() + 511) / 512,
            s == i * 512,
    ;
    let mut out: Vec<u8> = Vec::new();
    let mut k: usize = 0;
    while k < SECTOR
        invariant
            old@.len() == SECTOR,
            at + (e - s) <= SECTOR,
            s <= e <= buf@.len(),
            e - s <= SECTOR,
            k <= SECTOR,
            at == (if i == 0 { offset % SECTOR } else { 0 }),
            s == i * SECTOR,
            e == (if s + SECTOR > buf@.len() { buf@.len() as int } else { s + SECTOR }),
            out@ == sector_after(offset, buf@, i as int, old@).subrange(0, k as int),
        decreases SECTOR - k,
    {
        if at <= k && k < at + (e - s) {
            out.push(buf[s + k - at]);
        } else {
            out.push(old[k]);
        }
        proof {
            assert(out@ =~= sector_after(offset, buf@, i as int, old@).subrange(0, k + 1));
        }
        k = k + 1;
    }
    proof {
        assert(sector_after(offset, buf@, i as int, old@).subrange(0, SECTOR as int) =~= sector_after(
            offset,
            buf@,
            i as int,
            old@,
        ));
    }
    out
}

} // verus!
