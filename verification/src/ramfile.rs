//! The contents of a file held in memory, page by page.
use vstd::prelude::*;
use crate::errno::Errno;
use crate::vfs::{Stat, TimeSpec, S_IFREG, UTIME_OMIT};

verus! {

/// The size of one page of file data.
pub const PAGE_SIZE: usize = 4096;

/// The bytes of a list of pages, one after another.
pub open spec fn page_bytes(pages: Seq<Vec<u8>>) -> Seq<u8> {
    Seq::new(
        (pages.len() * PAGE_SIZE) as nat,
        |k: int| pages[k / (PAGE_SIZE as int)]@[k % (PAGE_SIZE as int)],
    )
}

/// Every page holds exactly one page of bytes.
pub open spec fn pages_full(pages: Seq<Vec<u8>>) -> bool {
    forall|i: int| 0 <= i < pages.len() ==> (#[trigger] pages[i])@.len() == PAGE_SIZE
}

/// The number of pages that `n` bytes take.
pub open spec fn pages_for(n: int) -> int {
    (n + PAGE_SIZE - 1) / (PAGE_SIZE as int)
}

/// What a file holds after `data` is written at `offset`: the write range
/// holds `data`, bytes before the old end are kept, and a gap between the old
/// end and `offset` reads as zeros.
pub open spec fn write_result(old: Seq<u8>, offset: int, data: Seq<u8>) -> Seq<u8> {
    let end = offset + data.len();
    let new_len = if old.len() >= end {
        old.len() as int
    } else {
        end
    };
    Seq::new(
        new_len as nat,
        |k: int|
            if offset <= k < end {
                data[k - offset]
            } else if k < old.len() {
                old[k]
            } else {
                0u8
            },
    )
}

/// What a file holds after it is cut or grown to `size` bytes: the first
/// bytes are kept and new bytes read as zeros.
pub open spec fn truncate_result(old: Seq<u8>, size: int) -> Seq<u8> {
    Seq::new(size as nat, |k: int| if k < old.len() { old[k] } else { 0u8 })
}

/// The number of bytes a read at `offset` into a buffer of `buf_len` bytes
/// hands back from a file of `file_len` bytes.
pub open spec fn read_len(file_len: int, offset: int, buf_len: int) -> int {
    if offset >= file_len {
        0
    } else if buf_len < file_len - offset {
        buf_len
    } else {
        file_len - offset
    }
}

proof fn lemma_page_of(k: int, n: int)
    requires
        0 <= k < n * PAGE_SIZE,
    ensures
        0 <= k / (PAGE_SIZE as int) < n,
        0 <= k % (PAGE_SIZE as int) < PAGE_SIZE,
{
    assert(0 <= k / 4096 < n) by (nonlinear_arith)
        requires
            0 <= k < n * 4096,
    ;
}

proof fn lemma_in_page(off: int, j: int)
    requires
        0 <= off,
        0 <= j,
        off % (PAGE_SIZE as int) + j < PAGE_SIZE,
    ensures
        (off + j) / (PAGE_SIZE as int) == off / (PAGE_SIZE as int),
        (off + j) % (PAGE_SIZE as int) == off % (PAGE_SIZE as int) + j,
{
    assert((off + j) / 4096 == off / 4096 && (off + j) % 4096 == off % 4096 + j) by (nonlinear_arith)
        requires
            0 <= off,
            0 <= j,
            off % 4096 + j < 4096,
    ;
}

proof fn lemma_pages_for(n: int)
    requires
        0 <= n,
    ensures
        pages_for(n) * PAGE_SIZE >= n,
        pages_for(n) >= 0,
        n % (PAGE_SIZE as int) == 0 ==> pages_for(n) == n / (PAGE_SIZE as int),
        n % (PAGE_SIZE as int) != 0 ==> pages_for(n) == n / (PAGE_SIZE as int) + 1,
        forall|k: int| 0 <= k < n ==> #[trigger] (k / (PAGE_SIZE as int)) < pages_for(n),
{
    assert((n + 4095) / 4096 * 4096 >= n && (n + 4095) / 4096 >= 0) by (nonlinear_arith)
        requires
            0 <= n,
    ;
    assert(n % 4096 == 0 ==> (n + 4095) / 4096 == n / 4096) by (nonlinear_arith)
        requires
            0 <= n,
    ;
    assert(n % 4096 != 0 ==> (n + 4095) / 4096 == n / 4096 + 1) by (nonlinear_arith)
        requires
            0 <= n,
    ;
    assert forall|k: int| 0 <= k < n implies #[trigger] (k / (PAGE_SIZE as int)) < pages_for(n) by {
        assert(k / 4096 <= (n - 1) / 4096) by (nonlinear_arith)
            requires
                0 <= k < n,
        ;
        assert((n - 1) / 4096 < (n + 4095) / 4096) by (nonlinear_arith)
            requires
                0 < n,
        ;
    }
}

/// The page count for `n` bytes, rounded up.
fn div_ceil_page(n: usize) -> (res: usize)
    ensures
        res == pages_for(n as int),
{
    proof {
        lemma_pages_for(n as int);
    }
    if n % PAGE_SIZE == 0 {
        n / PAGE_SIZE
    } else {
        n / PAGE_SIZE + 1
    }
}

/// A page of zeros.
fn zero_page() -> (res: Vec<u8>)
    ensures
        res@ == Seq::new(PAGE_SIZE as nat, |k: int| 0u8),
{
    let mut v: Vec<u8> = Vec::new();
    let mut i: usize = 0;
    while i < PAGE_SIZE
        invariant
            i <= PAGE_SIZE,
            v@ == Seq::new(i as nat, |k: int| 0u8),
        decreases PAGE_SIZE - i,
    {
        v.push(0u8);
        i = i + 1;
        proof {
            assert(v@ =~= Seq::new(i as nat, |k: int| 0u8));
        }
    }
    v
}

/// Sets the bytes of `page` from `from` to its end to zero.
fn zero_tail(page: &mut Vec<u8>, from: usize)
    requires
        from <= old(page)@.len(),
    ensures
        final(page)@.len() == old(page)@.len(),
        forall|k: int|
            0 <= k < old(page)@.len() ==> #[trigger] final(page)@[k] == (if k < from {
                old(page)@[k]
            } else {
                0u8
            }),
{
    let mut i = from;
    while i < page.len()
        invariant
            from <= i <= page@.len(),
            page@.len() == old(page)@.len(),
            forall|k: int|
                0 <= k < page@.len() ==> #[trigger] page@[k] == (if k < from || k >= i {
                    old(page)@[k]
                } else {
                    0u8
                }),
        decreases page@.len() - i,
    {
        page.set(i, 0u8);
        i = i + 1;
    }
}

/// Sets the bytes of page `idx` from position `from` on to zero.
fn zero_page_tail(pages: &mut Vec<Vec<u8>>, idx: usize, from: usize)
    requires
        pages_full(old(pages)@),
        idx < old(pages)@.len(),
        from <= PAGE_SIZE,
    ensures
        pages_full(final(pages)@),
        final(pages)@.len() == old(pages)@.len(),
        forall|k: int|
            0 <= k < old(pages)@.len() * PAGE_SIZE ==> #[trigger] page_bytes(final(pages)@)[k] == (
            if k / (PAGE_SIZE as int) == idx && k % (PAGE_SIZE as int) >= from {
                0u8
            } else {
                page_bytes(old(pages)@)[k]
            }),
{
    let ghost prev = pages@;
    let mut page: Vec<u8> = Vec::new();
    std::mem::swap(&mut page, &mut pages[idx]);
    assert(page@.len() == PAGE_SIZE);
    zero_tail(&mut page, from);
    std::mem::swap(&mut page, &mut pages[idx]);
    proof {
        assert forall|i: int| 0 <= i < pages@.len() implies (#[trigger] pages@[i])@.len()
            == PAGE_SIZE by {
            if i != idx {
                assert(pages@[i] == prev[i]);
            }
        }
        assert forall|k: int| 0 <= k < prev.len() * PAGE_SIZE implies #[trigger] page_bytes(
            pages@,
        )[k] == (if k / (PAGE_SIZE as int) == idx && k % (PAGE_SIZE as int) >= from {
            0u8
        } else {
            page_bytes(prev)[k]
        }) by {
            lemma_page_of(k, prev.len() as int);
            let p = k / (PAGE_SIZE as int);
            if p != idx {
                assert(pages@[p] == prev[p]);
            }
        }
    }
}

/// Copies `n` bytes of `data` from `data_off` into page `idx` at `start`.
fn write_in_page(
    pages: &mut Vec<Vec<u8>>,
    idx: usize,
    start: usize,
    data: &[u8],
    data_off: usize,
    n: usize,
)
    requires
        pages_full(old(pages)@),
        idx < old(pages)@.len(),
        start + n <= PAGE_SIZE,
        data_off + n <= data@.len(),
        data@.len() <= usize::MAX,
    ensures
        pages_full(final(pages)@),
        final(pages)@.len() == old(pages)@.len(),
        forall|k: int|
            0 <= k < old(pages)@.len() * PAGE_SIZE ==> #[trigger] page_bytes(final(pages)@)[k] == (
            if k / (PAGE_SIZE as int) == idx && start <= k % (PAGE_SIZE as int) < start + n {
                data@[data_off + k % (PAGE_SIZE as int) - start]
            } else {
                page_bytes(old(pages)@)[k]
            }),
{
    let ghost prev = pages@;
    let mut page: Vec<u8> = Vec::new();
    std::mem::swap(&mut page, &mut pages[idx]);
    let ghost page0 = page@;
    assert(page0.len() == PAGE_SIZE);
    let mut j: usize = 0;
    while j < n
        invariant
            j <= n,
            start + n <= PAGE_SIZE,
            data_off + n <= data@.len(),
            data@.len() <= usize::MAX,
            page@.len() == PAGE_SIZE,
            page0.len() == PAGE_SIZE,
            forall|k: int|
                0 <= k < PAGE_SIZE ==> #[trigger] page@[k] == (if start <= k < start + j {
                    data@[data_off + k - start]
                } else {
                    page0[k]
                }),
        decreases n - j,
    {
        page.set(start + j, data[data_off + j]);
        j = j + 1;
    }
    std::mem::swap(&mut page, &mut pages[idx]);
    proof {
        assert forall|i: int| 0 <= i < pages@.len() implies (#[trigger] pages@[i])@.len()
            == PAGE_SIZE by {
            if i != idx {
                assert(pages@[i] == prev[i]);
            }
        }
        assert forall|k: int| 0 <= k < prev.len() * PAGE_SIZE implies #[trigger] page_bytes(
            pages@,
        )[k] == (if k / (PAGE_SIZE as int) == idx && start <= k % (PAGE_SIZE as int) < start + n {
            data@[data_off + k % (PAGE_SIZE as int) - start]
        } else {
            page_bytes(prev)[k]
        }) by {
            lemma_page_of(k, prev.len() as int);
            let p = k / (PAGE_SIZE as int);
            if p != idx {
                assert(pages@[p] == prev[p]);
            }
        }
    }
}

/// The contents, size and time stamps of a file held in memory.
pub struct RamFileInner {
    name: String,
    len: usize,
    pages: Vec<Vec<u8>>,
    ctime: TimeSpec,
    atime: TimeSpec,
    mtime: TimeSpec,
}

impl RamFileInner {
    /// The pages are full, cover the size, and read as zeros past the size.
    pub closed spec fn wf(&self) -> bool {
        &&& pages_full(self.pages@)
        &&& self.len <= self.pages@.len() * PAGE_SIZE
        &&& forall|k: int|
            self.len <= k < self.pages@.len() * PAGE_SIZE ==> #[trigger] page_bytes(
                self.pages@,
            )[k] == 0
    }

    /// The bytes of the file.
    pub closed spec fn content(&self) -> Seq<u8> {
        page_bytes(self.pages@).subrange(0, self.len as int)
    }

    /// The name of the file.
    pub closed spec fn name_view(&self) -> Seq<char> {
        self.name@
    }

    /// The access time stamp.
    pub closed spec fn atime_view(&self) -> TimeSpec {
        self.atime
    }

    /// The modification time stamp.
    pub closed spec fn mtime_view(&self) -> TimeSpec {
        self.mtime
    }

    /// An empty file named `name`, with all time stamps zero.
    pub fn new(name: String) -> (res: Self)
        ensures
            res.wf(),
            res.content() == Seq::<u8>::empty(),
            res.name_view() == name@,
            res.atime_view() == TimeSpec::spec_zero(),
            res.mtime_view() == TimeSpec::spec_zero(),
    {
        let res = RamFileInner {
            name,
            len: 0,
            pages: Vec::new(),
            ctime: TimeSpec::zero(),
            atime: TimeSpec::zero(),
            mtime: TimeSpec::zero(),
        };
        assert(res.content() =~= Seq::<u8>::empty());
        res
    }

    /// A copy of the file name.
    pub fn name(&self) -> (res: String)
        ensures
            res@ == self.name_view(),
    {
        self.name.clone()
    }

    /// The size of the file in bytes.
    pub fn size(&self) -> (res: usize)
        requires
            self.wf(),
        ensures
            res == self.content().len(),
    {
        self.len
    }

    /// Reads the bytes from `offset` on into the front of `buffer`: as many as
    /// fit and as the file has; nothing at or past the end. Returns how many.
    pub fn readat(&self, offset: usize, buffer: &mut [u8]) -> (res: Result<usize, Errno>)
        requires
            self.wf(),
        ensures
            res == Ok::<usize, Errno>(
                read_len(self.content().len() as int, offset as int, old(buffer)@.len() as int)
                    as usize,
            ),
            final(buffer)@.len() == old(buffer)@.len(),
            forall|k: int|
                0 <= k < old(buffer)@.len() ==> #[trigger] final(buffer)@[k] == (if k < read_len(
                    self.content().len() as int,
                    offset as int,
                    old(buffer)@.len() as int,
                ) {
                    self.content()[offset + k]
                } else {
                    old(buffer)@[k]
                }),
    {
        let file_size = self.len;
        if offset >= file_size {
            return Ok(0);
        }
        let read_len = if buffer.len() < file_size - offset {
            buffer.len()
        } else {
            file_size - offset
        };
        let ghost bytes = page_bytes(self.pages@);
        let mut off = offset;
        let mut buffer_off: usize = 0;
        let mut last_len = read_len;
        while last_len > 0
            invariant
                self.wf(),
                bytes == page_bytes(self.pages@),
                file_size == self.len,
                off == offset + buffer_off,
                buffer_off + last_len == read_len,
                offset + read_len <= file_size,
                read_len <= old(buffer)@.len(),
                buffer@.len() == old(buffer)@.len(),
                forall|k: int|
                    0 <= k < buffer@.len() ==> #[trigger] buffer@[k] == (if k < buffer_off {
                        bytes[offset + k]
                    } else {
                        old(buffer)@[k]
                    }),
            decreases last_len,
        {
            let in_page = PAGE_SIZE - off % PAGE_SIZE;
            let curr_size = if in_page < last_len {
                in_page
            } else {
                last_len
            };
            let index = off / PAGE_SIZE;
            let start = off % PAGE_SIZE;
            proof {
                lemma_page_of(off as int, self.pages@.len() as int);
            }
            let mut j: usize = 0;
            while j < curr_size
                invariant
                    self.wf(),
                    bytes == page_bytes(self.pages@),
                    j <= curr_size,
                    start + curr_size <= PAGE_SIZE,
                    start == off % PAGE_SIZE,
                    index == off / PAGE_SIZE,
                    index < self.pages@.len(),
                    off == offset + buffer_off,
                    buffer_off + curr_size <= read_len,
                    read_len <= old(buffer)@.len(),
                    offset + read_len <= file_size,
                    file_size == self.len,
                    buffer@.len() == old(buffer)@.len(),
                    forall|k: int|
                        0 <= k < buffer@.len() ==> #[trigger] buffer@[k] == (if k < buffer_off
                            + j {
                            bytes[offset + k]
                        } else {
                            old(buffer)@[k]
                        }),
                decreases curr_size - j,
            {
                proof {
                    lemma_in_page(off as int, j as int);
                    assert(self.pages@[index as int]@.len() == PAGE_SIZE);
                }
                let b = self.pages[index][start + j];
                buffer[buffer_off + j] = b;
                j = j + 1;
            }
            off = off + curr_size;
            last_len = last_len - curr_size;
            buffer_off = buffer_off + curr_size;
        }
        proof {
            assert forall|k: int| 0 <= k < read_len implies #[trigger] bytes[offset + k]
                == self.content()[offset + k] by {}
        }
        Ok(read_len)
    }

    /// Writes `buffer` at `offset`, adding zero pages as needed; the size
    /// grows to the end of the write when that lies past it. Returns the
    /// length of `buffer`.
    pub fn writeat(&mut self, offset: usize, buffer: &[u8]) -> (res: Result<usize, Errno>)
        requires
            old(self).wf(),
            offset + buffer@.len() <= usize::MAX,
        ensures
            final(self).wf(),
            res == Ok::<usize, Errno>(buffer@.len() as usize),
            final(self).content() == write_result(old(self).content(), offset as int, buffer@),
            final(self).name_view() == old(self).name_view(),
            final(self).atime_view() == old(self).atime_view(),
            final(self).mtime_view() == old(self).mtime_view(),
    {
        let ghost old_content = self.content();
        let end = offset + buffer.len();
        let pages = div_ceil_page(end);
        proof {
            lemma_pages_for(end as int);
        }
        while self.pages.len() < pages
            invariant
                self.wf(),
                self.content() == old_content,
                self.name@ == old(self).name@,
                self.atime == old(self).atime,
                self.mtime == old(self).mtime,
            decreases pages - self.pages@.len(),
        {
            let ghost before = self.pages@;
            let z = zero_page();
            self.pages.push(z);
            proof {
                assert forall|k: int| 0 <= k < before.len() * PAGE_SIZE implies #[trigger] page_bytes(
                    self.pages@,
                )[k] == page_bytes(before)[k] by {
                    lemma_page_of(k, before.len() as int);
                }
                assert forall|k: int|
                    self.len <= k < self.pages@.len() * PAGE_SIZE implies #[trigger] page_bytes(
                    self.pages@,
                )[k] == 0 by {
                    lemma_page_of(k, self.pages@.len() as int);
                    if k >= before.len() * PAGE_SIZE {
                        assert(k / (PAGE_SIZE as int) >= before.len()) by (nonlinear_arith)
                            requires
                                k >= before.len() * 4096,
                        ;
                    }
                }
                assert(self.content() =~= old_content);
            }
        }
        let ghost bytes0 = page_bytes(self.pages@);
        let ghost npages = self.pages@.len();
        let mut off = offset;
        let mut buffer_off: usize = 0;
        let mut wsize = buffer.len();
        while wsize > 0
            invariant
                pages_full(self.pages@),
                self.pages@.len() == npages,
                npages * PAGE_SIZE >= end,
                end == offset + buffer@.len(),
                off == offset + buffer_off,
                buffer_off + wsize == buffer@.len(),
                self.len == old(self).len,
                self.name@ == old(self).name@,
                self.atime == old(self).atime,
                self.mtime == old(self).mtime,
                page_bytes(self.pages@).len() == bytes0.len(),
                forall|k: int|
                    0 <= k < bytes0.len() ==> #[trigger] page_bytes(self.pages@)[k] == (if offset
                        <= k < off {
                        buffer@[k - offset]
                    } else {
                        bytes0[k]
                    }),
            decreases wsize,
        {
            let in_page = PAGE_SIZE - off % PAGE_SIZE;
            let curr_size = if in_page < wsize {
                in_page
            } else {
                wsize
            };
            let index = off / PAGE_SIZE;
            let start = off % PAGE_SIZE;
            proof {
                lemma_page_of(off as int, npages as int);
            }
            let ghost prev = page_bytes(self.pages@);
            write_in_page(&mut self.pages, index, start, buffer, buffer_off, curr_size);
            proof {
                assert forall|k: int| 0 <= k < bytes0.len() implies #[trigger] page_bytes(
                    self.pages@,
                )[k] == (if offset <= k < off + curr_size {
                    buffer@[k - offset]
                } else {
                    bytes0[k]
                }) by {
                    lemma_page_of(k, npages as int);
                    let p = k / (PAGE_SIZE as int);
                    let q = k % (PAGE_SIZE as int);
                    assert(k == p * PAGE_SIZE + q) by (nonlinear_arith)
                        requires
                            p == k / 4096,
                            q == k % 4096,
                    ;
                    assert(off == index * PAGE_SIZE + start) by (nonlinear_arith)
                        requires
                            index == off / 4096,
                            start == off % 4096,
                    ;
                    if off <= k < off + curr_size {
                        lemma_in_page(off as int, k - off);
                    }
                }
            }
            off = off + curr_size;
            buffer_off = buffer_off + curr_size;
            wsize = wsize - curr_size;
        }
        if off > self.len {
            self.len = off;
        }
        proof {
            let nc = write_result(old_content, offset as int, buffer@);
            assert(self.len == nc.len());
            assert forall|k: int| 0 <= k < nc.len() implies #[trigger] self.content()[k] == nc[k] by {
                if !(offset <= k < end) && k >= old_content.len() {
                    assert(bytes0[k] == 0);
                }
            }
            assert(self.content() =~= nc);
            assert forall|k: int|
                self.len <= k < self.pages@.len() * PAGE_SIZE implies #[trigger] page_bytes(
                self.pages@,
            )[k] == 0 by {
                assert(bytes0[k] == 0);
            }
        }
        Ok(buffer.len())
    }

    /// Cuts or grows the file to `size` bytes: bytes past the new size are
    /// cleared in their pages, and zero pages are added to cover it.
    pub fn truncate(&mut self, size: usize) -> (res: Result<(), Errno>)
        requires
            old(self).wf(),
        ensures
            final(self).wf(),
            res == Ok::<(), Errno>(()),
            final(self).content() == truncate_result(old(self).content(), size as int),
            final(self).name_view() == old(self).name_view(),
            final(self).atime_view() == old(self).atime_view(),
            final(self).mtime_view() == old(self).mtime_view(),
    {
        let ghost old_content = self.content();
        let ghost bytes0 = page_bytes(self.pages@);
        let ghost old_len = self.len as int;
        self.len = size;
        let pages = self.pages.len();
        let target_pages = div_ceil_page(size);
        proof {
            lemma_pages_for(size as int);
        }
        let ghost npages = pages as int;
        // The bytes that are kept: those below the new size.
        let mut i = target_pages;
        while i < pages
            invariant
                target_pages <= i,
                pages == self.pages@.len(),
                npages == pages,
                bytes0.len() == npages * PAGE_SIZE,
                self.len == size,
                self.name@ == old(self).name@,
                self.atime == old(self).atime,
                self.mtime == old(self).mtime,
                pages_full(self.pages@),
                page_bytes(self.pages@).len() == bytes0.len(),
                target_pages == pages_for(size as int),
                forall|k: int|
                    0 <= k < bytes0.len() ==> #[trigger] page_bytes(self.pages@)[k] == (if target_pages
                        <= k / (PAGE_SIZE as int) && k / (PAGE_SIZE as int) < i {
                        0u8
                    } else {
                        bytes0[k]
                    }),
            decreases pages - i,
        {
            let ghost prev = page_bytes(self.pages@);
            zero_page_tail(&mut self.pages, i, 0);
            proof {
                assert forall|k: int| 0 <= k < bytes0.len() implies #[trigger] page_bytes(
                    self.pages@,
                )[k] == (if target_pages <= k / (PAGE_SIZE as int) && k / (PAGE_SIZE as int) < i + 1 {
                    0u8
                } else {
                    bytes0[k]
                }) by {
                    lemma_page_of(k, npages);
                    assert(prev[k] == (if target_pages <= k / (PAGE_SIZE as int) && k / (PAGE_SIZE
                        as int) < i {
                        0u8
                    } else {
                        bytes0[k]
                    }));
                }
            }
            i = i + 1;
        }
        let ghost bytes1 = page_bytes(self.pages@);
        if size % PAGE_SIZE != 0 {
            let page_index = size / PAGE_SIZE;
            let offset = size % PAGE_SIZE;
            if page_index < self.pages.len() {
                zero_page_tail(&mut self.pages, page_index, offset);
                proof {
                    assert forall|k: int| 0 <= k < bytes0.len() implies #[trigger] page_bytes(
                        self.pages@,
                    )[k] == (if k / (PAGE_SIZE as int) == page_index && k % (PAGE_SIZE as int)
                        >= offset {
                        0u8
                    } else {
                        bytes1[k]
                    }) by {
                        lemma_page_of(k, npages);
                    }
                }
            }
        }
        let ghost bytes2 = page_bytes(self.pages@);
        proof {
            assert(bytes2.len() == bytes0.len());
            // Past the new size every old byte now reads as zero; below it,
            // nothing changed.
            assert forall|k: int| 0 <= k < bytes0.len() implies #[trigger] bytes2[k] == (if k
                < size {
                bytes0[k]
            } else {
                0u8
            }) by {
                lemma_page_of(k, npages);
                let p = k / (PAGE_SIZE as int);
                let q = k % (PAGE_SIZE as int);
                assert(k == p * PAGE_SIZE + q) by (nonlinear_arith)
                    requires
                        p == k / 4096,
                        q == k % 4096,
                ;
                assert(size == (size / PAGE_SIZE) as int * PAGE_SIZE + size % PAGE_SIZE) by (
                nonlinear_arith);
                if k < size {
                    assert(p < target_pages);
                    assert(p <= size / PAGE_SIZE) by (nonlinear_arith)
                        requires
                            k < size,
                            p == k / 4096,
                    ;
                } else {
                    assert(p >= size / PAGE_SIZE) by (nonlinear_arith)
                        requires
                            k >= size,
                            p == k / 4096,
                    ;
                }
            }
        }
        let mut n = pages;
        while n < target_pages
            invariant
                pages <= n <= target_pages || target_pages <= pages,
                n == self.pages@.len(),
                pages_full(self.pages@),
                self.len == size,
                self.name@ == old(self).name@,
                self.atime == old(self).atime,
                self.mtime == old(self).mtime,
                n * PAGE_SIZE >= bytes0.len(),
                bytes2.len() == bytes0.len(),
                forall|k: int|
                    0 <= k < n * PAGE_SIZE ==> #[trigger] page_bytes(self.pages@)[k] == (if k
                        < bytes0.len() {
                        bytes2[k]
                    } else {
                        0u8
                    }),
            decreases target_pages - n,
        {
            let ghost before = self.pages@;
            let z = zero_page();
            self.pages.push(z);
            proof {
                assert forall|k: int| 0 <= k < (n + 1) * PAGE_SIZE implies #[trigger] page_bytes(
                    self.pages@,
                )[k] == (if k < bytes0.len() {
                    bytes2[k]
                } else {
                    0u8
                }) by {
                    lemma_page_of(k, n as int + 1);
                    if k >= n * PAGE_SIZE {
                        assert(k / (PAGE_SIZE as int) >= n) by (nonlinear_arith)
                            requires
                                k >= n * 4096,
                        ;
                    } else {
                        lemma_page_of(k, n as int);
                        assert(page_bytes(self.pages@)[k] == page_bytes(before)[k]);
                    }
                }
            }
            n = n + 1;
        }
        proof {
            let np = self.pages@.len() as int;
            assert(np >= target_pages);
            assert(np * PAGE_SIZE >= pages_for(size as int) * PAGE_SIZE) by (nonlinear_arith)
                requires
                    np >= pages_for(size as int),
            ;
            let nc = truncate_result(old_content, size as int);
            assert forall|k: int| 0 <= k < size implies #[trigger] self.content()[k] == nc[k] by {
                if k < bytes0.len() {
                    if k >= old_len {
                        assert(bytes0[k] == 0);
                    }
                }
            }
            assert(self.content() =~= nc);
        }
        Ok(())
    }

    /// Fills the fields of `stat` that describe a regular file held in memory;
    /// the inode number is 2 for names that end in ".s" and 1 otherwise.
    pub fn stat(&self, stat: &mut Stat) -> (res: Result<(), Errno>)
        requires
            self.wf(),
        ensures
            res == Ok::<(), Errno>(()),
            final(stat).ino == (if ends_with_dot_s(self.name_view()) {
                2u64
            } else {
                1u64
            }),
            final(stat).mode == S_IFREG,
            final(stat).nlink == 1,
            final(stat).uid == 0,
            final(stat).gid == 0,
            final(stat).size == self.content().len(),
            final(stat).blksize == 512,
            final(stat).blocks == 0,
            final(stat).rdev == 0,
            final(stat).atime == self.atime_view(),
            final(stat).mtime == self.mtime_view(),
            final(stat).dev == old(stat).dev,
            final(stat).ctime == old(stat).ctime,
    {
        let n = self.name.as_str().unicode_len();
        let dot_s = n >= 2 && self.name.as_str().get_char(n - 2) == '.' && self.name.as_str().get_char(
            n - 1,
        ) == 's';
        stat.ino = if dot_s {
            2
        } else {
            1
        };
        stat.mode = S_IFREG;
        stat.nlink = 1;
        stat.uid = 0;
        stat.gid = 0;
        stat.size = self.len as u64;
        stat.blksize = 512;
        stat.blocks = 0;
        stat.rdev = 0;
        stat.atime = self.atime;
        stat.mtime = self.mtime;
        Ok(())
    }

    /// Sets the access time from `times[0]` and the modification time from
    /// `times[1]`, each unless its `nsec` is `UTIME_OMIT`.
    pub fn utimes(&mut self, times: &[TimeSpec]) -> (res: Result<(), Errno>)
        requires
            old(self).wf(),
            times@.len() >= 2,
        ensures
            final(self).wf(),
            res == Ok::<(), Errno>(()),
            final(self).content() == old(self).content(),
            final(self).name_view() == old(self).name_view(),
            final(self).atime_view() == (if times@[0].nsec != UTIME_OMIT {
                times@[0]
            } else {
                old(self).atime_view()
            }),
            final(self).mtime_view() == (if times@[1].nsec != UTIME_OMIT {
                times@[1]
            } else {
                old(self).mtime_view()
            }),
    {
        if times[0].nsec != UTIME_OMIT {
            self.atime = times[0];
        }
        if times[1].nsec != UTIME_OMIT {
            self.mtime = times[1];
        }
        Ok(())
    }
}

/// Whether a name ends in ".s".
pub open spec fn ends_with_dot_s(name: Seq<char>) -> bool {
    name.len() >= 2 && name[name.len() - 2] == '.' && name[name.len() - 1] == 's'
}

} // verus!
