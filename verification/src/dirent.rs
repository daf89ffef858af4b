//! `getdents64`: directory entries laid out as `linux_dirent64` records.
use vstd::prelude::*;
use vstd::utf8::encode_utf8;
use crate::vfs::DirEntry;

verus! {

/// The size of the fixed part of a record: inode, offset, record length and
/// type, padded to 8 bytes. The name starts at byte 19 of it.
pub const DIRENT_HEADER: usize = 24;

/// Where the name starts in a record.
pub const DIRENT_NAME_AT: usize = 19;

/// The length of the record of a name: the header, the name, its NUL.
pub open spec fn dirent_len(name: Seq<u8>) -> int {
    DIRENT_HEADER + name.len() + 1
}

/// The `n` low bytes of `x`, least significant first.
pub open spec fn le_bytes(x: u64, n: nat) -> Seq<u8>
    decreases n,
{
    if n == 0 {
        Seq::empty()
    } else {
        le_bytes(x, (n - 1) as nat).push(((x >> (8 * (n - 1)) as u64) & 0xff) as u8)
    }
}

/// The bytes of a record that are written: inode 0, the record length as
/// offset and as record length (64 and 16 bits, little-endian), type 0,
/// the name and its NUL. The padding after the NUL is left as it was.
pub open spec fn record_bytes(name: Seq<u8>) -> Seq<u8> {
    let len = dirent_len(name) as u64;
    le_bytes(0, 8) + le_bytes(len, 8) + le_bytes(len, 2) + seq![0u8] + name + seq![0u8]
}

/// `buf` with `bytes` written at `pos`.
pub open spec fn overlay(buf: Seq<u8>, pos: int, bytes: Seq<u8>) -> Seq<u8> {
    buf.subrange(0, pos) + bytes + buf.subrange(pos + bytes.len(), buf.len() as int)
}

/// How many records, from entry `start` on, fit one after another in
/// `room` bytes.
pub open spec fn taken(names: Seq<Seq<u8>>, start: int, room: int) -> int
    decreases names.len() - start,
{
    if start < 0 || start >= names.len() || room < dirent_len(names[start]) {
        0
    } else {
        1 + taken(names, start + 1, room - dirent_len(names[start]))
    }
}

/// The bytes the records of entries `start` to `start + count` take.
pub open spec fn used(names: Seq<Seq<u8>>, start: int, count: int) -> int
    decreases count,
{
    if count <= 0 {
        0
    } else {
        used(names, start, count - 1) + dirent_len(names[start + count - 1])
    }
}

/// `buf` with the records of entries `start` to `start + count` written one
/// after another from its first byte.
pub open spec fn write_records(buf: Seq<u8>, names: Seq<Seq<u8>>, start: int, count: int) -> Seq<u8>
    decreases count,
{
    if count <= 0 {
        buf
    } else {
        overlay(
            write_records(buf, names, start, count - 1),
            used(names, start, count - 1),
            record_bytes(names[start + count - 1]),
        )
    }
}

/// The names of directory entries, as bytes.
pub open spec fn entry_names(entries: Seq<DirEntry>) -> Seq<Seq<u8>> {
    entries.map_values(|e: DirEntry| encode_utf8(e.filename@))
}

proof fn lemma_used_step(names: Seq<Seq<u8>>, start: int, count: int)
    requires
        count >= 0,
    ensures
        used(names, start, count + 1) == used(names, start, count) + dirent_len(names[start + count]),
{
}

pub proof fn lemma_taken_bound(names: Seq<Seq<u8>>, start: int, room: int)
    requires
        0 <= start,
    ensures
        0 <= taken(names, start, room),
        start + taken(names, start, room) <= names.len() || taken(names, start, room) == 0,
        used(names, start, taken(names, start, room)) <= if room < 0 {
            0
        } else {
            room
        },
    decreases names.len() - start,
{
    if start < names.len() && room >= dirent_len(names[start]) {
        lemma_taken_bound(names, start + 1, room - dirent_len(names[start]));
        lemma_used_shift(names, start, taken(names, start + 1, room - dirent_len(names[start])));
    }
}

/// Splitting the first record off a run of records.
proof fn lemma_used_shift(names: Seq<Seq<u8>>, start: int, count: int)
    requires
        count >= 0,
    ensures
        used(names, start, count + 1) == dirent_len(names[start]) + used(names, start + 1, count),
    decreases count,
{
    if count > 0 {
        lemma_used_shift(names, start, count - 1);
        assert(used(names, start, count + 1) == used(names, start, count) + dirent_len(
            names[start + count],
        ));
        assert(used(names, start + 1, count) == used(names, start + 1, count - 1) + dirent_len(
            names[start + 1 + count - 1],
        ));
    } else {
        assert(used(names, start, 1) == used(names, start, 0) + dirent_len(names[start]));
    }
}

/// Taking `k` records and then what fits in the rest is what fits.
proof fn lemma_taken_split(names: Seq<Seq<u8>>, start: int, room: int, k: int)
    requires
        0 <= start,
        0 <= k,
        start + k <= names.len(),
        forall|j: int| 1 <= j <= k ==> #[trigger] used(names, start, j) <= room,
    ensures
        taken(names, start, room) == k + taken(names, start + k, room - used(names, start, k)),
    decreases k,
{
    if k > 0 {
        assert(used(names, start, 1) == dirent_len(names[start])) by {
            lemma_used_shift(names, start, 0);
        }
        assert forall|j: int| 1 <= j <= k - 1 implies #[trigger] used(names, start + 1, j) <= room - dirent_len(
            names[start],
        ) by {
            lemma_used_shift(names, start, j);
            assert(used(names, start, j + 1) <= room);
        }
        lemma_taken_split(names, start + 1, room - dirent_len(names[start]), k - 1);
        lemma_used_shift(names, start, k - 1);
    }
}

/// Appends `x` as `n` little-endian bytes.
fn push_le(v: &mut Vec<u8>, x: u64, n: usize)
    requires
        n <= 8,
    ensures
        final(v)@ == old(v)@ + le_bytes(x, n as nat),
{
    let mut k: usize = 0;
    while k < n
        invariant
            k <= n <= 8,
            v@ == old(v)@ + le_bytes(x, k as nat),
        decreases n - k,
    {
        let shift: u64 = 8 * (k as u64);
        v.push(((x >> shift) & 0xff) as u8);
        proof {
            assert(v@ =~= old(v)@ + le_bytes(x, (k + 1) as nat));
        }
        k = k + 1;
    }
}

/// The bytes of the record of `name` that are written.
fn record_of(name: &[u8]) -> (res: Vec<u8>)
    requires
        DIRENT_HEADER + name@.len() + 1 <= usize::MAX,
    ensures
        res@ == record_bytes(name@),
{
    let len: u64 = (DIRENT_HEADER + name.len() + 1) as u64;
    let mut v: Vec<u8> = Vec::new();
    push_le(&mut v, 0, 8);
    push_le(&mut v, len, 8);
    push_le(&mut v, len, 2);
    v.push(0);
    let ghost head = v@;
    let mut k: usize = 0;
    while k < name.len()
        invariant
            k <= name@.len(),
            v@ == head + name@.subrange(0, k as int),
        decreases name@.len() - k,
    {
        v.push(name[k]);
        proof {
            assert(v@ =~= head + name@.subrange(0, k + 1));
        }
        k = k + 1;
    }
    v.push(0);
    proof {
        assert(name@.subrange(0, name@.len() as int) =~= name@);
        assert(v@ =~= record_bytes(name@));
    }
    v
}

/// Writes `bytes` into `buffer` from `pos` on.
fn put_bytes(buffer: &mut [u8], pos: usize, bytes: &[u8])
    requires
        pos + bytes@.len() <= old(buffer)@.len(),
    ensures
        final(buffer)@ == overlay(old(buffer)@, pos as int, bytes@),
        final(buffer)@.len() == old(buffer)@.len(),
{
    let blen = buffer.len();
    let mut k: usize = 0;
    while k < bytes.len()
        invariant
            blen == old(buffer)@.len(),
            pos + bytes@.len() <= blen,
            k <= bytes@.len(),
            buffer@ == overlay(old(buffer)@, pos as int, bytes@.subrange(0, k as int)),
        decreases bytes@.len() - k,
    {
        buffer[pos + k] = bytes[k];
        proof {
            assert(buffer@ =~= overlay(old(buffer)@, pos as int, bytes@.subrange(0, k + 1)));
        }
        k = k + 1;
    }
    proof {
        assert(bytes@.subrange(0, bytes@.len() as int) =~= bytes@);
    }
}

proof fn lemma_le_len(x: u64, n: nat)
    ensures
        le_bytes(x, n).len() == n,
    decreases n,
{
    if n > 0 {
        lemma_le_len(x, (n - 1) as nat);
    }
}

/// The record of a name is as long as its header up to the name, the name
/// and the NUL.
proof fn lemma_record_len(name: Seq<u8>)
    ensures
        record_bytes(name).len() == DIRENT_NAME_AT + name.len() + 1,
{
    let len = dirent_len(name) as u64;
    lemma_le_len(0, 8);
    lemma_le_len(len, 8);
    lemma_le_len(len, 2);
}

/// `getdents64` on a directory whose entries are `entries`, read from the
/// entry at `offset` on into `buffer`. Records are written one after
/// another while the next one fits; the result is the bytes written and
/// the new offset: one past the last entry written, or 0 when none was.
pub fn getdents(entries: &[DirEntry], offset: usize, buffer: &mut [u8]) -> (res: (usize, usize))
    requires
        forall|i: int|
            0 <= i < entries@.len() ==> (#[trigger] entry_names(entries@)[i]).len() + DIRENT_HEADER + 1
                <= usize::MAX,
    ensures
        ({
            let names = entry_names(entries@);
            let n = taken(names, offset as int, old(buffer)@.len() as int);
            &&& res.0 == used(names, offset as int, n)
            &&& res.1 == (if n > 0 {
                offset + n
            } else {
                0
            })
            &&& final(buffer)@ == write_records(old(buffer)@, names, offset as int, n)
        }),
{
    let ghost names = entry_names(entries@);
    let ghost room = buffer@.len() as int;
    let ghost start = offset as int;
    if offset >= entries.len() {
        return (0, 0);
    }
    let mut ptr: usize = 0;
    let mut finished: usize = 0;
    let mut i: usize = offset;
    let ghost mut count: int = 0;
    while i < entries.len()
        invariant_except_break
            start <= i <= entries@.len(),
            count == i - start,
            names == entry_names(entries@),
            forall|j: int|
                0 <= j < entries@.len() ==> (#[trigger] names[j]).len() + DIRENT_HEADER + 1 <= usize::MAX,
            room == old(buffer)@.len(),
            buffer@.len() == room,
            ptr == used(names, start, count),
            ptr <= room,
            finished == (if count > 0 {
                i as int
            } else {
                0
            }),
            forall|j: int| 1 <= j <= count ==> #[trigger] used(names, start, j) <= room,
            buffer@ == write_records(old(buffer)@, names, start, count),
        ensures
            0 <= count,
            start + count <= entries@.len(),
            ptr == used(names, start, count),
            finished == (if count > 0 {
                start + count
            } else {
                0
            }),
            forall|j: int| 1 <= j <= count ==> #[trigger] used(names, start, j) <= room,
            start + count == entries@.len() || taken(names, start + count, room - used(names, start, count))
                == 0,
            buffer@ == write_records(old(buffer)@, names, start, count),
        decreases entries@.len() - i,
    {
        let name = entries[i].filename.as_str().as_bytes();
        assert(name@ == names[i as int]);
        let current_len = DIRENT_HEADER + name.len() + 1;
        if buffer.len() - ptr < current_len {
            break;
        }
        let rec = record_of(name);
        proof {
            lemma_record_len(name@);
        }
        put_bytes(buffer, ptr, rec.as_slice());
        proof {
            lemma_used_step(names, start, count);
        }
        ptr = ptr + current_len;
        finished = i + 1;
        i = i + 1;
        proof {
            count = count + 1;
        }
    }
    proof {
        lemma_taken_split(names, start, room, count);
    }
    (ptr, finished)
}

} // verus!
