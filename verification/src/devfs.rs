//! `/dev` and `/proc`: directories of nodes kept in the order of their names.
use vstd::prelude::*;
use crate::errno::Errno;
use crate::pathbuf::strings_view;
use crate::ramfs::dir_entry_view;
use crate::vfs::{DirEntry, FileType, Stat, VfsError, S_IFDIR};

verus! {

/// The order of names: character by character by code point, a proper
/// prefix first (the order of `str`, whose UTF-8 bytes sort alike).
pub open spec fn name_lt(a: Seq<char>, b: Seq<char>) -> bool
    decreases a.len(),
{
    if a.len() == 0 {
        b.len() > 0
    } else if b.len() == 0 {
        false
    } else if a[0] != b[0] {
        (a[0] as int) < (b[0] as int)
    } else {
        name_lt(a.drop_first(), b.drop_first())
    }
}

/// No name comes before itself.
pub proof fn lemma_name_lt_irreflexive(a: Seq<char>)
    ensures
        !name_lt(a, a),
    decreases a.len(),
{
    if a.len() > 0 {
        lemma_name_lt_irreflexive(a.drop_first());
    }
}

/// The order is transitive.
pub proof fn lemma_name_lt_transitive(a: Seq<char>, b: Seq<char>, c: Seq<char>)
    requires
        name_lt(a, b),
        name_lt(b, c),
    ensures
        name_lt(a, c),
    decreases a.len(),
{
    if a.len() > 0 && b.len() > 0 && c.len() > 0 && a[0] == b[0] && b[0] == c[0] {
        lemma_name_lt_transitive(a.drop_first(), b.drop_first(), c.drop_first());
    }
}

/// Of two different names exactly one comes first.
pub proof fn lemma_name_lt_total(a: Seq<char>, b: Seq<char>)
    ensures
        a != b ==> name_lt(a, b) || name_lt(b, a),
        !(name_lt(a, b) && name_lt(b, a)),
    decreases a.len(),
{
    if a.len() > 0 && b.len() > 0 {
        if a[0] == b[0] {
            lemma_name_lt_total(a.drop_first(), b.drop_first());
            if a != b {
                assert(a.drop_first() != b.drop_first()) by {
                    if a.drop_first() == b.drop_first() {
                        assert(a =~= seq![a[0]] + a.drop_first());
                        assert(b =~= seq![b[0]] + b.drop_first());
                    }
                }
            }
        } else {
            assert((a[0] as int) != (b[0] as int));
        }
    } else if a.len() == 0 && b.len() == 0 {
        assert(a =~= b);
    }
}

/// Comparing after a common prefix of `i` characters is comparing the rest.
proof fn lemma_name_lt_skip(a: Seq<char>, b: Seq<char>, i: int)
    requires
        0 <= i <= a.len(),
        i <= b.len(),
        a.subrange(0, i) == b.subrange(0, i),
    ensures
        name_lt(a, b) == name_lt(a.skip(i), b.skip(i)),
    decreases i,
{
    if i > 0 {
        assert(a[0] == a.subrange(0, i)[0]);
        assert(b[0] == b.subrange(0, i)[0]);
        assert(a.drop_first().subrange(0, i - 1) =~= a.subrange(0, i).drop_first());
        assert(b.drop_first().subrange(0, i - 1) =~= b.subrange(0, i).drop_first());
        lemma_name_lt_skip(a.drop_first(), b.drop_first(), i - 1);
        assert(a.drop_first().skip(i - 1) =~= a.skip(i));
        assert(b.drop_first().skip(i - 1) =~= b.skip(i));
    } else {
        assert(a.skip(0) =~= a);
        assert(b.skip(0) =~= b);
    }
}

/// Whether `a` comes before `b` in the order of names.
pub fn str_lt(a: &str, b: &str) -> (res: bool)
    ensures
        res == name_lt(a@, b@),
{
    let na = a.unicode_len();
    let nb = b.unicode_len();
    let mut i: usize = 0;
    while i < na && i < nb
        invariant
            na == a@.len(),
            nb == b@.len(),
            i <= na,
            i <= nb,
            a@.subrange(0, i as int) == b@.subrange(0, i as int),
        decreases na - i,
    {
        let ca = a.get_char(i);
        let cb = b.get_char(i);
        if ca != cb {
            proof {
                lemma_name_lt_skip(a@, b@, i as int);
                assert(a@.skip(i as int)[0] == ca);
                assert(b@.skip(i as int)[0] == cb);
            }
            return (ca as u32) < (cb as u32);
        }
        assert(a@.subrange(0, i + 1) =~= a@.subrange(0, i as int).push(ca));
        assert(b@.subrange(0, i + 1) =~= b@.subrange(0, i as int).push(cb));
        i = i + 1;
    }
    proof {
        lemma_name_lt_skip(a@, b@, i as int);
    }
    na < nb
}

/// The kinds of node that `/dev` holds.
#[derive(Clone, Copy, Debug, PartialEq, Eq, Structural)]
pub enum DevNode {
    Tty,
    Null,
    Zero,
    Shm,
    Rtc,
    Urandom,
    CpuDmaLatency,
}

/// The nodes of `/proc`.
#[derive(Clone, Copy, Debug, PartialEq, Eq, Structural)]
pub enum ProcNode {
    Mounts,
    MemInfo,
    Interrupts,
}

/// Names in strictly increasing order (so each at most once).
pub open spec fn names_sorted(s: Seq<Seq<char>>) -> bool {
    forall|i: int, j: int| 0 <= i < j < s.len() ==> name_lt(#[trigger] s[i], #[trigger] s[j])
}

/// How many names at the front of `s` come before `k`: where `k` goes.
pub open spec fn slot(s: Seq<Seq<char>>, k: Seq<char>) -> int
    decreases s.len(),
{
    if s.len() == 0 {
        0
    } else if name_lt(s[0], k) {
        1 + slot(s.drop_first(), k)
    } else {
        0
    }
}

/// The node under name `k`, if there is one (the first such).
pub open spec fn lookup<N>(names: Seq<Seq<char>>, nodes: Seq<N>, k: Seq<char>) -> Option<N>
    decreases names.len(),
{
    if names.len() == 0 || nodes.len() == 0 {
        None
    } else if names[0] == k {
        Some(nodes[0])
    } else {
        lookup(names.drop_first(), nodes.drop_first(), k)
    }
}

/// The names and nodes after `k` is added with node `v`: a name already
/// there gets the new node, else the name goes in at its place.
pub open spec fn dir_add<N>(names: Seq<Seq<char>>, nodes: Seq<N>, k: Seq<char>, v: N) -> (
    Seq<Seq<char>>,
    Seq<N>,
) {
    let p = slot(names, k);
    if p < names.len() && names[p] == k {
        (names, nodes.update(p, v))
    } else {
        (names.insert(p, k), nodes.insert(p, v))
    }
}

/// `slot` is the leading run of names before `k`.
pub proof fn lemma_slot(s: Seq<Seq<char>>, k: Seq<char>)
    ensures
        0 <= slot(s, k) <= s.len(),
        forall|j: int| 0 <= j < slot(s, k) ==> name_lt(#[trigger] s[j], k),
        slot(s, k) < s.len() ==> !name_lt(s[slot(s, k)], k),
    decreases s.len(),
{
    if s.len() > 0 && name_lt(s[0], k) {
        lemma_slot(s.drop_first(), k);
        assert forall|j: int| 0 <= j < slot(s, k) implies name_lt(#[trigger] s[j], k) by {
            if j > 0 {
                assert(s[j] == s.drop_first()[j - 1]);
            }
        }
    }
}

/// A run of `i` names before `k`, ended by the end or by a name not before
/// `k`, is the slot of `k`.
proof fn lemma_slot_at(s: Seq<Seq<char>>, k: Seq<char>, i: int)
    requires
        0 <= i <= s.len(),
        forall|j: int| 0 <= j < i ==> name_lt(#[trigger] s[j], k),
        i < s.len() ==> !name_lt(s[i], k),
    ensures
        slot(s, k) == i,
    decreases i,
{
    if i > 0 {
        assert(name_lt(s[0], k));
        assert forall|j: int| 0 <= j < i - 1 implies name_lt(#[trigger] s.drop_first()[j], k) by {
            assert(s.drop_first()[j] == s[j + 1]);
        }
        if i - 1 < s.drop_first().len() {
            assert(s.drop_first()[i - 1] == s[i]);
        }
        lemma_slot_at(s.drop_first(), k, i - 1);
    }
}

/// In sorted names a name stands at one index at most.
pub proof fn lemma_sorted_unique(s: Seq<Seq<char>>, i: int, j: int)
    requires
        names_sorted(s),
        0 <= i < s.len(),
        0 <= j < s.len(),
        s[i] == s[j],
    ensures
        i == j,
{
    if i < j {
        lemma_name_lt_irreflexive(s[i]);
        assert(name_lt(s[i], s[j]));
    } else if j < i {
        lemma_name_lt_irreflexive(s[i]);
        assert(name_lt(s[j], s[i]));
    }
}

/// The node under the first name equal to `k`, at index `at`, is the node
/// at `at`.
pub proof fn lemma_lookup_at<N>(names: Seq<Seq<char>>, nodes: Seq<N>, k: Seq<char>, at: int)
    requires
        names.len() == nodes.len(),
        0 <= at < names.len(),
        names[at] == k,
        forall|j: int| 0 <= j < at ==> #[trigger] names[j] != k,
    ensures
        lookup(names, nodes, k) == Some(nodes[at]),
    decreases at,
{
    if at > 0 {
        assert(names[0] != k);
        assert forall|j: int| 0 <= j < at - 1 implies #[trigger] names.drop_first()[j] != k by {
            assert(names.drop_first()[j] == names[j + 1]);
        }
        lemma_lookup_at(names.drop_first(), nodes.drop_first(), k, at - 1);
    }
}

/// No name equal to `k`: nothing under it.
pub proof fn lemma_lookup_none<N>(names: Seq<Seq<char>>, nodes: Seq<N>, k: Seq<char>)
    requires
        forall|j: int| 0 <= j < names.len() ==> #[trigger] names[j] != k,
    ensures
        lookup(names, nodes, k) is None,
    decreases names.len(),
{
    if names.len() > 0 && nodes.len() > 0 {
        assert(names[0] != k);
        assert forall|j: int| 0 <= j < names.len() - 1 implies #[trigger] names.drop_first()[j] != k by {
            assert(names.drop_first()[j] == names[j + 1]);
        }
        lemma_lookup_none(names.drop_first(), nodes.drop_first(), k);
    }
}

/// Adding keeps the names sorted, one node per name.
pub proof fn lemma_dir_add_sorted<N>(names: Seq<Seq<char>>, nodes: Seq<N>, k: Seq<char>, v: N)
    requires
        names_sorted(names),
        names.len() == nodes.len(),
    ensures
        names_sorted(dir_add(names, nodes, k, v).0),
        dir_add(names, nodes, k, v).0.len() == dir_add(names, nodes, k, v).1.len(),
{
    lemma_slot(names, k);
    let p = slot(names, k);
    if !(p < names.len() && names[p] == k) {
        let r = names.insert(p, k);
        assert forall|i: int, j: int| 0 <= i < j < r.len() implies name_lt(#[trigger] r[i], #[trigger] r[j]) by {
            if j < p {
                assert(r[i] == names[i] && r[j] == names[j]);
            } else if j == p {
                assert(r[i] == names[i]);
            } else if i == p {
                assert(r[j] == names[j - 1]);
                lemma_name_lt_total(names[p], k);
                if j - 1 > p {
                    assert(name_lt(names[p], names[j - 1]));
                    lemma_name_lt_transitive(k, names[p], names[j - 1]);
                }
            } else if i < p {
                assert(r[i] == names[i] && r[j] == names[j - 1]);
                if j - 1 == p {
                    lemma_name_lt_total(names[p], k);
                    lemma_name_lt_transitive(names[i], k, names[p]);
                } else {
                    assert(name_lt(names[i], names[j - 1]));
                }
            } else {
                assert(r[i] == names[i - 1] && r[j] == names[j - 1]);
            }
        }
    }
}

/// What `/dev` starts with: the terminals `stdout`, `stderr`, `stdin` and
/// `ttyv0`, then `null`, `zero`, `shm`, `rtc`, `urandom` and
/// `cpu_dma_latency`, added in that order.
pub open spec fn dev_defaults() -> (Seq<Seq<char>>, Seq<DevNode>) {
    let d0 = dir_add(Seq::empty(), Seq::empty(), "stdout"@, DevNode::Tty);
    let d1 = dir_add(d0.0, d0.1, "stderr"@, DevNode::Tty);
    let d2 = dir_add(d1.0, d1.1, "stdin"@, DevNode::Tty);
    let d3 = dir_add(d2.0, d2.1, "ttyv0"@, DevNode::Tty);
    let d4 = dir_add(d3.0, d3.1, "null"@, DevNode::Null);
    let d5 = dir_add(d4.0, d4.1, "zero"@, DevNode::Zero);
    let d6 = dir_add(d5.0, d5.1, "shm"@, DevNode::Shm);
    let d7 = dir_add(d6.0, d6.1, "rtc"@, DevNode::Rtc);
    let d8 = dir_add(d7.0, d7.1, "urandom"@, DevNode::Urandom);
    dir_add(d8.0, d8.1, "cpu_dma_latency"@, DevNode::CpuDmaLatency)
}

/// What `/proc` holds: `mounts`, `meminfo` and `interrupts`, added in
/// that order.
pub open spec fn proc_defaults() -> (Seq<Seq<char>>, Seq<ProcNode>) {
    let d0 = dir_add(Seq::empty(), Seq::empty(), "mounts"@, ProcNode::Mounts);
    let d1 = dir_add(d0.0, d0.1, "meminfo"@, ProcNode::MemInfo);
    dir_add(d1.0, d1.1, "interrupts"@, ProcNode::Interrupts)
}

/// A directory of nodes kept in memory, as `/dev` and `/proc` are: each
/// name once, in the order of names, with its node.
pub struct DevDir<N> {
    names: Vec<String>,
    nodes: Vec<N>,
}

/// `/proc`.
pub type ProcDir = DevDir<ProcNode>;

impl DevDir<DevNode> {
    /// `/dev` with its standard nodes (see `dev_defaults`).
    pub fn new() -> (res: Self)
        ensures
            res.wf(),
            (res.names(), res.nodes()) == dev_defaults(),
    {
        let mut d = DevDir { names: Vec::new(), nodes: Vec::new() };
        proof {
            assert(d.names() =~= Seq::<Seq<char>>::empty());
            assert(d.nodes() =~= Seq::<DevNode>::empty());
        }
        d.add("stdout", DevNode::Tty);
        d.add("stderr", DevNode::Tty);
        d.add("stdin", DevNode::Tty);
        d.add("ttyv0", DevNode::Tty);
        d.add("null", DevNode::Null);
        d.add("zero", DevNode::Zero);
        d.add("shm", DevNode::Shm);
        d.add("rtc", DevNode::Rtc);
        d.add("urandom", DevNode::Urandom);
        d.add("cpu_dma_latency", DevNode::CpuDmaLatency);
        d
    }
}

impl DevDir<ProcNode> {
    /// `/proc` with its nodes (see `proc_defaults`).
    pub fn new() -> (res: Self)
        ensures
            res.wf(),
            (res.names(), res.nodes()) == proc_defaults(),
    {
        let mut d = DevDir { names: Vec::new(), nodes: Vec::new() };
        proof {
            assert(d.names() =~= Seq::<Seq<char>>::empty());
            assert(d.nodes() =~= Seq::<ProcNode>::empty());
        }
        d.add("mounts", ProcNode::Mounts);
        d.add("meminfo", ProcNode::MemInfo);
        d.add("interrupts", ProcNode::Interrupts);
        d
    }
}

impl<N: Copy> DevDir<N> {
    /// The names, in order.
    pub closed spec fn names(&self) -> Seq<Seq<char>> {
        strings_view(self.names@)
    }

    /// The node of each name.
    pub closed spec fn nodes(&self) -> Seq<N> {
        self.nodes@
    }

    pub open spec fn wf(&self) -> bool {
        &&& self.names().len() == self.nodes().len()
        &&& names_sorted(self.names())
    }

    /// The node under `name`, or `FileNotFound`.
    pub fn open(&self, name: &str) -> (res: Result<N, VfsError>)
        requires
            self.wf(),
        ensures
            res == (match lookup(self.names(), self.nodes(), name@) {
                Some(n) => Ok::<N, VfsError>(n),
                None => Err::<N, VfsError>(VfsError::FileNotFound),
            }),
    {
        let mut i: usize = 0;
        while i < self.names.len()
            invariant
                self.wf(),
                i <= self.names@.len(),
                forall|j: int| 0 <= j < i ==> #[trigger] self.names()[j] != name@,
            decreases self.names@.len() - i,
        {
            assert(self.names()[i as int] == self.names@[i as int]@);
            if crate::ramfs::str_eq(self.names[i].as_str(), name) {
                proof {
                    lemma_lookup_at(self.names(), self.nodes(), name@, i as int);
                }
                return Ok(self.nodes[i]);
            }
            i = i + 1;
        }
        proof {
            lemma_lookup_none(self.names(), self.nodes(), name@);
        }
        Err(VfsError::FileNotFound)
    }

    /// Puts `node` under `name`: a name already there gets the new node,
    /// else the name goes in at its place in the order.
    pub fn add(&mut self, name: &str, node: N)
        requires
            old(self).wf(),
        ensures
            final(self).wf(),
            (final(self).names(), final(self).nodes()) == dir_add(old(self).names(), old(self).nodes(), name@, node),
    {
        let ghost s = self.names();
        let mut i: usize = 0;
        while i < self.names.len()
            invariant
                self.wf(),
                self.names() == s,
                i <= s.len(),
                forall|j: int| 0 <= j < i ==> name_lt(#[trigger] s[j], name@),
            ensures
                self.wf(),
                self.names() == s,
                i <= s.len(),
                forall|j: int| 0 <= j < i ==> name_lt(#[trigger] s[j], name@),
                i < s.len() ==> !name_lt(s[i as int], name@),
            decreases s.len() - i,
        {
            assert(s[i as int] == self.names@[i as int]@);
            if !str_lt(self.names[i].as_str(), name) {
                break;
            }
            i = i + 1;
        }
        proof {
            lemma_slot_at(s, name@, i as int);
            lemma_dir_add_sorted(s, self.nodes(), name@, node);
        }
        if i < self.names.len() && crate::ramfs::str_eq(self.names[i].as_str(), name) {
            self.nodes.set(i, node);
        } else {
            self.names.insert(i, name.to_string());
            self.nodes.insert(i, node);
            proof {
                assert(self.names() =~= s.insert(i as int, name@));
            }
        }
    }

    /// The listing: each name in order, as a device of size 0.
    pub fn read_dir(&self) -> (res: Vec<DirEntry>)
        requires
            self.wf(),
        ensures
            res@.len() == self.names().len(),
            forall|i: int| 0 <= i < res@.len() ==> dir_entry_view(#[trigger] res@[i]) == (self.names()[i], 0int, FileType::Device),
    {
        let mut v: Vec<DirEntry> = Vec::new();
        let mut i: usize = 0;
        while i < self.names.len()
            invariant
                self.wf(),
                i <= self.names@.len(),
                v@.len() == i,
                forall|j: int| 0 <= j < i ==> dir_entry_view(#[trigger] v@[j]) == (self.names()[j], 0int, FileType::Device),
            decreases self.names@.len() - i,
        {
            assert(self.names()[i as int] == self.names@[i as int]@);
            v.push(DirEntry { filename: self.names[i].clone(), len: 0, file_type: FileType::Device });
            i = i + 1;
        }
        v
    }

    /// The number of nodes.
    pub fn children(&self) -> (res: usize)
        requires
            self.wf(),
        ensures
            res == self.names().len(),
    {
        self.names.len()
    }
}

/// What `/dev` and `/proc` report to `stat`: a directory, node 1, one link, owned by
/// root, blocks of 512 bytes; the times stay as they were.
pub open spec fn dev_dir_stat(before: Stat, after: Stat) -> bool {
    &&& after.dev == 0
    &&& after.ino == 1
    &&& after.mode == S_IFDIR
    &&& after.nlink == 1
    &&& after.uid == 0
    &&& after.gid == 0
    &&& after.size == 0
    &&& after.blksize == 512
    &&& after.blocks == 0
    &&& after.rdev == 0
    &&& after.atime == before.atime
    &&& after.mtime == before.mtime
    &&& after.ctime == before.ctime
}

/// Fills `stat` for `/dev` (see `dev_dir_stat`).
pub fn dev_dir_fill_stat(stat: &mut Stat) -> (res: Result<(), Errno>)
    ensures
        res == Ok::<(), Errno>(()),
        dev_dir_stat(*old(stat), *final(stat)),
{
    stat.dev = 0;
    stat.ino = 1;
    stat.mode = S_IFDIR;
    stat.nlink = 1;
    stat.uid = 0;
    stat.gid = 0;
    stat.size = 0;
    stat.blksize = 512;
    stat.blocks = 0;
    stat.rdev = 0;
    Ok(())
}

} // verus!
