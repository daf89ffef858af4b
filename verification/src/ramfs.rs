//! Directories of the in-memory file system.
use vstd::prelude::*;
use vstd::string::StrSliceExecFns;
use crate::errno::Errno;
use crate::ramfile::RamFileInner;
use crate::vfs::{DirEntry, FileType, Stat, TimeSpec, S_IFDIR};

verus! {

/// Whether two strings hold the same characters.
pub fn str_eq(a: &str, b: &str) -> (res: bool)
    ensures
        res == (a@ == b@),
{
    let n = a.unicode_len();
    if n != b.unicode_len() {
        return false;
    }
    let mut i: usize = 0;
    while i < n
        invariant
            n == a@.len(),
            n == b@.len(),
            i <= n,
            forall|k: int| 0 <= k < i ==> a@[k] == b@[k],
        decreases n - i,
    {
        if a.get_char(i) != b.get_char(i) {
            return false;
        }
        i = i + 1;
    }
    assert(a@ =~= b@);
    true
}

/// A link in a directory: its name and the node it stands for, as the owner
/// of the file system numbers its nodes.
pub struct RamLinkInner {
    pub name: String,
    pub target: u64,
}

/// A node held in a directory.
pub enum FileContainer {
    File(RamFileInner),
    Dir(RamDirInner),
    Link(RamLinkInner),
}

/// A directory: its name and its children, in the order they were added.
pub struct RamDirInner {
    pub name: String,
    pub children: Vec<FileContainer>,
}

/// The name of a node.
pub open spec fn entry_name(c: FileContainer) -> Seq<char> {
    match c {
        FileContainer::File(f) => f.name_view(),
        FileContainer::Dir(d) => d.name@,
        FileContainer::Link(l) => l.name@,
    }
}

/// The kind of a node.
pub open spec fn entry_kind(c: FileContainer) -> FileType {
    match c {
        FileContainer::File(_) => FileType::File,
        FileContainer::Dir(_) => FileType::Directory,
        FileContainer::Link(_) => FileType::Link,
    }
}

/// The name and kind of a node.
pub open spec fn entry_view(c: FileContainer) -> (Seq<char>, FileType) {
    (entry_name(c), entry_kind(c))
}

/// The names and kinds of a list of nodes.
pub open spec fn entries_of(s: Seq<FileContainer>) -> Seq<(Seq<char>, FileType)> {
    s.map_values(|c: FileContainer| entry_view(c))
}

/// Whether `rmdir` (`dirs`) or `remove` (`!dirs`) takes away an entry for
/// `name`: `rmdir` takes directories, `remove` files and links.
pub open spec fn removed_by(e: (Seq<char>, FileType), name: Seq<char>, dirs: bool) -> bool {
    e.0 == name && (if dirs {
        e.1 == FileType::Directory
    } else {
        e.1 == FileType::File || e.1 == FileType::Link
    })
}

/// The entries that stay when those for `name` are taken away.
pub open spec fn drop_matching(s: Seq<(Seq<char>, FileType)>, name: Seq<char>, dirs: bool) -> Seq<
    (Seq<char>, FileType),
>
    decreases s.len(),
{
    if s.len() == 0 {
        s
    } else {
        let rest = drop_matching(s.drop_last(), name, dirs);
        if removed_by(s.last(), name, dirs) {
            rest
        } else {
            rest.push(s.last())
        }
    }
}

/// The children that stay when those `removed_by` names are taken away,
/// each as it was, in order.
pub open spec fn keep_children(s: Seq<FileContainer>, name: Seq<char>, dirs: bool) -> Seq<FileContainer>
    decreases s.len(),
{
    if s.len() == 0 {
        s
    } else {
        let rest = keep_children(s.drop_last(), name, dirs);
        if removed_by(entry_view(s.last()), name, dirs) {
            rest
        } else {
            rest.push(s.last())
        }
    }
}

/// A new, empty directory named `name`.
pub open spec fn fresh_dir(c: FileContainer, name: Seq<char>) -> bool {
    c matches FileContainer::Dir(d) && d.name@ == name && d.children@.len() == 0
}

/// A new, empty file named `name`, its time stamps zero.
pub open spec fn fresh_file(c: FileContainer, name: Seq<char>) -> bool {
    c matches FileContainer::File(f) && f.name_view() == name && f.content().len() == 0
        && f.atime_view() == TimeSpec::spec_zero() && f.mtime_view() == TimeSpec::spec_zero()
}

/// Whether some entry is named `name`.
pub open spec fn has_name(s: Seq<(Seq<char>, FileType)>, name: Seq<char>) -> bool {
    exists|i: int| 0 <= i < s.len() && (#[trigger] s[i]).0 == name
}

/// The listing of a directory: names, sizes (for files) and kinds.
pub open spec fn listing_of(s: Seq<FileContainer>) -> Seq<(Seq<char>, int, FileType)> {
    s.map_values(
        |c: FileContainer|
            (
                entry_name(c),
                match c {
                    FileContainer::File(f) => f.content().len() as int,
                    _ => 0int,
                },
                entry_kind(c),
            ),
    )
}

/// The name, size and kind that a directory entry reports.
pub open spec fn dir_entry_view(e: DirEntry) -> (Seq<char>, int, FileType) {
    (e.filename@, e.len as int, e.file_type)
}

impl RamDirInner {
    /// The names and kinds of the children.
    pub open spec fn entries(&self) -> Seq<(Seq<char>, FileType)> {
        entries_of(self.children@)
    }

    /// Every file child is well formed.
    pub open spec fn wf(&self) -> bool {
        forall|i: int|
            0 <= i < self.children@.len() ==> match #[trigger] self.children@[i] {
                FileContainer::File(f) => f.wf(),
                _ => true,
            }
    }

    /// An empty directory named `name`.
    pub fn new(name: String) -> (res: Self)
        ensures
            res.name@ == name@,
            res.entries() == Seq::<(Seq<char>, FileType)>::empty(),
            res.children@.len() == 0,
            res.wf(),
    {
        let res = RamDirInner { name, children: Vec::new() };
        assert(res.entries() =~= Seq::<(Seq<char>, FileType)>::empty());
        res
    }

    /// The position of the first child named `name`.
    pub fn find(&self, name: &str) -> (res: Option<usize>)
        ensures
            res matches Some(i) ==> i < self.entries().len() && self.entries()[i as int].0
                == name@ && forall|j: int| 0 <= j < i ==> self.entries()[j].0 != name@,
            res is None ==> !has_name(self.entries(), name@),
    {
        let mut i: usize = 0;
        while i < self.children.len()
            invariant
                i <= self.children@.len(),
                forall|j: int| 0 <= j < i ==> self.entries()[j].0 != name@,
            decreases self.children@.len() - i,
        {
            let same = match &self.children[i] {
                FileContainer::File(f) => {
                    let n = f.name();
                    str_eq(n.as_str(), name)
                },
                FileContainer::Dir(d) => str_eq(d.name.as_str(), name),
                FileContainer::Link(l) => str_eq(l.name.as_str(), name),
            };
            if same {
                return Some(i);
            }
            i = i + 1;
        }
        assert forall|j: int| 0 <= j < self.entries().len() implies (
        #[trigger] self.entries()[j]).0 != name@ by {}
        None
    }

    /// The position of the first child named `name`, or `ENOENT`.
    pub fn lookup(&self, name: &str) -> (res: Result<usize, Errno>)
        ensures
            res matches Ok(i) ==> i < self.entries().len() && self.entries()[i as int].0 == name@
                && forall|j: int| 0 <= j < i ==> self.entries()[j].0 != name@,
            res is Err <==> !has_name(self.entries(), name@),
            res matches Err(e) ==> e == Errno::ENOENT,
    {
        match self.find(name) {
            Some(i) => Ok(i),
            None => Err(Errno::ENOENT),
        }
    }

    /// Adds an empty directory named `name`, unless some child already has
    /// that name (`EEXIST`).
    pub fn mkdir(&mut self, name: &str) -> (res: Result<(), Errno>)
        requires
            old(self).wf(),
        ensures
            final(self).wf(),
            final(self).name@ == old(self).name@,
            res is Err <==> has_name(old(self).entries(), name@),
            res matches Err(e) ==> e == Errno::EEXIST && final(self).entries() == old(self).entries(),
            res is Ok ==> final(self).entries() == old(self).entries().push(
                (name@, FileType::Directory),
            ),
            res is Err ==> final(self).children@ == old(self).children@,
            res is Ok ==> final(self).children@.drop_last() == old(self).children@ && fresh_dir(
                final(self).children@.last(),
                name@,
            ),
    {
        if self.find(name).is_some() {
            return Err(Errno::EEXIST);
        }
        self.push_child(FileContainer::Dir(RamDirInner::new(name.to_owned())));
        Ok(())
    }

    /// Adds `child` as the last child.
    fn push_child(&mut self, child: FileContainer)
        requires
            old(self).wf(),
            child matches FileContainer::File(f) ==> f.wf(),
        ensures
            final(self).wf(),
            final(self).name@ == old(self).name@,
            final(self).entries() == old(self).entries().push(entry_view(child)),
            final(self).children@ == old(self).children@.push(child),
    {
        let ghost c = child;
        self.children.push(child);
        assert(self.entries() =~= old(self).entries().push(entry_view(c)));
        assert(self.children@.drop_last() =~= old(self).children@);
    }

    /// Adds an empty directory or an empty file named `name`, without looking
    /// for a child of that name first.
    pub fn create(&mut self, name: &str, ty: FileType) -> (res: Result<(), Errno>)
        requires
            old(self).wf(),
            ty == FileType::Directory || ty == FileType::File,
        ensures
            final(self).wf(),
            final(self).name@ == old(self).name@,
            res is Ok,
            final(self).entries() == old(self).entries().push((name@, ty)),
            final(self).children@.drop_last() == old(self).children@,
            ty == FileType::Directory ==> fresh_dir(final(self).children@.last(), name@),
            ty == FileType::File ==> fresh_file(final(self).children@.last(), name@),
    {
        if ty == FileType::Directory {
            self.push_child(FileContainer::Dir(RamDirInner::new(name.to_owned())));
        } else {
            self.push_child(FileContainer::File(RamFileInner::new(name.to_owned())));
        }
        Ok(())
    }

    /// Takes away every child that `removed_by` names, in order; says whether
    /// one went.
    fn remove_matching(&mut self, name: &str, dirs: bool) -> (res: bool)
        requires
            old(self).wf(),
        ensures
            final(self).wf(),
            final(self).name@ == old(self).name@,
            final(self).entries() == drop_matching(old(self).entries(), name@, dirs),
            final(self).children@ == keep_children(old(self).children@, name@, dirs),
            res == exists|i: int|
                0 <= i < old(self).entries().len() && removed_by(
                    #[trigger] old(self).entries()[i],
                    name@,
                    dirs,
                ),
    {
        let mut rest: Vec<FileContainer> = Vec::new();
        std::mem::swap(&mut rest, &mut self.children);
        let ghost orig = rest@;
        let ghost orig_entries = entries_of(orig);
        let mut removed = false;
        let mut i: usize = 0;
        let n = rest.len();
        proof {
            assert(orig_entries.subrange(0, 0) =~= Seq::<(Seq<char>, FileType)>::empty());
            assert(orig.subrange(0, 0) =~= Seq::<FileContainer>::empty());
            assert(entries_of(self.children@) =~= Seq::<(Seq<char>, FileType)>::empty());
        }
        while i < n
            invariant
                n == orig.len(),
                i <= n,
                rest@ == orig.subrange(i as int, n as int),
                orig_entries == entries_of(orig),
                forall|j: int|
                    0 <= j < orig.len() ==> match #[trigger] orig[j] {
                        FileContainer::File(f) => f.wf(),
                        _ => true,
                    },
                forall|j: int|
                    0 <= j < self.children@.len() ==> match #[trigger] self.children@[j] {
                        FileContainer::File(f) => f.wf(),
                        _ => true,
                    },
                self.name@ == old(self).name@,
                entries_of(self.children@) == drop_matching(
                    orig_entries.subrange(0, i as int),
                    name@,
                    dirs,
                ),
                self.children@ == keep_children(orig.subrange(0, i as int), name@, dirs),
                removed == exists|j: int|
                    0 <= j < i && removed_by(#[trigger] orig_entries[j], name@, dirs),
            decreases n - i,
        {
            let c = rest.remove(0);
            let ghost gc = c;
            proof {
                assert(gc == orig[i as int]);
                assert(orig_entries.subrange(0, i + 1).drop_last() =~= orig_entries.subrange(
                    0,
                    i as int,
                ));
                assert(orig_entries.subrange(0, i + 1).last() == entry_view(gc));
                assert(orig.subrange(0, i + 1).drop_last() =~= orig.subrange(0, i as int));
                assert(orig.subrange(0, i + 1).last() == gc);
            }
            let drop = match &c {
                FileContainer::File(f) => {
                    let fname = f.name();
                    !dirs && str_eq(fname.as_str(), name)
                },
                FileContainer::Dir(d) => dirs && str_eq(d.name.as_str(), name),
                FileContainer::Link(l) => !dirs && str_eq(l.name.as_str(), name),
            };
            proof {
                assert(drop == removed_by(entry_view(gc), name@, dirs));
            }
            if drop {
                removed = true;
            } else {
                let ghost before = self.children@;
                self.children.push(c);
                proof {
                    assert(entries_of(self.children@) =~= entries_of(before).push(entry_view(gc)));
                }
            }
            proof {
                assert(rest@ =~= orig.subrange(i + 1, n as int));
                if drop {
                    assert(removed_by(orig_entries[i as int], name@, dirs));
                }
            }
            i = i + 1;
        }
        proof {
            assert(orig_entries.subrange(0, n as int) =~= orig_entries);
            assert(orig.subrange(0, n as int) =~= orig);
        }
        removed
    }

    /// Takes away every directory named `name`; `ENOENT` when there was none.
    pub fn rmdir(&mut self, name: &str) -> (res: Result<(), Errno>)
        requires
            old(self).wf(),
        ensures
            final(self).wf(),
            final(self).name@ == old(self).name@,
            final(self).entries() == drop_matching(old(self).entries(), name@, true),
            final(self).children@ == keep_children(old(self).children@, name@, true),
            res is Ok <==> exists|i: int|
                0 <= i < old(self).entries().len() && removed_by(
                    #[trigger] old(self).entries()[i],
                    name@,
                    true,
                ),
            res matches Err(e) ==> e == Errno::ENOENT,
    {
        if self.remove_matching(name, true) {
            Ok(())
        } else {
            Err(Errno::ENOENT)
        }
    }

    /// Takes away every file and link named `name`; `ENOENT` when there was
    /// none. Directories stay.
    pub fn remove(&mut self, name: &str) -> (res: Result<(), Errno>)
        requires
            old(self).wf(),
        ensures
            final(self).wf(),
            final(self).name@ == old(self).name@,
            final(self).entries() == drop_matching(old(self).entries(), name@, false),
            final(self).children@ == keep_children(old(self).children@, name@, false),
            res is Ok <==> exists|i: int|
                0 <= i < old(self).entries().len() && removed_by(
                    #[trigger] old(self).entries()[i],
                    name@,
                    false,
                ),
            res matches Err(e) ==> e == Errno::ENOENT,
    {
        if self.remove_matching(name, false) {
            Ok(())
        } else {
            Err(Errno::ENOENT)
        }
    }

    /// The same as `remove`.
    pub fn unlink(&mut self, name: &str) -> (res: Result<(), Errno>)
        requires
            old(self).wf(),
        ensures
            final(self).wf(),
            final(self).name@ == old(self).name@,
            final(self).entries() == drop_matching(old(self).entries(), name@, false),
            final(self).children@ == keep_children(old(self).children@, name@, false),
            res is Ok <==> exists|i: int|
                0 <= i < old(self).entries().len() && removed_by(
                    #[trigger] old(self).entries()[i],
                    name@,
                    false,
                ),
            res matches Err(e) ==> e == Errno::ENOENT,
    {
        self.remove(name)
    }

    /// Adds a link named `name` to `target`, unless some child already has
    /// that name (`EEXIST`).
    pub fn link(&mut self, name: &str, target: u64) -> (res: Result<(), Errno>)
        requires
            old(self).wf(),
        ensures
            final(self).wf(),
            final(self).name@ == old(self).name@,
            res is Err <==> has_name(old(self).entries(), name@),
            res matches Err(e) ==> e == Errno::EEXIST && final(self).entries() == old(self).entries(),
            res is Ok ==> final(self).entries() == old(self).entries().push(
                (name@, FileType::Link),
            ),
            res is Err ==> final(self).children@ == old(self).children@,
            res is Ok ==> final(self).children@.drop_last() == old(self).children@,
            res is Ok ==> (final(self).children@.last() matches FileContainer::Link(l) && l.name@ == name@
                && l.target == target),
    {
        if self.find(name).is_some() {
            return Err(Errno::EEXIST);
        }
        self.push_child(FileContainer::Link(RamLinkInner { name: name.to_owned(), target }));
        Ok(())
    }

    /// The listing of the children: each name, its size for files (0 for
    /// directories and links) and its kind.
    pub fn read_dir(&self) -> (res: Result<Vec<DirEntry>, Errno>)
        requires
            self.wf(),
        ensures
            res matches Ok(v) && v@.map_values(|e: DirEntry| dir_entry_view(e)) == listing_of(
                self.children@,
            ),
    {
        let mut v: Vec<DirEntry> = Vec::new();
        let mut i: usize = 0;
        while i < self.children.len()
            invariant
                self.wf(),
                i <= self.children@.len(),
                v@.len() == i,
                forall|j: int|
                    0 <= j < i ==> dir_entry_view(#[trigger] v@[j]) == listing_of(
                        self.children@,
                    )[j],
            decreases self.children@.len() - i,
        {
            let e = match &self.children[i] {
                FileContainer::File(f) => DirEntry {
                    filename: f.name(),
                    len: f.size(),
                    file_type: FileType::File,
                },
                FileContainer::Dir(d) => DirEntry {
                    filename: d.name.clone(),
                    len: 0,
                    file_type: FileType::Directory,
                },
                FileContainer::Link(l) => DirEntry {
                    filename: l.name.clone(),
                    len: 0,
                    file_type: FileType::Link,
                },
            };
            v.push(e);
            i = i + 1;
        }
        assert(v@.map_values(|e: DirEntry| dir_entry_view(e)) =~= listing_of(self.children@));
        Ok(v)
    }

    /// Fills `stat` as for a directory: inode 1, directory mode, one link,
    /// owner 0, size 0, block size 512, and zero time stamps.
    pub fn stat(&self, stat: &mut Stat) -> (res: Result<(), Errno>)
        ensures
            res is Ok,
            final(stat).ino == 1,
            final(stat).mode == S_IFDIR,
            final(stat).nlink == 1,
            final(stat).uid == 0,
            final(stat).gid == 0,
            final(stat).size == 0,
            final(stat).blksize == 512,
            final(stat).blocks == 0,
            final(stat).rdev == 0,
            final(stat).atime == TimeSpec::spec_zero(),
            final(stat).mtime == TimeSpec::spec_zero(),
            final(stat).ctime == TimeSpec::spec_zero(),
            final(stat).dev == old(stat).dev,
    {
        stat.ino = 1;
        stat.mode = S_IFDIR;
        stat.nlink = 1;
        stat.uid = 0;
        stat.gid = 0;
        stat.size = 0;
        stat.blksize = 512;
        stat.blocks = 0;
        stat.rdev = 0;
        stat.mtime = TimeSpec::zero();
        stat.atime = TimeSpec::zero();
        stat.ctime = TimeSpec::zero();
        Ok(())
    }
}

} // verus!
