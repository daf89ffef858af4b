//! The tree of directory entries that paths are walked on: each entry has a
//! name, the file system node it stands for and its parent; entry 0 is the
//! root, "/".
use vstd::prelude::*;
use vstd::string::StrSliceExecFns;
use crate::ramfs::str_eq;
use crate::pathbuf::split_slash;

verus! {

/// One entry: its name, the node behind it (a handle the file systems
/// know), and its parent (none for the root).
pub struct Dentry {
    pub name: String,
    pub node: usize,
    pub parent: Option<usize>,
}

/// The plain values of an entry.
pub open spec fn dentry_view(d: Dentry) -> (Seq<char>, usize, Option<usize>) {
    (d.name@, d.node, d.parent)
}

/// The entries, in the order they were made.
pub struct DentryTree {
    nodes: Vec<Dentry>,
}

/// An entry's parent was made before it, so following parents ends.
pub open spec fn tree_wf(s: Seq<(Seq<char>, usize, Option<usize>)>) -> bool {
    &&& s.len() >= 1
    &&& s[0].2 is None
    &&& forall|i: int| 0 <= i < s.len() ==> ((#[trigger] s[i]).2 matches Some(p) ==> p < i)
}

/// Whether entry `j` is a child of `i` named `name`.
pub open spec fn is_child_named(s: Seq<(Seq<char>, usize, Option<usize>)>, j: int, i: usize, name: Seq<char>) -> bool {
    s[j].2 == Some(i) && s[j].0 == name
}

/// The names on the way down to an entry, as the path of a dentry is
/// written: from the first ancestor that is not named "/" (or the top),
/// down to and with the entry itself.
pub open spec fn names_up(s: Seq<(Seq<char>, usize, Option<usize>)>, p: int) -> Seq<Seq<char>>
    decreases p,
{
    if p < 0 || p >= s.len() || s[p].0 == seq!['/'] {
        Seq::empty()
    } else {
        match s[p].2 {
            Some(q) => if q < p {
                names_up(s, q as int).push(s[p].0)
            } else {
                seq![s[p].0]
            },
            None => seq![s[p].0],
        }
    }
}

/// The path of entry `i`: "/" for an entry without parent, else "/" and
/// the names down from the first ancestor not named "/", each after a "/".
pub open spec fn dentry_path(s: Seq<(Seq<char>, usize, Option<usize>)>, i: int) -> Seq<char> {
    match s[i].2 {
        None => seq!['/'],
        Some(p) => slash_each(names_up(s, p as int).push(s[i].0)),
    }
}

/// Each name with a "/" before it.
pub open spec fn slash_each(names: Seq<Seq<char>>) -> Seq<char>
    decreases names.len(),
{
    if names.len() == 0 {
        Seq::empty()
    } else {
        slash_each(names.drop_last()) + seq!['/'] + names.last()
    }
}

/// One step of walking a path component.
#[derive(Clone, Copy, Debug, PartialEq, Eq, Structural)]
pub enum WalkStep {
    /// Go to this entry ("", "." stay; ".." goes to the parent, or stays at
    /// the top; a name goes to the first child of that name).
    Go(usize),
    /// No child of that name is known: ask the node of the current entry to
    /// open it.
    Open,
}

impl DentryTree {
    /// The entries, by value.
    pub closed spec fn view(&self) -> Seq<(Seq<char>, usize, Option<usize>)> {
        self.nodes@.map_values(|d: Dentry| dentry_view(d))
    }

    pub closed spec fn wf(&self) -> bool {
        tree_wf(self.view())
    }

    /// A tree of the root alone, named "/", standing for `root_node`.
    pub fn new(root_node: usize) -> (res: Self)
        ensures
            res.wf(),
            res.view() == seq![(seq!['/'], root_node, None::<usize>)],
    {
        proof {
            reveal_strlit("/");
        }
        let mut nodes: Vec<Dentry> = Vec::new();
        let root = String::from_str("/");
        assert(root@ =~= seq!['/']);
        nodes.push(Dentry { name: root, node: root_node, parent: None });
        let res = DentryTree { nodes };
        proof {
            assert(res.view() =~= seq![(seq!['/'], root_node, None::<usize>)]);
        }
        res
    }

    /// The number of entries.
    pub fn len(&self) -> (res: usize)
        ensures
            res == self.view().len(),
    {
        self.nodes.len()
    }

    /// The node entry `i` stands for.
    pub fn node_of(&self, i: usize) -> (res: usize)
        requires
            i < self.view().len(),
        ensures
            res == self.view()[i as int].1,
    {
        self.nodes[i].node
    }

    /// The first child of entry `i` named `name`, if any.
    pub fn child_named(&self, i: usize, name: &str) -> (res: Option<usize>)
        ensures
            res matches Some(j) ==> j < self.view().len() && is_child_named(self.view(), j as int, i, name@)
                && forall|k: int| 0 <= k < j ==> !is_child_named(self.view(), k, i, name@),
            res is None ==> forall|k: int| 0 <= k < self.view().len() ==> !is_child_named(self.view(), k, i, name@),
    {
        let mut j: usize = 0;
        while j < self.nodes.len()
            invariant
                j <= self.view().len(),
                self.view().len() == self.nodes@.len(),
                forall|k: int| 0 <= k < j ==> !is_child_named(self.view(), k, i, name@),
            decreases self.nodes@.len() - j,
        {
            let d = &self.nodes[j];
            assert(self.view()[j as int] == dentry_view(*d));
            let is_child = match d.parent {
                Some(p) => p == i,
                None => false,
            };
            if is_child && str_eq(d.name.as_str(), name) {
                return Some(j);
            }
            j = j + 1;
        }
        None
    }

    /// Adds an entry `name` for `node` under entry `parent`; returns its index.
    pub fn add_child(&mut self, parent: usize, name: &str, node: usize) -> (res: usize)
        requires
            old(self).wf(),
            parent < old(self).view().len(),
        ensures
            final(self).wf(),
            res == old(self).view().len(),
            final(self).view() == old(self).view().push((name@, node, Some(parent))),
            final(self).view()[0] == old(self).view()[0],
    {
        let idx = self.nodes.len();
        self.nodes.push(Dentry { name: name.to_string(), node, parent: Some(parent) });
        proof {
            assert(self.view() =~= old(self).view().push((name@, node, Some(parent))));
        }
        idx
    }

    /// Mounts a file system whose root is `node` over entry `d`: a new
    /// entry of the same name and parent stands for it (the last step of
    /// `DentryNode::mount`, once the path is walked). Returns its index.
    pub fn mount_over(&mut self, d: usize, node: usize) -> (res: usize)
        requires
            old(self).wf(),
            d < old(self).view().len(),
            old(self).view()[d as int].2 is Some,
        ensures
            final(self).wf(),
            res == old(self).view().len(),
            final(self).view() == old(self).view().push(
                (old(self).view()[d as int].0, node, old(self).view()[d as int].2),
            ),
            final(self).view()[0] == old(self).view()[0],
    {
        assert(self.view()[d as int] == dentry_view(self.nodes@[d as int]));
        let parent = self.nodes[d].parent.unwrap();
        let name = self.nodes[d].name.clone();
        let idx = self.nodes.len();
        self.nodes.push(Dentry { name, node, parent: Some(parent) });
        proof {
            assert(self.view() =~= old(self).view().push(
                (old(self).view()[d as int].0, node, old(self).view()[d as int].2),
            ));
        }
        idx
    }

    /// Where walking component `comp` from entry `cur` goes.
    pub fn step(&self, cur: usize, comp: &str) -> (res: WalkStep)
        requires
            self.wf(),
            cur < self.view().len(),
        ensures
            (comp@.len() == 0 || comp@ == seq!['.']) ==> res == WalkStep::Go(cur),
            comp@ == seq!['.', '.'] ==> res == WalkStep::Go(
                match self.view()[cur as int].2 {
                    Some(p) => p,
                    None => cur,
                },
            ),
            !(comp@.len() == 0 || comp@ == seq!['.'] || comp@ == seq!['.', '.']) ==> (res matches WalkStep::Go(j) ==> j
                < self.view().len() && is_child_named(self.view(), j as int, cur, comp@) && forall|k: int|
                0 <= k < j ==> !is_child_named(self.view(), k, cur, comp@)),
            !(comp@.len() == 0 || comp@ == seq!['.'] || comp@ == seq!['.', '.']) ==> (res is Open <==> forall|k: int|
                0 <= k < self.view().len() ==> !is_child_named(self.view(), k, cur, comp@)),
    {
        let n = comp.unicode_len();
        if n == 0 || (n == 1 && comp.get_char(0) == '.') {
            proof {
                if n == 1 {
                    assert(comp@ =~= seq!['.']);
                }
            }
            return WalkStep::Go(cur);
        }
        if n == 2 && comp.get_char(0) == '.' && comp.get_char(1) == '.' {
            proof {
                assert(comp@ =~= seq!['.', '.']);
            }
            assert(self.view()[cur as int] == dentry_view(self.nodes@[cur as int]));
            return match self.nodes[cur].parent {
                Some(p) => WalkStep::Go(p),
                None => WalkStep::Go(cur),
            };
        }
        proof {
            if comp@ == seq!['.'] {
                assert(comp@.len() == 1);
            }
            if comp@ == seq!['.', '.'] {
                assert(comp@.len() == 2);
            }
        }
        match self.child_named(cur, comp) {
            Some(j) => WalkStep::Go(j),
            None => WalkStep::Open,
        }
    }

    /// The path of entry `i` (see `dentry_path`).
    pub fn path(&self, i: usize) -> (res: String)
        requires
            self.wf(),
            i < self.view().len(),
        ensures
            res@ == dentry_path(self.view(), i as int),
    {
        let ghost s = self.view();
        assert(s[i as int] == dentry_view(self.nodes@[i as int]));
        let p = match self.nodes[i].parent {
            None => {
                proof {
                    reveal_strlit("/");
                }
                return String::from_str("/");
            },
            Some(p) => p,
        };
        let ghost all = names_up(s, p as int).push(s[i as int].0);
        let mut names: Vec<&str> = Vec::new();
        names.push(self.nodes[i].name.as_str());
        let mut cur = p;
        let ghost mut up: Seq<Seq<char>> = seq![s[i as int].0];
        proof {
            assert(names_up(s, p as int) + up =~= all);
        }
        loop
            invariant_except_break
                cur < s.len(),
                names_up(s, cur as int) + up == all,
            invariant
                s == self.view(),
                tree_wf(s),
                names@.len() == up.len(),
                forall|k: int| 0 <= k < up.len() ==> (#[trigger] names@[k])@ == up[up.len() - 1 - k],
            ensures
                up == all,
            decreases cur,
        {
            assert(s[cur as int] == dentry_view(self.nodes@[cur as int]));
            let d = &self.nodes[cur];
            if d.name.as_str().unicode_len() == 1 && d.name.as_str().get_char(0) == '/' {
                proof {
                    assert(d.name@ =~= seq!['/']);
                    assert(names_up(s, cur as int) =~= Seq::<Seq<char>>::empty());
                    assert(up =~= all);
                }
                break;
            }
            proof {
                if d.name@ == seq!['/'] {
                    assert(d.name@.len() == 1);
                }
            }
            let ghost old_up = up;
            names.push(d.name.as_str());
            proof {
                up = seq![s[cur as int].0] + old_up;
                assert forall|k: int| 0 <= k < up.len() implies (#[trigger] names@[k])@ == up[up.len() - 1 - k] by {
                    if k < old_up.len() {
                        assert(names@[k] == names@.drop_last()[k]);
                    }
                }
            }
            match d.parent {
                Some(q) => {
                    proof {
                        assert(names_up(s, cur as int) == names_up(s, q as int).push(s[cur as int].0));
                        assert(names_up(s, q as int) + up =~= names_up(s, cur as int) + old_up);
                    }
                    cur = q;
                },
                None => {
                    proof {
                        assert(names_up(s, cur as int) =~= seq![s[cur as int].0]);
                        assert(up =~= names_up(s, cur as int) + old_up);
                    }
                    break;
                },
            }
        }
        let mut res = String::new();
        let mut k: usize = names.len();
        while k > 0
            invariant
                k <= names@.len(),
                names@.len() == all.len(),
                forall|m: int| 0 <= m < all.len() ==> (#[trigger] names@[m])@ == all[all.len() - 1 - m],
                res@ == slash_each(all.subrange(0, (all.len() - k) as int)),
            decreases k,
        {
            k = k - 1;
            let ghost before = res@;
            res.append("/");
            res.append(names[k]);
            proof {
                reveal_strlit("/");
                let j = (all.len() - k) as int;
                assert(all.subrange(0, j).drop_last() =~= all.subrange(0, j - 1));
                assert(names@[k as int]@ == all[j - 1]);
                assert(res@ =~= slash_each(all.subrange(0, j)));
            }
        }
        proof {
            assert(all.subrange(0, all.len() as int) =~= all);
        }
        res
    }
}

/// The first child of `cur` named `name` among entries `k` on.
pub open spec fn child_from(s: Seq<(Seq<char>, usize, Option<usize>)>, cur: usize, name: Seq<char>, k: int) -> Option<int>
    decreases s.len() - k,
{
    if k < 0 || k >= s.len() {
        None
    } else if is_child_named(s, k, cur, name) {
        Some(k)
    } else {
        child_from(s, cur, name, k + 1)
    }
}

/// Where component `comp` leads from entry `cur` among the entries known:
/// "" and "." stay, ".." goes to the parent (the top stays), a name to the
/// first child of that name; `None` when no such child is known.
pub open spec fn step_to(s: Seq<(Seq<char>, usize, Option<usize>)>, cur: usize, comp: Seq<char>) -> Option<int> {
    if comp.len() == 0 || comp == seq!['.'] {
        Some(cur as int)
    } else if comp == seq!['.', '.'] {
        Some(
            match s[cur as int].2 {
                Some(p) => p as int,
                None => cur as int,
            },
        )
    } else {
        child_from(s, cur, comp, 0)
    }
}

/// Walking components from entry `start`: the entry reached, or the entry
/// where a component is not known, with that component.
pub open spec fn walk_back(s: Seq<(Seq<char>, usize, Option<usize>)>, start: usize, comps: Seq<Seq<char>>) -> Result<
    int,
    (int, Seq<char>),
>
    decreases comps.len(),
{
    if comps.len() == 0 {
        Ok(start as int)
    } else {
        match walk_back(s, start, comps.drop_last()) {
            Ok(m) => match step_to(s, m as usize, comps.last()) {
                Some(n) => Ok(n),
                None => Err((m, comps.last())),
            },
            Err(e) => Err(e),
        }
    }
}

/// Whether a component moves the walk at all ("" and "." do not).
pub open spec fn moves() -> spec_fn(Seq<char>) -> bool {
    |c: Seq<char>| !(c.len() == 0 || c == seq!['.'])
}

/// Where a walk of `path` starts: the root for a path beginning with '/',
/// else `start`.
pub open spec fn walk_start(path: Seq<char>, start: usize) -> usize {
    if path.len() > 0 && path[0] == '/' {
        0
    } else {
        start
    }
}

/// The step of `child_from` that `child_named` takes.
proof fn lemma_child_from(s: Seq<(Seq<char>, usize, Option<usize>)>, cur: usize, name: Seq<char>, k: int)
    requires
        0 <= k <= s.len(),
        forall|m: int| 0 <= m < k ==> !is_child_named(s, m, cur, name),
    ensures
        (exists|j: int| 0 <= j < s.len() && is_child_named(s, j, cur, name) && forall|m: int|
            0 <= m < j ==> !is_child_named(s, m, cur, name)) ==> child_from(s, cur, name, 0)
            == child_from(s, cur, name, k),
        (forall|j: int| 0 <= j < s.len() ==> !is_child_named(s, j, cur, name)) ==> child_from(s, cur, name, k) is None,
        forall|j: int| k <= j < s.len() && is_child_named(s, j, cur, name) && (forall|m: int|
            0 <= m < j ==> !is_child_named(s, m, cur, name)) ==> child_from(s, cur, name, k) == Some(j),
    decreases s.len() - k,
{
    if k < s.len() {
        if !is_child_named(s, k, cur, name) {
            lemma_child_from(s, cur, name, k + 1);
        }
    }
    lemma_child_from_zero(s, cur, name, k);
}

proof fn lemma_child_from_zero(s: Seq<(Seq<char>, usize, Option<usize>)>, cur: usize, name: Seq<char>, k: int)
    requires
        0 <= k <= s.len(),
        forall|m: int| 0 <= m < k ==> !is_child_named(s, m, cur, name),
    ensures
        child_from(s, cur, name, 0) == child_from(s, cur, name, k),
    decreases k,
{
    if k > 0 {
        lemma_child_from_zero(s, cur, name, k - 1);
    }
}

impl DentryTree {
    /// Where component `comp` leads from `cur` (see `step_to`).
    fn step_known(&self, cur: usize, comp: &str) -> (res: Option<usize>)
        requires
            self.wf(),
            cur < self.view().len(),
        ensures
            res matches Some(n) ==> n < self.view().len() && step_to(self.view(), cur, comp@) == Some(n as int),
            res is None ==> step_to(self.view(), cur, comp@) is None,
    {
        proof {
            lemma_child_from_zero(self.view(), cur, comp@, 0);
        }
        match self.step(cur, comp) {
            WalkStep::Go(j) => {
                proof {
                    if !(comp@.len() == 0 || comp@ == seq!['.'] || comp@ == seq!['.', '.']) {
                        lemma_child_from(self.view(), cur, comp@, 0);
                    } else if comp@ == seq!['.', '.'] {
                        assert(self.view()[cur as int].2 matches Some(p) ==> p < cur);
                    }
                }
                Some(j)
            },
            WalkStep::Open => {
                proof {
                    lemma_child_from(self.view(), cur, comp@, 0);
                }
                None
            },
        }
    }

    /// Walks `path` over the entries known, from the root for a path that
    /// begins with '/' and from `start` otherwise, component by component
    /// as `str::split('/')` cuts it: the entry reached, or the entry where a
    /// component is not known, with that component. The caller then asks
    /// that entry's node for the component: a name it does not have is not
    /// found, whatever the flags of the open.
    pub fn walk(&self, start: usize, path: &str) -> (res: Result<usize, (usize, String)>)
        requires
            self.wf(),
            start < self.view().len(),
        ensures
            match walk_back(self.view(), walk_start(path@, start), split_slash(path@)) {
                Ok(n) => res == Ok::<usize, (usize, String)>(n as usize) && n < self.view().len(),
                Err((m, c)) => res matches Err((m2, c2)) && m2 == m && c2@ == c,
            },
    {
        let n = path.unicode_len();
        let from = if n > 0 && path.get_char(0) == '/' { 0 } else { start };
        let ghost s = self.view();
        let mut state: Result<usize, (usize, String)> = Ok(from);
        let mut cs: usize = 0;
        let mut i: usize = 0;
        proof {
            assert(path@.subrange(0, 0) =~= Seq::<char>::empty());
            assert(split_slash(Seq::<char>::empty()).drop_last() =~= Seq::<Seq<char>>::empty());
        }
        while i < n
            invariant
                self.wf(),
                s == self.view(),
                n == path@.len(),
                from < s.len(),
                from == walk_start(path@, start),
                cs <= i <= n,
                split_slash(path@.subrange(0, i as int)).last() == path@.subrange(cs as int, i as int),
                split_slash(path@.subrange(0, i as int)).len() >= 1,
                match walk_back(s, from, split_slash(path@.subrange(0, i as int)).drop_last()) {
                    Ok(m) => state == Ok::<usize, (usize, String)>(m as usize) && m < s.len(),
                    Err((m, c)) => state matches Err((m2, c2)) && m2 == m && c2@ == c,
                },
                state matches Ok(m) ==> m < s.len() && walk_back(s, from, split_slash(path@.subrange(0, i as int)).drop_last()) == Ok::<int, (int, Seq<char>)>(m as int),
            decreases n - i,
        {
            let ch = path.get_char(i);
            let ghost pre = path@.subrange(0, i as int);
            let ghost post = path@.subrange(0, i + 1);
            proof {
                assert(post.drop_last() =~= pre);
                assert(post.last() == ch);
            }
            if ch == '/' {
                let comp = path.substring_char(cs, i);
                proof {
                    assert(split_slash(post) == split_slash(pre).push(Seq::<char>::empty()));
                    assert(split_slash(post).drop_last() == split_slash(pre));
                    assert(split_slash(pre) =~= split_slash(pre).drop_last().push(comp@));
                    assert(split_slash(post).last() =~= path@.subrange(i + 1, i + 1));
                }
                match state {
                    Ok(m) => {
                        match self.step_known(m, comp) {
                            Some(nx) => {
                                state = Ok(nx);
                            },
                            None => {
                                state = Err((m, comp.to_owned()));
                            },
                        }
                    },
                    Err(_) => {},
                }
                cs = i + 1;
            } else {
                proof {
                    let prev = split_slash(pre);
                    assert(split_slash(post) == prev.update(prev.len() - 1, prev.last().push(ch)));
                    assert(split_slash(post).drop_last() =~= prev.drop_last());
                    assert(split_slash(post).last() =~= path@.subrange(cs as int, i + 1));
                }
            }
            i = i + 1;
        }
        proof {
            assert(path@.subrange(0, n as int) =~= path@);
        }
        let last = path.substring_char(cs, n);
        proof {
            assert(split_slash(path@) =~= split_slash(path@).drop_last().push(last@));
            assert(split_slash(path@).drop_last() == split_slash(path@.subrange(0, i as int)).drop_last());
        }
        match state {
            Ok(m) => match self.step_known(m, last) {
                Some(nx) => Ok(nx),
                None => Err((m, last.to_owned())),
            },
            Err(e) => Err(e),
        }
    }
}

} // verus!
