//! Absolute paths held as a list of components.
use vstd::prelude::*;
use vstd::string::{StrSliceExecFns, StringExecFns};

verus! {

/// The components of `s` cut at every '/', as `str::split("/")` yields them:
/// `""` gives one empty component and `"a//b"` gives `"a"`, `""`, `"b"`.
pub open spec fn split_slash(s: Seq<char>) -> Seq<Seq<char>>
    decreases s.len(),
{
    if s.len() == 0 {
        seq![Seq::<char>::empty()]
    } else {
        let prev = split_slash(s.drop_last());
        if s.last() == '/' {
            prev.push(Seq::<char>::empty())
        } else {
            prev.update(prev.len() - 1, prev.last().push(s.last()))
        }
    }
}

/// One component applied to a path: `""` and `"."` leave it, `".."` drops the
/// last component (if any), any other name is appended.
pub open spec fn step_component(pb: Seq<Seq<char>>, name: Seq<char>) -> Seq<Seq<char>> {
    if name.len() == 0 || name == seq!['.'] {
        pb
    } else if name == seq!['.', '.'] {
        if pb.len() == 0 {
            pb
        } else {
            pb.drop_last()
        }
    } else {
        pb.push(name)
    }
}

/// The components `names` applied in order to `pb`.
pub open spec fn apply_components(pb: Seq<Seq<char>>, names: Seq<Seq<char>>) -> Seq<Seq<char>>
    decreases names.len(),
{
    if names.len() == 0 {
        pb
    } else {
        step_component(apply_components(pb, names.drop_last()), names.last())
    }
}

/// Whether `path` starts at the root.
pub open spec fn is_absolute(path: Seq<char>) -> bool {
    path.len() > 0 && path[0] == '/'
}

/// The components of `base` joined with `path`.
pub open spec fn join_spec(base: Seq<Seq<char>>, path: Seq<char>) -> Seq<Seq<char>> {
    apply_components(
        if is_absolute(path) {
            Seq::<Seq<char>>::empty()
        } else {
            base
        },
        split_slash(path),
    )
}

/// Components joined with '/' between them.
pub open spec fn join_with_slash(comps: Seq<Seq<char>>) -> Seq<char>
    decreases comps.len(),
{
    if comps.len() == 0 {
        Seq::<char>::empty()
    } else if comps.len() == 1 {
        comps[0]
    } else {
        join_with_slash(comps.drop_last()) + seq!['/'] + comps.last()
    }
}

/// The text of a path: '/' followed by its components joined with '/'.
pub open spec fn path_text(comps: Seq<Seq<char>>) -> Seq<char> {
    seq!['/'] + join_with_slash(comps)
}

/// The components of a string list.
pub open spec fn strings_view(v: Seq<String>) -> Seq<Seq<char>> {
    v.map_values(|s: String| s@)
}

/// No component of a normalised path is empty, "." or "..".
pub open spec fn is_normal_component(name: Seq<char>) -> bool {
    name.len() > 0 && name != seq!['.'] && name != seq!['.', '.']
}

pub open spec fn all_normal(comps: Seq<Seq<char>>) -> bool {
    forall|i: int| 0 <= i < comps.len() ==> is_normal_component(#[trigger] comps[i])
}

/// A component holds no '/'.
pub open spec fn no_slash(name: Seq<char>) -> bool {
    forall|i: int| 0 <= i < name.len() ==> name[i] != '/'
}

/// No component of a path holds a '/'.
pub open spec fn all_no_slash(comps: Seq<Seq<char>>) -> bool {
    forall|i: int| 0 <= i < comps.len() ==> no_slash(#[trigger] comps[i])
}

/// The components of a path as it can be: proper names without '/'.
pub open spec fn path_ok(comps: Seq<Seq<char>>) -> bool {
    all_normal(comps) && all_no_slash(comps)
}

/// A path, held as the list of its components, each a proper name without
/// '/'.
pub struct PathBuf(Vec<String>);

impl View for PathBuf {
    type V = Seq<Seq<char>>;

    closed spec fn view(&self) -> Seq<Seq<char>> {
        strings_view(self.0@)
    }
}

impl PathBuf {
    /// Every path's components are proper names without '/'.
    #[verifier::type_invariant]
    spec fn inv(self) -> bool {
        path_ok(self@)
    }
}

proof fn lemma_split_nonempty(s: Seq<char>)
    ensures
        split_slash(s).len() >= 1,
    decreases s.len(),
{
    if s.len() > 0 {
        lemma_split_nonempty(s.drop_last());
    }
}

proof fn lemma_step_normal(pb: Seq<Seq<char>>, name: Seq<char>)
    requires
        all_normal(pb),
    ensures
        all_normal(step_component(pb, name)),
{
}

proof fn lemma_apply_normal(pb: Seq<Seq<char>>, names: Seq<Seq<char>>)
    requires
        all_normal(pb),
    ensures
        all_normal(apply_components(pb, names)),
    decreases names.len(),
{
    if names.len() > 0 {
        lemma_apply_normal(pb, names.drop_last());
        lemma_step_normal(apply_components(pb, names.drop_last()), names.last());
    }
}

/// Copies a list of strings.
fn clone_strings(v: &Vec<String>) -> (res: Vec<String>)
    ensures
        strings_view(res@) == strings_view(v@),
{
    let mut res: Vec<String> = Vec::new();
    let mut i: usize = 0;
    while i < v.len()
        invariant
            i <= v.len(),
            res@.len() == i,
            forall|k: int| 0 <= k < i ==> (#[trigger] res@[k])@ == v@[k]@,
        decreases v.len() - i,
    {
        let s = v[i].clone();
        res.push(s);
        i = i + 1;
    }
    assert(strings_view(res@) =~= strings_view(v@));
    res
}

impl PathBuf {
    /// The root path, with no components.
    pub fn new() -> (res: Self)
        ensures
            res@ == Seq::<Seq<char>>::empty(),
            path_ok(res@),
    {
        let v: Vec<String> = Vec::new();
        assert(strings_view(v@) =~= Seq::<Seq<char>>::empty());
        PathBuf(v)
    }

    /// A copy of this path.
    pub fn clone_path(&self) -> (res: Self)
        ensures
            res@ == self@,
            path_ok(res@),
    {
        proof {
            use_type_invariant(self);
        }
        PathBuf(clone_strings(&self.0))
    }

    /// This path joined with `path`: an absolute `path` starts again from the
    /// root; each '/'-separated part is then applied in turn, `""` and `"."`
    /// being skipped, `".."` dropping the last component (none at the root),
    /// and any other part being appended.
    pub fn join(&self, path: &str) -> (res: Self)
        ensures
            res@ == join_spec(self@, path@),
            path_ok(res@),
    {
        proof {
            use_type_invariant(self);
        }
        let n = path.unicode_len();
        let absolute = n > 0 && path.get_char(0) == '/';
        let mut pb: Vec<String> = if absolute {
            Vec::new()
        } else {
            clone_strings(&self.0)
        };
        proof {
            if absolute {
                assert(strings_view(pb@) =~= Seq::<Seq<char>>::empty());
            }
        }
        let ghost base = strings_view(pb@);
        let mut start: usize = 0;
        let mut i: usize = 0;
        proof {
            assert(path@.subrange(0, 0) =~= Seq::<char>::empty());
            assert(split_slash(Seq::<char>::empty()).drop_last() =~= Seq::<Seq<char>>::empty());
        }
        while i < n
            invariant
                n == path@.len(),
                start <= i <= n,
                base == (if is_absolute(path@) {
                    Seq::<Seq<char>>::empty()
                } else {
                    self@
                }),
                split_slash(path@.subrange(0, i as int)).len() >= 1,
                split_slash(path@.subrange(0, i as int)).last() == path@.subrange(
                    start as int,
                    i as int,
                ),
                strings_view(pb@) == apply_components(base, split_slash(path@.subrange(0, i as int)).drop_last()),
                path_ok(strings_view(pb@)),
                forall|k: int| start <= k < i ==> path@[k] != '/',
            decreases n - i,
        {
            let c = path.get_char(i);
            let ghost prefix = path@.subrange(0, i as int);
            let ghost next = path@.subrange(0, i + 1);
            proof {
                assert(next.drop_last() =~= prefix);
                assert(next.last() == c);
                lemma_split_nonempty(prefix);
            }
            if c == '/' {
                let ghost names = split_slash(prefix);
                proof {
                    assert(split_slash(next) == names.push(Seq::<char>::empty()));
                    assert(split_slash(next).drop_last() =~= names);
                    assert(names =~= names.drop_last().push(names.last()));
                    assert(apply_components(base, names) == step_component(
                        apply_components(base, names.drop_last()),
                        names.last(),
                    ));
                    assert(path@.subrange((i + 1) as int, (i + 1) as int) =~= Seq::<char>::empty());
                }
                push_component(&mut pb, path, start, i);
                start = i + 1;
            } else {
                proof {
                    let names = split_slash(prefix);
                    assert(split_slash(next) == names.update(
                        names.len() - 1,
                        names.last().push(c),
                    ));
                    assert(split_slash(next).drop_last() =~= names.drop_last());
                    assert(path@.subrange(start as int, (i + 1) as int) =~= path@.subrange(
                        start as int,
                        i as int,
                    ).push(c));
                }
            }
            i = i + 1;
        }
        proof {
            let names = split_slash(path@.subrange(0, n as int));
            assert(path@.subrange(0, n as int) =~= path@);
            assert(names =~= names.drop_last().push(names.last()));
        }
        push_component(&mut pb, path, start, n);
        PathBuf(pb)
    }

    /// The text of this path: "/" followed by the components joined with "/".
    pub fn path(&self) -> (res: String)
        ensures
            res@ == path_text(self@),
            join_spec(Seq::<Seq<char>>::empty(), res@) == self@,
    {
        proof {
            use_type_invariant(self);
            crate::laws::law_path_round_trip(self@);
        }
        let mut res = String::from_str("/");
        proof {
            reveal_strlit("/");
        }
        let mut i: usize = 0;
        while i < self.0.len()
            invariant
                i <= self.0@.len(),
                res@ == seq!['/'] + join_with_slash(self@.subrange(0, i as int)),
            decreases self.0@.len() - i,
        {
            let ghost before = self@.subrange(0, i as int);
            let ghost after = self@.subrange(0, i + 1);
            proof {
                assert(after.drop_last() =~= before);
                assert(after.last() == self.0@[i as int]@);
            }
            if i > 0 {
                res.append("/");
                proof {
                    reveal_strlit("/");
                }
            } else {
                proof {
                    assert(before =~= Seq::<Seq<char>>::empty());
                }
            }
            res.append(self.0[i].as_str());
            proof {
                if i > 0 {
                    assert(res@ =~= seq!['/'] + (join_with_slash(before) + seq!['/'] + after.last()));
                } else {
                    assert(res@ =~= seq!['/'] + after[0]);
                }
            }
            i = i + 1;
        }
        proof {
            assert(self@.subrange(0, self@.len() as int) =~= self@);
        }
        res
    }

    /// The last component, or "/" for the root.
    pub fn filename(&self) -> (res: String)
        ensures
            res@ == (if self@.len() == 0 {
                seq!['/']
            } else {
                self@.last()
            }),
    {
        if self.0.len() == 0 {
            proof {
                reveal_strlit("/");
            }
            String::from_str("/")
        } else {
            self.0[self.0.len() - 1].clone()
        }
    }

    /// The directory that holds this path: the path without its last component
    /// (the root stays the root).
    pub fn dir(&self) -> (res: PathBuf)
        ensures
            res@ == (if self@.len() == 0 {
                self@
            } else {
                self@.drop_last()
            }),
            path_ok(res@),
            self@.len() > 0 ==> join_spec(res@, self@.last()) == self@,
    {
        proof {
            use_type_invariant(self);
        }
        let mut v = clone_strings(&self.0);
        let ghost before = v@;
        if v.len() > 0 {
            v.pop();
            proof {
                assert(v@ =~= before.drop_last());
                assert(strings_view(before.drop_last()) =~= strings_view(before).drop_last());
                crate::laws::law_dir_join_filename(self@);
            }
        }
        PathBuf(v)
    }

    /// The number of components.
    pub fn levels(&self) -> (res: usize)
        ensures
            res == self@.len(),
    {
        self.0.len()
    }

    /// Whether the components of `target` are the first components of this path.
    pub fn starts_with(&self, target: &PathBuf) -> (res: bool)
        ensures
            res == (target@.len() <= self@.len() && self@.subrange(0, target@.len() as int)
                == target@),
    {
        let n = target.0.len();
        if n > self.0.len() {
            return false;
        }
        let mut i: usize = 0;
        while i < n
            invariant
                n == target@.len(),
                n <= self@.len(),
                i <= n,
                forall|k: int| 0 <= k < i ==> self@[k] == target@[k],
            decreases n - i,
        {
            if !(self.0[i] == target.0[i]) {
                proof {
                    assert(self@.subrange(0, n as int)[i as int] != target@[i as int]);
                }
                return false;
            }
            i = i + 1;
        }
        proof {
            assert(self@.subrange(0, n as int) =~= target@);
        }
        true
    }

    /// This path without the components of `target` in front, when it starts
    /// with them; otherwise a copy of this path.
    pub fn trim_start(&self, target: &PathBuf) -> (res: Self)
        ensures
            res@ == (if target@.len() <= self@.len() && self@.subrange(0, target@.len() as int)
                == target@ {
                self@.subrange(target@.len() as int, self@.len() as int)
            } else {
                self@
            }),
            path_ok(res@),
    {
        proof {
            use_type_invariant(self);
        }
        if self.starts_with(target) {
            let mut v: Vec<String> = Vec::new();
            let mut i: usize = target.0.len();
            let ghost n = target@.len() as int;
            while i < self.0.len()
                invariant
                    n <= i <= self@.len(),
                    v@.len() == i - n,
                    forall|k: int| 0 <= k < v@.len() ==> (#[trigger] v@[k])@ == self@[n + k],
                decreases self@.len() - i,
            {
                v.push(self.0[i].clone());
                i = i + 1;
            }
            proof {
                assert(strings_view(v@) =~= self@.subrange(n, self@.len() as int));
            }
            PathBuf(v)
        } else {
            self.clone_path()
        }
    }

    /// The components, in order.
    pub fn iter(&self) -> (res: &[String])
        ensures
            strings_view(res@) == self@,
    {
        self.0.as_slice()
    }

    /// The same text as `path`: "/" then the components joined with "/".
    pub fn to_string(&self) -> (res: String)
        ensures
            res@ == path_text(self@),
    {
        self.path()
    }

    /// The root path joined with `value`.
    pub fn from_str(value: &str) -> (res: Self)
        ensures
            res@ == join_spec(Seq::<Seq<char>>::empty(), value@),
            path_ok(res@),
    {
        PathBuf::new().join(value)
    }
}

/// Applies the part `path[start..end]` (which holds no '/') to the
/// components `pb` as one component.
fn push_component(pb: &mut Vec<String>, path: &str, start: usize, end: usize)
    requires
        start <= end <= path@.len(),
        forall|k: int| start <= k < end ==> path@[k] != '/',
        path_ok(strings_view(old(pb)@)),
    ensures
        strings_view(final(pb)@) == step_component(strings_view(old(pb)@), path@.subrange(start as int, end as int)),
        path_ok(strings_view(final(pb)@)),
{
    let ghost name = path@.subrange(start as int, end as int);
    let len = end - start;
    if len == 0 {
        return;
    }
    let c0 = path.get_char(start);
    if len == 1 && c0 == '.' {
        proof {
            assert(name =~= seq!['.']);
        }
        return;
    }
    if len == 2 && c0 == '.' && path.get_char(start + 1) == '.' {
        proof {
            assert(name =~= seq!['.', '.']);
        }
        let ghost before = pb@;
        if pb.len() > 0 {
            pb.pop();
            proof {
                assert(strings_view(pb@) =~= strings_view(before).drop_last());
            }
        }
        return;
    }
    proof {
        if len == 1 {
            assert(name[0] == c0);
            assert(name != seq!['.']);
        }
        if len == 2 {
            assert(name[0] == c0);
            assert(name[1] == path@[start + 1]);
            assert(name != seq!['.', '.']);
        }
        assert(name.len() == len);
    }
    let part = path.substring_char(start, end).to_owned();
    let ghost before = pb@;
    pb.push(part);
    proof {
        assert(strings_view(pb@) =~= strings_view(before).push(name));
        assert(no_slash(name));
    }
}

impl Clone for PathBuf {
    fn clone(&self) -> (res: Self)
        ensures
            res@ == self@,
    {
        self.clone_path()
    }
}

/// Every component of a joined path is a proper name: none is empty, "." or
/// "..", whatever the text joined.
pub proof fn lemma_join_normal(base: Seq<Seq<char>>, path: Seq<char>)
    requires
        all_normal(base),
    ensures
        all_normal(join_spec(base, path)),
{
    lemma_apply_normal(
        if is_absolute(path) {
            Seq::<Seq<char>>::empty()
        } else {
            base
        },
        split_slash(path),
    );
}

/// Joining an absolute path does not depend on the path it is joined to.
pub proof fn lemma_join_absolute(a: Seq<Seq<char>>, b: Seq<Seq<char>>, path: Seq<char>)
    requires
        is_absolute(path),
    ensures
        join_spec(a, path) == join_spec(b, path),
{
}

} // verus!
