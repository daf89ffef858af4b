//! How the ext4 driver turns a path relative to a directory into the
//! absolute path it hands the ext4 library.
use vstd::prelude::*;
use vstd::string::{StrSliceExecFns, StringExecFns};

verus! {

/// `s` without '/' at either end.
pub open spec fn trim_slashes(s: Seq<char>) -> Seq<char>
    decreases s.len(),
{
    if s.len() > 0 && s[0] == '/' {
        trim_slashes(s.skip(1))
    } else if s.len() > 0 && s.last() == '/' {
        trim_slashes(s.drop_last())
    } else {
        s
    }
}

/// Whether `s` holds two '/' in a row.
pub open spec fn has_double_slash(s: Seq<char>) -> bool {
    exists|i: int| 0 <= i < s.len() - 1 && s[i] == '/' && #[trigger] s[i + 1] == '/'
}

/// `s` with each "//" (from the left, not overlapping) made one '/'.
pub open spec fn squeeze(s: Seq<char>) -> Seq<char>
    decreases s.len(),
{
    if s.len() < 2 {
        s
    } else if s[0] == '/' && s[1] == '/' {
        seq!['/'] + squeeze(s.skip(2))
    } else {
        seq![s[0]] + squeeze(s.skip(1))
    }
}

pub proof fn lemma_trim_len(s: Seq<char>)
    ensures
        trim_slashes(s).len() <= s.len(),
    decreases s.len(),
{
    if s.len() > 0 && s[0] == '/' {
        lemma_trim_len(s.skip(1));
    } else if s.len() > 0 && s.last() == '/' {
        lemma_trim_len(s.drop_last());
    }
}

pub proof fn lemma_squeeze_len(s: Seq<char>)
    ensures
        squeeze(s).len() <= s.len(),
        has_double_slash(s) ==> squeeze(s).len() < s.len(),
    decreases s.len(),
{
    if s.len() >= 2 {
        if s[0] == '/' && s[1] == '/' {
            lemma_squeeze_len(s.skip(2));
        } else {
            lemma_squeeze_len(s.skip(1));
            if has_double_slash(s) {
                let i = choose|i: int| 0 <= i < s.len() - 1 && s[i] == '/' && #[trigger] s[i + 1] == '/';
                assert(i >= 1);
                assert(s.skip(1)[i - 1] == '/' && s.skip(1)[(i - 1) + 1] == '/');
            }
        }
    } else {
        if has_double_slash(s) {
            let i = choose|i: int| 0 <= i < s.len() - 1 && s[i] == '/' && #[trigger] s[i + 1] == '/';
        }
    }
}

/// The relative path the driver settles on: slashes at the ends dropped;
/// nothing for "" and "."; a leading "./" dropped and "//" squeezed, again
/// and again.
pub open spec fn settle(s: Seq<char>) -> Seq<char>
    decreases s.len(),
{
    let t = trim_slashes(s);
    if t.len() == 0 || t == seq!['.'] {
        Seq::empty()
    } else if t.len() >= 2 && t[0] == '.' && t[1] == '/' {
        proof {
            lemma_trim_len(s);
        }
        settle(t.skip(2))
    } else if has_double_slash(t) {
        proof {
            lemma_trim_len(s);
            lemma_squeeze_len(t);
        }
        settle(squeeze(t))
    } else {
        t
    }
}

/// The path the driver hands the ext4 library for `path` under the
/// directory at `base`: nothing when `path` settles to nothing; else
/// `base` without its trailing '/', a '/', and the settled path.
pub open spec fn deal_with(base: Seq<char>, path: Seq<char>) -> Seq<char> {
    let p = settle(path);
    if p.len() == 0 {
        Seq::empty()
    } else {
        trim_end_slashes(base) + seq!['/'] + p
    }
}

/// `s` without '/' at its end.
pub open spec fn trim_end_slashes(s: Seq<char>) -> Seq<char>
    decreases s.len(),
{
    if s.len() > 0 && s.last() == '/' {
        trim_end_slashes(s.drop_last())
    } else {
        s
    }
}

/// The text of `s[from..to]`.
fn piece(s: &str, from: usize, to: usize) -> (res: String)
    requires
        from <= to <= s@.len(),
    ensures
        res@ == s@.subrange(from as int, to as int),
{
    s.substring_char(from, to).to_string()
}

/// The bounds of `s` without '/' at either end.
fn trim_bounds(s: &str) -> (res: (usize, usize))
    ensures
        res.0 <= res.1 <= s@.len(),
        s@.subrange(res.0 as int, res.1 as int) == trim_slashes(s@),
{
    let n = s.unicode_len();
    let mut lo: usize = 0;
    let mut hi: usize = n;
    proof {
        assert(s@.subrange(0, n as int) =~= s@);
    }
    while lo < hi && s.get_char(lo) == '/'
        invariant
            lo <= hi == n == s@.len(),
            trim_slashes(s@.subrange(lo as int, n as int)) == trim_slashes(s@),
        decreases hi - lo,
    {
        proof {
            assert(s@.subrange(lo as int, n as int).skip(1) =~= s@.subrange(lo + 1, n as int));
        }
        lo = lo + 1;
    }
    while lo < hi && s.get_char(hi - 1) == '/'
        invariant
            lo <= hi <= n == s@.len(),
            trim_slashes(s@.subrange(lo as int, hi as int)) == trim_slashes(s@),
            lo < hi ==> s@[lo as int] != '/',
        decreases hi - lo,
    {
        proof {
            let t = s@.subrange(lo as int, hi as int);
            assert(t.drop_last() =~= s@.subrange(lo as int, hi - 1));
        }
        hi = hi - 1;
    }
    proof {
        let t = s@.subrange(lo as int, hi as int);
        if t.len() > 0 {
            assert(t[0] != '/');
            assert(t.last() != '/');
        }
    }
    (lo, hi)
}

/// `s` with each "//" made one '/'.
fn squeeze_str(s: &str) -> (res: String)
    ensures
        res@ == squeeze(s@),
{
    let n = s.unicode_len();
    let mut out = String::new();
    let mut i: usize = 0;
    proof {
        assert(s@.skip(0) =~= s@);
        assert(out@ + squeeze(s@) =~= squeeze(s@));
    }
    while i < n
        invariant
            n == s@.len(),
            i <= n,
            out@ + squeeze(s@.skip(i as int)) == squeeze(s@),
        decreases n - i,
    {
        let ghost rest = s@.skip(i as int);
        if i + 1 < n && s.get_char(i) == '/' && s.get_char(i + 1) == '/' {
            out.append(piece(s, i, i + 1).as_str());
            proof {
                assert(rest.skip(2) =~= s@.skip(i + 2));
                assert(out@ + squeeze(s@.skip(i + 2)) =~= (out@.subrange(0, out@.len() - 1) + squeeze(rest)));
            }
            i = i + 2;
        } else {
            let ghost before = out@;
            out.append(piece(s, i, i + 1).as_str());
            proof {
                assert(rest.skip(1) =~= s@.skip(i + 1));
                if rest.len() >= 2 {
                    assert(squeeze(rest) == seq![rest[0]] + squeeze(rest.skip(1)));
                } else {
                    assert(squeeze(rest) == rest);
                    assert(rest.skip(1) =~= Seq::<char>::empty());
                    assert(rest =~= seq![rest[0]] + rest.skip(1));
                }
                assert(before + squeeze(rest) =~= out@ + squeeze(s@.skip(i + 1)));
            }
            i = i + 1;
        }
    }
    proof {
        assert(s@.skip(n as int) =~= Seq::<char>::empty());
        assert(out@ + Seq::<char>::empty() =~= out@);
    }
    out
}

/// Whether `s` holds "//".
fn has_double_slash_str(s: &str) -> (res: bool)
    ensures
        res == has_double_slash(s@),
{
    let n = s.unicode_len();
    let mut i: usize = 0;
    while i < n && i + 1 < n
        invariant
            n == s@.len(),
            i <= n,
            forall|j: int| 0 <= j < i && j < n - 1 ==> !(s@[j] == '/' && #[trigger] s@[j + 1] == '/'),
        decreases n - i,
    {
        if s.get_char(i) == '/' && s.get_char(i + 1) == '/' {
            return true;
        }
        i = i + 1;
    }
    false
}

/// The path the ext4 driver hands the ext4 library for `path` under the
/// directory whose path is `base` (see `deal_with`).
pub fn path_deal_with(base: &str, path: &str) -> (res: String)
    ensures
        res@ == deal_with(base@, path@),
{
    let mut cur = path.to_string();
    loop
        invariant
            settle(cur@) == settle(path@),
        decreases cur@.len(),
    {
        let (lo, hi) = trim_bounds(cur.as_str());
        let t = piece(cur.as_str(), lo, hi);
        let tn = t.as_str().unicode_len();
        if tn == 0 || (tn == 1 && t.as_str().get_char(0) == '.') {
            proof {
                if tn == 1 {
                    assert(t@ =~= seq!['.']);
                }
            }
            return String::new();
        }
        proof {
            if t@ == seq!['.'] {
                assert(t@.len() == 1);
            }
            lemma_trim_len(cur@);
        }
        if tn >= 2 && t.as_str().get_char(0) == '.' && t.as_str().get_char(1) == '/' {
            cur = piece(t.as_str(), 2, tn);
            proof {
                assert(cur@ =~= t@.skip(2));
            }
        } else if has_double_slash_str(t.as_str()) {
            proof {
                lemma_squeeze_len(t@);
            }
            cur = squeeze_str(t.as_str());
        } else {
            let (_, bh) = trim_bounds_end(base);
            let mut res = piece(base, 0, bh);
            res.append("/");
            res.append(t.as_str());
            proof {
                reveal_strlit("/");
            }
            return res;
        }
    }
}

/// The end of `s` without '/' at its end.
fn trim_bounds_end(s: &str) -> (res: (usize, usize))
    ensures
        res.0 == 0,
        res.1 <= s@.len(),
        s@.subrange(0, res.1 as int) == trim_end_slashes(s@),
{
    let n = s.unicode_len();
    let mut hi: usize = n;
    proof {
        assert(s@.subrange(0, n as int) =~= s@);
    }
    while hi > 0 && s.get_char(hi - 1) == '/'
        invariant
            hi <= n == s@.len(),
            trim_end_slashes(s@.subrange(0, hi as int)) == trim_end_slashes(s@),
        decreases hi,
    {
        proof {
            assert(s@.subrange(0, hi as int).drop_last() =~= s@.subrange(0, hi - 1));
        }
        hi = hi - 1;
    }
    (0, hi)
}

} // verus!
