//! The command lines that the first process runs: a program and its
//! arguments, separated by spaces.
use vstd::prelude::*;
use vstd::string::StrSliceExecFns;
use crate::pathbuf::strings_view;

verus! {

/// Cutting `s` at its spaces from the left: the words finished so far and
/// the word being read (empty right after a space).
pub open spec fn scan_words(s: Seq<char>) -> (Seq<Seq<char>>, Seq<char>)
    decreases s.len(),
{
    if s.len() == 0 {
        (Seq::empty(), Seq::empty())
    } else {
        let (done, cur) = scan_words(s.drop_last());
        if s.last() == ' ' {
            if cur.len() > 0 {
                (done.push(cur), Seq::empty())
            } else {
                (done, Seq::empty())
            }
        } else {
            (done, cur.push(s.last()))
        }
    }
}

/// The words of a command line: the pieces between spaces, empty ones left
/// out (what `split(" ")` gives once the empty pieces are dropped).
pub open spec fn words(s: Seq<char>) -> Seq<Seq<char>> {
    let (done, cur) = scan_words(s);
    if cur.len() > 0 {
        done.push(cur)
    } else {
        done
    }
}

/// The word being read ends where the last space is.
proof fn lemma_scan_current(s: Seq<char>, start: int)
    requires
        0 <= start <= s.len(),
        start > 0 ==> s[start - 1] == ' ',
        forall|k: int| start <= k < s.len() ==> s[k] != ' ',
    ensures
        scan_words(s).1 == s.subrange(start, s.len() as int),
    decreases s.len(),
{
    if s.len() > start {
        lemma_scan_current(s.drop_last(), start);
        assert(s.drop_last().subrange(start, s.len() - 1).push(s.last()) =~= s.subrange(
            start,
            s.len() as int,
        ));
    } else if s.len() > 0 {
        assert(s.subrange(start, s.len() as int) =~= Seq::<char>::empty());
    } else {
        assert(s.subrange(start, s.len() as int) =~= Seq::<char>::empty());
    }
}

/// The program and arguments of a command line: its words, in order. The
/// first one names the program.
pub fn command_words(cmd: &str) -> (res: Vec<String>)
    ensures
        strings_view(res@) == words(cmd@),
{
    let n = cmd.unicode_len();
    let mut res: Vec<String> = Vec::new();
    let mut start: usize = 0;
    let mut i: usize = 0;
    while i < n
        invariant
            n == cmd@.len(),
            start <= i <= n,
            start > 0 ==> cmd@[start - 1] == ' ',
            forall|k: int| start <= k < i ==> cmd@[k] != ' ',
            strings_view(res@) == scan_words(cmd@.take(i as int)).0,
        decreases n - i,
    {
        let ghost before = cmd@.take(i as int);
        let c = cmd.get_char(i);
        proof {
            assert(cmd@.take(i + 1).drop_last() =~= before);
            assert(cmd@.take(i + 1).last() == c);
            lemma_scan_current(before, start as int);
            assert(before.subrange(start as int, i as int) =~= cmd@.subrange(start as int, i as int));
        }
        if c == ' ' {
            if start < i {
                let w = cmd.substring_char(start, i).to_owned();
                res.push(w);
                proof {
                    assert(strings_view(res@) =~= scan_words(before).0.push(
                        cmd@.subrange(start as int, i as int),
                    ));
                }
            }
            start = i + 1;
        }
        i = i + 1;
    }
    proof {
        assert(cmd@.take(n as int) =~= cmd@);
        lemma_scan_current(cmd@, start as int);
    }
    if start < n {
        let w = cmd.substring_char(start, n).to_owned();
        res.push(w);
        proof {
            assert(strings_view(res@) =~= scan_words(cmd@).0.push(cmd@.subrange(start as int, n as int)));
        }
    } else {
        proof {
            assert(cmd@.subrange(start as int, n as int) =~= Seq::<char>::empty());
        }
    }
    res
}

} // verus!
