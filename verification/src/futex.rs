//! The futex table of a process: for each user address, the threads that
//! wait on it, in the order they came.
use vstd::prelude::*;
use crate::consts::{futex_op, FutexFlags};
use crate::errno::Errno;

verus! {

/// Keys in strictly increasing order.
pub open spec fn sorted_keys(s: Seq<(usize, Seq<usize>)>) -> bool {
    forall|i: int, j: int| 0 <= i < j < s.len() ==> #[trigger] s[i].0 < #[trigger] s[j].0
}

/// The map that a list of (address, queue) entries with distinct addresses
/// stands for.
pub open spec fn table_map(s: Seq<(usize, Seq<usize>)>) -> Map<usize, Seq<usize>> {
    Map::new(
        |k: usize| exists|i: int| 0 <= i < s.len() && #[trigger] s[i].0 == k,
        |k: usize| s[choose|i: int| 0 <= i < s.len() && #[trigger] s[i].0 == k].1,
    )
}

/// The entry at `i` is found in the map under its address.
pub proof fn lemma_map_at(s: Seq<(usize, Seq<usize>)>, i: int)
    requires
        sorted_keys(s),
        0 <= i < s.len(),
    ensures
        table_map(s).contains_key(s[i].0),
        table_map(s)[s[i].0] == s[i].1,
{
    let k = s[i].0;
    assert(s[i].0 == k);
    let c = choose|c: int| 0 <= c < s.len() && #[trigger] s[c].0 == k;
    if c < i {
        assert(s[c].0 < s[i].0);
    } else if c > i {
        assert(s[i].0 < s[c].0);
    }
}

/// An address that no entry has is not in the map.
pub proof fn lemma_map_absent(s: Seq<(usize, Seq<usize>)>, k: usize)
    requires
        forall|i: int| 0 <= i < s.len() ==> #[trigger] s[i].0 != k,
    ensures
        !table_map(s).contains_key(k),
{
}

/// Each address in the map is that of some entry.
pub proof fn lemma_map_has(s: Seq<(usize, Seq<usize>)>, k: usize) -> (i: int)
    requires
        sorted_keys(s),
        table_map(s).contains_key(k),
    ensures
        0 <= i < s.len(),
        s[i].0 == k,
        table_map(s)[k] == s[i].1,
{
    let i = choose|i: int| 0 <= i < s.len() && #[trigger] s[i].0 == k;
    lemma_map_at(s, i);
    i
}

/// Replacing the queue of the entry at `i` replaces it in the map.
pub proof fn lemma_map_update(s: Seq<(usize, Seq<usize>)>, i: int, q: Seq<usize>)
    requires
        sorted_keys(s),
        0 <= i < s.len(),
    ensures
        sorted_keys(s.update(i, (s[i].0, q))),
        table_map(s.update(i, (s[i].0, q))) == table_map(s).insert(s[i].0, q),
{
    let t = s.update(i, (s[i].0, q));
    assert(sorted_keys(t)) by {
        assert forall|a: int, b: int| 0 <= a < b < t.len() implies #[trigger] t[a].0 < #[trigger] t[b].0 by {
            assert(s[a].0 < s[b].0);
        }
    }
    let m = table_map(s).insert(s[i].0, q);
    assert forall|k: usize| #[trigger] table_map(t).contains_key(k) <==> m.contains_key(k) by {
        if table_map(t).contains_key(k) {
            let j = lemma_map_has(t, k);
            lemma_map_at(s, j);
        }
        if m.contains_key(k) && k != s[i].0 {
            let j = lemma_map_has(s, k);
            lemma_map_at(t, j);
        }
        if k == s[i].0 {
            lemma_map_at(t, i);
        }
    }
    assert forall|k: usize| #[trigger] table_map(t).contains_key(k) implies table_map(t)[k] == m[k] by {
        let j = lemma_map_has(t, k);
        if j != i {
            lemma_map_at(s, j);
        }
    }
    assert(table_map(t) =~= m);
}

/// Placing a new entry for an absent address, in order, adds it to the map.
pub proof fn lemma_map_insert(s: Seq<(usize, Seq<usize>)>, p: int, k: usize, q: Seq<usize>)
    requires
        sorted_keys(s),
        0 <= p <= s.len(),
        forall|j: int| 0 <= j < p ==> #[trigger] s[j].0 < k,
        forall|j: int| p <= j < s.len() ==> #[trigger] s[j].0 > k,
    ensures
        sorted_keys(s.insert(p, (k, q))),
        table_map(s.insert(p, (k, q))) == table_map(s).insert(k, q),
{
    let t = s.insert(p, (k, q));
    assert(sorted_keys(t)) by {
        assert forall|a: int, b: int| 0 <= a < b < t.len() implies #[trigger] t[a].0 < #[trigger] t[b].0 by {
            if b < p {
                assert(s[a].0 < s[b].0);
            } else if b == p {
                assert(s[a].0 < k);
            } else if a < p {
                assert(s[b - 1].0 > k);
                assert(s[a].0 < k);
            } else if a == p {
                assert(s[b - 1].0 > k);
            } else {
                assert(s[a - 1].0 < s[b - 1].0);
            }
        }
    }
    let m = table_map(s).insert(k, q);
    assert forall|x: usize| #[trigger] table_map(t).contains_key(x) <==> m.contains_key(x) by {
        if table_map(t).contains_key(x) && x != k {
            let j = lemma_map_has(t, x);
            if j < p {
                lemma_map_at(s, j);
            } else {
                lemma_map_at(s, j - 1);
            }
        }
        if m.contains_key(x) && x != k {
            let j = lemma_map_has(s, x);
            if j < p {
                lemma_map_at(t, j);
            } else {
                lemma_map_at(t, j + 1);
            }
        }
        if x == k {
            lemma_map_at(t, p);
        }
    }
    assert forall|x: usize| #[trigger] table_map(t).contains_key(x) implies table_map(t)[x] == m[x] by {
        let j = lemma_map_has(t, x);
        if j < p {
            lemma_map_at(s, j);
        } else if j > p {
            lemma_map_at(s, j - 1);
        }
    }
    assert(table_map(t) =~= m);
}

/// The queue at an address, empty where there is none.
pub open spec fn queue_or_empty(m: Map<usize, Seq<usize>>, k: usize) -> Seq<usize> {
    if m.contains_key(k) {
        m[k]
    } else {
        Seq::empty()
    }
}

/// The table after thread `tid` joins the end of the queue of `uaddr`.
pub open spec fn after_wait(t: Map<usize, Seq<usize>>, uaddr: usize, tid: usize) -> Map<usize, Seq<usize>> {
    t.insert(uaddr, queue_or_empty(t, uaddr).push(tid))
}

/// How many waiters of `uaddr` a wake of `n` wakes: `n`, or all there are.
pub open spec fn woken_count(t: Map<usize, Seq<usize>>, uaddr: usize, n: usize) -> int {
    if n < queue_or_empty(t, uaddr).len() {
        n as int
    } else {
        queue_or_empty(t, uaddr).len() as int
    }
}

/// The table after a wake of `n` at `uaddr`: its first waiters leave.
pub open spec fn after_wake(t: Map<usize, Seq<usize>>, uaddr: usize, n: usize) -> Map<usize, Seq<usize>> {
    if t.contains_key(uaddr) {
        t.insert(uaddr, t[uaddr].skip(woken_count(t, uaddr, n)))
    } else {
        t
    }
}

/// The table after a requeue at `uaddr` that wakes `w` and moves the next
/// `r` to the end of the queue of `uaddr2`.
pub open spec fn after_requeue(
    t: Map<usize, Seq<usize>>,
    uaddr: usize,
    w: usize,
    uaddr2: usize,
    r: usize,
) -> Map<usize, Seq<usize>> {
    if t.contains_key(uaddr) {
        let q = t[uaddr];
        let left = t.insert(uaddr, q.skip(w + r));
        left.insert(uaddr2, queue_or_empty(left, uaddr2) + q.subrange(w as int, w + r))
    } else {
        t
    }
}

/// Every value but `tid`.
pub open spec fn other_than(tid: usize) -> spec_fn(usize) -> bool {
    |x: usize| x != tid
}

/// The waiters of a process's futexes.
pub struct FutexTable {
    queues: Vec<(usize, Vec<usize>)>,
}

impl FutexTable {
    /// The entries, in increasing order of address.
    pub closed spec fn entries(&self) -> Seq<(usize, Seq<usize>)> {
        self.queues@.map_values(|e: (usize, Vec<usize>)| (e.0, e.1@))
    }

    /// Addresses are kept in increasing order, so each appears once.
    pub closed spec fn wf(&self) -> bool {
        sorted_keys(self.entries())
    }

    /// For each address, its waiting threads, the earliest first.
    pub closed spec fn view(&self) -> Map<usize, Seq<usize>> {
        table_map(self.entries())
    }

    pub fn new() -> (res: Self)
        ensures
            res.wf(),
            res.view() == Map::<usize, Seq<usize>>::empty(),
    {
        let res = FutexTable { queues: Vec::new() };
        proof {
            assert(res.view() =~= Map::<usize, Seq<usize>>::empty());
        }
        res
    }

    /// The index of the entry of `uaddr`, or where it would go.
    fn position(&self, uaddr: usize) -> (res: (usize, bool))
        requires
            self.wf(),
        ensures
            res.0 <= self.entries().len(),
            res.1 ==> res.0 < self.entries().len() && self.entries()[res.0 as int].0 == uaddr,
            !res.1 ==> (forall|j: int| 0 <= j < res.0 ==> #[trigger] self.entries()[j].0 < uaddr),
            !res.1 ==> (forall|j: int|
                res.0 <= j < self.entries().len() ==> #[trigger] self.entries()[j].0 > uaddr),
    {
        let mut i: usize = 0;
        while i < self.queues.len()
            invariant
                self.wf(),
                i <= self.entries().len(),
                self.entries().len() == self.queues@.len(),
                forall|j: int| 0 <= j < i ==> #[trigger] self.entries()[j].0 < uaddr,
            decreases self.queues@.len() - i,
        {
            let k = self.queues[i].0;
            assert(self.entries()[i as int].0 == k);
            if k == uaddr {
                return (i, true);
            }
            if k > uaddr {
                proof {
                    assert forall|j: int| i <= j < self.entries().len() implies #[trigger] self.entries()[j].0
                        > uaddr by {
                        if j > i {
                            assert(self.entries()[i as int].0 < self.entries()[j].0);
                        }
                    }
                }
                return (i, false);
            }
            i = i + 1;
        }
        (i, false)
    }

    /// `FUTEX_WAIT`: thread `tid` joins the end of the queue of `uaddr`.
    pub fn wait(&mut self, uaddr: usize, tid: usize)
        requires
            old(self).wf(),
        ensures
            final(self).wf(),
            final(self).view() == after_wait(old(self).view(), uaddr, tid),
    {
        let (p, found) = self.position(uaddr);
        let ghost s = self.entries();
        if found {
            let (k, mut q) = self.queues.remove(p);
            q.push(tid);
            self.queues.insert(p, (k, q));
            proof {
                lemma_map_at(s, p as int);
                lemma_map_update(s, p as int, s[p as int].1.push(tid));
                assert(self.entries() =~= s.update(p as int, (uaddr, s[p as int].1.push(tid))));
            }
        } else {
            let mut q: Vec<usize> = Vec::new();
            q.push(tid);
            self.queues.insert(p, (uaddr, q));
            proof {
                lemma_map_absent(s, uaddr);
                lemma_map_insert(s, p as int, uaddr, seq![tid]);
                assert(seq![tid] =~= Seq::<usize>::empty().push(tid));
                assert(self.entries() =~= s.insert(p as int, (uaddr, seq![tid])));
            }
        }
    }

    /// `FUTEX_WAKE`: the first `wake_count` waiters of `uaddr` (all if
    /// fewer) leave its queue; returns how many.
    pub fn wake(&mut self, uaddr: usize, wake_count: usize) -> (res: usize)
        requires
            old(self).wf(),
        ensures
            final(self).wf(),
            res == woken_count(old(self).view(), uaddr, wake_count),
            final(self).view() == after_wake(old(self).view(), uaddr, wake_count),
    {
        let (p, found) = self.position(uaddr);
        let ghost s = self.entries();
        if !found {
            proof {
                lemma_map_absent(s, uaddr);
            }
            return 0;
        }
        proof {
            lemma_map_at(s, p as int);
        }
        let (k, mut q) = self.queues.remove(p);
        let n = if wake_count < q.len() {
            wake_count
        } else {
            q.len()
        };
        let rest = q.split_off(n);
        self.queues.insert(p, (k, rest));
        proof {
            lemma_map_update(s, p as int, s[p as int].1.skip(n as int));
            assert(self.entries() =~= s.update(p as int, (uaddr, s[p as int].1.skip(n as int))));
            if n == 0 {
                assert(s[p as int].1.skip(0) =~= s[p as int].1);
            }
        }
        n
    }

    /// `FUTEX_REQUEUE`: the first `wake_count` waiters of `uaddr` leave it,
    /// the next `reque_count` move to the end of the queue of `uaddr2`;
    /// returns how many left. Nothing changes where `uaddr` has no queue.
    pub fn requeue(&mut self, uaddr: usize, wake_count: usize, uaddr2: usize, reque_count: usize) -> (res:
        usize)
        requires
            old(self).wf(),
            old(self).view().contains_key(uaddr) ==> wake_count + reque_count <= old(
                self,
            ).view()[uaddr].len(),
        ensures
            final(self).wf(),
            res == (if old(self).view().contains_key(uaddr) {
                wake_count
            } else {
                0
            }),
            final(self).view() == after_requeue(old(self).view(), uaddr, wake_count, uaddr2, reque_count),
    {
        let (p, found) = self.position(uaddr);
        let ghost s = self.entries();
        if !found {
            proof {
                lemma_map_absent(s, uaddr);
            }
            return 0;
        }
        proof {
            lemma_map_at(s, p as int);
        }
        let ghost q0 = s[p as int].1;
        let (k, mut q) = self.queues.remove(p);
        let mut moved = q.split_off(wake_count);
        let rest = moved.split_off(reque_count);
        self.queues.insert(p, (k, rest));
        let ghost s1 = self.entries();
        proof {
            lemma_map_update(s, p as int, q0.skip(wake_count + reque_count));
            assert(rest@ =~= q0.skip(wake_count + reque_count));
            assert(s1 =~= s.update(p as int, (uaddr, q0.skip(wake_count + reque_count))));
            assert(moved@ =~= q0.subrange(wake_count as int, wake_count + reque_count));
        }
        let (p2, found2) = self.position(uaddr2);
        if found2 {
            let (k2, mut q2) = self.queues.remove(p2);
            let ghost before = q2@;
            q2.append(&mut moved);
            self.queues.insert(p2, (k2, q2));
            proof {
                lemma_map_at(s1, p2 as int);
                lemma_map_update(s1, p2 as int, before + q0.subrange(wake_count as int, wake_count + reque_count));
                assert(self.entries() =~= s1.update(
                    p2 as int,
                    (uaddr2, before + q0.subrange(wake_count as int, wake_count + reque_count)),
                ));
            }
        } else {
            self.queues.insert(p2, (uaddr2, moved));
            proof {
                lemma_map_absent(s1, uaddr2);
                lemma_map_insert(
                    s1,
                    p2 as int,
                    uaddr2,
                    q0.subrange(wake_count as int, wake_count + reque_count),
                );
                assert(Seq::<usize>::empty() + q0.subrange(wake_count as int, wake_count + reque_count)
                    =~= q0.subrange(wake_count as int, wake_count + reque_count));
                assert(self.entries() =~= s1.insert(
                    p2 as int,
                    (uaddr2, q0.subrange(wake_count as int, wake_count + reque_count)),
                ));
            }
        }
        wake_count
    }

    /// Whether thread `tid` waits on some futex.
    pub fn in_futex(&self, tid: usize) -> (res: bool)
        requires
            self.wf(),
        ensures
            res == exists|k: usize| #[trigger] self.view().contains_key(k) && self.view()[k].contains(tid),
    {
        let ghost s = self.entries();
        let mut i: usize = 0;
        while i < self.queues.len()
            invariant
                self.wf(),
                s == self.entries(),
                i <= s.len(),
                s.len() == self.queues@.len(),
                forall|j: int| 0 <= j < i ==> !(#[trigger] s[j]).1.contains(tid),
            decreases self.queues@.len() - i,
        {
            let q = &self.queues[i].1;
            assert(q@ == s[i as int].1);
            let mut j: usize = 0;
            while j < q.len()
                invariant
                    self.wf(),
                    s == self.entries(),
                    i < s.len(),
                    q@ == s[i as int].1,
                    j <= q@.len(),
                    forall|m: int| 0 <= m < j ==> q@[m] != tid,
                decreases q@.len() - j,
            {
                if q[j] == tid {
                    proof {
                        lemma_map_at(s, i as int);
                        assert(s[i as int].1[j as int] == tid);
                        assert(self.view().contains_key(s[i as int].0));
                    }
                    return true;
                }
                j = j + 1;
            }
            i = i + 1;
        }
        proof {
            assert forall|k: usize| #[trigger] self.view().contains_key(k) implies !self.view()[k].contains(
                tid,
            ) by {
                let j = lemma_map_has(s, k);
                assert(!s[j].1.contains(tid));
            }
        }
        false
    }

    /// A waiter woken by a signal: thread `tid` leaves the first queue, in
    /// order of address, that holds it; the rest stay as they are.
    pub fn leave(&mut self, tid: usize)
        requires
            old(self).wf(),
        ensures
            final(self).wf(),
            (forall|k: usize|
                #[trigger] old(self).view().contains_key(k) ==> !old(self).view()[k].contains(tid))
                ==> final(self).view() == old(self).view(),
            forall|k: usize|
                #[trigger] old(self).view().contains_key(k) && old(self).view()[k].contains(tid) && (
                forall|k2: usize|
                    #[trigger] old(self).view().contains_key(k2) && old(self).view()[k2].contains(tid)
                        ==> k <= k2) ==> final(self).view() == old(self).view().insert(
                    k,
                    old(self).view()[k].filter(other_than(tid)),
                ),
    {
        let ghost s = self.entries();
        let mut i: usize = 0;
        while i < self.queues.len()
            invariant
                *self == *old(self),
                self.wf(),
                s == self.entries(),
                i <= s.len(),
                s.len() == self.queues@.len(),
                forall|j: int| 0 <= j < i ==> !(#[trigger] s[j]).1.contains(tid),
            decreases self.queues@.len() - i,
        {
            let mut has = false;
            {
                let q = &self.queues[i].1;
                assert(q@ == s[i as int].1);
                let mut j: usize = 0;
                while j < q.len()
                    invariant
                        j <= q@.len(),
                        has == exists|m: int| 0 <= m < j && q@[m] == tid,
                    decreases q@.len() - j,
                {
                    if q[j] == tid {
                        has = true;
                    }
                    j = j + 1;
                }
                proof {
                    if has {
                        let m = choose|m: int| 0 <= m < q@.len() && q@[m] == tid;
                        assert(q@[m] == tid);
                    }
                }
            }
            if has {
                let (k, q) = self.queues.remove(i);
                let ghost qs = q@;
                let mut kept: Vec<usize> = Vec::new();
                let mut j: usize = 0;
                while j < q.len()
                    invariant
                        j <= q@.len(),
                        qs == q@,
                        kept@ == qs.subrange(0, j as int).filter(other_than(tid)),
                    decreases q@.len() - j,
                {
                    proof {
                        qs.subrange(0, j as int).lemma_filter_push(qs[j as int], other_than(tid));
                        assert(qs.subrange(0, j + 1) =~= qs.subrange(0, j as int).push(qs[j as int]));
                    }
                    if q[j] != tid {
                        kept.push(q[j]);
                    }
                    j = j + 1;
                }
                proof {
                    assert(qs.subrange(0, qs.len() as int) =~= qs);
                }
                self.queues.insert(i, (k, kept));
                proof {
                    lemma_map_at(s, i as int);
                    lemma_map_update(s, i as int, qs.filter(other_than(tid)));
                    assert(self.entries() =~= s.update(i as int, (k, qs.filter(other_than(tid)))));
                    assert forall|k1: usize|
                        #[trigger] old(self).view().contains_key(k1) && old(self).view()[k1].contains(tid)
                            && (forall|k2: usize|
                            #[trigger] old(self).view().contains_key(k2) && old(self).view()[k2].contains(
                                tid,
                            ) ==> k1 <= k2) implies k1 == k by {
                        let j1 = lemma_map_has(s, k1);
                        assert(j1 >= i);
                        assert(old(self).view().contains_key(k) && old(self).view()[k].contains(tid));
                        if j1 > i {
                            assert(s[i as int].0 < s[j1].0);
                        }
                    }
                }
                return ;
            }
            i = i + 1;
        }
        proof {
            assert forall|k: usize| #[trigger] old(self).view().contains_key(k) implies !old(
                self,
            ).view()[k].contains(tid) by {
                let j = lemma_map_has(s, k);
                assert(!s[j].1.contains(tid));
            }
        }
    }
}

/// What a `futex` call comes to.
#[derive(Clone, Copy, Debug, PartialEq, Eq, Structural)]
pub enum FutexOutcome {
    /// The caller joined the queue and now waits to be woken (or for the
    /// timeout, where one was given).
    Wait,
    /// The call is done, with this result.
    Done(usize),
}

/// `futex` on the table of the calling thread `tid`. `op` loses its
/// private flag; `current` is the value found at `uaddr`. `WAIT` queues the
/// caller when `current` equals `value` (taken to 32 bits), else fails
/// with `EAGAIN`; `WAKE` wakes up to `value` waiters; `REQUEUE` wakes
/// `value` and moves `value2` to `uaddr2`; an unknown operation gives
/// `EINVAL`, the other known ones `EPERM`.
pub fn futex(
    table: &mut FutexTable,
    op: usize,
    uaddr: usize,
    current: i32,
    value: usize,
    value2: usize,
    uaddr2: usize,
    tid: usize,
) -> (res: Result<FutexOutcome, Errno>)
    requires
        old(table).wf(),
        ({
            let o = if op >= 0x80 { op - 0x80 } else { op as int };
            o == 3 && old(table).view().contains_key(uaddr) ==> value + value2 <= old(table).view()[uaddr].len()
        }),
    ensures
        final(table).wf(),
        ({
            let o = if op >= 0x80 { op - 0x80 } else { op as int };
            let t = old(table).view();
            if o == 0 && current == value as i32 {
                res == Ok::<FutexOutcome, Errno>(FutexOutcome::Wait) && final(table).view() == after_wait(
                    t,
                    uaddr,
                    tid,
                )
            } else if o == 0 {
                res == Err::<FutexOutcome, Errno>(Errno::EAGAIN) && final(table).view() == t
            } else if o == 1 {
                &&& res == Ok::<FutexOutcome, Errno>(FutexOutcome::Done(woken_count(t, uaddr, value) as usize))
                &&& final(table).view() == after_wake(t, uaddr, value)
            } else if o == 3 {
                &&& res == Ok::<FutexOutcome, Errno>(
                    FutexOutcome::Done(
                        if t.contains_key(uaddr) {
                            value
                        } else {
                            0
                        },
                    ),
                )
                &&& final(table).view() == after_requeue(t, uaddr, value, uaddr2, value2)
            } else if o <= 9 {
                res == Err::<FutexOutcome, Errno>(Errno::EPERM) && final(table).view() == t
            } else {
                res == Err::<FutexOutcome, Errno>(Errno::EINVAL) && final(table).view() == t
            }
        }),
{
    let o = futex_op(op);
    match FutexFlags::from_usize(o) {
        None => Err(Errno::EINVAL),
        Some(FutexFlags::Wait) => {
            if current == value as i32 {
                table.wait(uaddr, tid);
                Ok(FutexOutcome::Wait)
            } else {
                Err(Errno::EAGAIN)
            }
        },
        Some(FutexFlags::Wake) => {
            let n = table.wake(uaddr, value);
            Ok(FutexOutcome::Done(n))
        },
        Some(FutexFlags::Requeue) => {
            let n = table.requeue(uaddr, value, uaddr2, value2);
            Ok(FutexOutcome::Done(n))
        },
        Some(_) => Err(Errno::EPERM),
    }
}

} // verus!
