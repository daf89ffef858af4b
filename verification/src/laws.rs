//! Properties that tie the operations of the library together.
use vstd::prelude::*;
use crate::futex::{after_requeue, after_wait, after_wake, queue_or_empty, woken_count};
use crate::pathbuf::{
    all_no_slash, all_normal, apply_components, is_absolute, is_normal_component, join_spec, join_with_slash,
    no_slash, path_text, split_slash, step_component,
};
use crate::dentry::{dentry_path, moves, tree_wf, walk_back, walk_start};
use crate::signal::{mask_after, SIG_BLOCK, SIG_UNBLOCK};
use crate::dirent::{lemma_taken_bound, taken, used};
use crate::ext4disk::BLOCK_SIZE;
use crate::pipe::{pipe_after_write, read_count, receiver_poll, PIPE_LIMIT};
use crate::ramfs::{drop_matching, has_name, removed_by};
use crate::random::lcg_state;
use crate::time::{timeval_lt, ProcessTimer, TimeVal};
use crate::vfs::{has_bits, FileType, POLLERR, POLLIN};
use crate::elf::{max_end, page_round_up, seg_end, Segment};
use crate::stack::{auxv_spec, AT_ENTRY, AT_PHDR, AT_PHENT, AT_PHNUM};
use crate::epoll::{after_ctl, ready_events, EpollCtl, EpollEvent};
use crate::net::{family_of, ip_of, port_of, sockaddr_bytes, SockAddrV4, AF_INET};
use crate::memset::{
    addrs_of, areas_wf, overlaps, placed, placed_in_turn, sub_all, sub_result, track_in, tracks_where, views, MapTrack,
    MemArea, MemType,
};
use crate::ramfile::{read_len, truncate_result, write_result};
use crate::syscall::{other_id, ret_word, without};
use crate::errno::{lemma_errno_code_injective, Errno};
use crate::devfs::{
    dir_add, lemma_dir_add_sorted, lemma_lookup_at, lemma_lookup_none, lemma_slot, lemma_sorted_unique, lookup,
    names_sorted, slot,
};

verus! {

/// Splitting text that ends in a '/' and then a name without one gives the
/// pieces of the text before, then the name.
proof fn lemma_split_append(s: Seq<char>, c: Seq<char>)
    requires
        no_slash(c),
    ensures
        split_slash(s + seq!['/'] + c) == split_slash(s).push(c),
    decreases c.len(),
{
    if c.len() == 0 {
        assert(c =~= Seq::<char>::empty());
        assert(s + seq!['/'] + c =~= s.push('/'));
        assert((s.push('/')).drop_last() =~= s);
        assert((s.push('/')).last() == '/');
        assert(split_slash(s.push('/')) == split_slash(s).push(Seq::<char>::empty()));
    } else {
        let c0 = c.drop_last();
        lemma_split_append(s, c0);
        assert((s + seq!['/'] + c).drop_last() =~= s + seq!['/'] + c0);
        assert((s + seq!['/'] + c).last() == c.last());
        let prev = split_slash(s + seq!['/'] + c0);
        assert(prev == split_slash(s).push(c0));
        assert(prev.last() == c0);
        assert(c0.push(c.last()) =~= c);
        assert(prev.update(prev.len() - 1, c) =~= split_slash(s).push(c));
    }
}

/// Splitting a name without '/' gives just that name.
proof fn lemma_split_single(c: Seq<char>)
    requires
        no_slash(c),
    ensures
        split_slash(c) == seq![c],
    decreases c.len(),
{
    if c.len() == 0 {
        assert(split_slash(c) =~= seq![Seq::<char>::empty()]);
        assert(c =~= Seq::<char>::empty());
    } else {
        lemma_split_single(c.drop_last());
        assert(c.drop_last().push(c.last()) =~= c);
        assert(seq![c.drop_last()].update(0, c.drop_last().push(c.last())) =~= seq![c]);
    }
}

/// The pieces of a path's text: an empty one before the leading '/', then
/// its components.
proof fn lemma_split_path_text(comps: Seq<Seq<char>>)
    requires
        all_no_slash(comps),
    ensures
        split_slash(path_text(comps)) == seq![Seq::<char>::empty()] + (if comps.len() == 0 {
            seq![Seq::<char>::empty()]
        } else {
            comps
        }),
    decreases comps.len(),
{
    let e = Seq::<char>::empty();
    if comps.len() == 0 {
        assert(path_text(comps) =~= e + seq!['/'] + e);
        lemma_split_append(e, e);
        assert(split_slash(e) =~= seq![e]);
        assert(split_slash(e).push(e) =~= seq![e] + seq![e]);
    } else if comps.len() == 1 {
        assert(no_slash(comps[0]));
        assert(path_text(comps) =~= e + seq!['/'] + comps[0]);
        lemma_split_append(e, comps[0]);
        assert(split_slash(e).push(comps[0]) =~= seq![e] + comps);
    } else {
        let init = comps.drop_last();
        assert(all_no_slash(init)) by {
            assert forall|i: int| 0 <= i < init.len() implies no_slash(#[trigger] init[i]) by {
                assert(init[i] == comps[i]);
            }
        }
        lemma_split_path_text(init);
        assert(no_slash(comps.last()));
        assert(path_text(comps) =~= path_text(init) + seq!['/'] + comps.last());
        lemma_split_append(path_text(init), comps.last());
        assert(seq![e] + init.push(comps.last()) =~= (seq![e] + init).push(comps.last()));
        assert(init.push(comps.last()) =~= comps);
    }
}

/// Applying components that are all proper names appends them.
proof fn lemma_apply_names(pb: Seq<Seq<char>>, names: Seq<Seq<char>>)
    requires
        all_normal(names),
    ensures
        apply_components(pb, names) == pb + names,
    decreases names.len(),
{
    if names.len() > 0 {
        let init = names.drop_last();
        assert(all_normal(init)) by {
            assert forall|i: int| 0 <= i < init.len() implies is_normal_component(#[trigger] init[i]) by {
                assert(init[i] == names[i]);
            }
        }
        lemma_apply_names(pb, init);
        assert(is_normal_component(names.last()));
        assert((pb + init).push(names.last()) =~= pb + names);
    } else {
        assert(pb + names =~= pb);
    }
}

/// Applying an empty component first changes nothing.
proof fn lemma_apply_skip_empty(pb: Seq<Seq<char>>, names: Seq<Seq<char>>)
    ensures
        apply_components(pb, seq![Seq::<char>::empty()] + names) == apply_components(pb, names),
    decreases names.len(),
{
    let e = Seq::<char>::empty();
    if names.len() == 0 {
        assert(seq![e] + names =~= seq![e]);
        assert(seq![e].drop_last() =~= Seq::<Seq<char>>::empty());
        assert(apply_components(pb, Seq::<Seq<char>>::empty()) == pb);
        assert(apply_components(pb, seq![e]) == step_component(
            apply_components(pb, seq![e].drop_last()),
            e,
        ));
        assert(apply_components(pb, names) == pb);
    } else {
        lemma_apply_skip_empty(pb, names.drop_last());
        assert((seq![e] + names).drop_last() =~= seq![e] + names.drop_last());
        assert((seq![e] + names).last() == names.last());
    }
}

/// A path is its directory joined with its last component (the file name):
/// `p.dir().join(&p.filename()) == p` for a path that is not the root.
pub proof fn law_dir_join_filename(comps: Seq<Seq<char>>)
    requires
        all_normal(comps),
        all_no_slash(comps),
        comps.len() > 0,
    ensures
        join_spec(comps.drop_last(), comps.last()) == comps,
{
    let c = comps.last();
    assert(no_slash(c));
    assert(is_normal_component(c));
    lemma_split_single(c);
    assert(!is_absolute(c)) by {
        assert(c[0] != '/');
    }
    let none = Seq::<Seq<char>>::empty();
    assert(seq![c].drop_last() =~= none);
    assert(seq![c].last() == c);
    assert(apply_components(comps.drop_last(), seq![c]) == step_component(
        apply_components(comps.drop_last(), none),
        c,
    ));
    assert(comps.drop_last().push(c) =~= comps);
}

/// Joining twice is joining once with the two texts put together: for a
/// non-empty `a` and a relative `b`, `p.join(a).join(b)` is
/// `p.join(a + "/" + b)`.
pub proof fn law_join_twice(base: Seq<Seq<char>>, a: Seq<char>, b: Seq<char>)
    requires
        a.len() > 0,
        !is_absolute(b),
    ensures
        join_spec(join_spec(base, a), b) == join_spec(base, a + seq!['/'] + b),
{
    lemma_split_concat(a, b);
    assert((a + seq!['/'] + b)[0] == a[0]);
    let start = if is_absolute(a) { Seq::<Seq<char>>::empty() } else { base };
    lemma_apply_concat(start, split_slash(a), split_slash(b));
}

/// Splitting `a`, '/', `b` gives the pieces of `a`, then those of `b`.
proof fn lemma_split_concat(a: Seq<char>, b: Seq<char>)
    ensures
        split_slash(a + seq!['/'] + b) == split_slash(a) + split_slash(b),
    decreases b.len(),
{
    let e = Seq::<char>::empty();
    if b.len() == 0 {
        assert(a + seq!['/'] + b =~= a.push('/'));
        assert(a.push('/').drop_last() =~= a);
        assert(split_slash(b) =~= seq![e]);
        assert(split_slash(a).push(e) =~= split_slash(a) + seq![e]);
    } else {
        let b0 = b.drop_last();
        let ch = b.last();
        lemma_split_concat(a, b0);
        let s = a + seq!['/'] + b;
        assert(s.drop_last() =~= a + seq!['/'] + b0);
        assert(s.last() == ch);
        assert(b0.push(ch) =~= b);
        assert(b.drop_last() =~= b0);
        lemma_split_len(a);
        lemma_split_len(b0);
        let x = split_slash(a);
        let y = split_slash(b0);
        if ch == '/' {
            assert((x + y).push(e) =~= x + y.push(e));
        } else {
            assert((x + y).update((x + y).len() - 1, (x + y).last().push(ch)) =~= x + y.update(
                y.len() - 1,
                y.last().push(ch),
            ));
        }
    }
}

proof fn lemma_split_len(s: Seq<char>)
    ensures
        split_slash(s).len() >= 1,
    decreases s.len(),
{
    if s.len() > 0 {
        lemma_split_len(s.drop_last());
    }
}

/// Applying `x` then `y` is applying them one after the other.
proof fn lemma_apply_concat(pb: Seq<Seq<char>>, x: Seq<Seq<char>>, y: Seq<Seq<char>>)
    ensures
        apply_components(pb, x + y) == apply_components(apply_components(pb, x), y),
    decreases y.len(),
{
    if y.len() == 0 {
        assert(x + y =~= x);
    } else {
        lemma_apply_concat(pb, x, y.drop_last());
        assert((x + y).drop_last() =~= x + y.drop_last());
        assert((x + y).last() == y.last());
    }
}

/// Printing a path and reading the text back gives the same path: for
/// components that are proper names holding no '/', the root joined with
/// their text (`PathBuf::from_str(p.path())`) is the path itself.
pub proof fn law_path_round_trip(comps: Seq<Seq<char>>)
    requires
        all_normal(comps),
        all_no_slash(comps),
    ensures
        join_spec(Seq::<Seq<char>>::empty(), path_text(comps)) == comps,
{
    let e = Seq::<char>::empty();
    let none = Seq::<Seq<char>>::empty();
    lemma_split_path_text(comps);
    assert(path_text(comps)[0] == '/');
    if comps.len() == 0 {
        lemma_apply_skip_empty(none, seq![e]);
        assert(apply_components(none, seq![e]) == step_component(apply_components(none, seq![e].drop_last()), e));
        assert(seq![e].drop_last() =~= none);
    } else {
        lemma_apply_skip_empty(none, comps);
        lemma_apply_names(none, comps);
        assert(none + comps =~= comps);
    }
}

/// Reading back what was written: after `data` is written at `offset`, the
/// bytes from `offset` on are `data`.
pub proof fn law_read_after_write(old: Seq<u8>, offset: int, data: Seq<u8>)
    requires
        0 <= offset,
    ensures
        write_result(old, offset, data).subrange(offset, offset + data.len()) == data,
        read_len(write_result(old, offset, data).len() as int, offset, data.len() as int)
            == data.len(),
{
    assert(write_result(old, offset, data).subrange(offset, offset + data.len()) =~= data);
}

/// A write leaves the bytes outside its range as they were, and a gap
/// before it reads as zeros.
pub proof fn law_write_keeps_rest(old: Seq<u8>, offset: int, data: Seq<u8>, k: int)
    requires
        0 <= offset,
        0 <= k < write_result(old, offset, data).len(),
        !(offset <= k < offset + data.len()),
    ensures
        write_result(old, offset, data)[k] == (if k < old.len() {
            old[k]
        } else {
            0u8
        }),
{
}

/// A file is as long as its old end or the end of the write, whichever is
/// further.
pub proof fn law_write_length(old: Seq<u8>, offset: int, data: Seq<u8>)
    requires
        0 <= offset,
    ensures
        write_result(old, offset, data).len() == (if old.len() >= offset + data.len() {
            old.len() as int
        } else {
            offset + data.len()
        }),
{
}

/// Cutting a file to `size` keeps its first bytes, and growing it adds
/// zeros.
pub proof fn law_truncate(old: Seq<u8>, size: int, k: int)
    requires
        0 <= k < size,
    ensures
        truncate_result(old, size).len() == size,
        truncate_result(old, size)[k] == (if k < old.len() {
            old[k]
        } else {
            0u8
        }),
{
}

/// Cutting a file to its own size changes nothing.
pub proof fn law_truncate_same_size(old: Seq<u8>)
    ensures
        truncate_result(old, old.len() as int) == old,
{
    assert(truncate_result(old, old.len() as int) =~= old);
}

/// Writing back what a file holds changes nothing.
pub proof fn law_write_same(old: Seq<u8>, offset: int)
    requires
        0 <= offset <= old.len(),
    ensures
        write_result(old, offset, old.subrange(offset, old.len() as int)) == old,
{
    assert(write_result(old, offset, old.subrange(offset, old.len() as int)) =~= old);
}

/// Cutting `[start, end)` out of an area leaves nothing of it in that
/// range: what the area keeps is empty or lies outside it, and so does the
/// part split off its far end.
pub proof fn law_cut_area(a: MemArea, start: usize, end: usize)
    requires
        a.wf(),
        start <= end,
    ensures
        ({
            let r = sub_result(a, start, end);
            &&& (r.0.5 == 0 || !overlaps(r.0.4 as int, r.0.5 as int, start as int, end as int))
            &&& (r.1 matches Some(b) ==> !overlaps(b.4 as int, b.5 as int, start as int, end as int))
        }),
{
}

/// Unmapping `[start, end)` from a set of areas (`MemSet::sub_area`) leaves
/// no area with a length in that range.
pub proof fn law_unmap_leaves_no_overlap(areas: Seq<MemArea>, start: usize, end: usize)
    requires
        areas_wf(areas),
        start <= end,
    ensures
        ({
            let r = sub_all(areas, start, end);
            let left = r.0 + r.1;
            forall|i: int|
                0 <= i < left.len() ==> (#[trigger] left[i]).5 == 0 || !overlaps(
                    left[i].4 as int,
                    left[i].5 as int,
                    start as int,
                    end as int,
                )
        }),
    decreases areas.len(),
{
    if areas.len() > 0 {
        let init = areas.drop_last();
        assert(areas_wf(init)) by {
            assert forall|i: int| 0 <= i < init.len() implies (#[trigger] init[i]).wf() by {
                assert(init[i] == areas[i]);
            }
        }
        law_unmap_leaves_no_overlap(init, start, end);
        assert(areas.last().wf());
        law_cut_area(areas.last(), start, end);
        let prev = sub_all(init, start, end);
        let r = sub_result(areas.last(), start, end);
        let left = sub_all(areas, start, end).0 + sub_all(areas, start, end).1;
        assert forall|i: int| 0 <= i < left.len() implies (#[trigger] left[i]).5 == 0 || !overlaps(
            left[i].4 as int,
            left[i].5 as int,
            start as int,
            end as int,
        ) by {
            let p0 = prev.0;
            let p1 = prev.1;
            let n0 = sub_all(areas, start, end).0;
            let n1 = sub_all(areas, start, end).1;
            if i < n0.len() {
                if i < p0.len() {
                    assert(n0[i] == p0[i]);
                    assert((p0 + p1)[i] == p0[i]);
                } else {
                    assert(n0[i] == r.0);
                }
            } else {
                let j = i - n0.len();
                if j < p1.len() {
                    assert(n1[j] == p1[j]);
                    assert((p0 + p1)[p0.len() + j] == p1[j]);
                } else {
                    assert(n1[j] == r.1->0);
                }
            }
        }
    }
}

/// Futex waiters are woken in the order they came: once `tid` joins a
/// queue of `q.len()` waiters, a wake of `n` wakes the first `n` of them
/// and `tid` only when `n` exceeds those before it; the rest keep their
/// order.
pub proof fn law_futex_fifo(t: Map<usize, Seq<usize>>, uaddr: usize, tid: usize, n: usize)
    requires
        !queue_or_empty(t, uaddr).contains(tid),
    ensures
        ({
            let q = queue_or_empty(t, uaddr);
            let t1 = after_wait(t, uaddr, tid);
            let k = woken_count(t1, uaddr, n);
            let t2 = after_wake(t1, uaddr, n);
            &&& k == (if n < q.len() + 1 {
                n as int
            } else {
                (q.len() + 1) as int
            })
            &&& queue_or_empty(t2, uaddr) == q.push(tid).skip(k)
            &&& (queue_or_empty(t2, uaddr).contains(tid) <==> n <= q.len())
        }),
{
    let q = queue_or_empty(t, uaddr);
    let t1 = after_wait(t, uaddr, tid);
    let k = woken_count(t1, uaddr, n);
    let rest = q.push(tid).skip(k);
    assert(queue_or_empty(t1, uaddr) == q.push(tid));
    if n <= q.len() {
        assert(rest[rest.len() - 1] == tid);
    } else {
        assert(rest.len() == 0);
    }
}

/// A requeue loses and repeats no waiter: the old queue of `uaddr` is the
/// woken ones, then those moved (now at the end of the queue of `uaddr2`,
/// after its own waiters), then those left; other addresses keep their
/// queues.
pub proof fn law_futex_requeue_conserves(
    t: Map<usize, Seq<usize>>,
    uaddr: usize,
    w: usize,
    uaddr2: usize,
    r: usize,
    other: usize,
)
    requires
        t.contains_key(uaddr),
        w + r <= t[uaddr].len(),
        uaddr != uaddr2,
        other != uaddr,
        other != uaddr2,
    ensures
        ({
            let t2 = after_requeue(t, uaddr, w, uaddr2, r);
            let q = t[uaddr];
            let q2 = queue_or_empty(t, uaddr2);
            let moved = queue_or_empty(t2, uaddr2).skip(q2.len() as int);
            &&& queue_or_empty(t2, uaddr2).take(q2.len() as int) == q2
            &&& q == q.take(w as int) + moved + queue_or_empty(t2, uaddr)
            &&& queue_or_empty(t2, other) == queue_or_empty(t, other)
        }),
{
    let q = t[uaddr];
    let q2 = queue_or_empty(t, uaddr2);
    let t2 = after_requeue(t, uaddr, w, uaddr2, r);
    let left = t.insert(uaddr, q.skip(w + r));
    assert(queue_or_empty(left, uaddr2) == q2);
    let mv = q.subrange(w as int, w + r);
    assert(queue_or_empty(t2, uaddr2) == q2 + mv);
    assert((q2 + mv).take(q2.len() as int) =~= q2);
    assert((q2 + mv).skip(q2.len() as int) =~= mv);
    assert(queue_or_empty(t2, uaddr) == q.skip(w + r));
    assert(q =~= q.take(w as int) + mv + q.skip(w + r));
}

/// Waking never wakes more than asked, nor more than wait.
pub proof fn law_futex_wake_bound(t: Map<usize, Seq<usize>>, uaddr: usize, n: usize)
    ensures
        0 <= woken_count(t, uaddr, n) <= n,
        woken_count(t, uaddr, n) <= queue_or_empty(t, uaddr).len(),
        queue_or_empty(after_wake(t, uaddr, n), uaddr).len() == queue_or_empty(t, uaddr).len()
            - woken_count(t, uaddr, n),
{
}

/// A pipe hands bytes out in the order they came in: two writes into an
/// empty pipe (the first within the limit) queue both, the first ahead, and
/// a read takes from the front.
pub proof fn law_pipe_fifo(a: Seq<u8>, b: Seq<u8>, room: int)
    requires
        a.len() <= PIPE_LIMIT,
        0 <= room,
    ensures
        pipe_after_write(pipe_after_write(Seq::<u8>::empty(), a), b) == a + b,
        ({
            let q = a + b;
            let n = read_count(q.len() as int, room);
            &&& 0 <= n <= q.len()
            &&& q.subrange(0, n) + q.subrange(n, q.len() as int) == q
            &&& (n >= a.len() ==> q.subrange(0, a.len() as int) == a)
        }),
{
    assert(Seq::<u8>::empty() + a =~= a);
    let q = a + b;
    let n = read_count(q.len() as int, room);
    assert(q.subrange(0, n) + q.subrange(n, q.len() as int) =~= q);
    assert(q.subrange(0, a.len() as int) =~= a);
}

/// A write never disturbs the bytes already waiting in a pipe.
pub proof fn law_pipe_write_keeps_queue(q: Seq<u8>, data: Seq<u8>)
    ensures
        pipe_after_write(q, data).subrange(0, q.len() as int) == q,
{
    assert(pipe_after_write(q, data).subrange(0, q.len() as int) =~= q);
}

/// The records `getdents` writes never run past the buffer.
pub proof fn law_getdents_fits(names: Seq<Seq<u8>>, start: int, room: int)
    requires
        0 <= start,
        0 <= room,
    ensures
        used(names, start, taken(names, start, room)) <= room,
        0 <= taken(names, start, room),
{
    lemma_taken_bound(names, start, room);
}

/// Setting the cursor of a disk to a byte position and reading the position
/// back gives that position.
pub proof fn law_disk_position_round_trip(pos: usize)
    ensures
        (pos / BLOCK_SIZE) * BLOCK_SIZE + pos % BLOCK_SIZE == pos,
{
}

/// Time values are ordered strictly and totally: never before themselves,
/// before is transitive, and of two different values one comes first.
pub proof fn law_timeval_order(a: TimeVal, b: TimeVal, c: TimeVal)
    ensures
        !timeval_lt(a, a),
        timeval_lt(a, b) && timeval_lt(b, c) ==> timeval_lt(a, c),
        a != b ==> (timeval_lt(a, b) || timeval_lt(b, a)),
        !(timeval_lt(a, b) && timeval_lt(b, a)),
{
}

/// After `rmdir` (or `remove`) of a name, no entry it takes away is left,
/// and every other entry stays, in order.
pub proof fn law_remove_takes_all(s: Seq<(Seq<char>, FileType)>, name: Seq<char>, dirs: bool)
    ensures
        forall|i: int|
            0 <= i < drop_matching(s, name, dirs).len() ==> !removed_by(
                #[trigger] drop_matching(s, name, dirs)[i],
                name,
                dirs,
            ),
        drop_matching(s, name, dirs) == s.filter(|e: (Seq<char>, FileType)| !removed_by(e, name, dirs)),
    decreases s.len(),
{
    if s.len() > 0 {
        law_remove_takes_all(s.drop_last(), name, dirs);
        s.drop_last().lemma_filter_push(s.last(), |e: (Seq<char>, FileType)| !removed_by(e, name, dirs));
        assert(s.drop_last().push(s.last()) =~= s);
    } else {
        assert(s.filter(|e: (Seq<char>, FileType)| !removed_by(e, name, dirs)) =~= s);
    }
}

/// Taking away a name that nothing has leaves the entries as they were.
proof fn lemma_drop_absent(s: Seq<(Seq<char>, FileType)>, name: Seq<char>, dirs: bool)
    requires
        !has_name(s, name),
    ensures
        drop_matching(s, name, dirs) == s,
    decreases s.len(),
{
    if s.len() > 0 {
        assert(!has_name(s.drop_last(), name)) by {
            if has_name(s.drop_last(), name) {
                let i = choose|i: int| 0 <= i < s.drop_last().len() && (#[trigger] s.drop_last()[i]).0 == name;
                assert(s[i].0 == name);
            }
        }
        lemma_drop_absent(s.drop_last(), name, dirs);
        assert(s.last() == s[s.len() - 1]);
        assert(s.drop_last().push(s.last()) =~= s);
    }
}

/// `rmdir` undoes `mkdir`: making a directory under a new name and then
/// removing the directories of that name gives the entries back.
pub proof fn law_mkdir_then_rmdir(s: Seq<(Seq<char>, FileType)>, name: Seq<char>)
    requires
        !has_name(s, name),
    ensures
        has_name(s.push((name, FileType::Directory)), name),
        drop_matching(s.push((name, FileType::Directory)), name, true) == s,
{
    let t = s.push((name, FileType::Directory));
    assert(t[s.len() as int].0 == name);
    assert(t.drop_last() =~= s);
    lemma_drop_absent(s, name, true);
}

/// Blocking signals that were not blocked and then unblocking them gives
/// the mask back.
pub proof fn law_block_then_unblock(mask: u64, set: u64)
    requires
        mask & set == 0,
    ensures
        mask_after(mask_after(mask, SIG_BLOCK, set), SIG_UNBLOCK, set) == mask,
{
    assert((mask | set) & !set == mask) by (bit_vector)
        requires
            mask & set == 0,
    ;
}

/// The path of an entry is the path of its parent, a '/' and its name,
/// where the parent is neither the top nor named "/"; under such a parent
/// it is '/' and its name.
pub proof fn law_dentry_child_path(s: Seq<(Seq<char>, usize, Option<usize>)>, i: int)
    requires
        tree_wf(s),
        0 <= i < s.len(),
        s[i].2 is Some,
    ensures
        ({
            let p = s[i].2->0 as int;
            &&& (s[p].0 == seq!['/'] ==> dentry_path(s, i) == seq!['/'] + s[i].0)
            &&& (s[p].0 != seq!['/'] && s[p].2 is Some ==> dentry_path(s, i) == dentry_path(s, p)
                + seq!['/'] + s[i].0)
        }),
{
    let p = s[i].2->0 as int;
    assert(p < i);
    if s[p].0 == seq!['/'] {
        assert(crate::dentry::names_up(s, p) == Seq::<Seq<char>>::empty());
        let e = Seq::<Seq<char>>::empty().push(s[i].0);
        assert(e.drop_last() =~= Seq::<Seq<char>>::empty());
        assert(crate::dentry::slash_each(e) == crate::dentry::slash_each(e.drop_last()) + seq!['/'] + e.last());
        assert(crate::dentry::slash_each(Seq::<Seq<char>>::empty()) == Seq::<char>::empty());
        assert(seq!['/'] + s[i].0 =~= Seq::<char>::empty() + seq!['/'] + s[i].0);
    } else if s[p].2 is Some {
        let q = s[p].2->0 as int;
        assert(q < p);
        let up = crate::dentry::names_up(s, p);
        assert(up == crate::dentry::names_up(s, q).push(s[p].0));
        assert(dentry_path(s, p) == crate::dentry::slash_each(up));
        assert(up.push(s[i].0).drop_last() =~= up);
        assert(crate::dentry::slash_each(up.push(s[i].0)) == crate::dentry::slash_each(up) + seq!['/'] + s[i].0);
    }
}

/// An address written as a `sockaddr_in` reads back as itself: family
/// IPv4, the same port and the same address.
pub proof fn law_sockaddr_round_trip(a: SockAddrV4, rest: Seq<u8>)
    ensures
        family_of(sockaddr_bytes(a) + rest) == AF_INET,
        port_of(sockaddr_bytes(a) + rest) == a.port,
        ip_of(sockaddr_bytes(a) + rest) == a.ip@,
{
    let b = sockaddr_bytes(a) + rest;
    assert(b[2] == (a.port / 256) as u8 && b[3] == (a.port % 256) as u8);
    assert((a.port / 256) * 256 + a.port % 256 == a.port);
    assert(ip_of(b) =~= a.ip@);
}

/// Deleting a descriptor just added to an epoll file's interest list gives
/// the list back; modifying one that is not there changes nothing.
pub proof fn law_epoll_add_then_del(m: Map<usize, EpollEvent>, fd: usize, ev: EpollEvent, ev2: EpollEvent)
    requires
        !m.contains_key(fd),
    ensures
        after_ctl(after_ctl(m, EpollCtl::ADD, fd, ev), EpollCtl::DEL, fd, ev2) == m,
        after_ctl(m, EpollCtl::MOD, fd, ev) == m,
        after_ctl(after_ctl(m, EpollCtl::ADD, fd, ev), EpollCtl::MOD, fd, ev2) == after_ctl(
            m,
            EpollCtl::ADD,
            fd,
            ev2,
        ),
{
    assert(m.insert(fd, ev).remove(fd) =~= m);
    assert(m.insert(fd, ev).insert(fd, ev2) =~= m.insert(fd, ev2));
}

/// `epoll_wait` reports no more events than entries it watches, and only
/// events of entries it watches.
pub proof fn law_epoll_ready_subset(entries: Seq<(usize, EpollEvent)>, polled: Seq<Option<u16>>)
    ensures
        ready_events(entries, polled).len() <= entries.len(),
        forall|k: int|
            0 <= k < ready_events(entries, polled).len() ==> exists|i: int|
                0 <= i < entries.len() && entries[i].1 == #[trigger] ready_events(entries, polled)[k],
    decreases entries.len(),
{
    if entries.len() > 0 {
        let init = entries.drop_last();
        law_epoll_ready_subset(init, polled);
        let r = ready_events(entries, polled);
        let r0 = ready_events(init, polled);
        assert forall|k: int| 0 <= k < r.len() implies exists|i: int|
            0 <= i < entries.len() && entries[i].1 == #[trigger] r[k] by {
            if k < r0.len() {
                assert(r[k] == r0[k]);
                let i = choose|i: int| 0 <= i < init.len() && init[i].1 == r0[k];
                assert(entries[i] == init[i]);
            } else {
                assert(r[k] == entries[entries.len() - 1].1);
            }
        }
    }
}

/// Drawing random bytes in two calls continues the same stream as one call:
/// the state after `a` steps and then `b` more is the state after `a + b`.
pub proof fn law_random_stream(seed: u64, a: nat, b: nat)
    ensures
        lcg_state(lcg_state(seed, a), b) == lcg_state(seed, a + b),
    decreases b,
{
    if b > 0 {
        law_random_stream(seed, a, (b - 1) as nat);
        assert((a + b - 1) as nat == (a + (b - 1)) as nat);
    }
}

/// Whether the real-time timer fires at `now` (see `ProcessTimer::check`).
pub open spec fn timer_fires(t: ProcessTimer, now: TimeVal) -> bool {
    timeval_lt(t.last, t.next) && !timeval_lt(now, t.next)
}

/// A timer fires once per expiry: once it has fired (its last expiry is
/// now its next one), it does not fire again, whatever the time, until it
/// is set anew.
pub proof fn law_timer_fires_once(t: ProcessTimer, now: TimeVal, later: TimeVal)
    requires
        timer_fires(t, now),
    ensures
        !timer_fires(ProcessTimer { last: t.next, ..t }, later),
{
}

/// A child that `wait4` reaps is gone from the list: no child with its id
/// is left, the list is shorter, and every child with another id stays.
pub proof fn law_reap_takes_child(s: Seq<(usize, Option<usize>)>, i: int)
    requires
        0 <= i < s.len(),
    ensures
        forall|k: int| 0 <= k < without(s, s[i].0).len() ==> (#[trigger] without(s, s[i].0)[k]).0 != s[i].0,
        without(s, s[i].0).len() < s.len(),
        forall|c: (usize, Option<usize>)| s.contains(c) && c.0 != s[i].0 ==> #[trigger] without(s, s[i].0).contains(c),
{
    let id = s[i].0;
    assert forall|k: int| 0 <= k < without(s, id).len() implies (#[trigger] without(s, id)[k]).0 != id by {
        s.lemma_filter_pred(other_id(id), k);
    }
    s.lemma_filter_len(other_id(id));
    assert(without(s, id).len() < s.len()) by {
        if without(s, id).len() == s.len() {
            lemma_filter_full(s, other_id(id));
            assert(other_id(id)(s[i]));
        }
    }
    assert forall|c: (usize, Option<usize>)| s.contains(c) && c.0 != id implies #[trigger] without(s, id).contains(c) by {
        s.lemma_filter_contains_rev(other_id(id), c);
    }
}

/// A filter that keeps as many items as there are keeps them all.
proof fn lemma_filter_full(s: Seq<(usize, Option<usize>)>, p: spec_fn((usize, Option<usize>)) -> bool)
    requires
        s.filter(p).len() == s.len(),
    ensures
        forall|k: int| 0 <= k < s.len() ==> p(#[trigger] s[k]),
    decreases s.len(),
{
    reveal_with_fuel(Seq::filter, 1);
    if s.len() > 0 {
        s.drop_last().lemma_filter_len(p);
        if !p(s.last()) {
            assert(s.filter(p) == s.drop_last().filter(p));
        } else {
            assert(s.filter(p) == s.drop_last().filter(p).push(s.last()));
            lemma_filter_full(s.drop_last(), p);
            assert forall|k: int| 0 <= k < s.len() implies p(#[trigger] s[k]) by {
                if k < s.len() - 1 {
                    assert(s[k] == s.drop_last()[k]);
                }
            }
        }
    }
}

/// A caller can tell the outcome of a system call from its return word: a
/// result below the last 4096 words never looks like an error, and
/// different errors give different words.
pub proof fn law_return_word_decodes(x: usize, e: Errno, f: Errno)
    ensures
        x < usize::MAX - 4095 ==> ret_word(Ok::<usize, Errno>(x)) != ret_word(Err::<usize, Errno>(e)),
        ret_word(Err::<usize, Errno>(e)) == ret_word(Err::<usize, Errno>(f)) ==> e == f,
{
    if ret_word(Err::<usize, Errno>(e)) == ret_word(Err::<usize, Errno>(f)) {
        lemma_errno_code_injective(e, f);
    }
}

/// Opening a name of `/dev` finds the node last added under it, and adding
/// under one name leaves what every other name opens.
pub proof fn law_dev_add_then_open<N>(
    names: Seq<Seq<char>>,
    nodes: Seq<N>,
    k: Seq<char>,
    v: N,
    other: Seq<char>,
)
    requires
        names_sorted(names),
        names.len() == nodes.len(),
    ensures
        lookup(dir_add(names, nodes, k, v).0, dir_add(names, nodes, k, v).1, k) == Some(v),
        other != k ==> lookup(dir_add(names, nodes, k, v).0, dir_add(names, nodes, k, v).1, other)
            == lookup(names, nodes, other),
{
    let n2 = dir_add(names, nodes, k, v).0;
    let d2 = dir_add(names, nodes, k, v).1;
    let p = slot(names, k);
    let fresh = !(p < names.len() && names[p] == k);
    lemma_slot(names, k);
    lemma_dir_add_sorted(names, nodes, k, v);
    assert(n2[p] == k && d2[p] == v);
    assert forall|j: int| 0 <= j < p implies #[trigger] n2[j] != k by {
        if n2[j] == k {
            lemma_sorted_unique(n2, j, p);
        }
    }
    lemma_lookup_at(n2, d2, k, p);
    if other != k {
        if exists|i: int| 0 <= i < names.len() && names[i] == other {
            let i = choose|i: int| 0 <= i < names.len() && names[i] == other;
            let j = if !fresh || i < p { i } else { i + 1 };
            assert(n2[j] == other && d2[j] == nodes[i]);
            assert forall|q: int| 0 <= q < i implies #[trigger] names[q] != other by {
                if names[q] == other {
                    lemma_sorted_unique(names, q, i);
                }
            }
            assert forall|q: int| 0 <= q < j implies #[trigger] n2[q] != other by {
                if n2[q] == other {
                    lemma_sorted_unique(n2, q, j);
                }
            }
            lemma_lookup_at(names, nodes, other, i);
            lemma_lookup_at(n2, d2, other, j);
        } else {
            assert forall|j: int| 0 <= j < n2.len() implies #[trigger] n2[j] != other by {
                if fresh && j != p {
                    if j < p {
                        assert(n2[j] == names[j]);
                    } else {
                        assert(n2[j] == names[j - 1]);
                    }
                }
            }
            lemma_lookup_none(names, nodes, other);
            lemma_lookup_none(n2, d2, other);
        }
    }
}

/// Walking a path does not depend on its empty and "." components:
/// "a/./b", "a//b" and "a/b" lead to the same entry, or stop at the same
/// entry on the same unknown name.
pub proof fn law_walk_skips_stays(s: Seq<(Seq<char>, usize, Option<usize>)>, start: usize, comps: Seq<Seq<char>>)
    requires
        s.len() <= usize::MAX,
    ensures
        walk_back(s, start, comps) == walk_back(s, start, comps.filter(moves())),
    decreases comps.len(),
{
    if comps.len() > 0 {
        let init = comps.drop_last();
        let c = comps.last();
        law_walk_skips_stays(s, start, init);
        lemma_walk_in_range(s, start, init);
        init.lemma_filter_push(c, moves());
        assert(init.push(c) =~= comps);
        if moves()(c) {
            let f = comps.filter(moves());
            assert(f.drop_last() =~= init.filter(moves()));
            assert(f.last() == c);
        } else {
            assert(comps.filter(moves()) == init.filter(moves()));
        }
    } else {
        assert(comps.filter(moves()) =~= comps);
    }
}

/// Cutting a range out of areas depends on the areas by value alone.
proof fn lemma_sub_all_views(x: Seq<MemArea>, y: Seq<MemArea>, start: usize, end: usize)
    requires
        views(x) == views(y),
    ensures
        sub_all(x, start, end) == sub_all(y, start, end),
    decreases x.len(),
{
    assert(x.len() == views(x).len() && y.len() == views(y).len());
    if x.len() > 0 {
        assert(views(x.drop_last()) =~= views(x).drop_last());
        assert(views(y.drop_last()) =~= views(y).drop_last());
        lemma_sub_all_views(x.drop_last(), y.drop_last(), start, end);
        assert(views(x)[x.len() - 1] == views(y)[y.len() - 1]);
        assert(x.last().mtrackers@ == y.last().mtrackers@);
        assert(sub_result(x.last(), start, end) == sub_result(y.last(), start, end));
    }
}

/// Putting the areas of a cached program in place, in turn, gives areas
/// that depend on the areas there before, by value, and on the cached
/// areas alone: from equal areas, the same cached areas give equal areas.
pub proof fn law_placement_by_value(
    before1: Seq<MemArea>,
    before2: Seq<MemArea>,
    cached: Seq<MemArea>,
    after1: Seq<MemArea>,
    after2: Seq<MemArea>,
)
    requires
        views(before1) == views(before2),
        placed_in_turn(before1, cached, after1),
        placed_in_turn(before2, cached, after2),
    ensures
        views(after1) == views(after2),
    decreases cached.len(),
{
    if cached.len() > 0 {
        let c = cached.last();
        let mid1 = choose|mid: Seq<MemArea>|
            placed_in_turn(before1, cached.drop_last(), mid) && views(after1) == #[trigger] placed(mid, c);
        let mid2 = choose|mid: Seq<MemArea>|
            placed_in_turn(before2, cached.drop_last(), mid) && views(after2) == #[trigger] placed(mid, c);
        law_placement_by_value(before1, before2, cached.drop_last(), mid1, mid2);
        lemma_sub_all_views(mid1, mid2, c.start, (c.start + c.len) as usize);
    }
}

/// "a/./b", "a//b" and "a/b" walk alike: from the same entry (the root
/// where the path begins with '/', else `start`) they reach the same entry,
/// or stop at the same entry on the same component, since "." and an empty
/// component do not move the walk.
pub proof fn law_walk_path_forms(
    s: Seq<(Seq<char>, usize, Option<usize>)>,
    start: usize,
    a: Seq<char>,
    b: Seq<char>,
)
    requires
        s.len() <= usize::MAX,
    ensures
        walk_start(a + seq!['/', '.', '/'] + b, start) == walk_start(a + seq!['/'] + b, start),
        walk_start(a + seq!['/', '/'] + b, start) == walk_start(a + seq!['/'] + b, start),
        walk_back(s, walk_start(a + seq!['/', '.', '/'] + b, start), split_slash(a + seq!['/', '.', '/'] + b))
            == walk_back(s, walk_start(a + seq!['/'] + b, start), split_slash(a + seq!['/'] + b)),
        walk_back(s, walk_start(a + seq!['/', '/'] + b, start), split_slash(a + seq!['/', '/'] + b))
            == walk_back(s, walk_start(a + seq!['/'] + b, start), split_slash(a + seq!['/'] + b)),
{
    let e = Seq::<char>::empty();
    let dot = seq!['.'];
    let p1 = a + seq!['/', '.', '/'] + b;
    let p2 = a + seq!['/', '/'] + b;
    let p3 = a + seq!['/'] + b;
    assert(p1[0] == p3[0]);
    assert(p2[0] == p3[0]);
    assert(p1 =~= a + seq!['/'] + (dot + seq!['/'] + b));
    assert(p2 =~= a + seq!['/'] + (e + seq!['/'] + b));
    lemma_split_concat(a, dot + seq!['/'] + b);
    lemma_split_concat(dot, b);
    lemma_split_concat(a, e + seq!['/'] + b);
    lemma_split_concat(e, b);
    lemma_split_concat(a, b);
    lemma_split_single(dot);
    lemma_split_single(e);
    let x = split_slash(a);
    let y = split_slash(b);
    let w = walk_start(p3, start);
    assert(split_slash(p1) == x + (seq![dot] + y));
    assert(split_slash(p2) == x + (seq![e] + y));
    Seq::filter_distributes_over_add(x, seq![dot] + y, moves());
    Seq::filter_distributes_over_add(seq![dot], y, moves());
    Seq::filter_distributes_over_add(x, seq![e] + y, moves());
    Seq::filter_distributes_over_add(seq![e], y, moves());
    Seq::filter_distributes_over_add(x, y, moves());
    Seq::<Seq<char>>::empty().lemma_filter_push(dot, moves());
    Seq::<Seq<char>>::empty().lemma_filter_push(e, moves());
    assert(seq![dot] =~= Seq::<Seq<char>>::empty().push(dot));
    assert(seq![e] =~= Seq::<Seq<char>>::empty().push(e));
    assert(Seq::<Seq<char>>::empty().filter(moves()) =~= Seq::<Seq<char>>::empty());
    assert(!moves()(dot));
    assert(!moves()(e));
    assert(seq![dot].filter(moves()) =~= Seq::<Seq<char>>::empty());
    assert(seq![e].filter(moves()) =~= Seq::<Seq<char>>::empty());
    assert(split_slash(p1).filter(moves()) =~= split_slash(p3).filter(moves()));
    assert(split_slash(p2).filter(moves()) =~= split_slash(p3).filter(moves()));
    law_walk_skips_stays(s, w, split_slash(p1));
    law_walk_skips_stays(s, w, split_slash(p2));
    law_walk_skips_stays(s, w, split_slash(p3));
}

/// The root stays: each change the tree of entries allows (an entry added
/// under a parent, or a mount that stands a new entry beside one with a
/// parent) appends an entry, keeps the tree well formed and leaves entry 0,
/// the root, as it was; and the root itself has no parent, so no mount can
/// stand over it.
pub proof fn law_root_stays(s: Seq<(Seq<char>, usize, Option<usize>)>, e: (Seq<char>, usize, Option<usize>))
    requires
        tree_wf(s),
        e.2 matches Some(p) && p < s.len(),
    ensures
        tree_wf(s.push(e)),
        s.push(e)[0] == s[0],
        s[0].2 is None,
{
    assert forall|i: int| 0 <= i < s.push(e).len() implies ((#[trigger] s.push(e)[i]).2 matches Some(p) ==> p
        < i) by {
        if i < s.len() {
            assert(s.push(e)[i] == s[i]);
        }
    }
}

/// The entries a walk reaches are indices that fit a word.
proof fn lemma_walk_in_range(s: Seq<(Seq<char>, usize, Option<usize>)>, start: usize, comps: Seq<Seq<char>>)
    requires
        s.len() <= usize::MAX,
    ensures
        walk_back(s, start, comps) matches Ok(m) ==> 0 <= m <= usize::MAX,
    decreases comps.len(),
{
    if comps.len() > 0 {
        lemma_walk_in_range(s, start, comps.drop_last());
        match walk_back(s, start, comps.drop_last()) {
            Ok(m) => {
                lemma_child_from_range(s, m as usize, comps.last(), 0);
            },
            Err(_) => {},
        }
    }
}

proof fn lemma_child_from_range(s: Seq<(Seq<char>, usize, Option<usize>)>, cur: usize, name: Seq<char>, k: int)
    ensures
        crate::dentry::child_from(s, cur, name, k) matches Some(j) ==> 0 <= j < s.len(),
    decreases s.len() - k,
{
    if 0 <= k < s.len() {
        lemma_child_from_range(s, cur, name, k + 1);
    }
}

/// Every segment ends at or below the highest end, which is one of them.
proof fn lemma_max_end(segs: Seq<Segment>)
    requires
        segs.len() > 0,
    ensures
        forall|i: int| 0 <= i < segs.len() ==> seg_end(#[trigger] segs[i]) <= max_end(segs),
        exists|i: int| 0 <= i < segs.len() && max_end(segs) == seg_end(#[trigger] segs[i]),
    decreases segs.len(),
{
    if segs.len() == 1 {
        assert(max_end(segs) == seg_end(segs[0]));
    } else {
        let init = segs.drop_last();
        lemma_max_end(init);
        assert forall|i: int| 0 <= i < segs.len() implies seg_end(#[trigger] segs[i]) <= max_end(segs) by {
            if i < init.len() {
                assert(segs[i] == init[i]);
            }
        }
        if seg_end(segs.last()) > max_end(init) {
            assert(max_end(segs) == seg_end(segs[segs.len() - 1]));
        } else {
            let k = choose|k: int| 0 <= k < init.len() && max_end(init) == seg_end(#[trigger] init[k]);
            assert(segs[k] == init[k]);
            assert(max_end(segs) == seg_end(segs[k]));
        }
    }
}

/// Rounding up to a page gives the least page multiple at or above `m`.
proof fn lemma_page_round_up(m: int, p: int)
    requires
        0 <= m,
    ensures
        m <= page_round_up(m),
        page_round_up(m) % 4096 == 0,
        p % 4096 == 0 && m <= p ==> page_round_up(m) <= p,
{
    assert(m <= (m + 4095) / 4096 * 4096) by (nonlinear_arith)
        requires
            0 <= m,
    ;
    assert(((m + 4095) / 4096 * 4096) % 4096 == 0) by (nonlinear_arith)
        requires
            0 <= m,
    ;
    assert(p % 4096 == 0 && m <= p ==> (m + 4095) / 4096 * 4096 <= p) by (nonlinear_arith)
        requires
            0 <= m,
    ;
}

/// Every segment ends (address plus size in memory) at or below `p`.
pub open spec fn ends_at_or_below(segs: Seq<Segment>, p: int) -> bool {
    forall|i: int| 0 <= i < segs.len() ==> (#[trigger] segs[i]).vaddr + segs[i].mem_size <= p
}

/// The heap of a loaded program starts above every segment: its bottom is
/// a page boundary at or above the end (address plus size in memory) of
/// each segment, and the lowest such boundary.
pub proof fn law_heap_above_segments(segs: Seq<Segment>)
    requires
        segs.len() > 0,
        forall|i: int| 0 <= i < segs.len() ==> (#[trigger] segs[i]).vaddr + segs[i].mem_size <= usize::MAX,
    ensures
        forall|i: int|
            0 <= i < segs.len() ==> (#[trigger] segs[i]).vaddr + segs[i].mem_size <= page_round_up(max_end(segs)),
        page_round_up(max_end(segs)) % 4096 == 0,
        forall|p: int| p % 4096 == 0 && #[trigger] ends_at_or_below(segs, p) ==> page_round_up(max_end(segs)) <= p,
{
    lemma_max_end(segs);
    assert forall|i: int| 0 <= i < segs.len() implies seg_end(#[trigger] segs[i]) == segs[i].vaddr
        + segs[i].mem_size by {
        assert(segs[i].vaddr + segs[i].mem_size <= usize::MAX);
    }
    let k = choose|k: int| 0 <= k < segs.len() && max_end(segs) == seg_end(#[trigger] segs[k]);
    assert(seg_end(segs[k]) == segs[k].vaddr + segs[k].mem_size);
    lemma_page_round_up(max_end(segs), 0);
    assert forall|p: int| p % 4096 == 0 && #[trigger] ends_at_or_below(segs, p) implies page_round_up(
        max_end(segs),
    ) <= p by {
        assert(segs[k].vaddr + segs[k].mem_size <= p);
        lemma_page_round_up(max_end(segs), p);
    }
}

/// The reading end of a pipe is readable exactly when it is asked for and
/// bytes wait; while the writer is open it reports no error; once the
/// writer is gone and nothing waits, it reports an error when asked for
/// either readiness or errors.
pub proof fn law_pipe_readable(events: u16, queued: int, sender_alive: bool)
    ensures
        (receiver_poll(events, queued, sender_alive) & POLLIN != 0) <==> (has_bits(events, POLLIN) && queued > 0),
        sender_alive ==> receiver_poll(events, queued, sender_alive) & POLLERR == 0,
        !sender_alive && queued == 0 && (has_bits(events, POLLIN) || has_bits(events, POLLERR)) ==> receiver_poll(
            events,
            queued,
            sender_alive,
        ) & POLLERR != 0,
{
    assert(1u16 & 1u16 == 1u16) by (bit_vector);
    assert(8u16 & 1u16 == 0u16) by (bit_vector);
    assert(0u16 & 1u16 == 0u16) by (bit_vector);
    assert(1u16 & 8u16 == 0u16) by (bit_vector);
    assert(8u16 & 8u16 == 8u16) by (bit_vector);
    assert(0u16 & 8u16 == 0u16) by (bit_vector);
}

/// The auxiliary vector describes the program header table as the ELF
/// header does: the entry under `AT_PHNUM` is the count of headers, under
/// `AT_PHENT` the size of one, under `AT_PHDR` their address and under
/// `AT_ENTRY` the entry point; each of these keys is there.
pub proof fn law_auxv_header_table(
    entry: usize,
    ph_count: usize,
    ph_entry_size: usize,
    phdr: usize,
    platform_ptr: usize,
    execfn_ptr: usize,
    random_ptr: usize,
)
    ensures
        ({
            let v = auxv_spec(entry, ph_count, ph_entry_size, phdr, platform_ptr, execfn_ptr, random_ptr);
            &&& forall|i: int|
                0 <= i < v.len() ==> ((#[trigger] v[i]).0 == AT_PHNUM ==> v[i].1 == ph_count) && (v[i].0
                    == AT_PHENT ==> v[i].1 == ph_entry_size) && (v[i].0 == AT_PHDR ==> v[i].1 == phdr) && (
                v[i].0 == AT_ENTRY ==> v[i].1 == entry)
            &&& exists|i: int| 0 <= i < v.len() && (#[trigger] v[i]).0 == AT_PHNUM
            &&& exists|i: int| 0 <= i < v.len() && (#[trigger] v[i]).0 == AT_PHENT
            &&& exists|i: int| 0 <= i < v.len() && (#[trigger] v[i]).0 == AT_PHDR
            &&& exists|i: int| 0 <= i < v.len() && (#[trigger] v[i]).0 == AT_ENTRY
        }),
{
    let v = auxv_spec(entry, ph_count, ph_entry_size, phdr, platform_ptr, execfn_ptr, random_ptr);
    assert(v[0].0 == AT_PHDR);
    assert(v[1].0 == AT_PHENT);
    assert(v[2].0 == AT_PHNUM);
    assert(v[4].0 == AT_ENTRY);
}

/// Whether a poll result says the descriptor is ready.
pub open spec fn poll_ready(o: Option<u16>) -> bool {
    o matches Some(p) && p != 0
}

/// How many of the first `n` poll results say ready.
pub open spec fn ready_count(polled: Seq<Option<u16>>, n: int) -> nat
    decreases n,
{
    if n <= 0 {
        0
    } else {
        ready_count(polled, n - 1) + if poll_ready(polled[n - 1]) {
            1nat
        } else {
            0nat
        }
    }
}

proof fn lemma_ready_count_mono(polled: Seq<Option<u16>>, i: int, m: int)
    requires
        0 <= i <= m,
    ensures
        ready_count(polled, i) <= ready_count(polled, m),
        i < m && poll_ready(polled[i]) ==> ready_count(polled, i) < ready_count(polled, m),
    decreases m - i,
{
    if i < m {
        lemma_ready_count_mono(polled, i, m - 1);
        if poll_ready(polled[i]) && i == m - 1 {
            assert(ready_count(polled, m) == ready_count(polled, i) + 1);
        }
    }
}

/// `epoll_wait` reports every watched entry whose poll found it ready, in
/// the order they are watched: as many events as ready entries, and the
/// event of ready entry `i` comes after those of the ready entries before
/// it.
pub proof fn law_epoll_reports_every_ready(entries: Seq<(usize, EpollEvent)>, polled: Seq<Option<u16>>)
    requires
        polled.len() >= entries.len(),
    ensures
        ready_events(entries, polled).len() == ready_count(polled, entries.len() as int),
        forall|i: int|
            0 <= i < entries.len() && poll_ready(polled[i]) ==> ready_events(entries, polled)[ready_count(
                polled,
                i,
            ) as int] == (#[trigger] entries[i]).1,
    decreases entries.len(),
{
    if entries.len() > 0 {
        let init = entries.drop_last();
        let n = entries.len() - 1;
        law_epoll_reports_every_ready(init, polled);
        let r = ready_events(entries, polled);
        let r0 = ready_events(init, polled);
        assert(poll_ready(polled[n]) <==> (polled[n] matches Some(p) && p != 0));
        assert forall|i: int| 0 <= i < entries.len() && poll_ready(polled[i]) implies r[ready_count(
            polled,
            i,
        ) as int] == (#[trigger] entries[i]).1 by {
            if i < n {
                lemma_ready_count_mono(polled, i, n);
                assert(entries[i] == init[i]);
                assert(r0[ready_count(polled, i) as int] == init[i].1);
            }
        }
    }
}

/// Whether an area, by value, holds address `x`.
pub open spec fn holds_addr(v: (MemType, Seq<MapTrack>, Option<usize>, usize, usize, usize), x: int) -> bool {
    v.4 <= x < v.4 + v.5
}

/// The pages picked as outside `[lo, hi)` lie outside it.
proof fn lemma_tracks_outside(t: Seq<MapTrack>, lo: int, hi: int)
    ensures
        forall|k: int|
            0 <= k < tracks_where(t, lo, hi, false).len() ==> !track_in(
                #[trigger] tracks_where(t, lo, hi, false)[k],
                lo,
                hi,
            ),
    decreases t.len(),
{
    if t.len() > 0 {
        lemma_tracks_outside(t.drop_last(), lo, hi);
        let r0 = tracks_where(t.drop_last(), lo, hi, false);
        let r = tracks_where(t, lo, hi, false);
        assert forall|k: int| 0 <= k < r.len() implies !track_in(#[trigger] r[k], lo, hi) by {
            if k < r0.len() {
                assert(r[k] == r0[k]);
            }
        }
    }
}

/// Cutting `[start, end)` out of an area keeps every address of the area
/// outside that range: the area, or the part split off its far end, still
/// holds it, and it is not among the pages to unmap.
pub proof fn law_cut_keeps_outside(a: MemArea, start: usize, end: usize, x: int)
    requires
        a.wf(),
        start <= end,
        a.start <= x < a.start + a.len,
        !(start <= x < end),
    ensures
        holds_addr(sub_result(a, start, end).0, x) || (sub_result(a, start, end).1 matches Some(b) && holds_addr(
            b,
            x,
        )),
        forall|j: int|
            0 <= j < sub_result(a, start, end).3.len() ==> #[trigger] sub_result(a, start, end).3[j] != x,
{
    let s = a.start as int;
    let e = a.start + a.len;
    let r = sub_result(a, start, end);
    if !overlaps(s, a.len as int, start as int, end as int) {
    } else if s <= start < e && s <= end < e {
    } else if start <= s < end && start <= e < end {
    } else {
        let new_start: int = r.0.4 as int;
        let new_len: int = r.0.5 as int;
        assert(new_start <= x < new_start + new_len);
        lemma_tracks_outside(a.mtrackers@, new_start, new_start + new_len);
        let out = tracks_where(a.mtrackers@, new_start, new_start + new_len, false);
        assert forall|j: int| 0 <= j < r.3.len() implies #[trigger] r.3[j] != x by {
            assert(r.3 == addrs_of(out));
            assert(r.3[j] == out[j].vaddr);
            assert(!track_in(out[j], new_start, new_start + new_len));
        }
    }
}

/// Unmapping `[start, end)` from a set of areas (`MemSet::sub_area`) keeps
/// every address outside that range that an area held: some area after it
/// still holds it.
pub proof fn law_unmap_keeps_outside(areas: Seq<MemArea>, start: usize, end: usize, i: int, x: int)
    requires
        areas_wf(areas),
        start <= end,
        0 <= i < areas.len(),
        areas[i].start <= x < areas[i].start + areas[i].len,
        !(start <= x < end),
    ensures
        exists|j: int|
            0 <= j < (sub_all(areas, start, end).0 + sub_all(areas, start, end).1).len() && holds_addr(
                #[trigger] (sub_all(areas, start, end).0 + sub_all(areas, start, end).1)[j],
                x,
            ),
    decreases areas.len(),
{
    let init = areas.drop_last();
    let n = areas.len() - 1;
    let prev = sub_all(init, start, end);
    let cur = sub_all(areas, start, end);
    let r = sub_result(areas.last(), start, end);
    let left = cur.0 + cur.1;
    assert(areas[n].wf());
    assert(cur.0 == (if r.0.5 != 0 { prev.0.push(r.0) } else { prev.0 }));
    assert(cur.1 == (match r.1 {
        Some(b) => prev.1.push(b),
        None => prev.1,
    }));
    if i < n {
        assert(areas_wf(init)) by {
            assert forall|k: int| 0 <= k < init.len() implies (#[trigger] init[k]).wf() by {
                assert(init[k] == areas[k]);
            }
        }
        assert(init[i] == areas[i]);
        law_unmap_keeps_outside(init, start, end, i, x);
        let pl = prev.0 + prev.1;
        let j = choose|j: int| 0 <= j < pl.len() && holds_addr(#[trigger] pl[j], x);
        if j < prev.0.len() {
            assert(left[j] == pl[j]);
        } else {
            let j2 = j - prev.0.len() + cur.0.len();
            assert(left[j2] == pl[j]);
        }
    } else {
        law_cut_keeps_outside(areas.last(), start, end, x);
        if holds_addr(r.0, x) {
            assert(r.0.5 != 0);
            assert(left[prev.0.len() as int] == r.0);
        } else {
            let b = r.1->0;
            assert(left[(cur.0.len() + prev.1.len()) as int] == b);
        }
    }
}

} // verus!
