//! Waiting on several files: `ppoll`, `poll` and the end of `pselect`.
use vstd::prelude::*;
use crate::vfs::{timespec_nsec, TimeSpec};

verus! {

/// A `pollfd`: the descriptor, the events asked for and those found.
#[derive(Clone, Copy, Debug, PartialEq, Eq, Structural)]
pub struct PollFd {
    pub fd: i32,
    pub events: u16,
    pub revents: u16,
}

/// The number of entries whose poll found something.
pub open spec fn found_count(found: Seq<u16>, n: int) -> int
    decreases n,
{
    if n <= 0 {
        0
    } else {
        found_count(found, n - 1) + if found[n - 1] != 0 {
            1int
        } else {
            0int
        }
    }
}

/// One round of `ppoll`: each entry's `revents` becomes what polling its
/// file found (`found[i]`, 0 where the descriptor is not open); returns how
/// many found something and whether the wait is over (some did, or `now`
/// has reached `end`).
pub fn poll_round(fds: &mut [PollFd], found: &[u16], now: usize, end: usize) -> (res: (usize, bool))
    requires
        found@.len() == old(fds)@.len(),
    ensures
        final(fds)@.len() == old(fds)@.len(),
        forall|i: int| 0 <= i < old(fds)@.len() ==> #[trigger] final(fds)@[i] == (PollFd {
            revents: found@[i],
            ..old(fds)@[i]
        }),
        res.0 == found_count(found@, found@.len() as int),
        res.1 == (res.0 > 0 || now >= end),
{
    let mut num: usize = 0;
    let mut i: usize = 0;
    let n = fds.len();
    while i < n
        invariant
            n == old(fds)@.len(),
            found@.len() == n,
            i <= n,
            fds@.len() == n,
            num == found_count(found@, i as int),
            num <= i,
            forall|k: int| 0 <= k < i ==> #[trigger] fds@[k] == (PollFd { revents: found@[k], ..old(fds)@[k] }),
            forall|k: int| i <= k < n ==> #[trigger] fds@[k] == old(fds)@[k],
        decreases n - i,
    {
        let mut e = fds[i];
        e.revents = found[i];
        fds[i] = e;
        if found[i] != 0 {
            num = num + 1;
        }
        i = i + 1;
    }
    (num, num > 0 || now >= end)
}

/// When a wait with an optional timeout gives up: `now` plus the timeout,
/// or never (`usize::MAX`) without one.
pub fn wait_deadline(now: usize, timeout: Option<TimeSpec>) -> (res: usize)
    requires
        timeout matches Some(t) ==> now + timespec_nsec(t) <= usize::MAX,
    ensures
        res == (match timeout {
            Some(t) => now + timespec_nsec(t),
            None => usize::MAX as int,
        }),
{
    match timeout {
        Some(t) => now + t.to_nsec(),
        None => usize::MAX,
    }
}

/// How a round of `pselect` ends: with the number of ready descriptors
/// when there are any, with 0 once `now` is past `end`, else it waits on
/// (`None`).
pub fn select_outcome(num: usize, now: usize, end: usize) -> (res: Option<usize>)
    ensures
        num != 0 ==> res == Some(num),
        num == 0 && now > end ==> res == Some(0usize),
        num == 0 && now <= end ==> res is None,
{
    if num != 0 {
        Some(num)
    } else if now > end {
        Some(0)
    } else {
        None
    }
}

} // verus!
