//! The interest list of an epoll file: for each watched descriptor, the
//! events asked for and the user data handed back with them.
use vstd::prelude::*;
use crate::errno::Errno;

verus! {

/// An `epoll_event`: the event bits asked for or reported, and user data.
pub type EpollEvent = (u32, u64);

/// The watched descriptors, in a `hashbrown::HashMap`. Only the wrappers
/// below touch the map.
#[verifier::external_body]
pub struct InterestMap {
    map: hashbrown::HashMap<usize, EpollEvent>,
}

/// What the map holds: each watched descriptor and its event.
pub uninterp spec fn interest_of(m: InterestMap) -> Map<usize, EpollEvent>;

/// `hashbrown::HashMap::new`: a map that holds nothing.
#[verifier::external_body]
fn interest_new() -> (res: InterestMap)
    ensures
        interest_of(res).dom() == Set::<usize>::empty(),
{
    InterestMap { map: hashbrown::HashMap::new() }
}

/// `hashbrown::HashMap::insert`: `fd` now maps to `ev`, replacing what it
/// mapped to; the other entries stay.
#[verifier::external_body]
fn interest_insert(m: &mut InterestMap, fd: usize, ev: EpollEvent)
    ensures
        interest_of(*final(m)) == interest_of(*old(m)).insert(fd, ev),
{
    m.map.insert(fd, ev);
}

/// `hashbrown::HashMap::remove`: `fd` maps to nothing any more; the other
/// entries stay.
#[verifier::external_body]
fn interest_remove(m: &mut InterestMap, fd: usize)
    ensures
        interest_of(*final(m)) == interest_of(*old(m)).remove(fd),
{
    m.map.remove(&fd);
}

/// `hashbrown::HashMap::get_mut`: where `fd` is in the map, its event
/// becomes `ev`; otherwise nothing changes.
#[verifier::external_body]
fn interest_replace(m: &mut InterestMap, fd: usize, ev: EpollEvent)
    ensures
        interest_of(*final(m)) == (if interest_of(*old(m)).contains_key(fd) {
            interest_of(*old(m)).insert(fd, ev)
        } else {
            interest_of(*old(m))
        }),
{
    if let Some(x) = m.map.get_mut(&fd) {
        *x = ev;
    }
}

/// `hashbrown::HashMap::iter`: every entry of the map once, in the map's own
/// order, which depends on the hasher's seed and is not stated.
#[verifier::external_body]
fn interest_entries(m: &InterestMap) -> (res: Vec<(usize, EpollEvent)>)
    ensures
        forall|i: int, j: int| 0 <= i < j < res@.len() ==> #[trigger] res@[i].0 != #[trigger] res@[j].0,
        forall|i: int| 0 <= i < res@.len() ==> #[trigger] interest_of(*m).contains_key(res@[i].0)
            && interest_of(*m)[res@[i].0] == res@[i].1,
        forall|fd: usize| #[trigger] interest_of(*m).contains_key(fd) ==> exists|i: int|
            0 <= i < res@.len() && res@[i].0 == fd,
{
    m.map.iter().map(|(k, v)| (*k, *v)).collect()
}

/// `epoll_ctl` operations.
#[derive(Clone, Copy, Debug, PartialEq, Eq, Structural)]
pub enum EpollCtl {
    ADD,
    DEL,
    MOD,
}

impl EpollCtl {
    /// The operation numbered `value`: 1 adds, 2 deletes, 3 modifies.
    pub fn from_usize(value: usize) -> (res: Option<Self>)
        ensures
            value == 1 <==> res == Some(EpollCtl::ADD),
            value == 2 <==> res == Some(EpollCtl::DEL),
            value == 3 <==> res == Some(EpollCtl::MOD),
            (value < 1 || value > 3) <==> res is None,
    {
        match value {
            1 => Some(EpollCtl::ADD),
            2 => Some(EpollCtl::DEL),
            3 => Some(EpollCtl::MOD),
            _ => None,
        }
    }
}

/// The interest list after an operation: add (or replace), delete, or
/// modify an entry that is there.
pub open spec fn after_ctl(m: Map<usize, EpollEvent>, ctl: EpollCtl, fd: usize, ev: EpollEvent) -> Map<
    usize,
    EpollEvent,
> {
    match ctl {
        EpollCtl::ADD => m.insert(fd, ev),
        EpollCtl::DEL => m.remove(fd),
        EpollCtl::MOD => if m.contains_key(fd) {
            m.insert(fd, ev)
        } else {
            m
        },
    }
}

/// An epoll file: its interest list and the flags it was made with.
pub struct EpollFile {
    data: InterestMap,
    flags: usize,
}

impl EpollFile {
    /// The watched descriptors and their events.
    pub closed spec fn interest(&self) -> Map<usize, EpollEvent> {
        interest_of(self.data)
    }

    /// The flags it was made with.
    pub closed spec fn flags_view(&self) -> usize {
        self.flags
    }

    /// The flags it was made with.
    pub fn flags(&self) -> (res: usize)
        ensures
            res == self.flags_view(),
    {
        self.flags
    }

    pub fn new(flags: usize) -> (res: Self)
        ensures
            res.interest() == Map::<usize, EpollEvent>::empty(),
            res.flags_view() == flags,
    {
        let res = EpollFile { data: interest_new(), flags };
        proof {
            assert(res.interest() =~= Map::<usize, EpollEvent>::empty());
        }
        res
    }

    /// Applies an operation to the interest list.
    pub fn ctl(&mut self, ctl: EpollCtl, fd: usize, ev: EpollEvent)
        ensures
            final(self).interest() == after_ctl(old(self).interest(), ctl, fd, ev),
            final(self).flags_view() == old(self).flags_view(),
    {
        match ctl {
            EpollCtl::ADD => interest_insert(&mut self.data, fd, ev),
            EpollCtl::DEL => interest_remove(&mut self.data, fd),
            EpollCtl::MOD => interest_replace(&mut self.data, fd, ev),
        }
    }

    /// The watched descriptors and their events, each once, in the map's
    /// own order.
    pub fn entries(&self) -> (res: Vec<(usize, EpollEvent)>)
        ensures
            forall|i: int, j: int| 0 <= i < j < res@.len() ==> #[trigger] res@[i].0 != #[trigger] res@[j].0,
            forall|i: int|
                0 <= i < res@.len() ==> #[trigger] self.interest().contains_key(res@[i].0)
                    && self.interest()[res@[i].0] == res@[i].1,
            forall|fd: usize| #[trigger] self.interest().contains_key(fd) ==> exists|i: int|
                0 <= i < res@.len() && res@[i].0 == fd,
    {
        interest_entries(&self.data)
    }
}

/// `epoll_ctl` on an epoll file: an unknown operation gives `EINVAL`; a
/// descriptor that is not open (`fd_open` false) gives `EBADF`; else the
/// operation is applied.
pub fn epoll_ctl(file: &mut EpollFile, op: usize, fd: usize, fd_open: bool, ev: EpollEvent) -> (res: Result<
    (),
    Errno,
>)
    ensures
        (op < 1 || op > 3) ==> res == Err::<(), Errno>(Errno::EINVAL) && final(file).interest() == old(
            file,
        ).interest(),
        1 <= op <= 3 && !fd_open ==> res == Err::<(), Errno>(Errno::EBADF) && final(file).interest()
            == old(file).interest(),
        1 <= op <= 3 && fd_open ==> res == Ok::<(), Errno>(()) && final(file).interest() == after_ctl(
            old(file).interest(),
            if op == 1 {
                EpollCtl::ADD
            } else if op == 2 {
                EpollCtl::DEL
            } else {
                EpollCtl::MOD
            },
            fd,
            ev,
        ),
{
    let ctl = match EpollCtl::from_usize(op) {
        Some(c) => c,
        None => return Err(Errno::EINVAL),
    };
    if !fd_open {
        return Err(Errno::EBADF);
    }
    file.ctl(ctl, fd, ev);
    Ok(())
}

/// The events `epoll_wait` reports: of the watched entries (in the order
/// given), those whose poll found something (`polled[i]` is the result of
/// polling entry `i`: `None` where its descriptor is closed or the poll
/// failed).
pub open spec fn ready_events(entries: Seq<(usize, EpollEvent)>, polled: Seq<Option<u16>>) -> Seq<EpollEvent>
    decreases entries.len(),
{
    if entries.len() == 0 {
        Seq::empty()
    } else {
        let rest = ready_events(entries.drop_last(), polled);
        let i = entries.len() - 1;
        if polled[i] matches Some(p) && p != 0 {
            rest.push(entries[i].1)
        } else {
            rest
        }
    }
}

/// One round of `epoll_wait` after polling the watched entries: the ready
/// events in order, and whether the wait is over (something is ready, or
/// the time `now` has reached `end`).
pub fn epoll_round(entries: &[(usize, EpollEvent)], polled: &[Option<u16>], now: usize, end: usize) -> (res: (
    Vec<EpollEvent>,
    bool,
))
    requires
        polled@.len() == entries@.len(),
    ensures
        res.0@ == ready_events(entries@, polled@),
        res.1 == (res.0@.len() > 0 || now >= end),
{
    let mut out: Vec<EpollEvent> = Vec::new();
    let mut i: usize = 0;
    while i < entries.len()
        invariant
            i <= entries@.len(),
            polled@.len() == entries@.len(),
            out@ == ready_events(entries@.subrange(0, i as int), polled@),
        decreases entries@.len() - i,
    {
        proof {
            assert(entries@.subrange(0, i + 1).drop_last() =~= entries@.subrange(0, i as int));
        }
        match polled[i] {
            Some(p) => {
                if p != 0 {
                    out.push(entries[i].1);
                }
            },
            None => {},
        }
        i = i + 1;
    }
    proof {
        assert(entries@.subrange(0, entries@.len() as int) =~= entries@);
    }
    let done = out.len() > 0 || now >= end;
    (out, done)
}

/// When `epoll_wait` gives up: never for a timeout of `usize::MAX`, else
/// `timeout` units of 0x1000000 nanoseconds after `start`.
pub fn epoll_deadline(start: usize, timeout: usize) -> (res: usize)
    requires
        timeout != usize::MAX ==> start + timeout * 0x1000000 <= usize::MAX,
    ensures
        res == (if timeout == usize::MAX {
            usize::MAX as int
        } else {
            start + timeout * 0x1000000
        }),
{
    if timeout == usize::MAX {
        usize::MAX
    } else {
        start + timeout * 0x1000000
    }
}

} // verus!
