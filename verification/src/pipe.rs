//! Byte queues behind pipes, socket pairs and the terminal.
use vstd::prelude::*;
use std::collections::VecDeque;
use crate::errno::Errno;
use crate::vfs::{has_bits, Stat, POLLERR, POLLIN, POLLOUT, S_IFIFO};

verus! {

/// Writers are turned away while more than this many bytes wait in a pipe.
pub const PIPE_LIMIT: usize = 0x50000;

/// What the reading end of a pipe reports to `poll`.
pub open spec fn receiver_poll(events: u16, queued: int, sender_alive: bool) -> u16 {
    if has_bits(events, POLLIN) && queued > 0 {
        POLLIN
    } else if has_bits(events, POLLIN) && !sender_alive {
        POLLERR
    } else if has_bits(events, POLLERR) && queued == 0 && !sender_alive {
        POLLERR
    } else {
        0
    }
}

/// What the writing end of a pipe reports to `poll`.
pub open spec fn sender_poll(events: u16, queued: int) -> u16 {
    if has_bits(events, POLLOUT) && queued <= PIPE_LIMIT {
        POLLOUT
    } else {
        0
    }
}

/// What one end of a socket pair reports to `poll`.
pub open spec fn pair_poll(events: u16, queued: int) -> u16 {
    let out: u16 = if has_bits(events, POLLOUT) && queued <= PIPE_LIMIT {
        POLLOUT
    } else {
        0
    };
    if has_bits(events, POLLIN) && queued > 0 {
        out | POLLIN
    } else {
        out
    }
}

/// What a pipe holds after a write of `data`: the bytes are added at the
/// end, unless more than `PIPE_LIMIT` bytes already wait.
pub open spec fn pipe_after_write(q: Seq<u8>, data: Seq<u8>) -> Seq<u8> {
    if q.len() > PIPE_LIMIT {
        q
    } else {
        q + data
    }
}

/// How many bytes a read into a buffer of `room` bytes takes from a queue of
/// `queued` bytes.
pub open spec fn read_count(queued: int, room: int) -> int {
    if queued < room {
        queued
    } else {
        room
    }
}

/// The queue of bytes that a pipe or socket pair holds between writer and
/// reader.
pub struct PipeBuffer {
    queue: VecDeque<u8>,
}

impl View for PipeBuffer {
    type V = Seq<u8>;

    closed spec fn view(&self) -> Seq<u8> {
        self.queue@
    }
}

impl PipeBuffer {
    /// An empty queue.
    pub fn new() -> (res: Self)
        ensures
            res@ == Seq::<u8>::empty(),
    {
        PipeBuffer { queue: VecDeque::new() }
    }

    /// The number of bytes waiting.
    pub fn len(&self) -> (res: usize)
        ensures
            res == self@.len(),
    {
        self.queue.len()
    }

    /// Appends `buffer` unless more than `PIPE_LIMIT` bytes already wait
    /// (`EAGAIN`); returns the length of `buffer`.
    pub fn write(&mut self, buffer: &[u8]) -> (res: Result<usize, Errno>)
        ensures
            old(self)@.len() > PIPE_LIMIT ==> res == Err::<usize, Errno>(Errno::EAGAIN) && final(self)@ == old(self)@,
            old(self)@.len() <= PIPE_LIMIT ==> res == Ok::<usize, Errno>(buffer@.len() as usize),
            final(self)@ == pipe_after_write(old(self)@, buffer@),
    {
        if self.queue.len() > PIPE_LIMIT {
            return Err(Errno::EAGAIN);
        }
        let wlen = buffer.len();
        let mut i: usize = 0;
        while i < wlen
            invariant
                wlen == buffer@.len(),
                i <= wlen,
                self.queue@ == old(self)@ + buffer@.subrange(0, i as int),
            decreases wlen - i,
        {
            self.queue.push_back(buffer[i]);
            i = i + 1;
            proof {
                assert(self.queue@ =~= old(self)@ + buffer@.subrange(0, i as int));
            }
        }
        proof {
            assert(buffer@.subrange(0, wlen as int) =~= buffer@);
        }
        Ok(wlen)
    }

    /// Moves the first bytes into the front of `buffer`, as many as fit and
    /// as wait; returns how many.
    fn drain_into(&mut self, buffer: &mut [u8]) -> (res: usize)
        ensures
            res == (if old(self)@.len() < old(buffer)@.len() {
                old(self)@.len()
            } else {
                old(buffer)@.len()
            }),
            final(self)@ == old(self)@.subrange(res as int, old(self)@.len() as int),
            final(buffer)@.len() == old(buffer)@.len(),
            forall|k: int|
                0 <= k < old(buffer)@.len() ==> #[trigger] final(buffer)@[k] == (if k < res {
                    old(self)@[k]
                } else {
                    old(buffer)@[k]
                }),
    {
        let rlen = if self.queue.len() < buffer.len() {
            self.queue.len()
        } else {
            buffer.len()
        };
        let mut i: usize = 0;
        while i < rlen
            invariant
                i <= rlen,
                rlen <= old(self)@.len(),
                rlen <= old(buffer)@.len(),
                self.queue@ == old(self)@.subrange(i as int, old(self)@.len() as int),
                buffer@.len() == old(buffer)@.len(),
                forall|k: int|
                    0 <= k < old(buffer)@.len() ==> #[trigger] buffer@[k] == (if k < i {
                        old(self)@[k]
                    } else {
                        old(buffer)@[k]
                    }),
            decreases rlen - i,
        {
            let b = self.queue.pop_front();
            match b {
                Some(b) => {
                    buffer[i] = b;
                },
                None => {},
            }
            i = i + 1;
        }
        rlen
    }

    /// The reading end of a pipe: moves waiting bytes into `buffer`. With
    /// nothing moved and the writer still open the reader must wait
    /// (`EAGAIN`); with the writer gone, 0 means the end of the stream.
    pub fn read(&mut self, buffer: &mut [u8], sender_alive: bool) -> (res: Result<usize, Errno>)
        ensures
            ({
                let n = read_count(old(self)@.len() as int, old(buffer)@.len() as int);
                &&& final(self)@ == old(self)@.subrange(n as int, old(self)@.len() as int)
                &&& final(buffer)@.len() == old(buffer)@.len()
                &&& forall|k: int|
                    0 <= k < old(buffer)@.len() ==> #[trigger] final(buffer)@[k] == (if k < n {
                        old(self)@[k]
                    } else {
                        old(buffer)@[k]
                    })
                &&& res == (if n == 0 && sender_alive {
                    Err::<usize, Errno>(Errno::EAGAIN)
                } else {
                    Ok::<usize, Errno>(n as usize)
                })
            }),
    {
        let rlen = self.drain_into(buffer);
        if rlen == 0 && sender_alive {
            Err(Errno::EAGAIN)
        } else {
            Ok(rlen)
        }
    }

    /// One end of a socket pair: moves waiting bytes into `buffer`; with
    /// nothing moved the reader must wait (`EAGAIN`).
    pub fn pair_read(&mut self, buffer: &mut [u8]) -> (res: Result<usize, Errno>)
        ensures
            ({
                let n = read_count(old(self)@.len() as int, old(buffer)@.len() as int);
                &&& final(self)@ == old(self)@.subrange(n as int, old(self)@.len() as int)
                &&& final(buffer)@.len() == old(buffer)@.len()
                &&& forall|k: int|
                    0 <= k < old(buffer)@.len() ==> #[trigger] final(buffer)@[k] == (if k < n {
                        old(self)@[k]
                    } else {
                        old(buffer)@[k]
                    })
                &&& res == (if n == 0 {
                    Err::<usize, Errno>(Errno::EAGAIN)
                } else {
                    Ok::<usize, Errno>(n as usize)
                })
            }),
    {
        let rlen = self.drain_into(buffer);
        if rlen == 0 {
            Err(Errno::EAGAIN)
        } else {
            Ok(rlen)
        }
    }

    /// What the writing end of a pipe reports to `poll`: `POLLOUT` when asked
    /// for and no more than `PIPE_LIMIT` bytes wait.
    pub fn poll_sender(&self, events: u16) -> (res: u16)
        ensures
            res == sender_poll(events, self@.len() as int),
    {
        if events & POLLOUT == POLLOUT && self.queue.len() <= PIPE_LIMIT {
            POLLOUT
        } else {
            0
        }
    }

    /// What the reading end of a pipe reports to `poll`: `POLLIN` when asked
    /// for and bytes wait; `POLLERR` when the writer is gone and nothing waits.
    pub fn poll_receiver(&self, events: u16, sender_alive: bool) -> (res: u16)
        ensures
            res == receiver_poll(events, self@.len() as int, sender_alive),
    {
        let queued = self.queue.len();
        if events & POLLIN == POLLIN {
            if queued > 0 {
                return POLLIN;
            } else if !sender_alive {
                return POLLERR;
            }
        }
        if events & POLLERR == POLLERR && queued == 0 && !sender_alive {
            POLLERR
        } else {
            0
        }
    }

    /// What one end of a socket pair reports to `poll`: `POLLOUT` as for a
    /// pipe writer, and `POLLIN` when asked for and bytes wait.
    pub fn poll_pair(&self, events: u16) -> (res: u16)
        ensures
            res == pair_poll(events, self@.len() as int),
    {
        let queued = self.queue.len();
        let mut res: u16 = 0;
        if events & POLLOUT == POLLOUT && queued <= PIPE_LIMIT {
            res = POLLOUT;
        }
        if events & POLLIN == POLLIN && queued > 0 {
            res = res | POLLIN;
        }
        res
    }
}

/// Fills the mode of `stat` for either end of a pipe.
pub fn pipe_stat(stat: &mut Stat) -> (res: Result<(), Errno>)
    ensures
        res is Ok,
        final(stat).mode == S_IFIFO,
        final(stat).ino == old(stat).ino,
        final(stat).size == old(stat).size,
        final(stat).dev == old(stat).dev,
{
    stat.mode = S_IFIFO;
    Ok(())
}

/// What the terminal reports to `poll`, given the bytes it holds and the
/// character the console has ready (if asked and any).
pub open spec fn tty_poll(events: u16, buffered: int, console: Option<u8>) -> u16 {
    let input: u16 = if has_bits(events, POLLIN) && (buffered > 0 || console is Some) {
        POLLIN
    } else {
        0
    };
    if has_bits(events, POLLOUT) {
        input | POLLOUT
    } else {
        input
    }
}

/// The input that the terminal holds.
pub struct TtyBuffer {
    buffer: VecDeque<u8>,
}

impl View for TtyBuffer {
    type V = Seq<u8>;

    closed spec fn view(&self) -> Seq<u8> {
        self.buffer@
    }
}

impl TtyBuffer {
    /// No input held.
    pub fn new() -> (res: Self)
        ensures
            res@ == Seq::<u8>::empty(),
    {
        TtyBuffer { buffer: VecDeque::new() }
    }

    /// The number of bytes held.
    pub fn len(&self) -> (res: usize)
        ensures
            res == self@.len(),
    {
        self.buffer.len()
    }

    /// Reads from the terminal: held bytes first, as many as fit; when none
    /// are held, the character `console` read from the console (one byte),
    /// or `EAGAIN` when there was none. `console` is only looked at when no
    /// byte is held.
    pub fn read(&mut self, buffer: &mut [u8], console: Option<u8>) -> (res: Result<usize, Errno>)
        requires
            old(buffer)@.len() > 0,
        ensures
            final(buffer)@.len() == old(buffer)@.len(),
            old(self)@.len() > 0 ==> {
                let n = read_count(old(self)@.len() as int, old(buffer)@.len() as int);
                &&& res == Ok::<usize, Errno>(n as usize)
                &&& final(self)@ == old(self)@.subrange(n as int, old(self)@.len() as int)
                &&& forall|k: int|
                    0 <= k < old(buffer)@.len() ==> #[trigger] final(buffer)@[k] == (if k < n {
                        old(self)@[k]
                    } else {
                        old(buffer)@[k]
                    })
            },
            old(self)@.len() == 0 ==> final(self)@ == old(self)@ && match console {
                Some(c) => res == Ok::<usize, Errno>(1) && final(buffer)@ == old(buffer)@.update(
                    0,
                    c,
                ),
                None => res == Err::<usize, Errno>(Errno::EAGAIN) && final(buffer)@ == old(buffer)@,
            },
    {
        if self.buffer.len() > 0 {
            let rlen = if buffer.len() < self.buffer.len() {
                buffer.len()
            } else {
                self.buffer.len()
            };
            let mut i: usize = 0;
            while i < rlen
                invariant
                    i <= rlen,
                    rlen <= old(self)@.len(),
                    rlen <= old(buffer)@.len(),
                    self.buffer@ == old(self)@.subrange(i as int, old(self)@.len() as int),
                    buffer@.len() == old(buffer)@.len(),
                    forall|k: int|
                        0 <= k < old(buffer)@.len() ==> #[trigger] buffer@[k] == (if k < i {
                            old(self)@[k]
                        } else {
                            old(buffer)@[k]
                        }),
                decreases rlen - i,
            {
                match self.buffer.pop_front() {
                    Some(b) => {
                        buffer[i] = b;
                    },
                    None => {},
                }
                i = i + 1;
            }
            Ok(rlen)
        } else {
            match console {
                Some(c) => {
                    buffer[0] = c;
                    Ok(1)
                },
                None => Err(Errno::EAGAIN),
            }
        }
    }

    /// What the terminal reports to `poll`. When input is asked for and none
    /// is held, `console` is the character read from the console, which is
    /// then held for the next read.
    pub fn poll(&mut self, events: u16, console: Option<u8>) -> (res: u16)
        ensures
            res == tty_poll(events, old(self)@.len() as int, console),
            final(self)@ == (if has_bits(events, POLLIN) && old(self)@.len() == 0 {
                match console {
                    Some(c) => old(self)@.push(c),
                    None => old(self)@,
                }
            } else {
                old(self)@
            }),
    {
        let mut res: u16 = 0;
        if events & POLLIN == POLLIN {
            if self.buffer.len() > 0 {
                res = POLLIN;
            } else {
                match console {
                    Some(c) => {
                        res = POLLIN;
                        self.buffer.push_back(c);
                    },
                    None => {},
                }
            }
        }
        if events & POLLOUT == POLLOUT {
            res = res | POLLOUT;
        }
        res
    }
}

} // verus!
