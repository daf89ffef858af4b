//! Time values, interval timers and the clocks that system calls read.
use vstd::prelude::*;
use crate::errno::Errno;
use crate::vfs::{timespec_nsec, TimeSpec};
use std::cmp::Ordering;

verus! {

/// A point in time in seconds and microseconds.
#[derive(Clone, Copy, Debug, PartialEq, Eq, Structural)]
pub struct TimeVal {
    pub sec: usize,
    pub usec: usize,
}

/// Seconds and microseconds of `ns` nanoseconds.
pub open spec fn timeval_of_nsec(ns: int) -> TimeVal {
    TimeVal { sec: (ns / 1_000_000_000) as usize, usec: ((ns % 1_000_000_000) / 1000) as usize }
}

/// The sum of two time values: the microsecond parts are added, and whole
/// seconds among them are carried, so the microseconds stay below 1_000_000.
pub open spec fn timeval_add(a: TimeVal, b: TimeVal) -> TimeVal {
    let n = a.usec + b.usec;
    TimeVal { sec: (a.sec + b.sec + n / 1_000_000) as usize, usec: (n % 1_000_000) as usize }
}

/// Whether `a` comes before `b`: by seconds, then by microseconds.
pub open spec fn timeval_lt(a: TimeVal, b: TimeVal) -> bool {
    a.sec < b.sec || (a.sec == b.sec && a.usec < b.usec)
}

impl TimeVal {
    /// Time zero.
    pub fn zero() -> (res: Self)
        ensures
            res == (TimeVal { sec: 0, usec: 0 }),
    {
        TimeVal { sec: 0, usec: 0 }
    }

    /// The time value of `current_ns`, the clock's reading in nanoseconds.
    pub fn now(current_ns: usize) -> (res: Self)
        ensures
            res == timeval_of_nsec(current_ns as int),
    {
        TimeVal { sec: current_ns / 1_000_000_000, usec: (current_ns % 1_000_000_000) / 1000 }
    }

    /// The sum of two time values, carried as `timeval_add` says.
    pub fn add(self, rhs: Self) -> (res: Self)
        requires
            self.usec + rhs.usec <= usize::MAX,
            self.sec + rhs.sec + (self.usec + rhs.usec) / 1_000_000 <= usize::MAX,
        ensures
            res == timeval_add(self, rhs),
            res.usec < 1_000_000,
    {
        let usec = self.usec + rhs.usec;
        TimeVal { sec: self.sec + rhs.sec + usec / 1_000_000, usec: usec % 1_000_000 }
    }

    /// Orders two time values by seconds, then by microseconds.
    pub fn compare(&self, other: &Self) -> (res: Ordering)
        ensures
            res == Ordering::Less <==> timeval_lt(*self, *other),
            res == Ordering::Greater <==> timeval_lt(*other, *self),
            res == Ordering::Equal <==> *self == *other,
    {
        if self.sec > other.sec {
            Ordering::Greater
        } else if self.sec < other.sec {
            Ordering::Less
        } else {
            if self.usec > other.usec {
                Ordering::Greater
            } else if self.usec < other.usec {
                Ordering::Less
            } else {
                Ordering::Equal
            }
        }
    }

    /// Whether this time comes before `other`.
    pub fn before(&self, other: &Self) -> (res: bool)
        ensures
            res == timeval_lt(*self, *other),
    {
        self.sec < other.sec || (self.sec == other.sec && self.usec < other.usec)
    }
}

/// The time stamp of the clock reading `current_ns` nanoseconds: whole
/// seconds and the nanoseconds left over.
pub fn timespc_now(current_ns: usize) -> (res: TimeSpec)
    ensures
        res.sec == current_ns / 1_000_000_000,
        res.nsec == current_ns % 1_000_000_000,
        timespec_nsec(res) == current_ns,
{
    TimeSpec { sec: current_ns / 1_000_000_000, nsec: current_ns % 1_000_000_000 }
}

/// An interval timer: its period and the time left to the next expiry.
#[derive(Clone, Copy, Debug, PartialEq, Eq, Structural)]
pub struct ITimerVal {
    pub interval: TimeVal,
    pub value: TimeVal,
}

impl ITimerVal {
    /// A timer that is off.
    pub fn zero() -> (res: Self)
        ensures
            res.interval == (TimeVal { sec: 0, usec: 0 }) && res.value == (TimeVal {
                sec: 0,
                usec: 0,
            }),
    {
        ITimerVal { interval: TimeVal::zero(), value: TimeVal::zero() }
    }
}

/// The real-time timer of a process: its setting, when it next fires, and
/// when it last fired.
#[derive(Clone, Copy, Debug, PartialEq, Eq, Structural)]
pub struct ProcessTimer {
    pub timer: ITimerVal,
    pub next: TimeVal,
    pub last: TimeVal,
}

/// Whether a time value fits `TimeVal` addition without overflow.
pub open spec fn can_add(a: TimeVal, b: TimeVal) -> bool {
    a.usec + b.usec <= usize::MAX && a.sec + b.sec + (a.usec + b.usec) / 1_000_000
        <= usize::MAX
}

impl ProcessTimer {
    /// A timer that is off.
    pub fn new() -> (res: Self)
        ensures
            res.timer == (ITimerVal {
                interval: TimeVal { sec: 0, usec: 0 },
                value: TimeVal { sec: 0, usec: 0 },
            }),
            res.next == (TimeVal { sec: 0, usec: 0 }),
            res.last == (TimeVal { sec: 0, usec: 0 }),
    {
        ProcessTimer { timer: ITimerVal::zero(), next: TimeVal::zero(), last: TimeVal::zero() }
    }

    /// `setitimer`: only timer 0 (the real-time timer) is kept; others give
    /// `EPERM`. Returns the old setting. A new setting fires next at
    /// `now + value`; a zero value turns the timer off.
    pub fn set(&mut self, which: usize, new_timer: Option<ITimerVal>, now: TimeVal) -> (res:
        Result<ITimerVal, Errno>)
        requires
            new_timer matches Some(t) ==> can_add(now, t.value),
        ensures
            which != 0 ==> res == Err::<ITimerVal, Errno>(Errno::EPERM) && *final(self) == *old(
                self,
            ),
            which == 0 ==> res == Ok::<ITimerVal, Errno>(old(self).timer),
            which == 0 ==> match new_timer {
                None => *final(self) == *old(self),
                Some(t) => {
                    &&& final(self).timer == t
                    &&& if t.value.sec == 0 && t.value.usec == 0 {
                        final(self).next == (TimeVal { sec: 0, usec: 0 }) && final(self).last == (
                        TimeVal { sec: 0, usec: 0 })
                    } else {
                        final(self).next == timeval_add(now, t.value) && final(self).last == old(
                            self,
                        ).last
                    }
                },
            },
    {
        if which != 0 {
            return Err(Errno::EPERM);
        }
        let old_timer = self.timer;
        match new_timer {
            Some(t) => {
                self.timer = t;
                self.next = now.add(t.value);
                if t.value.sec == 0 && t.value.usec == 0 {
                    self.next = TimeVal::zero();
                    self.last = TimeVal::zero();
                }
            },
            None => {},
        }
        Ok(old_timer)
    }

    /// Whether the timer fires at `now`: it is armed (its next expiry lies
    /// after the last one) and `now` has reached the next expiry. Firing
    /// records the expiry as the last one.
    pub fn check(&mut self, now: TimeVal) -> (fired: bool)
        ensures
            fired == (timeval_lt(old(self).last, old(self).next) && !timeval_lt(now, old(self).next)),
            fired ==> final(self).last == old(self).next && final(self).next == old(self).next
                && final(self).timer == old(self).timer,
            !fired ==> *final(self) == *old(self),
    {
        if self.last.before(&self.next) {
            if !now.before(&self.next) {
                self.last = self.next;
                return true;
            }
        }
        false
    }
}

/// The clocks `clock_gettime` knows.
#[derive(Clone, Copy, Debug, PartialEq, Eq, Structural)]
pub enum ClockReading {
    /// The current time.
    Now,
    /// Zero: CPU-time clocks are not kept.
    Zero,
}

/// `clock_gettime`: clocks 0 (real time) and 1 (monotonic) read the current
/// time, clocks 2 and 3 (process and thread CPU time) read zero, others give
/// `EINVAL`.
pub fn clock_reading(clock_id: usize) -> (res: Result<ClockReading, Errno>)
    ensures
        clock_id <= 1 ==> res == Ok::<ClockReading, Errno>(ClockReading::Now),
        2 <= clock_id <= 3 ==> res == Ok::<ClockReading, Errno>(ClockReading::Zero),
        clock_id > 3 ==> res == Err::<ClockReading, Errno>(Errno::EINVAL),
{
    match clock_id {
        0 => Ok(ClockReading::Now),
        1 => Ok(ClockReading::Now),
        2 => Ok(ClockReading::Zero),
        3 => Ok(ClockReading::Zero),
        _ => Err(Errno::EINVAL),
    }
}

/// The time value of `usec` microseconds.
pub fn timeval_of_usec(usec: usize) -> (res: TimeVal)
    ensures
        res.sec == usec / 1_000_000,
        res.usec == usec % 1_000_000,
{
    TimeVal { sec: usec / 1_000_000, usec: usec % 1_000_000 }
}

/// A wait until a deadline, in nanoseconds of the clock.
pub struct WaitUntilsec(pub u128);

impl WaitUntilsec {
    /// Whether the wait is over at `now`: the clock has passed the deadline.
    pub fn ready(&self, now: u128) -> (res: bool)
        ensures
            res == (now > self.0),
    {
        now > self.0
    }
}

/// A wait until a clock reading in milliseconds.
pub struct NextTick(pub usize);

impl NextTick {
    /// Whether the wait is over at `now_ms`: the clock has reached the tick.
    pub fn ready(&self, now_ms: usize) -> (res: bool)
        ensures
            res == (now_ms >= self.0),
    {
        now_ms >= self.0
    }
}

/// The deadline of a wait of `ms` milliseconds from `now` nanoseconds.
pub fn wait_ms(now: u128, ms: usize) -> (res: WaitUntilsec)
    requires
        now + ms * 1_000_000 <= u128::MAX,
    ensures
        res.0 == now + ms * 1_000_000,
{
    let d: u128 = ms as u128 * 1_000_000;
    WaitUntilsec(now + d)
}

/// `clock_nanosleep` with `TIMER_ABSTIME`: the time asked for is the
/// deadline itself.
pub const TIMER_ABSTIME: usize = 1;

/// The deadline of `clock_nanosleep` at `now` nanoseconds for a request of
/// `req` nanoseconds: `req` itself with `TIMER_ABSTIME` (exactly that flag
/// word), else `req` from now.
pub fn sleep_deadline(flags: usize, now: u128, req: u128) -> (res: WaitUntilsec)
    requires
        flags != TIMER_ABSTIME ==> now + req <= u128::MAX,
    ensures
        flags == TIMER_ABSTIME ==> res.0 == req,
        flags != TIMER_ABSTIME ==> res.0 == now + req,
{
    if flags == TIMER_ABSTIME {
        WaitUntilsec(req)
    } else {
        WaitUntilsec(now + req)
    }
}

/// What `nanosleep` returns: 0 once the time is up, `EINTR` when a signal
/// cut the sleep short.
pub fn sleep_result(interrupted: bool) -> (res: Result<usize, Errno>)
    ensures
        res == (if interrupted {
            Err::<usize, Errno>(Errno::EINTR)
        } else {
            Ok::<usize, Errno>(0)
        }),
{
    if interrupted {
        Err(Errno::EINTR)
    } else {
        Ok(0)
    }
}

} // verus!
