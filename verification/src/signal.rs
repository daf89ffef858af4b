//! Signal actions, masks and the frame a handler runs on.
use vstd::prelude::*;
use crate::errno::Errno;

verus! {

/// The default action.
pub const SIG_DFL: usize = 0;

/// Ignore the signal.
pub const SIG_IGN: usize = 1;

pub const SIGILL: usize = 4;
pub const SIGSEGV: usize = 11;

/// The signal the C library cancels threads with.
pub const SIGCANCEL: usize = 33;

/// `sigprocmask`: add the given signals to the mask.
pub const SIG_BLOCK: usize = 0;

/// `sigprocmask`: take the given signals out of the mask.
pub const SIG_UNBLOCK: usize = 1;

/// `sigprocmask`: the mask becomes the given set.
pub const SIG_SETMASK: usize = 2;

/// What a process does on a signal.
#[derive(Clone, Copy, Debug, PartialEq, Eq, Structural)]
pub struct SigAction {
    pub handler: usize,
    pub flags: usize,
    pub restorer: usize,
    pub mask: u64,
}

/// Where a handler starts: its stack pointer (the saved context lies
/// there), program counter, return address, arguments, and the mask it runs
/// with (the task's mask becomes this one); what the context saved at `sp`
/// records besides the interrupted registers (the interrupted program
/// counter and the handler's mask); and the entry pushed on the task's
/// stack of saved contexts (`pushed_sp`, `sp`, and `pushed_mask`, the mask
/// the task had), which
/// `sigreturn` pops.
#[derive(Clone, Copy, Debug, PartialEq, Eq, Structural)]
pub struct SignalFrame {
    pub sp: usize,
    pub pc: usize,
    pub ra: usize,
    pub arg0: usize,
    pub arg1: usize,
    pub arg2: usize,
    pub mask: u64,
    pub saved_pc: usize,
    pub saved_mask: u64,
    pub pushed_sp: usize,
    pub pushed_mask: u64,
}

/// What taking a signal comes to.
#[derive(Clone, Copy, Debug, PartialEq, Eq, Structural)]
pub enum SignalDisposition {
    /// The handler is `SIG_IGN`.
    Ignore,
    /// No handler, and the signal ends the task (illegal instruction,
    /// segmentation fault, cancellation).
    Exit,
    /// No handler, and the signal is let go.
    Nothing,
    /// Run the handler on this frame; the context and the mask the task had
    /// are saved at the frame's stack pointer.
    Handle(SignalFrame),
}

/// The stack pointer of a handler: below the interrupted one, room for the
/// saved context of `ctx_size` bytes, aligned down to 16 bytes.
pub open spec fn frame_sp(sp: usize, ctx_size: usize) -> usize {
    ((sp - ctx_size) as usize) & !0xfusize
}

/// What taking signal `signum` with this action does to a task whose stack
/// pointer is `sp`, program counter `pc` and mask `task_mask`, for a saved
/// context of `ctx_size` bytes.
pub open spec fn disposition(
    action: SigAction,
    signum: usize,
    sp: usize,
    ctx_size: usize,
    pc: usize,
    task_mask: u64,
) -> SignalDisposition {
    if action.handler == SIG_IGN {
        SignalDisposition::Ignore
    } else if action.handler == SIG_DFL {
        if signum == SIGCANCEL || signum == SIGSEGV || signum == SIGILL {
            SignalDisposition::Exit
        } else {
            SignalDisposition::Nothing
        }
    } else {
        let f = frame_sp(sp, ctx_size);
        SignalDisposition::Handle(
            SignalFrame {
                sp: f,
                pc: action.handler,
                ra: action.restorer,
                arg0: signum,
                arg1: 0,
                arg2: f,
                mask: action.mask,
                saved_pc: pc,
                saved_mask: action.mask,
                pushed_sp: f,
                pushed_mask: task_mask,
            },
        )
    }
}

/// Taking signal `signum` (see `disposition`).
pub fn handle_signal(
    action: SigAction,
    signum: usize,
    sp: usize,
    ctx_size: usize,
    pc: usize,
    task_mask: u64,
) -> (res: SignalDisposition)
    requires
        action.handler != SIG_IGN && action.handler != SIG_DFL ==> ctx_size <= sp,
    ensures
        res == disposition(action, signum, sp, ctx_size, pc, task_mask),
        res matches SignalDisposition::Handle(f) ==> f.sp % 16 == 0 && f.sp <= sp - ctx_size && sp
            - ctx_size < f.sp + 16,
{
    if action.handler == SIG_IGN {
        SignalDisposition::Ignore
    } else if action.handler == SIG_DFL {
        if signum == SIGCANCEL || signum == SIGSEGV || signum == SIGILL {
            SignalDisposition::Exit
        } else {
            SignalDisposition::Nothing
        }
    } else {
        let below = sp - ctx_size;
        let f = below & !0xf;
        assert(f % 16 == 0 && f <= below && below < f + 16) by (bit_vector)
            requires
                f == below & !0xfusize,
        ;
        SignalDisposition::Handle(
            SignalFrame {
                sp: f,
                pc: action.handler,
                ra: action.restorer,
                arg0: signum,
                arg1: 0,
                arg2: f,
                mask: action.mask,
                saved_pc: pc,
                saved_mask: action.mask,
                pushed_sp: f,
                pushed_mask: task_mask,
            },
        )
    }
}

/// The mask after `sigprocmask` with `how` and `set`.
pub open spec fn mask_after(mask: u64, how: usize, set: u64) -> u64 {
    if how == SIG_BLOCK {
        mask | set
    } else if how == SIG_UNBLOCK {
        mask & !set
    } else {
        set
    }
}

/// `sigprocmask`: an unknown `how` gives `EINVAL`; else the old mask is
/// handed back and, with a set given, the mask changes by it.
pub fn sigprocmask(mask: u64, how: usize, set: Option<u64>) -> (res: Result<(u64, u64), Errno>)
    ensures
        how > 2 ==> res == Err::<(u64, u64), Errno>(Errno::EINVAL),
        how <= 2 ==> res == Ok::<(u64, u64), Errno>(
            (
                mask,
                match set {
                    Some(s) => mask_after(mask, how, s),
                    None => mask,
                },
            ),
        ),
{
    if how > 2 {
        return Err(Errno::EINVAL);
    }
    let new_mask = match set {
        None => mask,
        Some(s) => {
            if how == SIG_BLOCK {
                mask | s
            } else if how == SIG_UNBLOCK {
                mask & !s
            } else {
                s
            }
        },
    };
    Ok((mask, new_mask))
}

/// `sigaction` on the actions of a process: the old action of `sig` is
/// handed back, and a given action replaces it.
pub fn sigaction(actions: &mut Vec<SigAction>, sig: usize, act: Option<SigAction>) -> (res: SigAction)
    requires
        sig < old(actions)@.len(),
    ensures
        res == old(actions)@[sig as int],
        final(actions)@ == (match act {
            Some(a) => old(actions)@.update(sig as int, a),
            None => old(actions)@,
        }),
{
    let before = actions[sig];
    if let Some(a) = act {
        actions.set(sig, a);
    }
    before
}

/// Which thread `tkill` signals: the caller itself when `tid` is its own
/// id, else the first thread (still alive, `Some`) of the process with that
/// id; `None` when there is none.
pub fn tkill_target(threads: &[Option<usize>], self_tid: usize, tid: usize) -> (res: Option<usize>)
    ensures
        tid == self_tid ==> res == Some(self_tid),
        tid != self_tid ==> (res is Some <==> exists|i: int|
            0 <= i < threads@.len() && #[trigger] threads@[i] == Some(tid)),
        tid != self_tid ==> (res matches Some(t) ==> t == tid),
{
    if tid == self_tid {
        return Some(self_tid);
    }
    let mut i: usize = 0;
    while i < threads.len()
        invariant
            i <= threads@.len(),
            forall|j: int| 0 <= j < i ==> #[trigger] threads@[j] != Some(tid),
        decreases threads@.len() - i,
    {
        if let Some(t) = threads[i] {
            if t == tid {
                return Some(t);
            }
        }
        i = i + 1;
    }
    None
}

/// Sending a signal (`tkill`): one that is not pending becomes pending
/// (the result says so); one already pending that is a real-time signal
/// (`rt`: its index among them) has one more waiting in `queue`; another
/// pending one is merged.
pub fn rt_on_send(queue: &mut Vec<usize>, pending: bool, rt: Option<usize>) -> (add: bool)
    requires
        rt matches Some(i) ==> i < old(queue)@.len() && old(queue)@[i as int] < usize::MAX,
    ensures
        add == !pending,
        (pending && rt is Some) ==> final(queue)@ == old(queue)@.update(
            rt->0 as int,
            (old(queue)@[rt->0 as int] + 1) as usize,
        ),
        !(pending && rt is Some) ==> final(queue)@ == old(queue)@,
{
    if !pending {
        return true;
    }
    match rt {
        Some(i) => {
            let n = queue[i];
            queue.set(i, n + 1);
        },
        None => {},
    }
    false
}

/// After a signal was handled (and taken off the pending ones): a
/// real-time signal (`rt`: its index) with more of it waiting in `queue`
/// becomes pending again (the result says so), one fewer waiting.
pub fn rt_after_handled(queue: &mut Vec<usize>, rt: Option<usize>) -> (again: bool)
    requires
        rt matches Some(i) ==> i < old(queue)@.len(),
    ensures
        again == (rt matches Some(i) && old(queue)@[i as int] > 0),
        again ==> final(queue)@ == old(queue)@.update(rt->0 as int, (old(queue)@[rt->0 as int] - 1) as usize),
        !again ==> final(queue)@ == old(queue)@,
{
    match rt {
        Some(i) => {
            let n = queue[i];
            if n > 0 {
                queue.set(i, n - 1);
                return true;
            }
            false
        },
        None => false,
    }
}

} // verus!
