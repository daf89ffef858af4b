//! The loop a user task runs in: check its timer and signals, stop once it
//! has exited, run it in user mode until it traps, and give the processor
//! away every 50 rounds. The loop itself awaits; its decisions are here.
use vstd::prelude::*;

verus! {

/// How many rounds the loop runs before it yields.
pub const ROUNDS_PER_YIELD: u32 = 50;

/// What the loop remembers between rounds.
#[derive(Clone, Copy, Debug, PartialEq, Eq, Structural)]
pub struct UserLoop {
    /// Rounds since the last yield.
    pub rounds: u32,
}

/// What the loop learns.
#[derive(Clone, Copy, Debug, PartialEq, Eq, Structural)]
pub enum UserEvent {
    /// Timer and signals were checked; the task's exit code and its
    /// thread's exit code, where set.
    Checked { exit_code: Option<usize>, thread_exit_code: Option<u32> },
    /// The run in user mode came back: whether it asked to stop (a
    /// `sigreturn`, or the task exited while it ran), and the exit codes.
    Returned { stop: bool, exit_code: Option<usize>, thread_exit_code: Option<u32> },
}

/// What the loop does next.
#[derive(Clone, Copy, Debug, PartialEq, Eq, Structural)]
pub enum UserAction {
    /// Leave the loop: the task is done.
    Exit,
    /// Run the task in user mode.
    RunUser,
    /// Yield the processor, then start the next round.
    Yield,
    /// Start the next round.
    Next,
}

/// Whether the task has exited: its own exit code, else its thread's.
pub open spec fn exited(exit_code: Option<usize>, thread_exit_code: Option<u32>) -> bool {
    exit_code is Some || thread_exit_code is Some
}

/// The loop's step.
pub open spec fn user_step_spec(st: UserLoop, ev: UserEvent) -> (UserLoop, UserAction) {
    match ev {
        UserEvent::Checked { exit_code, thread_exit_code } => if exited(exit_code, thread_exit_code) {
            (st, UserAction::Exit)
        } else {
            (st, UserAction::RunUser)
        },
        UserEvent::Returned { stop, exit_code, thread_exit_code } => if stop || exited(
            exit_code,
            thread_exit_code,
        ) {
            (st, UserAction::Exit)
        } else if st.rounds + 1 >= ROUNDS_PER_YIELD {
            (UserLoop { rounds: 0 }, UserAction::Yield)
        } else {
            (UserLoop { rounds: (st.rounds + 1) as u32 }, UserAction::Next)
        },
    }
}

/// The exit code the task ends with, where it has one: its own, else its
/// thread's.
pub fn thread_exit(exit_code: Option<usize>, thread_exit_code: Option<u32>) -> (res: Option<usize>)
    ensures
        res is Some <==> exited(exit_code, thread_exit_code),
        exit_code matches Some(c) ==> res == Some(c),
        exit_code is None ==> res == (match thread_exit_code {
            Some(t) => Some(t as usize),
            None => None::<usize>,
        }),
{
    match exit_code {
        Some(c) => Some(c),
        None => match thread_exit_code {
            Some(t) => Some(t as usize),
            None => None,
        },
    }
}

/// One step of the loop (see `user_step_spec`). A fresh loop starts at 0
/// rounds and never counts to 50 without yielding.
pub fn user_step(st: UserLoop, ev: UserEvent) -> (res: (UserLoop, UserAction))
    requires
        st.rounds < ROUNDS_PER_YIELD,
    ensures
        res == user_step_spec(st, ev),
        res.0.rounds < ROUNDS_PER_YIELD,
{
    match ev {
        UserEvent::Checked { exit_code, thread_exit_code } => {
            if thread_exit(exit_code, thread_exit_code).is_some() {
                (st, UserAction::Exit)
            } else {
                (st, UserAction::RunUser)
            }
        },
        UserEvent::Returned { stop, exit_code, thread_exit_code } => {
            if stop || thread_exit(exit_code, thread_exit_code).is_some() {
                (st, UserAction::Exit)
            } else if st.rounds + 1 >= ROUNDS_PER_YIELD {
                (UserLoop { rounds: 0 }, UserAction::Yield)
            } else {
                (UserLoop { rounds: st.rounds + 1 }, UserAction::Next)
            }
        },
    }
}

} // verus!
