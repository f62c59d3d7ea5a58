//! Process signals.

use bevy::ecs::entity::Entity;
use vstd::prelude::*;

verus! {

/// Process signals, interpreted by the processes they target.
#[derive(Clone, Copy, Debug, PartialEq, Eq, Hash)]
#[non_exhaustive]
pub enum Sig {
    /// Produced by: (^C), kill builtin.
    /// Polite request to stop. Can be caught.
    Int,
    /// Produced by: (^\), kill builtin.
    /// Polite request to stop. Can be caught. Produces a core dump (in our case, stack trace).
    Quit,
    /// Produced by: (^Z), kill builtin.
    /// Signifies that a job is being placed in the background.
    Tstp,
    /// Produced by: kill builtin.
    /// Polite request from another program to stop. Can be caught.
    Term,
    /// Produced by: kill builtin.
    /// Immediate kill for the process: the process is despawned immediately.
    /// Cannot be caught.
    Kill,
    /// Produced by: pty close, kill builtin.
    /// Signifies that any listeners have 'hung up' and are no longer available.
    /// Typically used as a reload mechanism or to exit a repl.
    Hup,
    /// SIGSTOP
    Stop,
    /// SIGCONT
    Cont,
    /// SIGTTIN
    Ttin,
    /// SIGTTOU
    Ttou,
}

/// Message to send a signal to a job. These are also known as interrupts.
#[derive(Clone, Copy, Debug)]
pub struct SignalMsg {
    /// Source terminal.
    pub term: Entity,
    /// Message sink - the targeted job.
    pub target: Entity,
    /// Signal kind.
    pub signal: Sig,
}

} // verus!
