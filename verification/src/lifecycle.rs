//! Lifecycle of one receive session: the fixed start/stop handshake
//! commands and the state machine that bounds the stream. The states move
//! only forward: `NotStarted` to `Running` to `Stopping` to `Stopped`, so a
//! session issues the stop command at most once and never restarts.

use vstd::prelude::*;

verus! {

/// Where a receive session stands.
#[derive(Clone, Copy, Debug, PartialEq, Eq, Structural)]
pub enum LifecycleState {
    /// No command sent yet.
    NotStarted,
    /// The start command was sent; the main loop may poll.
    Running,
    /// An interrupt fired: the stop command went out, the loop has not yet
    /// observed it.
    Stopping,
    /// The main loop observed the stop and exited.
    Stopped,
}

/// The command that opens the data stream.
pub open spec fn start_command_spec() -> Seq<char> {
    "radio rx 0\r\n"@
}

/// The command that closes the data stream.
pub open spec fn stop_command_spec() -> Seq<char> {
    "radio rxstop\r\n"@
}

/// The outcome of an interrupt in a given state: the next state, and
/// whether the stop command goes out.
pub open spec fn interrupt_transition(s: LifecycleState) -> (LifecycleState, bool) {
    if s == LifecycleState::Running {
        (LifecycleState::Stopping, true)
    } else {
        (s, false)
    }
}

/// The stop command is issued at most once: whatever the state, an
/// interrupt followed by another interrupt never sends twice.
pub proof fn lemma_stop_at_most_once(s: LifecycleState)
    ensures
        !(interrupt_transition(s).1 && interrupt_transition(interrupt_transition(s).0).1),
{
}

/// An interrupt never puts the session back into a state that polls.
pub proof fn lemma_interrupt_stops_polling(s: LifecycleState)
    ensures
        interrupt_transition(s).1 ==> interrupt_transition(s).0 != LifecycleState::Running,
{
}

/// A receive session's lifecycle.
pub struct Lifecycle {
    state: LifecycleState,
}

impl Lifecycle {
    /// The current state.
    pub closed spec fn state(&self) -> LifecycleState {
        self.state
    }

    /// A session that has not yet spoken to the device.
    pub fn new() -> (r: Self)
        ensures
            r.state() == LifecycleState::NotStarted,
    {
        Lifecycle { state: LifecycleState::NotStarted }
    }

    /// Opens the session: hands out the start command to write to the
    /// transport and moves to `Running`.
    pub fn begin(&mut self) -> (cmd: &'static str)
        requires
            old(self).state() == LifecycleState::NotStarted,
        ensures
            final(self).state() == LifecycleState::Running,
            cmd@ == start_command_spec(),
    {
        self.state = LifecycleState::Running;
        "radio rx 0\r\n"
    }

    /// Reacts to an interrupt. Only a running session hands out the stop
    /// command; any later interrupt hands out nothing, so the stop command
    /// is sent at most once.
    pub fn interrupt(&mut self) -> (cmd: Option<&'static str>)
        ensures
            final(self).state() == interrupt_transition(old(self).state()).0,
            cmd is Some <==> interrupt_transition(old(self).state()).1,
            cmd matches Some(c) ==> c@ == stop_command_spec(),
    {
        match self.state {
            LifecycleState::Running => {
                self.state = LifecycleState::Stopping;
                Some("radio rxstop\r\n")
            },
            _ => None,
        }
    }

    /// The current state, observably: what callers test before `finish`.
    pub fn current_state(&self) -> (s: LifecycleState)
        ensures
            s == self.state(),
    {
        self.state
    }

    /// The main loop observed the stop and exited.
    pub fn finish(&mut self)
        requires
            old(self).state() == LifecycleState::Stopping,
        ensures
            final(self).state() == LifecycleState::Stopped,
    {
        self.state = LifecycleState::Stopped;
    }

    /// True exactly while the main loop should keep polling.
    pub fn should_run(&self) -> (r: bool)
        ensures
            r == (self.state() == LifecycleState::Running),
    {
        match self.state {
            LifecycleState::Running => true,
            _ => false,
        }
    }
}

} // verus!
