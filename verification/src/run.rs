//! The simulation run of one instance on the local chain: simulate each local
//! transaction in turn (at most `MAX_RESIMULATIONS` times each), wait for
//! mailbox messages when a simulation calls for them, send outbound messages
//! when it succeeds, and end with a vote.
//!
//! The run only decides; the caller performs each action (a simulation, a
//! dispatch, a wait) and reports how it went as the next event.

use vstd::prelude::*;

use crate::pipeline::{SimulationVerdict, MAILBOX_POLL_INTERVAL_MS, MAX_RESIMULATIONS};

verus! {

/// Where a simulation run stands: `tx_index` transactions of `tx_count` were
/// accepted, and the next one is on its attempt number `attempt`.
#[derive(Debug)]
pub struct SimulationRun {
    pub tx_count: usize,
    pub tx_index: usize,
    pub attempt: usize,
}

/// What happened to the last action of a run.
#[derive(Debug)]
pub enum RunEvent {
    /// The simulation returned a result with this verdict.
    Simulated(SimulationVerdict),
    /// The simulator itself failed.
    SimulationFailed,
    /// The outbound messages were sent, or sending them failed.
    Dispatched { ok: bool },
    /// The mailbox messages the transaction waits for arrived.
    DependenciesArrived,
    /// The wait for mailbox messages timed out.
    DependenciesTimedOut,
}

/// What a run asks for next.
#[derive(Debug, PartialEq, Eq, Structural)]
pub enum RunAction {
    /// Simulate the transaction at this index.
    Simulate { tx_index: usize },
    /// Send the outbound messages of the transaction just simulated.
    DispatchOutbound,
    /// Wait for the mailbox messages the transaction depends on.
    AwaitDependencies,
    /// The run is over: vote.
    Vote(bool),
}

impl SimulationRun {
    /// The run is in progress: a transaction is being worked on, within its
    /// attempts.
    pub open spec fn running(&self) -> bool {
        &&& self.tx_index < self.tx_count
        &&& self.attempt < MAX_RESIMULATIONS
    }

    /// Start a run over `tx_count` transactions. With none there is nothing to
    /// reject: the run votes "yes" at once.
    pub fn start(tx_count: usize) -> (r: (Self, RunAction))
        ensures
            r.0.tx_count == tx_count,
            r.0.tx_index == 0,
            r.0.attempt == 0,
            tx_count == 0 ==> r.1 == RunAction::Vote(true),
            tx_count > 0 ==> r.1 == (RunAction::Simulate { tx_index: 0 }) && r.0.running(),
    {
        let run = SimulationRun { tx_count, tx_index: 0, attempt: 0 };
        if tx_count == 0 {
            (run, RunAction::Vote(true))
        } else {
            (run, RunAction::Simulate { tx_index: 0 })
        }
    }

    /// Whether the run is in progress.
    pub fn is_running(&self) -> (b: bool)
        ensures
            b == self.running(),
    {
        self.tx_index < self.tx_count && self.attempt < MAX_RESIMULATIONS
    }

    /// The next action after `event`.
    ///
    /// A rejected transaction, a failed simulation, a failed dispatch or a
    /// timed-out wait end the run with a "no". An accepted transaction has its
    /// messages sent; once they are, the next transaction is simulated, and
    /// after the last one the run votes "yes". When awaited messages arrive
    /// the transaction is simulated again, unless its attempts are used up,
    /// which ends the run with a "no".
    pub fn step(&mut self, event: RunEvent) -> (a: RunAction)
        requires
            old(self).running(),
        ensures
            final(self).tx_count == old(self).tx_count,
            a is Simulate ==> final(self).running(),
            a is DispatchOutbound || a is AwaitDependencies ==> *final(self) == *old(self),
            a == RunAction::Vote(true) ==> final(self).tx_index == final(self).tx_count,
            match event {
                RunEvent::Simulated(SimulationVerdict::Reject) => a == RunAction::Vote(false),
                RunEvent::Simulated(SimulationVerdict::Accept) => a == RunAction::DispatchOutbound,
                RunEvent::Simulated(SimulationVerdict::AwaitDependencies) => a == RunAction::AwaitDependencies,
                RunEvent::SimulationFailed => a == RunAction::Vote(false),
                RunEvent::Dispatched { ok } => if !ok {
                    a == RunAction::Vote(false)
                } else {
                    &&& final(self).tx_index == old(self).tx_index + 1
                    &&& final(self).attempt == 0
                    &&& a == if old(self).tx_index + 1 == old(self).tx_count {
                        RunAction::Vote(true)
                    } else {
                        RunAction::Simulate { tx_index: (old(self).tx_index + 1) as usize }
                    }
                },
                RunEvent::DependenciesArrived => {
                    &&& final(self).tx_index == old(self).tx_index
                    &&& final(self).attempt == old(self).attempt + 1
                    &&& a == if old(self).attempt + 1 == MAX_RESIMULATIONS {
                        RunAction::Vote(false)
                    } else {
                        RunAction::Simulate { tx_index: old(self).tx_index }
                    }
                },
                RunEvent::DependenciesTimedOut => a == RunAction::Vote(false),
            },
    {
        match event {
            RunEvent::Simulated(SimulationVerdict::Reject) => RunAction::Vote(false),
            RunEvent::Simulated(SimulationVerdict::Accept) => RunAction::DispatchOutbound,
            RunEvent::Simulated(SimulationVerdict::AwaitDependencies) => RunAction::AwaitDependencies,
            RunEvent::SimulationFailed => RunAction::Vote(false),
            RunEvent::Dispatched { ok } => {
                if !ok {
                    return RunAction::Vote(false);
                }
                self.tx_index = self.tx_index + 1;
                self.attempt = 0;
                if self.tx_index == self.tx_count {
                    RunAction::Vote(true)
                } else {
                    RunAction::Simulate { tx_index: self.tx_index }
                }
            },
            RunEvent::DependenciesArrived => {
                self.attempt = self.attempt + 1;
                if self.attempt == MAX_RESIMULATIONS {
                    RunAction::Vote(false)
                } else {
                    RunAction::Simulate { tx_index: self.tx_index }
                }
            },
            RunEvent::DependenciesTimedOut => RunAction::Vote(false),
        }
    }
}

/// What a wait for mailbox messages does next.
#[derive(Debug, PartialEq, Eq, Structural)]
pub enum WaitStep {
    /// Some dependency was fulfilled: simulate again.
    Ready,
    /// The deadline passed with nothing fulfilled.
    TimedOut,
    /// Look at the mailbox again after this many milliseconds.
    PollAgain { after_ms: u64 },
}

/// The deadline of a wait that starts at `start_ms` and lasts `timeout_ms`.
pub fn dependency_deadline(start_ms: u64, timeout_ms: u64) -> (d: u64)
    requires
        start_ms + timeout_ms <= u64::MAX,
    ensures
        d == start_ms + timeout_ms,
{
    start_ms + timeout_ms
}

/// One round of waiting: `fulfilled` dependencies were just fulfilled from
/// the mailbox, at time `now_ms`, for a wait ending at `deadline_ms`.
pub fn wait_step(fulfilled: usize, now_ms: u64, deadline_ms: u64) -> (s: WaitStep)
    ensures
        fulfilled > 0 ==> s == WaitStep::Ready,
        fulfilled == 0 && now_ms >= deadline_ms ==> s == WaitStep::TimedOut,
        fulfilled == 0 && now_ms < deadline_ms ==> s == (WaitStep::PollAgain { after_ms: MAILBOX_POLL_INTERVAL_MS }),
{
    if fulfilled > 0 {
        WaitStep::Ready
    } else if now_ms >= deadline_ms {
        WaitStep::TimedOut
    } else {
        WaitStep::PollAgain { after_ms: MAILBOX_POLL_INTERVAL_MS }
    }
}

} // verus!
