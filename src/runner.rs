//! The decisions taken while running the registered commands one after the
//! other. The caller launches and polls the processes and reports what it
//! saw; the driver says what to do next and keeps the order of the run.

use vstd::prelude::*;

use crate::registry::Registry;
use crate::text::{blank, is_blank, views};

verus! {

/// Where one entry stands in a run.
#[derive(Clone, Copy, Debug, PartialEq, Eq, Structural)]
pub enum RunPhase {
    NotStarted,
    Running,
    Finished,
    FailedToSpawn,
}

/// What the caller saw of the entry being run.
#[derive(Clone, Copy, Debug, PartialEq, Eq, Structural)]
pub enum RunEvent {
    /// The process was started.
    Launched,
    /// The process could not be started, or the text names no program.
    LaunchFailed,
    /// A poll found the process still running.
    StillRunning,
    /// A poll found that the process has exited.
    Exited,
    /// A poll could not tell whether the process has exited.
    PollFailed,
}

/// What the caller does next.
#[derive(Clone, Copy, Debug, PartialEq, Eq, Structural)]
pub enum RunAction {
    /// Advance the progress indicator, wait a moment, and poll again.
    Poll,
    /// Stop the indicator and show how the command ended.
    Complete,
    /// Stop the indicator and warn that the command could not be started.
    ReportLaunchFailure,
    /// Warn that the poll failed, then poll again.
    ReportPollFailure,
    /// The event does not apply to the current phase: nothing to do.
    Ignore,
}

/// A phase that an entry never leaves.
pub open spec fn is_terminal(phase: RunPhase) -> bool {
    phase == RunPhase::Finished || phase == RunPhase::FailedToSpawn
}

/// The phase of an entry after `event`: launching leads to running or to a
/// failed launch, and only an observed exit ends a running entry.
pub open spec fn next_phase(phase: RunPhase, event: RunEvent) -> RunPhase {
    match (phase, event) {
        (RunPhase::NotStarted, RunEvent::Launched) => RunPhase::Running,
        (RunPhase::NotStarted, RunEvent::LaunchFailed) => RunPhase::FailedToSpawn,
        (RunPhase::Running, RunEvent::Exited) => RunPhase::Finished,
        _ => phase,
    }
}

/// What follows `event` in `phase`.
pub open spec fn action_for(phase: RunPhase, event: RunEvent) -> RunAction {
    match (phase, event) {
        (RunPhase::NotStarted, RunEvent::Launched) => RunAction::Poll,
        (RunPhase::NotStarted, RunEvent::LaunchFailed) => RunAction::ReportLaunchFailure,
        (RunPhase::Running, RunEvent::StillRunning) => RunAction::Poll,
        (RunPhase::Running, RunEvent::Exited) => RunAction::Complete,
        (RunPhase::Running, RunEvent::PollFailed) => RunAction::ReportPollFailure,
        _ => RunAction::Ignore,
    }
}

fn step(phase: RunPhase, event: RunEvent) -> (r: (RunPhase, RunAction))
    ensures
        r == (next_phase(phase, event), action_for(phase, event)),
{
    match (phase, event) {
        (RunPhase::NotStarted, RunEvent::Launched) => (RunPhase::Running, RunAction::Poll),
        (RunPhase::NotStarted, RunEvent::LaunchFailed) => (
            RunPhase::FailedToSpawn,
            RunAction::ReportLaunchFailure,
        ),
        (RunPhase::Running, RunEvent::StillRunning) => (RunPhase::Running, RunAction::Poll),
        (RunPhase::Running, RunEvent::Exited) => (RunPhase::Finished, RunAction::Complete),
        (RunPhase::Running, RunEvent::PollFailed) => (
            RunPhase::Running,
            RunAction::ReportPollFailure,
        ),
        _ => (phase, RunAction::Ignore),
    }
}

/// A run over the entries of a registry, in order, one at a time.
pub struct RunDriver {
    commands: Vec<String>,
    phases: Vec<RunPhase>,
    current: usize,
}

impl RunDriver {
    /// The texts of the commands, in the order they run.
    pub closed spec fn commands(&self) -> Seq<Seq<char>> {
        views(self.commands@)
    }

    /// The phase of each command.
    pub closed spec fn phases(&self) -> Seq<RunPhase> {
        self.phases@
    }

    /// The index of the command being run; the number of commands once the
    /// run is over.
    pub closed spec fn current(&self) -> int {
        self.current as int
    }

    /// The commands before the current one have ended, the ones after it
    /// have not started, and the current one has not ended.
    pub open spec fn wf(&self) -> bool {
        &&& self.phases().len() == self.commands().len()
        &&& 0 <= self.current() <= self.commands().len()
        &&& forall|i: int| 0 <= i < self.current() ==> is_terminal(#[trigger] self.phases()[i])
        &&& forall|i: int|
            self.current() < i < self.commands().len() ==> #[trigger] self.phases()[i]
                == RunPhase::NotStarted
        &&& self.current() < self.commands().len() ==> !is_terminal(
            self.phases()[self.current()],
        )
    }

    /// A run over the entries of `registry`, none of them started.
    pub fn new(registry: &Registry) -> (d: RunDriver)
        ensures
            d.wf(),
            d.commands() == registry@,
            d.current() == 0,
            forall|i: int| 0 <= i < d.phases().len() ==> #[trigger] d.phases()[i]
                == RunPhase::NotStarted,
    {
        let listed = registry.list();
        let mut commands: Vec<String> = Vec::new();
        let mut phases: Vec<RunPhase> = Vec::new();
        let mut k: usize = 0;
        while k < listed.len()
            invariant
                k <= listed@.len(),
                listed@.len() == registry@.len(),
                forall|i: int| 0 <= i < listed@.len() ==> (#[trigger] listed@[i]).1@ == registry@[i],
                commands@.len() == k,
                phases@.len() == k,
                forall|i: int| 0 <= i < k ==> (#[trigger] commands@[i])@ == registry@[i],
                forall|i: int| 0 <= i < k ==> #[trigger] phases@[i] == RunPhase::NotStarted,
            decreases listed.len() - k,
        {
            commands.push(listed[k].1.clone());
            phases.push(RunPhase::NotStarted);
            k = k + 1;
        }
        let d = RunDriver { commands, phases, current: 0 };
        assert(d.commands() =~= registry@);
        d
    }

    /// Whether every command has ended.
    pub fn is_done(&self) -> (r: bool)
        requires
            self.wf(),
        ensures
            r == (self.current() == self.commands().len()),
    {
        self.current == self.commands.len()
    }

    /// The text of the command to run now, or `None` once the run is over.
    pub fn current_command(&self) -> (r: Option<String>)
        requires
            self.wf(),
        ensures
            match r {
                Some(t) => self.current() < self.commands().len() && t@ == self.commands()[self.current()],
                None => self.current() == self.commands().len(),
            },
    {
        if self.current < self.commands.len() {
            Some(self.commands[self.current].clone())
        } else {
            None
        }
    }

    /// Takes in what the caller saw of the current command and says what to
    /// do next; once the command has ended the run moves on to the next one.
    pub fn record(&mut self, event: RunEvent) -> (action: RunAction)
        requires
            old(self).wf(),
            old(self).current() < old(self).commands().len(),
        ensures
            final(self).wf(),
            final(self).commands() == old(self).commands(),
            ({
                let c = old(self).current();
                let p = next_phase(old(self).phases()[c], event);
                &&& action == action_for(old(self).phases()[c], event)
                &&& final(self).phases() == old(self).phases().update(c, p)
                &&& final(self).current() == if is_terminal(p) {
                    c + 1
                } else {
                    c
                }
            }),
    {
        let c = self.current;
        let n = self.commands.len();
        assert(c < n);
        let (p, action) = step(self.phases[c], event);
        self.phases.set(c, p);
        if p == RunPhase::Finished || p == RunPhase::FailedToSpawn {
            self.current = c + 1;
        }
        action
    }
}

/// Once the run is over, every command has ended: none was skipped.
pub proof fn lemma_run_over_all_ended(d: RunDriver)
    requires
        d.wf(),
        d.current() == d.commands().len(),
    ensures
        forall|i: int| 0 <= i < d.phases().len() ==> is_terminal(#[trigger] d.phases()[i]),
{
}

/// The note shown once a command whose output was captured has ended.
pub open spec fn summary(captured: Seq<char>) -> Seq<char> {
    if blank(captured) {
        "No output"@
    } else {
        "Output: "@ + captured
    }
}

/// The note to show once a command has ended: none when its output was
/// shown as it came, else a summary of what it printed.
pub fn completion_note(show_output: bool, captured: &str) -> (r: Option<String>)
    ensures
        show_output ==> r is None,
        !show_output ==> r is Some && r->Some_0@ == summary(captured@),
{
    if show_output {
        None
    } else if is_blank(captured) {
        Some("No output".to_owned())
    } else {
        Some("Output: ".to_owned().concat(captured))
    }
}

} // verus!
