//! Watching over one spawned hook: its exit, its timeout and its two output
//! streams, up to the moment its status record is brought to its end.
//!
//! The process itself is out of reach from here. Whoever holds it reports
//! what happens to it as events, and is told what to do next.
use vstd::prelude::*;

verus! {

/// How far the wait for the process to end has come.
#[derive(Debug, Clone, Copy, PartialEq, Eq, Structural)]
pub enum ExitPhase {
    /// The process runs, and its timeout has not passed.
    Waiting,
    /// The timeout has passed, and the process is being killed.
    Killing,
    /// The process was killed, and its exit is awaited.
    Reaping,
    /// The process has ended.
    Exited { success: bool },
    /// Waiting for the process or killing it has failed; how it ends will
    /// not be known.
    Lost,
}

/// What is known of one spawned hook.
#[derive(Debug, Clone, Copy, PartialEq, Eq, Structural)]
pub struct Supervisor {
    /// How far the wait for the process to end has come.
    pub exit: ExitPhase,
    /// Whether standard output is still being copied to its log.
    pub stdout_open: bool,
    /// Whether standard error is still being copied to its log.
    pub stderr_open: bool,
    /// Whether the status record has been told to be brought to its end.
    pub finalized: bool,
}

/// Something that happened to the process or to one of its streams.
#[derive(Debug, Clone, Copy, PartialEq, Eq, Structural)]
pub enum SupervisorEvent {
    /// The process has ended.
    Exited { success: bool },
    /// The timeout has passed before the process ended.
    TimedOut,
    /// The process has been killed.
    Killed,
    /// Waiting for the process, or killing it, has failed.
    Failed,
    /// Standard output has been copied to its end.
    StdoutClosed,
    /// Standard error has been copied to its end.
    StderrClosed,
}

/// What to do next.
#[derive(Debug, Clone, Copy, PartialEq, Eq, Structural)]
pub enum SupervisorAction {
    /// Nothing, but to wait for what happens next.
    Wait,
    /// Kill the process.
    Kill,
    /// Wait for the killed process to end, without a timeout.
    Reap,
    /// Bring the status record to its end, with this outcome.
    Finalize { success: bool },
    /// Give up on the instance; its status record stays as it is.
    Abandon,
}

impl ExitPhase {
    /// The phase that follows when `event` happens in this phase. An event
    /// that this phase does not wait for changes nothing.
    pub open spec fn spec_after(self, event: SupervisorEvent) -> ExitPhase {
        match (self, event) {
            (ExitPhase::Waiting, SupervisorEvent::Exited { success }) => ExitPhase::Exited {
                success,
            },
            (ExitPhase::Waiting, SupervisorEvent::TimedOut) => ExitPhase::Killing,
            (ExitPhase::Killing, SupervisorEvent::Killed) => ExitPhase::Reaping,
            (ExitPhase::Reaping, SupervisorEvent::Exited { success }) => ExitPhase::Exited {
                success,
            },
            (ExitPhase::Waiting, SupervisorEvent::Failed) => ExitPhase::Lost,
            (ExitPhase::Killing, SupervisorEvent::Failed) => ExitPhase::Lost,
            (ExitPhase::Reaping, SupervisorEvent::Failed) => ExitPhase::Lost,
            _ => self,
        }
    }

    /// The phase that follows when `event` happens in this phase.
    pub fn after(self, event: SupervisorEvent) -> (next: ExitPhase)
        ensures
            next == self.spec_after(event),
    {
        match (self, event) {
            (ExitPhase::Waiting, SupervisorEvent::Exited { success }) => ExitPhase::Exited {
                success,
            },
            (ExitPhase::Waiting, SupervisorEvent::TimedOut) => ExitPhase::Killing,
            (ExitPhase::Killing, SupervisorEvent::Killed) => ExitPhase::Reaping,
            (ExitPhase::Reaping, SupervisorEvent::Exited { success }) => ExitPhase::Exited {
                success,
            },
            (ExitPhase::Waiting, SupervisorEvent::Failed) => ExitPhase::Lost,
            (ExitPhase::Killing, SupervisorEvent::Failed) => ExitPhase::Lost,
            (ExitPhase::Reaping, SupervisorEvent::Failed) => ExitPhase::Lost,
            _ => self,
        }
    }
}

impl Supervisor {
    /// What is known when the process has just been spawned.
    pub open spec fn spec_new() -> Supervisor {
        Supervisor {
            exit: ExitPhase::Waiting,
            stdout_open: true,
            stderr_open: true,
            finalized: false,
        }
    }

    /// What is known when the process has just been spawned.
    pub fn new() -> (state: Supervisor)
        ensures
            state == Supervisor::spec_new(),
    {
        Supervisor {
            exit: ExitPhase::Waiting,
            stdout_open: true,
            stderr_open: true,
            finalized: false,
        }
    }

    /// What is known once `event` has happened, before anything is done
    /// about it.
    pub open spec fn noted(self, event: SupervisorEvent) -> Supervisor {
        Supervisor {
            exit: self.exit.spec_after(event),
            stdout_open: self.stdout_open && event != SupervisorEvent::StdoutClosed,
            stderr_open: self.stderr_open && event != SupervisorEvent::StderrClosed,
            finalized: self.finalized,
        }
    }

    /// Whether the status record is due to be brought to its end: the
    /// process has ended, both streams are copied, and it was not done yet.
    pub open spec fn is_due(self) -> bool {
        self.exit is Exited && !self.stdout_open && !self.stderr_open && !self.finalized
    }

    /// The state after `event`, and what to do then.
    pub open spec fn spec_step(self, event: SupervisorEvent) -> (Supervisor, SupervisorAction) {
        let noted = self.noted(event);
        if noted.is_due() {
            (
                Supervisor { finalized: true, ..noted },
                SupervisorAction::Finalize { success: noted.exit->success },
            )
        } else if noted.exit == self.exit {
            (noted, SupervisorAction::Wait)
        } else {
            (
                noted,
                match noted.exit {
                    ExitPhase::Killing => SupervisorAction::Kill,
                    ExitPhase::Reaping => SupervisorAction::Reap,
                    ExitPhase::Lost => SupervisorAction::Abandon,
                    _ => SupervisorAction::Wait,
                },
            )
        }
    }

    /// Takes note of `event` and says what to do next.
    pub fn step(self, event: SupervisorEvent) -> (next: (Supervisor, SupervisorAction))
        ensures
            next == self.spec_step(event),
    {
        let exit = self.exit.after(event);
        let stdout_open = self.stdout_open && !matches!(event, SupervisorEvent::StdoutClosed);
        let stderr_open = self.stderr_open && !matches!(event, SupervisorEvent::StderrClosed);
        match exit {
            ExitPhase::Exited { success } => {
                if !stdout_open && !stderr_open && !self.finalized {
                    return (
                        Supervisor { exit, stdout_open, stderr_open, finalized: true },
                        SupervisorAction::Finalize { success },
                    );
                }
            },
            _ => {},
        }
        let noted = Supervisor { exit, stdout_open, stderr_open, finalized: self.finalized };
        if exit == self.exit {
            (noted, SupervisorAction::Wait)
        } else {
            let action = match exit {
                ExitPhase::Killing => SupervisorAction::Kill,
                ExitPhase::Reaping => SupervisorAction::Reap,
                ExitPhase::Lost => SupervisorAction::Abandon,
                _ => SupervisorAction::Wait,
            };
            (noted, action)
        }
    }

    /// The state after all of `events`, in their order.
    pub open spec fn run(self, events: Seq<SupervisorEvent>) -> Supervisor
        decreases events.len(),
    {
        if events.len() == 0 {
            self
        } else {
            self.run(events.drop_last()).spec_step(events.last()).0
        }
    }

    /// The outcomes with which the status record was told to be brought to
    /// its end while `events` happened, in their order.
    pub open spec fn outcomes(self, events: Seq<SupervisorEvent>) -> Seq<bool>
        decreases events.len(),
    {
        if events.len() == 0 {
            Seq::empty()
        } else {
            let earlier = self.outcomes(events.drop_last());
            match self.run(events.drop_last()).spec_step(events.last()).1 {
                SupervisorAction::Finalize { success } => earlier.push(success),
                _ => earlier,
            }
        }
    }
}

/// The phase of the wait after all of `events`, in their order.
pub open spec fn phase_after(phase: ExitPhase, events: Seq<SupervisorEvent>) -> ExitPhase
    decreases events.len(),
{
    if events.len() == 0 {
        phase
    } else {
        phase_after(phase, events.drop_last()).spec_after(events.last())
    }
}

/// Whether an event tells of the process, and not of one of its streams.
pub open spec fn of_process(event: SupervisorEvent) -> bool {
    event != SupervisorEvent::StdoutClosed && event != SupervisorEvent::StderrClosed
}

/// Each part of the state goes its own way: the phase of the wait follows
/// the events of the process alone, and a stream is open until the event
/// that closes it.
pub proof fn lemma_run_parts(start: Supervisor, events: Seq<SupervisorEvent>)
    ensures
        start.run(events).exit == phase_after(start.exit, events),
        start.run(events).stdout_open == (start.stdout_open && !events.contains(
            SupervisorEvent::StdoutClosed,
        )),
        start.run(events).stderr_open == (start.stderr_open && !events.contains(
            SupervisorEvent::StderrClosed,
        )),
    decreases events.len(),
{
    if events.len() > 0 {
        let earlier = events.drop_last();
        lemma_run_parts(start, earlier);
        assert forall|event: SupervisorEvent|
            events.contains(event) <==> earlier.contains(event) || events.last() == event by {
            if earlier.contains(event) {
                let i = choose|i: int| 0 <= i < earlier.len() && earlier[i] == event;
                assert(events[i] == event);
            }
            if events.contains(event) {
                let i = choose|i: int| 0 <= i < events.len() && events[i] == event;
                if i < earlier.len() {
                    assert(earlier[i] == event);
                }
            }
            if events.last() == event {
                assert(events[events.len() - 1] == event);
            }
        }
    }
}

/// The status record is told to be brought to its end at most once, and
/// exactly when the process has ended and both streams are copied; the
/// outcome told is the one with which the process ended.
pub proof fn lemma_finalized_once(events: Seq<SupervisorEvent>)
    ensures
        ({
            let end = Supervisor::spec_new().run(events);
            let told = Supervisor::spec_new().outcomes(events);
            &&& told.len() <= 1
            &&& told.len() == 1 <==> end.finalized
            &&& end.finalized <==> end.exit is Exited && !end.stdout_open && !end.stderr_open
            &&& end.finalized ==> told[0] == end.exit->success
        }),
    decreases events.len(),
{
    if events.len() > 0 {
        lemma_finalized_once(events.drop_last());
    }
}

/// Events of the streams leave the phase of the wait as it is.
pub proof fn lemma_phase_ignores_streams(phase: ExitPhase, events: Seq<SupervisorEvent>)
    ensures
        phase_after(phase, events) == phase_after(phase, events.filter(|e| of_process(e))),
    decreases events.len(),
{
    if events.len() > 0 {
        lemma_phase_ignores_streams(phase, events.drop_last());
        reveal(Seq::filter);
        let kept = events.filter(|e| of_process(e));
        let earlier = events.drop_last().filter(|e| of_process(e));
        if of_process(events.last()) {
            assert(kept == earlier.push(events.last()));
            assert(kept.drop_last() =~= earlier);
        } else {
            assert(kept == earlier);
        }
    }
}

/// A process that ends by itself has its outcome recorded.
///
/// Whatever the order in which the exit and the ends of the two streams
/// come, once all three have come the status record has been told once to
/// be brought to its end, with the outcome of the exit.
pub proof fn lemma_exit_is_recorded(events: Seq<SupervisorEvent>, success: bool)
    requires
        events.filter(|e| of_process(e)) == seq![SupervisorEvent::Exited { success }],
        events.contains(SupervisorEvent::StdoutClosed),
        events.contains(SupervisorEvent::StderrClosed),
    ensures
        Supervisor::spec_new().run(events).finalized,
        Supervisor::spec_new().outcomes(events) == seq![success],
{
    let start = Supervisor::spec_new();
    let told = seq![SupervisorEvent::Exited { success }];
    lemma_run_parts(start, events);
    lemma_phase_ignores_streams(ExitPhase::Waiting, events);
    assert(told.drop_last() =~= Seq::<SupervisorEvent>::empty());
    assert(phase_after(ExitPhase::Waiting, told.drop_last()) == ExitPhase::Waiting);
    assert(phase_after(ExitPhase::Waiting, told) == ExitPhase::Exited { success });
    lemma_finalized_once(events);
    assert(start.outcomes(events) =~= seq![success]);
}

/// A process that runs into its timeout is killed and still has an outcome
/// recorded.
///
/// When the timeout passes the process is to be killed, and then its exit
/// is to be awaited. Once that exit and the ends of the two streams have
/// come, in whatever order, the status record has been told once to be
/// brought to its end, with the outcome of that exit.
pub proof fn lemma_timeout_is_recorded(events: Seq<SupervisorEvent>, success: bool)
    requires
        events.filter(|e| of_process(e)) == seq![
            SupervisorEvent::TimedOut,
            SupervisorEvent::Killed,
            SupervisorEvent::Exited { success },
        ],
        events.contains(SupervisorEvent::StdoutClosed),
        events.contains(SupervisorEvent::StderrClosed),
    ensures
        forall|state: Supervisor|
            state.exit == ExitPhase::Waiting ==> (#[trigger] state.spec_step(
                SupervisorEvent::TimedOut,
            )).1 == SupervisorAction::Kill,
        forall|state: Supervisor|
            state.exit == ExitPhase::Killing ==> (#[trigger] state.spec_step(
                SupervisorEvent::Killed,
            )).1 == SupervisorAction::Reap,
        Supervisor::spec_new().run(events).finalized,
        Supervisor::spec_new().outcomes(events) == seq![success],
{
    let start = Supervisor::spec_new();
    let told = seq![
        SupervisorEvent::TimedOut,
        SupervisorEvent::Killed,
        SupervisorEvent::Exited { success },
    ];
    lemma_run_parts(start, events);
    lemma_phase_ignores_streams(ExitPhase::Waiting, events);
    let two = told.drop_last();
    let one = two.drop_last();
    assert(one.drop_last() =~= Seq::<SupervisorEvent>::empty());
    assert(phase_after(ExitPhase::Waiting, one.drop_last()) == ExitPhase::Waiting);
    assert(phase_after(ExitPhase::Waiting, one) == ExitPhase::Killing);
    assert(phase_after(ExitPhase::Waiting, two) == ExitPhase::Reaping);
    assert(phase_after(ExitPhase::Waiting, told) == ExitPhase::Exited { success });
    lemma_finalized_once(events);
    assert(start.outcomes(events) =~= seq![success]);
}

/// Once waiting for the process or killing it has failed, the status record
/// is never told to be brought to its end.
pub proof fn lemma_lost_is_never_recorded(state: Supervisor, events: Seq<SupervisorEvent>)
    requires
        state.exit == ExitPhase::Lost,
    ensures
        state.run(events).exit == ExitPhase::Lost,
        state.run(events).finalized == state.finalized,
        state.outcomes(events) == Seq::<bool>::empty(),
    decreases events.len(),
{
    if events.len() > 0 {
        lemma_lost_is_never_recorded(state, events.drop_last());
    }
}

} // verus!
