use hookd::supervisor::{ExitPhase, Supervisor, SupervisorAction, SupervisorEvent};

fn run(events: &[SupervisorEvent]) -> (Supervisor, Vec<SupervisorAction>) {
    let mut state = Supervisor::new();
    let mut actions = Vec::new();
    for event in events {
        let (next, action) = state.step(*event);
        state = next;
        actions.push(action);
    }
    (state, actions)
}

#[test]
fn a_new_supervisor_waits_with_both_streams_open() {
    assert_eq!(
        Supervisor::new(),
        Supervisor {
            exit: ExitPhase::Waiting,
            stdout_open: true,
            stderr_open: true,
            finalized: false
        }
    );
}

#[test]
fn exit_with_code_0_is_recorded_as_success() {
    let (state, actions) = run(&[
        SupervisorEvent::StdoutClosed,
        SupervisorEvent::StderrClosed,
        SupervisorEvent::Exited { success: true },
    ]);
    assert_eq!(
        actions,
        vec![
            SupervisorAction::Wait,
            SupervisorAction::Wait,
            SupervisorAction::Finalize { success: true }
        ]
    );
    assert!(state.finalized);
    assert_eq!(state.exit, ExitPhase::Exited { success: true });
}

#[test]
fn exit_with_another_code_is_recorded_as_failure() {
    let (_, actions) = run(&[
        SupervisorEvent::Exited { success: false },
        SupervisorEvent::StderrClosed,
        SupervisorEvent::StdoutClosed,
    ]);
    assert_eq!(
        actions,
        vec![
            SupervisorAction::Wait,
            SupervisorAction::Wait,
            SupervisorAction::Finalize { success: false }
        ]
    );
}

#[test]
fn record_is_not_finalized_before_both_streams_are_copied() {
    let (state, actions) =
        run(&[SupervisorEvent::Exited { success: true }, SupervisorEvent::StdoutClosed]);
    assert_eq!(actions, vec![SupervisorAction::Wait, SupervisorAction::Wait]);
    assert!(!state.finalized);
    assert!(state.stderr_open);
    assert!(!state.stdout_open);
}

#[test]
fn timeout_kills_the_process_and_still_finalizes() {
    let (state, actions) = run(&[
        SupervisorEvent::TimedOut,
        SupervisorEvent::Killed,
        SupervisorEvent::StdoutClosed,
        SupervisorEvent::Exited { success: false },
        SupervisorEvent::StderrClosed,
    ]);
    assert_eq!(
        actions,
        vec![
            SupervisorAction::Kill,
            SupervisorAction::Reap,
            SupervisorAction::Wait,
            SupervisorAction::Wait,
            SupervisorAction::Finalize { success: false }
        ]
    );
    assert!(state.finalized);
}

#[test]
fn record_is_finalized_once() {
    let (state, actions) = run(&[
        SupervisorEvent::StdoutClosed,
        SupervisorEvent::StderrClosed,
        SupervisorEvent::Exited { success: true },
        SupervisorEvent::StdoutClosed,
        SupervisorEvent::Exited { success: false },
        SupervisorEvent::TimedOut,
        SupervisorEvent::Failed,
    ]);
    let finalized =
        actions.iter().filter(|action| matches!(action, SupervisorAction::Finalize { .. })).count();
    assert_eq!(finalized, 1);
    assert_eq!(actions[3..], vec![SupervisorAction::Wait; 4]);
    assert_eq!(state.exit, ExitPhase::Exited { success: true });
}

#[test]
fn failed_wait_abandons_the_instance() {
    let (state, actions) = run(&[
        SupervisorEvent::Failed,
        SupervisorEvent::StdoutClosed,
        SupervisorEvent::StderrClosed,
        SupervisorEvent::Exited { success: true },
    ]);
    assert_eq!(
        actions,
        vec![
            SupervisorAction::Abandon,
            SupervisorAction::Wait,
            SupervisorAction::Wait,
            SupervisorAction::Wait
        ]
    );
    assert_eq!(state.exit, ExitPhase::Lost);
    assert!(!state.finalized);
}

#[test]
fn failed_kill_abandons_the_instance() {
    let (state, actions) = run(&[SupervisorEvent::TimedOut, SupervisorEvent::Failed]);
    assert_eq!(actions, vec![SupervisorAction::Kill, SupervisorAction::Abandon]);
    assert_eq!(state.exit, ExitPhase::Lost);
    let (state, actions) =
        run(&[SupervisorEvent::TimedOut, SupervisorEvent::Killed, SupervisorEvent::Failed]);
    assert_eq!(
        actions,
        vec![SupervisorAction::Kill, SupervisorAction::Reap, SupervisorAction::Abandon]
    );
    assert_eq!(state.exit, ExitPhase::Lost);
}

#[test]
fn events_out_of_turn_change_nothing() {
    assert_eq!(ExitPhase::Waiting.after(SupervisorEvent::Killed), ExitPhase::Waiting);
    assert_eq!(ExitPhase::Killing.after(SupervisorEvent::TimedOut), ExitPhase::Killing);
    assert_eq!(
        ExitPhase::Killing.after(SupervisorEvent::Exited { success: true }),
        ExitPhase::Killing
    );
    assert_eq!(ExitPhase::Reaping.after(SupervisorEvent::Killed), ExitPhase::Reaping);
    assert_eq!(ExitPhase::Lost.after(SupervisorEvent::Exited { success: true }), ExitPhase::Lost);
    assert_eq!(
        ExitPhase::Exited { success: false }.after(SupervisorEvent::Exited { success: true }),
        ExitPhase::Exited { success: false }
    );
    assert_eq!(ExitPhase::Waiting.after(SupervisorEvent::StdoutClosed), ExitPhase::Waiting);
}

#[test]
fn each_phase_follows_its_event() {
    assert_eq!(ExitPhase::Waiting.after(SupervisorEvent::TimedOut), ExitPhase::Killing);
    assert_eq!(ExitPhase::Killing.after(SupervisorEvent::Killed), ExitPhase::Reaping);
    assert_eq!(
        ExitPhase::Reaping.after(SupervisorEvent::Exited { success: true }),
        ExitPhase::Exited { success: true }
    );
    assert_eq!(
        ExitPhase::Waiting.after(SupervisorEvent::Exited { success: false }),
        ExitPhase::Exited { success: false }
    );
    assert_eq!(ExitPhase::Reaping.after(SupervisorEvent::Failed), ExitPhase::Lost);
}
