use upman::command::Command;
use upman::registry::Registry;
use upman::runner::{completion_note, RunAction, RunDriver, RunEvent};

fn registry_with(entries: &[&str]) -> Registry {
    let mut r = Registry::new();
    for e in entries {
        r.add(e, None).unwrap();
    }
    r
}

#[test]
fn run_single_command_with_output_shown() {
    let r = registry_with(&["echo hi"]);
    let mut d = RunDriver::new(&r);
    let text = d.current_command().unwrap();
    assert_eq!(text, "echo hi");
    let c = Command::prepare(&text).unwrap();
    assert_eq!(c.program, "echo");
    assert_eq!(c.args, vec!["hi".to_string()]);
    assert_eq!(d.record(RunEvent::Launched), RunAction::Poll);
    assert_eq!(d.record(RunEvent::StillRunning), RunAction::Poll);
    assert_eq!(d.record(RunEvent::Exited), RunAction::Complete);
    assert_eq!(completion_note(true, "hi\n"), None);
    assert!(d.is_done());
    assert_eq!(d.current_command(), None);
}

#[test]
fn launch_failure_moves_on() {
    let r = registry_with(&["nosuchprogram", "echo b"]);
    let mut d = RunDriver::new(&r);
    assert_eq!(d.record(RunEvent::LaunchFailed), RunAction::ReportLaunchFailure);
    assert_eq!(d.current_command(), Some("echo b".to_string()));
    assert!(!d.is_done());
    assert_eq!(d.record(RunEvent::Launched), RunAction::Poll);
    assert_eq!(d.record(RunEvent::Exited), RunAction::Complete);
    assert!(d.is_done());
}

#[test]
fn poll_failure_keeps_waiting() {
    let r = registry_with(&["sleep 1", "echo b"]);
    let mut d = RunDriver::new(&r);
    d.record(RunEvent::Launched);
    assert_eq!(d.record(RunEvent::PollFailed), RunAction::ReportPollFailure);
    assert_eq!(d.current_command(), Some("sleep 1".to_string()));
    assert_eq!(d.record(RunEvent::Exited), RunAction::Complete);
    assert_eq!(d.current_command(), Some("echo b".to_string()));
}

#[test]
fn out_of_place_events_are_ignored() {
    let r = registry_with(&["echo a"]);
    let mut d = RunDriver::new(&r);
    assert_eq!(d.record(RunEvent::Exited), RunAction::Ignore);
    assert_eq!(d.record(RunEvent::StillRunning), RunAction::Ignore);
    assert_eq!(d.current_command(), Some("echo a".to_string()));
    d.record(RunEvent::Launched);
    assert_eq!(d.record(RunEvent::LaunchFailed), RunAction::Ignore);
    assert_eq!(d.current_command(), Some("echo a".to_string()));
}

#[test]
fn empty_registry_run_is_done() {
    let d = RunDriver::new(&Registry::new());
    assert!(d.is_done());
    assert_eq!(d.current_command(), None);
}

#[test]
fn completion_notes_for_captured_output() {
    assert_eq!(completion_note(false, ""), Some("No output".to_string()));
    assert_eq!(completion_note(false, " \n"), Some("No output".to_string()));
    assert_eq!(completion_note(false, "hi\n"), Some("Output: hi\n".to_string()));
}
