use radiolog::dispatch::{handle_read_event, sink_failure_action, tabular_row, LoopAction,
    ReadEvent, SinkFailure};
use radiolog::framer::LineFramer;
use radiolog::lifecycle::{Lifecycle, LifecycleState};

#[test]
fn begin_sends_the_start_command() {
    let mut session = Lifecycle::new();
    assert_eq!(session.begin(), "radio rx 0\r\n");
    assert!(session.should_run());
}

#[test]
fn interrupt_sends_the_stop_command_once() {
    let mut session = Lifecycle::new();
    session.begin();
    assert_eq!(session.interrupt(), Some("radio rxstop\r\n"));
    assert!(!session.should_run());
    // a second interrupt must not send again
    assert_eq!(session.interrupt(), None);
    session.finish();
    assert_eq!(session.interrupt(), None);
}

#[test]
fn interrupt_before_begin_sends_nothing() {
    let mut session = Lifecycle::new();
    assert_eq!(session.interrupt(), None);
    assert!(!session.should_run());
}

#[test]
fn lifecycle_states_move_only_forward() {
    let mut session = Lifecycle::new();
    assert_eq!(session.current_state(), LifecycleState::NotStarted);
    assert!(!session.should_run());
    session.begin();
    assert_eq!(session.current_state(), LifecycleState::Running);
    assert!(session.should_run());
    session.interrupt();
    assert_eq!(session.current_state(), LifecycleState::Stopping);
    assert!(!session.should_run());
    session.finish();
    assert_eq!(session.current_state(), LifecycleState::Stopped);
    assert!(!session.should_run());
}

#[test]
fn timeout_dispatches_nothing_and_continues() {
    let mut f = LineFramer::new();
    assert!(f.append_chunk(b"pend"));
    let (lines, action) = handle_read_event(&mut f, ReadEvent::TimedOut);
    assert_eq!(lines, Vec::<String>::new());
    assert_eq!(action, LoopAction::Continue);
    // the pending bytes were kept across the timeout
    let (lines, action) = handle_read_event(&mut f, ReadEvent::Data(b"ing x\r\n".to_vec()));
    assert_eq!(lines, vec!["pending x".to_string()]);
    assert_eq!(action, LoopAction::Continue);
}

#[test]
fn interrupted_read_exits_cleanly() {
    let mut f = LineFramer::new();
    let (lines, action) = handle_read_event(&mut f, ReadEvent::Interrupted);
    assert!(lines.is_empty());
    assert_eq!(action, LoopAction::ExitSuccess);
}

#[test]
fn failed_read_is_fatal() {
    let mut f = LineFramer::new();
    let (lines, action) = handle_read_event(&mut f, ReadEvent::Failed);
    assert!(lines.is_empty());
    assert_eq!(action, LoopAction::Fatal);
}

#[test]
fn invalid_chunk_is_skipped_and_the_loop_continues() {
    let mut f = LineFramer::new();
    let (lines, action) = handle_read_event(&mut f, ReadEvent::Data(vec![0xC0, 0x20]));
    assert!(lines.is_empty());
    assert_eq!(action, LoopAction::Continue);
}

#[test]
fn missing_destination_is_fatal_other_sink_failures_are_not() {
    assert_eq!(
        sink_failure_action(&SinkFailure::MissingDestination),
        LoopAction::Fatal
    );
    assert_eq!(sink_failure_action(&SinkFailure::Other), LoopAction::Continue);
}

#[test]
fn tabular_row_renders_one_csv_line() {
    let mut record: Vec<String> = vec![String::new(); 11];
    record[0] = "Hello".to_string();
    record[1] = "42".to_string();
    let row = tabular_row(&record);
    assert_eq!(row, b"Hello,42,,,,,,,,,\n".to_vec());
}

#[test]
fn tabular_row_quotes_fields_that_need_it() {
    let record: Vec<String> = vec!["a,b".to_string(), "plain".to_string()];
    let row = tabular_row(&record);
    assert_eq!(row, b"\"a,b\",plain\n".to_vec());
}
