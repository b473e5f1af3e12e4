use snap_backend::pump::{PumpState, ReaderAction, ReaderEvent, WriterAction, WriterEvent};

#[test]
fn disconnect_fires_once_when_close_races() {
    let mut state = PumpState::new();
    assert_eq!(state.reader_step(ReaderEvent::Decoded), ReaderAction::Dispatch);
    assert_eq!(state.reader_step(ReaderEvent::StreamEnded), ReaderAction::Disconnect);
    state.close();
    state.close();
    assert_eq!(state.reader_step(ReaderEvent::Cancelled), ReaderAction::Stopped);
    assert_eq!(state.reader_step(ReaderEvent::StreamEnded), ReaderAction::Stopped);
}

#[test]
fn close_first_then_stream_end_fires_once() {
    let mut state = PumpState::new();
    state.close();
    assert_eq!(state.reader_step(ReaderEvent::StreamEnded), ReaderAction::Disconnect);
    assert_eq!(state.reader_step(ReaderEvent::StreamEnded), ReaderAction::Stopped);
}

#[test]
fn malformed_frames_are_skipped() {
    let mut state = PumpState::new();
    assert_eq!(state.reader_step(ReaderEvent::Malformed), ReaderAction::Skip);
    assert_eq!(state.reader_step(ReaderEvent::Decoded), ReaderAction::Dispatch);
}

#[test]
fn write_failure_shuts_the_pump() {
    let mut state = PumpState::new();
    assert_eq!(state.writer_step(WriterEvent::Queued), WriterAction::Write);
    assert!(state.accepts_sends());
    assert_eq!(state.writer_step(WriterEvent::WriteFailed), WriterAction::Stop);
    assert!(!state.accepts_sends());
    assert_eq!(state.writer_step(WriterEvent::Queued), WriterAction::Stop);
    assert_eq!(state.reader_step(ReaderEvent::Decoded), ReaderAction::Disconnect);
}

#[test]
fn full_outbound_queue_rejects_without_blocking() {
    let state = PumpState::new();
    let (tx, mut rx) = tokio::sync::mpsc::channel::<String>(1);
    assert!(state.accepts_sends());
    assert!(tx.try_send("one".to_string()).is_ok());
    assert!(tx.try_send("two".to_string()).is_err());
    assert_eq!(rx.try_recv().ok(), Some("one".to_string()));
    assert!(rx.try_recv().is_err());
    assert!(tx.try_send("three".to_string()).is_ok());
}
