use lakesoul_io::error::EngineError;
use lakesoul_io::reader::{reader_file, NextStep, ReaderSession, ReaderState};

#[test]
fn reader_needs_a_file_and_reads_the_first() {
    assert_eq!(reader_file(&vec![]), Err(EngineError::ConfigurationError));
    assert_eq!(reader_file(&vec!["a.parquet".to_string(), "b.parquet".to_string()]), Ok(0));
}

#[test]
fn reading_before_start_is_refused() {
    let s = ReaderSession::new();
    assert_eq!(s.next_step(), Err(EngineError::InvariantViolation));
}

#[test]
fn reader_starts_once_and_ends_for_good() {
    let mut s = ReaderSession::new();
    assert_eq!(s.begin_start(), Ok(()));
    s.end_start(Err(EngineError::StorageIoError));
    assert_eq!(s.state(), ReaderState::Created);
    assert_eq!(s.begin_start(), Ok(()));
    s.end_start(Ok(()));
    assert_eq!(s.begin_start(), Err(EngineError::InvariantViolation));
    assert_eq!(s.next_step(), Ok(NextStep::Poll));
    s.end_poll(true);
    assert_eq!(s.next_step(), Ok(NextStep::Poll));
    s.end_poll(false);
    assert_eq!(s.state(), ReaderState::Finished);
    assert_eq!(s.next_step(), Ok(NextStep::End));
}
