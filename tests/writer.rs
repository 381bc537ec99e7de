use lakesoul_io::error::EngineError;
use lakesoul_io::writer::{
    choose_writer, BatchQueue, PendingUploadBuffer, WriterKind, WriterSession, WriterState,
    SORT_QUEUE_CAPACITY,
};

#[test]
fn writer_needs_exactly_one_file() {
    let none: Vec<String> = vec![];
    let two = vec!["a".to_string(), "b".to_string()];
    assert_eq!(choose_writer(&none, &vec![]), Err(EngineError::ConfigurationError));
    assert_eq!(choose_writer(&two, &vec![]), Err(EngineError::ConfigurationError));
}

#[test]
fn primary_key_selects_the_sorting_pipeline() {
    let one = vec!["s3://bucket/file.parquet".to_string()];
    assert_eq!(choose_writer(&one, &vec![]), Ok(WriterKind::Plain));
    assert_eq!(choose_writer(&one, &vec!["id".to_string()]), Ok(WriterKind::Sorted));
}

#[test]
fn second_borrow_of_the_upload_buffer_is_busy() {
    let mut b = PendingUploadBuffer::new();
    assert_eq!(b.try_borrow(), Ok(()));
    b.append(&vec![1, 2, 3]).unwrap();
    assert_eq!(b.try_borrow(), Err(EngineError::ResourceBusy));
    assert_eq!(b.len(), 3);
    assert_eq!(b.drain(), Ok(vec![1, 2, 3]));
    assert_eq!(b.len(), 0);
    b.release();
    assert_eq!(b.append(&vec![4]), Err(EngineError::ResourceBusy));
    assert_eq!(b.drain(), Err(EngineError::ResourceBusy));
}

#[test]
fn full_queue_hands_the_batch_back() {
    let mut q: BatchQueue<u32> = BatchQueue::new(SORT_QUEUE_CAPACITY);
    assert_eq!(q.try_push(1), Ok(()));
    assert_eq!(q.try_push(2), Ok(()));
    assert!(q.is_full());
    assert_eq!(q.try_push(3), Err(3));
    assert_eq!(q.len(), 2);
    assert_eq!(q.pop(), Some(1));
    assert_eq!(q.try_push(3), Ok(()));
    assert_eq!(q.pop(), Some(2));
    assert_eq!(q.pop(), Some(3));
    assert_eq!(q.pop(), None);
}

#[test]
fn failed_write_poisons_the_writer() {
    let mut s = WriterSession::new();
    assert_eq!(s.begin_write(), Ok(()));
    assert!(s.should_upload(10));
    assert!(!s.should_upload(0));
    s.end_write(Err(EngineError::StorageIoError));
    assert_eq!(s.state(), WriterState::Poisoned(EngineError::StorageIoError));
    s.end_write(Err(EngineError::EncodingError));
    assert_eq!(s.begin_write(), Err(EngineError::StorageIoError));
    assert_eq!(s.begin_close(), Err(EngineError::StorageIoError));
    assert_eq!(s.state(), WriterState::Closed);
}

#[test]
fn writer_closes_once() {
    let mut s = WriterSession::new();
    s.end_write(Ok(()));
    assert_eq!(s.begin_close(), Ok(()));
    assert_eq!(s.begin_close(), Err(EngineError::InvariantViolation));
    assert_eq!(s.begin_write(), Err(EngineError::InvariantViolation));
}
