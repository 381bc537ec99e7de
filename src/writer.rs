use vstd::prelude::*;

use crate::error::EngineError;

verus! {

/// Batches that may wait between the caller and the sort stage.
pub const SORT_QUEUE_CAPACITY: usize = 2;

/// Which writer a table gets.
#[derive(Debug, Clone, Copy, PartialEq, Eq, Structural)]
pub enum WriterKind {
    /// Batches go to the upload writer in the order they are submitted.
    Plain,
    /// Batches are sorted by primary key before they reach the upload writer.
    Sorted,
}

/// Chooses the writer for a configuration: it must name exactly one file, and
/// a table with a primary key gets the sorting pipeline.
pub fn choose_writer(files: &Vec<String>, primary_keys: &Vec<String>) -> (r: Result<
    WriterKind,
    EngineError,
>)
    ensures
        files@.len() != 1 ==> r == Err::<WriterKind, EngineError>(EngineError::ConfigurationError),
        files@.len() == 1 && primary_keys@.len() > 0 ==> r == Ok::<WriterKind, EngineError>(
            WriterKind::Sorted,
        ),
        files@.len() == 1 && primary_keys@.len() == 0 ==> r == Ok::<WriterKind, EngineError>(
            WriterKind::Plain,
        ),
{
    if files.len() != 1 {
        return Err(EngineError::ConfigurationError);
    }
    if primary_keys.len() > 0 {
        Ok(WriterKind::Sorted)
    } else {
        Ok(WriterKind::Plain)
    }
}

/// The bytes that the encoder has produced and the network has not yet taken,
/// with the single borrow that may change them.
pub struct PendingUploadBuffer {
    bytes: Vec<u8>,
    borrowed: bool,
}

impl PendingUploadBuffer {
    pub closed spec fn contents(&self) -> Seq<u8> {
        self.bytes@
    }

    pub closed spec fn is_borrowed(&self) -> bool {
        self.borrowed
    }

    pub fn new() -> (r: Self)
        ensures
            r.contents().len() == 0,
            !r.is_borrowed(),
    {
        PendingUploadBuffer { bytes: Vec::new(), borrowed: false }
    }

    pub fn len(&self) -> (r: usize)
        ensures
            r as nat == self.contents().len(),
    {
        self.bytes.len()
    }

    /// Takes the borrow. A second borrow while one is held fails at once with
    /// `ResourceBusy` and changes nothing.
    pub fn try_borrow(&mut self) -> (r: Result<(), EngineError>)
        ensures
            final(self).contents() == old(self).contents(),
            final(self).is_borrowed(),
            r == borrow_outcome(old(self).is_borrowed()),
    {
        if self.borrowed {
            return Err(EngineError::ResourceBusy);
        }
        self.borrowed = true;
        Ok(())
    }

    /// Gives the borrow back.
    pub fn release(&mut self)
        ensures
            final(self).contents() == old(self).contents(),
            !final(self).is_borrowed(),
    {
        self.borrowed = false;
    }

    /// Appends encoded bytes; only the holder of the borrow may.
    pub fn append(&mut self, data: &Vec<u8>) -> (r: Result<(), EngineError>)
        ensures
            final(self).is_borrowed() == old(self).is_borrowed(),
            old(self).is_borrowed() ==> r is Ok && final(self).contents() == old(self).contents()
                + data@,
            !old(self).is_borrowed() ==> r == Err::<(), EngineError>(EngineError::ResourceBusy)
                && final(self).contents() == old(self).contents(),
    {
        if !self.borrowed {
            return Err(EngineError::ResourceBusy);
        }
        let mut i: usize = 0;
        let ghost start = self.bytes@;
        while i < data.len()
            invariant
                i <= data@.len(),
                self.borrowed,
                self.bytes@ == start + data@.subrange(0, i as int),
            decreases data@.len() - i,
        {
            self.bytes.push(data[i]);
            proof {
                assert(self.bytes@ =~= start + data@.subrange(0, i + 1));
            }
            i += 1;
        }
        assert(data@.subrange(0, data@.len() as int) =~= data@);
        Ok(())
    }

    /// Hands every pending byte, in order, to the network side and leaves the
    /// buffer empty; only the holder of the borrow may.
    pub fn drain(&mut self) -> (r: Result<Vec<u8>, EngineError>)
        ensures
            final(self).is_borrowed() == old(self).is_borrowed(),
            old(self).is_borrowed() ==> r is Ok && r->Ok_0@ == old(self).contents()
                && final(self).contents().len() == 0,
            !old(self).is_borrowed() ==> r == Err::<Vec<u8>, EngineError>(EngineError::ResourceBusy)
                && final(self).contents() == old(self).contents(),
    {
        if !self.borrowed {
            return Err(EngineError::ResourceBusy);
        }
        let mut out: Vec<u8> = Vec::new();
        out.append(&mut self.bytes);
        Ok(out)
    }
}

/// What an attempt to borrow gives, by whether the buffer is borrowed already.
pub open spec fn borrow_outcome(borrowed: bool) -> Result<(), EngineError> {
    if borrowed {
        Err(EngineError::ResourceBusy)
    } else {
        Ok(())
    }
}

/// Two attempts to borrow the shared buffer without a release in between:
/// the first succeeds and leaves the buffer borrowed, so the second fails
/// with `ResourceBusy`; neither waits, and neither changes the bytes.
pub proof fn lemma_second_borrow_is_busy()
    ensures
        borrow_outcome(false) is Ok,
        borrow_outcome(true) == Err::<(), EngineError>(EngineError::ResourceBusy),
{
}

/// Lifecycle of a writer.
#[derive(Debug, Clone, Copy, PartialEq, Eq, Structural)]
pub enum WriterState {
    /// Accepts batches.
    Open,
    /// A write failed; the failure is kept and reported from then on.
    Poisoned(EngineError),
    /// Flushed and closed; nothing more may be done with it.
    Closed,
}

/// Whether a write may start in this state, and the error if not.
pub open spec fn write_admission(s: WriterState) -> Result<(), EngineError> {
    match s {
        WriterState::Open => Ok(()),
        WriterState::Poisoned(e) => Err(e),
        WriterState::Closed => Err(EngineError::InvariantViolation),
    }
}

/// The state after a write that had this outcome.
pub open spec fn state_after_write(s: WriterState, outcome: Result<(), EngineError>) -> WriterState {
    match (s, outcome) {
        (WriterState::Open, Err(e)) => WriterState::Poisoned(e),
        _ => s,
    }
}

/// What closing reports in this state; the writer is closed afterwards.
pub open spec fn close_admission(s: WriterState) -> Result<(), EngineError> {
    match s {
        WriterState::Open => Ok(()),
        WriterState::Poisoned(e) => Err(e),
        WriterState::Closed => Err(EngineError::InvariantViolation),
    }
}

/// The decisions of a writer between its outside work: whether a batch may
/// be written, what a failure does, whether the upload may be finalized.
pub struct WriterSession {
    state: WriterState,
}

impl WriterSession {
    pub closed spec fn spec_state(&self) -> WriterState {
        self.state
    }

    pub fn new() -> (r: Self)
        ensures
            r.spec_state() == WriterState::Open,
    {
        WriterSession { state: WriterState::Open }
    }

    pub fn state(&self) -> (r: WriterState)
        ensures
            r == self.spec_state(),
    {
        self.state
    }

    /// Asked before a batch is encoded: a poisoned writer reports its first
    /// failure, a closed one refuses.
    pub fn begin_write(&self) -> (r: Result<(), EngineError>)
        ensures
            r == write_admission(self.spec_state()),
    {
        match self.state {
            WriterState::Open => Ok(()),
            WriterState::Poisoned(e) => Err(e),
            WriterState::Closed => Err(EngineError::InvariantViolation),
        }
    }

    /// Records how the encode and upload of a batch went.
    pub fn end_write(&mut self, outcome: Result<(), EngineError>)
        ensures
            final(self).spec_state() == state_after_write(old(self).spec_state(), outcome),
    {
        match (self.state, outcome) {
            (WriterState::Open, Err(e)) => {
                self.state = WriterState::Poisoned(e);
            },
            _ => {},
        }
    }

    /// Whether the pending bytes call for an upload of a part.
    pub fn should_upload(&self, pending: usize) -> (r: bool)
        ensures
            r == (pending > 0),
    {
        pending > 0
    }

    /// Closes the writer once: `Ok` means the upload may be finalized. A
    /// poisoned writer reports its failure; closing twice is refused.
    pub fn begin_close(&mut self) -> (r: Result<(), EngineError>)
        ensures
            r == close_admission(old(self).spec_state()),
            final(self).spec_state() == WriterState::Closed,
    {
        let r = match self.state {
            WriterState::Open => Ok(()),
            WriterState::Poisoned(e) => Err(e),
            WriterState::Closed => Err(EngineError::InvariantViolation),
        };
        self.state = WriterState::Closed;
        r
    }
}

/// Once a write has failed, every later write and the close report that
/// same failure, whatever else happens to the writer in between.
pub proof fn lemma_poison_is_sticky(e: EngineError, outcomes: Seq<Result<(), EngineError>>)
    ensures
        write_admission(poisoned_after(e, outcomes)) == Err::<(), EngineError>(e),
        close_admission(poisoned_after(e, outcomes)) == Err::<(), EngineError>(e),
    decreases outcomes.len(),
{
    if outcomes.len() > 0 {
        lemma_poison_is_sticky(e, outcomes.drop_last());
    }
}

/// The state of a writer that a write failed with `e` and that then saw
/// further writes with these outcomes.
pub open spec fn poisoned_after(e: EngineError, outcomes: Seq<Result<(), EngineError>>) -> WriterState
    decreases outcomes.len(),
{
    if outcomes.len() == 0 {
        state_after_write(WriterState::Open, Err(e))
    } else {
        state_after_write(poisoned_after(e, outcomes.drop_last()), outcomes.last())
    }
}

/// A queue of at most `capacity` items between a producer and a consumer.
pub struct BatchQueue<T> {
    items: Vec<T>,
    capacity: usize,
}

impl<T> View for BatchQueue<T> {
    type V = Seq<T>;

    /// The waiting items, oldest first.
    closed spec fn view(&self) -> Seq<T> {
        self.items@
    }
}

impl<T> BatchQueue<T> {
    pub closed spec fn spec_capacity(&self) -> nat {
        self.capacity as nat
    }

    pub closed spec fn wf(&self) -> bool {
        0 < self.capacity && self.items@.len() <= self.capacity
    }

    pub fn new(capacity: usize) -> (r: Self)
        requires
            capacity > 0,
        ensures
            r.wf(),
            r@.len() == 0,
            r.spec_capacity() == capacity,
    {
        BatchQueue { items: Vec::new(), capacity }
    }

    pub fn len(&self) -> (r: usize)
        ensures
            r as nat == self@.len(),
    {
        self.items.len()
    }

    pub fn is_full(&self) -> (r: bool)
        ensures
            r == (self@.len() >= self.spec_capacity()),
    {
        self.items.len() >= self.capacity
    }

    /// Offers an item. A full queue refuses it and hands it back, so the
    /// producer waits and retries; no item is ever dropped.
    pub fn try_push(&mut self, item: T) -> (r: Result<(), T>)
        requires
            old(self).wf(),
        ensures
            final(self).wf(),
            final(self).spec_capacity() == old(self).spec_capacity(),
            old(self)@.len() < old(self).spec_capacity() ==> r is Ok && final(self)@ == old(self)@.push(item),
            old(self)@.len() >= old(self).spec_capacity() ==> r == Err::<(), T>(item) && final(self)@ == old(self)@,
    {
        if self.items.len() >= self.capacity {
            return Err(item);
        }
        self.items.push(item);
        Ok(())
    }

    /// Takes the oldest item, if any.
    pub fn pop(&mut self) -> (r: Option<T>)
        requires
            old(self).wf(),
        ensures
            final(self).wf(),
            final(self).spec_capacity() == old(self).spec_capacity(),
            old(self)@.len() == 0 ==> r is None && final(self)@ == old(self)@,
            old(self)@.len() > 0 ==> r == Some(old(self)@[0]) && final(self)@ == old(self)@.drop_first(),
    {
        if self.items.len() == 0 {
            return None;
        }
        let x = self.items.remove(0);
        assert(self.items@ =~= old(self)@.drop_first());
        Some(x)
    }
}

} // verus!
