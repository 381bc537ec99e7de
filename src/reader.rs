use vstd::prelude::*;

use crate::error::EngineError;

verus! {

/// Lifecycle of a reader.
#[derive(Debug, Clone, Copy, PartialEq, Eq, Structural)]
pub enum ReaderState {
    /// Configured; the scan has not been set up.
    Created,
    /// The scan is set up and yields batches.
    Streaming,
    /// The scan has yielded its last batch.
    Finished,
}

/// What the reader does when asked for the next batch.
#[derive(Debug, Clone, Copy, PartialEq, Eq, Structural)]
pub enum NextStep {
    /// Poll the scan for a batch.
    Poll,
    /// Report the end of the data without polling.
    End,
}

/// The file that a reader scans: the first configured one. A reader with no
/// file is a configuration error.
pub fn reader_file(files: &Vec<String>) -> (r: Result<usize, EngineError>)
    ensures
        files@.len() == 0 ==> r == Err::<usize, EngineError>(EngineError::ConfigurationError),
        files@.len() > 0 ==> r == Ok::<usize, EngineError>(0),
{
    if files.len() == 0 {
        Err(EngineError::ConfigurationError)
    } else {
        Ok(0)
    }
}

/// The decisions of a reader between its outside work: the scan is set up
/// once, batches are asked for only after that, and the end is final.
pub struct ReaderSession {
    state: ReaderState,
}

impl ReaderSession {
    pub closed spec fn spec_state(&self) -> ReaderState {
        self.state
    }

    pub fn new() -> (r: Self)
        ensures
            r.spec_state() == ReaderState::Created,
    {
        ReaderSession { state: ReaderState::Created }
    }

    pub fn state(&self) -> (r: ReaderState)
        ensures
            r == self.spec_state(),
    {
        self.state
    }

    /// Asked before the scan is set up: only a new reader may start.
    pub fn begin_start(&self) -> (r: Result<(), EngineError>)
        ensures
            self.spec_state() == ReaderState::Created ==> r is Ok,
            self.spec_state() != ReaderState::Created ==> r == Err::<(), EngineError>(
                EngineError::InvariantViolation,
            ),
    {
        match self.state {
            ReaderState::Created => Ok(()),
            _ => Err(EngineError::InvariantViolation),
        }
    }

    /// Records how setting up the scan went; a failed start leaves the
    /// reader unstarted.
    pub fn end_start(&mut self, outcome: Result<(), EngineError>)
        requires
            old(self).spec_state() == ReaderState::Created,
        ensures
            outcome is Ok ==> final(self).spec_state() == ReaderState::Streaming,
            outcome is Err ==> final(self).spec_state() == ReaderState::Created,
    {
        if outcome.is_ok() {
            self.state = ReaderState::Streaming;
        }
    }

    /// Asked for the next batch: a reader that was not started refuses, one
    /// that has ended reports the end again.
    pub fn next_step(&self) -> (r: Result<NextStep, EngineError>)
        ensures
            self.spec_state() == ReaderState::Created ==> r == Err::<NextStep, EngineError>(
                EngineError::InvariantViolation,
            ),
            self.spec_state() == ReaderState::Streaming ==> r == Ok::<NextStep, EngineError>(
                NextStep::Poll,
            ),
            self.spec_state() == ReaderState::Finished ==> r == Ok::<NextStep, EngineError>(
                NextStep::End,
            ),
    {
        match self.state {
            ReaderState::Created => Err(EngineError::InvariantViolation),
            ReaderState::Streaming => Ok(NextStep::Poll),
            ReaderState::Finished => Ok(NextStep::End),
        }
    }

    /// Records what a poll gave: no batch means the scan has ended.
    pub fn end_poll(&mut self, got_batch: bool)
        requires
            old(self).spec_state() == ReaderState::Streaming,
        ensures
            got_batch ==> final(self).spec_state() == ReaderState::Streaming,
            !got_batch ==> final(self).spec_state() == ReaderState::Finished,
    {
        if !got_batch {
            self.state = ReaderState::Finished;
        }
    }
}

} // verus!
