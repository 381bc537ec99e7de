use vstd::prelude::*;

verus! {

/// The kinds of failure that the engine reports.
#[derive(Debug, Clone, Copy, PartialEq, Eq, Structural)]
pub enum EngineError {
    /// A required setting is missing, or an operation got the wrong number of files.
    ConfigurationError,
    /// A builder or batch was used against its rules (a null on a non-nullable
    /// column, a value of the wrong type, columns of unequal length).
    InvariantViolation,
    /// The shared upload buffer is already borrowed.
    ResourceBusy,
    /// The file-format encoder failed.
    EncodingError,
    /// The object store failed.
    StorageIoError,
    /// A serialized schema could not be read.
    SchemaError,
}

} // verus!
