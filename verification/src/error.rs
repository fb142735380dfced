//! The pipeline's failure taxonomy, with stage attribution.

use vstd::prelude::*;

verus! {

/// Why a pipeline invocation failed. A transient fetch failure is never
/// surfaced here: the retry loop either absorbs it or escalates it as
/// `RetriesExhausted`.
#[derive(Clone, Copy, PartialEq, Eq, Structural, Debug)]
pub enum ErrorKind {
    /// A required field of a source reference is empty.
    InvalidReference,
    /// The remote object does not exist; never retried.
    ObjectNotFound,
    /// The remote store refused access; never retried.
    AccessDenied,
    /// The local file does not exist; never retried.
    FileNotFound,
    /// A local read or write failed; never retried.
    IoError,
    /// Every attempt in the retry budget failed transiently.
    RetriesExhausted,
    /// The payload cannot be parsed as the declared format.
    CorruptPayload,
    /// The decoded or encoded table would have zero columns.
    EmptySchema,
    /// A value has no representation in the target format.
    UnsupportedType,
    /// The caller's cancellation signal was observed between attempts.
    Cancelled,
}

/// The stage of a pipeline invocation in which a failure arose.
#[derive(Clone, Copy, PartialEq, Eq, Structural, Debug)]
pub enum Stage {
    Resolving,
    Fetching,
    Decoding,
    Encoding,
    Writing,
}

/// A pipeline failure: which stage failed, and why.
#[derive(Clone, Copy, PartialEq, Eq, Structural, Debug)]
pub struct PipelineError {
    pub stage: Stage,
    pub kind: ErrorKind,
}

impl PipelineError {
    pub fn new(stage: Stage, kind: ErrorKind) -> (r: PipelineError)
        ensures
            r.stage == stage,
            r.kind == kind,
    {
        PipelineError { stage, kind }
    }
}

} // verus!
