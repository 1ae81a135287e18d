//! Error taxonomy of the pipeline.
//!
//! Synchronous pre-checks fail the triggering call with a user-visible
//! reason; everything inside a background ingestion job is caught at the job
//! boundary and converted to the `Error` ledger status plus a generic
//! message, so internal detail never leaks to the UI.

use vstd::prelude::*;
use vstd::string::StringExecFns;
use vstd::string::StrSliceExecFns;

verus! {

/// What can go wrong in the ingestion-and-retrieval pipeline.
#[derive(Clone, Debug, PartialEq, Eq)]
pub enum PipelineError {
    /// The uploaded file's extension is none of the supported ones; the
    /// offending extension is carried for the user-visible reason.
    UnsupportedFormat(String),
    /// The file's content could not be turned into text, or held none.
    ExtractionFailure,
    /// The embedding engine failed on a query or a batch; the whole batch is
    /// aborted, no partial vectors are kept.
    EmbeddingFailure,
    /// The vector index rejected a bulk append.
    IndexWriteFailure,
    /// A scoped nearest-neighbor query failed.
    IndexSearchFailure,
    /// The relational record of attachments could not be read or written.
    LedgerFailure,
    /// The external language model did not answer.
    LanguageModelFailure,
}

/// The user-facing reason for each error, as a sequence of characters.
pub open spec fn reason_spec(e: PipelineError) -> Seq<char> {
    match e {
        PipelineError::UnsupportedFormat(ext) => "unsupported file format: ."@ + ext@,
        PipelineError::ExtractionFailure => "could not extract text from the file"@,
        PipelineError::EmbeddingFailure => "could not generate embeddings"@,
        PipelineError::IndexWriteFailure => "could not write to the vector index"@,
        PipelineError::IndexSearchFailure => "could not search the vector index"@,
        PipelineError::LedgerFailure => "could not update the attachment ledger"@,
        PipelineError::LanguageModelFailure => "the language model did not answer"@,
    }
}

impl PipelineError {
    /// The user-visible reason; internal detail is never part of it.
    pub fn reason(&self) -> (r: String)
        ensures
            r@ == reason_spec(*self),
    {
        match self {
            PipelineError::UnsupportedFormat(ext) => {
                let mut r = "unsupported file format: .".to_owned();
                r.append(ext.as_str());
                r
            },
            PipelineError::ExtractionFailure => "could not extract text from the file".to_owned(),
            PipelineError::EmbeddingFailure => "could not generate embeddings".to_owned(),
            PipelineError::IndexWriteFailure => "could not write to the vector index".to_owned(),
            PipelineError::IndexSearchFailure => "could not search the vector index".to_owned(),
            PipelineError::LedgerFailure => "could not update the attachment ledger".to_owned(),
            PipelineError::LanguageModelFailure => "the language model did not answer".to_owned(),
        }
    }
}

/// The error shape handed to the UI layer: a single opaque reason.
#[derive(Clone, Debug)]
pub struct CommandError {
    pub reason: String,
}

impl CommandError {
    /// Converts a pipeline error into the opaque shape the UI receives.
    pub fn from(e: PipelineError) -> (r: CommandError)
        ensures
            r.reason@ == reason_spec(e),
    {
        CommandError { reason: e.reason() }
    }
}

} // verus!
