//! Error taxonomy of the pipeline. A fatal error aborts the whole run and
//! names the stage that failed; a run with zero speech intervals is not an
//! error — it degenerates to a single full-length non-speech span.

use vstd::prelude::*;

verus! {

/// Why a pipeline run aborted.
#[derive(Clone, Copy, Debug, PartialEq, Eq, Structural)]
pub enum PipelineError {
    /// The probability stream is empty: nothing to segment.
    EmptyProbabilities,
    /// The timeline length is zero or negative: nothing to cover.
    NonPositiveLength,
    /// The external media tool reported failure for the given span's
    /// terminal operation; under hard failure policy the plan stops there.
    ExternalProcess { span: usize },
}

} // verus!
