use vstd::prelude::*;

verus! {

/// The ways the pipeline can fail.
#[derive(Clone, Copy, Debug, PartialEq, Eq, Structural)]
pub enum PipelineError {
    /// The bytes are not a supported image, are truncated, or the image
    /// exceeds the accepted dimensions.
    DecodeError,
    /// Degenerate or mismatched dimensions.
    ShapeError,
    /// The model description is missing, corrupt or inconsistent.
    ModelLoadError,
    /// The forward pass could not run on the given tensor.
    InferenceError,
}

} // verus!
