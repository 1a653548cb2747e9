//! Inference post-processing for a crop classifier: image bytes are decoded,
//! letterboxed into a fixed-shape tensor, run through a model, and the raw
//! output is turned into confident, de-duplicated, ranked predictions.
//!
//! Probabilities and thresholds are fixed-point integers over `PROB_SCALE`.

mod decoder;
mod engine;
mod error;
mod geometry;
mod model_source;
mod pipeline;
mod preprocess;
mod suppress;

pub use error::PipelineError;
pub use geometry::{BBox, Candidate, PROB_SCALE};
pub use preprocess::{
    letterbox, prepare, Image, Letterbox, TargetShape, Tensor, CHANNELS, FILL_VALUE,
    MAX_IMAGE_SIDE, MAX_TARGET_SIDE, NORM_FACTOR,
};
pub use suppress::{sort_by_confidence, suppress, SuppressConfig};
pub use decoder::{decode_output, raw_output, Head, RawOutput, BOX_PARAMS};
pub use engine::{evaluate, load_model, Model};
pub use pipeline::{decode_image, image_from_decoded, postprocess, preprocess_bytes, run, PipelineConfig};
pub use model_source::{parse_model, HEADER_LEN, KIND_CLASSIFICATION, KIND_DETECTION};
