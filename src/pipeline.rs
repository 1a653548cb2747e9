use vstd::prelude::*;
use crate::decoder::{decode_output, decoded, decoded_values, RawOutput};
use crate::engine::{evaluate, forward_at, Model};
use crate::error::PipelineError;
use crate::geometry::Candidate;
use crate::preprocess::{letterbox_of, prepare, sample_at, Image, Letterbox, TargetShape, Tensor, CHANNELS, MAX_IMAGE_SIDE};
use crate::suppress::{
    lemma_suppressed_keeps_confidence_floor, mutually_clear, sorted_desc, suppress, suppressed,
    SuppressConfig,
};

verus! {

/// What the JPEG decoder makes of `bytes`: `None` when they are not a
/// complete JPEG image; otherwise width, height and the 8-bit RGB pixels.
pub uninterp spec fn image_decoded(bytes: Seq<u8>) -> Option<(u32, u32, Seq<u8>)>;

/// Relies on `image::load_from_memory_with_format` with the format fixed to
/// JPEG, which takes the built-in decoder and no registered hook, and on
/// `DynamicImage::into_rgb8` and `ImageBuffer::into_raw` for the RGB pixels.
/// The outcome depends on the bytes alone.
#[verifier::external_body]
fn decode_rgb8(bytes: &[u8]) -> (r: Option<(u32, u32, Vec<u8>)>)
    ensures
        r matches Some((w, h, px)) ==> image_decoded(bytes@) == Some((w, h, px@)),
        r is None ==> image_decoded(bytes@) is None,
{
    match image::load_from_memory_with_format(bytes, image::ImageFormat::Jpeg) {
        Ok(img) => {
            let rgb = img.into_rgb8();
            Some((rgb.width(), rgb.height(), rgb.into_raw()))
        },
        Err(_) => None,
    }
}

/// Settings fixed at startup.
#[derive(Clone, Copy, Debug, PartialEq, Eq, Structural)]
pub struct PipelineConfig {
    pub target: TargetShape,
    pub max_side: u32,
    pub confidence_threshold: u32,
    pub suppression: SuppressConfig,
}

/// A decoded `w x h` image with `len` pixel bytes is accepted: within
/// `max_side` and the library's limit, and its buffer holds exactly its pixels.
pub open spec fn acceptable(w: u32, h: u32, len: int, max_side: u32) -> bool {
    w <= max_side && h <= max_side && w <= MAX_IMAGE_SIDE && h <= MAX_IMAGE_SIDE
        && len == w * h * CHANNELS
}

/// What decoding `bytes` yields: an image, or `DecodeError` for empty input,
/// bytes the JPEG decoder rejects, or an image that is not acceptable.
pub open spec fn decode_outcome(bytes: Seq<u8>, max_side: u32) -> Option<(u32, u32, Seq<u8>)> {
    if bytes.len() == 0 {
        None
    } else {
        match image_decoded(bytes) {
            Some((w, h, px)) => if acceptable(w, h, px.len() as int, max_side) {
                Some((w, h, px))
            } else {
                None
            },
            None => None,
        }
    }
}

/// `shape` and `data` are the letterboxed, normalised tensor of the `w x h`
/// image `px` for `target`, placed as `lb` says.
pub open spec fn prepared(
    shape: Seq<usize>,
    data: Seq<u16>,
    lb: Letterbox,
    w: u32,
    h: u32,
    px: Seq<u8>,
    target: TargetShape,
) -> bool {
    &&& shape == target.dims()
    &&& data.len() == CHANNELS * target.plane()
    &&& lb == letterbox_of(w as int, h as int, target)
    &&& lb.valid(target)
    &&& forall|i: int| 0 <= i < data.len() ==> #[trigger] data[i] == sample_at(px, lb, target, i)
}

/// Accepts or rejects what the JPEG decoder returned. `DecodeError` exactly when it
/// returned nothing or an image that is not acceptable.
pub fn image_from_decoded(d: Option<(u32, u32, Vec<u8>)>, max_side: u32) -> (r: Result<Image, PipelineError>)
    ensures
        match d {
            Some((w, h, px)) => if acceptable(w, h, px@.len() as int, max_side) {
                r matches Ok(img) && img.width == w && img.height == h && img.pixels@ == px@
            } else {
                r matches Err(e) && e == PipelineError::DecodeError
            },
            None => r matches Err(e) && e == PipelineError::DecodeError,
        },
{
    match d {
        Some((w, h, px)) => {
            if w > max_side || h > max_side || w > MAX_IMAGE_SIDE || h > MAX_IMAGE_SIDE {
                return Err(PipelineError::DecodeError);
            }
            let w64 = w as u64;
            let h64 = h as u64;
            proof {
                assert(w64 * h64 <= 0x1_0000 * 0x1_0000) by (nonlinear_arith)
                    requires w64 <= 0x1_0000, h64 <= 0x1_0000;
            }
            if px.len() as u64 != w64 * h64 * 3 {
                return Err(PipelineError::DecodeError);
            }
            Ok(Image { width: w, height: h, pixels: px })
        },
        None => Err(PipelineError::DecodeError),
    }
}

/// Decodes JPEG bytes into 8-bit RGB. Empty input, bytes that are not a
/// complete JPEG image, and images over `max_side` give `DecodeError`.
pub fn decode_image(bytes: &[u8], max_side: u32) -> (r: Result<Image, PipelineError>)
    ensures
        match decode_outcome(bytes@, max_side) {
            Some((w, h, px)) => r matches Ok(img) && img.width == w && img.height == h && img.pixels@ == px,
            None => r matches Err(e) && e == PipelineError::DecodeError,
        },
{
    if bytes.len() == 0 {
        return Err(PipelineError::DecodeError);
    }
    let d = decode_rgb8(bytes);
    image_from_decoded(d, max_side)
}

/// Decodes `bytes` and letterboxes the image into `target`. On success the
/// tensor has exactly the target shape, whatever the image's aspect ratio.
pub fn preprocess_bytes(bytes: &[u8], max_side: u32, target: TargetShape) -> (r: Result<(Tensor, Letterbox), PipelineError>)
    ensures
        match decode_outcome(bytes@, max_side) {
            None => r matches Err(e) && e == PipelineError::DecodeError,
            Some((w, h, px)) => if w > 0 && h > 0 && target.valid() {
                r matches Ok((t, lb)) && prepared(t.shape@, t.data@, lb, w, h, px, target)
            } else {
                r matches Err(e) && e == PipelineError::ShapeError
            },
        },
{
    let img = match decode_image(bytes, max_side) {
        Ok(img) => img,
        Err(e) => return Err(e),
    };
    prepare(&img, target)
}

/// Decoder then suppressor: the candidates of `raw` that reach the confidence
/// threshold, after Non-Max Suppression. Ranked by descending confidence, none
/// below the threshold, and none suppressing a later one.
pub fn postprocess(raw: &RawOutput, lb: &Letterbox, cfg: PipelineConfig) -> (r: Vec<Candidate>)
    requires
        raw.valid(),
        lb.well_formed(),
    ensures
        r@ == suppressed(decoded(*raw, *lb, cfg.confidence_threshold as int), cfg.suppression),
        sorted_desc(r@),
        mutually_clear(r@, cfg.suppression),
        forall|i: int| 0 <= i < r@.len() ==> #[trigger] r@[i].confidence >= cfg.confidence_threshold,
{
    let cands = decode_output(raw, lb, cfg.confidence_threshold);
    proof {
        lemma_suppressed_keeps_confidence_floor(cands@, cfg.suppression, cfg.confidence_threshold as int);
    }
    suppress(&cands, cfg.suppression)
}

/// The normalised, letterboxed tensor of the image `px` placed as `lb`.
pub open spec fn tensor_of(px: Seq<u8>, lb: Letterbox, target: TargetShape) -> Seq<u16> {
    Seq::new((CHANNELS * target.plane()) as nat, |i: int| sample_at(px, lb, target, i) as u16)
}

/// The model's outputs on input `x`.
pub open spec fn outputs_of(model: Model, x: Seq<u16>) -> Seq<i64> {
    Seq::new(model.head.output_len() as nat, |j: int| forward_at(model, x, j))
}

/// What the whole pipeline gives on `bytes`: `DecodeError` when decoding
/// fails; `ShapeError` for a degenerate image or an invalid target;
/// `InferenceError` when the target is not the model's input; otherwise the
/// suppressed, thresholded candidates of the model's output on the image's
/// tensor.
pub open spec fn run_outcome(model: Model, bytes: Seq<u8>, cfg: PipelineConfig) -> Result<Seq<Candidate>, PipelineError> {
    match decode_outcome(bytes, cfg.max_side) {
        None => Err(PipelineError::DecodeError),
        Some((w, h, px)) => if !(w > 0 && h > 0 && cfg.target.valid()) {
            Err(PipelineError::ShapeError)
        } else if cfg.target != model.input {
            Err(PipelineError::InferenceError)
        } else {
            let lb = letterbox_of(w as int, h as int, cfg.target);
            let raw = outputs_of(model, tensor_of(px, lb, cfg.target));
            Ok(suppressed(
                decoded_values(model.head, raw, lb, cfg.confidence_threshold as int),
                cfg.suppression,
            ))
        },
    }
}

/// `r` is the outcome `run_outcome` gives.
pub open spec fn run_gives(
    r: Result<Vec<Candidate>, PipelineError>,
    model: Model,
    bytes: Seq<u8>,
    cfg: PipelineConfig,
) -> bool {
    match run_outcome(model, bytes, cfg) {
        Ok(s) => r matches Ok(p) && p@ == s,
        Err(e) => r matches Err(f) && f == e,
    }
}

/// `run` is deterministic: any two outcomes that it may give for the same
/// model, bytes and configuration are the same predictions in the same
/// order, or the same error.
pub proof fn lemma_run_deterministic(
    r1: Result<Vec<Candidate>, PipelineError>,
    r2: Result<Vec<Candidate>, PipelineError>,
    model: Model,
    bytes: Seq<u8>,
    cfg: PipelineConfig,
)
    requires
        run_gives(r1, model, bytes, cfg),
        run_gives(r2, model, bytes, cfg),
    ensures
        r1 matches Ok(a) ==> r2 matches Ok(b) && a@ == b@,
        r1 matches Err(e) ==> r2 matches Err(f) && e == f,
{
}

/// The whole pipeline on one request: decode, letterbox, evaluate, decode the
/// output, suppress. `DecodeError` comes exactly when decoding fails, before
/// the model is reached; `InferenceError` when the configured target differs
/// from the model's input; the result otherwise is what `postprocess` gives on
/// the model's output.
pub fn run(model: &Model, bytes: &[u8], cfg: PipelineConfig) -> (r: Result<Vec<Candidate>, PipelineError>)
    requires
        model.valid(),
    ensures
        run_gives(r, *model, bytes@, cfg),
        r matches Ok(preds) ==> {
            &&& sorted_desc(preds@)
            &&& mutually_clear(preds@, cfg.suppression)
            &&& forall|i: int| 0 <= i < preds@.len() ==> #[trigger] preds@[i].confidence >= cfg.confidence_threshold
        },
{
    let (t, lb) = match preprocess_bytes(bytes, cfg.max_side, cfg.target) {
        Ok(v) => v,
        Err(e) => return Err(e),
    };
    let raw = match evaluate(model, &t) {
        Ok(o) => o,
        Err(e) => {
            proof {
                if cfg.target.valid() && cfg.target == model.input {
                    assert(t.shape@ == model.input.dims());
                }
            }
            return Err(e);
        },
    };
    proof {
        if cfg.target != model.input {
            assert(cfg.target.dims()[1] == cfg.target.height as usize);
            assert(model.input.dims()[1] == model.input.height as usize);
            assert(cfg.target.dims() != model.input.dims());
        }
    }
    let preds = postprocess(&raw, &lb, cfg);
    proof {
        assert(raw.valid() && raw.head == model.head
            && (forall|j: int| 0 <= j < raw.values@.len() ==> #[trigger] raw.values@[j] == forward_at(*model, t.data@, j)));
        assert(preds@ == suppressed(decoded(raw, lb, cfg.confidence_threshold as int), cfg.suppression));
        let (w, h, px) = decode_outcome(bytes@, cfg.max_side)->Some_0;
        assert(t.data@ =~= tensor_of(px, lb, cfg.target));
        assert(raw.values@ =~= outputs_of(*model, t.data@));
    }
    Ok(preds)
}

} // verus!
