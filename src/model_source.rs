use vstd::prelude::*;
use crate::decoder::Head;
use crate::engine::{load_model, Model};
use crate::error::PipelineError;
use crate::preprocess::{TargetShape, CHANNELS, MAX_TARGET_SIDE};

verus! {

/// Bytes before the weights in a model source: input width, input height,
/// head kind, classes and anchors, each a little-endian `u32`.
pub const HEADER_LEN: usize = 20;

/// Head kind of a classifier in a model source.
pub const KIND_CLASSIFICATION: u32 = 0;

/// Head kind of a detector in a model source.
pub const KIND_DETECTION: u32 = 1;

/// The little-endian `u32` at `off`.
pub open spec fn u32_at(b: Seq<u8>, off: int) -> int {
    b[off] + b[off + 1] * 256 + b[off + 2] * 65536 + b[off + 3] * 16777216
}

/// The little-endian two's-complement `i32` at `off`.
pub open spec fn i32_at(b: Seq<u8>, off: int) -> int {
    let u = u32_at(b, off);
    if u >= 0x8000_0000 { u - 0x1_0000_0000 } else { u }
}

/// The head a model source declares, if its kind is known.
pub open spec fn source_head(b: Seq<u8>) -> Option<Head> {
    if b.len() < HEADER_LEN {
        None
    } else if u32_at(b, 8) == KIND_CLASSIFICATION {
        Some(Head::Classification { classes: u32_at(b, 12) as u32 })
    } else if u32_at(b, 8) == KIND_DETECTION {
        Some(Head::Detection { anchors: u32_at(b, 16) as u32, classes: u32_at(b, 12) as u32 })
    } else {
        None
    }
}

pub open spec fn source_input(b: Seq<u8>) -> TargetShape {
    TargetShape { width: u32_at(b, 0) as u32, height: u32_at(b, 4) as u32 }
}

/// A model source: the header, then `outputs * inputs` weights and `outputs`
/// biases, each a little-endian `i32`, and nothing after them.
pub open spec fn source_ok(b: Seq<u8>) -> bool {
    match source_head(b) {
        Some(head) => {
            let input = source_input(b);
            let n = CHANNELS * input.plane();
            &&& input.valid()
            &&& head.valid()
            &&& b.len() == HEADER_LEN + 4 * (head.output_len() * n + head.output_len())
        },
        None => false,
    }
}

fn read_u32(b: &[u8], off: usize) -> (r: u32)
    requires
        off + 4 <= b@.len(),
    ensures
        r == u32_at(b@, off as int),
{
    b[off] as u32 + b[off + 1] as u32 * 256 + b[off + 2] as u32 * 65536 + b[off + 3] as u32 * 16777216
}

fn read_i32(b: &[u8], off: usize) -> (r: i32)
    requires
        off + 4 <= b@.len(),
    ensures
        r == i32_at(b@, off as int),
{
    let u = read_u32(b, off);
    if u >= 0x8000_0000 {
        ((u - 0x8000_0000) as i32) - 0x7fff_ffff - 1
    } else {
        u as i32
    }
}

/// Loads a model from its source bytes. Fails with `ModelLoadError` exactly
/// when the bytes are not a model source whose sizes agree.
pub fn parse_model(bytes: &[u8]) -> (r: Result<Model, PipelineError>)
    ensures
        r is Ok <==> source_ok(bytes@),
        r is Err ==> r->Err_0 == PipelineError::ModelLoadError,
        r matches Ok(m) ==> {
            &&& m.valid()
            &&& m.input == source_input(bytes@)
            &&& source_head(bytes@) == Some(m.head)
            &&& forall|k: int| 0 <= k < m.weights@.len() ==>
                    #[trigger] m.weights@[k] == i32_at(bytes@, HEADER_LEN + 4 * k)
            &&& forall|j: int| 0 <= j < m.bias@.len() ==>
                    #[trigger] m.bias@[j] == i32_at(bytes@, HEADER_LEN + 4 * m.weights@.len() + 4 * j)
        },
{
    if bytes.len() < HEADER_LEN {
        return Err(PipelineError::ModelLoadError);
    }
    let width = read_u32(bytes, 0);
    let height = read_u32(bytes, 4);
    let kind = read_u32(bytes, 8);
    let classes = read_u32(bytes, 12);
    let anchors = read_u32(bytes, 16);
    let head = if kind == KIND_CLASSIFICATION {
        Head::Classification { classes }
    } else if kind == KIND_DETECTION {
        Head::Detection { anchors, classes }
    } else {
        return Err(PipelineError::ModelLoadError);
    };
    let input = TargetShape { width, height };
    if width == 0 || height == 0 || width > MAX_TARGET_SIDE || height > MAX_TARGET_SIDE {
        return Err(PipelineError::ModelLoadError);
    }
    let outputs: u128 = match head {
        Head::Classification { classes } => classes as u128,
        Head::Detection { anchors, classes } => {
            if classes == 0 {
                return Err(PipelineError::ModelLoadError);
            }
            proof {
                assert(anchors * (4 + classes) <= 0xffff_ffff * 0x1_0000_0003) by (nonlinear_arith)
                    requires anchors <= 0xffff_ffff, classes <= 0xffff_ffff;
            }
            anchors as u128 * (4 + classes as u128)
        },
    };
    proof {
        assert(3 * height * width <= 0x3000_0000) by (nonlinear_arith)
            requires height <= 0x1000, width <= 0x1000;
        assert(3 * height * width == CHANNELS * (height * width)) by (nonlinear_arith);
        assert(outputs == head.output_len());
    }
    let n: u128 = 3 * height as u128 * width as u128;
    proof {
        assert(outputs * n <= 0xffff_ffff * 0x1_0000_0003 * 0x3000_0000) by (nonlinear_arith)
            requires outputs <= 0xffff_ffff * 0x1_0000_0003, n <= 0x3000_0000;
    }
    let wc128 = outputs * n;
    if bytes.len() as u128 != HEADER_LEN as u128 + 4 * (wc128 + outputs) {
        return Err(PipelineError::ModelLoadError);
    }
    let wc = wc128 as usize;
    let oc = outputs as usize;
    let blen = bytes.len();
    let mut weights: Vec<i32> = Vec::new();
    let mut k: usize = 0;
    while k < wc
        invariant
            bytes@.len() == HEADER_LEN + 4 * (wc + oc),
            blen == bytes@.len(),
            k <= wc,
            weights@.len() == k,
            forall|q: int| 0 <= q < k ==> #[trigger] weights@[q] == i32_at(bytes@, HEADER_LEN + 4 * q),
        decreases wc - k,
    {
        weights.push(read_i32(bytes, HEADER_LEN + 4 * k));
        k += 1;
    }
    let mut bias: Vec<i64> = Vec::new();
    let mut j: usize = 0;
    while j < oc
        invariant
            bytes@.len() == HEADER_LEN + 4 * (wc + oc),
            blen == bytes@.len(),
            j <= oc,
            bias@.len() == j,
            forall|q: int| 0 <= q < j ==> #[trigger] bias@[q] == i32_at(bytes@, HEADER_LEN + 4 * wc + 4 * q),
        decreases oc - j,
    {
        bias.push(read_i32(bytes, HEADER_LEN + 4 * wc + 4 * j) as i64);
        j += 1;
    }
    let r = load_model(input, head, weights, bias);
    proof {
        assert(source_head(bytes@) == Some(head));
        assert(source_input(bytes@) == input);
        assert(r is Ok);
    }
    r
}

} // verus!
