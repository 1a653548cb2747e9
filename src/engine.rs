use vstd::prelude::*;
use crate::decoder::{output_valid, is_probability, score_of, Head, RawOutput, BOX_PARAMS};
use crate::error::PipelineError;
use crate::geometry::PROB_SCALE;
use crate::preprocess::{Tensor, TargetShape, CHANNELS, MAX_TARGET_SIDE};

verus! {

/// A loaded model: one fully connected layer from the channel-first input
/// tensor to the output units, followed by a clamp of every output into
/// `[0, PROB_SCALE]`. Row `j` of `weights` (its `input_len` entries starting at
/// `j * input_len`) and `bias[j]` give output `j`.
#[derive(Clone, Debug)]
pub struct Model {
    pub input: TargetShape,
    pub head: Head,
    pub weights: Vec<i32>,
    pub bias: Vec<i64>,
}

impl Model {
    pub open spec fn input_len(self) -> int {
        CHANNELS * self.input.plane()
    }

    /// The layer's sizes agree with the declared input and output.
    pub open spec fn valid(self) -> bool {
        &&& self.input.valid()
        &&& self.head.valid()
        &&& self.bias@.len() == self.head.output_len()
        &&& self.weights@.len() == self.head.output_len() * self.input_len()
    }
}

/// Sum of `w[off + i] * x[i]` for `i < k`.
pub open spec fn dot(w: Seq<i32>, off: int, x: Seq<u16>, k: int) -> int
    decreases k,
{
    if k <= 0 {
        0
    } else {
        dot(w, off, x, k - 1) + w[off + k - 1] * x[k - 1]
    }
}

pub open spec fn clamp_probability(v: int) -> int {
    if v < 0 { 0 } else if v > PROB_SCALE { PROB_SCALE as int } else { v }
}

/// Output `j` of `m` on input `x`.
pub open spec fn forward_at(m: Model, x: Seq<u16>, j: int) -> i64 {
    clamp_probability(m.bias@[j] + dot(m.weights@, j * m.input_len(), x, m.input_len())) as i64
}

/// Checks the sizes of a model description. Fails with `ModelLoadError`
/// exactly when they disagree.
pub fn load_model(input: TargetShape, head: Head, weights: Vec<i32>, bias: Vec<i64>) -> (r: Result<Model, PipelineError>)
    ensures
        r is Ok <==> (Model { input, head, weights, bias }).valid(),
        r matches Ok(m) ==> m.input == input && m.head == head && m.weights@ == weights@
            && m.bias@ == bias@,
        r is Err ==> r->Err_0 == PipelineError::ModelLoadError,
{
    if input.width == 0 || input.height == 0 || input.width > MAX_TARGET_SIDE
        || input.height > MAX_TARGET_SIDE {
        return Err(PipelineError::ModelLoadError);
    }
    let outputs: u128 = match head {
        Head::Classification { classes } => classes as u128,
        Head::Detection { anchors, classes } => {
            if classes == 0 {
                return Err(PipelineError::ModelLoadError);
            }
            proof {
                assert(anchors * (4 + classes) <= 0xffff_ffff * 0x1_0000_0003) by (nonlinear_arith)
                    requires anchors <= 0xffff_ffff, classes <= 0xffff_ffff;
            }
            anchors as u128 * (BOX_PARAMS as u128 + classes as u128)
        },
    };
    proof {
        assert(3 * input.height * input.width <= 0x3000_0000) by (nonlinear_arith)
            requires input.height <= 0x1000, input.width <= 0x1000;
    }
    let n: u128 = 3 * input.height as u128 * input.width as u128;
    proof {
        assert(outputs == head.output_len());
        assert(outputs <= 0xffff_ffff * 0x1_0000_0003);
        assert(n <= 0x3000_0000) by (nonlinear_arith)
            requires n == 3 * input.height * input.width, input.height <= 0x1000, input.width <= 0x1000;
        assert(outputs * n <= 0xffff_ffff * 0x1_0000_0003 * 0x3000_0000) by (nonlinear_arith)
            requires outputs <= 0xffff_ffff * 0x1_0000_0003, n <= 0x3000_0000;
        assert(3 * input.height * input.width == CHANNELS * (input.height * input.width)) by (nonlinear_arith);
    }
    if bias.len() as u128 != outputs || weights.len() as u128 != outputs * n {
        return Err(PipelineError::ModelLoadError);
    }
    Ok(Model { input, head, weights, bias })
}

proof fn lemma_dot_bound(w: Seq<i32>, off: int, x: Seq<u16>, k: int)
    ensures
        k >= 0 ==> -k * 0x8000_0000 * 0x1_0000 <= dot(w, off, x, k) <= k * 0x8000_0000 * 0x1_0000,
    decreases k,
{
    if k > 0 {
        lemma_dot_bound(w, off, x, k - 1);
        let a = w[off + k - 1] as int;
        let b = x[k - 1] as int;
        assert(-0x8000_0000 * 0x1_0000 <= a * b <= 0x8000_0000 * 0x1_0000) by (nonlinear_arith)
            requires -0x8000_0000 <= a < 0x8000_0000, 0 <= b < 0x1_0000;
        assert(k * 0x8000_0000 * 0x1_0000 == (k - 1) * 0x8000_0000 * 0x1_0000 + 0x8000_0000 * 0x1_0000)
            by (nonlinear_arith);
    }
}

/// Runs the model on `t`. Fails with `InferenceError` exactly when the
/// tensor's shape or size differs from the model's declared input; otherwise
/// output `j` is `forward_at(*model, t.data@, j)`, laid out as the model's
/// head declares.
pub fn evaluate(model: &Model, t: &Tensor) -> (r: Result<RawOutput, PipelineError>)
    requires
        model.valid(),
    ensures
        r is Err <==> (t.shape@ != model.input.dims() || t.data@.len() != model.input_len()),
        r is Err ==> r->Err_0 == PipelineError::InferenceError,
        r matches Ok(o) ==> {
            &&& o.head == model.head
            &&& o.values@.len() == model.head.output_len()
            &&& forall|j: int| 0 <= j < o.values@.len() ==> #[trigger] o.values@[j] == forward_at(*model, t.data@, j)
            &&& o.valid()
        },
{
    let dims: Vec<usize> = vec![CHANNELS, model.input.height as usize, model.input.width as usize];
    let mut same = t.shape.len() == 3;
    if same {
        same = t.shape[0] == dims[0] && t.shape[1] == dims[1] && t.shape[2] == dims[2];
    }
    proof {
        if same {
            assert(t.shape@ =~= model.input.dims());
        } else if t.shape@.len() == 3 {
            assert(t.shape@ != model.input.dims()) by {
                assert(model.input.dims()[0] == CHANNELS);
            }
        }
    }
    if !same {
        return Err(PipelineError::InferenceError);
    }
    let th = model.input.height as usize;
    let tw = model.input.width as usize;
    proof {
        assert(th * tw <= 0x1000 * 0x1000) by (nonlinear_arith)
            requires th <= 0x1000, tw <= 0x1000;
    }
    let n = CHANNELS * (th * tw);
    if t.data.len() != n {
        return Err(PipelineError::InferenceError);
    }
    let outputs = model.bias.len();
    let wlen = model.weights.len();
    let mut values: Vec<i64> = Vec::new();
    let mut j: usize = 0;
    while j < outputs
        invariant
            model.valid(),
            n == model.input_len(),
            t.data@.len() == n,
            outputs == model.head.output_len(),
            wlen == model.weights@.len(),
            n <= 0x3000_0000,
            j <= outputs,
            values@.len() == j,
            forall|k: int| 0 <= k < j ==> #[trigger] values@[k] == forward_at(*model, t.data@, k),
        decreases outputs - j,
    {
        proof {
            assert(model.weights@.len() == outputs * n);
            assert(j * n + n <= outputs * n) by (nonlinear_arith)
                requires j < outputs, 0 <= n;
            assert(0 <= j * n) by (nonlinear_arith)
                requires 0 <= j, 0 <= n;
        }
        let off = j * n;
        let mut acc: i128 = 0;
        let mut i: usize = 0;
        while i < n
            invariant
                model.valid(),
                n == model.input_len(),
                t.data@.len() == n,
                off == j * n,
                off + n <= model.weights@.len(),
                wlen == model.weights@.len(),
                n <= 0x3000_0000,
                i <= n,
                acc == dot(model.weights@, off as int, t.data@, i as int),
            decreases n - i,
        {
            proof {
                lemma_dot_bound(model.weights@, off as int, t.data@, i as int);
                lemma_dot_bound(model.weights@, off as int, t.data@, i + 1);
                let ii = i as int;
                assert(ii * 0x8000_0000 * 0x1_0000 <= 0x3000_0000 * 0x8000_0000 * 0x1_0000) by (nonlinear_arith)
                    requires 0 <= ii <= 0x3000_0000;
                assert((ii + 1) * 0x8000_0000 * 0x1_0000 <= 0x3000_0001 * 0x8000_0000 * 0x1_0000) by (nonlinear_arith)
                    requires 0 <= ii <= 0x3000_0000;
            }
            acc = acc + model.weights[off + i] as i128 * t.data[i] as i128;
            i += 1;
        }
        proof {
            lemma_dot_bound(model.weights@, off as int, t.data@, n as int);
            let nn = n as int;
            assert(nn * 0x8000_0000 * 0x1_0000 <= 0x3000_0000 * 0x8000_0000 * 0x1_0000) by (nonlinear_arith)
                requires 0 <= nn <= 0x3000_0000;
        }
        let v: i128 = model.bias[j] as i128 + acc;
        let out: i64 = if v < 0 { 0 } else if v > PROB_SCALE as i128 { PROB_SCALE as i64 } else { v as i64 };
        values.push(out);
        j += 1;
    }
    proof {
        let vs = values@;
        assert forall|k: int| 0 <= k < vs.len() implies is_probability(#[trigger] vs[k]) by {
            assert(vs[k] == forward_at(*model, t.data@, k));
        }
        match model.head {
            Head::Classification { .. } => {},
            Head::Detection { anchors, classes } => {
                assert forall|a: int, c: int| 0 <= a < anchors && 0 <= c < classes implies
                    is_probability(#[trigger] score_of(model.head, vs, a, c)) by {
                    let row = 4 + classes;
                    assert(a * row + 4 + c < anchors * row) by (nonlinear_arith)
                        requires 0 <= a < anchors, 0 <= c < classes, row == 4 + classes;
                    assert(0 <= a * row) by (nonlinear_arith)
                        requires 0 <= a, 0 <= row;
                    assert(is_probability(vs[a * row + 4 + c]));
                }
            },
        }
        assert(output_valid(model.head, vs));
    }
    Ok(RawOutput { head: model.head, values })
}

} // verus!
