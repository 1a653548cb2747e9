use vstd::prelude::*;
use vstd::arithmetic::div_mod::{lemma_div_by_multiple, lemma_div_is_ordered};
use crate::error::PipelineError;
use crate::geometry::{BBox, Candidate, PROB_SCALE};
use crate::preprocess::{Letterbox, MAX_IMAGE_SIDE, MAX_TARGET_SIDE};

verus! {

/// Values before the class scores in each detection row: centre x, centre y,
/// width and height, in model-input pixels.
pub const BOX_PARAMS: u32 = 4;

/// How a model's output is laid out, fixed once from the model.
#[derive(Clone, Copy, Debug, PartialEq, Eq, Structural)]
pub enum Head {
    /// One probability per class.
    Classification { classes: u32 },
    /// One row per anchor: `BOX_PARAMS` box values, then one probability per
    /// class.
    Detection { anchors: u32, classes: u32 },
}

/// A model's raw output for one input.
#[derive(Clone, Debug)]
pub struct RawOutput {
    pub head: Head,
    pub values: Vec<i64>,
}

impl Head {
    /// Output units: classes for a classifier, anchors for a detector.
    pub open spec fn units(self) -> int {
        match self {
            Head::Classification { classes } => classes as int,
            Head::Detection { anchors, .. } => anchors as int,
        }
    }

    pub open spec fn row_len(self) -> int {
        match self {
            Head::Classification { .. } => 1,
            Head::Detection { classes, .. } => BOX_PARAMS + classes,
        }
    }

    pub open spec fn output_len(self) -> int {
        match self {
            Head::Classification { classes } => classes as int,
            Head::Detection { anchors, classes } => anchors * (BOX_PARAMS + classes),
        }
    }

    pub open spec fn valid(self) -> bool {
        match self {
            Head::Classification { .. } => true,
            Head::Detection { classes, .. } => classes > 0,
        }
    }
}

/// A value is a probability: between zero and `PROB_SCALE`.
pub open spec fn is_probability(v: i64) -> bool {
    0 <= v <= PROB_SCALE
}

/// Score of class `c` in detection row `a` of `vals`.
pub open spec fn score_of(head: Head, vals: Seq<i64>, a: int, c: int) -> i64 {
    vals[a * head.row_len() + BOX_PARAMS + c]
}

/// `vals` fills `head`'s layout and every score in it is a probability.
pub open spec fn output_valid(head: Head, vals: Seq<i64>) -> bool {
    &&& head.valid()
    &&& vals.len() == head.output_len()
    &&& match head {
        Head::Classification { .. } => forall|i: int|
            0 <= i < vals.len() ==> is_probability(#[trigger] vals[i]),
        Head::Detection { anchors, classes } => forall|a: int, c: int|
            0 <= a < anchors && 0 <= c < classes ==> is_probability(#[trigger] score_of(head, vals, a, c)),
    }
}

impl RawOutput {
    /// Score of class `c` in detection row `a`.
    pub open spec fn score(self, a: int, c: int) -> i64 {
        score_of(self.head, self.values@, a, c)
    }

    /// The values fill the layout and every score is a probability.
    pub open spec fn valid(self) -> bool {
        output_valid(self.head, self.values@)
    }

}

/// First class of maximal score among classes `0..n` of detection row `a`.
pub open spec fn best_class_upto(head: Head, vals: Seq<i64>, a: int, n: int) -> int
    decreases n,
{
    if n <= 1 {
        0
    } else {
        let b = best_class_upto(head, vals, a, n - 1);
        if score_of(head, vals, a, n - 1) > score_of(head, vals, a, b) {
            n - 1
        } else {
            b
        }
    }
}

impl Letterbox {
    /// The placement describes an accepted source inside an accepted target.
    pub open spec fn well_formed(self) -> bool {
        &&& 0 < self.src_width <= MAX_IMAGE_SIDE
        &&& 0 < self.src_height <= MAX_IMAGE_SIDE
        &&& 0 < self.new_width
        &&& 0 < self.new_height
        &&& self.pad_x + self.new_width <= MAX_TARGET_SIDE
        &&& self.pad_y + self.new_height <= MAX_TARGET_SIDE
    }
}

pub open spec fn clamp(v: int, lo: int, hi: int) -> int {
    if v < lo { lo } else if v > hi { hi } else { v }
}

/// Half of a box extent; a negative extent counts as empty.
pub open spec fn half(v: int) -> int {
    if v > 0 { v / 2 } else { 0 }
}

/// A model-input coordinate mapped back to source pixels: clamped to the
/// scaled image, shifted by the padding, rescaled to the source.
pub open spec fn to_source(v: int, pad: int, new_len: int, src_len: int) -> int {
    (clamp(v, pad, pad + new_len) - pad) * src_len / new_len
}

/// The box of a detection row `(cx, cy, bw, bh)` in source pixels.
pub open spec fn source_box(lb: Letterbox, cx: int, cy: int, bw: int, bh: int) -> BBox {
    let x0 = to_source(cx - half(bw), lb.pad_x as int, lb.new_width as int, lb.src_width as int);
    let x1 = to_source(cx + half(bw), lb.pad_x as int, lb.new_width as int, lb.src_width as int);
    let y0 = to_source(cy - half(bh), lb.pad_y as int, lb.new_height as int, lb.src_height as int);
    let y1 = to_source(cy + half(bh), lb.pad_y as int, lb.new_height as int, lb.src_height as int);
    BBox { x: x0 as i32, y: y0 as i32, w: (x1 - x0) as u32, h: (y1 - y0) as u32 }
}

/// The candidate of output unit `u`: for a classifier the class `u` with its
/// probability; for a detector row `u`'s best class, its score, and its box.
pub open spec fn unit_candidate(head: Head, vals: Seq<i64>, lb: Letterbox, u: int) -> Candidate {
    match head {
        Head::Classification { .. } => Candidate {
            confidence: vals[u] as u32,
            class_id: u as u32,
            bbox: None,
        },
        Head::Detection { classes, .. } => {
            let base = u * head.row_len();
            let best = best_class_upto(head, vals, u, classes as int);
            Candidate {
                confidence: score_of(head, vals, u, best) as u32,
                class_id: best as u32,
                bbox: Some(source_box(
                    lb,
                    vals[base] as int,
                    vals[base + 1] as int,
                    vals[base + 2] as int,
                    vals[base + 3] as int,
                )),
            }
        },
    }
}

/// Candidates of units `0..n` whose confidence reaches `threshold`, in unit
/// order.
pub open spec fn decoded_upto(head: Head, vals: Seq<i64>, lb: Letterbox, threshold: int, n: int) -> Seq<Candidate>
    decreases n,
{
    if n <= 0 {
        seq![]
    } else {
        let p = decoded_upto(head, vals, lb, threshold, n - 1);
        let c = unit_candidate(head, vals, lb, n - 1);
        if c.confidence >= threshold {
            p.push(c)
        } else {
            p
        }
    }
}

/// Candidates of all units of output `vals` laid out as `head` whose
/// confidence reaches `threshold`, in unit order.
pub open spec fn decoded_values(head: Head, vals: Seq<i64>, lb: Letterbox, threshold: int) -> Seq<Candidate> {
    decoded_upto(head, vals, lb, threshold, head.units())
}

pub open spec fn decoded(raw: RawOutput, lb: Letterbox, threshold: int) -> Seq<Candidate> {
    decoded_values(raw.head, raw.values@, lb, threshold)
}

/// Every decoded candidate reaches the confidence threshold.
pub proof fn lemma_decoded_above_threshold(head: Head, vals: Seq<i64>, lb: Letterbox, threshold: int, n: int)
    ensures
        forall|i: int| 0 <= i < decoded_upto(head, vals, lb, threshold, n).len() ==>
            #[trigger] decoded_upto(head, vals, lb, threshold, n)[i].confidence >= threshold,
    decreases n,
{
    if n > 0 {
        lemma_decoded_above_threshold(head, vals, lb, threshold, n - 1);
        let p = decoded_upto(head, vals, lb, threshold, n - 1);
        let r = decoded_upto(head, vals, lb, threshold, n);
        assert forall|i: int| 0 <= i < r.len() implies #[trigger] r[i].confidence >= threshold by {
            if i < p.len() {
                assert(r[i] == p[i]);
            }
        }
    }
}

/// Checks that `values` fill `head`'s layout with probabilities where scores
/// stand. Fails with `InferenceError` otherwise.
pub fn raw_output(head: Head, values: Vec<i64>) -> (r: Result<RawOutput, PipelineError>)
    ensures
        r is Ok <==> output_valid(head, values@),
        r matches Ok(o) ==> o.head == head && o.values@ == values@,
        r is Err ==> r->Err_0 == PipelineError::InferenceError,
{
    let (units, row): (u128, u128) = match head {
        Head::Classification { classes } => (classes as u128, 1),
        Head::Detection { anchors, classes } => {
            if classes == 0 {
                return Err(PipelineError::InferenceError);
            }
            (anchors as u128, BOX_PARAMS as u128 + classes as u128)
        },
    };
    proof {
        assert(units * row <= 0xffff_ffff * 0x1_0000_0003) by (nonlinear_arith)
            requires units <= 0xffff_ffff, row <= 0x1_0000_0003;
    }
    proof {
        if head is Classification {
            assert(units * row == units) by (nonlinear_arith)
                requires row == 1;
        }
    }
    if values.len() as u128 != units * row {
        return Err(PipelineError::InferenceError);
    }
    let n = values.len();
    match head {
        Head::Classification { .. } => {
            let mut i: usize = 0;
            while i < n
                invariant
                    head is Classification,
                    head.valid(),
                    values@.len() == head.output_len(),
                    n == values@.len(),
                    i <= n,
                    forall|k: int| 0 <= k < i ==> is_probability(#[trigger] values@[k]),
                decreases n - i,
            {
                let v = values[i];
                if v < 0 || v > PROB_SCALE as i64 {
                    proof {
                        assert(!is_probability(values@[i as int]));
                    }
                    return Err(PipelineError::InferenceError);
                }
                i += 1;
            }
            Ok(RawOutput { head, values })
        },
        Head::Detection { anchors, classes } => {
            let rowu = row as u64;
            let mut a: usize = 0;
            while a < anchors as usize
                invariant
                    head == (Head::Detection { anchors, classes }),
                    head.valid(),
                    values@.len() == head.output_len(),
                    n == values@.len(),
                    n == anchors * (BOX_PARAMS + classes),
                    rowu == BOX_PARAMS + classes,
                    a <= anchors,
                    forall|aa: int, c: int| 0 <= aa < a && 0 <= c < classes ==>
                        is_probability(#[trigger] score_of(head, values@, aa, c)),
                decreases anchors - a,
            {
                let mut c: usize = 0;
                while c < classes as usize
                    invariant
                        head == (Head::Detection { anchors, classes }),
                        head.valid(),
                        values@.len() == head.output_len(),
                        n == values@.len(),
                        n == anchors * (BOX_PARAMS + classes),
                        rowu == BOX_PARAMS + classes,
                        a < anchors,
                        c <= classes,
                        forall|aa: int, cc: int| 0 <= aa < a && 0 <= cc < classes ==>
                            is_probability(#[trigger] score_of(head, values@, aa, cc)),
                        forall|cc: int| 0 <= cc < c ==> is_probability(#[trigger] score_of(head, values@, a as int, cc)),
                    decreases classes - c,
                {
                    proof {
                        assert(a * rowu + 4 + c < anchors * rowu) by (nonlinear_arith)
                            requires a < anchors, c < classes, rowu == 4 + classes;
                    }
                    let idx = a as u64 * rowu + 4 + c as u64;
                    let v = values[idx as usize];
                    if v < 0 || v > PROB_SCALE as i64 {
                        proof {
                            assert(!is_probability(score_of(head, values@, a as int, c as int)));
                        }
                        return Err(PipelineError::InferenceError);
                    }
                    c += 1;
                }
                a += 1;
            }
            Ok(RawOutput { head, values })
        },
    }
}

/// Maps one model-input coordinate back to source pixels.
fn to_source_exec(v: i128, pad: u32, new_len: u32, src_len: u32) -> (r: u32)
    requires
        0 < new_len,
        pad + new_len <= MAX_TARGET_SIDE,
        src_len <= MAX_IMAGE_SIDE,
    ensures
        r == to_source(v as int, pad as int, new_len as int, src_len as int),
        r <= src_len,
{
    let lo = pad as i128;
    let hi = pad as i128 + new_len as i128;
    let cl = if v < lo { lo } else if v > hi { hi } else { v };
    let d = (cl - lo) as u64;
    proof {
        assert(d * src_len <= 0x1000 * 0x1_0000) by (nonlinear_arith)
            requires d <= 0x1000, src_len <= 0x1_0000;
        assert(d * src_len <= new_len * src_len) by (nonlinear_arith)
            requires d <= new_len, 0 <= src_len;
        lemma_div_is_ordered(d * src_len, new_len * src_len, new_len as int);
        assert(new_len * src_len == src_len * new_len) by (nonlinear_arith);
        lemma_div_by_multiple(src_len as int, new_len as int);
    }
    (d * src_len as u64 / new_len as u64) as u32
}

proof fn lemma_to_source_monotone(u: int, v: int, pad: int, new_len: int, src_len: int)
    requires
        u <= v,
        0 < new_len,
        0 <= src_len,
    ensures
        to_source(u, pad, new_len, src_len) <= to_source(v, pad, new_len, src_len),
{
    let du = clamp(u, pad, pad + new_len) - pad;
    let dv = clamp(v, pad, pad + new_len) - pad;
    assert(du * src_len <= dv * src_len) by (nonlinear_arith)
        requires du <= dv, 0 <= src_len;
    lemma_div_is_ordered(du * src_len, dv * src_len, new_len);
}

/// Computes `source_box(*lb, cx, cy, bw, bh)`.
fn source_box_exec(lb: &Letterbox, cx: i64, cy: i64, bw: i64, bh: i64) -> (r: BBox)
    requires
        lb.well_formed(),
    ensures
        r == source_box(*lb, cx as int, cy as int, bw as int, bh as int),
{
    let hw: i128 = if bw > 0 { (bw / 2) as i128 } else { 0 };
    let hh: i128 = if bh > 0 { (bh / 2) as i128 } else { 0 };
    let x0 = to_source_exec(cx as i128 - hw, lb.pad_x, lb.new_width, lb.src_width);
    let x1 = to_source_exec(cx as i128 + hw, lb.pad_x, lb.new_width, lb.src_width);
    let y0 = to_source_exec(cy as i128 - hh, lb.pad_y, lb.new_height, lb.src_height);
    let y1 = to_source_exec(cy as i128 + hh, lb.pad_y, lb.new_height, lb.src_height);
    proof {
        lemma_to_source_monotone(cx - hw, cx + hw, lb.pad_x as int, lb.new_width as int, lb.src_width as int);
        lemma_to_source_monotone(cy - hh, cy + hh, lb.pad_y as int, lb.new_height as int, lb.src_height as int);
    }
    BBox { x: x0 as i32, y: y0 as i32, w: x1 - x0, h: y1 - y0 }
}

/// Turns raw output into candidates: one per output unit (each class of a
/// classifier, each row of a detector, with its best class and its box mapped
/// back through `lb` to source pixels), keeping exactly those whose
/// confidence reaches `confidence_threshold`, in unit order.
pub fn decode_output(raw: &RawOutput, lb: &Letterbox, confidence_threshold: u32) -> (r: Vec<Candidate>)
    requires
        raw.valid(),
        lb.well_formed(),
    ensures
        r@ == decoded(*raw, *lb, confidence_threshold as int),
        forall|i: int| 0 <= i < r@.len() ==> #[trigger] r@[i].confidence >= confidence_threshold,
{
    let units: usize = match raw.head {
        Head::Classification { classes } => classes as usize,
        Head::Detection { anchors, .. } => anchors as usize,
    };
    let mut out: Vec<Candidate> = Vec::new();
    let mut u: usize = 0;
    while u < units
        invariant
            raw.valid(),
            lb.well_formed(),
            units == raw.head.units(),
            u <= units,
            out@ == decoded_upto(raw.head, raw.values@, *lb, confidence_threshold as int, u as int),
        decreases units - u,
    {
        let c = unit_candidate_exec(raw, lb, u);
        if c.confidence >= confidence_threshold {
            out.push(c);
        }
        u += 1;
    }
    proof {
        lemma_decoded_above_threshold(raw.head, raw.values@, *lb, confidence_threshold as int, units as int);
    }
    out
}

/// Computes `unit_candidate(raw.head, raw.values@, *lb, u)`.
fn unit_candidate_exec(raw: &RawOutput, lb: &Letterbox, u: usize) -> (c: Candidate)
    requires
        raw.valid(),
        lb.well_formed(),
        u < raw.head.units(),
    ensures
        c == unit_candidate(raw.head, raw.values@, *lb, u as int),
{
    match raw.head {
        Head::Classification { classes } => {
            proof {
                assert(raw.head.output_len() == classes);
            }
            Candidate { confidence: raw.values[u] as u32, class_id: u as u32, bbox: None }
        },
        Head::Detection { anchors, classes } => {
            let n = raw.values.len();
            proof {
                assert(BOX_PARAMS + classes <= anchors * (BOX_PARAMS + classes)) by (nonlinear_arith)
                    requires 1 <= anchors;
            }
            let row = BOX_PARAMS as usize + classes as usize;
            proof {
                assert(u * row + row <= anchors * row) by (nonlinear_arith)
                    requires u < anchors, 0 <= row;
                assert(0 <= u * row) by (nonlinear_arith)
                    requires 0 <= u, 0 <= row;
            }
            let base = u * row;
            let mut best: usize = 0;
            let mut k: usize = 1;
            while k < classes as usize
                invariant
                    raw.valid(),
                    raw.head == (Head::Detection { anchors, classes }),
                    row == raw.head.row_len(),
                    base == u * row,
                    base + row <= raw.values@.len(),
                    n == raw.values@.len(),
                    1 <= k <= classes,
                    best < k,
                    best == best_class_upto(raw.head, raw.values@, u as int, k as int),
                decreases classes - k,
            {
                if raw.values[base + 4 + k] > raw.values[base + 4 + best] {
                    best = k;
                }
                k += 1;
            }
            proof {
                assert(is_probability(raw.score(u as int, best as int)));
            }
            let bbox = source_box_exec(lb, raw.values[base], raw.values[base + 1], raw.values[base + 2], raw.values[base + 3]);
            Candidate { confidence: raw.values[base + 4 + best] as u32, class_id: best as u32, bbox: Some(bbox) }
        },
    }
}

} // verus!
