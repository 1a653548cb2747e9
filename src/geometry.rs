use vstd::prelude::*;

verus! {

/// Fixed-point denominator of every probability and threshold:
/// a value `p` stands for `p / PROB_SCALE`.
pub const PROB_SCALE: u32 = 1_000_000;

/// An axis-aligned box: top-left corner `(x, y)`, width `w`, height `h`.
#[derive(Clone, Copy, Debug, PartialEq, Eq, Structural)]
pub struct BBox {
    pub x: i32,
    pub y: i32,
    pub w: u32,
    pub h: u32,
}

/// A scored class, with a box when the model is spatial.
#[derive(Clone, Copy, Debug, PartialEq, Eq, Structural)]
pub struct Candidate {
    pub confidence: u32,
    pub class_id: u32,
    pub bbox: Option<BBox>,
}

/// Length of the overlap of the intervals `[a0, a1)` and `[b0, b1)`.
pub open spec fn overlap_len(a0: int, a1: int, b0: int, b1: int) -> int {
    let lo = if a0 > b0 { a0 } else { b0 };
    let hi = if a1 < b1 { a1 } else { b1 };
    if hi > lo { hi - lo } else { 0 }
}

pub open spec fn box_area(a: BBox) -> int {
    a.w * a.h
}

pub open spec fn intersection_area(a: BBox, b: BBox) -> int {
    overlap_len(a.x as int, a.x + a.w, b.x as int, b.x + b.w)
        * overlap_len(a.y as int, a.y + a.h, b.y as int, b.y + b.h)
}

pub open spec fn union_area(a: BBox, b: BBox) -> int {
    box_area(a) + box_area(b) - intersection_area(a, b)
}

/// Intersection-over-union of `a` and `b` is strictly above `t / PROB_SCALE`.
/// Two boxes with an empty union never exceed any threshold.
pub open spec fn iou_exceeds(a: BBox, b: BBox, t: int) -> bool {
    intersection_area(a, b) * PROB_SCALE > t * union_area(a, b)
}

proof fn lemma_overlap_bounds(a0: int, a1: int, b0: int, b1: int)
    requires
        a0 <= a1,
        b0 <= b1,
    ensures
        0 <= overlap_len(a0, a1, b0, b1) <= a1 - a0,
        overlap_len(a0, a1, b0, b1) <= b1 - b0,
{
}

/// The intersection of two boxes is no larger than either box.
pub proof fn lemma_intersection_bounds(a: BBox, b: BBox)
    ensures
        0 <= intersection_area(a, b) <= box_area(a),
        intersection_area(a, b) <= box_area(b),
        intersection_area(a, b) <= union_area(a, b),
{
    let ox = overlap_len(a.x as int, a.x + a.w, b.x as int, b.x + b.w);
    let oy = overlap_len(a.y as int, a.y + a.h, b.y as int, b.y + b.h);
    lemma_overlap_bounds(a.x as int, a.x + a.w, b.x as int, b.x + b.w);
    lemma_overlap_bounds(a.y as int, a.y + a.h, b.y as int, b.y + b.h);
    let aw = a.w as int;
    let ah = a.h as int;
    let bw = b.w as int;
    let bh = b.h as int;
    assert(0 <= ox * oy <= aw * ah) by (nonlinear_arith)
        requires 0 <= ox <= aw, 0 <= oy <= ah;
    assert(ox * oy <= bw * bh) by (nonlinear_arith)
        requires 0 <= ox <= bw, 0 <= oy <= bh;
    assert(0 <= bw * bh) by (nonlinear_arith)
        requires 0 <= bw, 0 <= bh;
}

/// A threshold of one or more is never exceeded.
pub proof fn lemma_full_threshold_never_exceeded(a: BBox, b: BBox, t: int)
    requires
        t >= PROB_SCALE,
    ensures
        !iou_exceeds(a, b, t),
{
    lemma_intersection_bounds(a, b);
    let i = intersection_area(a, b);
    let u = union_area(a, b);
    let s = PROB_SCALE as int;
    assert(i * s <= t * u) by (nonlinear_arith)
        requires 0 <= i <= u, s <= t, 0 <= s;
}

fn overlap_exec(a0: i64, a1: i64, b0: i64, b1: i64) -> (r: u64)
    requires
        a0 <= a1,
        b0 <= b1,
        -0x1_0000_0000 <= a0,
        -0x1_0000_0000 <= b0,
        a1 <= 0x2_0000_0000,
        b1 <= 0x2_0000_0000,
    ensures
        r as int == overlap_len(a0 as int, a1 as int, b0 as int, b1 as int),
{
    let lo = if a0 > b0 { a0 } else { b0 };
    let hi = if a1 < b1 { a1 } else { b1 };
    if hi > lo { (hi - lo) as u64 } else { 0 }
}

/// Decides `iou_exceeds(a, b, t)`.
pub fn iou_above(a: &BBox, b: &BBox, t: u32) -> (r: bool)
    ensures
        r == iou_exceeds(*a, *b, t as int),
{
    let ox = overlap_exec(a.x as i64, a.x as i64 + a.w as i64, b.x as i64, b.x as i64 + b.w as i64);
    let oy = overlap_exec(a.y as i64, a.y as i64 + a.h as i64, b.y as i64, b.y as i64 + b.h as i64);
    proof {
        lemma_overlap_bounds(a.x as int, a.x + a.w, b.x as int, b.x + b.w);
        lemma_overlap_bounds(a.y as int, a.y + a.h, b.y as int, b.y + b.h);
        lemma_intersection_bounds(*a, *b);
        let oxi = ox as int;
        let oyi = oy as int;
        assert(oxi * oyi <= 0xffff_ffff * 0xffff_ffff) by (nonlinear_arith)
            requires 0 <= oxi <= 0xffff_ffff, 0 <= oyi <= 0xffff_ffff;
        let (aw, ah, bw, bh) = (a.w as int, a.h as int, b.w as int, b.h as int);
        assert(aw * ah <= 0xffff_ffff * 0xffff_ffff) by (nonlinear_arith)
            requires 0 <= aw <= 0xffff_ffff, 0 <= ah <= 0xffff_ffff;
        assert(bw * bh <= 0xffff_ffff * 0xffff_ffff) by (nonlinear_arith)
            requires 0 <= bw <= 0xffff_ffff, 0 <= bh <= 0xffff_ffff;
    }
    let inter: u128 = ox as u128 * oy as u128;
    let area_a: u128 = a.w as u128 * a.h as u128;
    let area_b: u128 = b.w as u128 * b.h as u128;
    let combined: u128 = area_a + area_b - inter;
    proof {
        let (i, u, tt) = (inter as int, combined as int, t as int);
        assert(i * 1_000_000 <= 0x1_0000_0000_0000_0000 * 1_000_000) by (nonlinear_arith)
            requires 0 <= i <= 0x1_0000_0000_0000_0000;
        assert(tt * u <= 0xffff_ffff * 0x2_0000_0000_0000_0000) by (nonlinear_arith)
            requires 0 <= tt <= 0xffff_ffff, 0 <= u <= 0x2_0000_0000_0000_0000;
    }
    inter * (PROB_SCALE as u128) > (t as u128) * combined
}

} // verus!
