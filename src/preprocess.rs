use vstd::prelude::*;
use vstd::arithmetic::div_mod::{
    lemma_div_by_multiple, lemma_div_is_ordered, lemma_div_pos_is_pos, lemma_mod_bound,
    lemma_multiply_divide_lt,
};
use crate::error::PipelineError;

verus! {

/// Largest accepted image side, in pixels.
pub const MAX_IMAGE_SIDE: u32 = 65536;

/// Largest accepted side of the model input, in pixels.
pub const MAX_TARGET_SIDE: u32 = 4096;

/// Colour channels of every image and tensor (RGB).
pub const CHANNELS: usize = 3;

/// Grey level of the letterbox padding.
pub const FILL_VALUE: u8 = 114;

/// Normalisation factor: a pixel level `v` in `0..=255` becomes `v * 257`
/// in `0..=65535`, which stands for `v / 255` in `[0, 1]`.
pub const NORM_FACTOR: u16 = 257;

/// A decoded image: `width * height` pixels, row by row, three bytes (R, G, B)
/// each.
#[derive(Clone, Debug)]
pub struct Image {
    pub width: u32,
    pub height: u32,
    pub pixels: Vec<u8>,
}

/// The fixed model input size, channel-first: `CHANNELS x height x width`.
#[derive(Clone, Copy, Debug, PartialEq, Eq, Structural)]
pub struct TargetShape {
    pub width: u32,
    pub height: u32,
}

/// A flat buffer of normalised values with its shape.
#[derive(Clone, Debug)]
pub struct Tensor {
    pub shape: Vec<usize>,
    pub data: Vec<u16>,
}

/// How an image was placed in the model input: scaled to
/// `new_width x new_height` and offset by `(pad_x, pad_y)`.
#[derive(Clone, Copy, Debug, PartialEq, Eq, Structural)]
pub struct Letterbox {
    pub src_width: u32,
    pub src_height: u32,
    pub new_width: u32,
    pub new_height: u32,
    pub pad_x: u32,
    pub pad_y: u32,
}

impl TargetShape {
    pub open spec fn valid(self) -> bool {
        0 < self.width <= MAX_TARGET_SIDE && 0 < self.height <= MAX_TARGET_SIDE
    }

    /// The tensor shape `[CHANNELS, height, width]`.
    pub open spec fn dims(self) -> Seq<usize> {
        seq![CHANNELS, self.height as usize, self.width as usize]
    }

    pub open spec fn plane(self) -> int {
        self.height * self.width
    }
}

impl Image {
    /// Non-degenerate, within the accepted size, and the buffer holds exactly
    /// the pixels.
    pub open spec fn valid(self) -> bool {
        0 < self.width <= MAX_IMAGE_SIDE && 0 < self.height <= MAX_IMAGE_SIDE
            && self.pixels@.len() == self.width * self.height * CHANNELS
    }
}

impl Letterbox {
    /// The scaled image lies inside the target and maps back onto a source
    /// of accepted size.
    pub open spec fn valid(self, target: TargetShape) -> bool {
        &&& target.valid()
        &&& 0 < self.src_width <= MAX_IMAGE_SIDE
        &&& 0 < self.src_height <= MAX_IMAGE_SIDE
        &&& 0 < self.new_width
        &&& 0 < self.new_height
        &&& self.pad_x + self.new_width <= target.width
        &&& self.pad_y + self.new_height <= target.height
    }
}

pub open spec fn at_least_one(v: int) -> int {
    if v < 1 { 1 } else { v }
}

/// Aspect-preserving fit of a `w x h` image into `target`, centred.
pub open spec fn letterbox_of(w: int, h: int, target: TargetShape) -> Letterbox {
    let tw = target.width as int;
    let th = target.height as int;
    let nw = if w * th >= h * tw { tw } else { at_least_one(w * th / h) };
    let nh = if w * th >= h * tw { at_least_one(h * tw / w) } else { th };
    Letterbox {
        src_width: w as u32,
        src_height: h as u32,
        new_width: nw as u32,
        new_height: nh as u32,
        pad_x: ((tw - nw) / 2) as u32,
        pad_y: ((th - nh) / 2) as u32,
    }
}

/// The value of the tensor at flat index `i` (channel-first): inside the
/// scaled image the nearest source pixel's channel, elsewhere the padding,
/// either one normalised.
pub open spec fn sample_at(px: Seq<u8>, lb: Letterbox, target: TargetShape, i: int) -> int {
    let c = i / target.plane();
    let r = i % target.plane();
    let y = r / (target.width as int);
    let x = r % (target.width as int);
    if lb.pad_x <= x < lb.pad_x + lb.new_width && lb.pad_y <= y < lb.pad_y + lb.new_height {
        let sx = (x - lb.pad_x) * lb.src_width / (lb.new_width as int);
        let sy = (y - lb.pad_y) * lb.src_height / (lb.new_height as int);
        px[(sy * lb.src_width + sx) * CHANNELS + c] * NORM_FACTOR
    } else {
        FILL_VALUE * NORM_FACTOR
    }
}

/// The conditions under which an image can be prepared for `target`.
pub open spec fn preparable(img: Image, target: TargetShape) -> bool {
    img.valid() && target.valid()
}

proof fn lemma_scaled_below(a: int, s: int, n: int)
    requires
        0 <= a < n,
        0 < s,
    ensures
        0 <= a * s / n < s,
{
    assert(a * s < n * s) by (nonlinear_arith)
        requires 0 <= a < n, 0 < s;
    assert(0 <= a * s) by (nonlinear_arith)
        requires 0 <= a, 0 < s;
    lemma_multiply_divide_lt(a * s, n, s);
    lemma_div_pos_is_pos(a * s, n);
}

/// Computes `letterbox_of(w, h, target)`.
pub fn letterbox(w: u32, h: u32, target: TargetShape) -> (lb: Letterbox)
    requires
        0 < w <= MAX_IMAGE_SIDE,
        0 < h <= MAX_IMAGE_SIDE,
        target.valid(),
    ensures
        lb == letterbox_of(w as int, h as int, target),
        lb.valid(target),
{
    let tw = target.width as u64;
    let th = target.height as u64;
    let w64 = w as u64;
    let h64 = h as u64;
    proof {
        assert(w64 * th <= 0x1_0000 * 0x1000) by (nonlinear_arith)
            requires w64 <= 0x1_0000, th <= 0x1000;
        assert(h64 * tw <= 0x1_0000 * 0x1000) by (nonlinear_arith)
            requires h64 <= 0x1_0000, tw <= 0x1000;
    }
    let (nw, nh) = if w64 * th >= h64 * tw {
        proof {
            lemma_div_is_ordered(h64 * tw, w64 * th, w64 as int);
            assert((th * w64) / (w64 as int) == th) by { lemma_div_by_multiple(th as int, w64 as int); }
            assert(w64 * th == th * w64) by (nonlinear_arith);
        }
        let q = h64 * tw / w64;
        (tw, if q < 1 { 1 } else { q })
    } else {
        proof {
            lemma_div_is_ordered(w64 * th, h64 * tw, h64 as int);
            assert((tw * h64) / (h64 as int) == tw) by { lemma_div_by_multiple(tw as int, h64 as int); }
            assert(h64 * tw == tw * h64) by (nonlinear_arith);
        }
        let q = w64 * th / h64;
        (if q < 1 { 1 } else { q }, th)
    };
    Letterbox {
        src_width: w,
        src_height: h,
        new_width: nw as u32,
        new_height: nh as u32,
        pad_x: ((tw - nw) / 2) as u32,
        pad_y: ((th - nh) / 2) as u32,
    }
}

/// Letterboxes `img` into `target` and normalises it, channel-first.
/// Fails with `ShapeError` exactly when the image is degenerate, too large,
/// inconsistent with its buffer, or the target is not a valid size. On
/// success the tensor's shape is the target shape whatever the image's
/// aspect ratio.
pub fn prepare(img: &Image, target: TargetShape) -> (r: Result<(Tensor, Letterbox), PipelineError>)
    ensures
        r is Err <==> !preparable(*img, target),
        r is Err ==> r->Err_0 == PipelineError::ShapeError,
        r matches Ok((t, lb)) ==> {
            &&& t.shape@ == target.dims()
            &&& t.data@.len() == CHANNELS * target.plane()
            &&& lb == letterbox_of(img.width as int, img.height as int, target)
            &&& lb.valid(target)
            &&& forall|i: int| 0 <= i < t.data@.len() ==>
                    #[trigger] t.data@[i] == sample_at(img.pixels@, lb, target, i)
        },
{
    if img.width == 0 || img.height == 0 || img.width > MAX_IMAGE_SIDE || img.height > MAX_IMAGE_SIDE
        || target.width == 0 || target.height == 0 || target.width > MAX_TARGET_SIDE
        || target.height > MAX_TARGET_SIDE {
        return Err(PipelineError::ShapeError);
    }
    let w64 = img.width as u64;
    let h64 = img.height as u64;
    proof {
        assert(w64 * h64 <= 0x1_0000 * 0x1_0000) by (nonlinear_arith)
            requires w64 <= 0x1_0000, h64 <= 0x1_0000;
    }
    if img.pixels.len() as u64 != w64 * h64 * 3 {
        return Err(PipelineError::ShapeError);
    }
    let w = img.width as usize;
    let h = img.height as usize;
    let lb = letterbox(img.width, img.height, target);
    let tw = target.width as usize;
    let th = target.height as usize;
    proof {
        assert(th * tw <= 0x1000 * 0x1000) by (nonlinear_arith)
            requires th <= 0x1000, tw <= 0x1000;
    }
    let plane = th * tw;
    let total = CHANNELS * plane;
    let n_px = img.pixels.len();
    let mut data: Vec<u16> = Vec::new();
    let mut i: usize = 0;
    while i < total
        invariant
            i <= total,
            total == CHANNELS * target.plane(),
            plane == target.plane(),
            tw == target.width,
            th == target.height,
            w == img.width,
            h == img.height,
            img.pixels@.len() == w * h * CHANNELS,
            n_px == img.pixels@.len(),
            lb == letterbox_of(w as int, h as int, target),
            lb.valid(target),
            data@.len() == i,
            forall|k: int| 0 <= k < i ==> #[trigger] data@[k] == sample_at(img.pixels@, lb, target, k),
        decreases total - i,
    {
        proof {
            assert(th * tw == tw * th) by (nonlinear_arith);
            lemma_multiply_divide_lt(i as int, plane as int, CHANNELS as int);
            lemma_div_pos_is_pos(i as int, plane as int);
            lemma_mod_bound(i as int, plane as int);
            lemma_multiply_divide_lt((i % plane) as int, tw as int, th as int);
            lemma_div_pos_is_pos((i % plane) as int, tw as int);
            lemma_mod_bound((i % plane) as int, tw as int);
            assert(th * tw == tw * th) by (nonlinear_arith);
        }
        let c = i / plane;
        let rem = i % plane;
        let y = rem / tw;
        let x = rem % tw;
        let px = lb.pad_x as usize;
        let py = lb.pad_y as usize;
        let nw = lb.new_width as usize;
        let nh = lb.new_height as usize;
        let v: u16 = if px <= x && x < px + nw && py <= y && y < py + nh {
            proof {
                lemma_scaled_below((x - px) as int, w as int, nw as int);
                lemma_scaled_below((y - py) as int, h as int, nh as int);
                assert((x - px) * w <= 0x1000 * 0x1_0000) by (nonlinear_arith)
                    requires x - px <= 0x1000, w <= 0x1_0000;
                assert((y - py) * h <= 0x1000 * 0x1_0000) by (nonlinear_arith)
                    requires y - py <= 0x1000, h <= 0x1_0000;
            }
            let sx = (x - px) * w / nw;
            let sy = (y - py) * h / nh;
            proof {
                assert((sy * w + sx) * 3 + c < w * h * 3) by (nonlinear_arith)
                    requires sy < h, sx < w, c < 3;
                assert(sy * w <= (sy * w + sx) * 3 + c) by (nonlinear_arith)
                    requires 0 <= sx, 0 <= c, 0 <= sy * w;
                assert(0 <= sy * w) by (nonlinear_arith)
                    requires 0 <= sy, 0 <= w;
                assert((sy * w + sx) * 3 + c < img.pixels@.len());
                assert(sy * w + sx <= (sy * w + sx) * 3 + c);
            }
            img.pixels[(sy * w + sx) * CHANNELS + c] as u16 * NORM_FACTOR
        } else {
            FILL_VALUE as u16 * NORM_FACTOR
        };
        data.push(v);
        i += 1;
    }
    let shape: Vec<usize> = vec![CHANNELS, th, tw];
    proof {
        assert(shape@ =~= target.dims());
    }
    Ok((Tensor { shape, data }, lb))
}

} // verus!
