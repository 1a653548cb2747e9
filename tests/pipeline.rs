use crop_vision::{
    decode_image, decode_output, evaluate, letterbox, load_model, postprocess, prepare,
    preprocess_bytes, raw_output, run, sort_by_confidence, suppress, BBox, Candidate, Head, Image,
    Letterbox, PipelineConfig, PipelineError, SuppressConfig, TargetShape, Tensor, FILL_VALUE,
    NORM_FACTOR, PROB_SCALE,
};
use std::io::Cursor;

fn boxed(confidence: u32, class_id: u32, x: i32, y: i32, w: u32, h: u32) -> Candidate {
    Candidate { confidence, class_id, bbox: Some(BBox { x, y, w, h }) }
}

fn nms(iou: u32) -> SuppressConfig {
    SuppressConfig { iou_threshold: iou, class_aware: true }
}

fn encoded(w: u32, h: u32, format: image::ImageFormat) -> Vec<u8> {
    let img = image::RgbImage::from_pixel(w, h, image::Rgb([120, 60, 200]));
    let mut out = Cursor::new(Vec::new());
    img.write_to(&mut out, format).unwrap();
    out.into_inner()
}

fn jpeg_bytes(w: u32, h: u32) -> Vec<u8> {
    encoded(w, h, image::ImageFormat::Jpeg)
}

fn config(target: TargetShape) -> PipelineConfig {
    PipelineConfig {
        target,
        max_side: 1000,
        confidence_threshold: 250_000,
        suppression: nms(450_000),
    }
}

#[test]
fn high_overlap_keeps_only_more_confident() {
    let c = vec![boxed(900_000, 0, 0, 0, 10, 10), boxed(800_000, 0, 1, 1, 10, 10)];
    let r = suppress(&c, nms(500_000));
    assert_eq!(r, vec![c[0]]);
}

#[test]
fn disjoint_boxes_both_kept_by_confidence() {
    let c = vec![boxed(600_000, 0, 0, 0, 10, 10), boxed(700_000, 0, 50, 50, 10, 10)];
    let r = suppress(&c, nms(500_000));
    assert_eq!(r.len(), 2);
    assert_eq!(r[0].confidence, 700_000);
    assert_eq!(r[1].confidence, 600_000);
}

#[test]
fn overlap_of_other_class_kept_when_class_aware() {
    let c = vec![boxed(900_000, 0, 0, 0, 10, 10), boxed(800_000, 1, 1, 1, 10, 10)];
    assert_eq!(suppress(&c, nms(500_000)).len(), 2);
    let global = SuppressConfig { iou_threshold: 500_000, class_aware: false };
    assert_eq!(suppress(&c, global), vec![c[0]]);
}

#[test]
fn iou_threshold_edges() {
    let c = vec![boxed(900_000, 0, 0, 0, 10, 10), boxed(800_000, 0, 1, 1, 10, 10)];
    // IoU is 81 / 119, about 0.68.
    assert_eq!(suppress(&c, nms(680_000)).len(), 1);
    assert_eq!(suppress(&c, nms(681_000)).len(), 2);
    assert_eq!(suppress(&c, nms(PROB_SCALE)).len(), 2);
    assert_eq!(suppress(&c, nms(0)).len(), 1);
}

#[test]
fn empty_candidates_give_empty_result() {
    assert!(suppress(&vec![], nms(500_000)).is_empty());
}

#[test]
fn ties_keep_input_order() {
    let c = vec![
        Candidate { confidence: 5, class_id: 1, bbox: None },
        Candidate { confidence: 9, class_id: 2, bbox: None },
        Candidate { confidence: 5, class_id: 3, bbox: None },
    ];
    let s = sort_by_confidence(&c);
    assert_eq!(s.iter().map(|c| c.class_id).collect::<Vec<_>>(), vec![2, 1, 3]);
    // with equal boxes, the first of two equal confidences is kept
    let d = vec![boxed(5, 7, 0, 0, 4, 4), boxed(5, 8, 0, 0, 4, 4)];
    let global = SuppressConfig { iou_threshold: 500_000, class_aware: false };
    assert_eq!(suppress(&d, global), vec![d[0]]);
}

#[test]
fn suppress_is_idempotent() {
    let c = vec![
        boxed(300_000, 0, 0, 0, 10, 10),
        boxed(900_000, 0, 2, 2, 10, 10),
        boxed(800_000, 0, 30, 30, 10, 10),
        boxed(700_000, 1, 1, 1, 10, 10),
        boxed(850_000, 0, 31, 30, 10, 10),
    ];
    let once = suppress(&c, nms(400_000));
    let twice = suppress(&once, nms(400_000));
    assert_eq!(once, twice);
    assert_eq!(once.len(), 3);
}

#[test]
fn suppress_is_deterministic() {
    let c = vec![
        boxed(500_000, 0, 0, 0, 10, 10),
        boxed(500_000, 0, 1, 0, 10, 10),
        boxed(500_000, 0, 2, 0, 10, 10),
    ];
    let a = suppress(&c, nms(500_000));
    let b = suppress(&c, nms(500_000));
    assert_eq!(a, b);
    assert_eq!(a, vec![c[0]]);
}

#[test]
fn full_threshold_keeps_every_candidate() {
    let c = vec![
        boxed(900_000, 0, 0, 0, 10, 10),
        boxed(800_000, 0, 0, 0, 10, 10),
        boxed(700_000, 0, 1, 1, 10, 10),
    ];
    let all = suppress(&c, nms(PROB_SCALE)).len();
    assert_eq!(all, 3);
    for t in [0u32, 100_000, 500_000, 900_000] {
        assert!(suppress(&c, nms(t)).len() <= all);
    }
}

#[test]
fn letterbox_exact_placement() {
    let lb = letterbox(20, 10, TargetShape { width: 8, height: 8 });
    assert_eq!(
        lb,
        Letterbox { src_width: 20, src_height: 10, new_width: 8, new_height: 4, pad_x: 0, pad_y: 2 }
    );
    let tall = letterbox(10, 40, TargetShape { width: 8, height: 8 });
    assert_eq!((tall.new_width, tall.new_height, tall.pad_x, tall.pad_y), (2, 8, 3, 0));
}

#[test]
fn prepare_shape_matches_target_for_any_aspect() {
    let target = TargetShape { width: 6, height: 4 };
    for (w, h) in [(1u32, 1u32), (10, 2), (2, 10), (6, 4), (7, 3)] {
        let img = Image { width: w, height: h, pixels: vec![200; (w * h * 3) as usize] };
        let (t, _) = prepare(&img, target).unwrap();
        assert_eq!(t.shape, vec![3, 4, 6]);
        assert_eq!(t.data.len(), 3 * 4 * 6);
    }
}

#[test]
fn prepare_normalises_and_pads() {
    // one pixel, scaled to fill a 2x1 target: no padding on either side
    let img = Image { width: 1, height: 1, pixels: vec![10, 20, 30] };
    let (t, _) = prepare(&img, TargetShape { width: 1, height: 1 }).unwrap();
    assert_eq!(t.data, vec![2570, 5140, 7710]);
    // a 2x1 image in a 2x2 target: the lower row is padding
    let img = Image { width: 2, height: 1, pixels: vec![255, 0, 0, 0, 255, 0] };
    let (t, lb) = prepare(&img, TargetShape { width: 2, height: 2 }).unwrap();
    assert_eq!((lb.new_width, lb.new_height, lb.pad_y), (2, 1, 0));
    let fill = FILL_VALUE as u16 * NORM_FACTOR;
    assert_eq!(t.data, vec![65535, 0, fill, fill, 0, 65535, fill, fill, 0, 0, fill, fill]);
}

#[test]
fn prepare_rejects_degenerate_image() {
    let img = Image { width: 0, height: 5, pixels: vec![] };
    assert_eq!(prepare(&img, TargetShape { width: 4, height: 4 }).unwrap_err(), PipelineError::ShapeError);
    let bad = Image { width: 2, height: 2, pixels: vec![0; 5] };
    assert_eq!(prepare(&bad, TargetShape { width: 4, height: 4 }).unwrap_err(), PipelineError::ShapeError);
}

#[test]
fn decode_then_prepare_gives_target_shape() {
    let target = TargetShape { width: 16, height: 8 };
    for (w, h) in [(30u32, 5u32), (5, 30), (12, 12)] {
        let (t, lb) = preprocess_bytes(&jpeg_bytes(w, h), 1000, target).unwrap();
        assert_eq!(t.shape, vec![3, 8, 16]);
        assert_eq!((lb.src_width, lb.src_height), (w, h));
    }
}

#[test]
fn decode_reads_real_pixels() {
    let img = decode_image(&jpeg_bytes(3, 2), 1000).unwrap();
    assert_eq!((img.width, img.height), (3, 2));
    assert_eq!(img.pixels.len(), 3 * 2 * 3);
    for px in img.pixels.chunks(3) {
        for (got, want) in px.iter().zip([120u8, 60, 200]) {
            assert!((*got as i32 - want as i32).abs() <= 4, "{px:?}");
        }
    }
}

#[test]
fn only_jpeg_is_decoded() {
    let png = encoded(4, 4, image::ImageFormat::Png);
    assert_eq!(decode_image(&png, 1000).unwrap_err(), PipelineError::DecodeError);
}

#[test]
fn malformed_bytes_are_decode_errors() {
    assert_eq!(decode_image(&[], 1000).unwrap_err(), PipelineError::DecodeError);
    assert_eq!(decode_image(&[0xFF, 0xD8, 0xFF], 1000).unwrap_err(), PipelineError::DecodeError);
    let mut jpeg = jpeg_bytes(4, 4);
    jpeg.truncate(20);
    assert_eq!(decode_image(&jpeg, 1000).unwrap_err(), PipelineError::DecodeError);
    assert_eq!(decode_image(&jpeg_bytes(20, 4), 10).unwrap_err(), PipelineError::DecodeError);
}

fn tiny_classifier(target: TargetShape) -> crop_vision::Model {
    let n = (3 * target.width * target.height) as usize;
    let mut weights = vec![1i32; n];
    weights.extend(vec![-1i32; n]);
    weights.extend(vec![0i32; n]);
    load_model(target, Head::Classification { classes: 3 }, weights, vec![0, 400_000, 300_000]).unwrap()
}

#[test]
fn malformed_bytes_halt_pipeline() {
    let target = TargetShape { width: 1, height: 1 };
    let m = tiny_classifier(target);
    assert_eq!(run(&m, &[0xFF, 0xD8, 0xFF], config(target)).unwrap_err(), PipelineError::DecodeError);
}

#[test]
fn shape_mismatch_is_inference_error() {
    let m = tiny_classifier(TargetShape { width: 2, height: 2 });
    let img = Image { width: 1, height: 1, pixels: vec![1, 2, 3] };
    let (t, _) = prepare(&img, TargetShape { width: 3, height: 2 }).unwrap();
    assert_eq!(evaluate(&m, &t).unwrap_err(), PipelineError::InferenceError);
    let wrong = Tensor { shape: vec![3, 2, 2], data: vec![0; 5] };
    assert_eq!(evaluate(&m, &wrong).unwrap_err(), PipelineError::InferenceError);
    let r = run(&m, &jpeg_bytes(4, 4), config(TargetShape { width: 3, height: 3 }));
    assert_eq!(r.unwrap_err(), PipelineError::InferenceError);
}

#[test]
fn evaluate_exact_outputs() {
    let target = TargetShape { width: 1, height: 1 };
    let m = tiny_classifier(target);
    let img = Image { width: 1, height: 1, pixels: vec![10, 20, 30] };
    let (t, _) = prepare(&img, target).unwrap();
    let raw = evaluate(&m, &t).unwrap();
    assert_eq!(raw.values, vec![15420, 400_000 - 15420, 300_000]);
    let big = load_model(target, Head::Classification { classes: 1 }, vec![1000, 1000, 1000], vec![0]).unwrap();
    assert_eq!(evaluate(&big, &t).unwrap().values, vec![PROB_SCALE as i64]);
}

#[test]
fn load_model_checks_sizes() {
    let target = TargetShape { width: 1, height: 1 };
    let r = load_model(target, Head::Classification { classes: 2 }, vec![0; 5], vec![0, 0]);
    assert_eq!(r.unwrap_err(), PipelineError::ModelLoadError);
    let r = load_model(target, Head::Detection { anchors: 1, classes: 0 }, vec![0; 12], vec![0; 4]);
    assert_eq!(r.unwrap_err(), PipelineError::ModelLoadError);
    assert!(load_model(target, Head::Detection { anchors: 1, classes: 1 }, vec![0; 15], vec![0; 5]).is_ok());
}

#[test]
fn all_scores_below_threshold_give_empty_results() {
    let lb = letterbox(4, 4, TargetShape { width: 4, height: 4 });
    let raw = raw_output(Head::Classification { classes: 3 }, vec![100, 200_000, 0]).unwrap();
    let c = decode_output(&raw, &lb, 250_000);
    assert!(c.is_empty());
    assert!(suppress(&c, nms(450_000)).is_empty());
    let det = raw_output(Head::Detection { anchors: 2, classes: 1 }, vec![1, 1, 2, 2, 10, 2, 2, 2, 2, 20]).unwrap();
    assert!(decode_output(&det, &lb, 250_000).is_empty());
}

#[test]
fn classification_decodes_one_candidate_per_class() {
    let lb = letterbox(4, 4, TargetShape { width: 4, height: 4 });
    let raw = raw_output(Head::Classification { classes: 3 }, vec![300_000, 100, 600_000]).unwrap();
    let c = decode_output(&raw, &lb, 250_000);
    assert_eq!(
        c,
        vec![
            Candidate { confidence: 300_000, class_id: 0, bbox: None },
            Candidate { confidence: 600_000, class_id: 2, bbox: None },
        ]
    );
    let cfg = config(TargetShape { width: 4, height: 4 });
    let p = postprocess(&raw, &lb, cfg);
    assert_eq!(p.iter().map(|c| c.class_id).collect::<Vec<_>>(), vec![2, 0]);
}

#[test]
fn detection_box_maps_back_to_source() {
    let lb = letterbox(20, 10, TargetShape { width: 8, height: 8 });
    let raw = raw_output(Head::Detection { anchors: 1, classes: 2 }, vec![4, 4, 4, 2, 100_000, 700_000]).unwrap();
    let c = decode_output(&raw, &lb, 250_000);
    assert_eq!(c, vec![boxed(700_000, 1, 5, 2, 10, 5)]);
}

#[test]
fn confidence_floor_holds_after_postprocess() {
    let lb = letterbox(8, 8, TargetShape { width: 8, height: 8 });
    let raw = raw_output(
        Head::Detection { anchors: 3, classes: 1 },
        vec![2, 2, 4, 4, 900_000, 2, 2, 4, 4, 240_000, 6, 6, 2, 2, 260_000],
    )
    .unwrap();
    let cfg = config(TargetShape { width: 8, height: 8 });
    let p = postprocess(&raw, &lb, cfg);
    assert_eq!(p.len(), 2);
    assert!(p.iter().all(|c| c.confidence >= cfg.confidence_threshold));
}

#[test]
fn raw_output_rejects_non_probabilities() {
    let r = raw_output(Head::Classification { classes: 2 }, vec![5, PROB_SCALE as i64 + 1]);
    assert_eq!(r.unwrap_err(), PipelineError::InferenceError);
    let r = raw_output(Head::Detection { anchors: 1, classes: 1 }, vec![-5, -5, -5, -5, -1]);
    assert_eq!(r.unwrap_err(), PipelineError::InferenceError);
    let r = raw_output(Head::Classification { classes: 2 }, vec![5]);
    assert_eq!(r.unwrap_err(), PipelineError::InferenceError);
}

#[test]
fn run_end_to_end() {
    let target = TargetShape { width: 1, height: 1 };
    let m = tiny_classifier(target);
    let a = run(&m, &jpeg_bytes(5, 3), config(target)).unwrap();
    let b = run(&m, &jpeg_bytes(5, 3), config(target)).unwrap();
    assert_eq!(a, b);
    assert!(!a.is_empty());
    assert!(a.windows(2).all(|w| w[0].confidence >= w[1].confidence));
    assert!(a.iter().all(|c| c.confidence >= 250_000));
    let zero = run(&m, &jpeg_bytes(5, 3), PipelineConfig { max_side: 4, ..config(target) });
    assert_eq!(zero.unwrap_err(), PipelineError::DecodeError);
}

fn model_source(header: [u32; 5], values: &[i32]) -> Vec<u8> {
    let mut b = Vec::new();
    for v in header {
        b.extend_from_slice(&v.to_le_bytes());
    }
    for v in values {
        b.extend_from_slice(&v.to_le_bytes());
    }
    b
}

#[test]
fn parse_model_reads_weights_and_bias() {
    let src = model_source([1, 1, 0, 2, 0], &[1, 2, 3, -4, -5, -6, 70, -80]);
    let m = crop_vision::parse_model(&src).unwrap();
    assert_eq!(m.input, TargetShape { width: 1, height: 1 });
    assert_eq!(m.head, Head::Classification { classes: 2 });
    assert_eq!(m.weights, vec![1, 2, 3, -4, -5, -6]);
    assert_eq!(m.bias, vec![70, -80]);
    let det = model_source([1, 1, 1, 1, 2], &[0; 3 * 10 + 10]);
    assert_eq!(crop_vision::parse_model(&det).unwrap().head, Head::Detection { anchors: 2, classes: 1 });
}

#[test]
fn parse_model_rejects_corrupt_sources() {
    let good = model_source([1, 1, 0, 2, 0], &[0; 8]);
    assert!(crop_vision::parse_model(&good).is_ok());
    let err = Err(PipelineError::ModelLoadError);
    assert_eq!(crop_vision::parse_model(&[]).map(|_| ()), err);
    assert_eq!(crop_vision::parse_model(&good[..good.len() - 1]).map(|_| ()), err);
    let mut longer = good.clone();
    longer.push(0);
    assert_eq!(crop_vision::parse_model(&longer).map(|_| ()), err);
    assert_eq!(crop_vision::parse_model(&model_source([1, 1, 7, 2, 0], &[0; 8])).map(|_| ()), err);
    assert_eq!(crop_vision::parse_model(&model_source([0, 1, 0, 2, 0], &[])).map(|_| ()), err);
}

#[test]
fn raising_iou_threshold_can_drop_count() {
    // Greedy suppression is not monotone in the threshold: at 0.6 the second
    // box survives and removes two boxes that the first one left alone at 0.5.
    let c = vec![
        boxed(900_000, 0, 0, 3, 10, 10),
        boxed(800_000, 0, 0, 0, 10, 10),
        boxed(700_000, 0, -2, 0, 10, 10),
        boxed(600_000, 0, 2, 0, 10, 10),
    ];
    assert_eq!(suppress(&c, nms(500_000)).len(), 3);
    assert_eq!(suppress(&c, nms(600_000)).len(), 2);
    assert_eq!(suppress(&c, nms(PROB_SCALE)).len(), 4);
}
