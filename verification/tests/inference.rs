use agent_desktop::caption::caption_text;
use agent_desktop::ctc::{ctc_collapse, ocr_dictionary};
use agent_desktop::detections::{nms, number_blocks, sort_by_spatial_locality, stable_order};
use agent_desktop::regions::{expand_box, find_regions};
use agent_desktop::spatial::morton_code;

/// A normalized coordinate on the 16-bit grid the Morton code uses.
fn quantize(v: f64) -> u64 {
    (v.clamp(0.0, 1.0) * 65535.0) as u64
}

/// Intersection over union of two boxes `(x1, y1, x2, y2)`.
fn iou(a: (f64, f64, f64, f64), b: (f64, f64, f64, f64)) -> f64 {
    let x1 = a.0.max(b.0);
    let y1 = a.1.max(b.1);
    let x2 = a.2.min(b.2);
    let y2 = a.3.min(b.3);
    let inter = (x2 - x1).max(0.0) * (y2 - y1).max(0.0);
    let area = |r: (f64, f64, f64, f64)| (r.2 - r.0) * (r.3 - r.1);
    let union = area(a) + area(b) - inter;
    if union <= 0.0 { 0.0 } else { inter / union }
}

fn overlap_matrix(boxes: &[(f64, f64, f64, f64)], threshold: f64) -> Vec<Vec<bool>> {
    boxes
        .iter()
        .map(|a| boxes.iter().map(|b| iou(*a, *b) > threshold).collect())
        .collect()
}

#[test]
fn test_nms_removes_overlapping() {
    let boxes = vec![(0.0, 0.0, 0.5, 0.5), (0.05, 0.05, 0.55, 0.55), (0.8, 0.8, 1.0, 1.0)];
    let confidences: Vec<f64> = vec![0.9, 0.7, 0.8];
    let keys: Vec<u64> = confidences.iter().map(|c| c.to_bits()).collect();
    let kept = nms(&keys, &overlap_matrix(&boxes, 0.3));
    assert_eq!(kept.len(), 2);
    assert!((confidences[kept[0]] - 0.9).abs() < 1e-6);
    assert!((confidences[kept[1]] - 0.8).abs() < 1e-6);
}

#[test]
fn test_sort_by_spatial_locality() {
    let boxes = vec![(0.9, 0.9, 1.0, 1.0), (0.0, 0.0, 0.1, 0.1), (0.5, 0.5, 0.6, 0.6)];
    let codes: Vec<u64> = boxes.iter().map(|b| morton_code(quantize(b.0), quantize(b.1))).collect();
    let order = sort_by_spatial_locality(&codes);
    assert!((boxes[order[0]].0 - 0.0).abs() < 1e-6);
    assert!((boxes[order[2]].0 - 0.9).abs() < 1e-6);
}

#[test]
fn test_morton_nearby_boxes_have_close_codes() {
    let close_a = morton_code(quantize(0.5), quantize(0.5));
    let close_b = morton_code(quantize(0.51), quantize(0.5));
    let far = morton_code(quantize(0.9), quantize(0.9));
    let close_diff = close_a.abs_diff(close_b);
    let far_diff = close_a.abs_diff(far);
    assert!(close_diff < far_diff);
}

#[test]
fn morton_code_interleaves_bits() {
    assert_eq!(morton_code(0, 0), 0);
    assert_eq!(morton_code(1, 0), 0b10);
    assert_eq!(morton_code(0, 1), 0b01);
    assert_eq!(morton_code(0b11, 0b01), 0b1011);
    assert_eq!(morton_code(0xffff, 0xffff), 0xffff_ffff);
    // only the low 16 bits of each coordinate count
    assert_eq!(morton_code(0x1_0000, 0x1_0000), 0);
}

#[test]
fn stable_order_keeps_ties_in_input_order() {
    let keys = vec![5u64, 9, 5, 1];
    assert_eq!(stable_order(&keys, true), vec![1, 0, 2, 3]);
    assert_eq!(stable_order(&keys, false), vec![3, 0, 2, 1]);
}

#[test]
fn nms_keeps_everything_without_overlap() {
    let keys = vec![3u64, 1, 2];
    let overlaps = vec![vec![true, false, false], vec![false, true, false], vec![false, false, true]];
    assert_eq!(nms(&keys, &overlaps), vec![0, 2, 1]);
}

#[test]
fn nms_dropped_detection_overlaps_a_kept_one() {
    // 0 overlaps 1, 1 overlaps 2, 0 and 2 do not overlap: 0 is kept, 1 dropped, 2 kept.
    let keys = vec![30u64, 20, 10];
    let overlaps = vec![vec![true, true, false], vec![true, true, true], vec![false, true, true]];
    assert_eq!(nms(&keys, &overlaps), vec![0, 2]);
}

#[test]
fn number_blocks_keeps_top_confidence_then_orders_spatially() {
    let keys = vec![1u64, 9, 5];
    let codes = vec![10u64, 30, 20];
    let blocks = number_blocks(&keys, &codes, Some(2));
    assert_eq!(blocks.len(), 2);
    assert_eq!((blocks[0].id, blocks[0].detection), (1, 2));
    assert_eq!((blocks[1].id, blocks[1].detection), (2, 1));
    let all = number_blocks(&keys, &codes, None);
    let dets: Vec<usize> = all.iter().map(|b| b.detection).collect();
    assert_eq!(dets, vec![0, 2, 1]);
    let ids: Vec<u32> = all.iter().map(|b| b.id).collect();
    assert_eq!(ids, vec![1, 2, 3]);
}

#[test]
fn find_regions_separates_components() {
    // 4 x 3 grid:
    // X X . .
    // . . . X
    // . . X X
    let on = [(0, 0), (1, 0), (3, 1), (2, 2), (3, 2)];
    let (w, h) = (4usize, 3usize);
    let mut binary = vec![false; w * h];
    for (x, y) in on {
        binary[y * w + x] = true;
    }
    let regions = find_regions(&binary, w, h);
    assert_eq!(regions.len(), 2);
    let r0 = &regions[0];
    assert_eq!((r0.min_x, r0.min_y, r0.max_x, r0.max_y), (0, 0, 1, 0));
    assert_eq!(r0.cells.len(), 2);
    let r1 = &regions[1];
    assert_eq!((r1.min_x, r1.min_y, r1.max_x, r1.max_y), (2, 1, 3, 2));
    assert_eq!(r1.cells.len(), 3);
}

#[test]
fn find_regions_on_empty_map() {
    let regions = find_regions(&vec![false; 6], 3, 2);
    assert!(regions.is_empty());
}

#[test]
fn expand_box_grows_by_a_quarter_and_clamps() {
    // a box 9 wide and 3 high in a 100 x 100 image grows by 2 sideways, not at all up or down
    assert_eq!(expand_box(20, 20, 29, 23, 100, 100), (18, 20, 31, 23));
    assert_eq!(expand_box(40, 40, 60, 48, 100, 100), (35, 38, 65, 50));
    // clamped at the image's edges
    assert_eq!(expand_box(0, 0, 9, 9, 10, 10), (0, 0, 9, 9));
}

#[test]
fn ctc_collapse_drops_blanks_and_repeats() {
    // blank = 0; "a a _ a b b _" with a dictionary of 3 entries
    let best = vec![1usize, 1, 0, 1, 2, 2, 0, 7];
    assert_eq!(ctc_collapse(&best, 3), vec![0, 3, 4]);
    assert!(ctc_collapse(&vec![0, 0, 0], 3).is_empty());
}

#[test]
fn captions_drop_the_task_token() {
    assert_eq!(caption_text("<CAPTION> a red button "), "a red button");
    assert_eq!(caption_text("  plain  "), "plain");
    assert_eq!(caption_text("<CAP"), "<CAP");
    assert_eq!(caption_text("<CAPTION>"), "");
}

#[test]
fn ocr_dictionary_from_lines() {
    assert_eq!(ocr_dictionary("a\nbc\n\nd\r\n"), vec![' ', 'a', 'b', 'd']);
    assert_eq!(ocr_dictionary(""), vec![' ']);
}
