use trap_engine::detect::{blur_down, compare, get_diff_edges};
use trap_engine::pixels::{PixelType, Pixels};

fn frame_with(w: usize, h: usize, f: impl Fn(usize, usize) -> u8) -> Vec<u8> {
    let mut v = Vec::with_capacity(w * h);
    for y in 0..h {
        for x in 0..w {
            v.push(f(x, y));
        }
    }
    v
}

#[test]
fn pixels_gray_reads_row_major() {
    let data: Vec<u8> = (0..12).collect();
    let p = Pixels::new(4, &data, PixelType::Gray);
    assert_eq!(p.get(0, 0), 0);
    assert_eq!(p.get(3, 0), 3);
    assert_eq!(p.get(1, 2), 9);
}

#[test]
fn pixels_yuyv_skips_chroma() {
    let data: Vec<u8> = vec![10, 128, 20, 128, 30, 128, 40, 128];
    let p = Pixels::new(2, &data, PixelType::YUYV);
    assert_eq!(p.get(0, 0), 10);
    assert_eq!(p.get(1, 0), 20);
    assert_eq!(p.get(0, 1), 30);
    assert_eq!(p.get(1, 1), 40);
}

#[test]
fn zero_frames_give_empty_mask_and_zero_score() {
    let a = vec![0u8; 64];
    let b = vec![0u8; 64];
    let mask = get_diff_edges(&a, &b, 8, 8, 10);
    assert_eq!(mask.len(), 36);
    assert!(mask.iter().all(|&m| m == 0));
    assert_eq!(compare(&a, &b, 8, 8, 10), 0);
}

#[test]
fn single_step_gives_one_edge() {
    // One differing sample left of the first interior pixel: its gradient
    // is 2 * 100 under the two-by-two window.
    let a = vec![0u8; 16];
    let mut b = vec![0u8; 16];
    b[4] = 100;
    assert_eq!(get_diff_edges(&a, &b, 4, 4, 199), vec![255, 0, 0, 0]);
    assert_eq!(compare(&a, &b, 4, 4, 199), 1);
}

#[test]
fn threshold_is_strict() {
    let a = vec![0u8; 16];
    let mut b = vec![0u8; 16];
    b[4] = 100;
    assert_eq!(get_diff_edges(&a, &b, 4, 4, 200), vec![0, 0, 0, 0]);
    assert_eq!(compare(&a, &b, 4, 4, 200), 0);
}

#[test]
fn sample_above_counts_negatively() {
    // A difference above the pixel gives gradient -2 * 60; its magnitude
    // is what is compared.
    let a = vec![0u8; 16];
    let mut b = vec![0u8; 16];
    b[1] = 60;
    assert_eq!(compare(&a, &b, 4, 4, 119), 1);
    assert_eq!(compare(&a, &b, 4, 4, 120), 0);
}

#[test]
fn diff_is_symmetric() {
    let a = frame_with(9, 7, |x, y| ((x * 37 + y * 91) % 256) as u8);
    let b = frame_with(9, 7, |x, y| ((x * x * 13 + y * 5) % 256) as u8);
    for t in [0i16, 10, 50, 200] {
        assert_eq!(compare(&a, &b, 9, 7, t), compare(&b, &a, 9, 7, t));
        assert_eq!(get_diff_edges(&a, &b, 9, 7, t), get_diff_edges(&b, &a, 9, 7, t));
    }
}

#[test]
fn frame_against_itself_scores_zero() {
    let a = frame_with(10, 10, |x, y| ((x * 71 + y * 29) % 256) as u8);
    for t in [0i16, 1, 100] {
        assert_eq!(compare(&a, &a, 10, 10, t), 0);
        assert!(get_diff_edges(&a, &a, 10, 10, t).iter().all(|&m| m == 0));
    }
}

#[test]
fn score_does_not_rise_with_threshold() {
    let a = frame_with(12, 9, |x, y| ((x * 53 + y * 17) % 256) as u8);
    let b = frame_with(12, 9, |x, y| ((x * 3 + y * y * 41) % 256) as u8);
    let mut last = compare(&a, &b, 12, 9, -1);
    assert_eq!(last, 70);
    for t in 0..600i16 {
        let c = compare(&a, &b, 12, 9, t);
        assert!(c <= last);
        last = c;
    }
    assert_eq!(last, 0);
}

#[test]
fn degenerate_sizes_have_no_interior() {
    let a = vec![5u8; 6];
    let b = vec![9u8; 6];
    assert_eq!(compare(&a, &b, 2, 3, 0), 0);
    assert!(get_diff_edges(&a, &b, 2, 3, 0).is_empty());
    assert_eq!(compare(&a, &b, 0, 0, 0), 0);
    assert!(get_diff_edges(&a, &b, 1, 6, 0).is_empty());
}

#[test]
fn blur_alternating_columns() {
    let f = frame_with(16, 16, |x, _| if x % 2 == 0 { 0 } else { 255 });
    let p = Pixels::new(16, &f, PixelType::Gray);
    // Each window spans four columns, two of each value: 4 * 510 / 16.
    assert_eq!(blur_down(&p, 16, 16, 4), vec![127, 127, 127, 127]);
}

#[test]
fn blur_constant_frame() {
    let f = vec![7u8; 256];
    let p = Pixels::new(16, &f, PixelType::Gray);
    assert_eq!(blur_down(&p, 16, 16, 4), vec![7, 7, 7, 7]);
}

#[test]
fn blur_constant_yuyv_frame_ignores_chroma() {
    let mut f = Vec::new();
    for i in 0..(24 * 16) {
        f.push(200);
        f.push((i * 31 % 256) as u8);
    }
    let p = Pixels::new(24, &f, PixelType::YUYV);
    assert_eq!(blur_down(&p, 24, 16, 4), vec![200; 4 * 2]);
}

#[test]
fn blur_odd_ratio_averages_its_own_window() {
    // Ratio 3 gives a two-by-two window; the mean is over those four samples.
    let f = vec![200u8; 144];
    let p = Pixels::new(12, &f, PixelType::Gray);
    assert_eq!(blur_down(&p, 12, 12, 3), vec![200, 200, 200, 200]);
}

#[test]
fn blur_truncates_the_mean() {
    // Ratio 2 on a 6x6 frame: one cell, window columns 1..3, rows 1..3.
    let f = frame_with(6, 6, |x, y| if x == 1 && y == 1 { 3 } else { 0 });
    let p = Pixels::new(6, &f, PixelType::Gray);
    assert_eq!(blur_down(&p, 6, 6, 2), vec![0]);
    let g = frame_with(6, 6, |x, y| if (1..3).contains(&x) && (1..3).contains(&y) { 3 + x as u8 } else { 0 });
    let q = Pixels::new(6, &g, PixelType::Gray);
    // (4 + 5 + 4 + 5) / 4 = 4.5, truncated.
    assert_eq!(blur_down(&q, 6, 6, 2), vec![4]);
}

#[test]
fn blur_small_frame_is_empty() {
    let f = vec![1u8; 64];
    let p = Pixels::new(8, &f, PixelType::Gray);
    assert!(blur_down(&p, 8, 8, 4).is_empty());
    assert!(blur_down(&p, 8, 8, 16).is_empty());
}
