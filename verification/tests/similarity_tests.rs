use auto_rappy::frame::Frame;
use auto_rappy::ssim::{get_ssim, ComparisonError, SIM_SCALE};

fn frame(w: usize, h: usize, c: usize, data: Vec<u8>) -> Frame {
    Frame::from_data(w, h, c, data).expect("well-formed frame")
}

fn gradient(w: usize, h: usize) -> Frame {
    let mut data = Vec::new();
    for k in 0..w * h {
        data.push(64 + (k % 128) as u8);
    }
    frame(w, h, 1, data)
}

/// The same gradient with deterministic per-pixel noise of amplitude
/// `amp`; values stay inside `0..=255` for `amp <= 64`.
fn noisy_gradient(w: usize, h: usize, amp: i32) -> Frame {
    let mut data = Vec::new();
    for k in 0..w * h {
        let base = 64 + (k % 128) as i32;
        let sign = if (k * 7 + 3) % 2 == 0 { 1 } else { -1 };
        data.push((base + sign * amp) as u8);
    }
    frame(w, h, 1, data)
}

#[test]
fn ssim_of_image_with_itself_is_one() {
    let f = gradient(8, 8);
    assert_eq!(get_ssim(&f, &f, true), Ok(SIM_SCALE));
}

#[test]
fn ssim_of_color_image_with_itself_is_one() {
    let mut data = Vec::new();
    for k in 0..8 * 8 * 3 {
        data.push((k % 251) as u8);
    }
    let f = frame(8, 8, 3, data);
    assert_eq!(get_ssim(&f, &f, false), Ok(SIM_SCALE));
}

#[test]
fn ssim_is_symmetric() {
    let a = gradient(8, 8);
    let b = noisy_gradient(8, 8, 30);
    let ab = get_ssim(&a, &b, true).unwrap();
    let ba = get_ssim(&b, &a, true).unwrap();
    assert_eq!(ab, ba);
}

#[test]
fn ssim_decreases_as_noise_increases() {
    let base = gradient(16, 16);
    let mut last = SIM_SCALE + 1;
    for amp in [0, 8, 24, 64] {
        let noisy = noisy_gradient(16, 16, amp);
        let score = get_ssim(&base, &noisy, true).unwrap();
        assert!(score < last, "score {} not below {} at amplitude {}", score, last, amp);
        last = score;
    }
}

#[test]
fn ssim_rejects_mismatched_sizes() {
    let a = gradient(8, 8);
    let b = gradient(8, 9);
    assert_eq!(get_ssim(&a, &b, true), Err(ComparisonError::DimensionMismatch));
}

#[test]
fn ssim_score_stays_in_range() {
    // black against white: as dissimilar as frames get
    let a = frame(8, 8, 1, vec![0; 64]);
    let b = frame(8, 8, 1, vec![255; 64]);
    let s = get_ssim(&a, &b, true).unwrap();
    assert!(-SIM_SCALE <= s && s <= SIM_SCALE);
    assert!(s < SIM_SCALE / 2);
}
