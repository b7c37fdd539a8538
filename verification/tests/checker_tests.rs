use auto_rappy::auto_rappy::{
    check_game_shot, SIM_THRESHOLD_COIN, SIM_THRESHOLD_KEY_READY, SIM_THRESHOLD_TARGET,
};
use auto_rappy::frame::Frame;

fn frame(w: usize, h: usize, c: usize, data: Vec<u8>) -> Frame {
    Frame::from_data(w, h, c, data).expect("well-formed frame")
}

fn two_tone(w: usize, h: usize) -> Frame {
    let mut data = Vec::new();
    for r in 0..h {
        for c in 0..w {
            data.push(if (r / 2 + c / 3) % 2 == 0 { 220 } else { 30 });
        }
    }
    frame(w, h, 1, data)
}

#[test]
fn identical_shots_match_at_every_threshold() {
    let f = two_tone(12, 10);
    assert!(check_game_shot(&f, &f, SIM_THRESHOLD_KEY_READY, true));
    assert!(check_game_shot(&f, &f, SIM_THRESHOLD_COIN, true));
    assert!(check_game_shot(&f, &f, SIM_THRESHOLD_TARGET, true));
    assert!(check_game_shot(&f, &f, SIM_THRESHOLD_KEY_READY, false));
}

#[test]
fn opposite_shots_do_not_match() {
    let mut inverted_data = Vec::new();
    let f = two_tone(12, 10);
    for &p in f.data.iter() {
        inverted_data.push(255 - p);
    }
    let g = frame(12, 10, 1, inverted_data);
    assert!(!check_game_shot(&f, &g, SIM_THRESHOLD_TARGET, true));
}

#[test]
fn mismatched_geometry_never_matches() {
    let f = two_tone(12, 10);
    let g = two_tone(10, 12);
    assert!(!check_game_shot(&f, &g, SIM_THRESHOLD_TARGET, true));
    assert!(!check_game_shot(&f, &g, SIM_THRESHOLD_TARGET, false));
}

#[test]
fn color_shot_binarizes_before_comparing() {
    // a BGR shot against its own grayscale rendering: binarization makes
    // them identical, so the thresholded check matches
    let mut color_data = Vec::new();
    let mut gray_data = Vec::new();
    for r in 0..10 {
        for c in 0..12 {
            let v = if (r / 2 + c / 3) % 2 == 0 { 220u8 } else { 30u8 };
            color_data.push(v);
            color_data.push(v);
            color_data.push(v);
            gray_data.push(v);
        }
    }
    let color = frame(12, 10, 3, color_data);
    let gray = frame(12, 10, 1, gray_data);
    assert!(check_game_shot(&color, &gray, SIM_THRESHOLD_COIN, true));
}
