use auto_rappy::binarize::{get_threshold_mat, otsu_threshold};
use auto_rappy::frame::Frame;

fn frame(w: usize, h: usize, c: usize, data: Vec<u8>) -> Frame {
    Frame::from_data(w, h, c, data).expect("well-formed frame")
}

#[test]
fn otsu_picks_separating_cut() {
    // two clear classes {10} and {200}: the first separating cut is 10
    let data = vec![10, 10, 10, 200, 200, 10];
    assert_eq!(otsu_threshold(&data), 10);
}

#[test]
fn otsu_constant_plane_picks_zero() {
    // no cut separates anything, so the first candidate wins
    let data = vec![77; 16];
    assert_eq!(otsu_threshold(&data), 0);
}

#[test]
fn binarize_splits_two_classes() {
    let f = frame(3, 2, 1, vec![10, 10, 10, 200, 200, 10]);
    let b = get_threshold_mat(&f, 190);
    assert_eq!(b.channels, 1);
    assert_eq!(b.width, 3);
    assert_eq!(b.height, 2);
    assert_eq!(b.data, vec![0, 0, 0, 255, 255, 0]);
}

#[test]
fn binarize_converts_color_first() {
    // a BGR frame: one dark and one bright pixel per row
    let f = frame(2, 2, 3, vec![10, 10, 10, 250, 250, 250, 10, 10, 10, 250, 250, 250]);
    let b = get_threshold_mat(&f, 190);
    assert_eq!(b.channels, 1);
    assert_eq!(b.data, vec![0, 255, 0, 255]);
}

#[test]
fn binarize_is_idempotent() {
    // the idempotence law, on concrete pixels: rebinarizing the mask is
    // the identity
    let f = frame(4, 2, 1, vec![10, 60, 130, 200, 255, 0, 90, 180]);
    let once = get_threshold_mat(&f, 190);
    let twice = get_threshold_mat(&once, 190);
    assert_eq!(twice.data, once.data);
}

#[test]
fn binarize_idempotent_on_constant_plane() {
    let f = frame(4, 1, 1, vec![0, 0, 0, 0]);
    let once = get_threshold_mat(&f, 190);
    let twice = get_threshold_mat(&once, 190);
    assert_eq!(once.data, vec![0, 0, 0, 0]);
    assert_eq!(twice.data, once.data);

    let g = frame(4, 1, 1, vec![255, 255, 255, 255]);
    let once = get_threshold_mat(&g, 190);
    let twice = get_threshold_mat(&once, 190);
    assert_eq!(once.data, vec![255, 255, 255, 255]);
    assert_eq!(twice.data, once.data);
}
