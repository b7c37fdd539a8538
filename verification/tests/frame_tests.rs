use auto_rappy::frame::{Frame, MAX_PIXELS};

#[test]
fn from_data_accepts_matching_buffer() {
    let f = Frame::from_data(3, 2, 1, vec![1, 2, 3, 4, 5, 6]).unwrap();
    assert_eq!((f.width, f.height, f.channels), (3, 2, 1));
    assert_eq!(f.data, vec![1, 2, 3, 4, 5, 6]);
}

#[test]
fn from_data_rejects_bad_geometry() {
    assert!(Frame::from_data(0, 2, 1, vec![]).is_none());
    assert!(Frame::from_data(2, 0, 1, vec![]).is_none());
    assert!(Frame::from_data(2, 2, 2, vec![0; 8]).is_none());
    assert!(Frame::from_data(2, 2, 1, vec![0; 5]).is_none());
    assert!(Frame::from_data(MAX_PIXELS, 2, 1, vec![0; 2 * MAX_PIXELS]).is_none());
}

#[test]
fn to_gray_uses_bt601_weights() {
    // pure blue, green, red pixels in BGR order
    let f = Frame::from_data(3, 1, 3, vec![255, 0, 0, 0, 255, 0, 0, 0, 255]).unwrap();
    let g = f.to_gray();
    assert_eq!(g.channels, 1);
    // floor((1868, 9617, 4899) * 255 / 16384 + 1/2): the fixed-point
    // BT.601 luminances of blue, green and red
    assert_eq!(g.data, vec![29, 150, 76]);
}

#[test]
fn to_gray_keeps_single_channel_bytes() {
    let f = Frame::from_data(2, 2, 1, vec![9, 18, 27, 36]).unwrap();
    let g = f.to_gray();
    assert_eq!(g.data, vec![9, 18, 27, 36]);
}

#[test]
fn to_gray_ignores_alpha() {
    let f = Frame::from_data(1, 1, 4, vec![100, 100, 100, 7]).unwrap();
    let g = f.to_gray();
    assert_eq!(g.data, vec![100]);
}
