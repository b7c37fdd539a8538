use auto_rappy::frame::Frame;
use auto_rappy::template::{detect_qte, downscale_half, match_template};

fn frame(w: usize, h: usize, data: Vec<u8>) -> Frame {
    Frame::from_data(w, h, 1, data).expect("well-formed frame")
}

/// A high-contrast checkerboard pattern.
fn checker(w: usize, h: usize) -> Frame {
    let mut data = Vec::new();
    for r in 0..h {
        for c in 0..w {
            data.push(if (r + c) % 2 == 0 { 200 } else { 100 });
        }
    }
    frame(w, h, data)
}

/// A flat scene with `tpl` stamped at `(ox, oy)`.
fn stamped_scene(w: usize, h: usize, tpl: &Frame, ox: usize, oy: usize) -> Frame {
    let mut data = vec![10u8; w * h];
    for r in 0..tpl.height {
        for c in 0..tpl.width {
            data[(oy + r) * w + ox + c] = tpl.data[r * tpl.width + c];
        }
    }
    frame(w, h, data)
}

#[test]
fn template_peaks_on_itself_at_origin() {
    let t = checker(6, 5);
    let m = match_template(&t, &t).expect("fits");
    assert_eq!((m.x, m.y), (0, 0));
    // perfect alignment: correlation equals both energies, the score is 1
    assert_eq!(m.cross, m.tpl_energy);
    assert_eq!(m.cross, m.win_energy);
    assert!(m.exceeds(99, 100));
    assert!(!m.exceeds(100, 100));
}

#[test]
fn template_recovers_stamped_offset() {
    let t = checker(8, 6);
    let scene = stamped_scene(40, 30, &t, 12, 7);
    let m = match_template(&scene, &t).expect("fits");
    let dx = (m.x as i64 - 12).abs();
    let dy = (m.y as i64 - 7).abs();
    assert!(dx <= 1 && dy <= 1, "found ({}, {})", m.x, m.y);
    assert!(m.exceeds(99, 100));
}

#[test]
fn template_too_large_is_rejected() {
    let t = checker(10, 10);
    let scene = checker(6, 5);
    assert!(match_template(&scene, &t).is_none());
}

#[test]
fn downscale_averages_blocks() {
    let f = frame(2, 2, vec![1, 3, 5, 7]);
    let g = downscale_half(&f);
    assert_eq!((g.width, g.height), (1, 1));
    // (1 + 3 + 5 + 7 + 2) / 4 = 4, rounding to nearest
    assert_eq!(g.data, vec![4]);
}

#[test]
fn downscale_drops_odd_edges() {
    let f = frame(5, 3, vec![
        10, 10, 20, 20, 99,
        10, 10, 20, 20, 99,
        99, 99, 99, 99, 99,
    ]);
    let g = downscale_half(&f);
    assert_eq!((g.width, g.height), (2, 1));
    assert_eq!(g.data, vec![10, 20]);
}

/// A pattern constant on 2x2 blocks, so it survives half-scale downscaling.
fn block_pattern(w: usize, h: usize) -> Frame {
    let vals = [30u8, 220, 70, 180, 120, 240, 50];
    let mut data = Vec::new();
    for r in 0..h {
        for c in 0..w {
            data.push(vals[((r / 2) * (w / 2) + c / 2) % vals.len()]);
        }
    }
    frame(w, h, data)
}

#[test]
fn half_scale_match_recovers_offset() {
    // stamp block-aligned so the half-scale images align exactly, then
    // search the downscaled scene for the downscaled template
    let t = block_pattern(8, 8);
    let scene = stamped_scene(60, 40, &t, 20, 14);
    let half_tpl = downscale_half(&t);
    let (half_scene, found) = detect_qte(&scene, &half_tpl);
    assert_eq!((half_scene.width, half_scene.height), (30, 20));
    let m = found.expect("the icon is present at half scale");
    let dx = (m.x as i64 - 10).abs();
    let dy = (m.y as i64 - 7).abs();
    assert!(dx <= 2 && dy <= 2, "found ({}, {})", m.x, m.y);
}

#[test]
fn detect_qte_rejects_absent_icon() {
    let t = block_pattern(8, 8);
    let half_tpl = downscale_half(&t);
    let blank = frame(60, 40, vec![10u8; 60 * 40]);
    let (_, found) = detect_qte(&blank, &half_tpl);
    assert!(found.is_none());
}
