use auto_rappy::capture_settings::CapturePos;

#[test]
fn key_ready_rect() {
    let p = CapturePos::key_ready(100, 50);
    assert_eq!(p.rect, (258, 863, 21, 12));
}

#[test]
fn energy_four_rect() {
    let p = CapturePos::energy_four(0, 0);
    assert_eq!(p.rect, (169, 370, 40, 44));
}

#[test]
fn energy_zero_rect() {
    let p = CapturePos::energy_zero(-10, -20);
    assert_eq!(p.rect, (159, 585, 40, 44));
}

#[test]
fn target_rect() {
    let p = CapturePos::target(1, 2);
    assert_eq!(p.rect, (635, 492, 295, 50));
}

#[test]
fn qte_rect() {
    let p = CapturePos::qte(0, 0);
    assert_eq!(p.rect, (779, 382, 90, 110));
}

#[test]
fn coin_count_rect() {
    let p = CapturePos::coin_count(7, 9);
    assert_eq!(p.rect, (916, 854, 15, 15));
}
