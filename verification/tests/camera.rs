use pointcloud::camera::{Camera, InputSnapshot};

fn idle() -> InputSnapshot {
    InputSnapshot {
        primary_down: false,
        secondary_down: false,
        shift: false,
        pointer_dx_milli: 0,
        pointer_dy_milli: 0,
        scroll_milli: 0,
    }
}

#[test]
fn starting_state() {
    let cam = Camera::new();
    assert_eq!((cam.position.x, cam.position.y, cam.position.z), (0, 0, 5_000_000));
    assert_eq!(cam.distance, 5_000_000);
    assert_eq!(cam.point_size_milli, 100);
}

#[test]
fn scroll_zooms_multiplicatively() {
    let mut cam = Camera::new();
    // 100 pixels of scroll: factor 1 - 0.1 = 0.9 per event.
    let input = InputSnapshot { scroll_milli: 100_000, ..idle() };
    cam.update(&input);
    assert_eq!(cam.distance, 4_500_000);
    cam.update(&input);
    assert_eq!(cam.distance, 4_050_000);
    cam.update(&input);
    assert_eq!(cam.distance, 3_645_000);
}

#[test]
fn zoom_factor_floors_at_a_tenth() {
    let mut cam = Camera::new();
    // 5000 pixels of scroll would give factor -4; it floors at 0.1.
    let input = InputSnapshot { scroll_milli: 5_000_000, ..idle() };
    cam.update(&input);
    assert_eq!(cam.distance, 500_000);
}

#[test]
fn negative_scroll_zooms_out() {
    let mut cam = Camera::new();
    // -1000 pixels: factor 1 + 1 = 2.
    let input = InputSnapshot { scroll_milli: -1_000_000, ..idle() };
    cam.update(&input);
    assert_eq!(cam.distance, 10_000_000);
}

#[test]
fn shift_scroll_moves_point_size() {
    let mut cam = Camera::new();
    // 100 pixels with shift: +1.0 of multiplier = +1000 milli.
    let input = InputSnapshot { shift: true, scroll_milli: 100_000, ..idle() };
    cam.update(&input);
    assert_eq!(cam.point_size_milli, 1100);
    assert_eq!(cam.distance, 5_000_000);
}

#[test]
fn point_size_stays_clamped() {
    let mut cam = Camera::new();
    let up = InputSnapshot { shift: true, scroll_milli: 1_000_000_000, ..idle() };
    for _ in 0..5 {
        cam.update(&up);
        assert!(cam.point_size_milli <= 1_000_000);
    }
    assert_eq!(cam.point_size_milli, 1_000_000);
    let down = InputSnapshot { shift: true, scroll_milli: -1_000_000_000, ..idle() };
    for _ in 0..5 {
        cam.update(&down);
        assert!(cam.point_size_milli >= 100);
    }
    assert_eq!(cam.point_size_milli, 100);
}

#[test]
fn secondary_button_rotates_unless_shift() {
    let mut cam = Camera::new();
    let input = InputSnapshot {
        secondary_down: true,
        pointer_dx_milli: 5_000,
        pointer_dy_milli: -2_000,
        ..idle()
    };
    let fx = cam.update(&input);
    assert!(fx.rotate);
    // 0.01 radians per pixel: micro-radians are 10 per milli-pixel.
    assert_eq!(fx.pitch_micro, -20_000);
    assert_eq!(fx.yaw_micro, 50_000);

    let shifted = InputSnapshot { shift: true, ..input };
    let fx2 = cam.update(&shifted);
    assert!(!fx2.rotate);
    assert_eq!((fx2.pitch_micro, fx2.yaw_micro), (0, 0));
}

#[test]
fn primary_button_pans_at_post_zoom_distance() {
    let mut cam = Camera::new();
    let input = InputSnapshot {
        primary_down: true,
        pointer_dx_milli: 1_000,
        pointer_dy_milli: 3_000,
        scroll_milli: 100_000,
        ..idle()
    };
    let fx = cam.update(&input);
    assert!(fx.pan);
    // Distance already zoomed to 4.5: speed 0.0045 per pixel.
    assert_eq!(cam.distance, 4_500_000);
    assert_eq!(fx.pan_right_micro, -4_500);
    assert_eq!(fx.pan_up_micro, 13_500);
}

#[test]
fn idle_input_changes_nothing() {
    let mut cam = Camera::new();
    let fx = cam.update(&idle());
    assert_eq!(cam, Camera::new());
    assert!(!fx.rotate && !fx.pan);
}

#[test]
fn pan_translates_and_saturates() {
    let mut cam = Camera::new();
    cam.apply_pan(1_000, -2_000, 3_000);
    assert_eq!((cam.position.x, cam.position.y, cam.position.z), (1_000, -2_000, 5_003_000));
    cam.apply_pan(i64::MAX, 0, 0);
    assert_eq!(cam.position.x, 1_000_000_000_000_000);
}
