use pointcloud::overlay::{gizmo_lines, AxisDir};
use pointcloud::panes::{set_center, BluePane, GreenPane, PaneMode};
use pointcloud::point::Rgba;

#[test]
fn gizmo_runs_twenty_pixels_with_y_flipped() {
    // Identity orientation: the axes project to themselves.
    let x = AxisDir { x_milli: 1000, y_milli: 0 };
    let y = AxisDir { x_milli: 0, y_milli: 1000 };
    let z = AxisDir { x_milli: 0, y_milli: 0 };
    let lines = gizmo_lines(400_000, 300_000, x, y, z);
    assert_eq!(lines.len(), 3);

    assert_eq!((lines[0].start_x_milli, lines[0].start_y_milli), (400_000, 300_000));
    assert_eq!((lines[0].end_x_milli, lines[0].end_y_milli), (420_000, 300_000));
    // World y points up; screen y grows downward.
    assert_eq!((lines[1].end_x_milli, lines[1].end_y_milli), (400_000, 280_000));
    assert_eq!((lines[2].end_x_milli, lines[2].end_y_milli), (400_000, 300_000));
}

#[test]
fn gizmo_colors_are_fixed_per_axis() {
    let d = AxisDir { x_milli: 500, y_milli: -500 };
    let lines = gizmo_lines(0, 0, d, d, d);
    assert_eq!(lines[0].color, Rgba { r: 255, g: 0, b: 0, a: 255 });
    assert_eq!(lines[1].color, Rgba { r: 0, g: 0, b: 255, a: 255 });
    assert_eq!(lines[2].color, Rgba { r: 0, g: 255, b: 0, a: 255 });
    assert_eq!((lines[0].end_x_milli, lines[0].end_y_milli), (10_000, 10_000));
}

#[test]
fn center_pane_is_unique() {
    let mut modes = vec![
        PaneMode::Left,
        PaneMode::Center,
        PaneMode::Hidden,
        PaneMode::Center,
    ];
    set_center(&mut modes, 2);
    assert_eq!(
        modes,
        vec![PaneMode::Left, PaneMode::Windowed, PaneMode::Center, PaneMode::Windowed]
    );
}

#[test]
fn set_center_keeps_an_already_centered_pane() {
    let mut modes = vec![PaneMode::Center, PaneMode::Bottom];
    set_center(&mut modes, 0);
    assert_eq!(modes, vec![PaneMode::Center, PaneMode::Bottom]);
}

#[test]
fn demo_panes_have_names_and_modes() {
    assert_eq!(BluePane {}.name(), "BLUE");
    assert_eq!(BluePane {}.default_mode(), PaneMode::Left);
    assert_eq!(GreenPane {}.name(), "Green");
    assert_eq!(GreenPane {}.default_mode(), PaneMode::Bottom);
}
