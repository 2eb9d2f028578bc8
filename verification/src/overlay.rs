//! The orientation gizmo: three fixed-length screen-space line
//! segments from the viewport center, one per world axis, drawn over
//! the scene.
//!
//! The caller rotates each world axis through the inverse of the
//! camera orientation and hands over the screen-plane components of
//! the results, in milli-units of a unit vector. Each segment runs
//! twenty pixels along its axis, with the vertical component flipped:
//! screen y grows downward while world y grows upward. The
//! axis-to-color mapping is fixed: first axis red, second blue, third
//! green.

use vstd::prelude::*;

use crate::point::Rgba;

verus! {

/// Gizmo segment length, in pixels.
pub const GIZMO_LENGTH_PX: i64 = 20;

/// Magnitude bound on a rotated-axis component in milli-units: a unit
/// vector's components stay within one.
pub const AXIS_COMPONENT_MAX: i64 = 1000;

/// Magnitude bound on a viewport-center coordinate in milli-pixels.
pub const CENTER_MAX: i64 = 1_000_000_000_000;

/// One gizmo segment: start and end in milli-pixel screen coordinates,
/// and its fixed color.
#[derive(Clone, Copy, Debug, PartialEq, Eq, Structural)]
pub struct GizmoLine {
    pub start_x_milli: i64,
    pub start_y_milli: i64,
    pub end_x_milli: i64,
    pub end_y_milli: i64,
    pub color: Rgba,
}

/// The screen-plane components of one rotated axis, milli-units.
#[derive(Clone, Copy, Debug, PartialEq, Eq, Structural)]
pub struct AxisDir {
    pub x_milli: i64,
    pub y_milli: i64,
}

impl AxisDir {
    /// The components are those of (at most) a unit vector.
    pub open spec fn wf(&self) -> bool {
        &&& -AXIS_COMPONENT_MAX <= self.x_milli <= AXIS_COMPONENT_MAX
        &&& -AXIS_COMPONENT_MAX <= self.y_milli <= AXIS_COMPONENT_MAX
    }
}

/// The segment of one axis: from the center, twenty pixels along the
/// axis direction, vertically flipped.
pub open spec fn gizmo_line_spec(cx: int, cy: int, d: AxisDir, color: Rgba) -> GizmoLine {
    GizmoLine {
        start_x_milli: cx as i64,
        start_y_milli: cy as i64,
        end_x_milli: (cx + GIZMO_LENGTH_PX * d.x_milli) as i64,
        end_y_milli: (cy - GIZMO_LENGTH_PX * d.y_milli) as i64,
        color,
    }
}

/// Pure red, the first axis color.
pub open spec fn axis_color_0() -> Rgba {
    Rgba { r: 255, g: 0, b: 0, a: 255 }
}

/// Pure blue, the second axis color.
pub open spec fn axis_color_1() -> Rgba {
    Rgba { r: 0, g: 0, b: 255, a: 255 }
}

/// Pure green, the third axis color.
pub open spec fn axis_color_2() -> Rgba {
    Rgba { r: 0, g: 255, b: 0, a: 255 }
}

/// The three gizmo segments for a viewport center and the three
/// rotated world axes, in axis order with the fixed colors.
pub fn gizmo_lines(cx_milli: i64, cy_milli: i64, ax0: AxisDir, ax1: AxisDir, ax2: AxisDir) -> (r:
    Vec<GizmoLine>)
    requires
        -CENTER_MAX <= cx_milli <= CENTER_MAX,
        -CENTER_MAX <= cy_milli <= CENTER_MAX,
        ax0.wf(),
        ax1.wf(),
        ax2.wf(),
    ensures
        r@.len() == 3,
        r@[0] == gizmo_line_spec(cx_milli as int, cy_milli as int, ax0, axis_color_0()),
        r@[1] == gizmo_line_spec(cx_milli as int, cy_milli as int, ax1, axis_color_1()),
        r@[2] == gizmo_line_spec(cx_milli as int, cy_milli as int, ax2, axis_color_2()),
{
    let mut r: Vec<GizmoLine> = Vec::new();
    r.push(
        GizmoLine {
            start_x_milli: cx_milli,
            start_y_milli: cy_milli,
            end_x_milli: cx_milli + GIZMO_LENGTH_PX * ax0.x_milli,
            end_y_milli: cy_milli - GIZMO_LENGTH_PX * ax0.y_milli,
            color: Rgba { r: 255, g: 0, b: 0, a: 255 },
        },
    );
    r.push(
        GizmoLine {
            start_x_milli: cx_milli,
            start_y_milli: cy_milli,
            end_x_milli: cx_milli + GIZMO_LENGTH_PX * ax1.x_milli,
            end_y_milli: cy_milli - GIZMO_LENGTH_PX * ax1.y_milli,
            color: Rgba { r: 0, g: 0, b: 255, a: 255 },
        },
    );
    r.push(
        GizmoLine {
            start_x_milli: cx_milli,
            start_y_milli: cy_milli,
            end_x_milli: cx_milli + GIZMO_LENGTH_PX * ax2.x_milli,
            end_y_milli: cy_milli - GIZMO_LENGTH_PX * ax2.y_milli,
            color: Rgba { r: 0, g: 255, b: 0, a: 255 },
        },
    );
    r
}

} // verus!
