//! The orbit camera state machine.
//!
//! The camera's scalar state — target position, orbit distance, point-size
//! multiplier — is held in exact fixed point: positions and distances in
//! micro world units, the point-size multiplier in milli-units (so the
//! allowed range [0.1, 1000] is [100, 1_000_000]). Pointer and scroll
//! deltas arrive in milli-pixels in an [`InputSnapshot`], an immutable
//! per-frame capture consumed once by [`Camera::update`].
//!
//! The orientation quaternion itself is continuous and lives with the
//! caller; `update` decides *whether* the snapshot rotates or pans and by
//! which exact amounts ([`CameraEffects`]), and the caller applies those
//! amounts to its orientation and, through [`Camera::apply_pan`], back to
//! the verified position.

use vstd::prelude::*;

use crate::quant::trunc_div;

verus! {

use vstd::arithmetic::div_mod::{
    lemma_div_by_multiple,
    lemma_div_is_ordered,
    lemma_div_pos_is_pos,
    lemma_fundamental_div_mod,
};
use vstd::arithmetic::power::{lemma_pow0, lemma_pow_positive, pow};

/// Micro-units per world unit (fixed-point scale of positions and
/// distances).
pub const MICRO: i64 = 1_000_000;

/// Largest representable distance or position magnitude, in micro-units.
/// Zooming out and panning saturate here instead of overflowing.
pub const DIST_MAX: i64 = 1_000_000_000_000_000;

/// The zoom factor of one scroll event is `1 - delta/1000` of the
/// distance, in micro-units, floored at 0.1 (100_000).
pub const ZOOM_FACTOR_FLOOR: i64 = 100_000;

/// Lower clamp of the point-size multiplier, in milli-units (0.1).
pub const SIZE_MIN: i64 = 100;

/// Upper clamp of the point-size multiplier, in milli-units (1000).
pub const SIZE_MAX: i64 = 1_000_000;

/// Magnitude bound on the deltas of one input snapshot, in milli-pixels:
/// one million pixels of travel in one frame, far beyond any device, so
/// the fixed-point arithmetic below cannot overflow.
pub const INPUT_DELTA_MAX: i64 = 1_000_000_000;

/// A point or translation in world space, in micro-units per axis.
#[derive(Clone, Copy, Debug, PartialEq, Eq, Structural)]
pub struct Vec3Micro {
    pub x: i64,
    pub y: i64,
    pub z: i64,
}

/// One frame's pointer and modifier state, captured immutably: which
/// buttons are held, whether shift is held, the pointer delta (screen
/// coordinates, y growing downward) and the combined scroll delta, all in
/// milli-pixels.
#[derive(Clone, Copy, Debug, PartialEq, Eq, Structural)]
pub struct InputSnapshot {
    pub primary_down: bool,
    pub secondary_down: bool,
    pub shift: bool,
    pub pointer_dx_milli: i64,
    pub pointer_dy_milli: i64,
    pub scroll_milli: i64,
}

impl InputSnapshot {
    /// The snapshot's deltas are within the representable frame bound.
    pub open spec fn wf(&self) -> bool {
        &&& -INPUT_DELTA_MAX <= self.pointer_dx_milli <= INPUT_DELTA_MAX
        &&& -INPUT_DELTA_MAX <= self.pointer_dy_milli <= INPUT_DELTA_MAX
        &&& -INPUT_DELTA_MAX <= self.scroll_milli <= INPUT_DELTA_MAX
    }
}

/// What one `update` decided beyond the camera's own scalar state: the
/// rotation to compose into the caller's orientation (micro-radians about
/// the pitch and yaw axes) and the pan amounts along the caller's
/// camera-plane right and up vectors (micro world units).
#[derive(Clone, Copy, Debug, PartialEq, Eq, Structural)]
pub struct CameraEffects {
    pub rotate: bool,
    pub pitch_micro: i64,
    pub yaw_micro: i64,
    pub pan: bool,
    pub pan_right_micro: i64,
    pub pan_up_micro: i64,
}

/// The multiplicative factor of one scroll-zoom event, in micro-units:
/// `1 - delta/1000`, floored at 0.1.
pub open spec fn zoom_factor(scroll: int) -> int {
    if MICRO - scroll < ZOOM_FACTOR_FLOOR {
        ZOOM_FACTOR_FLOOR as int
    } else {
        MICRO - scroll
    }
}

/// One scroll-zoom event: the distance is scaled by `zoom_factor`,
/// truncated to micro-units, and saturated at `DIST_MAX`.
pub open spec fn zoom_step(dist: int, scroll: int) -> int {
    let scaled = (dist * zoom_factor(scroll)) / (MICRO as int);
    if scaled > DIST_MAX {
        DIST_MAX as int
    } else {
        scaled
    }
}

/// The distance after `k` identical scroll-zoom events.
pub open spec fn zoom_iter(d0: int, scroll: int, k: nat) -> int
    decreases k,
{
    if k == 0 {
        d0
    } else {
        zoom_step(zoom_iter(d0, scroll, (k - 1) as nat), scroll)
    }
}

/// One shift-scroll event on the point-size multiplier: the scroll delta
/// contributes one hundredth of a milli-unit per milli-pixel, clamped to
/// [0.1, 1000].
pub open spec fn size_step(size: int, scroll: int) -> int {
    let moved = size + trunc_div(scroll, 100);
    if moved < SIZE_MIN {
        SIZE_MIN as int
    } else if moved > SIZE_MAX {
        SIZE_MAX as int
    } else {
        moved
    }
}

/// The pan translation along one camera axis: pixels moved times the pan
/// speed of one thousandth of the distance per pixel, truncated to
/// micro-units.
pub open spec fn pan_amount(px_milli: int, dist: int) -> int {
    trunc_div(px_milli * dist, MICRO as int)
}

/// The camera state one input snapshot leaves behind: scroll without
/// shift zooms the distance, scroll with shift moves the clamped
/// point-size multiplier, and nothing else changes.
pub open spec fn camera_step(cam: Camera, input: InputSnapshot) -> Camera {
    Camera {
        position: cam.position,
        distance: if input.scroll_milli != 0 && !input.shift {
            zoom_step(cam.distance as int, input.scroll_milli as int) as i64
        } else {
            cam.distance
        },
        point_size_milli: if input.scroll_milli != 0 && input.shift {
            size_step(cam.point_size_milli as int, input.scroll_milli as int) as i64
        } else {
            cam.point_size_milli
        },
    }
}

/// The effects one input snapshot asks of the caller, given the
/// already-updated camera: rotation by a hundredth of a radian per
/// pixel while the secondary button is held without shift, and panning
/// at the post-zoom distance while the primary button is held.
pub open spec fn camera_effects_spec(cam: Camera, input: InputSnapshot) -> CameraEffects {
    let rotate = input.secondary_down && !input.shift;
    let pan = input.primary_down;
    CameraEffects {
        rotate,
        pitch_micro: if rotate {
            (10 * input.pointer_dy_milli) as i64
        } else {
            0
        },
        yaw_micro: if rotate {
            (10 * input.pointer_dx_milli) as i64
        } else {
            0
        },
        pan,
        pan_right_micro: if pan {
            pan_amount(-input.pointer_dx_milli as int, cam.distance as int) as i64
        } else {
            0
        },
        pan_up_micro: if pan {
            pan_amount(input.pointer_dy_milli as int, cam.distance as int) as i64
        } else {
            0
        },
    }
}

/// The orbit camera's scalar state.
#[derive(Clone, Copy, Debug, PartialEq, Eq, Structural)]
pub struct Camera {
    /// The orbited target position, micro world units.
    pub position: Vec3Micro,
    /// The orbit distance from the target, micro world units.
    pub distance: i64,
    /// The point-size multiplier, milli-units, always in [0.1, 1000].
    pub point_size_milli: i64,
}

impl Camera {
    /// The camera's invariant: distance and position saturate at
    /// `DIST_MAX`, and the point-size multiplier never leaves
    /// [0.1, 1000].
    pub open spec fn wf(&self) -> bool {
        &&& 0 <= self.distance <= DIST_MAX
        &&& SIZE_MIN <= self.point_size_milli <= SIZE_MAX
        &&& -DIST_MAX <= self.position.x <= DIST_MAX
        &&& -DIST_MAX <= self.position.y <= DIST_MAX
        &&& -DIST_MAX <= self.position.z <= DIST_MAX
    }

    /// The starting camera state: looking at (0, 0, 5) from distance
    /// 5, with a point-size multiplier of 0.1.
    pub open spec fn initial() -> Camera {
        Camera {
            position: Vec3Micro { x: 0, y: 0, z: 5_000_000 },
            distance: 5_000_000,
            point_size_milli: 100,
        }
    }

    /// The starting camera.
    pub fn new() -> (cam: Camera)
        ensures
            cam.wf(),
            cam == Camera::initial(),
    {
        Camera {
            position: Vec3Micro { x: 0, y: 0, z: 5_000_000 },
            distance: 5_000_000,
            point_size_milli: 100,
        }
    }

    /// Consume one input snapshot: scroll without shift zooms the
    /// distance multiplicatively, scroll with shift moves the clamped
    /// point-size multiplier, and the returned effects say exactly how
    /// the snapshot rotates (secondary button, shift not held) and pans
    /// (primary button, at the post-zoom distance) — amounts the caller
    /// applies to its orientation and through `apply_pan`.
    pub fn update(&mut self, input: &InputSnapshot) -> (fx: CameraEffects)
        requires
            old(self).wf(),
            input.wf(),
        ensures
            final(self).wf(),
            *final(self) == camera_step(*old(self), *input),
            fx == camera_effects_spec(*final(self), *input),
    {
        let rotate = input.secondary_down && !input.shift;
        let pitch_micro: i64 = if rotate {
            10 * input.pointer_dy_milli
        } else {
            0
        };
        let yaw_micro: i64 = if rotate {
            10 * input.pointer_dx_milli
        } else {
            0
        };

        if input.scroll_milli != 0 {
            if input.shift {
                let delta = div_trunc64(input.scroll_milli, 100);
                let moved = self.point_size_milli + delta;
                self.point_size_milli = if moved < SIZE_MIN {
                    SIZE_MIN
                } else if moved > SIZE_MAX {
                    SIZE_MAX
                } else {
                    moved
                };
            } else {
                let factor_wide: i128 = (MICRO as i128) - (input.scroll_milli as i128);
                let factor: i128 = if factor_wide < ZOOM_FACTOR_FLOOR as i128 {
                    ZOOM_FACTOR_FLOOR as i128
                } else {
                    factor_wide
                };
                proof {
                    assert(0 <= (self.distance as int) * (factor as int) <= DIST_MAX
                        * 1_001_000_000int) by (nonlinear_arith)
                        requires
                            0 <= self.distance <= DIST_MAX,
                            0 < factor <= 1_001_000_000,
                    ;
                }
                let scaled: i128 = ((self.distance as i128) * factor) / (MICRO as i128);
                self.distance = if scaled > DIST_MAX as i128 {
                    DIST_MAX
                } else {
                    scaled as i64
                };
            }
        }

        let pan = input.primary_down;
        let mut pan_right_micro: i64 = 0;
        let mut pan_up_micro: i64 = 0;
        if pan {
            pan_right_micro = pan_wide(-input.pointer_dx_milli, self.distance);
            pan_up_micro = pan_wide(input.pointer_dy_milli, self.distance);
        }

        CameraEffects { rotate, pitch_micro, yaw_micro, pan, pan_right_micro, pan_up_micro }
    }

    /// Translate the target position by a world-space vector (the pan
    /// vector the caller assembled from the effects and its orientation),
    /// each axis saturating at the representable range.
    pub fn apply_pan(&mut self, dx: i64, dy: i64, dz: i64)
        requires
            old(self).wf(),
        ensures
            final(self).wf(),
            final(self).distance == old(self).distance,
            final(self).point_size_milli == old(self).point_size_milli,
            final(self).position.x == sat_pos(old(self).position.x + dx),
            final(self).position.y == sat_pos(old(self).position.y + dy),
            final(self).position.z == sat_pos(old(self).position.z + dz),
    {
        self.position.x = sat_add64(self.position.x, dx);
        self.position.y = sat_add64(self.position.y, dy);
        self.position.z = sat_add64(self.position.z, dz);
    }
}

/// Zoom decay law. After `k` scroll-zoom events of the same non-negative
/// delta, the distance has decayed multiplicatively: writing `f` for the
/// event's `zoom_factor` and `M` for one micro-unit, the distance equals
/// `d0 * (f/M)^k` up to the accumulated fixed-point truncation of strictly
/// less than one micro-unit per event, never exceeds that product, and
/// never grows.
pub proof fn lemma_zoom_decay(d0: int, scroll: int, k: nat)
    requires
        0 <= d0 <= DIST_MAX,
        0 <= scroll,
    ensures
        0 <= zoom_iter(d0, scroll, k) <= d0,
        zoom_iter(d0, scroll, k) * pow(MICRO as int, k) <= d0 * pow(zoom_factor(scroll), k),
        zoom_iter(d0, scroll, k) * pow(MICRO as int, k) > d0 * pow(zoom_factor(scroll), k) - k
            * pow(MICRO as int, k) - pow(MICRO as int, k),
    decreases k,
{
    reveal(pow);
    let m = MICRO as int;
    let f = zoom_factor(scroll);
    assert(0 < ZOOM_FACTOR_FLOOR <= f <= m);
    if k == 0 {
        lemma_pow0(m);
        lemma_pow0(f);
    } else {
        let k1 = (k - 1) as nat;
        lemma_zoom_decay(d0, scroll, k1);
        let dk = zoom_iter(d0, scroll, k1);
        let dk1 = zoom_iter(d0, scroll, k);
        let pm = pow(m, k1);
        let pf = pow(f, k1);
        lemma_pow_positive(m, k1);
        lemma_pow_positive(f, k1);
        assert(pow(m, k) == m * pm);
        assert(pow(f, k) == f * pf);

        let scaled = (dk * f) / m;
        assert(dk * f <= dk * m && 0 <= dk * f) by (nonlinear_arith)
            requires
                0 <= dk,
                0 <= f <= m,
        ;
        lemma_div_is_ordered(dk * f, dk * m, m);
        lemma_div_by_multiple(dk, m);
        assert((dk * m) / m == dk);
        lemma_div_pos_is_pos(dk * f, m);
        assert(0 <= scaled <= dk);
        assert(dk1 == scaled);

        // The exact remainder of the truncating step.
        lemma_fundamental_div_mod(dk * f, m);
        let r = (dk * f) % m;
        assert(0 <= r < m);
        assert(dk1 * m == dk * f - r) by (nonlinear_arith)
            requires
                dk * f == m * dk1 + r,
        ;

        // Upper bound: dk1 * m^k <= d0 * f^k.
        assert(dk1 * pow(m, k) <= f * (dk * pm)) by (nonlinear_arith)
            requires
                pow(m, k) == m * pm,
                dk1 * m <= dk * f,
                0 < pm,
        ;
        assert(f * (dk * pm) <= d0 * pow(f, k)) by (nonlinear_arith)
            requires
                pow(f, k) == f * pf,
                dk * pm <= d0 * pf,
                0 < f,
        ;

        // Lower bound: dk1 * m^k > d0 * f^k - k * m^k - m^k.
        assert(dk1 * pow(m, k) > f * (dk * pm) - m * pm) by (nonlinear_arith)
            requires
                pow(m, k) == m * pm,
                dk1 * m > dk * f - m,
                0 < pm,
        ;
        assert(f * (dk * pm) - m * pm > d0 * pow(f, k) - k * pow(m, k) - pow(m, k))
            by (nonlinear_arith)
            requires
                pow(f, k) == f * pf,
                pow(m, k) == m * pm,
                dk * pm > d0 * pf - k1 * pm - pm,
                k == k1 + 1,
                0 < f <= m,
                0 < pm,
        ;
    }
}

/// The point-size multiplier law: one shift-scroll event, whatever its
/// delta, lands the multiplier inside [0.1, 1000].
pub proof fn lemma_point_size_clamped(size: int, scroll: int)
    ensures
        SIZE_MIN <= size_step(size, scroll) <= SIZE_MAX,
{
}

/// The camera invariant is preserved by every update step: starting
/// from a well-formed camera, any well-formed snapshot — and hence any
/// sequence of them — leaves the distance in range and the point-size
/// multiplier within [0.1, 1000].
pub proof fn lemma_camera_step_preserves_wf(cam: Camera, input: InputSnapshot)
    requires
        cam.wf(),
        input.wf(),
    ensures
        camera_step(cam, input).wf(),
{
    let f = zoom_factor(input.scroll_milli as int);
    assert(0 < f <= 1_001_000_000);
    assert(0 <= cam.distance * f) by (nonlinear_arith)
        requires
            0 <= cam.distance,
            0 < f,
    ;
    lemma_div_pos_is_pos(cam.distance * f, MICRO as int);
    assert(cam.distance * f <= DIST_MAX * 1_001_000_000int) by (nonlinear_arith)
        requires
            0 <= cam.distance <= DIST_MAX,
            0 < f <= 1_001_000_000,
    ;
    lemma_point_size_clamped(cam.point_size_milli as int, input.scroll_milli as int);
}

/// A coordinate saturated to the representable position range.
pub open spec fn sat_pos(v: int) -> int {
    if v > DIST_MAX {
        DIST_MAX as int
    } else if v < -DIST_MAX {
        -DIST_MAX as int
    } else {
        v
    }
}

/// Saturating addition into the position range.
fn sat_add64(a: i64, b: i64) -> (r: i64)
    ensures
        r == sat_pos(a + b),
{
    let wide: i128 = (a as i128) + (b as i128);
    if wide > DIST_MAX as i128 {
        DIST_MAX
    } else if wide < -DIST_MAX as i128 {
        -DIST_MAX
    } else {
        wide as i64
    }
}

/// Truncating division of a milli-pixel delta by a positive constant.
fn div_trunc64(a: i64, b: i64) -> (r: i64)
    requires
        b > 0,
        -INPUT_DELTA_MAX <= a <= INPUT_DELTA_MAX,
    ensures
        r == trunc_div(a as int, b as int),
        -INPUT_DELTA_MAX <= r <= INPUT_DELTA_MAX,
{
    proof {
        vstd::arithmetic::div_mod::lemma_div_is_ordered(a as int, INPUT_DELTA_MAX as int, b as int);
        vstd::arithmetic::div_mod::lemma_div_is_ordered(-a as int, INPUT_DELTA_MAX as int, b as int);
        vstd::arithmetic::div_mod::lemma_div_is_ordered(1, b as int, INPUT_DELTA_MAX as int);
    }
    if a >= 0 {
        a / b
    } else {
        -((-a) / b)
    }
}

/// The truncated product `px * dist / MICRO` of one pan axis, computed
/// wide.
fn pan_wide(px_milli: i64, dist: i64) -> (r: i64)
    requires
        -INPUT_DELTA_MAX <= px_milli <= INPUT_DELTA_MAX,
        0 <= dist <= DIST_MAX,
    ensures
        r == pan_amount(px_milli as int, dist as int),
{
    proof {
        assert((px_milli as int) * (dist as int) <= INPUT_DELTA_MAX * DIST_MAX && (px_milli as int)
            * (dist as int) >= -INPUT_DELTA_MAX * DIST_MAX) by (nonlinear_arith)
            requires
                -INPUT_DELTA_MAX <= px_milli <= INPUT_DELTA_MAX,
                0 <= dist <= DIST_MAX,
        ;
    }
    let prod: i128 = (px_milli as i128) * (dist as i128);
    proof {
        vstd::arithmetic::div_mod::lemma_div_is_ordered(
            prod as int,
            (INPUT_DELTA_MAX * DIST_MAX) as int,
            MICRO as int,
        );
        vstd::arithmetic::div_mod::lemma_div_is_ordered(
            -prod as int,
            (INPUT_DELTA_MAX * DIST_MAX) as int,
            MICRO as int,
        );
        vstd::arithmetic::div_mod::lemma_div_by_multiple(
            1_000_000_000_000_000_000_000_000int / (MICRO as int),
            MICRO as int,
        );
    }
    let q: i128 = if prod >= 0 {
        prod / (MICRO as i128)
    } else {
        -((-prod) / (MICRO as i128))
    };
    q as i64
}

} // verus!
