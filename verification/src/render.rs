//! The point renderer: it owns the camera and the point buffer and
//! computes, for each frame, the draw call that the GPU backend is to
//! issue — the vertex count, the upload size, the uniforms in fixed
//! point, and the pipeline state to enable and restore.
//!
//! The GPU calls themselves live with the caller, which executes a
//! [`DrawCall`] verbatim: upload `byte_len` bytes of `byte_stream`,
//! draw `vertex_count` point primitives with depth testing and
//! program-controlled point size enabled, then disable both again.

use vstd::prelude::*;

use crate::buffer::{bytes_of_words, words_of, PointBuffer};
use crate::camera::{camera_effects_spec, camera_step, Camera, CameraEffects, InputSnapshot};
use crate::ply::{parse_ply, parse_ply_spec, PlyError};
use crate::point::{Point, Rgba};

verus! {

/// The default point capacity of a renderer: one million points.
pub const DEFAULT_CAPACITY: usize = 1_000_000;

/// One frame's draw call, fully determined by the renderer state: how
/// many point primitives to draw, how many bytes of the packed vertex
/// stream to upload, and the shader uniforms in fixed point. The
/// position scale is the quantization step, 1000 micro-units (0.001);
/// the point size multiplier is the camera's, in milli-units. Depth
/// testing (less-than, cleared to the far plane) and per-vertex point
/// size are enabled for the draw and restored after it.
#[derive(Clone, Copy, Debug, PartialEq, Eq, Structural)]
pub struct DrawCall {
    pub vertex_count: usize,
    pub byte_len: usize,
    pub point_size_milli: i64,
    pub position_scale_micro: i64,
    pub depth_test: bool,
    pub program_point_size: bool,
}

/// The renderer: the orbit camera and the packed point buffer.
pub struct PointRenderer {
    pub camera: Camera,
    pub buffer: PointBuffer,
}

impl View for PointRenderer {
    type V = Seq<Point>;

    open spec fn view(&self) -> Seq<Point> {
        self.buffer@
    }
}

impl PointRenderer {
    /// Camera and buffer are both well formed.
    pub open spec fn wf(&self) -> bool {
        &&& self.camera.wf()
        &&& self.buffer.wf()
    }

    /// The buffer's fixed capacity, in points.
    pub open spec fn spec_capacity(&self) -> usize {
        self.buffer.spec_capacity()
    }

    /// A renderer with an empty buffer of the given capacity and the
    /// starting camera.
    pub fn new(capacity: usize) -> (r: PointRenderer)
        requires
            28 * capacity <= usize::MAX,
        ensures
            r.wf(),
            r@ == Seq::<Point>::empty(),
            r.spec_capacity() == capacity,
            r.camera == Camera::initial(),
    {
        PointRenderer { camera: Camera::new(), buffer: PointBuffer::new(capacity) }
    }

    /// Append one point (position in quantized milli-units). Appends
    /// exactly when the buffer is below capacity; a full buffer is
    /// left unchanged and the append reported rejected.
    pub fn add_point(&mut self, x: i32, y: i32, z: i32, color: Rgba) -> (ok: bool)
        requires
            old(self).wf(),
        ensures
            final(self).wf(),
            final(self).spec_capacity() == old(self).spec_capacity(),
            final(self).camera == old(self).camera,
            ok <==> old(self)@.len() < old(self).spec_capacity(),
            ok ==> final(self)@ == old(self)@.push(Point { x, y, z, color }),
            !ok ==> final(self)@ == old(self)@,
    {
        self.buffer.add_point(x, y, z, color)
    }

    /// Drop all points; capacity and camera stay.
    pub fn clear(&mut self)
        requires
            old(self).wf(),
        ensures
            final(self).wf(),
            final(self)@ == Seq::<Point>::empty(),
            final(self).spec_capacity() == old(self).spec_capacity(),
            final(self).camera == old(self).camera,
    {
        self.buffer.clear()
    }

    /// Number of points currently held.
    pub fn len(&self) -> (n: usize)
        requires
            self.wf(),
        ensures
            n == self@.len(),
    {
        self.buffer.len()
    }

    /// Parse a geometry file given as its lines, handing back the
    /// parsed points or the first error. The buffer is cleared first,
    /// as the start of a fresh upload; the points are returned to the
    /// caller, which owns the authoritative list.
    pub fn load_ply(&mut self, lines: &Vec<Vec<u8>>) -> (r: Result<Vec<Point>, PlyError>)
        requires
            old(self).wf(),
        ensures
            final(self).wf(),
            final(self)@ == Seq::<Point>::empty(),
            final(self).spec_capacity() == old(self).spec_capacity(),
            final(self).camera == old(self).camera,
            ({
                let o = parse_ply_spec(lines.deep_view());
                match r {
                    Ok(v) => o == Ok::<Seq<Point>, PlyError>(v@),
                    Err(e) => o == Err::<Seq<Point>, PlyError>(e),
                }
            }),
    {
        self.buffer.clear();
        parse_ply(lines)
    }

    /// Consume one frame: update the camera from the snapshot if one
    /// was captured, and compute the frame's draw call from the
    /// resulting state. The buffer is untouched; the whole of it is
    /// uploaded every frame.
    pub fn render(&mut self, input: Option<&InputSnapshot>) -> (r: (
        Option<CameraEffects>,
        DrawCall,
    ))
        requires
            old(self).wf(),
            input matches Some(i) ==> i.wf(),
        ensures
            final(self).wf(),
            final(self)@ == old(self)@,
            final(self).spec_capacity() == old(self).spec_capacity(),
            match input {
                Some(i) => final(self).camera == camera_step(old(self).camera, *i) && r.0
                    == Some(camera_effects_spec(final(self).camera, *i)),
                None => final(self).camera == old(self).camera && r.0 is None,
            },
            r.1 == (DrawCall {
                vertex_count: final(self)@.len() as usize,
                byte_len: (28 * final(self)@.len()) as usize,
                point_size_milli: final(self).camera.point_size_milli,
                position_scale_micro: 1000,
                depth_test: true,
                program_point_size: true,
            }),
    {
        let fx = match input {
            Some(i) => Some(self.camera.update(i)),
            None => None,
        };
        let count = self.buffer.len();
        proof {
            self.buffer.lemma_wf_bounds();
        }
        let draw = DrawCall {
            vertex_count: count,
            byte_len: 28 * count,
            point_size_milli: self.camera.point_size_milli,
            position_scale_micro: 1000,
            depth_test: true,
            program_point_size: true,
        };
        (fx, draw)
    }

    /// The packed vertex words, seven per point.
    pub fn vertex_words(&self) -> (ws: &Vec<i32>)
        requires
            self.wf(),
        ensures
            ws@ == words_of(self@),
            ws@.len() == 7 * self@.len(),
    {
        self.buffer.words()
    }

    /// The packed vertex stream as little-endian bytes, 28 per point:
    /// exactly what a frame uploads.
    pub fn byte_stream(&self) -> (bs: Vec<u8>)
        requires
            self.wf(),
        ensures
            bs@ == bytes_of_words(words_of(self@)),
            bs@.len() == 28 * self@.len(),
    {
        self.buffer.byte_stream()
    }
}

} // verus!
