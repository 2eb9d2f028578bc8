use pointcloud::buffer::PointBuffer;
use pointcloud::camera::InputSnapshot;
use pointcloud::point::Rgba;
use pointcloud::render::PointRenderer;

fn color(r: u8, g: u8, b: u8, a: u8) -> Rgba {
    Rgba { r, g, b, a }
}

#[test]
fn buffer_packs_seven_words_per_point() {
    let mut buf = PointBuffer::new(4);
    assert!(buf.add_point(1, -2, 3, color(4, 5, 6, 7)));
    assert!(buf.add_point(-10, 20, -30, color(40, 50, 60, 70)));
    assert_eq!(buf.len(), 2);
    assert_eq!(
        buf.words(),
        &vec![1, -2, 3, 4, 5, 6, 7, -10, 20, -30, 40, 50, 60, 70]
    );
}

#[test]
fn buffer_bytes_are_little_endian() {
    let mut buf = PointBuffer::new(1);
    assert!(buf.add_point(0x01020304, -1, 0, color(0xaa, 0, 0, 0xff)));
    let bytes = buf.byte_stream();
    assert_eq!(bytes.len(), 28);
    assert_eq!(&bytes[0..4], &[0x04, 0x03, 0x02, 0x01]);
    assert_eq!(&bytes[4..8], &[0xff, 0xff, 0xff, 0xff]);
    assert_eq!(&bytes[8..12], &[0, 0, 0, 0]);
    assert_eq!(&bytes[12..16], &[0xaa, 0, 0, 0]);
    assert_eq!(&bytes[24..28], &[0xff, 0, 0, 0]);
}

#[test]
fn buffer_rejects_beyond_capacity() {
    let mut buf = PointBuffer::new(2);
    assert!(buf.add_point(1, 1, 1, color(0, 0, 0, 255)));
    assert!(buf.add_point(2, 2, 2, color(0, 0, 0, 255)));
    assert!(!buf.add_point(3, 3, 3, color(0, 0, 0, 255)));
    assert_eq!(buf.len(), 2);
    assert_eq!(buf.capacity(), 2);
}

#[test]
fn buffer_clear_keeps_capacity() {
    let mut buf = PointBuffer::new(2);
    assert!(buf.add_point(1, 1, 1, color(0, 0, 0, 255)));
    buf.clear();
    assert_eq!(buf.len(), 0);
    assert_eq!(buf.capacity(), 2);
    assert!(buf.add_point(9, 9, 9, color(0, 0, 0, 255)));
    assert_eq!(buf.len(), 1);
}

#[test]
fn clear_then_render_draws_zero_vertices() {
    let mut r = PointRenderer::new(100);
    assert!(r.add_point(1, 2, 3, color(10, 20, 30, 255)));
    assert!(r.add_point(4, 5, 6, color(40, 50, 60, 255)));
    r.clear();
    let (fx, draw) = r.render(None);
    assert!(fx.is_none());
    assert_eq!(draw.vertex_count, 0);
    assert_eq!(draw.byte_len, 0);
    assert!(draw.depth_test);
    assert!(draw.program_point_size);
    assert_eq!(r.byte_stream().len(), 0);
}

#[test]
fn render_reports_the_frame_state() {
    let mut r = PointRenderer::new(100);
    assert!(r.add_point(1, 2, 3, color(10, 20, 30, 255)));
    let input = InputSnapshot {
        primary_down: false,
        secondary_down: false,
        shift: true,
        pointer_dx_milli: 0,
        pointer_dy_milli: 0,
        scroll_milli: 100_000,
    };
    let (fx, draw) = r.render(Some(&input));
    assert!(fx.is_some());
    assert_eq!(draw.vertex_count, 1);
    assert_eq!(draw.byte_len, 28);
    assert_eq!(draw.position_scale_micro, 1000);
    // The shift-scroll landed on the point-size uniform of this frame.
    assert_eq!(draw.point_size_milli, 1100);
}

#[test]
fn load_ply_returns_points_and_clears_the_buffer() {
    let mut r = PointRenderer::new(100);
    assert!(r.add_point(7, 7, 7, color(1, 1, 1, 255)));
    let lines: Vec<Vec<u8>> =
        "ply\nformat ascii 1.0\nelement vertex 1\nend_header\n1.0 2.0 3.0"
            .lines()
            .map(|l| l.as_bytes().to_vec())
            .collect();
    let pts = r.load_ply(&lines).unwrap();
    assert_eq!(pts.len(), 1);
    assert_eq!((pts[0].x, pts[0].y, pts[0].z), (1000, 2000, 3000));
    assert_eq!(r.len(), 0);
}

#[test]
fn load_ply_binary_loads_zero_points() {
    let mut r = PointRenderer::new(100);
    assert!(r.add_point(7, 7, 7, color(1, 1, 1, 255)));
    let lines: Vec<Vec<u8>> =
        "ply\nformat binary_little_endian 1.0\nelement vertex 1\nend_header\n1.0 2.0 3.0"
            .lines()
            .map(|l| l.as_bytes().to_vec())
            .collect();
    assert!(r.load_ply(&lines).is_err());
    assert_eq!(r.len(), 0);
}
