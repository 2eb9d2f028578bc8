use pointcloud::numbers::parse_coord_milli;
use pointcloud::ply::{parse_ply, parse_ply_header, parse_vertex_line, PlyError};
use pointcloud::point::{Point, Rgba};

fn lines_of(text: &str) -> Vec<Vec<u8>> {
    text.lines().map(|l| l.as_bytes().to_vec()).collect()
}

fn bytes(tok: &str) -> Vec<u8> {
    tok.as_bytes().to_vec()
}

#[test]
fn two_colored_points() {
    let input = "ply\nformat ascii 1.0\nelement vertex 2\nproperty float x\nproperty float y\nproperty float z\nproperty uchar red\nproperty uchar green\nproperty uchar blue\nend_header\n1.0 2.0 3.0 10 20 30\n4.0 5.0 6.0 40 50 60";
    let pts = parse_ply(&lines_of(input)).unwrap();
    assert_eq!(pts.len(), 2);
    assert_eq!(
        pts[0],
        Point { x: 1000, y: 2000, z: 3000, color: Rgba { r: 10, g: 20, b: 30, a: 255 } }
    );
    assert_eq!(
        pts[1],
        Point { x: 4000, y: 5000, z: 6000, color: Rgba { r: 40, g: 50, b: 60, a: 255 } }
    );
}

#[test]
fn binary_format_is_rejected() {
    let input = "ply\nformat binary_little_endian 1.0\nelement vertex 2\nend_header\n1.0 2.0 3.0\n4.0 5.0 6.0";
    assert_eq!(parse_ply(&lines_of(input)), Err(PlyError::UnsupportedBinaryFormat));
}

#[test]
fn truncated_header_is_an_error() {
    let input = "ply\nformat ascii 1.0\nelement vertex 2";
    assert_eq!(parse_ply(&lines_of(input)), Err(PlyError::UnexpectedEndOfHeader));
}

#[test]
fn bad_vertex_count_is_an_error() {
    let input = "ply\nformat ascii 1.0\nelement vertex many\nend_header";
    assert_eq!(parse_ply(&lines_of(input)), Err(PlyError::InvalidVertexCount));
}

#[test]
fn short_vertex_line_is_an_error() {
    let input = "ply\nformat ascii 1.0\nelement vertex 1\nend_header\n1.0 2.0";
    assert_eq!(parse_ply(&lines_of(input)), Err(PlyError::InvalidVertexLine));
}

#[test]
fn bad_coordinates_name_their_axis() {
    let base = "ply\nformat ascii 1.0\nelement vertex 1\nend_header\n";
    assert_eq!(
        parse_ply(&lines_of(&format!("{}x 2.0 3.0", base))),
        Err(PlyError::InvalidX)
    );
    assert_eq!(
        parse_ply(&lines_of(&format!("{}1.0 y 3.0", base))),
        Err(PlyError::InvalidY)
    );
    assert_eq!(
        parse_ply(&lines_of(&format!("{}1.0 2.0 z", base))),
        Err(PlyError::InvalidZ)
    );
}

#[test]
fn fewer_body_lines_than_declared_yield_what_is_there() {
    let input = "ply\nformat ascii 1.0\nelement vertex 5\nend_header\n1.0 2.0 3.0";
    let pts = parse_ply(&lines_of(input)).unwrap();
    assert_eq!(pts.len(), 1);
    assert_eq!(pts[0].x, 1000);
}

#[test]
fn points_without_color_flag_are_white() {
    let input = "ply\nformat ascii 1.0\nelement vertex 1\nend_header\n1.0 2.0 3.0 10 20 30";
    let pts = parse_ply(&lines_of(input)).unwrap();
    assert_eq!(pts[0].color, Rgba { r: 255, g: 255, b: 255, a: 255 });
}

#[test]
fn colored_point_with_too_few_tokens_is_white() {
    let input = "ply\nformat ascii 1.0\nelement vertex 1\nproperty uchar red\nend_header\n1.0 2.0 3.0 10 20";
    let pts = parse_ply(&lines_of(input)).unwrap();
    assert_eq!(pts[0].color, Rgba { r: 255, g: 255, b: 255, a: 255 });
}

#[test]
fn unparseable_channel_defaults_to_opaque() {
    let input = "ply\nformat ascii 1.0\nelement vertex 1\nproperty uchar red\nend_header\n1.0 2.0 3.0 10 green 300";
    let pts = parse_ply(&lines_of(input)).unwrap();
    assert_eq!(pts[0].color, Rgba { r: 10, g: 255, b: 255, a: 255 });
}

#[test]
fn header_state_is_reported() {
    let input = "ply\nformat ascii 1.0\nelement vertex 7\nproperty uchar red\nend_header";
    let (h, body_start) = parse_ply_header(&lines_of(input)).unwrap();
    assert_eq!(h.vertex_count, 7);
    assert!(h.has_colors);
    assert!(!h.is_binary);
    assert_eq!(body_start, 5);
}

#[test]
fn header_lines_are_trimmed() {
    let input = "ply\n  format ascii 1.0  \nelement vertex 1\n\tend_header\n1.5 0 -0.25";
    let pts = parse_ply(&lines_of(input)).unwrap();
    assert_eq!((pts[0].x, pts[0].y, pts[0].z), (1500, 0, -250));
}

#[test]
fn vertex_line_tolerates_extra_whitespace() {
    let r = parse_vertex_line(&bytes("  1.0\t2.0   3.0  "), false).unwrap();
    assert_eq!((r.x, r.y, r.z), (1000, 2000, 3000));
}

#[test]
fn coordinate_quantization_truncates() {
    assert_eq!(parse_coord_milli(&bytes("1.0009")), Some(1000));
    assert_eq!(parse_coord_milli(&bytes("-1.0009")), Some(-1000));
    assert_eq!(parse_coord_milli(&bytes("0.0005")), Some(0));
    assert_eq!(parse_coord_milli(&bytes("-0.0005")), Some(0));
    assert_eq!(parse_coord_milli(&bytes(".5")), Some(500));
    assert_eq!(parse_coord_milli(&bytes("5.")), Some(5000));
    assert_eq!(parse_coord_milli(&bytes("+12.25")), Some(12250));
}

#[test]
fn coordinate_exponents_scale() {
    assert_eq!(parse_coord_milli(&bytes("1e3")), Some(1_000_000));
    assert_eq!(parse_coord_milli(&bytes("1e-3")), Some(1));
    assert_eq!(parse_coord_milli(&bytes("2.5E2")), Some(250_000));
    assert_eq!(parse_coord_milli(&bytes("1e-9")), Some(0));
    assert_eq!(parse_coord_milli(&bytes("0.00000001e6")), Some(10));
}

#[test]
fn coordinate_saturates_at_i32() {
    assert_eq!(parse_coord_milli(&bytes("12345678901234567890")), Some(i32::MAX));
    assert_eq!(parse_coord_milli(&bytes("-12345678901234567890")), Some(i32::MIN));
    assert_eq!(parse_coord_milli(&bytes("1e40")), Some(i32::MAX));
    assert_eq!(parse_coord_milli(&bytes("-1e40")), Some(i32::MIN));
    assert_eq!(parse_coord_milli(&bytes("3000000")), Some(i32::MAX));
}

#[test]
fn coordinate_special_words() {
    assert_eq!(parse_coord_milli(&bytes("inf")), Some(i32::MAX));
    assert_eq!(parse_coord_milli(&bytes("-Infinity")), Some(i32::MIN));
    assert_eq!(parse_coord_milli(&bytes("NaN")), Some(0));
}

#[test]
fn coordinate_garbage_is_rejected() {
    for bad in ["", "-", ".", "1.2.3", "1e", "1e+", "one", "0x10", "1 2"] {
        assert_eq!(parse_coord_milli(&bytes(bad)), None, "token {:?}", bad);
    }
}

#[test]
fn long_zero_runs_still_quantize() {
    assert_eq!(parse_coord_milli(&bytes("000000000000000000001.5")), Some(1500));
    assert_eq!(parse_coord_milli(&bytes("0.000")), Some(0));
}

#[test]
fn error_descriptions_match_the_loader() {
    assert_eq!(PlyError::UnexpectedEndOfHeader.description(), "Unexpected end of file");
    assert_eq!(PlyError::InvalidVertexCount.description(), "Invalid vertex count");
    assert_eq!(
        PlyError::UnsupportedBinaryFormat.description(),
        "Binary PLY files not yet supported"
    );
    assert_eq!(PlyError::InvalidVertexLine.description(), "Invalid vertex data");
    assert_eq!(PlyError::InvalidX.description(), "Invalid X coordinate");
    assert_eq!(PlyError::InvalidY.description(), "Invalid Y coordinate");
    assert_eq!(PlyError::InvalidZ.description(), "Invalid Z coordinate");
}
