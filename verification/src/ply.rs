//! The line-oriented geometry-file parser.
//!
//! The format is a simple ASCII subset: a header of keyword lines up to
//! an `end_header` terminator — a format declaration, a vertex count
//! (`element vertex N`), property lines of which any mentioning a red
//! channel switches color parsing on — followed by exactly the declared
//! number of vertex lines, each `x y z` and optionally `r g b`. The
//! binary format variant is recognized and rejected. Parsing is atomic:
//! any structural failure yields an error value and no points.

use vstd::prelude::*;

use crate::numbers::{
    coord_quant,
    coord_token_ok,
    parse_coord_milli,
    parse_uint_bounded,
    uint_token_ok,
    uint_token_value,
};
use crate::point::{opaque_white, Point, Rgba};
use crate::text::{
    bytes_eq,
    bytes_start_with,
    contains_red,
    mentions_red,
    split_ws,
    starts_with,
    tokens,
    trim_bytes,
    trimmed,
};

verus! {

/// Why a geometry file was rejected. Every error is a value; the loader
/// never panics and never returns a partial point list.
#[derive(Clone, Copy, Debug, PartialEq, Eq, Structural)]
pub enum PlyError {
    /// The lines ran out before the header terminator.
    UnexpectedEndOfHeader,
    /// A vertex-count declaration whose count does not parse.
    InvalidVertexCount,
    /// A recognized binary format declaration: only ASCII is supported.
    UnsupportedBinaryFormat,
    /// A vertex line with fewer than three tokens.
    InvalidVertexLine,
    /// An unparseable first coordinate.
    InvalidX,
    /// An unparseable second coordinate.
    InvalidY,
    /// An unparseable third coordinate.
    InvalidZ,
}

/// The description of each error value.
pub open spec fn description_spec(e: PlyError) -> Seq<char> {
    match e {
        PlyError::UnexpectedEndOfHeader => "Unexpected end of file"@,
        PlyError::InvalidVertexCount => "Invalid vertex count"@,
        PlyError::UnsupportedBinaryFormat => "Binary PLY files not yet supported"@,
        PlyError::InvalidVertexLine => "Invalid vertex data"@,
        PlyError::InvalidX => "Invalid X coordinate"@,
        PlyError::InvalidY => "Invalid Y coordinate"@,
        PlyError::InvalidZ => "Invalid Z coordinate"@,
    }
}

impl PlyError {
    /// A fixed human-readable description of the error.
    pub fn description(&self) -> (r: &'static str)
        ensures
            r@ == description_spec(*self),
    {
        match self {
            PlyError::UnexpectedEndOfHeader => "Unexpected end of file",
            PlyError::InvalidVertexCount => "Invalid vertex count",
            PlyError::UnsupportedBinaryFormat => "Binary PLY files not yet supported",
            PlyError::InvalidVertexLine => "Invalid vertex data",
            PlyError::InvalidX => "Invalid X coordinate",
            PlyError::InvalidY => "Invalid Y coordinate",
            PlyError::InvalidZ => "Invalid Z coordinate",
        }
    }
}

/// A parsed header: the declared vertex count, whether the properties
/// mention a red channel, and whether the format declaration was the
/// binary variant.
#[derive(Clone, Copy, Debug, PartialEq, Eq, Structural)]
pub struct PlyHeader {
    pub vertex_count: usize,
    pub has_colors: bool,
    pub is_binary: bool,
}

/// What scanning the header from a given line yields.
pub enum HeaderOutcome {
    /// The terminator was reached; the fields are the header state and
    /// the index of the first body line.
    Accept { vertex_count: int, has_colors: bool, is_binary: bool, body_start: int },
    /// The lines ran out first.
    Truncated,
    /// A vertex-count declaration did not parse.
    BadCount,
}

/// The bytes of "end_header".
pub open spec fn end_header_bytes() -> Seq<u8> {
    seq![101u8, 110, 100, 95, 104, 101, 97, 100, 101, 114]
}

/// The bytes of "format ascii 1.0".
pub open spec fn format_ascii_bytes() -> Seq<u8> {
    seq![102u8, 111, 114, 109, 97, 116, 32, 97, 115, 99, 105, 105, 32, 49, 46, 48]
}

/// The bytes of "format binary_little_endian 1.0".
pub open spec fn format_binary_bytes() -> Seq<u8> {
    seq![102u8, 111, 114, 109, 97, 116, 32, 98, 105, 110, 97, 114, 121, 95, 108, 105, 116, 116,
        108, 101, 95, 101, 110, 100, 105, 97, 110, 32, 49, 46, 48]
}

/// The bytes of "element vertex ".
pub open spec fn element_vertex_bytes() -> Seq<u8> {
    seq![101u8, 108, 101, 109, 101, 110, 116, 32, 118, 101, 114, 116, 101, 120, 32]
}

/// The bytes of "property".
pub open spec fn property_bytes() -> Seq<u8> {
    seq![112u8, 114, 111, 112, 101, 114, 116, 121]
}

/// Scan header lines from line `i` with the running header state:
/// each trimmed line either terminates the header, sets the format,
/// declares the vertex count, flags colors, or is skipped.
pub open spec fn header_spec(
    lines: Seq<Seq<u8>>,
    i: int,
    vc: int,
    hc: bool,
    bin: bool,
) -> HeaderOutcome
    decreases lines.len() - i,
{
    if !(0 <= i < lines.len()) {
        HeaderOutcome::Truncated
    } else {
        let t = trimmed(lines[i]);
        if t == end_header_bytes() {
            HeaderOutcome::Accept { vertex_count: vc, has_colors: hc, is_binary: bin, body_start: i + 1 }
        } else if t == format_ascii_bytes() {
            header_spec(lines, i + 1, vc, hc, false)
        } else if t == format_binary_bytes() {
            header_spec(lines, i + 1, vc, hc, true)
        } else if starts_with(t, element_vertex_bytes()) {
            let lt = tokens(t).last();
            if uint_token_ok(lt) && uint_token_value(lt) <= usize::MAX {
                header_spec(lines, i + 1, uint_token_value(lt), hc, bin)
            } else {
                HeaderOutcome::BadCount
            }
        } else if starts_with(t, property_bytes()) && mentions_red(t) {
            header_spec(lines, i + 1, vc, true, bin)
        } else {
            header_spec(lines, i + 1, vc, hc, bin)
        }
    }
}

/// One vertex line: at least three tokens, the first three quantized
/// coordinates; with colors expected and at least six tokens, the
/// fourth to sixth are byte channels each defaulting to 255 when
/// unparseable, with alpha fixed at 255; otherwise the point is opaque
/// white. The first failing coordinate names the error.
pub open spec fn vertex_line_spec(line: Seq<u8>, has_colors: bool) -> Result<Point, PlyError> {
    let ts = tokens(line);
    if ts.len() < 3 {
        Err(PlyError::InvalidVertexLine)
    } else if !coord_token_ok(ts[0]) {
        Err(PlyError::InvalidX)
    } else if !coord_token_ok(ts[1]) {
        Err(PlyError::InvalidY)
    } else if !coord_token_ok(ts[2]) {
        Err(PlyError::InvalidZ)
    } else {
        let color = if has_colors && ts.len() >= 6 {
            Rgba { r: channel_spec(ts[3]), g: channel_spec(ts[4]), b: channel_spec(ts[5]), a: 255 }
        } else {
            opaque_white()
        };
        Ok(
            Point {
                x: coord_quant(ts[0]) as i32,
                y: coord_quant(ts[1]) as i32,
                z: coord_quant(ts[2]) as i32,
                color,
            },
        )
    }
}

/// A color channel token: its value when it is a byte, else opaque 255.
pub open spec fn channel_spec(tok: Seq<u8>) -> u8 {
    if uint_token_ok(tok) && uint_token_value(tok) <= 255 {
        uint_token_value(tok) as u8
    } else {
        255
    }
}

/// The body: up to `count` lines from `i`, each parsed as a vertex.
/// Fewer lines than declared yield the points that are there; the
/// first bad line yields its error.
pub open spec fn body_spec(lines: Seq<Seq<u8>>, i: int, count: int, hc: bool) -> Result<
    Seq<Point>,
    PlyError,
>
    decreases count,
{
    if count <= 0 {
        Ok(Seq::empty())
    } else if !(0 <= i < lines.len()) {
        Ok(Seq::empty())
    } else {
        match vertex_line_spec(lines[i], hc) {
            Err(e) => Err(e),
            Ok(p) => match body_spec(lines, i + 1, count - 1, hc) {
                Err(e) => Err(e),
                Ok(rest) => Ok(seq![p] + rest),
            },
        }
    }
}

/// The whole file: header, then — unless the format was the rejected
/// binary variant — the declared number of vertex lines.
pub open spec fn parse_ply_spec(lines: Seq<Seq<u8>>) -> Result<Seq<Point>, PlyError> {
    match header_spec(lines, 0, 0, false, false) {
        HeaderOutcome::Truncated => Err(PlyError::UnexpectedEndOfHeader),
        HeaderOutcome::BadCount => Err(PlyError::InvalidVertexCount),
        HeaderOutcome::Accept { vertex_count, has_colors, is_binary, body_start } => {
            if is_binary {
                Err(PlyError::UnsupportedBinaryFormat)
            } else {
                body_spec(lines, body_start, vertex_count, has_colors)
            }
        },
    }
}

/// A line that holds any non-whitespace byte has at least one token.
proof fn lemma_tokens_nonempty(s: Seq<u8>)
    requires
        s.len() > 0,
        !crate::text::is_ws(s[0]),
    ensures
        tokens(s).len() >= 1,
{
}

/// An accepted header scan keeps its count in machine range and points
/// its body start into (or just past) the lines.
proof fn lemma_header_accept_bounds(lines: Seq<Seq<u8>>, i: int, vc: int, hc: bool, bin: bool)
    requires
        0 <= i,
        0 <= vc <= usize::MAX,
    ensures
        header_spec(lines, i, vc, hc, bin) matches HeaderOutcome::Accept {
            vertex_count,
            body_start,
            ..
        } ==> i < body_start <= lines.len() && 0 <= vertex_count <= usize::MAX,
    decreases lines.len() - i,
{
    if 0 <= i < lines.len() {
        let t = trimmed(lines[i]);
        if t == end_header_bytes() {
        } else if t == format_ascii_bytes() {
            lemma_header_accept_bounds(lines, i + 1, vc, hc, false);
        } else if t == format_binary_bytes() {
            lemma_header_accept_bounds(lines, i + 1, vc, hc, true);
        } else if starts_with(t, element_vertex_bytes()) {
            let lt = tokens(t).last();
            if uint_token_ok(lt) && uint_token_value(lt) <= usize::MAX {
                crate::text::lemma_dec_value_bounds(
                    if lt.len() > 0 && lt[0] == 43 {
                        lt.skip(1)
                    } else {
                        lt
                    },
                );
                lemma_header_accept_bounds(lines, i + 1, uint_token_value(lt), hc, bin);
            }
        } else if starts_with(t, property_bytes()) && mentions_red(t) {
            lemma_header_accept_bounds(lines, i + 1, vc, true, bin);
        } else {
            lemma_header_accept_bounds(lines, i + 1, vc, hc, bin);
        }
    }
}

/// The bytes of "end_header".
fn end_header_vec() -> (v: Vec<u8>)
    ensures
        v@ == end_header_bytes(),
{
    let mut v: Vec<u8> = Vec::new();
    v.push(101);
    v.push(110);
    v.push(100);
    v.push(95);
    v.push(104);
    v.push(101);
    v.push(97);
    v.push(100);
    v.push(101);
    v.push(114);
    proof {
        assert(v@ =~= end_header_bytes());
    }
    v
}

/// The bytes of "format ascii 1.0".
fn format_ascii_vec() -> (v: Vec<u8>)
    ensures
        v@ == format_ascii_bytes(),
{
    let mut v: Vec<u8> = Vec::new();
    v.push(102);
    v.push(111);
    v.push(114);
    v.push(109);
    v.push(97);
    v.push(116);
    v.push(32);
    v.push(97);
    v.push(115);
    v.push(99);
    v.push(105);
    v.push(105);
    v.push(32);
    v.push(49);
    v.push(46);
    v.push(48);
    proof {
        assert(v@ =~= format_ascii_bytes());
    }
    v
}

/// The bytes of "format binary_little_endian 1.0".
fn format_binary_vec() -> (v: Vec<u8>)
    ensures
        v@ == format_binary_bytes(),
{
    let mut v: Vec<u8> = Vec::new();
    v.push(102);
    v.push(111);
    v.push(114);
    v.push(109);
    v.push(97);
    v.push(116);
    v.push(32);
    v.push(98);
    v.push(105);
    v.push(110);
    v.push(97);
    v.push(114);
    v.push(121);
    v.push(95);
    v.push(108);
    v.push(105);
    v.push(116);
    v.push(116);
    v.push(108);
    v.push(101);
    v.push(95);
    v.push(101);
    v.push(110);
    v.push(100);
    v.push(105);
    v.push(97);
    v.push(110);
    v.push(32);
    v.push(49);
    v.push(46);
    v.push(48);
    proof {
        assert(v@ =~= format_binary_bytes());
    }
    v
}

/// The bytes of "element vertex ".
fn element_vertex_vec() -> (v: Vec<u8>)
    ensures
        v@ == element_vertex_bytes(),
{
    let mut v: Vec<u8> = Vec::new();
    v.push(101);
    v.push(108);
    v.push(101);
    v.push(109);
    v.push(101);
    v.push(110);
    v.push(116);
    v.push(32);
    v.push(118);
    v.push(101);
    v.push(114);
    v.push(116);
    v.push(101);
    v.push(120);
    v.push(32);
    proof {
        assert(v@ =~= element_vertex_bytes());
    }
    v
}

/// The bytes of "property".
fn property_vec() -> (v: Vec<u8>)
    ensures
        v@ == property_bytes(),
{
    let mut v: Vec<u8> = Vec::new();
    v.push(112);
    v.push(114);
    v.push(111);
    v.push(112);
    v.push(101);
    v.push(114);
    v.push(116);
    v.push(121);
    proof {
        assert(v@ =~= property_bytes());
    }
    v
}

/// Parse the header: the header state and the index of the first body
/// line, or why the header is unusable.
#[verifier::loop_isolation(false)]
pub fn parse_ply_header(lines: &Vec<Vec<u8>>) -> (r: Result<(PlyHeader, usize), PlyError>)
    ensures
        ({
            let o = header_spec(lines.deep_view(), 0, 0, false, false);
            match o {
                HeaderOutcome::Accept { vertex_count, has_colors, is_binary, body_start } => r
                    == Ok::<(PlyHeader, usize), PlyError>(
                    (
                        PlyHeader {
                            vertex_count: vertex_count as usize,
                            has_colors,
                            is_binary,
                        },
                        body_start as usize,
                    ),
                ),
                HeaderOutcome::Truncated => r == Err::<(PlyHeader, usize), PlyError>(
                    PlyError::UnexpectedEndOfHeader,
                ),
                HeaderOutcome::BadCount => r == Err::<(PlyHeader, usize), PlyError>(
                    PlyError::InvalidVertexCount,
                ),
            }
        }),
{
    let ghost gl = lines.deep_view();
    let n = lines.len();
    let mut vc: usize = 0;
    let mut hc = false;
    let mut bin = false;
    let mut i: usize = 0;
    while i < n
        invariant
            0 <= i <= n,
            header_spec(gl, 0, 0, false, false) == header_spec(gl, i as int, vc as int, hc, bin),
        decreases n - i,
    {
        let ghost (vc0, hc0, bin0) = (vc as int, hc, bin);
        let t = trim_bytes(&lines[i]);
        proof {
            assert(gl[i as int] == lines@[i as int]@);
            assert(t@ == trimmed(gl[i as int]));
        }
        if bytes_eq(&t, &end_header_vec()) {
            return Ok(
                (PlyHeader { vertex_count: vc, has_colors: hc, is_binary: bin }, i + 1),
            );
        } else if bytes_eq(&t, &format_ascii_vec()) {
            bin = false;
        } else if bytes_eq(&t, &format_binary_vec()) {
            bin = true;
        } else if bytes_start_with(&t, &element_vertex_vec()) {
            let toks = split_ws(&t);
            proof {
                assert(t@.take(15)[0] == t@[0]);
                assert(t@[0] == 101);
                lemma_tokens_nonempty(t@);
                assert(toks.deep_view().len() == tokens(t@).len());
            }
            let lt = &toks[toks.len() - 1];
            proof {
                assert(toks.deep_view()[toks@.len() - 1] == toks@[toks@.len() - 1]@);
                assert(lt@ == tokens(t@).last());
            }
            match parse_uint_bounded(lt, usize::MAX as u64) {
                Some(v) => {
                    vc = v as usize;
                },
                None => {
                    return Err(PlyError::InvalidVertexCount);
                },
            }
        } else if bytes_start_with(&t, &property_vec()) && contains_red(&t) {
            hc = true;
        }
        proof {
            assert(header_spec(gl, i as int, vc0, hc0, bin0) == header_spec(
                gl,
                i + 1,
                vc as int,
                hc,
                bin,
            ));
        }
        i = i + 1;
    }
    Err(PlyError::UnexpectedEndOfHeader)
}

/// Parse one body line into a point.
pub fn parse_vertex_line(line: &Vec<u8>, has_colors: bool) -> (r: Result<Point, PlyError>)
    ensures
        r == vertex_line_spec(line@, has_colors),
{
    let toks = split_ws(line);
    proof {
        assert(toks.deep_view() == tokens(line@));
    }
    if toks.len() < 3 {
        return Err(PlyError::InvalidVertexLine);
    }
    proof {
        assert(toks.deep_view()[0] == toks@[0]@);
        assert(toks.deep_view()[1] == toks@[1]@);
        assert(toks.deep_view()[2] == toks@[2]@);
    }
    let x = match parse_coord_milli(&toks[0]) {
        Some(v) => v,
        None => {
            return Err(PlyError::InvalidX);
        },
    };
    let y = match parse_coord_milli(&toks[1]) {
        Some(v) => v,
        None => {
            return Err(PlyError::InvalidY);
        },
    };
    let z = match parse_coord_milli(&toks[2]) {
        Some(v) => v,
        None => {
            return Err(PlyError::InvalidZ);
        },
    };
    let color = if has_colors && toks.len() >= 6 {
        proof {
            assert(toks.deep_view()[3] == toks@[3]@);
            assert(toks.deep_view()[4] == toks@[4]@);
            assert(toks.deep_view()[5] == toks@[5]@);
        }
        let rc = match parse_uint_bounded(&toks[3], 255) {
            Some(v) => v as u8,
            None => 255,
        };
        let gc = match parse_uint_bounded(&toks[4], 255) {
            Some(v) => v as u8,
            None => 255,
        };
        let bc = match parse_uint_bounded(&toks[5], 255) {
            Some(v) => v as u8,
            None => 255,
        };
        Rgba { r: rc, g: gc, b: bc, a: 255 }
    } else {
        Rgba::white()
    };
    Ok(Point { x, y, z, color })
}

/// Parse a whole geometry file, given as its lines. Atomic: either the
/// parsed points or the first error, never a partial list.
#[verifier::loop_isolation(false)]
pub fn parse_ply(lines: &Vec<Vec<u8>>) -> (r: Result<Vec<Point>, PlyError>)
    ensures
        ({
            let o = parse_ply_spec(lines.deep_view());
            match r {
                Ok(v) => o == Ok::<Seq<Point>, PlyError>(v@),
                Err(e) => o == Err::<Seq<Point>, PlyError>(e),
            }
        }),
{
    let ghost gl = lines.deep_view();
    let (h, bs) = match parse_ply_header(lines) {
        Ok(p) => p,
        Err(e) => {
            return Err(e);
        },
    };
    if h.is_binary {
        return Err(PlyError::UnsupportedBinaryFormat);
    }
    let ghost whole = body_spec(gl, bs as int, h.vertex_count as int, h.has_colors);
    let n = lines.len();
    proof {
        lemma_header_accept_bounds(gl, 0, 0, false, false);
        let o = header_spec(gl, 0, 0, false, false);
        match o {
            HeaderOutcome::Accept { vertex_count, has_colors, is_binary, body_start } => {
                assert(h.vertex_count as int == vertex_count);
                assert(bs as int == body_start);
                assert(bs <= n);
                assert(parse_ply_spec(gl) == whole);
            },
            HeaderOutcome::Truncated => {
                assert(false);
            },
            HeaderOutcome::BadCount => {
                assert(false);
            },
        }
    }
    let mut out: Vec<Point> = Vec::new();
    let mut done: usize = 0;
    let mut i: usize = bs;
    while done < h.vertex_count && i < n
        invariant
            0 <= done <= h.vertex_count,
            bs <= i <= n,
            i == bs + done,
            ({
                let rest_r = body_spec(gl, i as int, h.vertex_count - done, h.has_colors);
                match rest_r {
                    Ok(rest) => whole == Ok::<Seq<Point>, PlyError>(out@ + rest),
                    Err(e) => whole == Err::<Seq<Point>, PlyError>(e),
                }
            }),
        decreases h.vertex_count - done,
    {
        proof {
            assert(gl[i as int] == lines@[i as int]@);
        }
        match parse_vertex_line(&lines[i], h.has_colors) {
            Err(e) => {
                return Err(e);
            },
            Ok(p) => {
                let ghost out0 = out@;
                out.push(p);
                proof {
                    let c = h.vertex_count - done;
                    let rr = body_spec(gl, i + 1 as int, c - 1, h.has_colors);
                    match rr {
                        Ok(rest) => {
                            assert(out@ + rest =~= out0 + (seq![p] + rest));
                        },
                        Err(e) => {},
                    }
                }
                i = i + 1;
                done = done + 1;
            },
        }
    }
    proof {
        assert(body_spec(gl, i as int, h.vertex_count - done, h.has_colors) == Ok::<
            Seq<Point>,
            PlyError,
        >(Seq::empty()));
        assert(out@ + Seq::<Point>::empty() =~= out@);
    }
    Ok(out)
}

} // verus!
