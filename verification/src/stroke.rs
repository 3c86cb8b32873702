//! Strokes of a path as triangles.

use crate::fixed::{div_toward_zero, magnitude, narrow, saturate, Fixed};
use crate::vec2::Vec2;
use vstd::prelude::*;

verus! {

/// An index into the vertices of a stroke.
pub type Index = u32;

/// A step of a path, in absolute coordinates.
#[derive(Clone, Copy, Debug, PartialEq, Eq, Structural)]
pub enum PathSegment {
    MoveTo { x: Fixed, y: Fixed },
    LineTo { x: Fixed, y: Fixed },
    CurveTo { x1: Fixed, y1: Fixed, x2: Fixed, y2: Fixed, x: Fixed, y: Fixed },
    ClosePath,
}

/// A vertex as the renderer reads it: a position and a colour, each padded to four cells.
#[derive(Clone, Copy, Debug, PartialEq, Eq)]
pub struct Vertex {
    pub position: [Fixed; 3],
    pub _padding1: Fixed,
    pub color: [Fixed; 3],
    pub _padding2: Fixed,
}

impl View for Vertex {
    type V = Seq<int>;

    /// The eight raw values in the order in which they lie in memory.
    open spec fn view(&self) -> Seq<int> {
        seq![
            self.position[0]@,
            self.position[1]@,
            self.position[2]@,
            self._padding1@,
            self.color[0]@,
            self.color[1]@,
            self.color[2]@,
            self._padding2@,
        ]
    }
}

/// Differences from this size on are too large to be squared.
pub const LARGE: i128 = 0x4000_0000_0000_0000;

/// Whether `r` is the largest whole number whose square is at most `n`.
pub open spec fn is_sqrt_floor(n: int, r: int) -> bool {
    0 <= r && r * r <= n < (r + 1) * (r + 1)
}

/// The largest whole number whose square is at most `n`, for `n >= 0`.
pub open spec fn sqrt_floor(n: int) -> int {
    choose|r: int| is_sqrt_floor(n, r)
}

/// The run and rise from which the direction of a line is taken: those of the line, or a
/// quarter of them where they are too large to be squared.
pub open spec fn direction(run: int, rise: int) -> (int, int) {
    if magnitude(run) < LARGE && magnitude(rise) < LARGE {
        (run, rise)
    } else {
        (div_toward_zero(run, 4), div_toward_zero(rise, 4))
    }
}

/// The step from a line to the parallel line on its left at half the `width`: the line's
/// direction turned by a quarter turn and scaled to that length, each coordinate rounded
/// toward zero. A line without length has no direction, and the step is zero.
pub open spec fn side_step(from: (int, int), to: (int, int), width: int) -> (int, int) {
    let (run, rise) = direction(to.0 - from.0, to.1 - from.1);
    let length = sqrt_floor(run * run + rise * rise);
    let half = div_toward_zero(width, 2);
    if length == 0 {
        (0, 0)
    } else {
        (
            saturate(div_toward_zero(-rise * half, length)),
            saturate(div_toward_zero(run * half, length)),
        )
    }
}

/// The ends of the two lines parallel to the line from `from` to `to`, half the `width` to
/// either side: the start and the end of the one, then the start and the end of the other.
pub open spec fn parallel_lines(from: (int, int), to: (int, int), width: int) -> Seq<(int, int)> {
    let step = side_step(from, to, width);
    seq![
        (saturate(from.0 + step.0), saturate(from.1 + step.1)),
        (saturate(to.0 + step.0), saturate(to.1 + step.1)),
        (saturate(from.0 - step.0), saturate(from.1 - step.1)),
        (saturate(to.0 - step.0), saturate(to.1 - step.1)),
    ]
}

/// The raw values of the vertex at a point of a path, in a colour: the vertical axis of the
/// renderer points the other way.
pub open spec fn vertex_cells(point: (int, int), color: Seq<int>) -> Seq<int> {
    seq![point.0, saturate(-point.1), 0, 0, color[0], color[1], color[2], 0]
}

/// The raw values of a vertex without colour.
pub open spec fn plain_vertex_cells(point: (int, int)) -> Seq<int> {
    vertex_cells(point, seq![0, 0, 0])
}

/// The six vertices of the two triangles that cover the stroke of one line.
pub open spec fn rectangle(from: (int, int), to: (int, int), width: int) -> Seq<Seq<int>> {
    let p = parallel_lines(from, to, width);
    seq![
        plain_vertex_cells(p[0]),
        plain_vertex_cells(p[1]),
        plain_vertex_cells(p[2]),
        plain_vertex_cells(p[1]),
        plain_vertex_cells(p[2]),
        plain_vertex_cells(p[3]),
    ]
}

/// Where the pen is after a path: at the end point of its last step that has one, or at
/// the origin.
pub open spec fn pen_after(path: Seq<PathSegment>) -> (int, int)
    decreases path.len(),
{
    if path.len() == 0 {
        (0, 0)
    } else {
        match path.last() {
            PathSegment::MoveTo { x, y } => (x@, y@),
            PathSegment::LineTo { x, y } => (x@, y@),
            PathSegment::CurveTo { x, y, .. } => (x@, y@),
            PathSegment::ClosePath => pen_after(path.drop_last()),
        }
    }
}

/// The vertices of the strokes of a path: one rectangle for every line and every curve,
/// from where the pen was to the step's end point. Moving and closing draw nothing.
pub open spec fn stroke(path: Seq<PathSegment>, width: int) -> Seq<Seq<int>>
    decreases path.len(),
{
    if path.len() == 0 {
        Seq::empty()
    } else {
        let earlier = stroke(path.drop_last(), width);
        let pen = pen_after(path.drop_last());
        match path.last() {
            PathSegment::LineTo { x, y } => earlier + rectangle(pen, (x@, y@), width),
            PathSegment::CurveTo { x, y, .. } => earlier + rectangle(pen, (x@, y@), width),
            _ => earlier,
        }
    }
}

/// Only one whole number has a square at most `n` whose successor's square is more.
pub proof fn lemma_sqrt_floor_is(n: int, r: int)
    requires
        0 <= r,
        r * r <= n < (r + 1) * (r + 1),
    ensures
        sqrt_floor(n) == r,
{
    let c = sqrt_floor(n);
    assert(is_sqrt_floor(n, r));
    assert(is_sqrt_floor(n, c));
    assert(c == r) by (nonlinear_arith)
        requires
            0 <= r,
            r * r <= n < (r + 1) * (r + 1),
            0 <= c,
            c * c <= n < (c + 1) * (c + 1),
    {
        if c < r {
            assert((c + 1) * (c + 1) <= r * r);
        }
        if r < c {
            assert((r + 1) * (r + 1) <= c * c);
        }
    }
}

/// The largest whole number whose square is at most `n`.
pub fn isqrt(n: u128) -> (r: u64)
    ensures
        r == sqrt_floor(n as int),
{
    let mut low: u128 = 0;
    let mut high: u128 = 0x1_0000_0000_0000_0000;
    assert(0x1_0000_0000_0000_0000 * 0x1_0000_0000_0000_0000
        == 0x1_0000_0000_0000_0000_0000_0000_0000_0000) by (nonlinear_arith);
    while high - low > 1
        invariant
            low < high <= 0x1_0000_0000_0000_0000,
            low * low <= n < high * high,
        decreases high - low,
    {
        let mid: u128 = low + (high - low) / 2;
        assert(mid * mid <= 0xffff_ffff_ffff_ffff * 0xffff_ffff_ffff_ffff
            && 0xffff_ffff_ffff_ffff * 0xffff_ffff_ffff_ffff
            == 0xffff_ffff_ffff_fffe_0000_0000_0000_0001) by (nonlinear_arith)
            requires
                0 <= mid <= 0xffff_ffff_ffff_ffff,
        ;
        if mid * mid <= n {
            low = mid;
        } else {
            high = mid;
        }
    }
    proof {
        lemma_sqrt_floor_is(n as int, low as int);
    }
    low as u64
}

impl Default for Vertex {
    /// The vertex at the origin, without colour.
    fn default() -> (r: Vertex)
        ensures
            r@ == plain_vertex_cells((0, 0)),
    {
        let z = Fixed { raw: 0 };
        let r = Vertex { position: [z, z, z], _padding1: z, color: [z, z, z], _padding2: z };
        assert(r@ =~= plain_vertex_cells((0, 0)));
        r
    }
}

impl Vertex {
    /// The vertex at a point of a path, without colour.
    pub fn from_point(v: &Vec2) -> (r: Vertex)
        ensures
            r@ == plain_vertex_cells(v@),
    {
        let z = Fixed { raw: 0 };
        let r = Vertex {
            position: [v.x, v.y.saturating_neg(), z],
            _padding1: z,
            color: [z, z, z],
            _padding2: z,
        };
        assert(r@ =~= plain_vertex_cells(v@));
        r
    }

    /// The vertex at a point of a path, in a colour.
    pub fn from_point_and_color(v: &Vec2, c: &[Fixed; 3]) -> (r: Vertex)
        ensures
            r@ == vertex_cells(v@, seq![c[0]@, c[1]@, c[2]@]),
    {
        let z = Fixed { raw: 0 };
        let r = Vertex {
            position: [v.x, v.y.saturating_neg(), z],
            _padding1: z,
            color: [c[0], c[1], c[2]],
            _padding2: z,
        };
        assert(r@ =~= vertex_cells(v@, seq![c[0]@, c[1]@, c[2]@]));
        r
    }
}

/// The ends of the two lines parallel to a line, half the `width` to either side.
pub fn line_to_parallel_lines(line: (Vec2, Vec2), width: Fixed) -> (r: ((Vec2, Vec2), (Vec2, Vec2)))
    ensures
        seq![r.0.0@, r.0.1@, r.1.0@, r.1.1@] == parallel_lines(line.0@, line.1@, width@),
{
    let (from, to) = line;
    let full_run: i128 = to.x.raw as i128 - from.x.raw as i128;
    let full_rise: i128 = to.y.raw as i128 - from.y.raw as i128;
    let small = -LARGE < full_run && full_run < LARGE && -LARGE < full_rise && full_rise < LARGE;
    let run: i128 = if small {
        full_run
    } else {
        full_run / 4
    };
    let rise: i128 = if small {
        full_rise
    } else {
        full_rise / 4
    };
    assert(-LARGE < run < LARGE && -LARGE < rise < LARGE);
    assert(0 <= run * run <= LARGE * LARGE && 0 <= rise * rise <= LARGE * LARGE && LARGE * LARGE
        == 0x1000_0000_0000_0000_0000_0000_0000_0000) by (nonlinear_arith)
        requires
            -LARGE < run < LARGE,
            -LARGE < rise < LARGE,
            LARGE == 0x4000_0000_0000_0000,
    ;
    let length = isqrt((run * run + rise * rise) as u128);
    let half: i128 = width.raw as i128 / 2;
    let step = if length == 0 {
        (Fixed { raw: 0 }, Fixed { raw: 0 })
    } else {
        assert(-LARGE * LARGE <= -rise * half <= LARGE * LARGE && -LARGE * LARGE <= run * half
            <= LARGE * LARGE && LARGE * LARGE == 0x1000_0000_0000_0000_0000_0000_0000_0000)
            by (nonlinear_arith)
            requires
                -LARGE < run < LARGE,
                -LARGE < rise < LARGE,
                -LARGE <= half <= LARGE,
                LARGE == 0x4000_0000_0000_0000,
        ;
        (
            narrow(((-rise) * half) / (length as i128)),
            narrow((run * half) / (length as i128)),
        )
    };
    let r = (
        (
            Vec2 { x: from.x.saturating_add(step.0), y: from.y.saturating_add(step.1) },
            Vec2 { x: to.x.saturating_add(step.0), y: to.y.saturating_add(step.1) },
        ),
        (
            Vec2 { x: from.x.saturating_sub(step.0), y: from.y.saturating_sub(step.1) },
            Vec2 { x: to.x.saturating_sub(step.0), y: to.y.saturating_sub(step.1) },
        ),
    );
    assert(seq![r.0.0@, r.0.1@, r.1.0@, r.1.1@] =~= parallel_lines(line.0@, line.1@, width@));
    r
}

/// The strokes of `path` at `width`: for every line and every curve the six vertices of two
/// triangles that cover the stroke from the pen to the step's end point. A curve is drawn
/// as the line to its end point. No indices are produced.
pub fn iterate_stroke(path: &Vec<PathSegment>, width: Fixed) -> (r: (Vec<Vertex>, Vec<Index>))
    ensures
        r.0@.len() == stroke(path@, width@).len(),
        forall|i: int| 0 <= i < r.0@.len() ==> (#[trigger] r.0@[i])@ == stroke(path@, width@)[i],
        r.1@ == Seq::<Index>::empty(),
{
    let mut vertices: Vec<Vertex> = Vec::new();
    let indices: Vec<Index> = Vec::new();
    let mut pen = Vec2 { x: Fixed { raw: 0 }, y: Fixed { raw: 0 } };
    let mut k: usize = 0;
    while k < path.len()
        invariant
            k <= path@.len(),
            pen@ == pen_after(path@.take(k as int)),
            vertices@.len() == stroke(path@.take(k as int), width@).len(),
            forall|i: int|
                0 <= i < vertices@.len() ==> (#[trigger] vertices@[i])@ == stroke(
                    path@.take(k as int),
                    width@,
                )[i],
        decreases path@.len() - k,
    {
        let ghost seen = path@.take(k as int);
        let ghost next = path@.take(k as int + 1);
        let ghost drawn = stroke(seen, width@);
        proof {
            assert(next.drop_last() =~= seen);
            assert(next.last() == path@[k as int]);
        }
        let end = match path[k] {
            PathSegment::MoveTo { x, y } => {
                pen = Vec2 { x, y };
                None
            },
            PathSegment::LineTo { x, y } => Some(Vec2 { x, y }),
            PathSegment::CurveTo { x1: _, y1: _, x2: _, y2: _, x, y } => Some(Vec2 { x, y }),
            PathSegment::ClosePath => None,
        };
        match end {
            Some(to) => {
                let ((p0, p1), (p2, p3)) = line_to_parallel_lines((pen, to), width);
                let ghost lines = parallel_lines(pen@, to@, width@);
                assert(lines[0] == p0@ && lines[1] == p1@ && lines[2] == p2@ && lines[3] == p3@) by {
                    assert(seq![p0@, p1@, p2@, p3@] == lines);
                    assert(seq![p0@, p1@, p2@, p3@][0] == p0@);
                    assert(seq![p0@, p1@, p2@, p3@][1] == p1@);
                    assert(seq![p0@, p1@, p2@, p3@][2] == p2@);
                    assert(seq![p0@, p1@, p2@, p3@][3] == p3@);
                }
                vertices.push(Vertex::from_point(&p0));
                vertices.push(Vertex::from_point(&p1));
                vertices.push(Vertex::from_point(&p2));
                vertices.push(Vertex::from_point(&p1));
                vertices.push(Vertex::from_point(&p2));
                vertices.push(Vertex::from_point(&p3));
                proof {
                    let piece = rectangle(pen@, to@, width@);
                    assert(stroke(next, width@) == drawn + piece);
                    assert forall|i: int| 0 <= i < vertices@.len() implies (#[trigger] vertices@[i])@
                        == stroke(next, width@)[i] by {
                        if i >= drawn.len() {
                            assert(stroke(next, width@)[i] == piece[i - drawn.len()]);
                        }
                    }
                }
                pen = to;
            },
            None => {},
        }
        k = k + 1;
    }
    assert(path@.take(k as int) =~= path@);
    (vertices, indices)
}

} // verus!
