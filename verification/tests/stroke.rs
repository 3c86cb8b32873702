use spring_layout::fixed::Fixed;
use spring_layout::stroke::{
    isqrt, iterate_stroke, line_to_parallel_lines, Index, PathSegment, Vertex,
};
use spring_layout::vec2::Vec2;

fn at(x: i64, y: i64) -> Vec2 {
    Vec2::new(Fixed::from_int(x), Fixed::from_int(y))
}

fn raw_at(x: i64, y: i64) -> Vec2 {
    Vec2::new(Fixed::from_raw(x), Fixed::from_raw(y))
}

fn positions(vertices: &[Vertex]) -> Vec<(i64, i64)> {
    vertices.iter().map(|v| (v.position[0].raw(), v.position[1].raw())).collect()
}

#[test]
fn isqrt_is_the_floor_of_the_root() {
    let expected = [0u64, 1, 1, 1, 2, 2, 2, 2, 2, 3, 3, 3, 3, 3, 3, 3, 4, 4];
    for (n, root) in expected.iter().enumerate() {
        assert_eq!(isqrt(n as u128), *root);
    }
    assert_eq!(isqrt(99), 9);
    assert_eq!(isqrt(100), 10);
    assert_eq!(isqrt(2 * (1u128 << 48)), 23726566);
}

#[test]
fn isqrt_covers_the_whole_range() {
    let greatest = u64::MAX as u128;
    assert_eq!(isqrt(u128::MAX), u64::MAX);
    assert_eq!(isqrt(greatest * greatest), u64::MAX);
    assert_eq!(isqrt(greatest * greatest - 1), u64::MAX - 1);
    assert_eq!(isqrt(1u128 << 126), 1u64 << 63);
    assert_eq!(isqrt((1u128 << 126) - 1), (1u64 << 63) - 1);
}

#[test]
fn parallel_lines_of_a_horizontal_line_lie_above_and_below() {
    let lines = line_to_parallel_lines((at(0, 0), at(10, 0)), Fixed::from_int(2));
    assert_eq!(lines, ((at(0, 1), at(10, 1)), (at(0, -1), at(10, -1))));
}

#[test]
fn parallel_lines_of_a_vertical_line_lie_left_and_right() {
    let lines = line_to_parallel_lines((at(0, 0), at(0, 10)), Fixed::from_int(2));
    assert_eq!(lines, ((at(-1, 0), at(-1, 10)), (at(1, 0), at(1, 10))));
}

#[test]
fn parallel_lines_are_half_the_width_away() {
    let lines = line_to_parallel_lines((at(0, 0), at(3, 4)), Fixed::from_int(10));
    assert_eq!(lines, ((at(-4, 3), at(-1, 7)), (at(4, -3), at(7, 1))));
}

#[test]
fn parallel_lines_round_the_step_toward_zero() {
    let lines = line_to_parallel_lines((at(0, 0), at(1, 1)), Fixed::from_int(2));
    assert_eq!(
        lines,
        (
            (raw_at(-11863283, 11863283), raw_at(4913933, 28640499)),
            (raw_at(11863283, -11863283), raw_at(28640499, 4913933))
        )
    );
    let odd = line_to_parallel_lines((raw_at(0, 0), raw_at(7, 0)), Fixed::from_raw(3));
    assert_eq!(odd, ((raw_at(0, 1), raw_at(7, 1)), (raw_at(0, -1), raw_at(7, -1))));
}

#[test]
fn parallel_lines_of_a_negative_width_change_sides() {
    let lines = line_to_parallel_lines((at(0, 0), at(10, 0)), Fixed::from_int(-2));
    assert_eq!(lines, ((at(0, -1), at(10, -1)), (at(0, 1), at(10, 1))));
}

#[test]
fn parallel_lines_of_a_point_are_the_point() {
    let lines = line_to_parallel_lines((at(3, 4), at(3, 4)), Fixed::from_int(10));
    assert_eq!(lines, ((at(3, 4), at(3, 4)), (at(3, 4), at(3, 4))));
}

#[test]
fn parallel_lines_of_the_longest_line() {
    let least = raw_at(i64::MIN, i64::MIN);
    let greatest = raw_at(i64::MAX, i64::MAX);
    let lines = line_to_parallel_lines((least, greatest), Fixed::from_int(2));
    assert_eq!(
        lines,
        (
            (
                raw_at(i64::MIN, -9223372036842912525),
                raw_at(9223372036842912524, i64::MAX)
            ),
            (
                raw_at(-9223372036842912525, i64::MIN),
                raw_at(i64::MAX, 9223372036842912524)
            )
        )
    );
}

#[test]
fn parallel_lines_of_long_lines_keep_the_width() {
    let width = Fixed::from_int(2);
    for end in [(1i64 << 62) - 1, 1 << 62, i64::MAX] {
        let lines = line_to_parallel_lines((raw_at(0, 0), raw_at(end, 0)), width);
        assert_eq!((lines.0).0, at(0, 1));
        assert_eq!((lines.1).0, at(0, -1));
    }
    let widest = line_to_parallel_lines(
        (raw_at(i64::MIN, 0), raw_at(i64::MAX, 0)),
        Fixed::from_raw(i64::MAX),
    );
    assert_eq!((widest.0).0, raw_at(i64::MIN, 4611686018427387903));
}

#[test]
fn a_vertex_turns_the_vertical_axis() {
    let vertex = Vertex::from_point(&at(3, 4));
    assert_eq!(vertex.position, [Fixed::from_int(3), Fixed::from_int(-4), Fixed::zero()]);
    assert_eq!(vertex.color, [Fixed::zero(); 3]);
    assert_eq!(vertex._padding1, Fixed::zero());
    assert_eq!(vertex._padding2, Fixed::zero());
    let lowest = Vertex::from_point(&raw_at(0, i64::MIN));
    assert_eq!(lowest.position[1], Fixed::from_raw(i64::MAX));
}

#[test]
fn a_vertex_takes_a_colour() {
    let colour = [Fixed::from_raw(1), Fixed::from_raw(2), Fixed::from_raw(3)];
    let vertex = Vertex::from_point_and_color(&at(3, -4), &colour);
    assert_eq!(vertex.position, [Fixed::from_int(3), Fixed::from_int(4), Fixed::zero()]);
    assert_eq!(vertex.color, colour);
    assert_eq!(vertex._padding1, Fixed::zero());
    assert_eq!(vertex._padding2, Fixed::zero());
}

#[test]
fn the_default_vertex_is_at_the_origin() {
    assert_eq!(Vertex::default(), Vertex::from_point(&at(0, 0)));
}

#[test]
fn iterate_stroke_of_no_path_is_empty() {
    let (vertices, indices) = iterate_stroke(&Vec::new(), Fixed::from_int(2));
    assert!(vertices.is_empty());
    assert!(indices.is_empty());
}

#[test]
fn iterate_stroke_draws_only_lines_and_curves() {
    let path = vec![
        PathSegment::MoveTo { x: Fixed::from_int(1), y: Fixed::from_int(1) },
        PathSegment::ClosePath,
        PathSegment::MoveTo { x: Fixed::from_int(5), y: Fixed::from_int(5) },
    ];
    let (vertices, indices) = iterate_stroke(&path, Fixed::from_int(2));
    assert!(vertices.is_empty());
    assert!(indices.is_empty());
}

#[test]
fn iterate_stroke_starts_at_the_origin() {
    let path = vec![PathSegment::LineTo { x: Fixed::from_int(3), y: Fixed::from_int(4) }];
    let (vertices, indices) = iterate_stroke(&path, Fixed::from_int(10));
    let s = 16777216;
    assert_eq!(
        positions(&vertices),
        vec![
            (-4 * s, -3 * s),
            (-s, -7 * s),
            (4 * s, 3 * s),
            (-s, -7 * s),
            (4 * s, 3 * s),
            (7 * s, -s)
        ]
    );
    assert_eq!(indices, Vec::<Index>::new());
    for vertex in vertices {
        assert_eq!(vertex, Vertex::from_point(&Vec2::new(vertex.position[0], vertex.position[1].saturating_neg())));
    }
}

#[test]
fn iterate_stroke_follows_the_pen() {
    let zero = Fixed::zero();
    let path = vec![
        PathSegment::MoveTo { x: Fixed::from_int(1), y: Fixed::from_int(1) },
        PathSegment::LineTo { x: Fixed::from_int(4), y: Fixed::from_int(5) },
        PathSegment::CurveTo {
            x1: zero,
            y1: Fixed::from_int(90),
            x2: Fixed::from_int(-90),
            y2: zero,
            x: Fixed::from_int(4),
            y: Fixed::from_int(8),
        },
        PathSegment::ClosePath,
        PathSegment::LineTo { x: Fixed::from_int(10), y: Fixed::from_int(8) },
    ];
    let (vertices, indices) = iterate_stroke(&path, Fixed::from_int(2));
    assert_eq!(
        positions(&vertices),
        vec![
            (3355444, -26843545),
            (53687092, -93952409),
            (30198988, -6710887),
            (53687092, -93952409),
            (30198988, -6710887),
            (80530636, -73819751),
            (50331648, -83886080),
            (50331648, -134217728),
            (83886080, -83886080),
            (50331648, -134217728),
            (83886080, -83886080),
            (83886080, -134217728),
            (67108864, -150994944),
            (167772160, -150994944),
            (67108864, -117440512),
            (167772160, -150994944),
            (67108864, -117440512),
            (167772160, -117440512),
        ]
    );
    assert!(indices.is_empty());
}
