use polyline_batch::{Color, LineSegment, Point, Polyline};

fn gray() -> Color {
    Color { r: 0.5f32.to_bits(), g: 0.5f32.to_bits(), b: 0.5f32.to_bits() }
}

fn line(points: &[(i16, i16)], thickness: u16) -> Polyline {
    Polyline::new(points.iter().map(|&(x, y)| Point::new(x, y)).collect(), gray(), thickness)
}

fn sq(num: u128, den: u128) -> f64 {
    num as f64 / den as f64
}

#[test]
fn distance_is_zero_inside_a_segment() {
    let pl = line(&[(50, 50), (150, 150), (250, 50), (350, 250)], 35);
    for p in [(100, 100), (200, 100), (300, 150), (150, 150)] {
        let d = pl.distance_to(Point::new(p.0, p.1)).unwrap();
        assert!(d.is_zero(), "point {:?}", p);
        assert_eq!(d.sq_num, 0);
    }
}

#[test]
fn distance_to_short_polyline_is_infinite() {
    assert!(line(&[], 4).distance_to(Point::new(0, 0)).is_none());
    assert!(line(&[(3, 3)], 4).distance_to(Point::new(0, 0)).is_none());
}

#[test]
fn distance_measures_to_the_closest_segment() {
    let pl = line(&[(0, 0), (10, 0), (10, 10)], 2);
    // Square to the first segment, 3 away.
    let d = pl.distance_to(Point::new(5, -3)).unwrap();
    assert_eq!(sq(d.sq_num, d.sq_den), 9.0);
    // Past the far end of the last segment: distance to the point (10, 10).
    let d = pl.distance_to(Point::new(13, 14)).unwrap();
    assert_eq!(sq(d.sq_num, d.sq_den), 25.0);
    // Before the start: distance to (0, 0).
    let d = pl.distance_to(Point::new(-6, -8)).unwrap();
    assert_eq!(sq(d.sq_num, d.sq_den), 100.0);
    // Closer to the second segment than to the first.
    let d = pl.distance_to(Point::new(12, 5)).unwrap();
    assert_eq!(sq(d.sq_num, d.sq_den), 4.0);
}

#[test]
fn distance_to_a_slanted_segment_is_exact() {
    let pl = line(&[(0, 0), (4, 3)], 1);
    // The line 3x - 4y = 0; the point (0, 5) lies 4 from it, projecting inside.
    let d = pl.distance_to(Point::new(0, 5)).unwrap();
    assert_eq!(sq(d.sq_num, d.sq_den), 16.0);
}

#[test]
fn degenerate_segment_measures_to_its_point() {
    let pl = line(&[(3, 3), (3, 3)], 10);
    let d = pl.distance_to(Point::new(6, 7)).unwrap();
    assert_eq!(sq(d.sq_num, d.sq_den), 25.0);
    assert!(!pl.contains(Point::new(3, 3)));
}

#[test]
fn contains_points_square_to_the_middle_within_thickness() {
    let pl = line(&[(0, 0), (10, 0)], 5);
    assert!(pl.contains(Point::new(5, 4)));
    assert!(pl.contains(Point::new(5, -4)));
    assert!(pl.contains(Point::new(5, 5)));
    assert!(!pl.contains(Point::new(5, 6)));
    assert!(!pl.contains(Point::new(5, -6)));
}

#[test]
fn contains_excludes_points_beyond_the_ends() {
    let pl = line(&[(0, 0), (10, 0)], 5);
    assert!(!pl.contains(Point::new(11, 0)));
    assert!(!pl.contains(Point::new(-1, 0)));
    assert!(!pl.contains(Point::new(0, 0)));
    assert!(!pl.contains(Point::new(10, 0)));
    assert!(pl.contains(Point::new(1, 0)));
}

#[test]
fn contains_checks_every_segment() {
    let pl = line(&[(0, 0), (10, 0), (10, 10)], 2);
    assert!(pl.contains(Point::new(11, 5)));
    assert!(!pl.contains(Point::new(13, 5)));
    assert!(!line(&[(1, 1)], 5).contains(Point::new(1, 1)));
}

#[test]
fn line_segment_queries_and_flip() {
    let mut s = LineSegment::new(Point::new(0, 0), Point::new(0, 20), 3);
    assert!(s.contains(Point::new(2, 10)));
    assert!(!s.contains(Point::new(4, 10)));
    assert!(!s.contains(Point::new(0, 21)));
    let d = s.distance_to_point(Point::new(0, 25));
    assert_eq!(sq(d.sq_num, d.sq_den), 25.0);
    s.flip();
    assert_eq!(s.start, Point::new(0, 20));
    assert_eq!(s.end, Point::new(0, 0));
    assert_eq!(s.thickness, 3);
    let d = s.distance_to_point(Point::new(0, 25));
    assert_eq!(sq(d.sq_num, d.sq_den), 25.0);
}
