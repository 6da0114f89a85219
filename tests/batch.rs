use polyline_batch::{
    stroke, Color, LineCap, LineJoin, Point, Polyline, PolylineBuffer, StrokeMesh, StrokeStyle,
    TessellateError, BUFFER_SIZE,
};

fn color(r: f32, g: f32, b: f32) -> Color {
    Color { r: r.to_bits(), g: g.to_bits(), b: b.to_bits() }
}

fn line(points: &[(i16, i16)], c: Color, thickness: u16) -> Polyline {
    Polyline::new(points.iter().map(|&(x, y)| Point::new(x, y)).collect(), c, thickness)
}

fn style() -> StrokeStyle {
    StrokeStyle::new(LineCap::Butt, LineJoin::Miter, 500)
}

fn zigzag() -> Polyline {
    line(&[(50, 50), (150, 150), (250, 50), (350, 250)], color(0.0, 0.6, 1.0), 35)
}

fn star() -> Polyline {
    line(
        &[(100, 100), (200, 800), (800, 200), (123, 456), (0, 0)],
        color(0.2, 0.2, 0.3),
        80,
    )
}

/// Vertex and index counts of one polyline's stroke.
fn counts(pl: &Polyline) -> (usize, usize) {
    let (v, i) = stroke(&pl.points, pl.thickness, style()).unwrap();
    (v.len(), i.len())
}

#[test]
fn empty_batch_draws_nothing() {
    let mut buf = PolylineBuffer::with_buffer_size(BUFFER_SIZE);
    assert_eq!(buf.tessellate(&[], style()), Ok(()));
    assert_eq!(buf.index_count(), 0);
    assert!(buf.vertices().is_empty());
    assert!(buf.indices().is_empty());
}

#[test]
fn buffer_size_sets_capacities() {
    let buf = PolylineBuffer::with_buffer_size(BUFFER_SIZE);
    assert_eq!(buf.vertex_capacity(), 32768 / 20);
    assert_eq!(buf.index_capacity(), 32768 / 4);
    assert_eq!(buf.index_count(), 0);
}

#[test]
fn two_polylines_index_their_own_vertices() {
    let (a, b) = (star(), zigzag());
    let (va, ia) = counts(&a);
    let (vb, ib) = counts(&b);
    assert!(va > 0 && vb > 0);
    let mut buf = PolylineBuffer::with_buffer_size(BUFFER_SIZE);
    assert_eq!(buf.tessellate(&[a, b], style()), Ok(()));
    assert_eq!(buf.vertices().len(), va + vb);
    assert_eq!(buf.indices().len(), ia + ib);
    assert_eq!(buf.index_count() as usize, ia + ib);
    for (k, &i) in buf.indices().iter().enumerate() {
        assert!((i as usize) < va + vb);
        if k < ia {
            assert!((i as usize) < va, "index {} of the first stroke is {}", k, i);
        } else {
            assert!((i as usize) >= va, "index {} of the second stroke is {}", k, i);
        }
    }
}

#[test]
fn second_stroke_indices_are_offset() {
    let (a, b) = (star(), zigzag());
    let (va, _) = counts(&a);
    let (_, ib_local) = stroke(&b.points, b.thickness, style()).unwrap();
    let (_, ia) = counts(&a);
    let mut buf = PolylineBuffer::with_buffer_size(BUFFER_SIZE);
    buf.tessellate(&[a, b], style()).unwrap();
    for (j, &local) in ib_local.iter().enumerate() {
        assert_eq!(buf.indices()[ia + j], local as u32 + va as u32);
    }
}

#[test]
fn vertices_take_their_polyline_color() {
    let (a, b) = (star(), zigzag());
    let (ca, cb) = (a.color, b.color);
    let (va, _) = counts(&a);
    let mut buf = PolylineBuffer::with_buffer_size(BUFFER_SIZE);
    buf.tessellate(&[a, b], style()).unwrap();
    for (k, v) in buf.vertices().iter().enumerate() {
        assert_eq!(v.color, if k < va { ca } else { cb });
    }
}

fn stroke_height(cap: LineCap) -> f32 {
    let pl = line(&[(0, 0), (100, 0)], color(1.0, 1.0, 1.0), 10);
    let mut buf = PolylineBuffer::with_buffer_size(BUFFER_SIZE);
    buf.tessellate(&[pl], StrokeStyle::new(cap, LineJoin::Miter, 500)).unwrap();
    assert!(buf.index_count() > 0);
    let ys: Vec<f32> = buf.vertices().iter().map(|v| f32::from_bits(v.y)).collect();
    let top = ys.iter().cloned().fold(f32::MIN, f32::max);
    let bottom = ys.iter().cloned().fold(f32::MAX, f32::min);
    top - bottom
}

#[test]
fn straight_stroke_is_as_wide_as_its_thickness() {
    assert!((stroke_height(LineCap::Butt) - 10.0).abs() < 0.01);
    assert!((stroke_height(LineCap::Round) - 10.0).abs() < 0.01);
}

#[test]
fn straight_butt_stroke_spans_the_segment() {
    let pl = line(&[(0, 0), (100, 0)], color(1.0, 1.0, 1.0), 10);
    let (v, i) = stroke(&pl.points, pl.thickness, style()).unwrap();
    assert_eq!(i.len() % 3, 0);
    let xs: Vec<f32> = v.iter().map(|p| f32::from_bits(p.0)).collect();
    assert!(xs.iter().any(|&x| x.abs() < 0.01));
    assert!(xs.iter().any(|&x| (x - 100.0).abs() < 0.01));
    assert!(xs.iter().all(|&x| x > -0.01 && x < 100.01));
}

#[test]
fn retessellating_fewer_polylines_replaces_everything() {
    let (a, b) = (star(), zigzag());
    let (vb, ib) = counts(&b);
    let mut buf = PolylineBuffer::with_buffer_size(BUFFER_SIZE);
    buf.tessellate(&[a, b], style()).unwrap();
    let b = zigzag();
    buf.tessellate(&[b], style()).unwrap();
    assert_eq!(buf.index_count() as usize, ib);
    assert_eq!(buf.vertices().len(), vb);
    let mut fresh = PolylineBuffer::with_buffer_size(BUFFER_SIZE);
    fresh.tessellate(&[zigzag()], style()).unwrap();
    assert_eq!(buf.vertices(), fresh.vertices());
    assert_eq!(buf.indices(), fresh.indices());
}

#[test]
fn overflow_fails_and_keeps_contents() {
    let (va, ia) = counts(&zigzag());
    let (vb, _) = counts(&star());
    let mut buf = PolylineBuffer::new((va + vb - 1) as u32, 100_000);
    buf.tessellate(&[zigzag()], style()).unwrap();
    assert_eq!(buf.index_count() as usize, ia);
    let before_v = buf.vertices().clone();
    let before_i = buf.indices().clone();
    let r = buf.tessellate(&[zigzag(), star()], style());
    assert_eq!(
        r,
        Err(TessellateError::VertexOverflow { required: (va + vb) as u128, capacity: (va + vb - 1) as u32 })
    );
    assert_eq!(r.unwrap_err().overflow(), Some(1));
    assert_eq!(buf.vertices(), &before_v);
    assert_eq!(buf.indices(), &before_i);
    assert_eq!(buf.index_count() as usize, ia);
    buf.tessellate(&[star()], style()).unwrap();
    assert_eq!(buf.vertices().len(), vb);
}

#[test]
fn index_overflow_is_reported() {
    let pos = vec![(0u32, 0u32), (1, 0), (0, 1)];
    let mesh = StrokeMesh::new(pos, vec![0, 1, 2, 2, 1, 0], color(0.0, 0.0, 0.0));
    let mut buf = PolylineBuffer::new(10, 5);
    let r = buf.upload(&vec![mesh]);
    assert_eq!(r, Err(TessellateError::IndexOverflow { required: 6, capacity: 5 }));
    assert_eq!(r.unwrap_err().overflow(), Some(1));
    assert_eq!(buf.index_count(), 0);
}

#[test]
fn upload_offsets_indices_exactly() {
    let c1 = color(1.0, 0.0, 0.0);
    let c2 = color(0.0, 1.0, 0.0);
    let m1 = StrokeMesh::new(vec![(1, 1), (2, 2), (3, 3)], vec![0, 1, 2], c1);
    let m2 = StrokeMesh::new(vec![(4, 4), (5, 5), (6, 6), (7, 7)], vec![3, 2, 1, 0, 1, 2], c2);
    let mut buf = PolylineBuffer::new(7, 9);
    assert_eq!(buf.upload(&vec![m1, m2]), Ok(()));
    assert_eq!(buf.indices(), &vec![0, 1, 2, 6, 5, 4, 3, 4, 5]);
    assert_eq!(buf.vertices().len(), 7);
    assert_eq!(buf.vertices()[0].color, c1);
    assert_eq!(buf.vertices()[3].color, c2);
    assert_eq!((buf.vertices()[6].x, buf.vertices()[6].y), (7, 7));
}

#[test]
fn malformed_stroke_is_rejected() {
    let good = StrokeMesh::new(vec![(0, 0), (1, 0), (0, 1)], vec![0, 1, 2], color(0.0, 0.0, 0.0));
    let bad = StrokeMesh::new(vec![(0, 0), (1, 0)], vec![0, 1, 2], color(0.0, 0.0, 0.0));
    let mut buf = PolylineBuffer::new(100, 100);
    assert_eq!(buf.upload(&vec![good, bad]), Err(TessellateError::MalformedStroke { polyline: 1 }));
    assert_eq!(buf.index_count(), 0);
}

#[test]
fn short_polyline_is_rejected() {
    let mut buf = PolylineBuffer::with_buffer_size(BUFFER_SIZE);
    buf.tessellate(&[zigzag()], style()).unwrap();
    let count = buf.index_count();
    let lone = line(&[(5, 5)], color(0.0, 0.0, 0.0), 3);
    let r = buf.tessellate(&[zigzag(), lone], style());
    assert_eq!(r, Err(TessellateError::TooFewPoints { polyline: 1, points: 1 }));
    assert_eq!(r.unwrap_err().overflow(), None);
    let empty = line(&[], color(0.0, 0.0, 0.0), 3);
    assert_eq!(
        buf.tessellate(&[empty], style()),
        Err(TessellateError::TooFewPoints { polyline: 0, points: 0 })
    );
    assert_eq!(buf.index_count(), count);
}

#[test]
fn miter_limit_below_one_is_rejected() {
    let mut buf = PolylineBuffer::with_buffer_size(BUFFER_SIZE);
    let r = buf.tessellate(&[zigzag()], StrokeStyle::new(LineCap::Round, LineJoin::Round, 0));
    assert_eq!(r, Err(TessellateError::MiterLimitBelowOne));
    assert_eq!(buf.index_count(), 0);
}

#[test]
fn round_joins_and_caps_add_geometry() {
    let pl = zigzag();
    let (v_sharp, _) = counts(&pl);
    let (v_round, i_round) =
        stroke(&pl.points, pl.thickness, StrokeStyle::new(LineCap::Round, LineJoin::Round, 4)).unwrap();
    assert!(v_round.len() > v_sharp);
    assert_eq!(i_round.len() % 3, 0);
    assert!(i_round.iter().all(|&i| (i as usize) < v_round.len()));
}

#[test]
fn coincident_points_do_not_crash() {
    let pl = line(&[(10, 10), (10, 10), (10, 10)], color(0.0, 0.0, 0.0), 4);
    let mut buf = PolylineBuffer::with_buffer_size(BUFFER_SIZE);
    let r = buf.tessellate(&[pl], style());
    assert!(matches!(r, Ok(()) | Err(TessellateError::StrokeFailed { polyline: 0 })));
    for &i in buf.indices() {
        assert!((i as usize) < buf.vertices().len());
    }
}

#[test]
fn sharp_stroke_repeats_exactly() {
    let pl = star();
    let first = stroke(&pl.points, pl.thickness, style()).unwrap();
    let second = stroke(&pl.points, pl.thickness, style()).unwrap();
    assert_eq!(first, second);
    assert_eq!(first.1.len() % 3, 0);
}

#[test]
fn round_style_tessellates_into_the_buffer() {
    let mut buf = PolylineBuffer::with_buffer_size(BUFFER_SIZE);
    let r = buf.tessellate(&[zigzag()], StrokeStyle::new(LineCap::Round, LineJoin::Round, 4));
    assert_eq!(r, Ok(()));
    assert!(buf.index_count() > 0);
    assert_eq!(buf.index_count() % 3, 0);
    for &i in buf.indices() {
        assert!((i as usize) < buf.vertices().len());
    }
}
