//! Points, polylines and line segments, with exact distance and containment
//! queries.
use vstd::prelude::*;

verus! {

/// A point of the drawing plane, in whole units of the caller's coordinate
/// space. Stroke widths are in the same units. The unit is the caller's choice
/// (a pixel, a sixteenth of a pixel, a ten-thousandth of clip space), fixed for
/// one pipeline and undone by its projection.
#[derive(Clone, Copy, Debug, PartialEq, Eq, Structural)]
pub struct Point {
    pub x: i16,
    pub y: i16,
}

impl Point {
    pub fn new(x: i16, y: i16) -> (r: Point)
        ensures
            r.x == x,
            r.y == y,
    {
        Point { x, y }
    }
}

/// Dot product of the vectors `(ax, ay)` and `(bx, by)`.
pub open spec fn dot(ax: int, ay: int, bx: int, by: int) -> int {
    ax * bx + ay * by
}

/// The z component of the cross product of `(ax, ay)` and `(bx, by)`.
pub open spec fn cross(ax: int, ay: int, bx: int, by: int) -> int {
    ax * by - ay * bx
}

/// Squared length of the segment from `a` to `b`.
pub open spec fn sq_len(a: Point, b: Point) -> int {
    dot(b.x - a.x, b.y - a.y, b.x - a.x, b.y - a.y)
}

/// Squared distance between two points.
pub open spec fn sq_dist(p: Point, q: Point) -> int {
    sq_len(p, q)
}

/// Where the projection of `p` falls on the line through `a` and `b`, scaled by
/// `sq_len(a, b)`: 0 at `a`, `sq_len(a, b)` at `b`.
pub open spec fn projection(p: Point, a: Point, b: Point) -> int {
    dot(p.x - a.x, p.y - a.y, b.x - a.x, b.y - a.y)
}

/// Twice the signed area of the triangle `a`, `b`, `p`.
pub open spec fn offset(p: Point, a: Point, b: Point) -> int {
    cross(p.x - a.x, p.y - a.y, b.x - a.x, b.y - a.y)
}

/// Squared distance from `p` to the closed segment from `a` to `b`, as a
/// fraction `(numerator, denominator)`.
///
/// The projection of `p` is clamped to the segment; a segment whose ends
/// coincide is the single point `a`.
pub open spec fn segment_sq_distance(p: Point, a: Point, b: Point) -> (int, int) {
    let l = sq_len(a, b);
    let h = projection(p, a, b);
    if l == 0 || h <= 0 {
        (sq_dist(p, a), 1)
    } else if h >= l {
        (sq_dist(p, b), 1)
    } else {
        (offset(p, a, b) * offset(p, a, b), l)
    }
}

/// `p` lies within `thickness` of the body of the segment from `a` to `b`: its
/// projection falls strictly between the two ends, and its distance to the line
/// is at most `thickness`. Points beyond either end never count.
pub open spec fn segment_holds(p: Point, a: Point, b: Point, thickness: int) -> bool {
    let l = sq_len(a, b);
    let h = projection(p, a, b);
    &&& 0 < h < l
    &&& offset(p, a, b) * offset(p, a, b) <= thickness * thickness * l
}

/// The fraction `a` is at most the fraction `b` (both denominators positive).
pub open spec fn frac_le(a: (int, int), b: (int, int)) -> bool {
    a.0 * b.1 <= b.0 * a.1
}

proof fn lemma_frac_le_trans(a: (int, int), b: (int, int), c: (int, int))
    requires
        a.1 > 0,
        b.1 > 0,
        c.1 > 0,
        frac_le(a, b),
        frac_le(b, c),
    ensures
        frac_le(a, c),
{
    let (a0, a1, b0, b1, c0, c1) = (a.0, a.1, b.0, b.1, c.0, c.1);
    assert(a0 * c1 <= c0 * a1) by (nonlinear_arith)
        requires
            a1 > 0,
            b1 > 0,
            c1 > 0,
            a0 * b1 <= b0 * a1,
            b0 * c1 <= c0 * b1,
    ;
}

proof fn lemma_mul_bound(a: int, b: int, m: int)
    requires
        -m <= a <= m,
        -m <= b <= m,
    ensures
        -(m * m) <= a * b <= m * m,
{
    assert(-(m * m) <= a * b <= m * m) by (nonlinear_arith)
        requires
            -m <= a <= m,
            -m <= b <= m,
    ;
}

proof fn lemma_mul_le(a: int, b: int, ma: int, mb: int)
    requires
        0 <= a <= ma,
        0 <= b <= mb,
    ensures
        0 <= a * b <= ma * mb,
{
    assert(0 <= a * b <= ma * mb) by (nonlinear_arith)
        requires
            0 <= a <= ma,
            0 <= b <= mb,
    ;
}

proof fn lemma_square_nonneg(a: int)
    ensures
        a * a >= 0,
{
    assert(a * a >= 0) by (nonlinear_arith);
}

/// Largest magnitude of a coordinate difference.
const SPAN: i128 = 65535;

/// Bound on a dot or cross product of two coordinate differences.
const PRODUCT_BOUND: i128 = 0x2_0000_0000;

/// Bound on the numerator of a squared distance.
const SQ_NUM_BOUND: u128 = 0x4_0000_0000_0000_0000;

/// Dot product of two coordinate differences.
fn dot_exec(ax: i128, ay: i128, bx: i128, by: i128) -> (r: i128)
    requires
        -SPAN <= ax <= SPAN,
        -SPAN <= ay <= SPAN,
        -SPAN <= bx <= SPAN,
        -SPAN <= by <= SPAN,
    ensures
        r == dot(ax as int, ay as int, bx as int, by as int),
        -PRODUCT_BOUND <= r <= PRODUCT_BOUND,
{
    proof {
        lemma_mul_bound(ax as int, bx as int, SPAN as int);
        lemma_mul_bound(ay as int, by as int, SPAN as int);
    }
    ax * bx + ay * by
}

/// Cross product of two coordinate differences.
fn cross_exec(ax: i128, ay: i128, bx: i128, by: i128) -> (r: i128)
    requires
        -SPAN <= ax <= SPAN,
        -SPAN <= ay <= SPAN,
        -SPAN <= bx <= SPAN,
        -SPAN <= by <= SPAN,
    ensures
        r == cross(ax as int, ay as int, bx as int, by as int),
        -PRODUCT_BOUND <= r <= PRODUCT_BOUND,
{
    proof {
        lemma_mul_bound(ax as int, by as int, SPAN as int);
        lemma_mul_bound(ay as int, bx as int, SPAN as int);
    }
    ax * by - ay * bx
}

/// The square of a product of coordinate differences.
fn square_exec(v: i128) -> (r: u128)
    requires
        -PRODUCT_BOUND <= v <= PRODUCT_BOUND,
    ensures
        r == v * v,
        r <= SQ_NUM_BOUND,
{
    proof {
        lemma_mul_bound(v as int, v as int, PRODUCT_BOUND as int);
        lemma_square_nonneg(v as int);
    }
    (v * v) as u128
}

/// Projection, offset and squared length of `p` against the segment `a`-`b`.
fn measure(p: Point, a: Point, b: Point) -> (r: (i128, i128, i128))
    ensures
        r.0 == projection(p, a, b),
        r.1 == offset(p, a, b),
        r.2 == sq_len(a, b),
        -PRODUCT_BOUND <= r.0 <= PRODUCT_BOUND,
        -PRODUCT_BOUND <= r.1 <= PRODUCT_BOUND,
        0 <= r.2 <= PRODUCT_BOUND,
{
    let pax = p.x as i128 - a.x as i128;
    let pay = p.y as i128 - a.y as i128;
    let bax = b.x as i128 - a.x as i128;
    let bay = b.y as i128 - a.y as i128;
    let h = dot_exec(pax, pay, bax, bay);
    let c = cross_exec(pax, pay, bax, bay);
    let l = dot_exec(bax, bay, bax, bay);
    proof {
        lemma_square_nonneg(bax as int);
        lemma_square_nonneg(bay as int);
    }
    (h, c, l)
}

/// Squared distance between two points.
fn sq_dist_exec(p: Point, q: Point) -> (r: u128)
    ensures
        r == sq_dist(p, q),
        r <= PRODUCT_BOUND,
{
    let dx = q.x as i128 - p.x as i128;
    let dy = q.y as i128 - p.y as i128;
    proof {
        lemma_square_nonneg(dx as int);
        lemma_square_nonneg(dy as int);
    }
    dot_exec(dx, dy, dx, dy) as u128
}

/// A distance, held exactly as the square root of the fraction
/// `sq_num / sq_den`.
#[derive(Clone, Copy, Debug, PartialEq, Eq, Structural)]
pub struct Distance {
    pub sq_num: u128,
    pub sq_den: u128,
}

impl Distance {
    /// The squared distance as a fraction.
    pub open spec fn sq(self) -> (int, int) {
        (self.sq_num as int, self.sq_den as int)
    }

    /// The distance is zero.
    pub fn is_zero(&self) -> (r: bool)
        ensures
            r == (self.sq_num == 0),
    {
        self.sq_num == 0
    }

    /// This distance is strictly shorter than `other`.
    fn is_shorter_than(&self, other: &Distance) -> (r: bool)
        requires
            self.sq_num <= SQ_NUM_BOUND,
            other.sq_num <= SQ_NUM_BOUND,
            self.sq_den <= PRODUCT_BOUND,
            other.sq_den <= PRODUCT_BOUND,
        ensures
            r == !frac_le(other.sq(), self.sq()),
    {
        proof {
            lemma_mul_le(self.sq_num as int, other.sq_den as int, SQ_NUM_BOUND as int, PRODUCT_BOUND as int);
            lemma_mul_le(other.sq_num as int, self.sq_den as int, SQ_NUM_BOUND as int, PRODUCT_BOUND as int);
        }
        self.sq_num * other.sq_den < other.sq_num * self.sq_den
    }
}

/// Exact distance from `p` to the closed segment from `a` to `b`.
fn segment_distance(p: Point, a: Point, b: Point) -> (r: Distance)
    ensures
        r.sq() == segment_sq_distance(p, a, b),
        r.sq_num <= SQ_NUM_BOUND,
        0 < r.sq_den <= PRODUCT_BOUND,
{
    let (h, c, l) = measure(p, a, b);
    if l == 0 || h <= 0 {
        Distance { sq_num: sq_dist_exec(p, a), sq_den: 1 }
    } else if h >= l {
        Distance { sq_num: sq_dist_exec(p, b), sq_den: 1 }
    } else {
        Distance { sq_num: square_exec(c), sq_den: l as u128 }
    }
}

/// Whether `p` lies within `thickness` of the body of the segment `a`-`b`.
fn segment_contains(p: Point, a: Point, b: Point, thickness: u16) -> (r: bool)
    ensures
        r == segment_holds(p, a, b, thickness as int),
{
    let (h, c, l) = measure(p, a, b);
    if 0 < h && h < l {
        let t = thickness as u128;
        proof {
            lemma_mul_bound(t as int, t as int, 65535);
            lemma_square_nonneg(t as int);
            lemma_mul_bound((t * t) as int, l as int, PRODUCT_BOUND as int);
        }
        square_exec(c) <= t * t * (l as u128)
    } else {
        false
    }
}

/// Squared distance from `p` to the `i`-th segment of the point sequence `pts`.
pub open spec fn polyline_segment_distance(pts: Seq<Point>, p: Point, i: int) -> (int, int) {
    segment_sq_distance(p, pts[i], pts[i + 1])
}

/// `p` lies on the body of the `i`-th segment of `pts`, stroked `thickness` wide.
pub open spec fn polyline_segment_holds(pts: Seq<Point>, p: Point, thickness: int, i: int) -> bool {
    segment_holds(p, pts[i], pts[i + 1], thickness)
}

/// `d` is the least squared distance from `p` to a segment of `pts`.
pub open spec fn is_polyline_distance(pts: Seq<Point>, p: Point, d: (int, int)) -> bool {
    &&& exists|i: int| 0 <= i < pts.len() - 1 && d == #[trigger] polyline_segment_distance(pts, p, i)
    &&& forall|i: int|
        0 <= i < pts.len() - 1 ==> frac_le(d, #[trigger] polyline_segment_distance(pts, p, i))
}

/// `p` lies on the body of some segment of `pts`, stroked `thickness` wide.
pub open spec fn polyline_holds(pts: Seq<Point>, p: Point, thickness: int) -> bool {
    exists|i: int| 0 <= i < pts.len() - 1 && #[trigger] polyline_segment_holds(pts, p, thickness, i)
}

/// An RGB color. Each channel is the bit pattern of an IEEE-754 single-precision
/// number; the library copies channels verbatim and never reads them.
#[derive(Clone, Copy, Debug, PartialEq, Eq, Structural)]
pub struct Color {
    pub r: u32,
    pub g: u32,
    pub b: u32,
}

/// A stroke path: an ordered sequence of points, drawn in one flat color with a
/// uniform stroke width.
#[derive(Debug)]
pub struct Polyline {
    pub points: Vec<Point>,
    pub color: Color,
    pub thickness: u16,
}

impl Polyline {
    pub fn new(points: Vec<Point>, color: Color, thickness: u16) -> (r: Polyline)
        ensures
            r.points@ == points@,
            r.color == color,
            r.thickness == thickness,
    {
        Polyline { points, color, thickness }
    }

    /// The least distance from `point` to a segment of the polyline, measured to
    /// the closest point of each finite segment; `None` (an infinite distance)
    /// for a polyline with fewer than two points.
    pub fn distance_to(&self, point: Point) -> (r: Option<Distance>)
        ensures
            r is None <==> self.points@.len() < 2,
            r matches Some(d) ==> d.sq_den > 0 && is_polyline_distance(self.points@, point, d.sq()),
    {
        let n = self.points.len();
        if n < 2 {
            return None;
        }
        let ghost pts = self.points@;
        let mut best = segment_distance(point, self.points[0], self.points[1]);
        assert(best.sq() == polyline_segment_distance(pts, point, 0));
        let ghost mut at: int = 0;
        let mut i: usize = 1;
        while i + 1 < n
            invariant
                pts == self.points@,
                n == pts.len(),
                2 <= n,
                1 <= i < n,
                0 <= at < i,
                best.sq() == polyline_segment_distance(pts, point, at),
                best.sq_num <= SQ_NUM_BOUND,
                0 < best.sq_den <= PRODUCT_BOUND,
                forall|j: int|
                    0 <= j < i ==> frac_le(best.sq(), #[trigger] polyline_segment_distance(pts, point, j)),
            decreases n - i,
        {
            let d = segment_distance(point, self.points[i], self.points[i + 1]);
            assert(d.sq() == polyline_segment_distance(pts, point, i as int));
            if d.is_shorter_than(&best) {
                assert forall|j: int| 0 <= j < i + 1 implies frac_le(
                    d.sq(),
                    #[trigger] polyline_segment_distance(pts, point, j),
                ) by {
                    if j < i {
                        let s = polyline_segment_distance(pts, point, j);
                        assert(s.1 > 0);
                        lemma_frac_le_trans(d.sq(), best.sq(), s);
                    }
                }
                best = d;
                proof {
                    at = i as int;
                }
            }
            i += 1;
        }
        Some(best)
    }

    /// Whether `point` lies within `thickness` of the body of some segment: its
    /// projection must fall strictly between the segment's ends.
    pub fn contains(&self, point: Point) -> (r: bool)
        ensures
            r == polyline_holds(self.points@, point, self.thickness as int),
    {
        let n = self.points.len();
        if n < 2 {
            return false;
        }
        let ghost pts = self.points@;
        let mut i: usize = 0;
        while i < n - 1
            invariant
                pts == self.points@,
                n == pts.len(),
                2 <= n,
                i <= n - 1,
                forall|j: int|
                    0 <= j < i ==> !#[trigger] polyline_segment_holds(pts, point, self.thickness as int, j),
            decreases n - i,
        {
            if segment_contains(point, self.points[i], self.points[i + 1], self.thickness) {
                assert(polyline_segment_holds(pts, point, self.thickness as int, i as int));
                return true;
            }
            i += 1;
        }
        false
    }
}

/// A single stroked segment.
#[derive(Clone, Copy, Debug, PartialEq, Eq, Structural)]
pub struct LineSegment {
    pub start: Point,
    pub end: Point,
    pub thickness: u16,
}

impl LineSegment {
    pub fn new(start: Point, end: Point, thickness: u16) -> (r: LineSegment)
        ensures
            r.start == start,
            r.end == end,
            r.thickness == thickness,
    {
        LineSegment { start, end, thickness }
    }

    /// Swaps the two ends.
    pub fn flip(&mut self)
        ensures
            final(self).start == old(self).end,
            final(self).end == old(self).start,
            final(self).thickness == old(self).thickness,
    {
        let s = self.start;
        self.start = self.end;
        self.end = s;
    }

    /// Distance from `point` to the closest point of the segment.
    pub fn distance_to_point(&self, point: Point) -> (r: Distance)
        ensures
            r.sq() == segment_sq_distance(point, self.start, self.end),
            r.sq_den > 0,
    {
        segment_distance(point, self.start, self.end)
    }

    /// Whether `point` lies within `thickness` of the body of the segment; points
    /// beyond either end never do.
    pub fn contains(&self, point: Point) -> (r: bool)
        ensures
            r == segment_holds(point, self.start, self.end, self.thickness as int),
    {
        segment_contains(point, self.start, self.end, self.thickness)
    }
}

proof fn lemma_segment_distance_nonneg(p: Point, a: Point, b: Point)
    ensures
        segment_sq_distance(p, a, b).0 >= 0,
        segment_sq_distance(p, a, b).1 > 0,
{
    lemma_square_nonneg(a.x - p.x);
    lemma_square_nonneg(a.y - p.y);
    lemma_square_nonneg(b.x - p.x);
    lemma_square_nonneg(b.y - p.y);
    lemma_square_nonneg(offset(p, a, b));
    lemma_square_nonneg(b.x - a.x);
    lemma_square_nonneg(b.y - a.y);
}

/// On a polyline of two or more points, the distance to any point inside one of
/// its segments is zero.
pub proof fn lemma_distance_zero_on_segment(pts: Seq<Point>, p: Point, i: int)
    requires
        0 <= i < pts.len() - 1,
        offset(p, pts[i], pts[i + 1]) == 0,
        0 < projection(p, pts[i], pts[i + 1]) < sq_len(pts[i], pts[i + 1]),
    ensures
        forall|d: (int, int)| is_polyline_distance(pts, p, d) ==> d.0 == 0,
{
    assert forall|d: (int, int)| is_polyline_distance(pts, p, d) implies d.0 == 0 by {
        let k = choose|k: int|
            0 <= k < pts.len() - 1 && d == #[trigger] polyline_segment_distance(pts, p, k);
        lemma_segment_distance_nonneg(p, pts[k], pts[k + 1]);
        let s = polyline_segment_distance(pts, p, i);
        assert(s == (0int, sq_len(pts[i], pts[i + 1])));
        assert(frac_le(d, s));
        let (d0, d1, l) = (d.0, d.1, s.1);
        assert(d0 == 0) by (nonlinear_arith)
            requires
                d0 >= 0,
                l > 0,
                d0 * l <= 0 * d1,
        ;
    }
}

/// Lagrange's identity in the plane, with the facts about a point `u` (relative
/// to one end of a segment `v`) whose doubled offset from the segment's middle,
/// `2u - v`, is square to the segment.
proof fn lemma_perpendicular_offset(ux: int, uy: int, vx: int, vy: int)
    requires
        dot(2 * ux - vx, 2 * uy - vy, vx, vy) == 0,
    ensures
        2 * dot(ux, uy, vx, vy) == dot(vx, vy, vx, vy),
        4 * (cross(ux, uy, vx, vy) * cross(ux, uy, vx, vy)) == dot(2 * ux - vx, 2 * uy - vy, 2 * ux
            - vx, 2 * uy - vy) * dot(vx, vy, vx, vy),
{
    let qx = 2 * ux - vx;
    let qy = 2 * uy - vy;
    assert(2 * (ux * vx + uy * vy) == vx * vx + vy * vy) by (nonlinear_arith)
        requires
            qx * vx + qy * vy == 0,
            qx == 2 * ux - vx,
            qy == 2 * uy - vy,
    ;
    let c = ux * vy - uy * vx;
    assert(2 * c == qx * vy - qy * vx) by (nonlinear_arith)
        requires
            c == ux * vy - uy * vx,
            qx == 2 * ux - vx,
            qy == 2 * uy - vy,
    ;
    let (ma, mb, mc, md) = (qx * vy, qy * vx, qx * vx, qy * vy);
    assert((ma - mb) * (ma - mb) == ma * ma - 2 * (ma * mb) + mb * mb) by (nonlinear_arith);
    assert((mc + md) * (mc + md) == mc * mc + 2 * (mc * md) + md * md) by (nonlinear_arith);
    assert(ma * mb == mc * md) by (nonlinear_arith)
        requires
            ma == qx * vy,
            mb == qy * vx,
            mc == qx * vx,
            md == qy * vy,
    ;
    let (sx, sy, tx, ty) = (qx * qx, qy * qy, vx * vx, vy * vy);
    assert((sx + sy) * (tx + ty) == sx * tx + sx * ty + sy * tx + sy * ty) by (nonlinear_arith);
    assert(ma * ma == sx * ty) by (nonlinear_arith)
        requires
            ma == qx * vy,
            sx == qx * qx,
            ty == vy * vy,
    ;
    assert(mb * mb == sy * tx) by (nonlinear_arith)
        requires
            mb == qy * vx,
            sy == qy * qy,
            tx == vx * vx,
    ;
    assert(mc * mc == sx * tx) by (nonlinear_arith)
        requires
            mc == qx * vx,
            sx == qx * qx,
            tx == vx * vx,
    ;
    assert(md * md == sy * ty) by (nonlinear_arith)
        requires
            md == qy * vy,
            sy == qy * qy,
            ty == vy * vy,
    ;
    assert(mc + md == 0);
    assert((mc + md) * (mc + md) == 0) by (nonlinear_arith)
        requires
            mc + md == 0,
    ;
    assert(4 * (c * c) == (2 * c) * (2 * c)) by (nonlinear_arith);
    assert(2 * c == ma - mb);
    assert(4 * (c * c) == (sx + sy) * (tx + ty));
}

/// A point offset from the middle of a segment, square to the segment, by less
/// than the thickness lies on the polyline; offset by more than the thickness, it
/// is off that segment, and off the polyline unless another segment holds it.
///
/// The offset is given doubled, as `2p - a - b`, so that it stays whole; its
/// squared length is compared with `4 * thickness * thickness`.
pub proof fn lemma_contains_perpendicular_offset(pts: Seq<Point>, p: Point, thickness: int, i: int)
    requires
        0 <= i < pts.len() - 1,
        pts[i] != pts[i + 1],
        dot(
            2 * p.x - pts[i].x - pts[i + 1].x,
            2 * p.y - pts[i].y - pts[i + 1].y,
            pts[i + 1].x - pts[i].x,
            pts[i + 1].y - pts[i].y,
        ) == 0,
    ensures
        ({
            let qx = 2 * p.x - pts[i].x - pts[i + 1].x;
            let qy = 2 * p.y - pts[i].y - pts[i + 1].y;
            &&& dot(qx, qy, qx, qy) < 4 * (thickness * thickness) ==> polyline_holds(pts, p, thickness)
            &&& dot(qx, qy, qx, qy) > 4 * (thickness * thickness) ==> !polyline_segment_holds(
                pts,
                p,
                thickness,
                i,
            )
            &&& dot(qx, qy, qx, qy) > 4 * (thickness * thickness) && (forall|j: int|
                0 <= j < pts.len() - 1 && j != i ==> !#[trigger] polyline_segment_holds(
                    pts,
                    p,
                    thickness,
                    j,
                )) ==> !polyline_holds(pts, p, thickness)
        }),
{
    let a = pts[i];
    let b = pts[i + 1];
    let (ux, uy, vx, vy) = (p.x - a.x, p.y - a.y, b.x - a.x, b.y - a.y);
    let qx = 2 * p.x - a.x - b.x;
    let qy = 2 * p.y - a.y - b.y;
    assert(qx == 2 * ux - vx && qy == 2 * uy - vy);
    lemma_perpendicular_offset(ux, uy, vx, vy);
    let l = dot(vx, vy, vx, vy);
    assert(l > 0) by (nonlinear_arith)
        requires
            l == vx * vx + vy * vy,
            vx != 0 || vy != 0,
    ;
    let c = cross(ux, uy, vx, vy);
    let qq = dot(qx, qy, qx, qy);
    let tt = thickness * thickness;
    assert(0 < projection(p, a, b) < sq_len(a, b));
    if qq < 4 * tt {
        assert(c * c <= tt * l) by (nonlinear_arith)
            requires
                4 * (c * c) == qq * l,
                qq < 4 * tt,
                l > 0,
        ;
        assert(polyline_segment_holds(pts, p, thickness, i));
    }
    if qq > 4 * tt {
        assert(c * c > tt * l) by (nonlinear_arith)
            requires
                4 * (c * c) == qq * l,
                qq > 4 * tt,
                l > 0,
        ;
        assert(!polyline_segment_holds(pts, p, thickness, i));
    }
}

/// A point on the extension of a segment beyond either of its ends is never on
/// that segment's body, however close; it is off the polyline unless another
/// segment holds it.
pub proof fn lemma_not_contains_beyond_ends(pts: Seq<Point>, p: Point, thickness: int, i: int)
    requires
        0 <= i < pts.len() - 1,
        ({
            let (a, b) = (pts[i], pts[i + 1]);
            let (vx, vy) = (b.x - a.x, b.y - a.y);
            ||| cross(p.x - b.x, p.y - b.y, vx, vy) == 0 && dot(p.x - b.x, p.y - b.y, vx, vy) > 0
            ||| cross(p.x - a.x, p.y - a.y, vx, vy) == 0 && dot(p.x - a.x, p.y - a.y, vx, vy) < 0
        }),
    ensures
        !polyline_segment_holds(pts, p, thickness, i),
        (forall|j: int|
            0 <= j < pts.len() - 1 && j != i ==> !#[trigger] polyline_segment_holds(
                pts,
                p,
                thickness,
                j,
            )) ==> !polyline_holds(pts, p, thickness),
{
    let a = pts[i];
    let b = pts[i + 1];
    let (vx, vy) = (b.x - a.x, b.y - a.y);
    let (wx, wy) = (p.x - b.x, p.y - b.y);
    assert(dot(p.x - a.x, p.y - a.y, vx, vy) == dot(wx, wy, vx, vy) + dot(vx, vy, vx, vy))
        by (nonlinear_arith)
        requires
            wx == p.x - b.x,
            wy == p.y - b.y,
            vx == b.x - a.x,
            vy == b.y - a.y,
    ;
}

} // verus!
