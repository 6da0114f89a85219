//! Stroke styles, and the expansion of one polyline into a triangle mesh.
use lyon::lyon_tessellation::math::point;
use lyon::lyon_tessellation::path::Polygon;
use lyon::lyon_tessellation::LineCap as Cap;
use lyon::lyon_tessellation::LineJoin as Join;
use lyon::lyon_tessellation::geometry_builder::simple_builder;
use lyon::lyon_tessellation::{StrokeOptions, StrokeTessellator, VertexBuffers};
use vstd::prelude::*;

use crate::geometry::Point;

verus! {

/// Geometry added at the two open ends of a stroke.
#[derive(Clone, Copy, Debug, PartialEq, Eq, Structural)]
pub enum LineCap {
    /// The stroke stops square at the end point.
    Butt,
    /// The stroke ends in a half disc.
    Round,
}

/// Geometry added where two segments of a stroke meet.
#[derive(Clone, Copy, Debug, PartialEq, Eq, Structural)]
pub enum LineJoin {
    /// A sharp corner, falling back to a bevel past the miter limit.
    Miter,
    /// A rounded corner.
    Round,
}

/// How polylines are stroked: cap and join styles, and the miter limit (the
/// longest miter allowed, as a multiple of the stroke width).
#[derive(Clone, Copy, Debug, PartialEq, Eq, Structural)]
pub struct StrokeStyle {
    pub cap: LineCap,
    pub join: LineJoin,
    pub miter_limit: u16,
}

impl StrokeStyle {
    pub fn new(cap: LineCap, join: LineJoin, miter_limit: u16) -> (r: StrokeStyle)
        ensures
            r.cap == cap,
            r.join == join,
            r.miter_limit == miter_limit,
    {
        StrokeStyle { cap, join, miter_limit }
    }
}

/// The butt-capped, miter-joined stroke of an open path through `points`,
/// `width` wide, with the given miter limit: the positions of its vertices (each
/// coordinate as the bit pattern of an IEEE-754 single-precision number) and its
/// triangle list, indexing those vertices; `None` where the tessellator fails.
pub uninterp spec fn stroke_of(points: Seq<Point>, width: u16, miter_limit: u16) -> Option<
    (Seq<(u32, u32)>, Seq<u16>),
>;

/// Every index of a triangle list names one of `vertex_count` vertices, and the
/// list holds whole triangles.
pub open spec fn triangles_within(indices: Seq<u16>, vertex_count: int) -> bool {
    &&& indices.len() % 3 == 0
    &&& forall|j: int| 0 <= j < indices.len() ==> (#[trigger] indices[j] as int) < vertex_count
}

/// Relies on lyon's `StrokeTessellator::tessellate_polygon` on an open polygon,
/// writing through `simple_builder` (a `BuffersBuilder` with `u16` indices).
/// Whatever the style, the builder fails rather than hold more vertices than a
/// `u16` can index, and each triangle it records names three vertices it was
/// given. With butt caps and miter joins the tessellator uses only IEEE-754
/// basic arithmetic and square roots, so the outcome depends on the arguments
/// alone; round caps and joins go through `sin` and `cos`, whose results std
/// leaves open, so no more is said of them. `StrokeOptions::with_miter_limit`
/// panics on a limit below 1.
#[verifier::external_body]
fn stroke_path(
    points: &Vec<Point>,
    width: u16,
    round_caps: bool,
    round_joins: bool,
    miter_limit: u16,
) -> (r: Option<(Vec<(u32, u32)>, Vec<u16>)>)
    requires
        miter_limit >= 1,
    ensures
        match r {
            Some((vertices, indices)) => {
                &&& vertices@.len() <= u16::MAX
                &&& triangles_within(indices@, vertices@.len() as int)
                &&& !round_caps && !round_joins ==> stroke_of(points@, width, miter_limit) == Some(
                    (vertices@, indices@),
                )
            },
            None => !round_caps && !round_joins ==> stroke_of(points@, width, miter_limit) is None,
        },
{
    let mut out = VertexBuffers::new();
    StrokeTessellator::new().tessellate_polygon(
        Polygon { points: &points.iter().map(|p| point(p.x.into(), p.y.into())).collect::<Vec<_>>(), closed: false },
        &StrokeOptions::default()
            .with_line_cap(if round_caps { Cap::Round } else { Cap::Butt })
            .with_line_join(if round_joins { Join::Round } else { Join::Miter })
            .with_miter_limit(miter_limit.into())
            .with_line_width(width.into()),
        &mut simple_builder(&mut out),
    ).ok()?;
    Some((out.vertices.iter().map(|p| (p.x.to_bits(), p.y.to_bits())).collect(), out.indices))
}

/// The style has butt caps and miter joins, whose strokes are fixed by their
/// arguments.
pub open spec fn is_sharp(style: StrokeStyle) -> bool {
    style.cap == LineCap::Butt && style.join == LineJoin::Miter
}

/// Strokes an open path through `points`, `width` wide, in `style`; `None`
/// where the miter limit is below 1 or the tessellator fails. A stroke's indices
/// name its own vertices, in whole triangles; in a sharp style the outcome is
/// `stroke_of` its arguments.
pub fn stroke(points: &Vec<Point>, width: u16, style: StrokeStyle) -> (r: Option<
    (Vec<(u32, u32)>, Vec<u16>),
>)
    ensures
        style.miter_limit < 1 ==> r is None,
        r matches Some((vertices, indices)) ==> {
            &&& vertices@.len() <= u16::MAX
            &&& triangles_within(indices@, vertices@.len() as int)
        },
        style.miter_limit >= 1 && is_sharp(style) ==> match r {
            Some((vertices, indices)) => stroke_of(points@, width, style.miter_limit) == Some(
                (vertices@, indices@),
            ),
            None => stroke_of(points@, width, style.miter_limit) is None,
        },
{
    if style.miter_limit < 1 {
        return None;
    }
    let round_caps = match style.cap {
        LineCap::Butt => false,
        LineCap::Round => true,
    };
    let round_joins = match style.join {
        LineJoin::Miter => false,
        LineJoin::Round => true,
    };
    stroke_path(points, width, round_caps, round_joins, style.miter_limit)
}

} // verus!
