//! Polyline hit-testing and batched stroke tessellation.
//!
//! A polyline is an ordered sequence of points drawn with one flat color and a
//! uniform stroke width. The library answers exact distance and containment
//! queries against polylines, and turns a set of them into a single indexed
//! triangle mesh held in a fixed-capacity vertex/index buffer pair, ready to be
//! written to the GPU and drawn in one call.
//!
//! Coordinates are whole units of a caller-chosen coordinate space, held in
//! `i16`, so every geometric query is answered exactly in integer arithmetic.
//! Strokes are expanded with butt or round caps and miter or round joins; for
//! butt caps and miter joins the stroke is a fixed function of its input.
use vstd::prelude::*;

pub mod asset;
pub mod batch;
pub mod geometry;
pub mod stroke;

pub use asset::AssetLoader;
pub use batch::{
    PolylineBuffer, StrokeMesh, TessellateError, Vertex, BUFFER_SIZE, INDEX_SIZE, VERTEX_SIZE,
};
pub use geometry::{Color, Distance, LineSegment, Point, Polyline};
pub use stroke::{stroke, LineCap, LineJoin, StrokeStyle};

verus! {

} // verus!
