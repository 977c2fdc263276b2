//! Bezier curves of arbitrary degree over fixed-point coordinates.
//!
//! A curve is defined by an ordered list of control vertices, its degree
//! (one less than the vertex count) and a parameter interval. The two core
//! algorithms are de Casteljau subdivision ([`BezierCurve::split`]) and
//! adaptive arc-length estimation with polyline tessellation
//! ([`BezierCurve::length`], [`BezierCurve::create_path`]).
//!
//! Coordinates and parameter values are fixed-point integers: the caller
//! picks a scale and works in whole units of it. All arithmetic, including
//! the rounding of interpolated coordinates, is stated exactly in the
//! contracts.

pub mod builder;
pub mod curve;
pub mod path;
pub mod point;

pub use builder::BezierCurveBuilder;
pub use curve::BezierCurve;
pub use curve::SplineError;
pub use path::Path;
pub use path::PathBuilder;
pub use point::ControlPoint;
