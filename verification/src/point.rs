//! Points of the plane, and the coordinates they are made from.
use crate::scalar::{quotient, Scalar};
use vstd::prelude::*;

verus! {

/// What can be wrong with the input of a construction.
#[derive(Debug, Clone, Copy, PartialEq, Eq, Structural)]
pub enum GeometryError {
    /// A coordinate is not a number.
    InvalidCoordinate,
    /// The two endpoints of a segment are the same point.
    DegenerateSegment,
}

/// A coordinate as a caller writes it: the fraction `num / den`.
/// With `den == 0` it is not a number.
#[derive(Debug, Clone, Copy, PartialEq, Eq, Structural)]
pub struct Ratio {
    pub num: i64,
    pub den: i64,
}

impl Ratio {
    /// Whether the fraction is a number.
    pub open spec fn is_number(self) -> bool {
        self.den != 0
    }

    /// The number that the fraction stands for, where it is one.
    pub open spec fn value(self) -> real {
        quotient(self.num as int, self.den as int)
    }

    /// The fraction `num / den`.
    pub fn new(num: i64, den: i64) -> (r: Ratio)
        ensures
            r == (Ratio { num, den }),
    {
        Ratio { num, den }
    }

    /// The whole number `v`.
    pub fn whole(v: i64) -> (r: Ratio)
        ensures
            r == (Ratio { num: v, den: 1 }),
    {
        Ratio { num: v, den: 1 }
    }
}

/// A point of the plane, as contracts see it.
pub ghost struct PointModel {
    pub x: real,
    pub y: real,
}

impl PointModel {
    /// The point with the coordinates `(x, y)`, or `InvalidCoordinate` where
    /// one of them is not a number.
    pub open spec fn from(x: Ratio, y: Ratio) -> Result<PointModel, GeometryError> {
        if x.is_number() && y.is_number() {
            Ok(PointModel { x: x.value(), y: y.value() })
        } else {
            Err(GeometryError::InvalidCoordinate)
        }
    }

    /// The point moved by the vector `delta`.
    pub open spec fn translate(self, delta: PointModel) -> PointModel {
        PointModel { x: self.x + delta.x, y: self.y + delta.y }
    }
}

/// A point of the plane with exact coordinates.
#[derive(Debug)]
pub struct Point {
    x: Scalar,
    y: Scalar,
}

impl View for Point {
    type V = PointModel;

    closed spec fn view(&self) -> PointModel {
        PointModel { x: self.x@, y: self.y@ }
    }
}

impl Clone for Point {
    fn clone(&self) -> (r: Self)
        ensures
            r@ == self@,
    {
        Point { x: self.x.clone(), y: self.y.clone() }
    }
}

impl PartialEq for Point {
    fn eq(&self, other: &Point) -> (r: bool) {
        self.x.equals(&other.x) && self.y.equals(&other.y)
    }
}

impl vstd::std_specs::cmp::PartialEqSpecImpl for Point {
    open spec fn obeys_eq_spec() -> bool {
        true
    }

    open spec fn eq_spec(&self, other: &Point) -> bool {
        self@ == other@
    }
}

/// The outcome of a construction, as contracts see it.
pub open spec fn point_result_view(r: Result<Point, GeometryError>) -> Result<
    PointModel,
    GeometryError,
> {
    match r {
        Ok(p) => Ok(p@),
        Err(e) => Err(e),
    }
}

/// The model of a point that may be absent.
pub open spec fn point_option_view(p: Option<Point>) -> Option<PointModel> {
    match p {
        Some(p) => Some(p@),
        None => None,
    }
}

impl Point {
    /// The point with the coordinates `(x, y)`.
    /// Fails with `InvalidCoordinate` exactly when one of them is not a number.
    pub fn from(coords: (Ratio, Ratio)) -> (r: Result<Point, GeometryError>)
        ensures
            point_result_view(r) == PointModel::from(coords.0, coords.1),
    {
        let (x, y) = coords;
        if x.den == 0 || y.den == 0 {
            Err(GeometryError::InvalidCoordinate)
        } else {
            Ok(Point { x: Scalar::from_parts(x.num, x.den), y: Scalar::from_parts(y.num, y.den) })
        }
    }

    /// The point with the exact coordinates `(x, y)`.
    pub fn new(x: Scalar, y: Scalar) -> (r: Point)
        ensures
            r@ == (PointModel { x: x@, y: y@ }),
    {
        Point { x, y }
    }

    /// The first coordinate.
    pub fn x(&self) -> (r: &Scalar)
        ensures
            r@ == self@.x,
    {
        &self.x
    }

    /// The second coordinate.
    pub fn y(&self) -> (r: &Scalar)
        ensures
            r@ == self@.y,
    {
        &self.y
    }

    /// The point moved by the vector `delta`.
    pub fn translate(&self, delta: &Point) -> (r: Point)
        ensures
            r@ == self@.translate(delta@),
    {
        Point { x: self.x.plus(&delta.x), y: self.y.plus(&delta.y) }
    }

    /// Of two points the one further left. Where both have the same first
    /// coordinate, it is this one.
    pub fn min_by_x(self, other: Point) -> (r: Point)
        ensures
            r == (if self@.x <= other@.x {
                self
            } else {
                other
            }),
    {
        if self.x.at_most(&other.x) {
            self
        } else {
            other
        }
    }
}

} // verus!
