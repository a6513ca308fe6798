//! Segments with exact coordinates: walls and rays.
use crate::laws::{law_meeting_point_is_on_both, law_scene_cast_is_part_of_ray};
use crate::model::{
    between, lemma_casts_cleanly_prefix, lemma_slope_between_points, LineModel, NormalModel,
    VerticalModel,
};
use crate::point::{point_option_view, GeometryError, Point, Ratio};
use crate::scalar::Scalar;
use crate::scene::{line_views, Scene};
use vstd::prelude::*;

verus! {

/// A segment that is not vertical.
#[derive(Debug)]
pub struct NormalLine {
    slope: Scalar,
    y_intercept: Scalar,
    min_x: Scalar,
    max_x: Scalar,
    left_to_right: bool,
}

/// A vertical segment.
#[derive(Debug)]
pub struct VerticalLine {
    x: Scalar,
    max_y: Scalar,
    min_y: Scalar,
    down_to_up: bool,
}

impl View for NormalLine {
    type V = NormalModel;

    closed spec fn view(&self) -> NormalModel {
        NormalModel {
            slope: self.slope@,
            y_intercept: self.y_intercept@,
            min_x: self.min_x@,
            max_x: self.max_x@,
            left_to_right: self.left_to_right,
        }
    }
}

impl View for VerticalLine {
    type V = VerticalModel;

    closed spec fn view(&self) -> VerticalModel {
        VerticalModel {
            x: self.x@,
            min_y: self.min_y@,
            max_y: self.max_y@,
            down_to_up: self.down_to_up,
        }
    }
}

impl Clone for NormalLine {
    fn clone(&self) -> (r: Self)
        ensures
            r@ == self@,
    {
        proof {
            use_type_invariant(self);
        }
        NormalLine {
            slope: self.slope.clone(),
            y_intercept: self.y_intercept.clone(),
            min_x: self.min_x.clone(),
            max_x: self.max_x.clone(),
            left_to_right: self.left_to_right,
        }
    }
}

impl Clone for VerticalLine {
    fn clone(&self) -> (r: Self)
        ensures
            r@ == self@,
    {
        proof {
            use_type_invariant(self);
        }
        VerticalLine {
            x: self.x.clone(),
            max_y: self.max_y.clone(),
            min_y: self.min_y.clone(),
            down_to_up: self.down_to_up,
        }
    }
}

impl NormalLine {
    #[verifier::type_invariant]
    closed spec fn has_length(self) -> bool {
        self.min_x@ < self.max_x@
    }

    /// Whether the two segments are the same.
    fn same(&self, other: &NormalLine) -> (r: bool)
        ensures
            r == (self@ == other@),
    {
        self.slope.equals(&other.slope) && self.y_intercept.equals(&other.y_intercept)
            && self.min_x.equals(&other.min_x) && self.max_x.equals(&other.max_x)
            && self.left_to_right == other.left_to_right
    }

    /// The segment from `start` to `end`.
    fn from_points(start: &Point, end: &Point) -> (r: NormalLine)
        requires
            start@.x != end@.x,
        ensures
            r@ == NormalModel::through(start@, end@),
            r@.well_formed(),
    {
        let rise = end.y().minus(start.y());
        let run = end.x().minus(start.x());
        let slope = rise.divided_by(&run);
        let y_intercept = end.y().minus(&slope.times(end.x()));
        if end.x().less_than(start.x()) {
            NormalLine {
                slope,
                y_intercept,
                min_x: end.x().clone(),
                max_x: start.x().clone(),
                left_to_right: false,
            }
        } else {
            NormalLine {
                slope,
                y_intercept,
                min_x: start.x().clone(),
                max_x: end.x().clone(),
                left_to_right: true,
            }
        }
    }

    /// The height of the line at `x`, for an `x` that the segment spans.
    fn y_at(&self, x: &Scalar) -> (r: Option<Scalar>)
        ensures
            r is Some == between(x@, self@.min_x, self@.max_x),
            r is Some ==> r->Some_0@ == self@.y_at(x@),
    {
        if x.is_between(&self.min_x, &self.max_x) {
            Some(self.slope.times(x).plus(&self.y_intercept))
        } else {
            None
        }
    }

    /// The point of the segment at `x`, for an `x` that the segment spans.
    fn point_at(&self, x: &Scalar) -> (r: Option<Point>)
        ensures
            r is Some == between(x@, self@.min_x, self@.max_x),
            r is Some ==> r->Some_0@ == self@.point_at(x@),
    {
        match self.y_at(x) {
            Some(y) => Some(Point::new(x.clone(), y)),
            None => None,
        }
    }

    fn left_point(&self) -> (r: Point)
        ensures
            r@ == self@.left_point(),
    {
        proof {
            use_type_invariant(self);
        }
        self.point_at(&self.min_x).unwrap()
    }

    fn right_point(&self) -> (r: Point)
        ensures
            r@ == self@.right_point(),
    {
        proof {
            use_type_invariant(self);
        }
        self.point_at(&self.max_x).unwrap()
    }

    fn origin(&self) -> (r: Point)
        ensures
            r@ == self@.origin(),
    {
        if self.left_to_right {
            self.left_point()
        } else {
            self.right_point()
        }
    }

    fn endpoints(&self) -> (r: (Point, Point))
        ensures
            r.0@ == self@.left_point(),
            r.1@ == self@.right_point(),
            self@.well_formed(),
    {
        proof {
            use_type_invariant(self);
        }
        (self.left_point(), self.right_point())
    }

    fn offset(&mut self, dx: &Scalar, dy: &Scalar)
        ensures
            final(self)@ == old(self)@.shifted(dx@, dy@),
            final(self)@.well_formed(),
    {
        proof {
            use_type_invariant(&*self);
        }
        let moved = NormalLine {
            slope: self.slope.clone(),
            y_intercept: self.y_intercept.plus(dy).minus(&self.slope.times(dx)),
            min_x: self.min_x.plus(dx),
            max_x: self.max_x.plus(dx),
            left_to_right: self.left_to_right,
        };
        *self = moved;
    }

    fn point_of_intersection_vertical(&self, other: &VerticalLine) -> (r: Option<Point>)
        ensures
            point_option_view(r) == self@.meets_vertical(other@),
    {
        if !other.x.is_between(&self.min_x, &self.max_x) {
            return None;
        }
        let y = self.y_at(&other.x).unwrap();
        if !y.is_between(&other.min_y, &other.max_y) {
            return None;
        }
        Some(Point::new(other.x.clone(), y))
    }

    fn point_of_intersection_normal(&self, other: &NormalLine) -> (r: Option<Point>)
        ensures
            point_option_view(r) == self@.meets_normal(other@),
    {
        if self.slope.equals(&other.slope) {
            if !self.y_intercept.equals(&other.y_intercept) {
                return None;
            }
            if self.min_x.is_between(&other.min_x, &other.max_x) {
                return Some(self.left_point());
            }
            if self.max_x.is_between(&other.min_x, &other.max_x) {
                return Some(self.right_point());
            }
            return None;
        }
        let x = other.y_intercept.minus(&self.y_intercept).divided_by(
            &self.slope.minus(&other.slope),
        );
        if x.is_between(&other.min_x, &other.max_x) {
            self.point_at(&x)
        } else {
            None
        }
    }

    fn point_of_intersection(&self, other: &LineInner) -> (r: Option<Point>)
        ensures
            point_option_view(r) == self@.meets(other@),
    {
        match other {
            LineInner::Vertical(v) => self.point_of_intersection_vertical(v),
            LineInner::Normal(n) => self.point_of_intersection_normal(n),
        }
    }

    /// What is left of this ray when it is cast at the wall `other`.
    fn cast_to_line(&self, other: &LineInner) -> (r: NormalLine)
        requires
            !LineModel::Normal(self@).hits_origin(other@),
        ensures
            LineModel::Normal(r@) == LineModel::Normal(self@).cast_to_line(other@),
            LineModel::Normal(r@).within(LineModel::Normal(self@)),
            r@.well_formed(),
    {
        proof {
            use_type_invariant(self);
        }
        if let Some(intersection) = self.point_of_intersection(other) {
            proof {
                let origin_x = if self.left_to_right {
                    self.min_x@
                } else {
                    self.max_x@
                };
                lemma_slope_between_points(
                    self.slope@,
                    self.y_intercept@,
                    origin_x,
                    intersection@.x,
                );
            }
            if self.left_to_right {
                NormalLine {
                    slope: self.slope.clone(),
                    y_intercept: self.y_intercept.clone(),
                    min_x: self.min_x.clone(),
                    max_x: intersection.x().clone(),
                    left_to_right: true,
                }
            } else {
                NormalLine {
                    slope: self.slope.clone(),
                    y_intercept: self.y_intercept.clone(),
                    min_x: intersection.x().clone(),
                    max_x: self.max_x.clone(),
                    left_to_right: false,
                }
            }
        } else {
            self.clone()
        }
    }
}

impl VerticalLine {
    #[verifier::type_invariant]
    closed spec fn has_length(self) -> bool {
        self.min_y@ < self.max_y@
    }

    /// Whether the two segments are the same.
    fn same(&self, other: &VerticalLine) -> (r: bool)
        ensures
            r == (self@ == other@),
    {
        self.x.equals(&other.x) && self.min_y.equals(&other.min_y) && self.max_y.equals(
            &other.max_y,
        ) && self.down_to_up == other.down_to_up
    }

    /// The segment from `start` to `end`.
    fn from_points(start: &Point, end: &Point) -> (r: VerticalLine)
        requires
            start@.x == end@.x,
            start@.y != end@.y,
        ensures
            r@ == VerticalModel::through(start@, end@),
            r@.well_formed(),
    {
        if start.y().less_than(end.y()) {
            VerticalLine {
                x: start.x().clone(),
                max_y: end.y().clone(),
                min_y: start.y().clone(),
                down_to_up: true,
            }
        } else {
            VerticalLine {
                x: start.x().clone(),
                max_y: start.y().clone(),
                min_y: end.y().clone(),
                down_to_up: false,
            }
        }
    }

    fn bottom_point(&self) -> (r: Point)
        ensures
            r@ == self@.bottom_point(),
    {
        Point::new(self.x.clone(), self.min_y.clone())
    }

    fn top_point(&self) -> (r: Point)
        ensures
            r@ == self@.top_point(),
    {
        Point::new(self.x.clone(), self.max_y.clone())
    }

    fn origin(&self) -> (r: Point)
        ensures
            r@ == self@.origin(),
    {
        if self.down_to_up {
            self.bottom_point()
        } else {
            self.top_point()
        }
    }

    fn endpoints(&self) -> (r: (Point, Point))
        ensures
            r.0@ == self@.bottom_point(),
            r.1@ == self@.top_point(),
            self@.well_formed(),
    {
        proof {
            use_type_invariant(self);
        }
        (self.bottom_point(), self.top_point())
    }

    fn offset(&mut self, dx: &Scalar, dy: &Scalar)
        ensures
            final(self)@ == old(self)@.shifted(dx@, dy@),
            final(self)@.well_formed(),
    {
        proof {
            use_type_invariant(&*self);
        }
        let moved = VerticalLine {
            x: self.x.plus(dx),
            max_y: self.max_y.plus(dy),
            min_y: self.min_y.plus(dy),
            down_to_up: self.down_to_up,
        };
        *self = moved;
    }

    fn point_of_intersection_normal(&self, other: &NormalLine) -> (r: Option<Point>)
        ensures
            point_option_view(r) == self@.meets_normal(other@),
    {
        other.point_of_intersection_vertical(self)
    }

    fn point_of_intersection_vert(&self, other: &VerticalLine) -> (r: Option<Point>)
        ensures
            point_option_view(r) == self@.meets_vertical(other@),
    {
        if !self.x.equals(&other.x) {
            return None;
        }
        if other.min_y.is_between(&self.min_y, &self.max_y) {
            Some(Point::new(self.x.clone(), other.min_y.clone()))
        } else if other.max_y.is_between(&self.min_y, &self.max_y) {
            Some(Point::new(self.x.clone(), other.max_y.clone()))
        } else {
            None
        }
    }

    fn point_of_intersection(&self, other: &LineInner) -> (r: Option<Point>)
        ensures
            point_option_view(r) == self@.meets(other@),
    {
        match other {
            LineInner::Vertical(v) => self.point_of_intersection_vert(v),
            LineInner::Normal(n) => self.point_of_intersection_normal(n),
        }
    }

    /// What is left of this ray when it is cast at the wall `other`.
    fn cast_to_line(&self, other: &LineInner) -> (r: VerticalLine)
        requires
            !LineModel::Vertical(self@).hits_origin(other@),
        ensures
            LineModel::Vertical(r@) == LineModel::Vertical(self@).cast_to_line(other@),
            LineModel::Vertical(r@).within(LineModel::Vertical(self@)),
            r@.well_formed(),
    {
        proof {
            use_type_invariant(self);
        }
        if let Some(intersection) = self.point_of_intersection(other) {
            if self.down_to_up {
                Self::from_points(&self.bottom_point(), &intersection)
            } else {
                Self::from_points(&self.top_point(), &intersection)
            }
        } else {
            self.clone()
        }
    }
}

/// A segment of either shape.
#[derive(Debug)]
pub enum LineInner {
    Normal(NormalLine),
    Vertical(VerticalLine),
}

impl View for LineInner {
    type V = LineModel;

    open spec fn view(&self) -> LineModel {
        match self {
            LineInner::Normal(n) => LineModel::Normal(n@),
            LineInner::Vertical(v) => LineModel::Vertical(v@),
        }
    }
}

impl Clone for LineInner {
    fn clone(&self) -> (r: Self)
        ensures
            r@ == self@,
    {
        match self {
            LineInner::Normal(n) => LineInner::Normal(n.clone()),
            LineInner::Vertical(v) => LineInner::Vertical(v.clone()),
        }
    }
}

impl PartialEq for LineInner {
    fn eq(&self, other: &LineInner) -> (r: bool) {
        match (self, other) {
            (LineInner::Normal(a), LineInner::Normal(b)) => a.same(b),
            (LineInner::Vertical(a), LineInner::Vertical(b)) => a.same(b),
            _ => false,
        }
    }
}

impl vstd::std_specs::cmp::PartialEqSpecImpl for LineInner {
    open spec fn obeys_eq_spec() -> bool {
        true
    }

    open spec fn eq_spec(&self, other: &LineInner) -> bool {
        self@ == other@
    }
}

/// The outcome of a construction, as contracts see it.
pub open spec fn inner_result_view(r: Result<LineInner, GeometryError>) -> Result<
    LineModel,
    GeometryError,
> {
    match r {
        Ok(line) => Ok(line@),
        Err(e) => Err(e),
    }
}

/// The outcome of a construction, as contracts see it.
pub open spec fn line_result_view(r: Result<Line, GeometryError>) -> Result<
    LineModel,
    GeometryError,
> {
    match r {
        Ok(line) => Ok(line@),
        Err(e) => Err(e),
    }
}

impl LineInner {
    /// The segment from `(x1, y1)` to `(x2, y2)`.
    /// Fails with `InvalidCoordinate` exactly when a coordinate is not a
    /// number, and else with `DegenerateSegment` exactly when the two points
    /// are the same.
    pub fn new(x1: Ratio, y1: Ratio, x2: Ratio, y2: Ratio) -> (r: Result<LineInner, GeometryError>)
        ensures
            inner_result_view(r) == LineModel::new(x1, y1, x2, y2),
            r is Ok ==> r->Ok_0@.well_formed(),
    {
        let start = match Point::from((x1, y1)) {
            Ok(p) => p,
            Err(e) => {
                return Err(e);
            },
        };
        let end = match Point::from((x2, y2)) {
            Ok(p) => p,
            Err(e) => {
                return Err(e);
            },
        };
        LineInner::from_points(start, end)
    }

    /// The segment from `start` to `end`: vertical where the two have the
    /// same `x`. Fails with `DegenerateSegment` exactly when the two points
    /// are the same.
    pub fn from_points(start: Point, end: Point) -> (r: Result<LineInner, GeometryError>)
        ensures
            inner_result_view(r) == LineModel::from_points(start@, end@),
            r is Ok ==> r->Ok_0@.well_formed(),
    {
        if start.x().equals(end.x()) {
            if start.y().equals(end.y()) {
                return Err(GeometryError::DegenerateSegment);
            }
            Ok(LineInner::Vertical(VerticalLine::from_points(&start, &end)))
        } else {
            Ok(LineInner::Normal(NormalLine::from_points(&start, &end)))
        }
    }

    /// Every segment has length: its model is well formed. This does
    /// nothing at run time.
    fn has_length(&self)
        ensures
            self@.well_formed(),
    {
        match self {
            LineInner::Vertical(v) => {
                proof {
                    use_type_invariant(v);
                }
            },
            LineInner::Normal(v) => {
                proof {
                    use_type_invariant(v);
                }
            },
        }
    }

    /// Moves the segment by the vector `(x, y)`.
    pub fn offset(&mut self, x: Ratio, y: Ratio)
        requires
            x.is_number(),
            y.is_number(),
        ensures
            final(self)@ == old(self)@.shifted(x.value(), y.value()),
            final(self)@.well_formed(),
    {
        let dx = Scalar::from_parts(x.num, x.den);
        let dy = Scalar::from_parts(y.num, y.den);
        match self {
            LineInner::Vertical(v) => v.offset(&dx, &dy),
            LineInner::Normal(v) => v.offset(&dx, &dy),
        }
    }

    /// The two endpoints: left then right, or bottom then top. They differ:
    /// every segment has length.
    pub fn endpoints(&self) -> (r: (Point, Point))
        ensures
            (r.0@, r.1@) == self@.endpoints(),
            r.0@ != r.1@,
            self@.well_formed(),
    {
        match self {
            LineInner::Vertical(v) => v.endpoints(),
            LineInner::Normal(v) => v.endpoints(),
        }
    }

    /// The endpoint that the segment starts from.
    pub fn origin(&self) -> (r: Point)
        ensures
            r@ == self@.origin(),
    {
        match self {
            LineInner::Vertical(v) => v.origin(),
            LineInner::Normal(v) => v.origin(),
        }
    }

    /// Where this segment meets the other, if it does. The answer is a point
    /// of both segments.
    pub fn point_of_intersection(&self, other: &LineInner) -> (r: Option<Point>)
        ensures
            point_option_view(r) == self@.meets(other@),
            r is Some ==> self@.holds(r->Some_0@) && other@.holds(r->Some_0@),
    {
        self.has_length();
        other.has_length();
        proof {
            law_meeting_point_is_on_both(self@, other@);
        }
        match self {
            LineInner::Vertical(v) => v.point_of_intersection(other),
            LineInner::Normal(v) => v.point_of_intersection(other),
        }
    }

    /// Whether this segment meets the wall in its own origin.
    pub fn hits_origin(&self, wall: &LineInner) -> (r: bool)
        ensures
            r == self@.hits_origin(wall@),
    {
        match self.point_of_intersection(wall) {
            Some(p) => p == self.origin(),
            None => false,
        }
    }

    /// What is left of this ray when it is cast at the wall: the ray itself
    /// where it does not meet the wall, else the segment from its origin to
    /// where it does. The result is a part of the ray with the same origin.
    pub fn cast_to_line(&self, wall: &LineInner) -> (r: LineInner)
        requires
            !self@.hits_origin(wall@),
        ensures
            r@ == self@.cast_to_line(wall@),
            r@.within(self@),
            r@.well_formed(),
    {
        match self {
            LineInner::Vertical(v) => LineInner::Vertical(v.cast_to_line(wall)),
            LineInner::Normal(v) => LineInner::Normal(v.cast_to_line(wall)),
        }
    }

    /// What is left of this ray when it is cast at every wall of the scene.
    pub fn cast_in_scene(&self, scene: &Scene) -> (r: LineInner)
        requires
            self@.casts_cleanly(scene@.walls),
        ensures
            r@ == self@.cast_in_scene(scene@.walls),
            scene@.walls.len() == 0 ==> r@ == self@,
            r@.within(self@),
            r@.well_formed(),
    {
        self.has_length();
        proof {
            law_scene_cast_is_part_of_ray(self@, scene@.walls);
        }
        let walls = scene.walls();
        match self.clone() {
            LineInner::Vertical(v) => {
                let mut v = v;
                let mut i: usize = 0;
                while i < walls.len()
                    invariant
                        i <= walls.len(),
                        line_views(walls@) == scene@.walls,
                        self@.casts_cleanly(scene@.walls),
                        LineModel::Vertical(v@) == self@.cast_in_scene(
                            scene@.walls.take(i as int),
                        ),
                    decreases walls.len() - i,
                {
                    proof {
                        lemma_casts_cleanly_prefix(self@, scene@.walls, i + 1);
                        assert(scene@.walls.take(i + 1).drop_last() =~= scene@.walls.take(
                            i as int,
                        ));
                    }
                    v = v.cast_to_line(&walls[i].inner);
                    i += 1;
                }
                proof {
                    assert(scene@.walls.take(i as int) =~= scene@.walls);
                    use_type_invariant(&v);
                }
                LineInner::Vertical(v)
            },
            LineInner::Normal(v) => {
                let mut v = v;
                let mut i: usize = 0;
                while i < walls.len()
                    invariant
                        i <= walls.len(),
                        line_views(walls@) == scene@.walls,
                        self@.casts_cleanly(scene@.walls),
                        LineModel::Normal(v@) == self@.cast_in_scene(scene@.walls.take(i as int)),
                    decreases walls.len() - i,
                {
                    proof {
                        lemma_casts_cleanly_prefix(self@, scene@.walls, i + 1);
                        assert(scene@.walls.take(i + 1).drop_last() =~= scene@.walls.take(
                            i as int,
                        ));
                    }
                    v = v.cast_to_line(&walls[i].inner);
                    i += 1;
                }
                proof {
                    assert(scene@.walls.take(i as int) =~= scene@.walls);
                    use_type_invariant(&v);
                }
                LineInner::Normal(v)
            },
        }
    }
}

/// A segment: a wall of a scene, or a ray to cast at the walls.
#[derive(Debug)]
pub struct Line {
    inner: LineInner,
}

impl View for Line {
    type V = LineModel;

    closed spec fn view(&self) -> LineModel {
        self.inner@
    }
}

impl Clone for Line {
    fn clone(&self) -> (r: Self)
        ensures
            r@ == self@,
    {
        Line { inner: self.inner.clone() }
    }
}

impl PartialEq for Line {
    fn eq(&self, other: &Line) -> (r: bool) {
        self.inner == other.inner
    }
}

impl vstd::std_specs::cmp::PartialEqSpecImpl for Line {
    open spec fn obeys_eq_spec() -> bool {
        true
    }

    open spec fn eq_spec(&self, other: &Line) -> bool {
        self@ == other@
    }
}

impl Line {
    /// The segment from `(x1, y1)` to `(x2, y2)`.
    /// Fails with `InvalidCoordinate` exactly when a coordinate is not a
    /// number, and else with `DegenerateSegment` exactly when the two points
    /// are the same.
    pub fn new(x1: Ratio, y1: Ratio, x2: Ratio, y2: Ratio) -> (r: Result<Line, GeometryError>)
        ensures
            line_result_view(r) == LineModel::new(x1, y1, x2, y2),
            r is Ok ==> r->Ok_0@.well_formed(),
    {
        match LineInner::new(x1, y1, x2, y2) {
            Ok(inner) => Ok(Line { inner }),
            Err(e) => Err(e),
        }
    }

    /// The segment from `start` to `end`: vertical where the two have the
    /// same `x`. Fails with `DegenerateSegment` exactly when the two points
    /// are the same.
    pub fn from_points(start: Point, end: Point) -> (r: Result<Line, GeometryError>)
        ensures
            line_result_view(r) == LineModel::from_points(start@, end@),
            r is Ok ==> r->Ok_0@.well_formed(),
    {
        match LineInner::from_points(start, end) {
            Ok(inner) => Ok(Line { inner }),
            Err(e) => Err(e),
        }
    }

    /// Every segment has length: its model is well formed. This does
    /// nothing at run time.
    fn has_length(&self)
        ensures
            self@.well_formed(),
    {
        self.inner.has_length()
    }

    /// Moves the segment by the vector `(x, y)`.
    pub fn offset(&mut self, x: Ratio, y: Ratio)
        requires
            x.is_number(),
            y.is_number(),
        ensures
            final(self)@ == old(self)@.shifted(x.value(), y.value()),
            final(self)@.well_formed(),
    {
        self.inner.offset(x, y)
    }

    /// The two endpoints: left then right, or bottom then top. They differ:
    /// every segment has length.
    pub fn endpoints(&self) -> (r: (Point, Point))
        ensures
            (r.0@, r.1@) == self@.endpoints(),
            r.0@ != r.1@,
            self@.well_formed(),
    {
        self.inner.endpoints()
    }

    /// The endpoint that the segment starts from.
    pub fn origin(&self) -> (r: Point)
        ensures
            r@ == self@.origin(),
    {
        self.inner.origin()
    }

    /// Where this segment meets the other, if it does. The answer is a point
    /// of both segments.
    pub fn point_of_intersection(&self, other: &Line) -> (r: Option<Point>)
        ensures
            point_option_view(r) == self@.meets(other@),
            r is Some ==> self@.holds(r->Some_0@) && other@.holds(r->Some_0@),
    {
        self.inner.point_of_intersection(&other.inner)
    }

    /// Whether this segment meets the wall in its own origin.
    pub fn hits_origin(&self, wall: &Line) -> (r: bool)
        ensures
            r == self@.hits_origin(wall@),
    {
        self.inner.hits_origin(&wall.inner)
    }

    /// What is left of this ray when it is cast at the wall: the ray itself
    /// where it does not meet the wall, else the segment from its origin to
    /// where it does. The result is a part of the ray with the same origin.
    pub fn cast_to_line(&self, wall: &Line) -> (r: Line)
        requires
            !self@.hits_origin(wall@),
        ensures
            r@ == self@.cast_to_line(wall@),
            r@.within(self@),
            r@.well_formed(),
    {
        Line { inner: self.inner.cast_to_line(&wall.inner) }
    }

    /// What is left of this ray when it is cast at every wall of the scene.
    /// Without walls that is the ray itself.
    pub fn cast_in_scene(&self, scene: &Scene) -> (r: Line)
        requires
            self@.casts_cleanly(scene@.walls),
        ensures
            r@ == self@.cast_in_scene(scene@.walls),
            scene@.walls.len() == 0 ==> r@ == self@,
            r@.within(self@),
            r@.well_formed(),
    {
        let inner = self.inner.cast_in_scene(scene);
        Line { inner }
    }

    /// [`Line::cast_in_scene`] for any ray and scene: nothing where a cast
    /// would meet a wall in the ray's origin.
    pub fn try_cast_in_scene(&self, scene: &Scene) -> (r: Option<Line>)
        ensures
            r is Some == self@.casts_cleanly(scene@.walls),
            r is Some ==> r->Some_0@ == self@.cast_in_scene(scene@.walls) && r->Some_0@.within(
                self@,
            ) && r->Some_0@.well_formed(),
    {
        let walls = scene.walls();
        let mut ray = self.clone();
        self.has_length();
        let mut i: usize = 0;
        while i < walls.len()
            invariant
                i <= walls.len(),
                line_views(walls@) == scene@.walls,
                self@.casts_cleanly(scene@.walls.take(i as int)),
                ray@ == self@.cast_in_scene(scene@.walls.take(i as int)),
                ray@.well_formed(),
            decreases walls.len() - i,
        {
            proof {
                assert(scene@.walls.take(i + 1).drop_last() =~= scene@.walls.take(i as int));
            }
            if ray.hits_origin(&walls[i]) {
                proof {
                    if self@.casts_cleanly(scene@.walls) {
                        lemma_casts_cleanly_prefix(self@, scene@.walls, i + 1);
                    }
                }
                return None;
            }
            ray = ray.cast_to_line(&walls[i]);
            i += 1;
        }
        proof {
            assert(scene@.walls.take(i as int) =~= scene@.walls);
            law_scene_cast_is_part_of_ray(self@, scene@.walls);
        }
        Some(ray)
    }
}

} // verus!
