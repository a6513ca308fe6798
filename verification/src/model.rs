//! The geometry as mathematics: what a segment is, where two segments meet,
//! and what is left of a ray that is cast at walls. The executable types of
//! this crate are specified against these definitions.
use crate::point::{GeometryError, PointModel, Ratio};
use vstd::prelude::*;

verus! {

/// Whether `v` lies in the closed interval from `low` to `high`.
pub open spec fn between(v: real, low: real, high: real) -> bool {
    low <= v && v <= high
}

/// The smaller of two numbers.
pub open spec fn lesser(a: real, b: real) -> real {
    if a <= b {
        a
    } else {
        b
    }
}

/// The larger of two numbers.
pub open spec fn greater(a: real, b: real) -> real {
    if a <= b {
        b
    } else {
        a
    }
}

/// A segment that is not vertical: the part of the line
/// `y = slope * x + y_intercept` over the interval from `min_x` to `max_x`.
/// `left_to_right` says that its origin is the left endpoint.
pub ghost struct NormalModel {
    pub slope: real,
    pub y_intercept: real,
    pub min_x: real,
    pub max_x: real,
    pub left_to_right: bool,
}

/// A vertical segment: the points with first coordinate `x` and second
/// coordinate from `min_y` to `max_y`. `down_to_up` says that its origin is
/// the lower endpoint.
pub ghost struct VerticalModel {
    pub x: real,
    pub min_y: real,
    pub max_y: real,
    pub down_to_up: bool,
}

/// A segment of either shape.
pub ghost enum LineModel {
    Normal(NormalModel),
    Vertical(VerticalModel),
}

impl NormalModel {
    /// A segment has two different endpoints.
    pub open spec fn well_formed(self) -> bool {
        self.min_x < self.max_x
    }

    /// The height of the line at `x`.
    pub open spec fn y_at(self, x: real) -> real {
        self.slope * x + self.y_intercept
    }

    /// The point of the line at `x`.
    pub open spec fn point_at(self, x: real) -> PointModel {
        PointModel { x, y: self.y_at(x) }
    }

    /// The endpoint with the smaller `x`.
    pub open spec fn left_point(self) -> PointModel {
        self.point_at(self.min_x)
    }

    /// The endpoint with the larger `x`.
    pub open spec fn right_point(self) -> PointModel {
        self.point_at(self.max_x)
    }

    /// The endpoint that the segment starts from.
    pub open spec fn origin(self) -> PointModel {
        if self.left_to_right {
            self.left_point()
        } else {
            self.right_point()
        }
    }

    /// The endpoint opposite the origin.
    pub open spec fn far_end(self) -> PointModel {
        if self.left_to_right {
            self.right_point()
        } else {
            self.left_point()
        }
    }

    /// Whether `p` is a point of the segment.
    pub open spec fn holds(self, p: PointModel) -> bool {
        between(p.x, self.min_x, self.max_x) && p.y == self.y_at(p.x)
    }

    /// The segment from `start` to `end`, for points that differ in `x`.
    pub open spec fn through(start: PointModel, end: PointModel) -> NormalModel {
        let slope = (end.y - start.y) / (end.x - start.x);
        NormalModel {
            slope,
            y_intercept: end.y - slope * end.x,
            min_x: lesser(start.x, end.x),
            max_x: greater(start.x, end.x),
            left_to_right: start.x < end.x,
        }
    }

    /// The segment moved by the vector `(dx, dy)`.
    pub open spec fn shifted(self, dx: real, dy: real) -> NormalModel {
        NormalModel {
            slope: self.slope,
            y_intercept: self.y_intercept + dy - self.slope * dx,
            min_x: self.min_x + dx,
            max_x: self.max_x + dx,
            left_to_right: self.left_to_right,
        }
    }

    /// Where this segment meets another that is not vertical.
    ///
    /// On one line, the answer is this segment's left endpoint where the
    /// other holds it, else its right endpoint where the other holds that,
    /// else nothing. Parallel segments do not meet. Otherwise the two lines
    /// cross in one point, which is the answer where both segments hold it.
    pub open spec fn meets_normal(self, other: NormalModel) -> Option<PointModel> {
        if self.slope == other.slope {
            if self.y_intercept != other.y_intercept {
                None
            } else if between(self.min_x, other.min_x, other.max_x) {
                Some(self.left_point())
            } else if between(self.max_x, other.min_x, other.max_x) {
                Some(self.right_point())
            } else {
                None
            }
        } else {
            let x = (other.y_intercept - self.y_intercept) / (self.slope - other.slope);
            if between(x, other.min_x, other.max_x) && between(x, self.min_x, self.max_x) {
                Some(self.point_at(x))
            } else {
                None
            }
        }
    }

    /// Where this segment meets a vertical one: the point of the line at the
    /// other's `x`, where both segments hold it.
    pub open spec fn meets_vertical(self, other: VerticalModel) -> Option<PointModel> {
        if between(other.x, self.min_x, self.max_x) && between(
            self.y_at(other.x),
            other.min_y,
            other.max_y,
        ) {
            Some(self.point_at(other.x))
        } else {
            None
        }
    }

    /// Where this segment meets another of either shape.
    pub open spec fn meets(self, other: LineModel) -> Option<PointModel> {
        match other {
            LineModel::Normal(n) => self.meets_normal(n),
            LineModel::Vertical(v) => self.meets_vertical(v),
        }
    }
}

impl VerticalModel {
    /// A segment has two different endpoints.
    pub open spec fn well_formed(self) -> bool {
        self.min_y < self.max_y
    }

    /// The endpoint with the smaller `y`.
    pub open spec fn bottom_point(self) -> PointModel {
        PointModel { x: self.x, y: self.min_y }
    }

    /// The endpoint with the larger `y`.
    pub open spec fn top_point(self) -> PointModel {
        PointModel { x: self.x, y: self.max_y }
    }

    /// The endpoint that the segment starts from.
    pub open spec fn origin(self) -> PointModel {
        if self.down_to_up {
            self.bottom_point()
        } else {
            self.top_point()
        }
    }

    /// The endpoint opposite the origin.
    pub open spec fn far_end(self) -> PointModel {
        if self.down_to_up {
            self.top_point()
        } else {
            self.bottom_point()
        }
    }

    /// Whether `p` is a point of the segment.
    pub open spec fn holds(self, p: PointModel) -> bool {
        p.x == self.x && between(p.y, self.min_y, self.max_y)
    }

    /// The segment from `start` to `end`, for points with the same `x`.
    pub open spec fn through(start: PointModel, end: PointModel) -> VerticalModel {
        VerticalModel {
            x: start.x,
            min_y: lesser(start.y, end.y),
            max_y: greater(start.y, end.y),
            down_to_up: start.y < end.y,
        }
    }

    /// The segment moved by the vector `(dx, dy)`.
    pub open spec fn shifted(self, dx: real, dy: real) -> VerticalModel {
        VerticalModel {
            x: self.x + dx,
            min_y: self.min_y + dy,
            max_y: self.max_y + dy,
            down_to_up: self.down_to_up,
        }
    }

    /// Where this segment meets another vertical one. They meet only on the
    /// same `x`; the answer is then the other's lower endpoint where this
    /// segment holds it, else the other's upper endpoint where this segment
    /// holds that, else nothing.
    pub open spec fn meets_vertical(self, other: VerticalModel) -> Option<PointModel> {
        if self.x != other.x {
            None
        } else if between(other.min_y, self.min_y, self.max_y) {
            Some(PointModel { x: self.x, y: other.min_y })
        } else if between(other.max_y, self.min_y, self.max_y) {
            Some(PointModel { x: self.x, y: other.max_y })
        } else {
            None
        }
    }

    /// Where this segment meets one that is not vertical.
    pub open spec fn meets_normal(self, other: NormalModel) -> Option<PointModel> {
        other.meets_vertical(self)
    }

    /// Where this segment meets another of either shape.
    pub open spec fn meets(self, other: LineModel) -> Option<PointModel> {
        match other {
            LineModel::Normal(n) => self.meets_normal(n),
            LineModel::Vertical(v) => self.meets_vertical(v),
        }
    }
}

impl LineModel {
    /// A segment has two different endpoints.
    pub open spec fn well_formed(self) -> bool {
        match self {
            LineModel::Normal(n) => n.well_formed(),
            LineModel::Vertical(v) => v.well_formed(),
        }
    }

    /// The endpoint that the segment starts from.
    pub open spec fn origin(self) -> PointModel {
        match self {
            LineModel::Normal(n) => n.origin(),
            LineModel::Vertical(v) => v.origin(),
        }
    }

    /// The endpoint opposite the origin.
    pub open spec fn far_end(self) -> PointModel {
        match self {
            LineModel::Normal(n) => n.far_end(),
            LineModel::Vertical(v) => v.far_end(),
        }
    }

    /// The two endpoints: left then right, or bottom then top.
    pub open spec fn endpoints(self) -> (PointModel, PointModel) {
        match self {
            LineModel::Normal(n) => (n.left_point(), n.right_point()),
            LineModel::Vertical(v) => (v.bottom_point(), v.top_point()),
        }
    }

    /// Whether `p` is a point of the segment.
    pub open spec fn holds(self, p: PointModel) -> bool {
        match self {
            LineModel::Normal(n) => n.holds(p),
            LineModel::Vertical(v) => v.holds(p),
        }
    }

    /// The segment from `start` to `end`, for two different points: vertical
    /// where they have the same `x`.
    pub open spec fn through(start: PointModel, end: PointModel) -> LineModel {
        if start.x == end.x {
            LineModel::Vertical(VerticalModel::through(start, end))
        } else {
            LineModel::Normal(NormalModel::through(start, end))
        }
    }

    /// The segment from `start` to `end`, or `DegenerateSegment` where the
    /// two are the same point.
    pub open spec fn from_points(start: PointModel, end: PointModel) -> Result<
        LineModel,
        GeometryError,
    > {
        if start == end {
            Err(GeometryError::DegenerateSegment)
        } else {
            Ok(LineModel::through(start, end))
        }
    }

    /// The segment from `(x1, y1)` to `(x2, y2)`, or `InvalidCoordinate`
    /// where one of the four is not a number, or else `DegenerateSegment`
    /// where the two points are the same.
    pub open spec fn new(x1: Ratio, y1: Ratio, x2: Ratio, y2: Ratio) -> Result<
        LineModel,
        GeometryError,
    > {
        match (PointModel::from(x1, y1), PointModel::from(x2, y2)) {
            (Ok(start), Ok(end)) => LineModel::from_points(start, end),
            _ => Err(GeometryError::InvalidCoordinate),
        }
    }

    /// The segment moved by the vector `(dx, dy)`.
    pub open spec fn shifted(self, dx: real, dy: real) -> LineModel {
        match self {
            LineModel::Normal(n) => LineModel::Normal(n.shifted(dx, dy)),
            LineModel::Vertical(v) => LineModel::Vertical(v.shifted(dx, dy)),
        }
    }

    /// Where this segment meets the other, if it does.
    pub open spec fn meets(self, other: LineModel) -> Option<PointModel> {
        match self {
            LineModel::Normal(n) => n.meets(other),
            LineModel::Vertical(v) => v.meets(other),
        }
    }

    /// Whether the two segments lie on one line.
    pub open spec fn on_one_line(self, other: LineModel) -> bool {
        match (self, other) {
            (LineModel::Normal(a), LineModel::Normal(b)) => a.slope == b.slope && a.y_intercept
                == b.y_intercept,
            (LineModel::Vertical(a), LineModel::Vertical(b)) => a.x == b.x,
            _ => false,
        }
    }

    /// Whether this segment meets the wall in its own origin. Nothing would
    /// be left of a ray cast at such a wall.
    pub open spec fn hits_origin(self, wall: LineModel) -> bool {
        self.meets(wall) == Some(self.origin())
    }

    /// This segment as a ray cast at one wall: the ray itself where it does
    /// not meet the wall, else the segment from its origin to where it does.
    pub open spec fn cast_to_line(self, wall: LineModel) -> LineModel {
        match self.meets(wall) {
            None => self,
            Some(p) => LineModel::through(self.origin(), p),
        }
    }

    /// This segment as a ray cast at each wall in turn, every cast starting
    /// from what the one before left.
    pub open spec fn cast_in_scene(self, walls: Seq<LineModel>) -> LineModel
        decreases walls.len(),
    {
        if walls.len() == 0 {
            self
        } else {
            self.cast_in_scene(walls.drop_last()).cast_to_line(walls.last())
        }
    }

    /// Whether something is left of the ray after every cast of
    /// [`LineModel::cast_in_scene`]: no wall is met in the origin.
    pub open spec fn casts_cleanly(self, walls: Seq<LineModel>) -> bool
        decreases walls.len(),
    {
        walls.len() == 0 || (self.casts_cleanly(walls.drop_last()) && !self.cast_in_scene(
            walls.drop_last(),
        ).hits_origin(walls.last()))
    }

    /// Whether this segment is a part of the other that starts from the same
    /// origin: on the same line, in the same direction, and not beyond the
    /// other's endpoints.
    pub open spec fn within(self, other: LineModel) -> bool {
        match (self, other) {
            (LineModel::Normal(a), LineModel::Normal(b)) => {
                &&& a.slope == b.slope
                &&& a.y_intercept == b.y_intercept
                &&& a.left_to_right == b.left_to_right
                &&& b.min_x <= a.min_x
                &&& a.max_x <= b.max_x
                &&& a.origin() == b.origin()
            },
            (LineModel::Vertical(a), LineModel::Vertical(b)) => {
                &&& a.x == b.x
                &&& a.down_to_up == b.down_to_up
                &&& b.min_y <= a.min_y
                &&& a.max_y <= b.max_y
                &&& a.origin() == b.origin()
            },
            _ => false,
        }
    }
}

/// On a line, the slope between two of its points is the slope of the line.
pub proof fn lemma_slope_between_points(slope: real, y_intercept: real, x0: real, x1: real)
    requires
        x0 != x1,
    ensures
        ((slope * x1 + y_intercept) - (slope * x0 + y_intercept)) / (x1 - x0) == slope,
{
    assert(((slope * x1 + y_intercept) - (slope * x0 + y_intercept)) / (x1 - x0) == slope)
        by (nonlinear_arith)
        requires
            x0 != x1,
    ;
}

/// A ray that casts cleanly at some walls casts cleanly at the first `n` of
/// them.
pub proof fn lemma_casts_cleanly_prefix(ray: LineModel, walls: Seq<LineModel>, n: int)
    requires
        ray.casts_cleanly(walls),
        0 <= n <= walls.len(),
    ensures
        ray.casts_cleanly(walls.take(n)),
    decreases walls.len(),
{
    if n < walls.len() {
        lemma_casts_cleanly_prefix(ray, walls.drop_last(), n);
        assert(walls.drop_last().take(n) =~= walls.take(n));
    } else {
        assert(walls.take(n) =~= walls);
    }
}

} // verus!
