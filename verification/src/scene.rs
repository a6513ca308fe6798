//! A scene: the walls that rays are cast at.
use crate::line::Line;
use crate::model::LineModel;
use crate::point::{point_option_view, GeometryError, Point, PointModel};
use vstd::prelude::*;

verus! {

/// A scene, as contracts see it: the walls in the order in which they were
/// added, and the endpoint of the wall added last.
pub ghost struct SceneModel {
    pub walls: Seq<LineModel>,
    pub last_point: Option<PointModel>,
}

/// The models of some segments, in order.
pub open spec fn line_views(lines: Seq<Line>) -> Seq<LineModel> {
    Seq::new(lines.len(), |i: int| lines[i]@)
}

/// The walls of a scene. Walls are only ever added.
#[derive(Debug)]
pub struct Scene {
    walls: Vec<Line>,
    last_point: Option<Point>,
}

impl View for Scene {
    type V = SceneModel;

    closed spec fn view(&self) -> SceneModel {
        SceneModel {
            walls: line_views(self.walls@),
            last_point: point_option_view(self.last_point),
        }
    }
}

impl Scene {
    #[verifier::type_invariant]
    closed spec fn walls_have_length(self) -> bool {
        forall|i: int| 0 <= i < self.walls@.len() ==> (#[trigger] self.walls@[i])@.well_formed()
    }

    /// A scene without walls.
    pub fn new() -> (r: Scene)
        ensures
            r@ == (SceneModel { walls: Seq::empty(), last_point: None }),
    {
        let r = Scene { walls: Vec::new(), last_point: None };
        proof {
            assert(line_views(r.walls@) =~= Seq::empty());
        }
        r
    }

    /// The walls, in the order in which they were added.
    pub fn walls(&self) -> (r: &Vec<Line>)
        ensures
            line_views(r@) == self@.walls,
            forall|i: int| 0 <= i < self@.walls.len() ==> (#[trigger] self@.walls[i]).well_formed(),
    {
        proof {
            use_type_invariant(self);
            assert forall|i: int| 0 <= i < self@.walls.len() implies (
            #[trigger] self@.walls[i]).well_formed() by {
                assert(self@.walls[i] == self.walls@[i]@);
            }
        }
        &self.walls
    }

    /// The endpoint of the wall added last, if there is one.
    pub fn last_point(&self) -> (r: &Option<Point>)
        ensures
            point_option_view(*r) == self@.last_point,
    {
        &self.last_point
    }

    /// Adds the wall from `start` to `end` and keeps `end` as the last point.
    /// Fails with `DegenerateSegment`, and leaves the scene as it is, exactly
    /// when the two points are the same.
    pub fn add_line_no_graphics(&mut self, start: Point, end: Point) -> (r: Result<
        (),
        GeometryError,
    >)
        ensures
            start@ != end@ ==> r is Ok && final(self)@ == (SceneModel {
                walls: old(self)@.walls.push(LineModel::through(start@, end@)),
                last_point: Some(end@),
            }),
            start@ == end@ ==> r == Err::<(), GeometryError>(GeometryError::DegenerateSegment)
                && final(self)@ == old(self)@,
    {
        let kept = end.clone();
        match Line::from_points(start, end) {
            Ok(line) => {
                proof {
                    use_type_invariant(&*self);
                    assert(line_views(self.walls@.push(line)) =~= line_views(self.walls@).push(
                        line@,
                    ));
                }
                let mut walls: Vec<Line> = Vec::new();
                core::mem::swap(&mut walls, &mut self.walls);
                walls.push(line);
                core::mem::swap(&mut walls, &mut self.walls);
                self.last_point = Some(kept);
                Ok(())
            },
            Err(e) => Err(e),
        }
    }

    /// Adds the wall from the last point to `new`. Without a last point the
    /// scene stays as it is.
    pub fn add_line_continuous_no_graphics(&mut self, new: Point) -> (r: Result<
        (),
        GeometryError,
    >)
        ensures
            old(self)@.last_point is None ==> r is Ok && final(self)@ == old(self)@,
            old(self)@.last_point is Some && old(self)@.last_point->Some_0 != new@ ==> r is Ok
                && final(self)@ == (SceneModel {
                walls: old(self)@.walls.push(
                    LineModel::through(old(self)@.last_point->Some_0, new@),
                ),
                last_point: Some(new@),
            }),
            old(self)@.last_point == Some(new@) ==> r == Err::<(), GeometryError>(
                GeometryError::DegenerateSegment,
            ) && final(self)@ == old(self)@,
    {
        let last = match &self.last_point {
            Some(last) => last.clone(),
            None => {
                return Ok(());
            },
        };
        self.add_line_no_graphics(last, new)
    }

    /// Adds the wall from `start` to `end` as [`Scene::add_line_no_graphics`]
    /// does, and hands back the two endpoints of the new wall for drawing:
    /// left then right, or bottom then top.
    pub fn add_line(&mut self, start: Point, end: Point) -> (r: Result<
        (Point, Point),
        GeometryError,
    >)
        ensures
            start@ != end@ ==> r is Ok && (r->Ok_0.0@, r->Ok_0.1@) == LineModel::through(
                start@,
                end@,
            ).endpoints() && final(self)@ == (SceneModel {
                walls: old(self)@.walls.push(LineModel::through(start@, end@)),
                last_point: Some(end@),
            }),
            start@ == end@ ==> r == Err::<(Point, Point), GeometryError>(
                GeometryError::DegenerateSegment,
            ) && final(self)@ == old(self)@,
    {
        match self.add_line_no_graphics(start, end) {
            Ok(()) => {
                proof {
                    let walls = line_views(self.walls@);
                    assert(walls.len() == self.walls@.len());
                    assert(walls.len() > 0);
                    assert(walls[walls.len() - 1] == self.walls@[walls.len() - 1]@);
                }
                let added = &self.walls[self.walls.len() - 1];
                Ok(added.endpoints())
            },
            Err(e) => Err(e),
        }
    }

    /// Adds the wall from the last point to `new` as
    /// [`Scene::add_line_continuous_no_graphics`] does, and hands back the
    /// two endpoints of the new wall for drawing, or nothing where no wall
    /// was added for want of a last point.
    pub fn add_line_continuous(&mut self, new: Point) -> (r: Result<
        Option<(Point, Point)>,
        GeometryError,
    >)
        ensures
            old(self)@.last_point is None ==> r == Ok::<Option<(Point, Point)>, GeometryError>(None)
                && final(self)@ == old(self)@,
            old(self)@.last_point is Some && old(self)@.last_point->Some_0 != new@ ==> r is Ok
                && r->Ok_0 is Some && (r->Ok_0->Some_0.0@, r->Ok_0->Some_0.1@)
                == LineModel::through(old(self)@.last_point->Some_0, new@).endpoints()
                && final(self)@ == (SceneModel {
                walls: old(self)@.walls.push(
                    LineModel::through(old(self)@.last_point->Some_0, new@),
                ),
                last_point: Some(new@),
            }),
            old(self)@.last_point == Some(new@) ==> r == Err::<
                Option<(Point, Point)>,
                GeometryError,
            >(GeometryError::DegenerateSegment) && final(self)@ == old(self)@,
    {
        let last = match &self.last_point {
            Some(last) => last.clone(),
            None => {
                return Ok(None);
            },
        };
        match self.add_line(last, new) {
            Ok(ends) => Ok(Some(ends)),
            Err(e) => Err(e),
        }
    }

    /// The two endpoints of every wall for drawing, in the order of the
    /// walls.
    pub fn re_init_graphics(&self) -> (r: Vec<(Point, Point)>)
        ensures
            r@.len() == self@.walls.len(),
            forall|i: int|
                0 <= i < r@.len() ==> (#[trigger] r@[i].0@, r@[i].1@) == self@.walls[i].endpoints(),
    {
        let mut r: Vec<(Point, Point)> = Vec::new();
        let mut i: usize = 0;
        while i < self.walls.len()
            invariant
                i <= self.walls.len(),
                r@.len() == i,
                forall|k: int|
                    0 <= k < i ==> (#[trigger] r@[k].0@, r@[k].1@) == self@.walls[k].endpoints(),
            decreases self.walls.len() - i,
        {
            r.push(self.walls[i].endpoints());
            i += 1;
        }
        r
    }
}

} // verus!
