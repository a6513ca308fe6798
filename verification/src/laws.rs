//! What holds of the geometry as a whole, proved over its model.
use crate::model::{greater, lemma_slope_between_points, lesser, LineModel, NormalModel};
use crate::point::PointModel;
use vstd::prelude::*;

verus! {

/// Two lines of different slope cross where the one computes it and where
/// the other computes it: at the same `x`, and at the same height.
pub proof fn lemma_crossing_is_shared(m1: real, b1: real, m2: real, b2: real)
    requires
        m1 != m2,
    ensures
        (b2 - b1) / (m1 - m2) == (b1 - b2) / (m2 - m1),
        m1 * ((b2 - b1) / (m1 - m2)) + b1 == m2 * ((b2 - b1) / (m1 - m2)) + b2,
{
    assert((b2 - b1) / (m1 - m2) == (b1 - b2) / (m2 - m1)) by (nonlinear_arith)
        requires
            m1 != m2,
    ;
    assert(m1 * ((b2 - b1) / (m1 - m2)) + b1 == m2 * ((b2 - b1) / (m1 - m2)) + b2)
        by (nonlinear_arith)
        requires
            m1 != m2,
    ;
}

/// The segment from one point of a line to another is the part of the line
/// between them.
pub proof fn lemma_through_points_of_a_line(n: NormalModel, x0: real, x1: real)
    requires
        x0 != x1,
    ensures
        NormalModel::through(n.point_at(x0), n.point_at(x1)) == (NormalModel {
            slope: n.slope,
            y_intercept: n.y_intercept,
            min_x: lesser(x0, x1),
            max_x: greater(x0, x1),
            left_to_right: x0 < x1,
        }),
{
    lemma_slope_between_points(n.slope, n.y_intercept, x0, x1);
}

/// Where two segments meet, they meet in a point of both. This holds on one
/// line too, where the answer is one point of the overlap and depends on
/// which segment is asked.
pub proof fn law_meeting_point_is_on_both(a: LineModel, b: LineModel)
    requires
        a.well_formed(),
        b.well_formed(),
    ensures
        a.meets(b) is Some ==> a.holds(a.meets(b)->Some_0) && b.holds(a.meets(b)->Some_0),
{
    match (a, b) {
        (LineModel::Normal(n), LineModel::Normal(o)) => {
            if n.slope != o.slope {
                lemma_crossing_is_shared(n.slope, n.y_intercept, o.slope, o.y_intercept);
            }
        },
        _ => {},
    }
}

/// Two segments that do not lie on one line meet in the same point,
/// or not at all, whichever of them is asked.
pub proof fn law_meeting_is_symmetric_off_one_line(a: LineModel, b: LineModel)
    requires
        !a.on_one_line(b),
    ensures
        a.meets(b) == b.meets(a),
{
    match (a, b) {
        (LineModel::Normal(n), LineModel::Normal(o)) => {
            if n.slope != o.slope {
                lemma_crossing_is_shared(n.slope, n.y_intercept, o.slope, o.y_intercept);
            }
        },
        _ => {},
    }
}

/// A cast never lengthens: every point of what is left of a ray after a
/// cast at a wall is a point of the ray.
pub proof fn law_cast_never_lengthens(ray: LineModel, wall: LineModel, p: PointModel)
    requires
        ray.well_formed(),
        ray.cast_to_line(wall).holds(p),
    ensures
        ray.holds(p),
{
    match ray {
        LineModel::Normal(n) => {
            if n.meets(wall) is Some {
                let hit = n.meets(wall)->Some_0;
                assert(hit == n.point_at(hit.x));
                if hit.x != n.origin().x {
                    lemma_through_points_of_a_line(n, n.origin().x, hit.x);
                }
            }
        },
        LineModel::Vertical(v) => {},
    }
}

/// What is left of a ray after a cast at a wall that it does not meet in
/// its origin is a segment again: a part of the ray, on the same line, with
/// the same origin and direction. Where the ray meets the wall, it ends
/// there.
pub proof fn law_cast_is_part_of_ray(ray: LineModel, wall: LineModel)
    requires
        ray.well_formed(),
        !ray.hits_origin(wall),
    ensures
        ray.cast_to_line(wall).well_formed(),
        ray.cast_to_line(wall).within(ray),
        ray.meets(wall) is Some ==> ray.cast_to_line(wall).far_end() == ray.meets(wall)->Some_0,
{
    match ray {
        LineModel::Normal(n) => {
            if n.meets(wall) is Some {
                let hit = n.meets(wall)->Some_0;
                assert(hit == n.point_at(hit.x));
                lemma_through_points_of_a_line(n, n.origin().x, hit.x);
            }
        },
        LineModel::Vertical(v) => {},
    }
}

/// A part of a part is a part.
pub proof fn lemma_within_is_transitive(a: LineModel, b: LineModel, c: LineModel)
    requires
        a.within(b),
        b.within(c),
    ensures
        a.within(c),
{
}

/// Every point of a part of a segment is a point of the segment.
pub proof fn law_part_has_points_of_whole(a: LineModel, b: LineModel, p: PointModel)
    requires
        a.within(b),
        a.holds(p),
    ensures
        b.holds(p),
{
}

/// Casting at walls one after the other only ever shortens a ray: what is
/// left is a segment, a part of the ray with the same origin.
pub proof fn law_scene_cast_is_part_of_ray(ray: LineModel, walls: Seq<LineModel>)
    requires
        ray.well_formed(),
        ray.casts_cleanly(walls),
    ensures
        ray.cast_in_scene(walls).well_formed(),
        ray.cast_in_scene(walls).within(ray),
    decreases walls.len(),
{
    if walls.len() > 0 {
        law_scene_cast_is_part_of_ray(ray, walls.drop_last());
        let before = ray.cast_in_scene(walls.drop_last());
        law_cast_is_part_of_ray(before, walls.last());
        lemma_within_is_transitive(before.cast_to_line(walls.last()), before, ray);
    }
}

/// Nothing hides a ray in a scene without walls.
pub proof fn law_empty_scene_returns_ray(ray: LineModel)
    ensures
        ray.casts_cleanly(Seq::empty()),
        ray.cast_in_scene(Seq::empty()) == ray,
{
}

/// Two lines of different slope have no common point but where they cross.
pub proof fn lemma_common_point_is_crossing(m1: real, b1: real, m2: real, b2: real, x: real)
    requires
        m1 != m2,
        m1 * x + b1 == m2 * x + b2,
    ensures
        x == (b2 - b1) / (m1 - m2),
{
    assert(x == (b2 - b1) / (m1 - m2)) by (nonlinear_arith)
        requires
            m1 != m2,
            m1 * x + b1 == m2 * x + b2,
    ;
}

/// Two segments that do not lie on one line and have a point in common
/// meet there.
pub proof fn law_meeting_finds_common_point(a: LineModel, b: LineModel, p: PointModel)
    requires
        !a.on_one_line(b),
        a.holds(p),
        b.holds(p),
    ensures
        a.meets(b) == Some(p),
{
    match (a, b) {
        (LineModel::Normal(n), LineModel::Normal(o)) => {
            if n.slope != o.slope {
                lemma_common_point_is_crossing(
                    n.slope,
                    n.y_intercept,
                    o.slope,
                    o.y_intercept,
                    p.x,
                );
            }
        },
        _ => {},
    }
}

/// A ray whose origin is on none of the walls casts cleanly at them, in
/// whatever order they come.
pub proof fn law_free_origin_casts_cleanly(ray: LineModel, walls: Seq<LineModel>)
    requires
        ray.well_formed(),
        forall|i: int|
            0 <= i < walls.len() ==> (#[trigger] walls[i]).well_formed() && !walls[i].holds(
                ray.origin(),
            ),
    ensures
        ray.casts_cleanly(walls),
    decreases walls.len(),
{
    if walls.len() > 0 {
        let front = walls.drop_last();
        assert forall|i: int| 0 <= i < front.len() implies (#[trigger] front[i]).well_formed()
            && !front[i].holds(ray.origin()) by {
            assert(front[i] == walls[i]);
        }
        law_free_origin_casts_cleanly(ray, front);
        law_scene_cast_is_part_of_ray(ray, front);
        let before = ray.cast_in_scene(front);
        assert(walls.last() == walls[walls.len() - 1]);
        law_meeting_point_is_on_both(before, walls.last());
    }
}

/// A segment moved by a vector is the segment from its moved origin to its
/// moved far end.
pub proof fn law_shifted_runs_through_moved_endpoints(line: LineModel, dx: real, dy: real)
    requires
        line.well_formed(),
    ensures
        line.shifted(dx, dy) == LineModel::through(
            line.origin().translate(PointModel { x: dx, y: dy }),
            line.far_end().translate(PointModel { x: dx, y: dy }),
        ),
        line.shifted(dx, dy).well_formed(),
{
    match line {
        LineModel::Normal(n) => {
            let m = n.slope;
            let b = n.y_intercept;
            let x0 = n.origin().x;
            let x1 = n.far_end().x;
            assert(((m * x1 + b + dy) - (m * x0 + b + dy)) / ((x1 + dx) - (x0 + dx)) == m)
                by (nonlinear_arith)
                requires
                    x0 != x1,
            ;
            assert((m * x1 + b + dy) - m * (x1 + dx) == b + dy - m * dx) by (nonlinear_arith);
        },
        LineModel::Vertical(v) => {},
    }
}

} // verus!
