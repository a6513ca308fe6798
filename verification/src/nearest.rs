//! Casting as shortening: each wall stops a ray at a distance from its
//! origin, and a scene leaves the ray with the least of these distances,
//! in whatever order the walls come.
use crate::laws::{law_free_origin_casts_cleanly, lemma_through_points_of_a_line};
use crate::model::{between, LineModel, NormalModel, VerticalModel};
use vstd::prelude::*;

verus! {

/// How far the coordinate `c` lies from `origin` in the direction of a ray:
/// towards larger coordinates if `forward`, else towards smaller ones.
pub open spec fn ahead(forward: bool, origin: real, c: real) -> real {
    if forward {
        c - origin
    } else {
        origin - c
    }
}

/// The distance `t`, or the stop if there is one before it.
pub open spec fn nearer(t: real, stop: Option<real>) -> real {
    match stop {
        Some(d) => if d < t {
            d
        } else {
            t
        },
        None => t,
    }
}

impl LineModel {
    /// How far the segment reaches from its origin: along `x`, or along `y`
    /// where it is vertical.
    pub open spec fn reach(self) -> real {
        match self {
            LineModel::Normal(n) => n.max_x - n.min_x,
            LineModel::Vertical(v) => v.max_y - v.min_y,
        }
    }

    /// The part of the segment that reaches `t` from its origin.
    pub open spec fn shortened(self, t: real) -> LineModel {
        match self {
            LineModel::Normal(n) => if n.left_to_right {
                LineModel::Normal(NormalModel { max_x: n.min_x + t, ..n })
            } else {
                LineModel::Normal(NormalModel { min_x: n.max_x - t, ..n })
            },
            LineModel::Vertical(v) => if v.down_to_up {
                LineModel::Vertical(VerticalModel { max_y: v.min_y + t, ..v })
            } else {
                LineModel::Vertical(VerticalModel { min_y: v.max_y - t, ..v })
            },
        }
    }

    /// Whether this ray runs downwards over the whole of a wall on its own
    /// line, the wall ending below the ray's origin. A cast at such a wall
    /// ends at the wall's lower end while the ray still reaches that, and at
    /// its upper end once the ray is shorter.
    pub open spec fn runs_down_over(self, wall: LineModel) -> bool {
        match (self, wall) {
            (LineModel::Vertical(v), LineModel::Vertical(w)) => !v.down_to_up && v.x == w.x
                && v.min_y <= w.min_y && w.max_y < v.max_y,
            _ => false,
        }
    }

    /// Whether this ray, cut down to the reach `t`, would end inside a wall
    /// that it runs down over: above the wall's lower end and below its
    /// upper end.
    pub open spec fn ends_inside(self, t: real, wall: LineModel) -> bool {
        match (self, wall) {
            (LineModel::Vertical(v), LineModel::Vertical(w)) => self.runs_down_over(wall)
                && w.min_y < v.max_y - t < w.max_y,
            _ => false,
        }
    }

    /// The distance from this ray's origin at which the wall stops it, if
    /// the wall lies ahead on the ray's line at all.
    ///
    /// A wall across the ray's line stops the ray where the two cross. A
    /// wall on the line of a ray that is not vertical does not stop it. A
    /// wall on the line of a vertical ray stops it at the wall's lower end
    /// where the ray can reach that, else at its upper end: a ray that runs
    /// upwards reaches what is not below its origin, a ray that runs
    /// downwards what is not below its far end.
    pub open spec fn stop(self, wall: LineModel) -> Option<real> {
        match self {
            LineModel::Normal(n) => {
                let origin = n.origin().x;
                match wall {
                    LineModel::Normal(w) => {
                        let x = (w.y_intercept - n.y_intercept) / (n.slope - w.slope);
                        if n.slope != w.slope && between(x, w.min_x, w.max_x) && ahead(
                            n.left_to_right,
                            origin,
                            x,
                        ) >= 0real {
                            Some(ahead(n.left_to_right, origin, x))
                        } else {
                            None
                        }
                    },
                    LineModel::Vertical(w) => {
                        if between(n.y_at(w.x), w.min_y, w.max_y) && ahead(
                            n.left_to_right,
                            origin,
                            w.x,
                        ) >= 0real {
                            Some(ahead(n.left_to_right, origin, w.x))
                        } else {
                            None
                        }
                    },
                }
            },
            LineModel::Vertical(v) => {
                let origin = v.origin().y;
                match wall {
                    LineModel::Normal(w) => {
                        if between(v.x, w.min_x, w.max_x) && ahead(
                            v.down_to_up,
                            origin,
                            w.y_at(v.x),
                        ) >= 0real {
                            Some(ahead(v.down_to_up, origin, w.y_at(v.x)))
                        } else {
                            None
                        }
                    },
                    LineModel::Vertical(w) => {
                        if v.x != w.x {
                            None
                        } else if v.down_to_up {
                            if w.min_y >= origin {
                                Some(w.min_y - origin)
                            } else if w.max_y >= origin {
                                Some(w.max_y - origin)
                            } else {
                                None
                            }
                        } else {
                            if w.min_y > origin {
                                None
                            } else if w.max_y >= origin || w.min_y >= v.min_y {
                                Some(origin - w.min_y)
                            } else {
                                Some(origin - w.max_y)
                            }
                        }
                    },
                }
            },
        }
    }

    /// How far a ray still reaches after casts at all the walls: its own
    /// reach, or the nearest stop if one is nearer.
    pub open spec fn visible_reach(self, walls: Seq<LineModel>) -> real
        decreases walls.len(),
    {
        if walls.len() == 0 {
            self.reach()
        } else {
            nearer(self.visible_reach(walls.drop_last()), self.stop(walls.last()))
        }
    }
}

/// A segment shortened to its own reach is the segment.
pub proof fn lemma_shortened_to_reach(ray: LineModel)
    ensures
        ray.shortened(ray.reach()) == ray,
{
}

/// A cast at a wall leaves of a shortened ray that is not vertical the same
/// ray, shortened to the wall's stop where that is nearer.
pub proof fn lemma_cast_of_shortened_normal(ray: NormalModel, t: real, wall: LineModel)
    requires
        ray.well_formed(),
        wall.well_formed(),
        0real < t <= LineModel::Normal(ray).reach(),
        !LineModel::Normal(ray).shortened(t).hits_origin(wall),
    ensures
        LineModel::Normal(ray).shortened(t).cast_to_line(wall) == LineModel::Normal(
            ray,
        ).shortened(nearer(t, LineModel::Normal(ray).stop(wall))),
        0real < nearer(t, LineModel::Normal(ray).stop(wall)) <= t,
{
    let whole = LineModel::Normal(ray);
    let cut = whole.shortened(t);
    let n = cut->Normal_0;
    if cut.meets(wall) is Some {
        let hit = cut.meets(wall)->Some_0;
        assert(hit == n.point_at(hit.x));
        lemma_through_points_of_a_line(n, n.origin().x, hit.x);
    }
}

/// A cast at a wall leaves of a shortened vertical ray the same ray,
/// shortened again or not. What is left reaches no further than the wall's
/// stop. It reaches at least as far as `least`, if the ray did, the wall's
/// stop does, and the ray cut down to `least` would not end inside the wall.
pub proof fn lemma_cast_of_shortened_vertical(
    ray: VerticalModel,
    least: real,
    t: real,
    wall: LineModel,
)
    requires
        ray.well_formed(),
        wall.well_formed(),
        0real < t <= LineModel::Vertical(ray).reach(),
        least <= t,
        LineModel::Vertical(ray).stop(wall) is Some ==> least <= LineModel::Vertical(ray).stop(
            wall,
        )->Some_0,
        !LineModel::Vertical(ray).ends_inside(least, wall),
        !LineModel::Vertical(ray).shortened(t).hits_origin(wall),
    ensures
        LineModel::Vertical(ray).shortened(t).cast_to_line(wall) == LineModel::Vertical(
            ray,
        ).shortened(LineModel::Vertical(ray).shortened(t).cast_to_line(wall).reach()),
        0real < LineModel::Vertical(ray).shortened(t).cast_to_line(wall).reach() <= t,
        least <= LineModel::Vertical(ray).shortened(t).cast_to_line(wall).reach(),
        LineModel::Vertical(ray).stop(wall) is Some ==> LineModel::Vertical(ray).shortened(
            t,
        ).cast_to_line(wall).reach() <= LineModel::Vertical(ray).stop(wall)->Some_0,
{
}

/// A cast at a wall leaves of a shortened ray the same ray, shortened again
/// or not. What is left reaches no further than the wall's stop. It reaches
/// at least as far as `least`, if the ray did, the wall's stop does, and the
/// ray cut down to `least` would not end inside the wall.
pub proof fn lemma_cast_of_shortened(ray: LineModel, least: real, t: real, wall: LineModel)
    requires
        ray.well_formed(),
        wall.well_formed(),
        0real < t <= ray.reach(),
        least <= t,
        ray.stop(wall) is Some ==> least <= ray.stop(wall)->Some_0,
        !ray.ends_inside(least, wall),
        !ray.shortened(t).hits_origin(wall),
    ensures
        ray.shortened(t).cast_to_line(wall) == ray.shortened(
            ray.shortened(t).cast_to_line(wall).reach(),
        ),
        0real < ray.shortened(t).cast_to_line(wall).reach() <= t,
        least <= ray.shortened(t).cast_to_line(wall).reach(),
        ray.stop(wall) is Some ==> ray.shortened(t).cast_to_line(wall).reach() <= ray.stop(
            wall,
        )->Some_0,
{
    match ray {
        LineModel::Normal(n) => lemma_cast_of_shortened_normal(n, t, wall),
        LineModel::Vertical(v) => lemma_cast_of_shortened_vertical(v, least, t, wall),
    }
}

/// Whether every wall is a segment that stops the ray no nearer than at
/// `least`, and that the ray, cut down to `least`, would not end inside.
pub open spec fn walls_fit(ray: LineModel, least: real, walls: Seq<LineModel>) -> bool {
    forall|i: int|
        0 <= i < walls.len() ==> (#[trigger] walls[i]).well_formed() && !ray.ends_inside(
            least,
            walls[i],
        ) && (ray.stop(walls[i]) is Some ==> least <= ray.stop(walls[i])->Some_0)
}

/// Casting at walls of which none stops the ray nearer than at `least`
/// leaves the ray shortened, to no less than `least` and to no more than any
/// of the stops.
pub proof fn lemma_scene_cast_keeps_reach(ray: LineModel, least: real, walls: Seq<LineModel>)
    requires
        ray.well_formed(),
        least <= ray.reach(),
        walls_fit(ray, least, walls),
        ray.casts_cleanly(walls),
    ensures
        ray.cast_in_scene(walls) == ray.shortened(ray.cast_in_scene(walls).reach()),
        0real < ray.cast_in_scene(walls).reach() <= ray.reach(),
        least <= ray.cast_in_scene(walls).reach(),
        forall|i: int|
            0 <= i < walls.len() && ray.stop(#[trigger] walls[i]) is Some ==> ray.cast_in_scene(
                walls,
            ).reach() <= ray.stop(walls[i])->Some_0,
    decreases walls.len(),
{
    if walls.len() == 0 {
        lemma_shortened_to_reach(ray);
    } else {
        let front = walls.drop_last();
        let last = walls.len() - 1;
        assert forall|i: int| 0 <= i < front.len() implies (#[trigger] front[i]).well_formed()
            && !ray.ends_inside(least, front[i]) && (ray.stop(front[i]) is Some ==> least
            <= ray.stop(front[i])->Some_0) by {
            assert(front[i] == walls[i]);
        }
        lemma_scene_cast_keeps_reach(ray, least, front);
        assert(walls.last() == walls[last]);
        let before = ray.cast_in_scene(front);
        lemma_cast_of_shortened(ray, least, before.reach(), walls.last());
        assert forall|i: int|
            0 <= i < walls.len() && ray.stop(#[trigger] walls[i]) is Some implies ray.cast_in_scene(
            walls,
        ).reach() <= ray.stop(walls[i])->Some_0 by {
            if i < last {
                assert(front[i] == walls[i]);
            }
        }
    }
}

/// The visible reach is at most the ray's reach and at most every stop, and
/// it is the ray's reach or one of the stops.
pub proof fn lemma_visible_reach_is_least(ray: LineModel, walls: Seq<LineModel>)
    ensures
        ray.visible_reach(walls) <= ray.reach(),
        forall|i: int|
            0 <= i < walls.len() && ray.stop(#[trigger] walls[i]) is Some ==> ray.visible_reach(
                walls,
            ) <= ray.stop(walls[i])->Some_0,
        ray.visible_reach(walls) == ray.reach() || exists|i: int|
            0 <= i < walls.len() && ray.stop(#[trigger] walls[i]) == Some(
                ray.visible_reach(walls),
            ),
    decreases walls.len(),
{
    if walls.len() > 0 {
        let front = walls.drop_last();
        let last = walls.len() - 1;
        lemma_visible_reach_is_least(ray, front);
        assert(walls.last() == walls[last]);
        assert forall|i: int|
            0 <= i < walls.len() && ray.stop(#[trigger] walls[i]) is Some implies ray.visible_reach(
            walls,
        ) <= ray.stop(walls[i])->Some_0 by {
            if i < last {
                assert(front[i] == walls[i]);
            }
        }
        if ray.visible_reach(walls) != ray.reach() {
            if ray.visible_reach(walls) == ray.visible_reach(front) {
                let i = choose|i: int|
                    0 <= i < front.len() && ray.stop(#[trigger] front[i]) == Some(
                        ray.visible_reach(front),
                    );
                assert(front[i] == walls[i]);
                assert(0 <= i < walls.len() && ray.stop(walls[i]) == Some(
                    ray.visible_reach(walls),
                ));
            } else {
                assert(0 <= last < walls.len() && ray.stop(walls[last]) == Some(
                    ray.visible_reach(walls),
                ));
            }
        }
    }
}

/// Two sequences with the same members, each as often as in the other, have
/// each member of the one among the members of the other.
pub proof fn lemma_same_walls(walls: Seq<LineModel>, reordered: Seq<LineModel>)
    requires
        walls.to_multiset() == reordered.to_multiset(),
    ensures
        forall|i: int| 0 <= i < reordered.len() ==> walls.contains(#[trigger] reordered[i]),
{
    assert forall|i: int| 0 <= i < reordered.len() implies walls.contains(
        #[trigger] reordered[i],
    ) by {
        assert(reordered.contains(reordered[i]));
        vstd::seq_lib::to_multiset_contains(reordered, reordered[i]);
        vstd::seq_lib::to_multiset_contains(walls, reordered[i]);
    }
}

/// Whether every wall is a segment, and the ray, cut down to the nearest
/// stop among the walls, would not end inside a wall that it runs down over.
pub open spec fn walls_admitted(ray: LineModel, walls: Seq<LineModel>) -> bool {
    forall|i: int|
        0 <= i < walls.len() ==> (#[trigger] walls[i]).well_formed() && !ray.ends_inside(
            ray.visible_reach(walls),
            walls[i],
        )
}

/// Casting at the walls in any order that casts cleanly leaves the ray
/// shortened to the nearest stop among walls that are admitted.
pub proof fn lemma_scene_cast_of_same_walls(
    ray: LineModel,
    walls: Seq<LineModel>,
    reordered: Seq<LineModel>,
)
    requires
        ray.well_formed(),
        walls_admitted(ray, walls),
        forall|i: int| 0 <= i < reordered.len() ==> walls.contains(#[trigger] reordered[i]),
        forall|i: int| 0 <= i < walls.len() ==> reordered.contains(#[trigger] walls[i]),
        ray.casts_cleanly(reordered),
    ensures
        ray.cast_in_scene(reordered) == ray.shortened(ray.visible_reach(walls)),
        0real < ray.visible_reach(walls) <= ray.reach(),
{
    let least = ray.visible_reach(walls);
    lemma_visible_reach_is_least(ray, walls);
    assert forall|i: int| 0 <= i < reordered.len() implies (#[trigger] reordered[i]).well_formed()
        && !ray.ends_inside(least, reordered[i]) && (ray.stop(reordered[i]) is Some ==> least
        <= ray.stop(reordered[i])->Some_0) by {
        assert(walls.contains(reordered[i]));
        let j = choose|j: int| 0 <= j < walls.len() && walls[j] == reordered[i];
        assert(walls[j].well_formed());
    }
    lemma_scene_cast_keeps_reach(ray, least, reordered);
    if least != ray.reach() {
        let i = choose|i: int|
            0 <= i < walls.len() && ray.stop(#[trigger] walls[i]) == Some(least);
        assert(reordered.contains(walls[i]));
        let j = choose|j: int| 0 <= j < reordered.len() && reordered[j] == walls[i];
        assert(ray.stop(reordered[j]) is Some);
    }
}

/// Casting at the walls of a scene leaves the ray shortened to the nearest
/// stop among the walls, or whole where no wall stops it. This is stated for
/// a ray that would not end inside a wall that it runs down over (see
/// [`LineModel::ends_inside`]).
pub proof fn law_scene_cast_stops_at_nearest_wall(ray: LineModel, walls: Seq<LineModel>)
    requires
        ray.well_formed(),
        walls_admitted(ray, walls),
        ray.casts_cleanly(walls),
    ensures
        ray.cast_in_scene(walls) == ray.shortened(ray.visible_reach(walls)),
        0real < ray.visible_reach(walls) <= ray.reach(),
{
    assert forall|i: int| 0 <= i < walls.len() implies walls.contains(#[trigger] walls[i]) by {}
    lemma_scene_cast_of_same_walls(ray, walls, walls);
}

/// The order of the walls does not matter: a ray cast at the same walls in
/// another order is left the same. This is stated for a ray that every cast
/// leaves something of, in both orders, and that would not end inside a wall
/// that it runs down over (see [`LineModel::ends_inside`]).
pub proof fn law_cast_in_scene_ignores_wall_order(
    ray: LineModel,
    walls: Seq<LineModel>,
    reordered: Seq<LineModel>,
)
    requires
        ray.well_formed(),
        walls_admitted(ray, walls),
        walls.to_multiset() == reordered.to_multiset(),
        ray.casts_cleanly(walls),
        ray.casts_cleanly(reordered),
    ensures
        ray.cast_in_scene(walls) == ray.cast_in_scene(reordered),
{
    lemma_same_walls(walls, reordered);
    lemma_same_walls(reordered, walls);
    law_scene_cast_stops_at_nearest_wall(ray, walls);
    lemma_scene_cast_of_same_walls(ray, walls, reordered);
}

/// The same for a ray whose origin is on none of the walls: such a ray casts
/// cleanly in every order.
pub proof fn law_cast_in_scene_ignores_wall_order_free_origin(
    ray: LineModel,
    walls: Seq<LineModel>,
    reordered: Seq<LineModel>,
)
    requires
        ray.well_formed(),
        walls_admitted(ray, walls),
        walls.to_multiset() == reordered.to_multiset(),
        forall|i: int| 0 <= i < walls.len() ==> !(#[trigger] walls[i]).holds(ray.origin()),
    ensures
        ray.casts_cleanly(walls),
        ray.casts_cleanly(reordered),
        ray.cast_in_scene(walls) == ray.cast_in_scene(reordered),
{
    lemma_same_walls(walls, reordered);
    assert forall|i: int| 0 <= i < reordered.len() implies (#[trigger] reordered[i]).well_formed()
        && !reordered[i].holds(ray.origin()) by {
        assert(walls.contains(reordered[i]));
        let j = choose|j: int| 0 <= j < walls.len() && walls[j] == reordered[i];
        assert(walls[j].well_formed());
    }
    law_free_origin_casts_cleanly(ray, walls);
    law_free_origin_casts_cleanly(ray, reordered);
    law_cast_in_scene_ignores_wall_order(ray, walls, reordered);
}

} // verus!
