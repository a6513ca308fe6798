use sightline::line::{Line, LineInner};
use sightline::point::{GeometryError, Point, Ratio};
use sightline::scalar::Scalar;
use sightline::scene::Scene;

fn whole(v: i64) -> Ratio {
    Ratio::whole(v)
}

fn point(x: Ratio, y: Ratio) -> Point {
    Point::from((x, y)).unwrap()
}

fn grid_point(x: i64, y: i64) -> Point {
    point(whole(x), whole(y))
}

fn grid_line(x1: i64, y1: i64, x2: i64, y2: i64) -> Line {
    Line::new(whole(x1), whole(y1), whole(x2), whole(y2)).unwrap()
}

#[test]
fn same_line_intersect() {
    let l1 = grid_line(0, 0, 1, 1);

    let l2 = grid_line(1, 1, 2, 2);

    assert_eq!(l1.point_of_intersection(&l2), Some(grid_point(1, 1)));
}

#[test]
fn same_slope_no_intersect() {
    let l1 = grid_line(0, 1, 1, 2);

    let l2 = grid_line(1, 1, 2, 2);

    assert_eq!(l1.point_of_intersection(&l2), None);
}

#[test]
fn different_slope_intersect() {
    let l1 = grid_line(0, -1, 1, 1);

    let l2 = grid_line(0, 0, 2, 2);

    assert_eq!(l1.point_of_intersection(&l2), Some(grid_point(1, 1)));
}

#[test]
fn would_intersect_but_too_short() {
    let l1 = grid_line(0, -1, 5, 9);

    let l2 = grid_line(0, 1, 1, 2);

    assert_eq!(l1.point_of_intersection(&l2), None);
}

#[test]
fn test_scene_ltr() {
    let mut scene = Scene::new();

    scene.add_line_no_graphics(grid_point(0, 0), grid_point(1, 1)).unwrap();
    scene.add_line_no_graphics(grid_point(1, -1), grid_point(2, 0)).unwrap();

    let line = grid_line(0, 1, 3, -2);

    let line_after_intersect = line.cast_in_scene(&scene);

    let expected = Line::new(whole(0), whole(1), Ratio::new(1, 2), Ratio::new(1, 2)).unwrap();

    assert_eq!(line_after_intersect, expected);
}

#[test]
fn test_scene_rtl() {
    let mut scene = Scene::new();

    scene.add_line_no_graphics(grid_point(1, -1), grid_point(2, 0)).unwrap();
    scene.add_line_no_graphics(grid_point(0, 0), grid_point(1, 1)).unwrap();

    let line = grid_line(3, -2, 0, 1);

    let line_after_intersect = line.cast_in_scene(&scene);

    let expected = Line::new(whole(3), whole(-2), Ratio::new(3, 2), Ratio::new(-1, 2)).unwrap();

    assert_eq!(line_after_intersect, expected);
}

#[test]
fn scene_result_does_not_depend_on_wall_order() {
    let mut first = Scene::new();
    first.add_line_no_graphics(grid_point(0, 0), grid_point(1, 1)).unwrap();
    first.add_line_no_graphics(grid_point(1, -1), grid_point(2, 0)).unwrap();
    let mut second = Scene::new();
    second.add_line_no_graphics(grid_point(1, -1), grid_point(2, 0)).unwrap();
    second.add_line_no_graphics(grid_point(0, 0), grid_point(1, 1)).unwrap();

    let ray = grid_line(0, 1, 3, -2);
    let expected = Line::new(whole(0), whole(1), Ratio::new(1, 2), Ratio::new(1, 2)).unwrap();

    assert_eq!(ray.cast_in_scene(&first), expected);
    assert_eq!(ray.cast_in_scene(&second), expected);
    let (left, right) = expected.endpoints();
    assert_eq!(left, grid_point(0, 1));
    assert_eq!(right, point(Ratio::new(1, 2), Ratio::new(1, 2)));
}

#[test]
fn three_walls_in_every_order_leave_the_same_ray() {
    let walls = [(2, -1, 2, 1), (4, -3, 6, 3), (1, 5, 3, -5), (7, 1, 9, 1)];
    let orders = [[0, 1, 2, 3], [3, 2, 1, 0], [2, 0, 3, 1], [1, 3, 0, 2]];
    let ray = grid_line(0, 0, 10, 0);
    let expected = Line::new(whole(0), whole(0), whole(2), whole(0)).unwrap();
    for order in orders {
        let mut scene = Scene::new();
        for i in order {
            let (x1, y1, x2, y2) = walls[i];
            scene.add_line_no_graphics(grid_point(x1, y1), grid_point(x2, y2)).unwrap();
        }
        assert_eq!(ray.cast_in_scene(&scene), expected);
        assert_eq!(ray.try_cast_in_scene(&scene), Some(expected.clone()));
    }
}

#[test]
fn empty_scene_returns_the_ray() {
    let scene = Scene::new();
    let ray = grid_line(0, 1, 3, -2);
    assert_eq!(ray.cast_in_scene(&scene), ray);
    let upright = grid_line(2, 5, 2, -5);
    assert_eq!(upright.cast_in_scene(&scene), upright);
    assert_eq!(upright.try_cast_in_scene(&scene), Some(upright.clone()));
}

#[test]
fn cast_to_line_never_lengthens() {
    let ray = grid_line(0, 0, 10, 5);
    let wall = grid_line(4, 0, 4, 10);
    let cut = ray.cast_to_line(&wall);
    let (left, right) = cut.endpoints();
    assert_eq!(left, grid_point(0, 0));
    assert_eq!(right, grid_point(4, 2));
    assert_eq!(cut.origin(), ray.origin());

    let miss = grid_line(4, 3, 4, 10);
    assert_eq!(ray.cast_to_line(&miss), ray);
}

#[test]
fn cast_to_line_keeps_the_origin_of_a_ray_that_runs_left() {
    let ray = grid_line(10, 5, 0, 0);
    let wall = grid_line(4, 0, 4, 10);
    let cut = ray.cast_to_line(&wall);
    let (left, right) = cut.endpoints();
    assert_eq!(left, grid_point(4, 2));
    assert_eq!(right, grid_point(10, 5));
    assert_eq!(cut.origin(), grid_point(10, 5));
    assert_eq!(cut, grid_line(10, 5, 4, 2));
}

#[test]
fn vertical_ray_is_cut_by_a_sloped_wall() {
    let ray = grid_line(1, 0, 1, 10);
    let wall = grid_line(0, 2, 2, 4);
    assert_eq!(ray.point_of_intersection(&wall), Some(grid_point(1, 3)));
    assert_eq!(wall.point_of_intersection(&ray), Some(grid_point(1, 3)));
    assert_eq!(ray.cast_to_line(&wall), grid_line(1, 0, 1, 3));

    let down = grid_line(1, 10, 1, 0);
    assert_eq!(down.cast_to_line(&wall), grid_line(1, 10, 1, 3));
    assert_eq!(down.cast_to_line(&wall).origin(), grid_point(1, 10));
}

#[test]
fn vertical_and_sloped_miss_outside_either_span() {
    let upright = grid_line(3, 0, 3, 1);
    let sloped = grid_line(0, 0, 2, 2);
    assert_eq!(upright.point_of_intersection(&sloped), None);
    assert_eq!(sloped.point_of_intersection(&upright), None);

    let short = grid_line(1, 5, 1, 6);
    assert_eq!(short.point_of_intersection(&sloped), None);
    assert_eq!(sloped.point_of_intersection(&short), None);
}

#[test]
fn vertical_segments_meet_only_on_one_line() {
    let a = grid_line(0, 0, 0, 10);
    let b = grid_line(0, 1, 0, 2);
    let c = grid_line(1, 1, 1, 2);
    assert_eq!(a.point_of_intersection(&b), Some(grid_point(0, 1)));
    assert_eq!(a.point_of_intersection(&c), None);
    // The other's upper endpoint, where its lower one is outside.
    let d = grid_line(0, -5, 0, 4);
    assert_eq!(a.point_of_intersection(&d), Some(grid_point(0, 4)));
    let e = grid_line(0, 11, 0, 12);
    assert_eq!(a.point_of_intersection(&e), None);
    // A segment that covers this one on both sides has no endpoint inside.
    let f = grid_line(0, -1, 0, 11);
    assert_eq!(a.point_of_intersection(&f), None);
}

#[test]
fn vertical_overlap_does_not_follow_the_direction() {
    let down = grid_line(0, 10, 0, 0);
    let wall = grid_line(0, 1, 0, 2);
    assert_eq!(down.point_of_intersection(&wall), Some(grid_point(0, 1)));
}

#[test]
fn segments_on_one_line_answer_with_their_own_endpoint() {
    let a = grid_line(0, 0, 4, 4);
    let b = grid_line(2, 2, 6, 6);
    // a's left endpoint is outside b, its right endpoint inside.
    assert_eq!(a.point_of_intersection(&b), Some(grid_point(4, 4)));
    // b's left endpoint is inside a.
    assert_eq!(b.point_of_intersection(&a), Some(grid_point(2, 2)));
    // Both are points of the overlap from (2, 2) to (4, 4).
    let apart = grid_line(5, 5, 6, 6);
    assert_eq!(a.point_of_intersection(&apart), None);
    // A segment that covers the other on both sides has no endpoint inside.
    let inner = grid_line(1, 1, 2, 2);
    assert_eq!(a.point_of_intersection(&inner), None);
    assert_eq!(inner.point_of_intersection(&a), Some(grid_point(1, 1)));
}

#[test]
fn crossing_segments_meet_in_the_same_point_either_way() {
    let a = grid_line(0, 0, 3, 1);
    let b = grid_line(0, 1, 3, 0);
    let expected = Some(point(Ratio::new(3, 2), Ratio::new(1, 2)));
    assert_eq!(a.point_of_intersection(&b), expected);
    assert_eq!(b.point_of_intersection(&a), expected);
}

#[test]
fn from_points_computes_slope_and_intercept() {
    // Through (1, 1) and (3, 2): slope 1/2, intercept 1/2.
    let line = Line::from_points(grid_point(3, 2), grid_point(1, 1)).unwrap();
    let (left, right) = line.endpoints();
    assert_eq!(left, grid_point(1, 1));
    assert_eq!(right, grid_point(3, 2));
    assert_eq!(line.origin(), grid_point(3, 2));
    let upright = grid_line(2, 0, 2, 2);
    assert_eq!(line.point_of_intersection(&upright), Some(point(whole(2), Ratio::new(3, 2))));
    let low = grid_line(2, 0, 2, 1);
    assert_eq!(line.point_of_intersection(&low), None);
    let axis = grid_line(0, -1, 0, 1);
    assert_eq!(line.point_of_intersection(&axis), None);
}

#[test]
fn from_points_routes_equal_x_to_a_vertical_segment() {
    let line = Line::from_points(grid_point(2, 7), grid_point(2, -1)).unwrap();
    let (bottom, top) = line.endpoints();
    assert_eq!(bottom, grid_point(2, -1));
    assert_eq!(top, grid_point(2, 7));
    assert_eq!(line.origin(), grid_point(2, 7));
    assert_eq!(line, grid_line(2, 7, 2, -1));
    let inner = LineInner::from_points(grid_point(2, 7), grid_point(2, -1)).unwrap();
    assert_eq!(inner, LineInner::new(whole(2), whole(7), whole(2), whole(-1)).unwrap());
    assert_eq!(inner.origin(), grid_point(2, 7));
    assert_eq!(inner.endpoints(), (grid_point(2, -1), grid_point(2, 7)));
}

#[test]
fn equal_points_make_no_segment() {
    assert_eq!(
        Line::from_points(grid_point(1, 2), grid_point(1, 2)),
        Err(GeometryError::DegenerateSegment)
    );
    assert_eq!(
        Line::new(Ratio::new(1, 2), whole(3), Ratio::new(2, 4), Ratio::new(6, 2)),
        Err(GeometryError::DegenerateSegment)
    );
    assert_eq!(
        LineInner::from_points(grid_point(0, 0), grid_point(0, 0)),
        Err(GeometryError::DegenerateSegment)
    );
}

#[test]
fn a_coordinate_without_a_value_is_refused() {
    assert_eq!(Point::from((Ratio::new(1, 0), whole(1))), Err(GeometryError::InvalidCoordinate));
    assert_eq!(Point::from((whole(1), Ratio::new(0, 0))), Err(GeometryError::InvalidCoordinate));
    assert_eq!(
        Line::new(whole(0), whole(0), whole(1), Ratio::new(5, 0)),
        Err(GeometryError::InvalidCoordinate)
    );
    // The coordinates are looked at before the points are compared.
    assert_eq!(
        Line::new(Ratio::new(0, 0), whole(0), Ratio::new(0, 0), whole(0)),
        Err(GeometryError::InvalidCoordinate)
    );
    assert_eq!(
        LineInner::new(whole(0), Ratio::new(1, 0), whole(1), whole(1)),
        Err(GeometryError::InvalidCoordinate)
    );
}

#[test]
fn point_from_reads_fractions() {
    let p = point(Ratio::new(2, 4), Ratio::new(-3, -9));
    assert_eq!(p, point(Ratio::new(1, 2), Ratio::new(1, 3)));
    assert_eq!(*p.x(), Scalar::from_parts(1, 2));
    assert_eq!(*p.y(), Scalar::from_parts(1, 3));
    assert_eq!(Point::new(Scalar::from_parts(1, 2), Scalar::from_parts(1, 3)), p);
}

#[test]
fn min_by_x_prefers_the_first_on_a_tie() {
    let a = grid_point(1, 5);
    let b = grid_point(1, 9);
    assert_eq!(a.clone().min_by_x(b.clone()), a);
    assert_eq!(b.clone().min_by_x(a.clone()), b);
    let c = grid_point(0, 0);
    assert_eq!(a.clone().min_by_x(c.clone()), c);
    assert_eq!(c.clone().min_by_x(a), c);
}

#[test]
fn translate_adds_the_vector() {
    let p = point(Ratio::new(1, 2), whole(-1));
    let d = point(Ratio::new(1, 3), whole(4));
    assert_eq!(p.translate(&d), point(Ratio::new(5, 6), whole(3)));
}

#[test]
fn offset_moves_both_shapes() {
    let mut sloped = grid_line(0, 0, 2, 4);
    sloped.offset(whole(1), whole(-1));
    assert_eq!(sloped, grid_line(1, -1, 3, 3));

    let mut back = grid_line(2, 4, 0, 0);
    back.offset(Ratio::new(1, 2), whole(0));
    assert_eq!(back, Line::new(Ratio::new(5, 2), whole(4), Ratio::new(1, 2), whole(0)).unwrap());

    let mut upright = grid_line(1, 5, 1, 2);
    upright.offset(whole(-1), whole(10));
    assert_eq!(upright, grid_line(0, 15, 0, 12));
}

#[test]
fn a_wall_through_the_origin_leaves_nothing() {
    let ray = grid_line(0, 0, 4, 4);
    let through_origin = grid_line(-1, 1, 1, -1);
    assert!(ray.hits_origin(&through_origin));
    let further = grid_line(1, 3, 3, 1);
    assert!(!ray.hits_origin(&further));
    let apart = grid_line(10, 0, 11, 5);
    assert!(!ray.hits_origin(&apart));

    let mut scene = Scene::new();
    scene.add_line_no_graphics(grid_point(1, 3), grid_point(3, 1)).unwrap();
    assert_eq!(ray.try_cast_in_scene(&scene), Some(grid_line(0, 0, 2, 2)));
    scene.add_line_no_graphics(grid_point(-1, 1), grid_point(1, -1)).unwrap();
    assert_eq!(ray.try_cast_in_scene(&scene), None);
}

#[test]
fn scene_starts_empty() {
    let scene = Scene::new();
    assert_eq!(scene.walls().len(), 0);
    assert_eq!(*scene.last_point(), None);
}

#[test]
fn scene_keeps_walls_in_order_and_the_last_point() {
    let mut scene = Scene::new();
    assert_eq!(scene.add_line_no_graphics(grid_point(0, 0), grid_point(1, 1)), Ok(()));
    assert_eq!(scene.add_line_no_graphics(grid_point(5, 0), grid_point(5, 3)), Ok(()));
    assert_eq!(scene.walls().len(), 2);
    assert_eq!(scene.walls()[0], grid_line(0, 0, 1, 1));
    assert_eq!(scene.walls()[1], grid_line(5, 0, 5, 3));
    assert_eq!(*scene.last_point(), Some(grid_point(5, 3)));
}

#[test]
fn continuous_add_needs_a_last_point() {
    let mut scene = Scene::new();
    assert_eq!(scene.add_line_continuous_no_graphics(grid_point(1, 1)), Ok(()));
    assert_eq!(scene.walls().len(), 0);
    assert_eq!(*scene.last_point(), None);

    scene.add_line_no_graphics(grid_point(0, 0), grid_point(1, 1)).unwrap();
    assert_eq!(scene.add_line_continuous_no_graphics(grid_point(3, 0)), Ok(()));
    assert_eq!(scene.walls().len(), 2);
    assert_eq!(scene.walls()[1], grid_line(1, 1, 3, 0));
    assert_eq!(*scene.last_point(), Some(grid_point(3, 0)));
}

#[test]
fn a_degenerate_wall_leaves_the_scene_as_it_was() {
    let mut scene = Scene::new();
    scene.add_line_no_graphics(grid_point(0, 0), grid_point(1, 1)).unwrap();
    assert_eq!(
        scene.add_line_no_graphics(grid_point(2, 2), grid_point(2, 2)),
        Err(GeometryError::DegenerateSegment)
    );
    assert_eq!(
        scene.add_line_continuous_no_graphics(grid_point(1, 1)),
        Err(GeometryError::DegenerateSegment)
    );
    assert_eq!(scene.walls().len(), 1);
    assert_eq!(*scene.last_point(), Some(grid_point(1, 1)));
}

#[test]
fn line_inner_casts_like_line() {
    let mut scene = Scene::new();
    scene.add_line_no_graphics(grid_point(0, 0), grid_point(1, 1)).unwrap();
    scene.add_line_no_graphics(grid_point(1, -1), grid_point(2, 0)).unwrap();
    let ray = LineInner::new(whole(0), whole(1), whole(3), whole(-2)).unwrap();
    let expected = LineInner::new(whole(0), whole(1), Ratio::new(1, 2), Ratio::new(1, 2)).unwrap();
    assert_eq!(ray.cast_in_scene(&scene), expected);
    let wall = LineInner::new(whole(0), whole(0), whole(1), whole(1)).unwrap();
    assert!(!ray.hits_origin(&wall));
    assert_eq!(ray.cast_to_line(&wall), expected);
    assert_eq!(
        ray.point_of_intersection(&wall),
        Some(point(Ratio::new(1, 2), Ratio::new(1, 2)))
    );
    let mut moved = ray.clone();
    moved.offset(whole(1), whole(1));
    assert_eq!(moved, LineInner::new(whole(1), whole(2), whole(4), whole(-1)).unwrap());
}

#[test]
fn many_casts_keep_the_numbers_small() {
    // Walls further and further in: each one cuts the ray again.
    let mut scene = Scene::new();
    let mut x = 40;
    while x >= 1 {
        scene.add_line_no_graphics(grid_point(x, -1), grid_point(x, 1)).unwrap();
        x -= 1;
    }
    let ray = Line::new(whole(0), whole(0), whole(50), Ratio::new(1, 3)).unwrap();
    let cut = ray.cast_in_scene(&scene);
    let (left, right) = cut.endpoints();
    assert_eq!(left, grid_point(0, 0));
    assert_eq!(right, point(whole(1), Ratio::new(1, 150)));
    assert_eq!(right.y().denominator().magnitude(), vec![150]);
}

#[test]
fn many_offsets_keep_the_numbers_small() {
    let mut ray = Line::new(whole(0), whole(0), Ratio::new(7, 3), Ratio::new(5, 11)).unwrap();
    let mut i = 0;
    while i < 200 {
        ray.offset(whole(1), whole(-1));
        i += 1;
    }
    let expected =
        Line::new(whole(200), whole(-200), Ratio::new(607, 3), Ratio::new(-2195, 11)).unwrap();
    assert_eq!(ray, expected);
    let (left, right) = ray.endpoints();
    assert_eq!(left, grid_point(200, -200));
    assert_eq!(right.y().denominator().magnitude(), vec![11]);
    assert_eq!(right.x().denominator().magnitude(), vec![3]);
}

#[test]
fn a_ray_passes_along_a_wall_on_its_own_line() {
    let ray = grid_line(0, 0, 10, 10);
    let wall = grid_line(2, 2, 4, 4);
    assert_eq!(ray.point_of_intersection(&wall), None);
    assert_eq!(ray.cast_to_line(&wall), ray);
    // A wall that holds the far end answers with the far end: nothing is cut.
    let beyond = grid_line(8, 8, 12, 12);
    assert_eq!(ray.point_of_intersection(&beyond), Some(grid_point(10, 10)));
    assert_eq!(ray.cast_to_line(&beyond), ray);
}

#[test]
fn an_upward_ray_stops_at_the_near_end_of_a_wall_on_its_line() {
    let ray = grid_line(0, 0, 0, 10);
    let mut first = Scene::new();
    first.add_line_no_graphics(grid_point(0, 1), grid_point(0, 3)).unwrap();
    first.add_line_no_graphics(grid_point(-1, 2), grid_point(1, 2)).unwrap();
    let mut second = Scene::new();
    second.add_line_no_graphics(grid_point(-1, 2), grid_point(1, 2)).unwrap();
    second.add_line_no_graphics(grid_point(0, 1), grid_point(0, 3)).unwrap();
    assert_eq!(ray.cast_in_scene(&first), grid_line(0, 0, 0, 1));
    assert_eq!(ray.cast_in_scene(&second), grid_line(0, 0, 0, 1));
}

#[test]
fn a_downward_ray_over_a_wall_on_its_line_depends_on_the_order() {
    // The wall from (0, 1) to (0, 3) lies inside the ray, below its origin.
    // While the ray still reaches the wall's lower end it is cut there;
    // once it is shorter, it is cut at the upper end.
    let ray = grid_line(0, 10, 0, 0);
    let mut first = Scene::new();
    first.add_line_no_graphics(grid_point(0, 1), grid_point(0, 3)).unwrap();
    first.add_line_no_graphics(grid_point(-1, 2), grid_point(1, 2)).unwrap();
    let mut second = Scene::new();
    second.add_line_no_graphics(grid_point(-1, 2), grid_point(1, 2)).unwrap();
    second.add_line_no_graphics(grid_point(0, 1), grid_point(0, 3)).unwrap();
    assert_eq!(ray.cast_in_scene(&first), grid_line(0, 10, 0, 2));
    assert_eq!(ray.cast_in_scene(&second), grid_line(0, 10, 0, 3));
}

#[test]
fn a_common_point_off_one_line_is_found_from_both_sides() {
    // The segments share only the endpoint (2, 1).
    let a = grid_line(0, 0, 2, 1);
    let b = grid_line(2, 1, 2, 5);
    let c = grid_line(2, 1, 3, -4);
    assert_eq!(a.point_of_intersection(&b), Some(grid_point(2, 1)));
    assert_eq!(b.point_of_intersection(&a), Some(grid_point(2, 1)));
    assert_eq!(a.point_of_intersection(&c), Some(grid_point(2, 1)));
    assert_eq!(c.point_of_intersection(&a), Some(grid_point(2, 1)));
}

#[test]
fn a_downward_ray_that_ends_before_a_wall_on_its_line_ignores_the_order() {
    // The wall from (0, 1) to (0, 3) lies inside the ray, but the ray ends
    // at (0, 5), before it reaches the wall.
    let ray = grid_line(0, 10, 0, 0);
    let mut first = Scene::new();
    first.add_line_no_graphics(grid_point(0, 1), grid_point(0, 3)).unwrap();
    first.add_line_no_graphics(grid_point(-1, 5), grid_point(1, 5)).unwrap();
    let mut second = Scene::new();
    second.add_line_no_graphics(grid_point(-1, 5), grid_point(1, 5)).unwrap();
    second.add_line_no_graphics(grid_point(0, 1), grid_point(0, 3)).unwrap();
    assert_eq!(ray.cast_in_scene(&first), grid_line(0, 10, 0, 5));
    assert_eq!(ray.cast_in_scene(&second), grid_line(0, 10, 0, 5));

    // Alone, the wall cuts the ray at its lower end.
    let mut alone = Scene::new();
    alone.add_line_no_graphics(grid_point(0, 1), grid_point(0, 3)).unwrap();
    assert_eq!(ray.cast_in_scene(&alone), grid_line(0, 10, 0, 1));
}
