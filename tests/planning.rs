use dubsearch::geometry::{
    arc_clears_obstacle, arc_length, circle_clears_obstacle, distance, isqrt,
    segment_clears_obstacle, strictly_inside,
};
use dubsearch::utils::{convert_landmarks_to_dubins_path, edge_cost, successors, SuccessorIter};
use dubsearch::{
    shortest_path_for_circle, shortest_path_for_point, Circle, DubinsPathSegment, Landmark, Point,
};

fn seg_start(s: &DubinsPathSegment) -> Point {
    match s {
        DubinsPathSegment::Line(a, _) => *a,
        DubinsPathSegment::LeftTurn(_, a, _) => *a,
        DubinsPathSegment::RightTurn(_, a, _) => *a,
    }
}

fn seg_end(s: &DubinsPathSegment) -> Point {
    match s {
        DubinsPathSegment::Line(_, b) => *b,
        DubinsPathSegment::LeftTurn(_, _, b) => *b,
        DubinsPathSegment::RightTurn(_, _, b) => *b,
    }
}

fn dist(a: Point, b: Point) -> f64 {
    let dx = (a.x as f64) - (b.x as f64);
    let dy = (a.y as f64) - (b.y as f64);
    (dx * dx + dy * dy).sqrt()
}

fn arc_len(c: &Circle, a: Point, b: Point, ccw: bool) -> f64 {
    let ta = ((a.y - c.center.y) as f64).atan2((a.x - c.center.x) as f64);
    let tb = ((b.y - c.center.y) as f64).atan2((b.x - c.center.x) as f64);
    let mut sweep = if ccw { tb - ta } else { ta - tb };
    while sweep < 0.0 {
        sweep += 2.0 * std::f64::consts::PI;
    }
    sweep * c.radius as f64
}

fn path_length(path: &[DubinsPathSegment]) -> f64 {
    path.iter()
        .map(|s| match s {
            DubinsPathSegment::Line(a, b) => dist(*a, *b),
            DubinsPathSegment::LeftTurn(c, a, b) => arc_len(c, *a, *b, true),
            DubinsPathSegment::RightTurn(c, a, b) => arc_len(c, *a, *b, false),
        })
        .sum()
}

fn elephant() -> Circle {
    Circle { center: Point::origin(), radius: 50 }
}

#[test]
fn free_plane_gives_one_line() {
    let o = Point::new(0, 0);
    let d = Point::new(3, 4);
    let path = shortest_path_for_point(o, d, &vec![]);
    assert_eq!(path, Some(vec![DubinsPathSegment::Line(o, d)]));
    assert_eq!(distance(o, d), 5);
}

#[test]
fn free_plane_negative_coordinates() {
    let o = Point::new(-7, 2);
    let d = Point::new(11, -9);
    let path = shortest_path_for_point(o, d, &vec![]);
    assert_eq!(path, Some(vec![DubinsPathSegment::Line(o, d)]));
}

#[test]
fn obstacle_off_the_line_is_ignored() {
    let o = Point::new(0, 0);
    let d = Point::new(100, 0);
    let far = Circle { center: Point::new(50, 30), radius: 10 };
    let path = shortest_path_for_point(o, d, &vec![far]);
    assert_eq!(path, Some(vec![DubinsPathSegment::Line(o, d)]));
}

#[test]
fn around_the_elephant() {
    let origin = Point::new(-100, 0);
    let destination = Point::new(100, 1);
    let path = shortest_path_for_circle(origin, destination, &vec![elephant()], 5)
        .expect("No path found!");
    assert_eq!(path.len(), 3);
    assert!(matches!(path[0], DubinsPathSegment::Line(_, _)));
    assert!(matches!(path[2], DubinsPathSegment::Line(_, _)));
    match path[1] {
        DubinsPathSegment::LeftTurn(c, _, _) | DubinsPathSegment::RightTurn(c, _, _) => {
            assert_eq!(c, Circle { center: Point::origin(), radius: 55 });
        }
        _ => panic!("the middle segment must be an arc"),
    }
    assert_eq!(seg_start(&path[0]), origin);
    assert_eq!(seg_end(&path[2]), destination);
    for i in 0..path.len() - 1 {
        assert_eq!(seg_end(&path[i]), seg_start(&path[i + 1]));
    }
    assert!(path_length(&path) > dist(origin, destination));
}

#[test]
fn disk_planner_equals_point_planner_on_grown_obstacles() {
    let origin = Point::new(-100, 0);
    let destination = Point::new(100, 1);
    let grown = vec![Circle { center: Point::origin(), radius: 55 }];
    assert_eq!(
        shortest_path_for_circle(origin, destination, &vec![elephant()], 5),
        shortest_path_for_point(origin, destination, &grown)
    );
}

#[test]
fn same_point_gives_empty_path() {
    let p = Point::new(100, -100);
    assert_eq!(shortest_path_for_point(p, p, &vec![elephant()]), Some(vec![]));
}

#[test]
fn destination_inside_obstacle_gives_none() {
    let origin = Point::new(-100, 0);
    assert_eq!(shortest_path_for_point(origin, Point::new(10, 10), &vec![elephant()]), None);
}

#[test]
fn origin_inside_obstacle_gives_none() {
    let destination = Point::new(100, 0);
    assert_eq!(shortest_path_for_point(Point::new(0, 49), destination, &vec![elephant()]), None);
}

#[test]
fn inflation_swallows_destination() {
    let origin = Point::new(-100, 0);
    let destination = Point::new(52, 0);
    assert!(shortest_path_for_point(origin, destination, &vec![elephant()]).is_some());
    assert_eq!(shortest_path_for_circle(origin, destination, &vec![elephant()], 5), None);
}

#[test]
fn floor_square_root() {
    assert_eq!(isqrt(0), 0);
    assert_eq!(isqrt(1), 1);
    assert_eq!(isqrt(15), 3);
    assert_eq!(isqrt(16), 4);
    assert_eq!(isqrt(u128::MAX), u64::MAX as u128);
}

#[test]
fn distances_round_down() {
    assert_eq!(distance(Point::new(0, 0), Point::new(1, 1)), 1);
    assert_eq!(distance(Point::new(i32::MIN, i32::MIN), Point::new(i32::MAX, i32::MAX)), 6074000998);
}

#[test]
fn boundary_counts_as_clear() {
    let c = Circle { center: Point::origin(), radius: 5 };
    assert!(segment_clears_obstacle(Point::new(-5, 5), Point::new(5, 5), &c));
    let bigger = Circle { center: Point::origin(), radius: 6 };
    assert!(!segment_clears_obstacle(Point::new(-5, 5), Point::new(5, 5), &bigger));
    assert!(!strictly_inside(Point::new(3, 4), &c));
    assert!(strictly_inside(Point::new(3, 3), &c));
}

#[test]
fn clearance_by_endpoint() {
    let c = Circle { center: Point::origin(), radius: 5 };
    assert!(segment_clears_obstacle(Point::new(6, 0), Point::new(20, 0), &c));
    assert!(!segment_clears_obstacle(Point::new(4, 0), Point::new(20, 0), &c));
    assert!(!segment_clears_obstacle(Point::new(-20, 0), Point::new(-4, 0), &c));
    assert!(!segment_clears_obstacle(Point::new(1, 1), Point::new(1, 1), &c));
}

#[test]
fn clearance_at_extreme_coordinates() {
    let c = Circle { center: Point::new(0, 0), radius: u32::MAX };
    assert!(!segment_clears_obstacle(Point::new(i32::MIN, 0), Point::new(i32::MAX, 0), &c));
    let small = Circle { center: Point::new(0, i32::MAX), radius: 1 };
    assert!(segment_clears_obstacle(Point::new(i32::MIN, i32::MIN), Point::new(i32::MAX, i32::MIN), &small));
}

#[test]
fn landmark_location_and_heuristic() {
    let c = Circle { center: Point::new(3, 4), radius: 2 };
    assert_eq!(*Landmark::LeftOf(c).location(), Point::new(3, 4));
    assert!(Landmark::RightOf(c).is_at(&Point::new(3, 4)));
    assert!(!Landmark::Origin(Point::new(0, 0)).is_at(&Point::new(3, 4)));
    assert_eq!(Landmark::Origin(Point::new(0, 0)).distance_to(&Point::new(3, 4)), 5);
    assert_eq!(Landmark::LeftOf(c).distance_to(&Point::new(30, 40)), 0);
}

#[test]
fn successors_of_the_origin() {
    let origin = Landmark::Origin(Point::new(-100, 0));
    let destination = Point::new(100, 1);
    let obstacles = vec![Circle { center: Point::origin(), radius: 55 }];
    let c = obstacles[0];
    let mut walk = SuccessorIter::new((origin, origin), destination, &obstacles);
    assert_eq!(walk.safe_cost_to(&Landmark::Destination(destination)), None);
    assert_eq!(walk.next(), Some(((origin, Landmark::LeftOf(c)), 83)));
    assert_eq!(walk.next(), Some(((origin, Landmark::RightOf(c)), 83)));
    assert_eq!(walk.next(), None);
    assert_eq!(
        successors((origin, origin), destination, &obstacles),
        vec![((origin, Landmark::LeftOf(c)), 83), ((origin, Landmark::RightOf(c)), 83)]
    );
}

#[test]
fn edge_cost_is_tangent_length() {
    let c = Circle { center: Point::origin(), radius: 3 };
    let from = Landmark::Origin(Point::new(5, 0));
    assert_eq!(edge_cost(&from, &from, &Landmark::LeftOf(c), &vec![c]), Some(4));
    let inner = Landmark::Origin(Point::new(1, 0));
    assert_eq!(edge_cost(&inner, &inner, &Landmark::LeftOf(c), &vec![c]), None);
}

#[test]
fn tangent_points_lie_on_the_circle() {
    let c = Circle { center: Point::origin(), radius: 15 };
    let path = convert_landmarks_to_dubins_path(vec![
        Landmark::Origin(Point::new(25, 0)),
        Landmark::LeftOf(c),
    ]);
    assert_eq!(path.len(), 1);
    match path[0] {
        DubinsPathSegment::Line(a, b) => {
            assert_eq!(a, Point::new(25, 0));
            assert_eq!(b, Point::new(9, 12));
            assert_eq!(b.x * b.x + b.y * b.y, 225);
        }
        _ => panic!("expected a line"),
    }
}

#[test]
fn convert_two_points() {
    let a = Point::new(1, 2);
    let b = Point::new(-3, 7);
    let path = convert_landmarks_to_dubins_path(vec![Landmark::Origin(a), Landmark::Destination(b)]);
    assert_eq!(path, vec![DubinsPathSegment::Line(a, b)]);
    assert_eq!(convert_landmarks_to_dubins_path(vec![Landmark::Origin(a)]), vec![]);
}

#[test]
fn left_and_right_turn_directions() {
    let origin = Point::new(-100, 0);
    let destination = Point::new(100, 0);
    let c = Circle { center: Point::origin(), radius: 55 };
    let left = convert_landmarks_to_dubins_path(vec![
        Landmark::Origin(origin),
        Landmark::LeftOf(c),
        Landmark::Destination(destination),
    ]);
    assert!(matches!(left[1], DubinsPathSegment::LeftTurn(_, _, _)));
    assert!(seg_start(&left[1]).y < 0);
    let right = convert_landmarks_to_dubins_path(vec![
        Landmark::Origin(origin),
        Landmark::RightOf(c),
        Landmark::Destination(destination),
    ]);
    assert!(matches!(right[1], DubinsPathSegment::RightTurn(_, _, _)));
    assert!(seg_start(&right[1]).y > 0);
}

#[test]
fn two_obstacles_in_a_row() {
    let origin = Point::new(-200, 0);
    let destination = Point::new(200, 0);
    let obstacles = vec![
        Circle { center: Point::new(-60, 5), radius: 30 },
        Circle { center: Point::new(60, -5), radius: 30 },
    ];
    let path = shortest_path_for_point(origin, destination, &obstacles).expect("a path");
    assert_eq!(seg_start(&path[0]), origin);
    assert_eq!(seg_end(&path[path.len() - 1]), destination);
    for i in 0..path.len() - 1 {
        assert_eq!(seg_end(&path[i]), seg_start(&path[i + 1]));
    }
    for s in &path {
        if let DubinsPathSegment::Line(a, b) = s {
            for o in &obstacles {
                let touches = (dist(*a, o.center) - o.radius as f64).abs() < 2.0
                    || (dist(*b, o.center) - o.radius as f64).abs() < 2.0;
                assert!(touches || segment_clears_obstacle(*a, *b, o));
            }
        }
    }
}

#[test]
fn circle_clearance_between_obstacles() {
    let c = Circle { center: Point::origin(), radius: 30 };
    assert!(circle_clears_obstacle(&c, &Circle { center: Point::new(50, 0), radius: 20 }));
    assert!(!circle_clears_obstacle(&c, &Circle { center: Point::new(49, 0), radius: 20 }));
    assert!(circle_clears_obstacle(&c, &Circle { center: Point::new(5, 0), radius: 25 }));
    assert!(!circle_clears_obstacle(&c, &Circle { center: Point::new(6, 0), radius: 25 }));
    assert!(circle_clears_obstacle(&c, &c));
}

#[test]
fn overlapping_obstacles_can_be_passed() {
    let origin = Landmark::Origin(Point::new(-100, 0));
    let a = Circle { center: Point::new(-10, 0), radius: 20 };
    let b = Circle { center: Point::new(10, 0), radius: 20 };
    let obstacles = vec![a, b];
    assert_eq!(edge_cost(&origin, &origin, &Landmark::LeftOf(a), &obstacles), Some(87));
    let path = shortest_path_for_point(Point::new(-100, 0), Point::new(100, 0), &obstacles)
        .expect("a path around the pair");
    assert_eq!(seg_start(&path[0]), Point::new(-100, 0));
    assert_eq!(seg_end(&path[path.len() - 1]), Point::new(100, 0));
    for i in 0..path.len() - 1 {
        assert_eq!(seg_end(&path[i]), seg_start(&path[i + 1]));
    }
}

#[test]
fn arc_blocked_by_a_neighbour() {
    let c = Circle { center: Point::origin(), radius: 100 };
    let o = Circle { center: Point::new(0, 110), radius: 20 };
    assert!(!arc_clears_obstacle(&c, true, Point::new(100, 0), Point::new(-100, 0), &o));
    assert!(arc_clears_obstacle(&c, false, Point::new(100, 0), Point::new(-100, 0), &o));
}

#[test]
fn arc_lengths() {
    let c = Circle { center: Point::origin(), radius: 100 };
    let quarter = arc_length(&c, true, Point::new(100, 0), Point::new(0, 100));
    assert!((quarter - 157).abs() <= 1);
    let three_quarters = arc_length(&c, false, Point::new(100, 0), Point::new(0, 100));
    assert!((three_quarters - 471).abs() <= 2);
    let half = arc_length(&c, true, Point::new(100, 0), Point::new(-100, 0));
    assert!((half - 314).abs() <= 1);
    assert_eq!(arc_length(&c, true, Point::new(100, 0), Point::new(100, 0)), 0);
}

#[test]
fn destination_walled_in_gives_none() {
    let wall = vec![
        Circle { center: Point::new(20, 0), radius: 15 },
        Circle { center: Point::new(0, 20), radius: 15 },
        Circle { center: Point::new(-20, 0), radius: 15 },
        Circle { center: Point::new(0, -20), radius: 15 },
    ];
    assert_eq!(shortest_path_for_point(Point::new(-200, 3), Point::origin(), &wall), None);
}

#[test]
fn reversed_trip_has_about_the_same_length() {
    let a = Point::new(-100, 0);
    let b = Point::new(100, 0);
    let obstacles = vec![Circle { center: Point::origin(), radius: 40 }];
    let there = shortest_path_for_point(a, b, &obstacles).expect("a path");
    let back = shortest_path_for_point(b, a, &obstacles).expect("a path");
    assert_eq!(there.len(), back.len());
    assert!((path_length(&there) - path_length(&back)).abs() < 4.0);
}

#[test]
fn elephant_is_passed_on_the_shorter_side() {
    let path = shortest_path_for_circle(Point::new(-100, 0), Point::new(100, 1), &vec![elephant()], 5)
        .expect("No path found!");
    match path[1] {
        DubinsPathSegment::RightTurn(c, s, e) => {
            assert_eq!(c, Circle { center: Point::origin(), radius: 55 });
            assert!(s.y > 0 && e.y > 0);
        }
        _ => panic!("expected a clockwise arc north of the obstacle"),
    }
}

#[test]
fn zero_radius_disk_plans_like_a_point() {
    let origin = Point::new(-100, 0);
    let destination = Point::new(100, 1);
    let obstacles = vec![elephant(), Circle { center: Point::new(60, 40), radius: 10 }];
    assert_eq!(
        shortest_path_for_circle(origin, destination, &obstacles, 0),
        shortest_path_for_point(origin, destination, &obstacles)
    );
}

#[test]
fn path_cost_counts_the_arc() {
    let origin = Point::new(-100, 0);
    let destination = Point::new(100, 1);
    let path = shortest_path_for_circle(origin, destination, &vec![elephant()], 5).expect("a path");
    let total = path_length(&path);
    assert!(total > 225.0 && total < 235.0);
}

#[test]
fn half_circle_of_radius_thousand() {
    let c = Circle { center: Point::origin(), radius: 1000 };
    let half = arc_length(&c, true, Point::new(1000, 0), Point::new(-1000, 0));
    assert!(half == 3141 || half == 3142);
    let most = arc_length(&c, true, Point::new(1000, 0), Point::new(0, -1000));
    assert!((most - 4712).abs() <= 1);
}

#[test]
fn staying_put_is_a_move_of_length_zero() {
    let p = Point::new(7, -3);
    let origin = Landmark::Origin(p);
    let obstacles = vec![Circle { center: Point::new(50, 50), radius: 10 }];
    let walk = SuccessorIter::new((origin, origin), p, &obstacles);
    assert_eq!(walk.safe_cost_to(&Landmark::Destination(p)), Some(0));
    assert_eq!(
        convert_landmarks_to_dubins_path(vec![origin, Landmark::Destination(p)]),
        vec![DubinsPathSegment::Line(p, p)]
    );
    let there = Landmark::Destination(p);
    assert_eq!(edge_cost(&there, &there, &there, &obstacles), None);
}
