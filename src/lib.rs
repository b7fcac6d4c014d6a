//! Minimum-length path planning on a 2D plane among circular obstacles.
//!
//! Rather than rendering obstacles into an occupancy grid, the planner treats every
//! obstacle as a pair of landmarks (pass it counter-clockwise, pass it clockwise) and
//! searches for the cheapest sequence of landmarks joined by collision-free tangent lines and
//! the arcs around obstacles between them. The resulting path is a Dubins-style sequence of
//! straight lines and circular arcs, with integer end points.
use vstd::prelude::*;

use crate::geometry::{distance, strictly_inside, strictly_inside_spec};
use crate::utils::{
    convert_landmarks_to_dubins_path, is_route, is_shortest_route, landmarks_of,
    lemma_route_links, path_segments, route_cost, route_of, successors, SearchState,
};

pub mod geometry;
pub mod laws;
pub mod utils;

verus! {

/// A point of the plane with integer coordinates.
#[derive(Clone, Copy, Debug, PartialEq, Eq, Hash, Structural)]
pub struct Point {
    pub x: i32,
    pub y: i32,
}

impl Point {
    /// The point at `(x, y)`.
    pub fn new(x: i32, y: i32) -> (r: Point)
        ensures
            r == (Point { x, y }),
    {
        Point { x, y }
    }

    /// The point at `(0, 0)`.
    pub fn origin() -> (r: Point)
        ensures
            r == (Point { x: 0, y: 0 }),
    {
        Point { x: 0, y: 0 }
    }
}

/// The set of points some fixed distance away from a single center point.
#[derive(Clone, Copy, Debug, PartialEq, Eq, Hash, Structural)]
pub struct Circle {
    /// The point from which the distances to points in the set are measured.
    pub center: Point,
    /// The distance between the points in the set and the center.
    pub radius: u32,
}

/// Landmarks are a means of discretizing the search space without building an occupancy grid.
#[derive(Clone, Copy, Debug, PartialEq, Eq, Hash, Structural)]
pub enum Landmark {
    /// Where the search begins.
    Origin(Point),
    /// Where the search is trying to find a path to.
    Destination(Point),
    /// An obstacle that the path winds around counter-clockwise (a left turn).
    LeftOf(Circle),
    /// An obstacle that the path winds around clockwise (a right turn).
    RightOf(Circle),
}

/// Dubins paths are made of straight lines and circular arcs, which makes them an ideal
/// representation of the shortest path amidst a field of circular obstacles.
#[derive(Clone, Copy, Debug, PartialEq, Eq, Hash, Structural)]
pub enum DubinsPathSegment {
    /// A bounded segment of the geometric primitive known as a line.
    Line(Point, Point),
    /// A circular arc, beginning at the first point and continuing counter-clockwise to the second.
    LeftTurn(Circle, Point, Point),
    /// A circular arc, beginning at the first point and continuing clockwise to the second.
    RightTurn(Circle, Point, Point),
}

impl DubinsPathSegment {
    /// Where the segment begins.
    pub open spec fn start(self) -> Point {
        match self {
            DubinsPathSegment::Line(a, _) => a,
            DubinsPathSegment::LeftTurn(_, a, _) => a,
            DubinsPathSegment::RightTurn(_, a, _) => a,
        }
    }

    /// Where the segment ends.
    pub open spec fn end(self) -> Point {
        match self {
            DubinsPathSegment::Line(_, b) => b,
            DubinsPathSegment::LeftTurn(_, _, b) => b,
            DubinsPathSegment::RightTurn(_, _, b) => b,
        }
    }
}

impl Landmark {
    /// The point a landmark stands at: a free point, or the center of its obstacle.
    pub open spec fn location_spec(self) -> Point {
        match self {
            Landmark::Origin(pt) => pt,
            Landmark::Destination(pt) => pt,
            Landmark::LeftOf(o) => o.center,
            Landmark::RightOf(o) => o.center,
        }
    }

    /// The radius of the landmark's circle, positive when it is passed counter-clockwise,
    /// negative when clockwise, and zero for a free point.
    pub open spec fn signed_radius(self) -> int {
        match self {
            Landmark::Origin(_) => 0,
            Landmark::Destination(_) => 0,
            Landmark::LeftOf(o) => o.radius as int,
            Landmark::RightOf(o) => -(o.radius as int),
        }
    }

    /// The landmark is one of the two sides of obstacle `o`.
    pub open spec fn is_side_of(self, o: Circle) -> bool {
        self == Landmark::LeftOf(o) || self == Landmark::RightOf(o)
    }

    /// The landmark winds around an obstacle.
    pub open spec fn is_obstacle(self) -> bool {
        self is LeftOf || self is RightOf
    }

    /// A lower bound on the search cost left from this landmark to `target`: the straight
    /// distance for a free point, and zero for an obstacle, whose tangent points lie anywhere
    /// on its circle.
    pub open spec fn distance_to_spec(self, target: Point) -> int {
        if self.is_obstacle() {
            0
        } else {
            crate::geometry::distance_spec(self.location_spec(), target)
        }
    }

    /// The point the landmark stands at.
    pub fn location(&self) -> (r: &Point)
        ensures
            *r == self.location_spec(),
    {
        match self {
            Landmark::Origin(pt) => pt,
            Landmark::Destination(pt) => pt,
            Landmark::LeftOf(o) => &o.center,
            Landmark::RightOf(o) => &o.center,
        }
    }

    /// The landmark's signed radius.
    pub fn signed_radius_of(&self) -> (r: i64)
        ensures
            r as int == self.signed_radius(),
            -0x1_0000_0000 < r < 0x1_0000_0000,
    {
        match self {
            Landmark::Origin(_) => 0,
            Landmark::Destination(_) => 0,
            Landmark::LeftOf(o) => o.radius as i64,
            Landmark::RightOf(o) => -(o.radius as i64),
        }
    }

    /// The radius of the landmark's circle; zero for a free point.
    pub fn radius_of(&self) -> (r: u32)
        ensures
            r as int == crate::utils::wound_circle(*self).radius,
    {
        match self {
            Landmark::LeftOf(o) => o.radius,
            Landmark::RightOf(o) => o.radius,
            _ => 0,
        }
    }

    /// The search heuristic: a lower bound on the cost left from this landmark to `target`.
    pub fn distance_to(&self, target: &Point) -> (r: i64)
        ensures
            r as int == self.distance_to_spec(*target),
    {
        match self {
            Landmark::LeftOf(_) => 0,
            Landmark::RightOf(_) => 0,
            _ => distance(*self.location(), *target),
        }
    }

    /// Tells whether the landmark stands at `point`.
    pub fn is_at(&self, point: &Point) -> (r: bool)
        ensures
            r == (self.location_spec() == *point),
    {
        *self.location() == *point
    }
}

/// The most obstacles a query may hold, so that every path cost fits in an `i64`: a cheapest
/// path visits each of the fewer than `(2 * n + 2)^2 < 2^22` search states once, at under
/// `2^41` each.
pub const MAX_OBSTACLES: usize = 1000;

/// `p` lies strictly inside one of the obstacles.
pub open spec fn inside_some(p: Point, obstacles: Seq<Circle>) -> bool {
    exists|i: int| 0 <= i < obstacles.len() && strictly_inside_spec(p, #[trigger] obstacles[i])
}

/// The view of a planner's answer.
pub open spec fn answer_view(r: Option<Vec<DubinsPathSegment>>) -> Option<Seq<DubinsPathSegment>> {
    match r {
        Some(v) => Some(v@),
        None => None,
    }
}

/// What a planner answers for a point mover going from `origin` to `destination`: nothing when
/// either end lies strictly inside an obstacle; the empty path when they coincide; otherwise
/// the path through a route of least cost, or nothing when no route exists.
pub open spec fn plan_spec(
    origin: Point,
    destination: Point,
    obstacles: Seq<Circle>,
    r: Option<Seq<DubinsPathSegment>>,
) -> bool {
    if inside_some(origin, obstacles) || inside_some(destination, obstacles) {
        r is None
    } else if origin == destination {
        r == Some(Seq::<DubinsPathSegment>::empty())
    } else if exists|q: Seq<Landmark>| #[trigger] is_route(q, origin, destination, obstacles) {
        exists|q: Seq<Landmark>|
            #[trigger] is_shortest_route(q, origin, destination, obstacles) && r == Some(path_segments(q))
    } else {
        r is None
    }
}

/// The states and cost that pathfinding's A* answers when searching from `origin` to
/// `destination` among `obstacles` as `search` asks it to. Its maps hash with an unseeded
/// hasher and walk in insertion order, so the answer depends on the arguments alone.
pub uninterp spec fn astar_answer(origin: Point, destination: Point, obstacles: Seq<Circle>) -> Option<(Seq<SearchState>, int)>;

/// The path the planner answers for a point mover: nothing when either end lies strictly
/// inside an obstacle, else the path through the landmarks of the searched states.
pub open spec fn planned(origin: Point, destination: Point, obstacles: Seq<Circle>) -> Option<Seq<DubinsPathSegment>> {
    if inside_some(origin, obstacles) || inside_some(destination, obstacles) {
        None
    } else {
        match astar_answer(origin, destination, obstacles) {
            Some((q, _)) => Some(path_segments(route_of(q))),
            None => None,
        }
    }
}

/// Relies on pathfinding::directed::astar::astar over the search states (previous landmark,
/// current landmark) whose successors and costs `successors` lists (`is_move`,
/// `edge_cost_spec`), starting from the state that stands at the origin, with
/// `is_at(destination)` on the current landmark as the goal test. The landmarks of a path of
/// states (`route_of`) are a route, and every route arises so. Given non-negative move costs and a heuristic that
/// never overestimates (every node it is asked about, the destination landmark and the obstacle
/// landmarks, gets zero), it returns a cheapest sequence of nodes from the start to a node
/// accepted by the goal test, together with its cost; the start alone, at cost zero, when the
/// start is accepted; and nothing only when no accepted node can be reached.
#[verifier::external_body]
fn search(origin: Point, destination: Point, obstacles: &Vec<Circle>) -> (r: Option<(Vec<SearchState>, i64)>)
    requires
        obstacles@.len() < MAX_OBSTACLES,
    ensures
        r matches Some((q, c)) ==> is_shortest_route(route_of(q@), origin, destination, obstacles@) && c
            == route_cost(route_of(q@), obstacles@),
        r is None ==> forall|q: Seq<Landmark>| !is_route(q, origin, destination, obstacles@),
        r matches Some((q, c)) || origin != destination,
        r matches Some((q, c)) ==> astar_answer(origin, destination, obstacles@) == Some((q@, c as int)),
        r is None ==> astar_answer(origin, destination, obstacles@) is None,
        r matches Some((q, c)) ==> (origin == destination ==> route_of(q@) == seq![Landmark::Origin(origin)]
            && c == 0),
{
    pathfinding::directed::astar::astar(
        &(Landmark::Origin(origin), Landmark::Origin(origin)),
        |n: &SearchState| successors(*n, destination, obstacles),
        |n: &SearchState| n.1.distance_to(&destination),
        |n: &SearchState| n.1.is_at(&destination),
    )
}

/// Tells whether `p` lies strictly inside one of the obstacles.
fn inside_any(p: Point, obstacles: &Vec<Circle>) -> (r: bool)
    ensures
        r == inside_some(p, obstacles@),
{
    let mut i: usize = 0;
    while i < obstacles.len()
        invariant
            0 <= i <= obstacles@.len(),
            forall|j: int| 0 <= j < i ==> !strictly_inside_spec(p, #[trigger] obstacles@[j]),
        decreases obstacles.len() - i,
    {
        if strictly_inside(p, &obstacles[i]) {
            return true;
        }
        i = i + 1;
    }
    false
}

/// Computes a minimum length path from origin to destination that doesn't cross into any
/// of the given circles. Lines are measured rounded down and arcs by Huygens' rule.
pub fn shortest_path_for_point(origin: Point, destination: Point, obstacles: &Vec<Circle>) -> (r: Option<
    Vec<DubinsPathSegment>,
>)
    requires
        obstacles@.len() < MAX_OBSTACLES,
    ensures
        plan_spec(origin, destination, obstacles@, answer_view(r)),
        answer_view(r) == planned(origin, destination, obstacles@),
{
    if inside_any(origin, obstacles) || inside_any(destination, obstacles) {
        return None;
    }
    match search(origin, destination, obstacles) {
        Some((states, _cost)) => {
            let q = landmarks_of(&states);
            proof {
                lemma_route_links(q@, origin, destination, obstacles@);
            }
            let ghost qv = q@;
            let path = convert_landmarks_to_dubins_path(q);
            proof {
                if origin == destination {
                    assert(path@ =~= Seq::<DubinsPathSegment>::empty());
                } else {
                    assert(is_route(qv, origin, destination, obstacles@));
                    assert(is_shortest_route(qv, origin, destination, obstacles@));
                }
            }
            Some(path)
        },
        None => None,
    }
}

/// The obstacles grown by `radius`.
pub open spec fn inflated(obstacles: Seq<Circle>, radius: u32) -> Seq<Circle> {
    obstacles.map_values(|o: Circle| Circle { center: o.center, radius: (o.radius + radius) as u32 })
}

/// Computes a minimum length path from origin to destination that doesn't get within
/// `radius` of any of the given circles.
pub fn shortest_path_for_circle(
    origin: Point,
    destination: Point,
    obstacles: &Vec<Circle>,
    radius: u32,
) -> (r: Option<Vec<DubinsPathSegment>>)
    requires
        obstacles@.len() < MAX_OBSTACLES,
        forall|i: int| 0 <= i < obstacles@.len() ==> #[trigger] obstacles@[i].radius + radius <= u32::MAX,
    ensures
        plan_spec(origin, destination, inflated(obstacles@, radius), answer_view(r)),
        answer_view(r) == planned(origin, destination, inflated(obstacles@, radius)),
{
    let mut larger_obstacles: Vec<Circle> = Vec::new();
    let mut i: usize = 0;
    while i < obstacles.len()
        invariant
            0 <= i <= obstacles@.len() < MAX_OBSTACLES,
            forall|j: int| 0 <= j < obstacles@.len() ==> #[trigger] obstacles@[j].radius + radius <= u32::MAX,
            larger_obstacles@ =~= inflated(obstacles@.take(i as int), radius),
        decreases obstacles.len() - i,
    {
        let o = obstacles[i];
        assert(obstacles@[i as int].radius + radius <= u32::MAX);
        larger_obstacles.push(Circle { center: o.center, radius: o.radius + radius });
        i = i + 1;
        assert(obstacles@.take(i as int).drop_last() =~= obstacles@.take(i - 1));
    }
    assert(obstacles@.take(i as int) =~= obstacles@);
    shortest_path_for_point(origin, destination, &larger_obstacles)
}

} // verus!
