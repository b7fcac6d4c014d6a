//! Laws that relate the planner's answers to the geometry of the query.
use vstd::prelude::*;

use crate::geometry::{dist_sq, distance_spec, strictly_inside_spec, tangent_spec};
use crate::utils::{
    candidate_at, candidates_spec, edge_cost_spec, is_move, is_route, is_shortest_route,
    link_clears, link_end, link_spec, link_start, linkable, links_exist, path_segments,
    route_cost, segments_upto, prev_of, turn_clears,
};
use crate::{inside_some, plan_spec, Circle, DubinsPathSegment, Landmark, Point};

verus! {

/// The tangent line between two free points is the segment joining them.
pub proof fn lemma_point_link(from: Landmark, to: Landmark)
    requires
        from.signed_radius() == 0,
        to.signed_radius() == 0,
        from.location_spec() != to.location_spec(),
    ensures
        link_spec(from, to) == Some((from.location_spec(), to.location_spec())),
{
    let a = from.location_spec();
    let b = to.location_spec();
    let dx = a.x - b.x;
    let dy = a.y - b.y;
    assert(dist_sq(a, b) > 0) by (nonlinear_arith)
        requires
            dx != 0 || dy != 0,
            dist_sq(a, b) == dx * dx + dy * dy,
    ;
    assert(tangent_spec(a, 0, b, 0) == Some((a, b)));
}

/// A touching point on a circle of zero radius is its center.
pub proof fn lemma_zero_radius_ends(from: Landmark, to: Landmark)
    requires
        link_spec(from, to) is Some,
    ensures
        from.signed_radius() == 0 ==> link_start(from, to) == from.location_spec(),
        to.signed_radius() == 0 ==> link_end(from, to) == to.location_spec(),
{
    let c1 = from.location_spec();
    let c2 = to.location_spec();
    let rho1 = from.signed_radius();
    let rho2 = to.signed_radius();
    let dd = dist_sq(c1, c2);
    let a = rho2 - rho1;
    let h = crate::geometry::floor_sqrt((dd - a * a) * 65536);
    let nx = a * (c2.x - c1.x) * 256 - h * (c2.y - c1.y);
    let ny = a * (c2.y - c1.y) * 256 + h * (c2.x - c1.x);
    if !crate::utils::is_stay(from, to) {
        assert(dd != 0);
        assert(dd * 256 != 0);
        if rho1 == 0 {
            assert(rho1 * nx == 0 && rho1 * ny == 0);
            assert(0int / (dd * 256) == 0);
        }
        if rho2 == 0 {
            assert(rho2 * nx == 0 && rho2 * ny == 0);
            assert(0int / (dd * 256) == 0);
        }
    }
}

/// The path through landmarks with tangent lines between them is connected: each segment
/// begins where the previous one ends, the first begins at the first tangent line's start
/// and the last ends at the last tangent line's end.
pub proof fn lemma_segments_connected(ls: Seq<Landmark>, k: int)
    requires
        links_exist(ls),
        1 <= k <= ls.len() - 1,
    ensures
        segments_upto(ls, k).len() >= 1,
        segments_upto(ls, k)[0].start() == link_start(ls[0], ls[1]),
        segments_upto(ls, k).last().end() == link_end(ls[k - 1], ls[k]),
        forall|i: int|
            0 <= i < segments_upto(ls, k).len() - 1 ==> (#[trigger] segments_upto(ls, k)[i]).end()
                == segments_upto(ls, k)[i + 1].start(),
    decreases k,
{
    let j = k - 1;
    assert(link_spec(ls[j], ls[j + 1]) is Some);
    if k > 1 {
        lemma_segments_connected(ls, j);
        assert(link_spec(ls[j - 1], ls[j]) is Some);
        lemma_zero_radius_ends(ls[j - 1], ls[j]);
        lemma_zero_radius_ends(ls[j], ls[j + 1]);
        let prev = segments_upto(ls, j);
        let arc = if j > 0 && ls[j].is_obstacle() {
            seq![crate::utils::turn_spec(ls[j], link_end(ls[j - 1], ls[j]), link_start(ls[j], ls[j + 1]))]
        } else {
            seq![]
        };
        let line = seq![DubinsPathSegment::Line(link_start(ls[j], ls[j + 1]), link_end(ls[j], ls[j + 1]))];
        let s = segments_upto(ls, k);
        assert(s == prev + arc + line);
        assert forall|i: int| 0 <= i < s.len() - 1 implies (#[trigger] s[i]).end() == s[i + 1].start() by {
            if i < prev.len() - 1 {
                assert(s[i] == prev[i] && s[i + 1] == prev[i + 1]);
            } else if i == prev.len() - 1 {
                assert(s[i] == prev.last());
            } else {
                assert(arc.len() == 1 && i == prev.len());
            }
        }
        assert(s[0] == prev[0]);
    } else {
        assert(segments_upto(ls, 0) =~= Seq::<DubinsPathSegment>::empty());
        assert(segments_upto(ls, 1) =~= seq![
            DubinsPathSegment::Line(link_start(ls[0], ls[1]), link_end(ls[0], ls[1])),
        ]);
    }
}

/// A landmark that may follow another one is the destination or a side of an obstacle.
pub proof fn lemma_candidate_kind(destination: Point, obstacles: Seq<Circle>, l: Landmark)
    requires
        candidates_spec(destination, obstacles).contains(l),
    ensures
        l == Landmark::Destination(destination) || exists|i: int|
            0 <= i < obstacles.len() && (#[trigger] obstacles[i] == obstacles[i]) && l.is_side_of(obstacles[i]),
{
    let c = candidates_spec(destination, obstacles);
    let k = choose|k: int| 0 <= k < c.len() && c[k] == l;
    if k > 0 {
        let i = (k - 1) / 2;
        assert(0 <= i < obstacles.len());
        assert(l.is_side_of(obstacles[i]));
    }
}

/// Obstacle-free field: the planner answers a single line from the origin to a distinct
/// destination, whose cost is the distance between them.
pub proof fn lemma_free_plane(origin: Point, destination: Point, r: Option<Seq<DubinsPathSegment>>)
    requires
        plan_spec(origin, destination, Seq::<Circle>::empty(), r),
        origin != destination,
    ensures
        r == Some(seq![DubinsPathSegment::Line(origin, destination)]),
        route_cost(seq![Landmark::Origin(origin), Landmark::Destination(destination)], Seq::<Circle>::empty())
            == distance_spec(origin, destination),
{
    let obs = Seq::<Circle>::empty();
    let o = Landmark::Origin(origin);
    let d = Landmark::Destination(destination);
    let q0 = seq![o, d];
    lemma_point_link(o, d);
    assert(link_start(o, d) == origin && link_end(o, d) == destination);
    let c = candidates_spec(destination, obs);
    assert(c.len() == 1 && c[0] == d);
    assert(c.contains(d));
    assert(linkable(o, d, obs));
    assert(edge_cost_spec(o, o, d, obs) == Some(distance_spec(origin, destination)));
    assert(is_move(prev_of(q0, 0), q0[0], q0[1], destination, obs));
    assert(is_route(q0, origin, destination, obs));
    assert(!inside_some(origin, obs));
    assert(!inside_some(destination, obs));
    assert forall|q: Seq<Landmark>| #[trigger] is_route(q, origin, destination, obs) implies q == q0 by {
        assert(q.len() >= 2) by {
            if q.len() == 1 {
                assert(q.last() == o);
            }
        }
        assert(is_move(prev_of(q, 0), q[0], q[1], destination, obs));
        let k1 = choose|k: int| 0 <= k < c.len() && c[k] == q[1];
        assert(q[1] == d);
        if q.len() > 2 {
            let one: int = 1;
            assert(is_move(prev_of(q, one), q[one], q[one + 1], destination, obs));
            let k2 = choose|k: int| 0 <= k < c.len() && c[k] == q[2];
            assert(q[2] == d);
            assert(dist_sq(destination, destination) == 0);
            assert(link_spec(d, d) is None);
        }
        assert(q =~= q0);
    }
    let q = choose|q: Seq<Landmark>| #[trigger] is_shortest_route(q, origin, destination, obs) && r == Some(path_segments(q));
    assert(q == q0);
    assert(segments_upto(q0, 0) =~= Seq::<DubinsPathSegment>::empty());
    assert(path_segments(q0) =~= seq![DubinsPathSegment::Line(origin, destination)]);
    assert(route_cost(q0.drop_last(), obs) == 0);
    assert(q0.drop_last().len() == 1);
    assert(prev_of(q0, 0) == o);
}

/// The tangent line of every move of a route clears every obstacle but the ones that the
/// move's two landmarks wind around, and every arc driven around a landmark clears every
/// obstacle but the one it winds around.
pub proof fn lemma_route_clearance(q: Seq<Landmark>, origin: Point, destination: Point, obstacles: Seq<Circle>)
    requires
        is_route(q, origin, destination, obstacles),
    ensures
        forall|k: int, j: int|
            0 <= k < q.len() - 1 && 0 <= j < obstacles.len() ==> #[trigger] link_clears(
                q[k],
                q[k + 1],
                link_start(q[k], q[k + 1]),
                link_end(q[k], q[k + 1]),
                obstacles[j],
            ),
        forall|k: int, j: int|
            0 < k < q.len() - 1 && 0 <= j < obstacles.len() && q[k].is_obstacle() ==> #[trigger] turn_clears(
                q[k - 1],
                q[k],
                q[k + 1],
                obstacles[j],
            ),
{
    assert forall|k: int, j: int|
        0 <= k < q.len() - 1 && 0 <= j < obstacles.len() implies #[trigger] link_clears(
            q[k],
            q[k + 1],
            link_start(q[k], q[k + 1]),
            link_end(q[k], q[k + 1]),
            obstacles[j],
        ) by {
        assert(is_move(prev_of(q, k), q[k], q[k + 1], destination, obstacles));
    }
    assert forall|k: int, j: int|
        0 < k < q.len() - 1 && 0 <= j < obstacles.len() && q[k].is_obstacle() implies #[trigger] turn_clears(
            q[k - 1],
            q[k],
            q[k + 1],
            obstacles[j],
        ) by {
        assert(is_move(prev_of(q, k), q[k], q[k + 1], destination, obstacles));
        assert(prev_of(q, k) == q[k - 1]);
    }
}

/// The last tangent line of a route of two or more landmarks ends at the destination, when the
/// destination lies inside no obstacle.
pub proof fn lemma_route_end(q: Seq<Landmark>, origin: Point, destination: Point, obstacles: Seq<Circle>)
    requires
        is_route(q, origin, destination, obstacles),
        q.len() >= 2,
        !inside_some(destination, obstacles),
    ensures
        link_end(q[q.len() - 2], q[q.len() - 1]) == destination,
{
    let n = q.len();
    let last = q[n - 1];
    let before = q[n - 2];
    assert(is_move(prev_of(q, n - 2), q[n - 2], q[(n - 2) + 1], destination, obstacles));
    lemma_candidate_kind(destination, obstacles, last);
    if last != Landmark::Destination(destination) {
        let i = choose|i: int|
            0 <= i < obstacles.len() && (#[trigger] obstacles[i] == obstacles[i]) && last.is_side_of(obstacles[i]);
        let o = obstacles[i];
        if o.radius > 0 {
            assert(q.last() == last);
            assert(last.location_spec() == o.center);
            assert(o.center == destination);
            let dx = destination.x - o.center.x;
            let dy = destination.y - o.center.y;
            assert(dx == 0 && dy == 0);
            assert(dx * dx + dy * dy == 0) by (nonlinear_arith)
                requires
                    dx == 0 && dy == 0,
            ;
            assert(dist_sq(destination, o.center) == 0);
            assert(o.radius * o.radius > 0) by (nonlinear_arith)
                requires
                    o.radius > 0,
            ;
            assert(strictly_inside_spec(destination, obstacles[i]));
        }
    }
    lemma_zero_radius_ends(before, last);
}

/// A planned path is connected: it begins at the origin, ends at the destination, and each
/// segment begins where the previous one ends. It drives through a route each of whose
/// tangent lines clears every obstacle but the ones that line's two landmarks wind around,
/// and whose arcs clear every obstacle but the one they wind around.
pub proof fn lemma_path_connected(
    origin: Point,
    destination: Point,
    obstacles: Seq<Circle>,
    s: Seq<DubinsPathSegment>,
)
    requires
        plan_spec(origin, destination, obstacles, Some(s)),
        origin != destination,
    ensures
        s.len() >= 1,
        s[0].start() == origin,
        s.last().end() == destination,
        forall|i: int| 0 <= i < s.len() - 1 ==> (#[trigger] s[i]).end() == s[i + 1].start(),
        exists|q: Seq<Landmark>|
            #[trigger] is_route(q, origin, destination, obstacles) && path_segments(q) == s && (forall|
                k: int,
                j: int,
            |
                0 <= k < q.len() - 1 && 0 <= j < obstacles.len() ==> #[trigger] link_clears(
                    q[k],
                    q[k + 1],
                    link_start(q[k], q[k + 1]),
                    link_end(q[k], q[k + 1]),
                    obstacles[j],
                )) && (forall|k: int, j: int|
                0 < k < q.len() - 1 && 0 <= j < obstacles.len() && q[k].is_obstacle() ==> #[trigger] turn_clears(
                    q[k - 1],
                    q[k],
                    q[k + 1],
                    obstacles[j],
                )),
{
    let q = choose|q: Seq<Landmark>|
        #[trigger] is_shortest_route(q, origin, destination, obstacles) && Some(s) == Some(path_segments(q));
    assert(is_route(q, origin, destination, obstacles));
    assert(q.len() >= 2) by {
        if q.len() == 1 {
            assert(q.last() == q[0]);
        }
    }
    crate::utils::lemma_route_links(q, origin, destination, obstacles);
    lemma_segments_connected(q, q.len() - 1);
    lemma_zero_radius_ends(q[0], q[1]);
    lemma_route_end(q, origin, destination, obstacles);
    lemma_route_clearance(q, origin, destination, obstacles);
}

/// A planned path drives through a route no dearer than any other route.
pub proof fn lemma_plan_shortest(
    origin: Point,
    destination: Point,
    obstacles: Seq<Circle>,
    s: Seq<DubinsPathSegment>,
    other: Seq<Landmark>,
)
    requires
        plan_spec(origin, destination, obstacles, Some(s)),
        origin != destination,
        is_route(other, origin, destination, obstacles),
    ensures
        exists|q: Seq<Landmark>|
            #[trigger] is_route(q, origin, destination, obstacles) && path_segments(q) == s && route_cost(q, obstacles)
                <= route_cost(other, obstacles),
{
    let q = choose|q: Seq<Landmark>|
        #[trigger] is_shortest_route(q, origin, destination, obstacles) && Some(s) == Some(path_segments(q));
    assert(is_route(q, origin, destination, obstacles));
}

/// Planning from a point to itself, clear of every obstacle, answers the empty path.
pub proof fn lemma_same_point(p: Point, obstacles: Seq<Circle>, r: Option<Seq<DubinsPathSegment>>)
    requires
        plan_spec(p, p, obstacles, r),
        forall|i: int| 0 <= i < obstacles.len() ==> !strictly_inside_spec(p, #[trigger] obstacles[i]),
    ensures
        r == Some(Seq::<DubinsPathSegment>::empty()),
{
}

/// A destination strictly inside an obstacle gets no path.
pub proof fn lemma_destination_inside(
    origin: Point,
    destination: Point,
    obstacles: Seq<Circle>,
    r: Option<Seq<DubinsPathSegment>>,
    i: int,
)
    requires
        plan_spec(origin, destination, obstacles, r),
        0 <= i < obstacles.len(),
        strictly_inside_spec(destination, obstacles[i]),
    ensures
        r is None,
{
    assert(inside_some(destination, obstacles));
}

/// A tangent line driven backwards, with each circle passed the other way round, has the
/// same length.
pub proof fn lemma_tangent_length_reversed(c1: Point, rho1: int, c2: Point, rho2: int)
    ensures
        crate::geometry::tangent_length_spec(c1, rho1, c2, rho2) == crate::geometry::tangent_length_spec(
            c2,
            -rho2,
            c1,
            -rho1,
        ),
{
    assert(dist_sq(c1, c2) == dist_sq(c2, c1)) by (nonlinear_arith);
    assert((rho2 - rho1) * (rho2 - rho1) == (-rho1 - -rho2) * (-rho1 - -rho2)) by (nonlinear_arith);
}

/// Planning for a disk of radius zero answers what planning for a point does.
pub proof fn lemma_zero_radius_disk(origin: Point, destination: Point, obstacles: Seq<Circle>)
    ensures
        crate::planned(origin, destination, crate::inflated(obstacles, 0)) == crate::planned(
            origin,
            destination,
            obstacles,
        ),
{
    assert(crate::inflated(obstacles, 0) =~= obstacles);
}

} // verus!
