//! Successor generation over landmarks, and reconstruction of a path from landmarks.
use vstd::prelude::*;

use crate::geometry::{
    arc_clears_obstacle, arc_clears_spec, arc_length, arc_length_spec, near_circle,
    near_circle_spec, segment_clears_obstacle, segment_clears_spec, tangent, tangent_length_spec,
    tangent_spec,
};
use crate::geometry::{dist_sq, lemma_floor_sqrt_of};
use crate::{Circle, DubinsPathSegment, Landmark, Point};

verus! {

/// The line that joins landmark `from` to landmark `to`, as its two end points: the common
/// tangent of their circles, or, from the origin to a destination at the same point, the
/// line of length zero at that point.
pub open spec fn link_spec(from: Landmark, to: Landmark) -> Option<(Point, Point)> {
    if is_stay(from, to) {
        Some((from.location_spec(), to.location_spec()))
    } else {
        tangent_spec(from.location_spec(), from.signed_radius(), to.location_spec(), to.signed_radius())
    }
}

/// The move goes from the origin to a destination at the same point.
pub open spec fn is_stay(from: Landmark, to: Landmark) -> bool {
    from is Origin && to is Destination && from.location_spec() == to.location_spec()
}

/// Where the tangent line from `from` to `to` begins.
pub open spec fn link_start(from: Landmark, to: Landmark) -> Point {
    let (a, _) = link_spec(from, to).unwrap();
    a
}

/// Where the tangent line from `from` to `to` ends.
pub open spec fn link_end(from: Landmark, to: Landmark) -> Point {
    let (_, b) = link_spec(from, to).unwrap();
    b
}

/// The line from `a` to `b` that leaves `from` and reaches `to` keeps clear of obstacle `o`,
/// or `o` is one of the two obstacles it is tangent to.
pub open spec fn link_clears(from: Landmark, to: Landmark, a: Point, b: Point, o: Circle) -> bool {
    from.is_side_of(o) || to.is_side_of(o) || segment_clears_spec(a, b, o)
}

/// The obstacle that landmark `l` winds around.
pub open spec fn wound_circle(l: Landmark) -> Circle {
    match l {
        Landmark::LeftOf(c) => c,
        Landmark::RightOf(c) => c,
        Landmark::Origin(p) => Circle { center: p, radius: 0 },
        Landmark::Destination(p) => Circle { center: p, radius: 0 },
    }
}

/// Both touching points of the tangent line from `from` to `to` lie within the tolerance of
/// their circles.
pub open spec fn link_on_circles(from: Landmark, to: Landmark) -> bool {
    &&& near_circle_spec(link_start(from, to), from.location_spec(), wound_circle(from).radius as int)
    &&& near_circle_spec(link_end(from, to), to.location_spec(), wound_circle(to).radius as int)
}

/// Landmark `from` can move to landmark `to`: their tangent line exists, its rounded touching
/// points lie within the tolerance of their circles, and it clears every obstacle but the ones
/// it is tangent to.
pub open spec fn linkable(from: Landmark, to: Landmark, obstacles: Seq<Circle>) -> bool {
    &&& link_spec(from, to) is Some
    &&& link_on_circles(from, to)
    &&& forall|i: int|
        0 <= i < obstacles.len() ==> #[trigger] link_clears(
            from,
            to,
            link_start(from, to),
            link_end(from, to),
            obstacles[i],
        )
}

/// The length of the tangent line from `from` to `to`, rounded down.
pub open spec fn line_length(from: Landmark, to: Landmark) -> int {
    tangent_length_spec(from.location_spec(), from.signed_radius(), to.location_spec(), to.signed_radius())
}

/// The arc driven around `cur`, from where the line from `prev` arrives to where the line to
/// `next` leaves, clears obstacle `o`, or `o` is the obstacle it winds around.
pub open spec fn turn_clears(prev: Landmark, cur: Landmark, next: Landmark, o: Circle) -> bool {
    cur.is_side_of(o) || arc_clears_spec(
        wound_circle(cur),
        cur is LeftOf,
        link_end(prev, cur),
        link_start(cur, next),
        o,
    )
}

/// Having reached `cur` from `prev`, the path may turn around `cur` towards `next`: `cur` is a
/// free point, or the line from `prev` exists and the arc clears every other obstacle.
pub open spec fn turn_ok(prev: Landmark, cur: Landmark, next: Landmark, obstacles: Seq<Circle>) -> bool {
    cur.is_obstacle() ==> {
        &&& link_spec(prev, cur) is Some
        &&& forall|i: int| 0 <= i < obstacles.len() ==> #[trigger] turn_clears(prev, cur, next, obstacles[i])
    }
}

/// The approximate length of the arc driven around `cur` between the line from `prev` and the
/// line to `next`; zero at a free point.
pub open spec fn turn_length(prev: Landmark, cur: Landmark, next: Landmark) -> int {
    if cur.is_obstacle() {
        arc_length_spec(wound_circle(cur), cur is LeftOf, link_end(prev, cur), link_start(cur, next))
    } else {
        0
    }
}

/// The cost of leaving `cur`, reached from `prev`, for `next`: the arc around `cur` and the
/// tangent line to `next`, when both are clear of the obstacles.
pub open spec fn edge_cost_spec(prev: Landmark, cur: Landmark, next: Landmark, obstacles: Seq<Circle>) -> Option<int> {
    if linkable(cur, next, obstacles) && turn_ok(prev, cur, next, obstacles) {
        Some(turn_length(prev, cur, next) + line_length(cur, next))
    } else {
        None
    }
}

/// The `k`-th landmark that may follow another one: the destination first, then both sides
/// of each obstacle in turn.
pub open spec fn candidate_at(destination: Point, obstacles: Seq<Circle>, k: int) -> Landmark {
    if k == 0 {
        Landmark::Destination(destination)
    } else if k % 2 == 1 {
        Landmark::LeftOf(obstacles[(k - 1) / 2])
    } else {
        Landmark::RightOf(obstacles[(k - 1) / 2])
    }
}

/// Every landmark that may follow another one, in the order they are tried.
pub open spec fn candidates_spec(destination: Point, obstacles: Seq<Circle>) -> Seq<Landmark> {
    Seq::new(1 + 2 * obstacles.len(), |k: int| candidate_at(destination, obstacles, k))
}

/// A state of the search: the landmark the path came from, and the landmark it stands at.
pub type SearchState = (Landmark, Landmark);

/// Those of `candidates` that the path can go on to from state `parent`, each as the state it
/// leads to, with its edge cost, in order.
pub open spec fn feasible_of(parent: SearchState, candidates: Seq<Landmark>, obstacles: Seq<Circle>) -> Seq<(SearchState, i64)>
    decreases candidates.len(),
{
    if candidates.len() == 0 {
        seq![]
    } else {
        let rest = feasible_of(parent, candidates.drop_first(), obstacles);
        match edge_cost_spec(parent.0, parent.1, candidates[0], obstacles) {
            Some(c) => seq![((parent.1, candidates[0]), c as i64)] + rest,
            None => rest,
        }
    }
}

/// The successors of state `parent` in the search, each with its edge cost.
pub open spec fn successors_spec(parent: SearchState, destination: Point, obstacles: Seq<Circle>) -> Seq<(SearchState, i64)> {
    feasible_of(parent, candidates_spec(destination, obstacles), obstacles)
}

/// Tells whether `from` can move to `to`, and then the length of their tangent line.
fn link_cost(from: &Landmark, to: &Landmark, obstacles: &Vec<Circle>) -> (r: Option<i64>)
    ensures
        linkable(*from, *to, obstacles@) ==> r == Some(line_length(*from, *to) as i64) && 0 <= line_length(
            *from,
            *to,
        ) < 0x2_0000_0000,
        !linkable(*from, *to, obstacles@) ==> r is None,
{
    let link = link_with_length(from, to);
    match link {
        None => None,
        Some((a, b, len)) => {
            assert(link_start(*from, *to) == a && link_end(*from, *to) == b);
            if !near_circle(a, *from.location(), from.radius_of()) || !near_circle(
                b,
                *to.location(),
                to.radius_of(),
            ) {
                return None;
            }
            let mut i: usize = 0;
            while i < obstacles.len()
                invariant
                    0 <= i <= obstacles@.len(),
                    forall|j: int| 0 <= j < i ==> #[trigger] link_clears(*from, *to, a, b, obstacles@[j]),
                    link_start(*from, *to) == a,
                    link_end(*from, *to) == b,
                    link_spec(*from, *to) == Some((a, b)),
                decreases obstacles.len() - i,
            {
                let o = &obstacles[i];
                let own = *from == Landmark::LeftOf(*o) || *from == Landmark::RightOf(*o)
                    || *to == Landmark::LeftOf(*o) || *to == Landmark::RightOf(*o);
                if !own && !segment_clears_obstacle(a, b, o) {
                    assert(!link_clears(*from, *to, link_start(*from, *to), link_end(*from, *to), obstacles@[i as int]));
                    assert(!linkable(*from, *to, obstacles@));
                    return None;
                }
                i = i + 1;
            }
            Some(len)
        },
    }
}

/// Computes the cost of leaving `cur`, reached from `prev`, for `next` among `obstacles`.
pub fn edge_cost(prev: &Landmark, cur: &Landmark, next: &Landmark, obstacles: &Vec<Circle>) -> (r: Option<i64>)
    ensures
        match edge_cost_spec(*prev, *cur, *next, obstacles@) {
            Some(c) => r == Some(c as i64) && 0 <= c < 0x200_0000_0000,
            None => r is None,
        },
{
    let line = match link_cost(cur, next, obstacles) {
        Some(line) => line,
        None => {
            return None;
        },
    };
    let c = match cur {
        Landmark::LeftOf(c) => c,
        Landmark::RightOf(c) => c,
        _ => {
            return Some(line);
        },
    };
    let ccw = match cur {
        Landmark::LeftOf(_) => true,
        _ => false,
    };
    let arrive = match link(prev, cur) {
        Some((_, b)) => b,
        None => {
            return None;
        },
    };
    let depart = match link(cur, next) {
        Some((a, _)) => a,
        None => {
            return None;
        },
    };
    assert(link_end(*prev, *cur) == arrive && link_start(*cur, *next) == depart);
    let mut i: usize = 0;
    while i < obstacles.len()
        invariant
            0 <= i <= obstacles@.len(),
            cur.is_obstacle(),
            wound_circle(*cur) == *c,
            ccw == (*cur is LeftOf),
            link_end(*prev, *cur) == arrive,
            link_start(*cur, *next) == depart,
            forall|j: int| 0 <= j < i ==> #[trigger] turn_clears(*prev, *cur, *next, obstacles@[j]),
        decreases obstacles.len() - i,
    {
        let o = &obstacles[i];
        let own = *cur == Landmark::LeftOf(*o) || *cur == Landmark::RightOf(*o);
        if !own && !arc_clears_obstacle(c, ccw, arrive, depart, o) {
            assert(!turn_clears(*prev, *cur, *next, obstacles@[i as int]));
            return None;
        }
        i = i + 1;
    }
    let arc = arc_length(c, ccw, arrive, depart);
    Some(arc + line)
}

/// Lists the landmarks that may follow another one, in the order they are tried.
fn candidates(destination: Point, obstacles: &Vec<Circle>) -> (r: Vec<Landmark>)
    requires
        obstacles@.len() < 0x1000_0000,
    ensures
        r@ == candidates_spec(destination, obstacles@),
{
    let mut r: Vec<Landmark> = Vec::new();
    r.push(Landmark::Destination(destination));
    let mut i: usize = 0;
    while i < obstacles.len()
        invariant
            0 <= i <= obstacles@.len() < 0x1000_0000,
            r@.len() == 1 + 2 * i,
            forall|k: int| 0 <= k < r@.len() ==> r@[k] == candidate_at(destination, obstacles@, k),
        decreases obstacles.len() - i,
    {
        let o = obstacles[i];
        r.push(Landmark::LeftOf(o));
        r.push(Landmark::RightOf(o));
        proof {
            assert((1 + 2 * i - 1) / 2 == i && (1 + 2 * i) % 2 == 1) by (nonlinear_arith);
            assert((2 + 2 * i - 1) / 2 == i && (2 + 2 * i) % 2 == 0) by (nonlinear_arith);
        }
        i = i + 1;
    }
    assert(r@ =~= candidates_spec(destination, obstacles@));
    r
}

/// Walks the successors of one landmark: each landmark that it can reach by one tangent line
/// clear of every obstacle, with the cost of that move.
pub struct SuccessorIter<'a> {
    parent: SearchState,
    target: Landmark,
    all_nodes: &'a Vec<Circle>,
    candidates: Vec<Landmark>,
    next_index: usize,
}

impl<'a> SuccessorIter<'a> {
    /// The state whose successors are walked.
    pub closed spec fn parent_spec(&self) -> SearchState {
        self.parent
    }

    /// The obstacles of the field.
    pub closed spec fn obstacles_spec(&self) -> Seq<Circle> {
        self.all_nodes@
    }

    /// The successors not handed out yet, in order.
    pub closed spec fn remaining(&self) -> Seq<(SearchState, i64)> {
        feasible_of(
            self.parent,
            self.candidates@.subrange(self.next_index as int, self.candidates@.len() as int),
            self.all_nodes@,
        )
    }

    /// The walk lists the candidates of its destination and obstacles, and has not run past them.
    pub closed spec fn wf(&self) -> bool {
        &&& self.next_index <= self.candidates@.len()
        &&& self.target is Destination
        &&& self.candidates@ == candidates_spec(self.target.location_spec(), self.all_nodes@)
    }

    /// Starts walking the successors of `parent` towards `target` among `all_nodes`.
    pub fn new(parent: SearchState, target: Point, all_nodes: &'a Vec<Circle>) -> (r: SuccessorIter<'a>)
        requires
            all_nodes@.len() < 0x1000_0000,
        ensures
            r.wf(),
            r.parent_spec() == parent,
            r.obstacles_spec() == all_nodes@,
            r.remaining() == successors_spec(parent, target, all_nodes@),
    {
        let target = Landmark::Destination(target);
        let candidates = candidates(*target.location(), all_nodes);
        let r = SuccessorIter { parent, target, all_nodes, candidates, next_index: 0 };
        assert(r.candidates@.subrange(0, r.candidates@.len() as int) =~= r.candidates@);
        r
    }

    /// The cost of moving on from the walked state to `destination`, if that move is possible.
    pub fn safe_cost_to(&self, destination: &Landmark) -> (r: Option<i64>)
        ensures
            match edge_cost_spec(self.parent_spec().0, self.parent_spec().1, *destination, self.obstacles_spec()) {
                Some(c) => r == Some(c as i64),
                None => r is None,
            },
    {
        edge_cost(&self.parent.0, &self.parent.1, destination, self.all_nodes)
    }

    /// Hands out the next successor, or `None` once all are out.
    pub fn next(&mut self) -> (r: Option<(SearchState, i64)>)
        requires
            old(self).wf(),
        ensures
            final(self).wf(),
            final(self).parent_spec() == old(self).parent_spec(),
            final(self).obstacles_spec() == old(self).obstacles_spec(),
            old(self).remaining().len() == 0 ==> r is None && final(self).remaining().len() == 0,
            old(self).remaining().len() > 0 ==> r == Some(old(self).remaining()[0])
                && final(self).remaining() == old(self).remaining().drop_first(),
    {
        let ghost start = self.remaining();
        while self.next_index < self.candidates.len()
            invariant
                self.wf(),
                self.parent == old(self).parent,
                self.all_nodes == old(self).all_nodes,
                self.candidates == old(self).candidates,
                self.target == old(self).target,
                self.remaining() == start,
                start == old(self).remaining(),
            decreases self.candidates@.len() - self.next_index,
        {
            let successor = self.candidates[self.next_index];
            let ghost rest = self.candidates@.subrange(self.next_index as int, self.candidates@.len() as int);
            assert(rest.drop_first() =~= self.candidates@.subrange(
                self.next_index + 1,
                self.candidates@.len() as int,
            ));
            self.next_index = self.next_index + 1;
            assert(feasible_of(self.parent, rest, self.all_nodes@) == match edge_cost_spec(
                self.parent.0,
                self.parent.1,
                rest[0],
                self.all_nodes@,
            ) {
                Some(c) => seq![((self.parent.1, rest[0]), c as i64)] + feasible_of(self.parent, rest.drop_first(), self.all_nodes@),
                None => feasible_of(self.parent, rest.drop_first(), self.all_nodes@),
            });
            if let Some(cost) = self.safe_cost_to(&successor) {
                assert(start[0] == ((self.parent.1, successor), cost));
                assert(self.remaining() =~= start.drop_first());
                return Some(((self.parent.1, successor), cost));
            }
        }
        None
    }

    /// Hands out every successor left, in order.
    pub fn into_successors(self) -> (r: Vec<(SearchState, i64)>)
        requires
            self.wf(),
        ensures
            r@ == self.remaining(),
    {
        let ghost all = self.remaining();
        let mut walk = self;
        let mut r: Vec<(SearchState, i64)> = Vec::new();
        loop
            invariant
                walk.wf(),
                r@ + walk.remaining() == all,
                all == self.remaining(),
            decreases walk.remaining().len(),
        {
            let ghost before = walk.remaining();
            match walk.next() {
                None => {
                    assert(r@ =~= all);
                    return r;
                },
                Some(item) => {
                    r.push(item);
                    assert(r@ + walk.remaining() =~= all) by {
                        assert(before =~= seq![item] + before.drop_first());
                    }
                },
            }
        }
    }
}

/// The successors of state `parent` in the search towards `destination`, with their costs.
pub fn successors(parent: SearchState, destination: Point, obstacles: &Vec<Circle>) -> (r: Vec<(SearchState, i64)>)
    requires
        obstacles@.len() < 0x1000_0000,
    ensures
        r@ == successors_spec(parent, destination, obstacles@),
{
    SuccessorIter::new(parent, destination, obstacles).into_successors()
}

/// The arc driven around landmark `l`'s obstacle from `a` to `b`, in the landmark's direction.
pub open spec fn turn_spec(l: Landmark, a: Point, b: Point) -> DubinsPathSegment {
    match l {
        Landmark::LeftOf(c) => DubinsPathSegment::LeftTurn(c, a, b),
        Landmark::RightOf(c) => DubinsPathSegment::RightTurn(c, a, b),
        _ => DubinsPathSegment::Line(a, b),
    }
}

/// The segments that drive the first `k` moves of the landmark sequence `ls`: for each move,
/// the arc around the obstacle it leaves (from where the previous move arrived), then the
/// tangent line of the move itself.
pub open spec fn segments_upto(ls: Seq<Landmark>, k: int) -> Seq<DubinsPathSegment>
    decreases k,
{
    if k <= 0 {
        seq![]
    } else {
        let j = k - 1;
        let arc = if j > 0 && ls[j].is_obstacle() {
            seq![turn_spec(ls[j], link_end(ls[j - 1], ls[j]), link_start(ls[j], ls[j + 1]))]
        } else {
            seq![]
        };
        segments_upto(ls, j) + arc + seq![
            DubinsPathSegment::Line(link_start(ls[j], ls[j + 1]), link_end(ls[j], ls[j + 1])),
        ]
    }
}

/// The path that drives through the landmark sequence `ls`.
pub open spec fn path_segments(ls: Seq<Landmark>) -> Seq<DubinsPathSegment> {
    segments_upto(ls, ls.len() - 1)
}

/// Every two consecutive landmarks of `ls` have a tangent line between them, whose touching
/// points lie within the tolerance of their circles.
pub open spec fn links_exist(ls: Seq<Landmark>) -> bool {
    forall|k: int|
        0 <= k < ls.len() - 1 ==> (#[trigger] link_spec(ls[k], ls[k + 1])) is Some && link_on_circles(
            ls[k],
            ls[k + 1],
        )
}

/// A turn segment's ends lie within the tolerance of its circle.
pub open spec fn turn_on_circle(s: DubinsPathSegment) -> bool {
    match s {
        DubinsPathSegment::Line(_, _) => true,
        DubinsPathSegment::LeftTurn(c, a, b) => near_circle_spec(a, c.center, c.radius as int)
            && near_circle_spec(b, c.center, c.radius as int),
        DubinsPathSegment::RightTurn(c, a, b) => near_circle_spec(a, c.center, c.radius as int)
            && near_circle_spec(b, c.center, c.radius as int),
    }
}

/// The tangent line from `from` to `to`, if there is one.
fn link(from: &Landmark, to: &Landmark) -> (r: Option<(Point, Point)>)
    ensures
        r == link_spec(*from, *to),
{
    match link_with_length(from, to) {
        Some((a, b, _)) => Some((a, b)),
        None => None,
    }
}

/// The line from `from` to `to`, if there is one, with its length rounded down.
fn link_with_length(from: &Landmark, to: &Landmark) -> (r: Option<(Point, Point, i64)>)
    ensures
        match link_spec(*from, *to) {
            Some((a, b)) => r == Some((a, b, line_length(*from, *to) as i64)) && 0 <= line_length(*from, *to)
                < 0x2_0000_0000,
            None => r is None,
        },
{
    let stay = match (from, to) {
        (Landmark::Origin(p), Landmark::Destination(q)) => *p == *q,
        _ => false,
    };
    if stay {
        let p = *from.location();
        proof {
            assert(dist_sq(p, p) == 0) by (nonlinear_arith);
            lemma_floor_sqrt_of(0, 0);
        }
        Some((p, p, 0))
    } else {
        tangent(*from.location(), from.signed_radius_of(), *to.location(), to.signed_radius_of())
    }
}

/// Turns a sequence of landmarks into the lines and arcs that drive through them.
pub fn convert_landmarks_to_dubins_path(landmarks: Vec<Landmark>) -> (r: Vec<DubinsPathSegment>)
    requires
        links_exist(landmarks@),
    ensures
        r@ == path_segments(landmarks@),
        forall|i: int| 0 <= i < r@.len() ==> #[trigger] turn_on_circle(r@[i]),
{
    let mut r: Vec<DubinsPathSegment> = Vec::new();
    if landmarks.len() < 2 {
        return r;
    }
    let mut arrived: Point = *landmarks[0].location();
    let mut i: usize = 0;
    while i + 1 < landmarks.len()
        invariant
            2 <= landmarks@.len(),
            0 <= i < landmarks@.len(),
            links_exist(landmarks@),
            r@ == segments_upto(landmarks@, i as int),
            forall|j: int| 0 <= j < r@.len() ==> #[trigger] turn_on_circle(r@[j]),
            i > 0 ==> arrived == link_end(landmarks@[i - 1], landmarks@[i as int]),
        decreases landmarks@.len() - i,
    {
        assert(link_spec(landmarks@[i as int], landmarks@[i + 1]) is Some);
        assert(link_on_circles(landmarks@[i as int], landmarks@[i + 1]));
        assert(i > 0 ==> link_on_circles(landmarks@[i - 1], landmarks@[(i - 1) + 1]));
        let (a, b) = match link(&landmarks[i], &landmarks[i + 1]) {
            Some(ab) => ab,
            None => {
                return r;
            },
        };
        let l = landmarks[i];
        if i > 0 {
            match l {
                Landmark::LeftOf(c) => r.push(DubinsPathSegment::LeftTurn(c, arrived, a)),
                Landmark::RightOf(c) => r.push(DubinsPathSegment::RightTurn(c, arrived, a)),
                _ => {},
            }
        }
        r.push(DubinsPathSegment::Line(a, b));
        proof {
            let ls = landmarks@;
            let j = i as int;
            let arc = if j > 0 && ls[j].is_obstacle() {
                seq![turn_spec(ls[j], link_end(ls[j - 1], ls[j]), link_start(ls[j], ls[j + 1]))]
            } else {
                seq![]
            };
            assert(segments_upto(ls, j + 1) == segments_upto(ls, j) + arc + seq![
                DubinsPathSegment::Line(link_start(ls[j], ls[j + 1]), link_end(ls[j], ls[j + 1])),
            ]);
            assert(r@ =~= segments_upto(ls, j + 1));
        }
        arrived = b;
        i = i + 1;
    }
    r
}

/// The landmark the route `q` came from before its `k`-th landmark (the origin for the first).
pub open spec fn prev_of(q: Seq<Landmark>, k: int) -> Landmark {
    if k == 0 {
        q[0]
    } else {
        q[k - 1]
    }
}

/// Having reached `cur` from `prev`, the path can go on to `next` in the search towards
/// `destination`.
pub open spec fn is_move(prev: Landmark, cur: Landmark, next: Landmark, destination: Point, obstacles: Seq<Circle>) -> bool {
    candidates_spec(destination, obstacles).contains(next) && edge_cost_spec(prev, cur, next, obstacles) is Some
}

/// `q` is a sequence of moves from the origin to a landmark standing at the destination.
pub open spec fn is_route(q: Seq<Landmark>, origin: Point, destination: Point, obstacles: Seq<Circle>) -> bool {
    &&& q.len() >= 1
    &&& q[0] == Landmark::Origin(origin)
    &&& q.last().location_spec() == destination
    &&& forall|k: int|
        0 <= k < q.len() - 1 ==> #[trigger] is_move(prev_of(q, k), q[k], q[k + 1], destination, obstacles)
}

/// The summed edge costs of the moves of `q`: its lines and the arcs between them.
pub open spec fn route_cost(q: Seq<Landmark>, obstacles: Seq<Circle>) -> int
    decreases q.len(),
{
    if q.len() < 2 {
        0
    } else {
        route_cost(q.drop_last(), obstacles) + edge_cost_spec(
            prev_of(q, q.len() - 2),
            q[q.len() - 2],
            q.last(),
            obstacles,
        ).unwrap()
    }
}

/// `q` is a route of least cost.
pub open spec fn is_shortest_route(q: Seq<Landmark>, origin: Point, destination: Point, obstacles: Seq<Circle>) -> bool {
    &&& is_route(q, origin, destination, obstacles)
    &&& forall|q2: Seq<Landmark>| #[trigger]
        is_route(q2, origin, destination, obstacles) ==> route_cost(q, obstacles) <= route_cost(q2, obstacles)
}

/// Every route has tangent lines between its consecutive landmarks.
pub proof fn lemma_route_links(q: Seq<Landmark>, origin: Point, destination: Point, obstacles: Seq<Circle>)
    requires
        is_route(q, origin, destination, obstacles),
    ensures
        links_exist(q),
{
    assert forall|k: int|
        0 <= k < q.len() - 1 implies (#[trigger] link_spec(q[k], q[k + 1])) is Some && link_on_circles(
        q[k],
        q[k + 1],
    ) by {
        assert(is_move(prev_of(q, k), q[k], q[k + 1], destination, obstacles));
    }
}

/// The landmarks a sequence of search states stands at.
pub open spec fn route_of(states: Seq<SearchState>) -> Seq<Landmark> {
    Seq::new(states.len(), |i: int| states[i].1)
}

/// Lists the landmarks that a sequence of search states stands at.
pub fn landmarks_of(states: &Vec<SearchState>) -> (r: Vec<Landmark>)
    ensures
        r@ == route_of(states@),
{
    let mut r: Vec<Landmark> = Vec::new();
    let mut i: usize = 0;
    while i < states.len()
        invariant
            0 <= i <= states@.len(),
            r@ =~= route_of(states@.take(i as int)),
        decreases states.len() - i,
    {
        r.push(states[i].1);
        i = i + 1;
    }
    assert(states@.take(i as int) =~= states@);
    r
}

} // verus!
