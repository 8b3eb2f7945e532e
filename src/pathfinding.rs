//! The search graphs of route finding: on foot, through every lane and turn
//! in either direction, and by vehicle, from lane to lane through the turns.

use crate::geometry::{dist2, distance, is_isqrt, Point};
use crate::map::RoadMap;
use crate::network::{
    contains_intersection, contains_lane, inter_at, inter_live, lane_at, lane_live, Intersection, IntersectionID, LaneID, Turn,
    TurnID,
};
use crate::traversable::{TraverseDirection, TraverseKind, Traversable};
use vstd::arithmetic::mul::lemma_mul_inequality;
use vstd::prelude::*;

verus! {

/// Cost of walking through a turn: small, but never zero.
pub const TURN_COST: u64 = 1;

/// Inflation of the straight-line heuristic, in tenths, on foot.
pub const PEDESTRIAN_HEURISTIC_TENTHS: u64 = 13;

/// Inflation of the straight-line heuristic, in tenths, by vehicle.
pub const DIRECTIONAL_HEURISTIC_TENTHS: u64 = 12;

/// Number of turns stored in the intersections of `inters`.
pub open spec fn turn_count(inters: Seq<Option<Intersection>>) -> int
    decreases inters.len(),
{
    if inters.len() == 0 {
        0
    } else {
        turn_count(inters.drop_last()) + match inters.last() {
            Some(i) => i.turns@.len() as int,
            None => 0int,
        }
    }
}

/// The network is small enough that no path cost of a search overflows:
/// a path visits each lane and turn at most twice, once per direction, and
/// each step costs at most `u32::MAX`.
pub open spec fn search_fits(m: RoadMap) -> bool {
    m.lanes@.len() + turn_count(m.intersections@) < 0x1000_0000
}

/// Walking out of lane `lane` through turn `t` gives `u`: forward when the
/// turn starts at the lane, backward when it ends there.
pub open spec fn turn_exit(t: Turn, lane: LaneID, u: Traversable) -> bool {
    ||| (t.id.src == lane && u == Traversable {
        kind: TraverseKind::Turn(t.id),
        dir: TraverseDirection::Forward,
    })
    ||| (t.id.dst == lane && u == Traversable {
        kind: TraverseKind::Turn(t.id),
        dir: TraverseDirection::Backward,
    })
}

/// On foot, `u` can follow `t`: at the intersection where `t` ends, `u` is a
/// turn touching `t`'s destination lane, or that lane itself, walked away
/// from the intersection.
pub open spec fn pedestrian_step(m: RoadMap, t: Traversable, u: Traversable) -> bool {
    let lane_id = t.spec_destination_lane();
    let inter_id = t.spec_destination_intersection(m.lanes@);
    &&& t.destination_known(m.lanes@)
    &&& lane_live(m.lanes@, lane_id)
    &&& inter_live(m.intersections@, inter_id)
    &&& {
        ||| u == Traversable {
            kind: TraverseKind::Lane(lane_id),
            dir: lane_at(m.lanes@, lane_id).spec_dir_from(inter_at(m.intersections@, inter_id).id),
        }
        ||| exists|i: int|
            0 <= i < inter_at(m.intersections@, inter_id).turns@.len() && #[trigger] turn_exit(
                inter_at(m.intersections@, inter_id).turns@[i],
                lane_id,
                u,
            )
    }
}

/// Cost of stepping onto `u` on foot.
pub open spec fn pedestrian_cost(m: RoadMap, u: Traversable) -> int {
    match u.kind {
        TraverseKind::Lane(l) => lane_at(m.lanes@, l).length as int,
        TraverseKind::Turn(_) => TURN_COST as int,
    }
}

/// By vehicle, lane `b` can follow lane `a`: both exist and the intersection
/// at the end of `a` holds the turn from `a` to `b`.
pub open spec fn lane_step(m: RoadMap, a: LaneID, b: LaneID) -> bool {
    let inter = lane_at(m.lanes@, a).dst;
    &&& lane_live(m.lanes@, a)
    &&& lane_live(m.lanes@, b)
    &&& inter_live(m.intersections@, inter)
    &&& exists|i: int|
        0 <= i < inter_at(m.intersections@, inter).turns@.len() && #[trigger] inter_at(
            m.intersections@,
            inter,
        ).turns@[i].id == (TurnID { parent: inter, src: a, dst: b, bidirectional: false })
}

/// `t` is the lane `end`, in either direction.
pub open spec fn arrived(t: Traversable, end: LaneID) -> bool {
    t.kind == TraverseKind::Lane(end)
}

/// `p` is a walk from `start` that ends on lane `end`.
pub open spec fn is_pedestrian_route(
    m: RoadMap,
    start: Traversable,
    end: LaneID,
    p: Seq<Traversable>,
) -> bool {
    &&& p.len() >= 1
    &&& p[0] == start
    &&& arrived(p.last(), end)
    &&& forall|i: int| 0 <= i < p.len() - 1 ==> pedestrian_step(m, #[trigger] p[i], p[i + 1])
}

/// `ls` is a sequence of lanes that a vehicle on lane `from` can follow, one
/// turn at a time, ending on lane `end`.
pub open spec fn is_lane_route(m: RoadMap, from: LaneID, end: LaneID, ls: Seq<LaneID>) -> bool {
    &&& ls.len() >= 1
    &&& lane_step(m, from, ls[0])
    &&& ls.last() == end
    &&& forall|i: int| 0 <= i < ls.len() - 1 ==> lane_step(m, #[trigger] ls[i], ls[i + 1])
}

/// A node of the search graph: the synthetic start of a vehicle search, a
/// traversable walked on foot, or a lane driven on.
#[derive(Clone, Copy, PartialEq, Eq, Hash, Debug, Structural)]
pub enum SearchNode {
    Start,
    OnFoot(Traversable),
    OnLane(LaneID),
}

#[derive(Clone, Copy, PartialEq, Eq, Hash, Debug, Structural)]
pub enum SearchMode {
    Pedestrian,
    Directional,
}

/// What a search looks for: `end`, whose far end lies at `end_pos`; a
/// vehicle search leaves from `start_lane`.
#[derive(Clone, Copy, PartialEq, Eq, Hash, Debug, Structural)]
pub struct SearchQuery {
    pub mode: SearchMode,
    pub start_lane: LaneID,
    pub end: LaneID,
    pub end_pos: Point,
}

pub open spec fn search_step(m: RoadMap, q: SearchQuery, a: SearchNode, b: SearchNode) -> bool {
    match q.mode {
        SearchMode::Pedestrian => match (a, b) {
            (SearchNode::OnFoot(t), SearchNode::OnFoot(u)) => pedestrian_step(m, t, u),
            _ => false,
        },
        SearchMode::Directional => match (a, b) {
            (SearchNode::Start, SearchNode::OnLane(l)) => lane_step(m, q.start_lane, l),
            (SearchNode::OnLane(k), SearchNode::OnLane(l)) => lane_step(m, k, l),
            _ => false,
        },
    }
}

pub open spec fn search_goal(q: SearchQuery, a: SearchNode) -> bool {
    match q.mode {
        SearchMode::Pedestrian => match a {
            SearchNode::OnFoot(t) => arrived(t, q.end),
            _ => false,
        },
        SearchMode::Directional => a == SearchNode::OnLane(q.end),
    }
}

pub open spec fn is_search_route(
    m: RoadMap,
    q: SearchQuery,
    start: SearchNode,
    p: Seq<SearchNode>,
) -> bool {
    &&& p.len() >= 1
    &&& p[0] == start
    &&& search_goal(q, p.last())
    &&& forall|i: int| 0 <= i < p.len() - 1 ==> search_step(m, q, #[trigger] p[i], p[i + 1])
}

/// Some turn among the first `k` of `turns` leads out of `lane` as `u`.
pub open spec fn exit_among(turns: Seq<Turn>, k: int, lane: LaneID, u: Traversable) -> bool {
    exists|i: int| 0 <= i < k && #[trigger] turn_exit(turns[i], lane, u)
}

/// `u` is the first component of an entry of `r`.
pub open spec fn listed<T>(r: Seq<(T, u64)>, u: T) -> bool {
    exists|j: int| 0 <= j < r.len() && #[trigger] r[j].0 == u
}

/// The traversables that can follow `t` on foot, each with its cost.
pub fn pedestrian_successors(m: &RoadMap, t: &Traversable) -> (r: Vec<(Traversable, u64)>)
    ensures
        forall|u: Traversable| pedestrian_step(*m, *t, u) <==> #[trigger] listed(r@, u),
        forall|j: int| 0 <= j < r@.len() ==> #[trigger] r@[j].1 == pedestrian_cost(*m, r@[j].0),
{
    let mut r: Vec<(Traversable, u64)> = Vec::new();
    let known = match t.kind {
        TraverseKind::Lane(id) => contains_lane(&m.lanes, id),
        TraverseKind::Turn(_) => true,
    };
    if !known {
        return r;
    }
    let lane_id = t.destination_lane();
    let inter_id = t.destination_intersection(&m.lanes);
    if !contains_lane(&m.lanes, lane_id) || !contains_intersection(&m.intersections, inter_id) {
        return r;
    }
    let inter = m.intersections[inter_id.index].as_ref().unwrap();
    let lane = m.lanes[lane_id.index].as_ref().unwrap();
    assert(*inter == inter_at(m.intersections@, inter_id));
    assert(*lane == lane_at(m.lanes@, lane_id));
    let turns = &inter.turns;
    let mut k: usize = 0;
    while k < turns.len()
        invariant
            k <= turns@.len(),
            turns@ == inter_at(m.intersections@, inter_id).turns@,
            forall|u: Traversable| #[trigger] listed(r@, u) == exit_among(turns@, k as int, lane_id, u),
            forall|j: int| 0 <= j < r@.len() ==> #[trigger] r@[j].1 == pedestrian_cost(*m, r@[j].0),
        decreases turns.len() - k,
    {
        let id = turns[k].id;
        let ghost before = r@;
        let fwd = Traversable::new(TraverseKind::Turn(id), TraverseDirection::Forward);
        let bwd = Traversable::new(TraverseKind::Turn(id), TraverseDirection::Backward);
        if id.src == lane_id {
            r.push((fwd, TURN_COST));
        }
        let ghost mid = r@;
        if id.dst == lane_id {
            r.push((bwd, TURN_COST));
        }
        proof {
            assert forall|u: Traversable| #[trigger] listed(r@, u) == exit_among(turns@, k + 1, lane_id, u) by {
                if listed(r@, u) {
                    let j = choose|j: int| 0 <= j < r@.len() && #[trigger] r@[j].0 == u;
                    if j < before.len() {
                        assert(before[j].0 == u);
                        assert(listed(before, u));
                        let i = choose|i: int| 0 <= i < k && #[trigger] turn_exit(turns@[i], lane_id, u);
                        assert(turn_exit(turns@[i], lane_id, u));
                    } else {
                        assert(turn_exit(turns@[k as int], lane_id, u));
                    }
                }
                if exit_among(turns@, k + 1, lane_id, u) {
                    let i = choose|i: int| 0 <= i < k + 1 && #[trigger] turn_exit(turns@[i], lane_id, u);
                    if i < k {
                        assert(exit_among(turns@, k as int, lane_id, u));
                        assert(listed(before, u));
                        let j = choose|j: int| 0 <= j < before.len() && #[trigger] before[j].0 == u;
                        assert(r@[j] == before[j]);
                    } else if u == fwd && id.src == lane_id {
                        assert(r@[before.len() as int].0 == u);
                    } else {
                        assert(r@[r@.len() - 1].0 == u);
                    }
                }
            }
        }
        k += 1;
    }
    let ghost turns_found = r@;
    let cont = Traversable::new(TraverseKind::Lane(lane_id), lane.dir_from(inter.id));
    r.push((cont, lane.length as u64));
    proof {
        assert forall|u: Traversable| pedestrian_step(*m, *t, u) <==> #[trigger] listed(r@, u) by {
            if listed(r@, u) {
                let j = choose|j: int| 0 <= j < r@.len() && #[trigger] r@[j].0 == u;
                if j < turns_found.len() {
                    assert(turns_found[j].0 == u);
                    assert(listed(turns_found, u));
                    let i = choose|i: int| 0 <= i < turns@.len() && #[trigger] turn_exit(turns@[i], lane_id, u);
                }
            }
            if pedestrian_step(*m, *t, u) {
                if u == cont {
                    assert(r@[r@.len() - 1].0 == u);
                } else {
                    let i = choose|i: int| 0 <= i < turns@.len() && #[trigger] turn_exit(turns@[i], lane_id, u);
                    assert(exit_among(turns@, turns@.len() as int, lane_id, u));
                    assert(listed(turns_found, u));
                    let j = choose|j: int| 0 <= j < turns_found.len() && #[trigger] turns_found[j].0 == u;
                    assert(r@[j] == turns_found[j]);
                }
            }
        }
    }
    r
}

/// Some turn among the first `k` of `turns` is the turn of `parent` from
/// lane `a` into lane `b`.
pub open spec fn join_among(turns: Seq<Turn>, k: int, parent: IntersectionID, a: LaneID, b: LaneID) -> bool {
    exists|i: int|
        0 <= i < k && #[trigger] turns[i].id == (TurnID { parent, src: a, dst: b, bidirectional: false })
}

/// The lanes that a vehicle can take right after lane `a`, each with its
/// length as the cost.
pub fn lane_successors(m: &RoadMap, a: LaneID) -> (r: Vec<(LaneID, u64)>)
    ensures
        forall|b: LaneID| lane_step(*m, a, b) <==> #[trigger] listed(r@, b),
        forall|j: int| 0 <= j < r@.len() ==> #[trigger] r@[j].1 == lane_at(m.lanes@, r@[j].0).length,
{
    let mut r: Vec<(LaneID, u64)> = Vec::new();
    if !contains_lane(&m.lanes, a) {
        return r;
    }
    let inter_id = m.lanes[a.index].as_ref().unwrap().dst;
    assert(inter_id == lane_at(m.lanes@, a).dst);
    if !contains_intersection(&m.intersections, inter_id) {
        return r;
    }
    let inter = m.intersections[inter_id.index].as_ref().unwrap();
    assert(*inter == inter_at(m.intersections@, inter_id));
    let turns = &inter.turns;
    let mut k: usize = 0;
    while k < turns.len()
        invariant
            k <= turns@.len(),
            turns@ == inter_at(m.intersections@, inter_id).turns@,
            forall|b: LaneID|
                #[trigger] listed(r@, b) == (lane_live(m.lanes@, b) && join_among(
                    turns@,
                    k as int,
                    inter_id,
                    a,
                    b,
                )),
            forall|j: int| 0 <= j < r@.len() ==> #[trigger] r@[j].1 == lane_at(m.lanes@, r@[j].0).length,
        decreases turns.len() - k,
    {
        let id = turns[k].id;
        let ghost before = r@;
        let take = id.parent == inter_id && id.src == a && !id.bidirectional && contains_lane(
            &m.lanes,
            id.dst,
        );
        if take {
            let len = m.lanes[id.dst.index].as_ref().unwrap().length as u64;
            r.push((id.dst, len));
        }
        proof {
            assert forall|b: LaneID|
                #[trigger] listed(r@, b) == (lane_live(m.lanes@, b) && join_among(
                    turns@,
                    k + 1,
                    inter_id,
                    a,
                    b,
                )) by {
                if listed(r@, b) {
                    let j = choose|j: int| 0 <= j < r@.len() && #[trigger] r@[j].0 == b;
                    if j < before.len() {
                        assert(before[j].0 == b);
                        assert(listed(before, b));
                        let i = choose|i: int|
                            0 <= i < k && #[trigger] turns@[i].id == (TurnID {
                                parent: inter_id,
                                src: a,
                                dst: b,
                                bidirectional: false,
                            });
                        assert(turns@[i].id == (TurnID { parent: inter_id, src: a, dst: b, bidirectional: false }));
                    } else {
                        assert(turns@[k as int].id == (TurnID {
                            parent: inter_id,
                            src: a,
                            dst: b,
                            bidirectional: false,
                        }));
                    }
                }
                if lane_live(m.lanes@, b) && join_among(turns@, k + 1, inter_id, a, b) {
                    let i = choose|i: int|
                        0 <= i < k + 1 && #[trigger] turns@[i].id == (TurnID {
                            parent: inter_id,
                            src: a,
                            dst: b,
                            bidirectional: false,
                        });
                    if i < k {
                        assert(join_among(turns@, k as int, inter_id, a, b));
                        assert(listed(before, b));
                        let j = choose|j: int| 0 <= j < before.len() && #[trigger] before[j].0 == b;
                        assert(r@[j] == before[j]);
                    } else {
                        assert(r@[r@.len() - 1].0 == b);
                    }
                }
            }
        }
        k += 1;
    }
    proof {
        assert forall|b: LaneID| lane_step(*m, a, b) <==> #[trigger] listed(r@, b) by {
            if lane_step(*m, a, b) {
                let i = choose|i: int|
                    0 <= i < turns@.len() && #[trigger] inter_at(m.intersections@, inter_id).turns@[i].id
                        == (TurnID { parent: inter_id, src: a, dst: b, bidirectional: false });
                assert(turns@[i].id == (TurnID { parent: inter_id, src: a, dst: b, bidirectional: false }));
                assert(join_among(turns@, turns@.len() as int, inter_id, a, b));
            }
            if listed(r@, b) {
                assert(join_among(turns@, turns@.len() as int, inter_id, a, b));
                let i = choose|i: int|
                    0 <= i < turns@.len() && #[trigger] turns@[i].id == (TurnID {
                        parent: inter_id,
                        src: a,
                        dst: b,
                        bidirectional: false,
                    });
                assert(inter_at(m.intersections@, inter_id).turns@[i].id == (TurnID {
                    parent: inter_id,
                    src: a,
                    dst: b,
                    bidirectional: false,
                }));
            }
        }
    }
    r
}

/// `d` rounded-down distance between `a` and `b`, scaled by `tenths / 10`.
#[verifier::opaque]
pub open spec fn is_scaled_distance(a: Point, b: Point, tenths: int, r: int) -> bool {
    exists|d: int| is_isqrt(dist2(a, b), d) && r == d * tenths / 10
}

fn scaled_distance(a: Point, b: Point, tenths: u64) -> (r: u64)
    requires
        tenths <= 20,
    ensures
        is_scaled_distance(a, b, tenths as int, r as int),
{
    let d = distance(a, b);
    proof {
        lemma_mul_inequality(tenths as int, 20, d as int);
        lemma_mul_inequality(d as int, 0x2_0000_0000int, 20);
        reveal(is_scaled_distance);
    }
    d * tenths / 10
}

/// The search's estimate of the cost left from node `a`: the straight-line
/// distance from the intersection where `a` ends to the far end of the
/// target lane, inflated; `0` where that intersection is unknown.
pub open spec fn heuristic_value(m: RoadMap, q: SearchQuery, a: SearchNode, r: int) -> bool {
    match (q.mode, a) {
        (SearchMode::Pedestrian, SearchNode::OnFoot(t)) => if t.destination_known(m.lanes@)
            && inter_live(m.intersections@, t.spec_destination_intersection(m.lanes@)) {
            is_scaled_distance(
                inter_at(m.intersections@, t.spec_destination_intersection(m.lanes@)).pos,
                q.end_pos,
                PEDESTRIAN_HEURISTIC_TENTHS as int,
                r,
            )
        } else {
            r == 0
        },
        (SearchMode::Directional, SearchNode::OnLane(l)) => if lane_live(m.lanes@, l) && inter_live(
            m.intersections@,
            lane_at(m.lanes@, l).dst,
        ) {
            is_scaled_distance(
                inter_at(m.intersections@, lane_at(m.lanes@, l).dst).pos,
                q.end_pos,
                DIRECTIONAL_HEURISTIC_TENTHS as int,
                r,
            )
        } else {
            r == 0
        },
        _ => r == 0,
    }
}

pub fn search_heuristic(m: &RoadMap, q: &SearchQuery, a: &SearchNode) -> (r: u64)
    ensures
        heuristic_value(*m, *q, *a, r as int),
{
    match (q.mode, a) {
        (SearchMode::Pedestrian, SearchNode::OnFoot(t)) => {
            let known = match t.kind {
                TraverseKind::Lane(id) => contains_lane(&m.lanes, id),
                TraverseKind::Turn(_) => true,
            };
            if !known {
                return 0;
            }
            let inter_id = t.destination_intersection(&m.lanes);
            if !contains_intersection(&m.intersections, inter_id) {
                return 0;
            }
            let pos = m.intersections[inter_id.index].as_ref().unwrap().pos;
            scaled_distance(pos, q.end_pos, PEDESTRIAN_HEURISTIC_TENTHS)
        },
        (SearchMode::Directional, SearchNode::OnLane(l)) => {
            if !contains_lane(&m.lanes, *l) {
                return 0;
            }
            let inter_id = m.lanes[l.index].as_ref().unwrap().dst;
            if !contains_intersection(&m.intersections, inter_id) {
                return 0;
            }
            let pos = m.intersections[inter_id.index].as_ref().unwrap().pos;
            scaled_distance(pos, q.end_pos, DIRECTIONAL_HEURISTIC_TENTHS)
        },
        _ => 0,
    }
}

pub fn search_goal_reached(q: &SearchQuery, a: &SearchNode) -> (r: bool)
    ensures
        r == search_goal(*q, *a),
{
    match q.mode {
        SearchMode::Pedestrian => match a {
            SearchNode::OnFoot(t) => t.kind == TraverseKind::Lane(q.end),
            _ => false,
        },
        SearchMode::Directional => *a == SearchNode::OnLane(q.end),
    }
}

/// Cost of stepping onto node `b` in a search.
pub open spec fn search_cost(m: RoadMap, b: SearchNode) -> int {
    match b {
        SearchNode::OnFoot(t) => pedestrian_cost(m, t),
        SearchNode::OnLane(l) => lane_at(m.lanes@, l).length as int,
        SearchNode::Start => 0,
    }
}

/// The nodes that can follow `a` in the search, each with its cost.
pub fn search_successors(m: &RoadMap, q: &SearchQuery, a: &SearchNode) -> (r: Vec<(SearchNode, u64)>)
    ensures
        forall|b: SearchNode| search_step(*m, *q, *a, b) <==> #[trigger] listed(r@, b),
        forall|j: int| 0 <= j < r@.len() ==> #[trigger] r@[j].1 == search_cost(*m, r@[j].0),
{
    let mut r: Vec<(SearchNode, u64)> = Vec::new();
    match (q.mode, a) {
        (SearchMode::Pedestrian, SearchNode::OnFoot(t)) => {
            let next = pedestrian_successors(m, t);
            let mut k: usize = 0;
            while k < next.len()
                invariant
                    k <= next@.len(),
                    r@.len() == k,
                    forall|j: int| 0 <= j < k ==> #[trigger] r@[j].0 == SearchNode::OnFoot(next@[j].0),
                    forall|j: int| 0 <= j < k ==> #[trigger] r@[j].1 == next@[j].1,
                    forall|j: int| 0 <= j < next@.len() ==> #[trigger] next@[j].1 == pedestrian_cost(*m, next@[j].0),
                decreases next.len() - k,
            {
                r.push((SearchNode::OnFoot(next[k].0), next[k].1));
                k += 1;
            }
            assert forall|b: SearchNode| search_step(*m, *q, *a, b) <==> #[trigger] listed(r@, b) by {
                if listed(r@, b) {
                    let j = choose|j: int| 0 <= j < r@.len() && #[trigger] r@[j].0 == b;
                    assert(next@[j].0 == next@[j].0);
                    assert(listed(next@, next@[j].0));
                }
                if let SearchNode::OnFoot(u) = b {
                    if pedestrian_step(*m, *t, u) {
                        assert(listed(next@, u));
                        let j = choose|j: int| 0 <= j < next@.len() && #[trigger] next@[j].0 == u;
                        assert(r@[j].0 == b);
                    }
                }
            }
        },
        (SearchMode::Directional, SearchNode::Start) | (SearchMode::Directional, SearchNode::OnLane(_)) => {
            let from = match a {
                SearchNode::OnLane(l) => *l,
                _ => q.start_lane,
            };
            let next = lane_successors(m, from);
            let mut k: usize = 0;
            while k < next.len()
                invariant
                    k <= next@.len(),
                    r@.len() == k,
                    forall|j: int| 0 <= j < k ==> #[trigger] r@[j].0 == SearchNode::OnLane(next@[j].0),
                    forall|j: int| 0 <= j < k ==> #[trigger] r@[j].1 == next@[j].1,
                    forall|j: int| 0 <= j < next@.len() ==> #[trigger] next@[j].1 == lane_at(m.lanes@, next@[j].0).length,
                decreases next.len() - k,
            {
                r.push((SearchNode::OnLane(next[k].0), next[k].1));
                k += 1;
            }
            assert forall|b: SearchNode| search_step(*m, *q, *a, b) <==> #[trigger] listed(r@, b) by {
                if listed(r@, b) {
                    let j = choose|j: int| 0 <= j < r@.len() && #[trigger] r@[j].0 == b;
                    assert(next@[j].0 == next@[j].0);
                    assert(listed(next@, next@[j].0));
                }
                if let SearchNode::OnLane(l) = b {
                    if lane_step(*m, from, l) {
                        assert(listed(next@, l));
                        let j = choose|j: int| 0 <= j < next@.len() && #[trigger] next@[j].0 == l;
                        assert(r@[j].0 == b);
                    }
                }
            }
        },
        _ => {},
    }
    r
}

/// Route search on foot: lanes and turns are separate steps, walked in
/// either direction.
pub struct PedestrianPath;

/// Route search by vehicle: from lane to lane through the turns, forward.
pub struct DirectionalPath;

} // verus!
