//! Route search: A* over the search graphs, and the routes it returns.

use crate::geometry::Point;
use crate::map::RoadMap;
use crate::network::{
    contains_intersection, contains_lane, inter_at, lane_at, lane_live, LaneID, TurnID,
};
use crate::pathfinding::{
    arrived, is_lane_route, is_pedestrian_route, is_search_route, lane_step, pedestrian_step,
    search_fits, search_goal, search_goal_reached, search_heuristic, search_step, search_successors,
    DirectionalPath, PedestrianPath, SearchMode, SearchNode, SearchQuery,
};
use crate::traversable::{TraverseDirection, TraverseKind, Traversable};
use vstd::prelude::*;

verus! {

/// Relies on `pathfinding::directed::astar::astar`, an A* search. A path it
/// returns starts at `start`, each of its nodes is among the successors that
/// `search_successors` lists for the node before, and its last node passes
/// `search_goal_reached`, which every node before it failed: a node is
/// expanded only after failing that test. It returns `None` only once every
/// node reachable
/// from `start` has failed that test. The nodes reachable here are finite
/// (lanes and turns of `m`), and `search_fits` keeps every path cost that it
/// adds up below `u64::MAX`: its paths never repeat a node.
#[verifier::external_body]
fn astar_search(m: &RoadMap, q: &SearchQuery, start: &SearchNode) -> (r: Option<Vec<SearchNode>>)
    requires
        search_fits(*m),
    ensures
        r is Some ==> is_search_route(*m, *q, *start, r->Some_0@),
        r is Some ==> forall|i: int|
            0 <= i < r->Some_0@.len() - 1 ==> !search_goal(*q, #[trigger] r->Some_0@[i]),
        r is None ==> forall|p: Seq<SearchNode>| !is_search_route(*m, *q, *start, p),
{
    pathfinding::directed::astar::astar(
        start,
        |a| search_successors(m, q, a),
        |a| search_heuristic(m, q, a),
        |a| search_goal_reached(q, a),
    ).map(|found| found.0)
}

/// Position of the far end of lane `end`, where the search aims; the origin
/// when that lane or its intersection is gone.
fn target_position(m: &RoadMap, end: LaneID) -> (r: Point) {
    let mut r = Point::new(0, 0);
    if contains_lane(&m.lanes, end) {
        let dst = m.lanes[end.index].as_ref().unwrap().dst;
        if contains_intersection(&m.intersections, dst) {
            r = m.intersections[dst.index].as_ref().unwrap().pos;
        }
    }
    r
}

/// A walk is a route of the pedestrian search.
proof fn lemma_walk_searched(m: RoadMap, q: SearchQuery, start: Traversable, p: Seq<Traversable>)
    requires
        q.mode == SearchMode::Pedestrian,
        is_pedestrian_route(m, start, q.end, p),
    ensures
        is_search_route(m, q, SearchNode::OnFoot(start), p.map_values(|t: Traversable| SearchNode::OnFoot(t))),
{
    let n = p.map_values(|t: Traversable| SearchNode::OnFoot(t));
    assert forall|i: int| 0 <= i < n.len() - 1 implies search_step(m, q, #[trigger] n[i], n[i + 1]) by {
        assert(pedestrian_step(m, p[i], p[i + 1]));
    }
}

impl PedestrianPath {
    /// A walk from `start` to lane `end` that stops the first time it is on
    /// that lane, or `None` when there is none.
    pub fn path(&self, m: &RoadMap, start: Traversable, end: LaneID) -> (r: Option<Vec<Traversable>>)
        requires
            search_fits(*m),
        ensures
            r is Some ==> is_pedestrian_route(*m, start, end, r->Some_0@),
            r is Some ==> forall|i: int|
                0 <= i < r->Some_0@.len() - 1 ==> !arrived(#[trigger] r->Some_0@[i], end),
            r is None ==> forall|p: Seq<Traversable>| !is_pedestrian_route(*m, start, end, p),
    {
        let q = SearchQuery {
            mode: SearchMode::Pedestrian,
            start_lane: end,
            end,
            end_pos: target_position(m, end),
        };
        let found = astar_search(m, &q, &SearchNode::OnFoot(start));
        match found {
            None => {
                proof {
                    assert forall|p: Seq<Traversable>| !is_pedestrian_route(*m, start, end, p) by {
                        if is_pedestrian_route(*m, start, end, p) {
                            lemma_walk_searched(*m, q, start, p);
                        }
                    }
                }
                None
            },
            Some(v) => {
                proof {
                    assert forall|i: int| 0 <= i < v@.len() implies #[trigger] v@[i] is OnFoot by {
                        if i > 0 {
                            assert(search_step(*m, q, v@[i - 1], v@[i]));
                        }
                    }
                }
                let mut r: Vec<Traversable> = Vec::new();
                let mut i: usize = 0;
                while i < v.len()
                    invariant
                        i <= v@.len(),
                        r@.len() == i,
                        forall|k: int| 0 <= k < v@.len() ==> #[trigger] v@[k] is OnFoot,
                        forall|j: int| 0 <= j < i ==> v@[j] == SearchNode::OnFoot(#[trigger] r@[j]),
                    decreases v.len() - i,
                {
                    let t = match v[i] {
                        SearchNode::OnFoot(t) => t,
                        _ => start,
                    };
                    r.push(t);
                    i += 1;
                }
                proof {
                    assert forall|j: int| 0 <= j < r@.len() - 1 implies pedestrian_step(
                        *m,
                        #[trigger] r@[j],
                        r@[j + 1],
                    ) by {
                        assert(search_step(*m, q, v@[j], v@[j + 1]));
                    }
                    assert(v@[v@.len() - 1] == SearchNode::OnFoot(r@[r@.len() - 1]));
                    assert forall|j: int| 0 <= j < r@.len() - 1 implies !arrived(#[trigger] r@[j], end) by {
                        assert(!search_goal(q, v@[j]));
                    }
                }
                Some(r)
            },
        }
    }
}

/// The lane before the `j`-th lane of `ls`, `from` for the first.
pub open spec fn lane_before(from: LaneID, ls: Seq<LaneID>, j: int) -> LaneID {
    if j == 0 {
        from
    } else {
        ls[j - 1]
    }
}

/// The traversables of a vehicle route: `start`, then for each lane of `ls`
/// the turn into it (in the intersection where the lane before it ends) and
/// the lane itself, all forward.
pub open spec fn expand_route(m: RoadMap, start: Traversable, from: LaneID, ls: Seq<LaneID>) -> Seq<
    Traversable,
>
    decreases ls.len(),
{
    if ls.len() == 0 {
        seq![start]
    } else {
        let prev = lane_before(from, ls, ls.len() - 1);
        expand_route(m, start, from, ls.drop_last()) + seq![
            Traversable {
                kind: TraverseKind::Turn(
                    TurnID {
                        parent: lane_at(m.lanes@, prev).dst,
                        src: prev,
                        dst: ls.last(),
                        bidirectional: false,
                    },
                ),
                dir: TraverseDirection::Forward,
            },
            Traversable { kind: TraverseKind::Lane(ls.last()), dir: TraverseDirection::Forward },
        ]
    }
}

/// A lane route is a route of the vehicle search.
proof fn lemma_lane_route_searched(m: RoadMap, q: SearchQuery, ls: Seq<LaneID>)
    requires
        q.mode == SearchMode::Directional,
        is_lane_route(m, q.start_lane, q.end, ls),
    ensures
        is_search_route(
            m,
            q,
            SearchNode::Start,
            seq![SearchNode::Start] + ls.map_values(|l: LaneID| SearchNode::OnLane(l)),
        ),
{
    let p = seq![SearchNode::Start] + ls.map_values(|l: LaneID| SearchNode::OnLane(l));
    assert forall|i: int| 0 <= i < p.len() - 1 implies search_step(m, q, #[trigger] p[i], p[i + 1]) by {
        if i > 0 {
            assert(lane_step(m, ls[i - 1], ls[i]));
        }
    }
}

/// A route of the vehicle search is a lane route, after its start.
proof fn lemma_searched_lane_route(m: RoadMap, q: SearchQuery, v: Seq<SearchNode>)
    requires
        q.mode == SearchMode::Directional,
        is_search_route(m, q, SearchNode::Start, v),
    ensures
        v.len() >= 2,
        forall|i: int| 1 <= i < v.len() ==> #[trigger] v[i] is OnLane,
        is_lane_route(m, q.start_lane, q.end, v.drop_first().map_values(|n: SearchNode| n->OnLane_0)),
{
    assert forall|i: int| 1 <= i < v.len() implies #[trigger] v[i] is OnLane by {
        assert(search_step(m, q, v[i - 1], v[i]));
    }
    let ls = v.drop_first().map_values(|n: SearchNode| n->OnLane_0);
    assert(search_step(m, q, v[0], v[1]));
    assert forall|j: int| 0 <= j < ls.len() - 1 implies lane_step(m, #[trigger] ls[j], ls[j + 1]) by {
        assert(search_step(m, q, v[j + 1], v[j + 2]));
    }
}

impl DirectionalPath {
    /// A vehicle route from `start` to lane `end`: `start`, then alternately
    /// a turn and the lane it leads into (`expand_route`), following a lane
    /// route from `start`'s destination lane that reaches `end` only at its
    /// last lane; `None` when there is none.
    pub fn path(&self, m: &RoadMap, start: Traversable, end: LaneID) -> (r: Option<Vec<Traversable>>)
        requires
            search_fits(*m),
        ensures
            r is Some ==> exists|ls: Seq<LaneID>|
                is_lane_route(*m, start.spec_destination_lane(), end, ls) && (forall|i: int|
                    0 <= i < ls.len() - 1 ==> #[trigger] ls[i] != end) && r->Some_0@
                    == expand_route(*m, start, start.spec_destination_lane(), ls),
            r is None ==> forall|ls: Seq<LaneID>|
                !is_lane_route(*m, start.spec_destination_lane(), end, ls),
    {
        let start_lane = start.destination_lane();
        let q = SearchQuery {
            mode: SearchMode::Directional,
            start_lane,
            end,
            end_pos: target_position(m, end),
        };
        let found = astar_search(m, &q, &SearchNode::Start);
        match found {
            None => {
                proof {
                    assert forall|ls: Seq<LaneID>| !is_lane_route(*m, start_lane, end, ls) by {
                        if is_lane_route(*m, start_lane, end, ls) {
                            lemma_lane_route_searched(*m, q, ls);
                        }
                    }
                }
                None
            },
            Some(v) => {
                proof {
                    lemma_searched_lane_route(*m, q, v@);
                }
                let ghost ls = v@.drop_first().map_values(|n: SearchNode| n->OnLane_0);
                let mut path: Vec<Traversable> = Vec::new();
                path.push(start);
                let mut last = start_lane;
                let mut i: usize = 1;
                proof {
                    assert(ls.take(0) =~= Seq::<LaneID>::empty());
                    assert(path@ =~= expand_route(*m, start, start_lane, ls.take(0)));
                }
                while i < v.len()
                    invariant
                        v@.len() >= 2,
                        ls == v@.drop_first().map_values(|n: SearchNode| n->OnLane_0),
                        is_lane_route(*m, start_lane, end, ls),
                        forall|k: int| 1 <= k < v@.len() ==> #[trigger] v@[k] is OnLane,
                        1 <= i <= v@.len(),
                        last == lane_before(start_lane, ls, i - 1),
                        path@ == expand_route(*m, start, start_lane, ls.take(i - 1)),
                    decreases v.len() - i,
                {
                    let lane = match v[i] {
                        SearchNode::OnLane(l) => l,
                        _ => last,
                    };
                    assert(lane == ls[i - 1]);
                    proof {
                        if i > 1 {
                            assert(lane_step(*m, ls[i - 2], ls[i - 1]));
                        }
                    }
                    assert(lane_live(m.lanes@, last));
                    let parent = m.lanes[last.index].as_ref().unwrap().dst;
                    path.push(
                        Traversable::new(
                            TraverseKind::Turn(TurnID::new(parent, last, lane, false)),
                            TraverseDirection::Forward,
                        ),
                    );
                    path.push(Traversable::new(TraverseKind::Lane(lane), TraverseDirection::Forward));
                    proof {
                        let t = ls.take(i as int);
                        assert(t.drop_last() =~= ls.take(i - 1));
                        assert(lane_before(start_lane, t, t.len() - 1) == last);
                        assert(path@ =~= expand_route(*m, start, start_lane, t));
                    }
                    last = lane;
                    i += 1;
                }
                proof {
                    assert(ls.take(ls.len() as int) =~= ls);
                    assert forall|j: int| 0 <= j < ls.len() - 1 implies #[trigger] ls[j] != end by {
                        assert(!search_goal(q, v@[j + 1]));
                    }
                }
                Some(path)
            },
        }
    }
}

proof fn lemma_expand_route_ends(m: RoadMap, start: Traversable, from: LaneID, ls: Seq<LaneID>)
    ensures
        expand_route(m, start, from, ls).len() == 1 + 2 * ls.len(),
        expand_route(m, start, from, ls)[0] == start,
        ls.len() > 0 ==> expand_route(m, start, from, ls).last() == (Traversable {
            kind: TraverseKind::Lane(ls.last()),
            dir: TraverseDirection::Forward,
        }),
    decreases ls.len(),
{
    if ls.len() > 0 {
        lemma_expand_route_ends(m, start, from, ls.drop_last());
    }
}

/// A route search over the network.
pub trait Pathfinder {
    /// A route from `start` that ends on lane `end`, or `None`.
    fn path(&self, m: &RoadMap, start: Traversable, end: LaneID) -> (r: Option<Vec<Traversable>>)
        requires
            search_fits(*m),
        ensures
            r is Some ==> r->Some_0@.len() >= 1 && r->Some_0@[0] == start && r->Some_0@.last().kind
                == TraverseKind::Lane(end),
    ;
}

impl Pathfinder for PedestrianPath {
    fn path(&self, m: &RoadMap, start: Traversable, end: LaneID) -> (r: Option<Vec<Traversable>>) {
        PedestrianPath::path(self, m, start, end)
    }
}

impl Pathfinder for DirectionalPath {
    fn path(&self, m: &RoadMap, start: Traversable, end: LaneID) -> (r: Option<Vec<Traversable>>) {
        let r = DirectionalPath::path(self, m, start, end);
        proof {
            if r is Some {
                let ls = choose|ls: Seq<LaneID>|
                    is_lane_route(*m, start.spec_destination_lane(), end, ls) && r->Some_0@
                        == expand_route(*m, start, start.spec_destination_lane(), ls);
                lemma_expand_route_ends(*m, start, start.spec_destination_lane(), ls);
            }
        }
        r
    }
}

/// The network is consistent where turns are concerned: each intersection
/// sits in the slot of its identity, and each turn of it leads into a lane
/// that starts there.
pub open spec fn turns_consistent(m: RoadMap) -> bool {
    &&& forall|i: int|
        0 <= i < m.intersections@.len() && m.intersections@[i] is Some ==> (
        #[trigger] m.intersections@[i])->Some_0.id.index == i
    &&& forall|i: int, k: int|
        0 <= i < m.intersections@.len() && m.intersections@[i] is Some && 0 <= k
            < m.intersections@[i]->Some_0.turns@.len() && lane_live(
            m.lanes@,
            (#[trigger] m.intersections@[i]->Some_0.turns@[k]).id.dst,
        ) ==> lane_at(m.lanes@, m.intersections@[i]->Some_0.turns@[k].id.dst).src.index == i
}

proof fn lemma_expand_route_walks(m: RoadMap, from: LaneID, ls: Seq<LaneID>)
    requires
        turns_consistent(m),
        ls.len() >= 1 ==> lane_step(m, from, ls[0]),
        forall|i: int| 0 <= i < ls.len() - 1 ==> lane_step(m, #[trigger] ls[i], ls[i + 1]),
    ensures
        forall|i: int|
            0 <= i < expand_route(
                m,
                Traversable { kind: TraverseKind::Lane(from), dir: TraverseDirection::Forward },
                from,
                ls,
            ).len() - 1 ==> pedestrian_step(
                m,
                #[trigger] expand_route(
                    m,
                    Traversable { kind: TraverseKind::Lane(from), dir: TraverseDirection::Forward },
                    from,
                    ls,
                )[i],
                expand_route(
                    m,
                    Traversable { kind: TraverseKind::Lane(from), dir: TraverseDirection::Forward },
                    from,
                    ls,
                )[i + 1],
            ),
    decreases ls.len(),
{
    let start = Traversable { kind: TraverseKind::Lane(from), dir: TraverseDirection::Forward };
    if ls.len() > 0 {
        let pre = ls.drop_last();
        lemma_expand_route_walks(m, from, pre);
        lemma_expand_route_ends(m, start, from, pre);
        let e = expand_route(m, start, from, ls);
        let ep = expand_route(m, start, from, pre);
        let n = ls.len() - 1;
        let a = lane_before(from, ls, n);
        let b = ls.last();
        if n > 0 {
            assert(lane_step(m, ls[n - 1], ls[n]));
        }
        assert(lane_step(m, a, b));
        let parent = lane_at(m.lanes@, a).dst;
        let turn = Traversable {
            kind: TraverseKind::Turn(TurnID { parent, src: a, dst: b, bidirectional: false }),
            dir: TraverseDirection::Forward,
        };
        assert(ep.last() == (Traversable { kind: TraverseKind::Lane(a), dir: TraverseDirection::Forward }));
        let k = choose|k: int|
            0 <= k < inter_at(m.intersections@, parent).turns@.len() && #[trigger] inter_at(
                m.intersections@,
                parent,
            ).turns@[k].id == (TurnID { parent, src: a, dst: b, bidirectional: false });
        assert(turn_exit_fwd(m, parent, k, a, turn));
        assert(pedestrian_step(m, ep.last(), turn));
        assert(m.intersections@[parent.index as int] is Some);
        assert(pedestrian_step(m, turn, Traversable { kind: TraverseKind::Lane(b), dir: TraverseDirection::Forward }));
        assert forall|i: int| 0 <= i < e.len() - 1 implies pedestrian_step(m, #[trigger] e[i], e[i + 1]) by {
            if i < ep.len() - 1 {
                assert(e[i] == ep[i] && e[i + 1] == ep[i + 1]);
            } else if i == ep.len() - 1 {
                assert(e[i] == ep.last());
                assert(e[i + 1] == turn);
            } else {
                assert(e[i] == turn);
            }
        }
    }
}

spec fn turn_exit_fwd(m: RoadMap, parent: crate::network::IntersectionID, k: int, a: LaneID, u: Traversable) -> bool {
    crate::pathfinding::turn_exit(inter_at(m.intersections@, parent).turns@[k], a, u)
}

/// On a consistent network, wherever a vehicle can drive from lane `from`
/// to lane `end`, someone can walk it: so when no walk reaches `end` from a
/// vehicle on `from`, no vehicle route does either.
pub proof fn lemma_drive_implies_walk(m: RoadMap, from: LaneID, end: LaneID, ls: Seq<LaneID>)
    requires
        turns_consistent(m),
        is_lane_route(m, from, end, ls),
    ensures
        is_pedestrian_route(
            m,
            Traversable { kind: TraverseKind::Lane(from), dir: TraverseDirection::Forward },
            end,
            expand_route(
                m,
                Traversable { kind: TraverseKind::Lane(from), dir: TraverseDirection::Forward },
                from,
                ls,
            ),
        ),
{
    let start = Traversable { kind: TraverseKind::Lane(from), dir: TraverseDirection::Forward };
    lemma_expand_route_walks(m, from, ls);
    lemma_expand_route_ends(m, start, from, ls);
}

} // verus!
