//! Direction-aware references to lanes and turns: the unit that routes are
//! made of, and the accessor of their geometry and signals.

use crate::geometry::Point;
use crate::map::RoadMap;
use crate::network::{
    contains_intersection, contains_lane, inter_at, inter_live, lane_at, lane_live, IntersectionID,
    LaneID, Lanes, Turn, TurnID,
};
use vstd::prelude::*;

verus! {

#[derive(Clone, Copy, PartialEq, Eq, Hash, Debug, Structural)]
pub enum TraverseDirection {
    Forward,
    Backward,
}

#[derive(Clone, Copy, PartialEq, Eq, Hash, Debug, Structural)]
pub enum TraverseKind {
    Lane(LaneID),
    Turn(TurnID),
}

impl TraverseKind {
    pub fn is_lane(&self) -> (r: bool)
        ensures
            r == (*self is Lane),
    {
        match self {
            TraverseKind::Lane(_) => true,
            TraverseKind::Turn(_) => false,
        }
    }
}

/// `i` is the position of the first turn of `turns` whose identity is `id`.
pub open spec fn has_turn(turns: Seq<Turn>, id: TurnID, i: int) -> bool {
    &&& 0 <= i < turns.len()
    &&& turns[i].id == id
    &&& forall|j: int| 0 <= j < i ==> turns[j].id != id
}

/// At most one position is the first turn with a given identity, so
/// `raw_points` and `points` read the same turn.
pub proof fn lemma_first_turn_unique(turns: Seq<Turn>, id: TurnID, i: int, j: int)
    requires
        has_turn(turns, id, i),
        has_turn(turns, id, j),
    ensures
        i == j,
{
}

/// `s` walked from its last element to its first.
pub open spec fn reversed(s: Seq<Point>) -> Seq<Point> {
    Seq::new(s.len(), |i: int| s[s.len() - 1 - i])
}

#[derive(Clone, Copy, PartialEq, Eq, Hash, Debug, Structural)]
pub struct Traversable {
    pub kind: TraverseKind,
    pub dir: TraverseDirection,
}

impl Traversable {
    pub fn new(kind: TraverseKind, dir: TraverseDirection) -> (r: Traversable)
        ensures
            r == (Traversable { kind, dir }),
    {
        Traversable { kind, dir }
    }

    /// The lane or turn still exists in `m`.
    pub open spec fn spec_is_valid(&self, m: RoadMap) -> bool {
        match self.kind {
            TraverseKind::Lane(id) => lane_live(m.lanes@, id),
            TraverseKind::Turn(id) => inter_live(m.intersections@, id.parent) && lane_live(
                m.lanes@,
                id.src,
            ) && lane_live(m.lanes@, id.dst),
        }
    }

    /// The geometry can be read: the lane exists, or the turn is stored in
    /// the intersection it names.
    pub open spec fn has_points(&self, m: RoadMap) -> bool {
        match self.kind {
            TraverseKind::Lane(id) => lane_live(m.lanes@, id),
            TraverseKind::Turn(id) => inter_live(m.intersections@, id.parent) && exists|i: int|
                has_turn(inter_at(m.intersections@, id.parent).turns@, id, i),
        }
    }

    pub open spec fn spec_destination_lane(&self) -> LaneID {
        match self.kind {
            TraverseKind::Lane(p) => p,
            TraverseKind::Turn(t) => match self.dir {
                TraverseDirection::Forward => t.dst,
                TraverseDirection::Backward => t.src,
            },
        }
    }

    /// The intersection reached at the end of this traversable. For a lane
    /// it is read from `lanes`, where the lane must exist.
    pub open spec fn spec_destination_intersection(&self, lanes: Seq<Option<crate::network::Lane>>) -> IntersectionID {
        match self.kind {
            TraverseKind::Lane(p) => match self.dir {
                TraverseDirection::Forward => lane_at(lanes, p).dst,
                TraverseDirection::Backward => lane_at(lanes, p).src,
            },
            TraverseKind::Turn(id) => id.parent,
        }
    }

    /// The destination intersection can be read from `lanes`.
    pub open spec fn destination_known(&self, lanes: Seq<Option<crate::network::Lane>>) -> bool {
        match self.kind {
            TraverseKind::Lane(p) => lane_live(lanes, p),
            TraverseKind::Turn(_) => true,
        }
    }

    pub fn is_valid(&self, m: &RoadMap) -> (r: bool)
        ensures
            r == self.spec_is_valid(*m),
    {
        match self.kind {
            TraverseKind::Lane(id) => contains_lane(&m.lanes, id),
            TraverseKind::Turn(id) => contains_intersection(&m.intersections, id.parent)
                && contains_lane(&m.lanes, id.src) && contains_lane(&m.lanes, id.dst),
        }
    }

    pub fn destination_lane(&self) -> (r: LaneID)
        ensures
            r == self.spec_destination_lane(),
    {
        match self.kind {
            TraverseKind::Lane(p) => p,
            TraverseKind::Turn(t) => match self.dir {
                TraverseDirection::Forward => t.dst,
                TraverseDirection::Backward => t.src,
            },
        }
    }

    pub fn destination_intersection(&self, lanes: &Lanes) -> (r: IntersectionID)
        requires
            self.destination_known(lanes@),
        ensures
            r == self.spec_destination_intersection(lanes@),
    {
        match self.kind {
            TraverseKind::Lane(p) => {
                let l = lanes[p.index].as_ref().unwrap();
                match self.dir {
                    TraverseDirection::Forward => l.dst,
                    TraverseDirection::Backward => l.src,
                }
            },
            TraverseKind::Turn(id) => id.parent,
        }
    }

    /// A lane can be entered at `time` unless its signal is red; a turn can
    /// always be entered.
    pub fn can_pass(&self, time: u64, lanes: &Lanes) -> (r: bool)
        requires
            self.destination_known(lanes@),
        ensures
            r == match self.kind {
                TraverseKind::Lane(id) => lane_at(lanes@, id).control.behavior(time as int)
                    != crate::signal::TrafficBehavior::Red,
                TraverseKind::Turn(_) => true,
            },
    {
        match self.kind {
            TraverseKind::Lane(id) => !lanes[id.index].as_ref().unwrap().control.get_behavior(
                time,
            ).is_red(),
            TraverseKind::Turn(_) => true,
        }
    }

    /// The stored polyline, without the direction applied.
    pub fn raw_points<'a>(&self, m: &'a RoadMap) -> (r: &'a Vec<Point>)
        requires
            self.has_points(*m),
        ensures
            self.kind is Lane ==> r@ == lane_at(m.lanes@, self.kind->Lane_0).points@,
            self.kind is Turn ==> exists|i: int|
                has_turn(
                    inter_at(m.intersections@, self.kind->Turn_0.parent).turns@,
                    self.kind->Turn_0,
                    i,
                ) && r@ == inter_at(m.intersections@, self.kind->Turn_0.parent).turns@[i].points@,
    {
        match self.kind {
            TraverseKind::Lane(id) => {
                let l = m.lanes[id.index].as_ref().unwrap();
                assert(*l == lane_at(m.lanes@, id));
                &l.points
            },
            TraverseKind::Turn(id) => {
                let inter = m.intersections[id.parent.index].as_ref().unwrap();
                let i = inter.find_turn(id);
                assert(*inter == inter_at(m.intersections@, id.parent));
                assert(has_turn(inter.turns@, id, i as int));
                &inter.turns[i].points
            },
        }
    }

    /// The polyline in the direction of travel.
    pub fn points(&self, m: &RoadMap) -> (r: Vec<Point>)
        requires
            self.has_points(*m),
        ensures
            match self.kind {
                TraverseKind::Lane(id) => r@ == match self.dir {
                    TraverseDirection::Forward => lane_at(m.lanes@, id).points@,
                    TraverseDirection::Backward => reversed(lane_at(m.lanes@, id).points@),
                },
                TraverseKind::Turn(id) => exists|i: int|
                    has_turn(inter_at(m.intersections@, id.parent).turns@, id, i) && r@ == match self.dir {
                        TraverseDirection::Forward => inter_at(m.intersections@, id.parent).turns@[i].points@,
                        TraverseDirection::Backward => reversed(
                            inter_at(m.intersections@, id.parent).turns@[i].points@,
                        ),
                    },
            },
    {
        let p = self.raw_points(m);
        let mut r: Vec<Point> = Vec::new();
        let mut i: usize = 0;
        while i < p.len()
            invariant
                i <= p@.len(),
                r@.len() == i,
                forall|j: int|
                    0 <= j < i ==> r@[j] == match self.dir {
                        TraverseDirection::Forward => p@[j],
                        TraverseDirection::Backward => p@[p@.len() - 1 - j],
                    },
            decreases p.len() - i,
        {
            match self.dir {
                TraverseDirection::Forward => r.push(p[i]),
                TraverseDirection::Backward => r.push(p[p.len() - 1 - i]),
            }
            i += 1;
        }
        match self.dir {
            TraverseDirection::Forward => assert(r@ =~= p@),
            TraverseDirection::Backward => assert(r@ =~= reversed(p@)),
        }
        r
    }
}

} // verus!
