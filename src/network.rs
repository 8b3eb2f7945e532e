//! The network's entities: lanes, roads, turns and intersections, kept in
//! index arenas, and the intersection-local turn generation.

use crate::geometry::Point;
use crate::geometry::{pseudo_angle_less, pseudo_angle_lt};
use crate::signal::{TrafficLight, TrafficLightSchedule};
use crate::traversable::TraverseDirection;
use vstd::prelude::*;

verus! {

#[derive(Clone, Copy, PartialEq, Eq, Hash, Debug, Structural)]
pub struct LaneID {
    pub index: usize,
}

#[derive(Clone, Copy, PartialEq, Eq, Hash, Debug, Structural)]
pub struct RoadID {
    pub index: usize,
}

#[derive(Clone, Copy, PartialEq, Eq, Hash, Debug, Structural)]
pub struct IntersectionID {
    pub index: usize,
}

/// Identity of a turn: the intersection it lies in and the lanes it joins.
#[derive(Clone, Copy, PartialEq, Eq, Hash, Debug, Structural)]
pub struct TurnID {
    pub parent: IntersectionID,
    pub src: LaneID,
    pub dst: LaneID,
    pub bidirectional: bool,
}

impl TurnID {
    pub fn new(parent: IntersectionID, src: LaneID, dst: LaneID, bidirectional: bool) -> (r: TurnID)
        ensures
            r == (TurnID { parent, src, dst, bidirectional }),
    {
        TurnID { parent, src, dst, bidirectional }
    }
}

/// One directed travel path from intersection `src` to intersection `dst`.
/// `length` is in the network's distance unit.
pub struct Lane {
    pub id: LaneID,
    pub parent: RoadID,
    pub src: IntersectionID,
    pub dst: IntersectionID,
    pub points: Vec<Point>,
    pub length: u32,
    pub control: TrafficLight,
}

impl Lane {
    /// Direction in which the lane is walked when leaving `inter`.
    pub open spec fn spec_dir_from(&self, inter: IntersectionID) -> TraverseDirection {
        if self.src == inter {
            TraverseDirection::Forward
        } else {
            TraverseDirection::Backward
        }
    }

    pub fn dir_from(&self, inter: IntersectionID) -> (r: TraverseDirection)
        ensures
            r == self.spec_dir_from(inter),
    {
        if self.src == inter {
            TraverseDirection::Forward
        } else {
            TraverseDirection::Backward
        }
    }
}

/// An undirected link between two intersections, grouping its lanes:
/// forward lanes run from `src` to `dst`, backward lanes the other way.
pub struct Road {
    pub id: RoadID,
    pub src: IntersectionID,
    pub dst: IntersectionID,
    pub src_pos: Point,
    pub dst_pos: Point,
    pub lanes_forward: Vec<LaneID>,
    pub lanes_backward: Vec<LaneID>,
}

impl Road {
    /// The lanes of this road that enter `inter`: the backward ones when the
    /// road starts there (also for a road that starts and ends there), the
    /// forward ones otherwise.
    pub open spec fn spec_incoming_from(&self, inter: IntersectionID) -> Seq<LaneID> {
        if self.src == inter {
            self.lanes_backward@
        } else {
            self.lanes_forward@
        }
    }

    /// The lanes of this road that leave `inter`: the forward ones when the
    /// road starts there, the backward ones otherwise.
    pub open spec fn spec_outgoing_from(&self, inter: IntersectionID) -> Seq<LaneID> {
        if self.src == inter {
            self.lanes_forward@
        } else {
            self.lanes_backward@
        }
    }

    pub fn incoming_lanes_from(&self, inter: IntersectionID) -> (r: &Vec<LaneID>)
        ensures
            r@ == self.spec_incoming_from(inter),
    {
        if self.src == inter {
            &self.lanes_backward
        } else {
            &self.lanes_forward
        }
    }

    /// Direction of the road as seen from `inter`, pointing away from it.
    pub open spec fn spec_dir_from(&self, inter: IntersectionID) -> (int, int) {
        if self.src == inter {
            (self.dst_pos.x - self.src_pos.x, self.dst_pos.y - self.src_pos.y)
        } else {
            (self.src_pos.x - self.dst_pos.x, self.src_pos.y - self.dst_pos.y)
        }
    }

    pub fn dir_from(&self, inter: IntersectionID) -> (r: (i64, i64))
        ensures
            r.0 == self.spec_dir_from(inter).0,
            r.1 == self.spec_dir_from(inter).1,
            -0x1_0000_0000i64 < r.0 < 0x1_0000_0000i64,
            -0x1_0000_0000i64 < r.1 < 0x1_0000_0000i64,
    {
        if self.src == inter {
            (
                self.dst_pos.x as i64 - self.src_pos.x as i64,
                self.dst_pos.y as i64 - self.src_pos.y as i64,
            )
        } else {
            (
                self.src_pos.x as i64 - self.dst_pos.x as i64,
                self.src_pos.y as i64 - self.dst_pos.y as i64,
            )
        }
    }
}

/// A directed connector inside an intersection from one lane to another.
/// `points` is its geometry, meaningful only while `generated` holds.
pub struct Turn {
    pub id: TurnID,
    pub points: Vec<Point>,
    pub generated: bool,
}

impl Turn {
    pub fn new(id: TurnID) -> (r: Turn)
        ensures
            is_fresh_turn(r, id),
    {
        Turn { id, points: Vec::new(), generated: false }
    }
}

/// A turn that has just been created for `id` and has no geometry yet.
pub open spec fn is_fresh_turn(t: Turn, id: TurnID) -> bool {
    t.id == id && !t.generated && t.points@.len() == 0
}

pub struct Intersection {
    pub id: IntersectionID,
    pub pos: Point,
    pub turns: Vec<Turn>,
    pub incoming_lanes: Vec<LaneID>,
    pub outgoing_lanes: Vec<LaneID>,
    pub roads: Vec<RoadID>,
}

pub type Lanes = Vec<Option<Lane>>;

pub type Roads = Vec<Option<Road>>;

pub type Intersections = Vec<Option<Intersection>>;

pub open spec fn lane_live(lanes: Seq<Option<Lane>>, id: LaneID) -> bool {
    id.index < lanes.len() && lanes[id.index as int] is Some
}

pub open spec fn lane_at(lanes: Seq<Option<Lane>>, id: LaneID) -> Lane {
    lanes[id.index as int]->Some_0
}

pub open spec fn road_live(roads: Seq<Option<Road>>, id: RoadID) -> bool {
    id.index < roads.len() && roads[id.index as int] is Some
}

pub open spec fn road_at(roads: Seq<Option<Road>>, id: RoadID) -> Road {
    roads[id.index as int]->Some_0
}

pub open spec fn inter_live(inters: Seq<Option<Intersection>>, id: IntersectionID) -> bool {
    id.index < inters.len() && inters[id.index as int] is Some
}

pub open spec fn inter_at(inters: Seq<Option<Intersection>>, id: IntersectionID) -> Intersection {
    inters[id.index as int]->Some_0
}

pub fn contains_lane(lanes: &Lanes, id: LaneID) -> (r: bool)
    ensures
        r == lane_live(lanes@, id),
{
    id.index < lanes.len() && lanes[id.index].is_some()
}

pub fn contains_road(roads: &Roads, id: RoadID) -> (r: bool)
    ensures
        r == road_live(roads@, id),
{
    id.index < roads.len() && roads[id.index].is_some()
}

pub fn contains_intersection(inters: &Intersections, id: IntersectionID) -> (r: bool)
    ensures
        r == inter_live(inters@, id),
{
    id.index < inters.len() && inters[id.index].is_some()
}

/// The pair `(x, y)`, or `(y, x)` when `flip` holds.
pub open spec fn oriented(x: LaneID, y: LaneID, flip: bool) -> (LaneID, LaneID) {
    if flip {
        (y, x)
    } else {
        (x, y)
    }
}

/// `x` paired with every lane of `ys`, in order.
pub open spec fn row(x: LaneID, ys: Seq<LaneID>, flip: bool) -> Seq<(LaneID, LaneID)> {
    Seq::new(ys.len(), |j: int| oriented(x, ys[j], flip))
}

/// Every lane of `xs` paired with every lane of `ys`, `xs` in the outer order.
pub open spec fn cross(xs: Seq<LaneID>, ys: Seq<LaneID>, flip: bool) -> Seq<(LaneID, LaneID)>
    decreases xs.len(),
{
    if xs.len() == 0 {
        Seq::empty()
    } else {
        cross(xs.drop_last(), ys, flip) + row(xs.last(), ys, flip)
    }
}

/// `xs` and `ys` paired by position, as far as the shorter one goes.
pub open spec fn zip(xs: Seq<LaneID>, ys: Seq<LaneID>, flip: bool) -> Seq<(LaneID, LaneID)> {
    let n = if xs.len() < ys.len() {
        xs.len()
    } else {
        ys.len()
    };
    Seq::new(n, |k: int| oriented(xs[k], ys[k], flip))
}

/// The (source, destination) pairs of the turns created when lanes `incoming`
/// and `outgoing` join an intersection that now has `n_roads` roads and had
/// `old_in` and `old_out` as its incoming and outgoing lanes.
pub open spec fn new_turn_pairs(
    n_roads: int,
    old_in: Seq<LaneID>,
    old_out: Seq<LaneID>,
    incoming: Seq<LaneID>,
    outgoing: Seq<LaneID>,
) -> Seq<(LaneID, LaneID)> {
    if n_roads >= 3 {
        cross(old_in, outgoing, false) + cross(old_out, incoming, true)
    } else if n_roads == 2 {
        zip(old_in, outgoing, false) + zip(old_out, incoming, true)
    } else {
        Seq::empty()
    }
}

/// `new` is `old` followed by one fresh turn of `parent` for each pair.
pub open spec fn turns_extend(
    old: Seq<Turn>,
    new: Seq<Turn>,
    parent: IntersectionID,
    pairs: Seq<(LaneID, LaneID)>,
) -> bool {
    &&& new.len() == old.len() + pairs.len()
    &&& forall|i: int| 0 <= i < old.len() ==> new[i] == old[i]
    &&& forall|k: int|
        0 <= k < pairs.len() ==> is_fresh_turn(
            #[trigger] new[old.len() + k],
            TurnID { parent, src: pairs[k].0, dst: pairs[k].1, bidirectional: false },
        )
}

proof fn lemma_turns_extend_trans(
    a: Seq<Turn>,
    b: Seq<Turn>,
    c: Seq<Turn>,
    parent: IntersectionID,
    p: Seq<(LaneID, LaneID)>,
    q: Seq<(LaneID, LaneID)>,
)
    requires
        turns_extend(a, b, parent, p),
        turns_extend(b, c, parent, q),
    ensures
        turns_extend(a, c, parent, p + q),
{
    assert forall|k: int| 0 <= k < (p + q).len() implies is_fresh_turn(
        #[trigger] c[a.len() + k],
        TurnID { parent, src: (p + q)[k].0, dst: (p + q)[k].1, bidirectional: false },
    ) by {
        if k < p.len() {
            assert(c[a.len() + k] == b[a.len() + k]);
        } else {
            assert(c[a.len() + k] == c[b.len() + (k - p.len())]);
        }
    }
}

proof fn lemma_turns_extend_empty(a: Seq<Turn>, parent: IntersectionID)
    ensures
        turns_extend(a, a, parent, Seq::empty()),
{
}

/// Copy of a list of lane identities.
pub fn copy_lane_ids(v: &Vec<LaneID>) -> (r: Vec<LaneID>)
    ensures
        r@ == v@,
{
    let mut r: Vec<LaneID> = Vec::new();
    let mut i: usize = 0;
    while i < v.len()
        invariant
            i <= v.len(),
            r@ == v@.take(i as int),
        decreases v.len() - i,
    {
        r.push(v[i]);
        i += 1;
        assert(r@ =~= v@.take(i as int));
    }
    assert(r@ =~= v@);
    r
}

/// The identities of `ids` whose lanes still exist, in order.
pub open spec fn live_lane_ids(ids: Seq<LaneID>, lanes: Seq<Option<Lane>>) -> Seq<LaneID>
    decreases ids.len(),
{
    if ids.len() == 0 {
        ids
    } else {
        let p = live_lane_ids(ids.drop_last(), lanes);
        if lane_live(lanes, ids.last()) {
            p.push(ids.last())
        } else {
            p
        }
    }
}

/// The identities of `ids` whose roads still exist, in order.
pub open spec fn live_road_ids(ids: Seq<RoadID>, roads: Seq<Option<Road>>) -> Seq<RoadID>
    decreases ids.len(),
{
    if ids.len() == 0 {
        ids
    } else {
        let p = live_road_ids(ids.drop_last(), roads);
        if road_live(roads, ids.last()) {
            p.push(ids.last())
        } else {
            p
        }
    }
}

/// A turn survives cleaning when it has geometry and both its lanes exist.
pub open spec fn turn_kept(t: Turn, lanes: Seq<Option<Lane>>) -> bool {
    t.generated && lane_live(lanes, t.id.src) && lane_live(lanes, t.id.dst)
}

pub open spec fn kept_turns(ts: Seq<Turn>, lanes: Seq<Option<Lane>>) -> Seq<Turn>
    decreases ts.len(),
{
    if ts.len() == 0 {
        ts
    } else {
        let p = kept_turns(ts.drop_last(), lanes);
        if turn_kept(ts.last(), lanes) {
            p.push(ts.last())
        } else {
            p
        }
    }
}

/// A turn can be given geometry when both its lanes exist and have points.
pub open spec fn turn_can_place(t: Turn, lanes: Seq<Option<Lane>>) -> bool {
    &&& lane_live(lanes, t.id.src)
    &&& lane_live(lanes, t.id.dst)
    &&& lane_at(lanes, t.id.src).points@.len() > 0
    &&& lane_at(lanes, t.id.dst).points@.len() > 0
}

/// `new` is `old` after geometry generation: a turn that can be placed runs
/// from the end of its source lane to the start of its destination lane, and
/// a turn that already had a shape keeps its inner points.
pub open spec fn turn_placed(old: Turn, new: Turn, lanes: Seq<Option<Lane>>) -> bool {
    if turn_can_place(old, lanes) {
        &&& new.id == old.id
        &&& new.generated
        &&& new.points@.len() >= 2
        &&& new.points@[0] == lane_at(lanes, old.id.src).points@.last()
        &&& new.points@.last() == lane_at(lanes, old.id.dst).points@[0]
        &&& (old.generated && old.points@.len() >= 2) ==> {
            &&& new.points@.len() == old.points@.len()
            &&& forall|j: int| 0 < j < old.points@.len() - 1 ==> new.points@[j] == old.points@[j]
        }
    } else {
        new == old
    }
}

fn live_lanes_of(v: &Vec<LaneID>, lanes: &Lanes) -> (r: Vec<LaneID>)
    ensures
        r@ == live_lane_ids(v@, lanes@),
{
    let mut r: Vec<LaneID> = Vec::new();
    let mut i: usize = 0;
    while i < v.len()
        invariant
            i <= v.len(),
            r@ == live_lane_ids(v@.take(i as int), lanes@),
        decreases v.len() - i,
    {
        assert(v@.take(i + 1).drop_last() =~= v@.take(i as int));
        if contains_lane(lanes, v[i]) {
            r.push(v[i]);
        }
        i += 1;
    }
    assert(v@.take(v@.len() as int) =~= v@);
    r
}

fn live_roads_of(v: &Vec<RoadID>, roads: &Roads) -> (r: Vec<RoadID>)
    ensures
        r@ == live_road_ids(v@, roads@),
{
    let mut r: Vec<RoadID> = Vec::new();
    let mut i: usize = 0;
    while i < v.len()
        invariant
            i <= v.len(),
            r@ == live_road_ids(v@.take(i as int), roads@),
        decreases v.len() - i,
    {
        assert(v@.take(i + 1).drop_last() =~= v@.take(i as int));
        if contains_road(roads, v[i]) {
            r.push(v[i]);
        }
        i += 1;
    }
    assert(v@.take(v@.len() as int) =~= v@);
    r
}

fn retain_kept_turns(v: &mut Vec<Turn>, lanes: &Lanes)
    ensures
        final(v)@ == kept_turns(old(v)@, lanes@),
{
    let ghost orig = v@;
    let mut i: usize = 0;
    let ghost mut k: int = 0;
    while i < v.len()
        invariant
            0 <= k <= orig.len(),
            v@ == kept_turns(orig.take(k), lanes@) + orig.skip(k),
            i == kept_turns(orig.take(k), lanes@).len(),
        decreases v.len() - i,
    {
        assert(v@[i as int] == orig[k]);
        assert(orig.take(k + 1).drop_last() =~= orig.take(k));
        let keep = v[i].generated && contains_lane(lanes, v[i].id.src) && contains_lane(
            lanes,
            v[i].id.dst,
        );
        if keep {
            i += 1;
        } else {
            v.remove(i);
        }
        proof {
            assert(v@ =~= kept_turns(orig.take(k + 1), lanes@) + orig.skip(k + 1));
            k = k + 1;
        }
    }
    assert(kept_turns(orig.take(k), lanes@).len() == v@.len());
    assert(orig.skip(k).len() == 0);
    assert(orig.take(k) =~= orig);
    assert(v@ =~= kept_turns(orig, lanes@));
}

impl Intersection {
    /// Drops the lanes and roads that no longer exist and every turn that has
    /// no geometry or touches a removed lane.
    pub fn clean(&mut self, lanes: &Lanes, roads: &Roads)
        ensures
            final(self).incoming_lanes@ == live_lane_ids(old(self).incoming_lanes@, lanes@),
            final(self).outgoing_lanes@ == live_lane_ids(old(self).outgoing_lanes@, lanes@),
            final(self).roads@ == live_road_ids(old(self).roads@, roads@),
            final(self).turns@ == kept_turns(old(self).turns@, lanes@),
            final(self).id == old(self).id,
            final(self).pos == old(self).pos,
    {
        self.incoming_lanes = live_lanes_of(&self.incoming_lanes, lanes);
        self.outgoing_lanes = live_lanes_of(&self.outgoing_lanes, lanes);
        retain_kept_turns(&mut self.turns, lanes);
        self.roads = live_roads_of(&self.roads, roads);
    }

    /// Gives every turn whose lanes exist its geometry: a new turn gets the
    /// segment from its source lane's end to its destination lane's start; a
    /// turn that already has a shape has its two end points moved onto the
    /// lanes' current ends. The inner shape is refined outside the library.
    pub fn gen_turns(&mut self, lanes: &Lanes)
        ensures
            final(self).turns@.len() == old(self).turns@.len(),
            forall|i: int|
                0 <= i < old(self).turns@.len() ==> turn_placed(
                    #[trigger] old(self).turns@[i],
                    final(self).turns@[i],
                    lanes@,
                ),
            final(self).id == old(self).id,
            final(self).pos == old(self).pos,
            final(self).incoming_lanes == old(self).incoming_lanes,
            final(self).outgoing_lanes == old(self).outgoing_lanes,
            final(self).roads == old(self).roads,
    {
        let mut i: usize = 0;
        while i < self.turns.len()
            invariant
                i <= self.turns@.len(),
                self.turns@.len() == old(self).turns@.len(),
                forall|j: int|
                    0 <= j < i ==> turn_placed(
                        #[trigger] old(self).turns@[j],
                        self.turns@[j],
                        lanes@,
                    ),
                forall|j: int| i <= j < self.turns@.len() ==> self.turns@[j] == old(self).turns@[j],
                self.id == old(self).id,
                self.pos == old(self).pos,
                self.incoming_lanes == old(self).incoming_lanes,
                self.outgoing_lanes == old(self).outgoing_lanes,
                self.roads == old(self).roads,
            decreases self.turns.len() - i,
        {
            let src = self.turns[i].id.src;
            let dst = self.turns[i].id.dst;
            if contains_lane(lanes, src) && contains_lane(lanes, dst) {
                let src_points = &lanes[src.index].as_ref().unwrap().points;
                let dst_points = &lanes[dst.index].as_ref().unwrap().points;
                if src_points.len() > 0 && dst_points.len() > 0 {
                    let a = src_points[src_points.len() - 1];
                    let b = dst_points[0];
                    let mut t = self.turns.remove(i);
                    let n = t.points.len();
                    if t.generated && n >= 2 {
                        t.points.set(0, a);
                        t.points.set(n - 1, b);
                    } else {
                        t.points = vec![a, b];
                        t.generated = true;
                    }
                    self.turns.insert(i, t);
                }
            }
            i += 1;
        }
    }
}

/// Green time of a periodic signal cycle.
pub const CYCLE_SIZE: u64 = 10;

/// Orange time of a periodic signal cycle.
pub const ORANGE_LENGTH: u64 = 5;

/// The roads of `rids` that exist and have lanes entering `inter`, in order:
/// the groups of incoming lanes that share a signal.
pub open spec fn group_roads(rids: Seq<RoadID>, roads: Seq<Option<Road>>, inter: IntersectionID) -> Seq<
    RoadID,
>
    decreases rids.len(),
{
    if rids.len() == 0 {
        rids
    } else {
        let p = group_roads(rids.drop_last(), roads, inter);
        let r = rids.last();
        if road_live(roads, r) && road_at(roads, r).spec_incoming_from(inter).len() > 0 {
            p.push(r)
        } else {
            p
        }
    }
}

pub open spec fn group_lanes(
    gs: Seq<RoadID>,
    roads: Seq<Option<Road>>,
    inter: IntersectionID,
    g: int,
) -> Seq<LaneID> {
    road_at(roads, gs[g]).spec_incoming_from(inter)
}

/// Group `h` comes before group `g` in the angular order: its road leaves
/// `inter` at a smaller pseudo-angle, or at the same one and earlier in `gs`.
pub open spec fn group_before(
    gs: Seq<RoadID>,
    roads: Seq<Option<Road>>,
    inter: IntersectionID,
    h: int,
    g: int,
) -> bool {
    let dh = road_at(roads, gs[h]).spec_dir_from(inter);
    let dg = road_at(roads, gs[g]).spec_dir_from(inter);
    pseudo_angle_lt(dh.0, dh.1, dg.0, dg.1) || (!pseudo_angle_lt(dg.0, dg.1, dh.0, dh.1) && h
        < g)
}

/// Number of groups among the first `n` that come before group `g`.
pub open spec fn count_before(
    gs: Seq<RoadID>,
    roads: Seq<Option<Road>>,
    inter: IntersectionID,
    g: int,
    n: int,
) -> int
    decreases n,
{
    if n <= 0 {
        0
    } else {
        count_before(gs, roads, inter, g, n - 1) + if group_before(gs, roads, inter, n - 1, g) {
            1int
        } else {
            0int
        }
    }
}

/// Position of group `g` once the groups are sorted by angle.
pub open spec fn angle_rank(
    gs: Seq<RoadID>,
    roads: Seq<Option<Road>>,
    inter: IntersectionID,
    g: int,
) -> int {
    count_before(gs, roads, inter, g, gs.len() as int)
}

/// The signal of the group at position `rank` when there are `n_groups`
/// groups: always passable at a simple merge, otherwise two alternating
/// phases.
pub open spec fn light_for_rank(n_groups: int, rank: int) -> TrafficLight {
    if n_groups <= 2 {
        TrafficLight::Always
    } else {
        TrafficLight::Periodic(
            TrafficLightSchedule {
                green: CYCLE_SIZE,
                orange: ORANGE_LENGTH,
                red: (CYCLE_SIZE + ORANGE_LENGTH) as u64,
                offset: if rank % 2 == 0 {
                    0
                } else {
                    (CYCLE_SIZE + ORANGE_LENGTH) as u64
                },
            },
        )
    }
}

/// The signal that `update_traffic_lights` gives to the lanes of group `g`.
pub open spec fn group_light(
    gs: Seq<RoadID>,
    roads: Seq<Option<Road>>,
    inter: IntersectionID,
    g: int,
) -> TrafficLight {
    light_for_rank(gs.len() as int, angle_rank(gs, roads, inter, g))
}

pub open spec fn with_control(l: Lane, c: TrafficLight) -> Lane {
    Lane { control: c, ..l }
}

/// No lane enters through two different groups.
pub open spec fn groups_disjoint(
    gs: Seq<RoadID>,
    roads: Seq<Option<Road>>,
    inter: IntersectionID,
) -> bool {
    forall|g1: int, g2: int, a: int, b: int|
        0 <= g1 < gs.len() && 0 <= g2 < gs.len() && g1 != g2 && 0 <= a < group_lanes(
            gs,
            roads,
            inter,
            g1,
        ).len() && 0 <= b < group_lanes(gs, roads, inter, g2).len() ==> #[trigger] group_lanes(
            gs,
            roads,
            inter,
            g1,
        )[a] != #[trigger] group_lanes(gs, roads, inter, g2)[b]
}

/// Lane slot `idx` is one of the first `g` groups' lanes, or one of the
/// first `a` lanes of group `g`.
pub open spec fn slot_covered(
    gs: Seq<RoadID>,
    roads: Seq<Option<Road>>,
    inter: IntersectionID,
    g: int,
    a: int,
    idx: int,
) -> bool {
    (exists|g2: int, b: int|
        0 <= g2 < g && 0 <= b < group_lanes(gs, roads, inter, g2).len() && #[trigger] group_lanes(
            gs,
            roads,
            inter,
            g2,
        )[b].index == idx) || (exists|b: int|
        0 <= b < a && #[trigger] group_lanes(gs, roads, inter, g)[b].index == idx)
}

proof fn lemma_group_roads_live(rids: Seq<RoadID>, roads: Seq<Option<Road>>, inter: IntersectionID)
    ensures
        forall|g: int|
            0 <= g < group_roads(rids, roads, inter).len() ==> road_live(
                roads,
                #[trigger] group_roads(rids, roads, inter)[g],
            ),
    decreases rids.len(),
{
    if rids.len() > 0 {
        lemma_group_roads_live(rids.drop_last(), roads, inter);
        let p = group_roads(rids.drop_last(), roads, inter);
        assert forall|g: int| 0 <= g < group_roads(rids, roads, inter).len() implies road_live(
            roads,
            #[trigger] group_roads(rids, roads, inter)[g],
        ) by {
            if g < p.len() {
                assert(group_roads(rids, roads, inter)[g] == p[g]);
            }
        }
    }
}

/// An intersection that gets its second road pairs lanes by position: when
/// both roads have `n` lanes each way, `n` turns run each way, the `k`-th lane
/// entering from one road joined to the `k`-th lane leaving by the other.
pub proof fn lemma_two_roads_pair_lanes(
    old_in: Seq<LaneID>,
    old_out: Seq<LaneID>,
    incoming: Seq<LaneID>,
    outgoing: Seq<LaneID>,
    n: nat,
)
    requires
        old_in.len() == n,
        old_out.len() == n,
        incoming.len() == n,
        outgoing.len() == n,
    ensures
        new_turn_pairs(2, old_in, old_out, incoming, outgoing).len() == 2 * n,
        forall|k: int|
            0 <= k < n ==> #[trigger] new_turn_pairs(2, old_in, old_out, incoming, outgoing)[k] == (
            old_in[k],
            outgoing[k],
        ),
        forall|k: int|
            0 <= k < n ==> #[trigger] new_turn_pairs(2, old_in, old_out, incoming, outgoing)[n + k]
                == (incoming[k], old_out[k]),
{
}

/// When a third road, with one lane each way, joins an intersection whose
/// two roads also have one lane each way, every lane entering from one road
/// gets a turn to the lane leaving by each other road: with the two turns
/// that the second road brought, all six such pairs are joined.
pub proof fn lemma_third_road_fans_out(
    a_in: LaneID,
    a_out: LaneID,
    b_in: LaneID,
    b_out: LaneID,
    c_in: LaneID,
    c_out: LaneID,
)
    ensures
        new_turn_pairs(2, seq![a_in], seq![a_out], seq![b_in], seq![b_out]) == seq![
            (a_in, b_out),
            (b_in, a_out),
        ],
        new_turn_pairs(3, seq![a_in, b_in], seq![a_out, b_out], seq![c_in], seq![c_out]) == seq![
            (a_in, c_out),
            (b_in, c_out),
            (c_in, a_out),
            (c_in, b_out),
        ],
{
    assert(new_turn_pairs(2, seq![a_in], seq![a_out], seq![b_in], seq![b_out]) =~= seq![
        (a_in, b_out),
        (b_in, a_out),
    ]);
    let xs = seq![a_in, b_in];
    let ys = seq![a_out, b_out];
    assert(xs.drop_last() =~= seq![a_in]);
    assert(xs.drop_last().drop_last() =~= Seq::<LaneID>::empty());
    assert(ys.drop_last() =~= seq![a_out]);
    assert(ys.drop_last().drop_last() =~= Seq::<LaneID>::empty());
    assert(row(a_in, seq![c_out], false) =~= seq![(a_in, c_out)]);
    assert(row(b_in, seq![c_out], false) =~= seq![(b_in, c_out)]);
    assert(row(a_out, seq![c_in], true) =~= seq![(c_in, a_out)]);
    assert(row(b_out, seq![c_in], true) =~= seq![(c_in, b_out)]);
    assert(cross(Seq::<LaneID>::empty(), seq![c_out], false) =~= Seq::empty());
    assert(cross(seq![a_in], seq![c_out], false) =~= seq![(a_in, c_out)]);
    assert(cross(xs, seq![c_out], false) =~= seq![(a_in, c_out), (b_in, c_out)]);
    assert(cross(Seq::<LaneID>::empty(), seq![c_in], true) =~= Seq::empty());
    assert(cross(seq![a_out], seq![c_in], true) =~= seq![(c_in, a_out)]);
    assert(cross(ys, seq![c_in], true) =~= seq![(c_in, a_out), (c_in, b_out)]);
    assert(new_turn_pairs(3, xs, ys, seq![c_in], seq![c_out]) =~= seq![
        (a_in, c_out),
        (b_in, c_out),
        (c_in, a_out),
        (c_in, b_out),
    ]);
}

impl Intersection {
    fn incoming_road_groups(&self, roads: &Roads) -> (r: Vec<RoadID>)
        ensures
            r@ == group_roads(self.roads@, roads@, self.id),
    {
        let mut r: Vec<RoadID> = Vec::new();
        let mut i: usize = 0;
        while i < self.roads.len()
            invariant
                i <= self.roads@.len(),
                r@ == group_roads(self.roads@.take(i as int), roads@, self.id),
            decreases self.roads.len() - i,
        {
            assert(self.roads@.take(i + 1).drop_last() =~= self.roads@.take(i as int));
            let rid = self.roads[i];
            if contains_road(roads, rid) {
                let road = roads[rid.index].as_ref().unwrap();
                if road.incoming_lanes_from(self.id).len() > 0 {
                    r.push(rid);
                }
            }
            i += 1;
        }
        assert(self.roads@.take(self.roads@.len() as int) =~= self.roads@);
        r
    }

    fn rank_of(&self, gs: &Vec<RoadID>, roads: &Roads, g: usize) -> (r: usize)
        requires
            g < gs@.len(),
            forall|h: int| 0 <= h < gs@.len() ==> road_live(roads@, #[trigger] gs@[h]),
        ensures
            r == angle_rank(gs@, roads@, self.id, g as int),
    {
        let (gx, gy) = roads[gs[g].index].as_ref().unwrap().dir_from(self.id);
        let mut count: usize = 0;
        let mut h: usize = 0;
        while h < gs.len()
            invariant
                h <= gs@.len(),
                g < gs@.len(),
                count <= h,
                count == count_before(gs@, roads@, self.id, g as int, h as int),
                forall|k: int| 0 <= k < gs@.len() ==> road_live(roads@, #[trigger] gs@[k]),
                gx == road_at(roads@, gs@[g as int]).spec_dir_from(self.id).0,
                gy == road_at(roads@, gs@[g as int]).spec_dir_from(self.id).1,
                -0x1_0000_0000i64 < gx < 0x1_0000_0000i64,
                -0x1_0000_0000i64 < gy < 0x1_0000_0000i64,
            decreases gs.len() - h,
        {
            assert(road_live(roads@, gs@[h as int]));
            let (hx, hy) = roads[gs[h].index].as_ref().unwrap().dir_from(self.id);
            let before = pseudo_angle_less(hx, hy, gx, gy) || (!pseudo_angle_less(gx, gy, hx, hy)
                && h < g);
            if before {
                count += 1;
            }
            h += 1;
        }
        count
    }

    /// Gives each lane entering this intersection its signal. The lanes are
    /// grouped by road (`group_roads`); with at most two groups every lane is
    /// always passable, otherwise the groups, sorted by the pseudo-angle of
    /// their road's direction, get two alternating phases by the parity of
    /// their rank (`group_light`). Only the controls of those lanes change.
    pub fn update_traffic_lights(&self, roads: &Roads, lanes: &mut Lanes)
        requires
            groups_disjoint(group_roads(self.roads@, roads@, self.id), roads@, self.id),
        ensures
            final(lanes)@.len() == old(lanes)@.len(),
            forall|g: int, a: int|
                0 <= g < group_roads(self.roads@, roads@, self.id).len() && 0 <= a < group_lanes(
                    group_roads(self.roads@, roads@, self.id),
                    roads@,
                    self.id,
                    g,
                ).len() && lane_live(
                    old(lanes)@,
                    #[trigger] group_lanes(group_roads(self.roads@, roads@, self.id), roads@, self.id, g)[a],
                ) ==> final(lanes)@[group_lanes(group_roads(self.roads@, roads@, self.id), roads@, self.id, g)[a].index as int]
                    == Some(
                    with_control(
                        lane_at(
                            old(lanes)@,
                            group_lanes(group_roads(self.roads@, roads@, self.id), roads@, self.id, g)[a],
                        ),
                        group_light(group_roads(self.roads@, roads@, self.id), roads@, self.id, g),
                    ),
                ),
            forall|idx: int|
                0 <= idx < old(lanes)@.len() && !slot_covered(
                    group_roads(self.roads@, roads@, self.id),
                    roads@,
                    self.id,
                    group_roads(self.roads@, roads@, self.id).len() as int,
                    0,
                    idx,
                ) ==> #[trigger] final(lanes)@[idx] == old(lanes)@[idx],
            forall|idx: int|
                0 <= idx < old(lanes)@.len() ==> (#[trigger] final(lanes)@[idx] is Some <==> old(
                    lanes,
                )@[idx] is Some),
    {
        let gs = self.incoming_road_groups(roads);
        let ghost gsv = gs@;
        proof {
            lemma_group_roads_live(self.roads@, roads@, self.id);
        }
        let n = gs.len();
        let mut g: usize = 0;
        while g < n
            invariant
                n == gsv.len(),
                gs@ == gsv,
                gsv == group_roads(self.roads@, roads@, self.id),
                g <= n,
                forall|h: int| 0 <= h < gsv.len() ==> road_live(roads@, #[trigger] gsv[h]),
                groups_disjoint(gsv, roads@, self.id),
                lanes@.len() == old(lanes)@.len(),
                forall|g2: int, b: int|
                    0 <= g2 < g && 0 <= b < group_lanes(gsv, roads@, self.id, g2).len()
                        && lane_live(old(lanes)@, #[trigger] group_lanes(gsv, roads@, self.id, g2)[b])
                        ==> lanes@[group_lanes(gsv, roads@, self.id, g2)[b].index as int] == Some(
                        with_control(
                            lane_at(old(lanes)@, group_lanes(gsv, roads@, self.id, g2)[b]),
                            group_light(gsv, roads@, self.id, g2),
                        ),
                    ),
                forall|idx: int|
                    0 <= idx < old(lanes)@.len() && !slot_covered(gsv, roads@, self.id, g as int, 0, idx)
                        ==> #[trigger] lanes@[idx] == old(lanes)@[idx],
                forall|idx: int|
                    0 <= idx < old(lanes)@.len() ==> (#[trigger] lanes@[idx] is Some <==> old(
                        lanes,
                    )@[idx] is Some),
            decreases n - g,
        {
            let light = if n <= 2 {
                TrafficLight::Always
            } else {
                let rank = self.rank_of(&gs, roads, g);
                TrafficLight::Periodic(
                    TrafficLightSchedule::from_basic(
                        CYCLE_SIZE,
                        ORANGE_LENGTH,
                        CYCLE_SIZE + ORANGE_LENGTH,
                        if rank % 2 == 0 {
                            0
                        } else {
                            CYCLE_SIZE + ORANGE_LENGTH
                        },
                    ),
                )
            };
            assert(light == group_light(gsv, roads@, self.id, g as int));
            let group = roads[gs[g].index].as_ref().unwrap().incoming_lanes_from(self.id);
            let mut a: usize = 0;
            while a < group.len()
                invariant
                    n == gsv.len(),
                    gs@ == gsv,
                    g < n,
                    group@ == group_lanes(gsv, roads@, self.id, g as int),
                    light == group_light(gsv, roads@, self.id, g as int),
                    a <= group@.len(),
                    groups_disjoint(gsv, roads@, self.id),
                    lanes@.len() == old(lanes)@.len(),
                    forall|g2: int, b: int|
                        0 <= g2 < g && 0 <= b < group_lanes(gsv, roads@, self.id, g2).len()
                            && lane_live(old(lanes)@, #[trigger] group_lanes(gsv, roads@, self.id, g2)[b])
                            ==> lanes@[group_lanes(gsv, roads@, self.id, g2)[b].index as int] == Some(
                            with_control(
                                lane_at(old(lanes)@, group_lanes(gsv, roads@, self.id, g2)[b]),
                                group_light(gsv, roads@, self.id, g2),
                            ),
                        ),
                    forall|b: int|
                        0 <= b < a && lane_live(old(lanes)@, #[trigger] group@[b])
                            ==> lanes@[group@[b].index as int] == Some(
                            with_control(lane_at(old(lanes)@, group@[b]), light),
                        ),
                    forall|idx: int|
                        0 <= idx < old(lanes)@.len() && !slot_covered(gsv, roads@, self.id, g as int, a as int, idx)
                            ==> #[trigger] lanes@[idx] == old(lanes)@[idx],
                    forall|idx: int|
                        0 <= idx < old(lanes)@.len() ==> (#[trigger] lanes@[idx] is Some <==> old(
                            lanes,
                        )@[idx] is Some),
                decreases group.len() - a,
            {
                let id = group[a];
                if id.index < lanes.len() {
                    let mut slot: Option<Lane> = None;
                    lanes.set_and_swap(id.index, &mut slot);
                    match slot {
                        Some(mut l) => {
                            l.control = light;
                            lanes.set(id.index, Some(l));
                        },
                        None => {
                            lanes.set(id.index, None);
                        },
                    }
                }
                a += 1;
            }
            g += 1;
        }
    }

    /// Position of the first turn `id` among this intersection's turns.
    pub fn find_turn(&self, id: TurnID) -> (r: usize)
        requires
            exists|i: int| 0 <= i < self.turns@.len() && self.turns@[i].id == id,
        ensures
            r < self.turns@.len(),
            self.turns@[r as int].id == id,
            forall|j: int| 0 <= j < r ==> self.turns@[j].id != id,
    {
        let mut i: usize = 0;
        while i < self.turns.len()
            invariant
                i <= self.turns@.len(),
                forall|j: int| 0 <= j < i ==> self.turns@[j].id != id,
                exists|k: int| 0 <= k < self.turns@.len() && self.turns@[k].id == id,
            decreases self.turns.len() - i,
        {
            if self.turns[i].id == id {
                return i;
            }
            i += 1;
        }
        i
    }

    /// Adds a new intersection at `pos` to `store` and returns its identity.
    pub fn make(store: &mut Intersections, pos: Point) -> (r: IntersectionID)
        ensures
            r.index == old(store)@.len(),
            final(store)@.len() == old(store)@.len() + 1,
            forall|i: int| 0 <= i < old(store)@.len() ==> final(store)@[i] == old(store)@[i],
            inter_live(final(store)@, r),
            inter_at(final(store)@, r).id == r,
            inter_at(final(store)@, r).pos == pos,
            inter_at(final(store)@, r).turns@.len() == 0,
            inter_at(final(store)@, r).incoming_lanes@.len() == 0,
            inter_at(final(store)@, r).outgoing_lanes@.len() == 0,
            inter_at(final(store)@, r).roads@.len() == 0,
    {
        let id = IntersectionID { index: store.len() };
        store.push(
            Some(
                Intersection {
                    id,
                    pos,
                    turns: Vec::new(),
                    incoming_lanes: Vec::new(),
                    outgoing_lanes: Vec::new(),
                    roads: Vec::new(),
                },
            ),
        );
        id
    }

    pub fn add_turn(&mut self, src: LaneID, dst: LaneID)
        ensures
            turns_extend(old(self).turns@, final(self).turns@, old(self).id, seq![(src, dst)]),
            final(self).id == old(self).id,
            final(self).pos == old(self).pos,
            final(self).incoming_lanes == old(self).incoming_lanes,
            final(self).outgoing_lanes == old(self).outgoing_lanes,
            final(self).roads == old(self).roads,
    {
        self.turns.push(Turn::new(TurnID::new(self.id, src, dst, false)));
        assert(self.turns@[old(self).turns@.len() + 0int] == self.turns@.last());
    }
    fn add_row(&mut self, x: LaneID, ys: &Vec<LaneID>, flip: bool)
        ensures
            turns_extend(old(self).turns@, final(self).turns@, old(self).id, row(x, ys@, flip)),
            final(self).id == old(self).id,
            final(self).pos == old(self).pos,
            final(self).incoming_lanes == old(self).incoming_lanes,
            final(self).outgoing_lanes == old(self).outgoing_lanes,
            final(self).roads == old(self).roads,
    {
        let mut j: usize = 0;
        proof {
            lemma_turns_extend_empty(self.turns@, self.id);
            assert(row(x, ys@.take(0), flip) =~= Seq::empty());
        }
        while j < ys.len()
            invariant
                j <= ys@.len(),
                turns_extend(old(self).turns@, self.turns@, old(self).id, row(x, ys@.take(j as int), flip)),
                self.id == old(self).id,
                self.pos == old(self).pos,
                self.incoming_lanes == old(self).incoming_lanes,
                self.outgoing_lanes == old(self).outgoing_lanes,
                self.roads == old(self).roads,
            decreases ys.len() - j,
        {
            let ghost before = self.turns@;
            let pair = if flip {
                (ys[j], x)
            } else {
                (x, ys[j])
            };
            self.add_turn(pair.0, pair.1);
            proof {
                lemma_turns_extend_trans(
                    old(self).turns@,
                    before,
                    self.turns@,
                    self.id,
                    row(x, ys@.take(j as int), flip),
                    seq![pair],
                );
                assert(row(x, ys@.take(j as int), flip) + seq![pair] =~= row(x, ys@.take(j + 1), flip));
            }
            j += 1;
        }
        assert(ys@.take(ys@.len() as int) =~= ys@);
    }

    fn add_cross(&mut self, xs: &Vec<LaneID>, ys: &Vec<LaneID>, flip: bool)
        ensures
            turns_extend(old(self).turns@, final(self).turns@, old(self).id, cross(xs@, ys@, flip)),
            final(self).id == old(self).id,
            final(self).pos == old(self).pos,
            final(self).incoming_lanes == old(self).incoming_lanes,
            final(self).outgoing_lanes == old(self).outgoing_lanes,
            final(self).roads == old(self).roads,
    {
        let mut i: usize = 0;
        proof {
            lemma_turns_extend_empty(self.turns@, self.id);
            assert(cross(xs@.take(0), ys@, flip) =~= Seq::empty());
        }
        while i < xs.len()
            invariant
                i <= xs@.len(),
                turns_extend(old(self).turns@, self.turns@, old(self).id, cross(xs@.take(i as int), ys@, flip)),
                self.id == old(self).id,
                self.pos == old(self).pos,
                self.incoming_lanes == old(self).incoming_lanes,
                self.outgoing_lanes == old(self).outgoing_lanes,
                self.roads == old(self).roads,
            decreases xs.len() - i,
        {
            let ghost before = self.turns@;
            self.add_row(xs[i as usize], ys, flip);
            proof {
                lemma_turns_extend_trans(
                    old(self).turns@,
                    before,
                    self.turns@,
                    self.id,
                    cross(xs@.take(i as int), ys@, flip),
                    row(xs@[i as int], ys@, flip),
                );
                assert(xs@.take(i + 1).drop_last() =~= xs@.take(i as int));
            }
            i += 1;
        }
        assert(xs@.take(xs@.len() as int) =~= xs@);
    }

    fn add_zip(&mut self, xs: &Vec<LaneID>, ys: &Vec<LaneID>, flip: bool)
        ensures
            turns_extend(old(self).turns@, final(self).turns@, old(self).id, zip(xs@, ys@, flip)),
            final(self).id == old(self).id,
            final(self).pos == old(self).pos,
            final(self).incoming_lanes == old(self).incoming_lanes,
            final(self).outgoing_lanes == old(self).outgoing_lanes,
            final(self).roads == old(self).roads,
    {
        let n: usize = if xs.len() < ys.len() {
            xs.len()
        } else {
            ys.len()
        };
        let mut k: usize = 0;
        proof {
            lemma_turns_extend_empty(self.turns@, self.id);
            assert(zip(xs@, ys@, flip).take(0) =~= Seq::empty());
        }
        while k < n
            invariant
                k <= n,
                n == zip(xs@, ys@, flip).len(),
                n <= xs@.len(),
                n <= ys@.len(),
                turns_extend(old(self).turns@, self.turns@, old(self).id, zip(xs@, ys@, flip).take(k as int)),
                self.id == old(self).id,
                self.pos == old(self).pos,
                self.incoming_lanes == old(self).incoming_lanes,
                self.outgoing_lanes == old(self).outgoing_lanes,
                self.roads == old(self).roads,
            decreases n - k,
        {
            let ghost before = self.turns@;
            let pair = if flip {
                (ys[k], xs[k])
            } else {
                (xs[k], ys[k])
            };
            self.add_turn(pair.0, pair.1);
            proof {
                lemma_turns_extend_trans(
                    old(self).turns@,
                    before,
                    self.turns@,
                    self.id,
                    zip(xs@, ys@, flip).take(k as int),
                    seq![pair],
                );
                assert(zip(xs@, ys@, flip).take(k as int) + seq![pair] =~= zip(xs@, ys@, flip).take(k + 1));
            }
            k += 1;
        }
        assert(zip(xs@, ys@, flip).take(n as int) =~= zip(xs@, ys@, flip));
    }

    /// Creates the turns for lanes that have just joined the intersection,
    /// then records those lanes.
    fn fill_lanes(&mut self, incoming: Vec<LaneID>, outgoing: Vec<LaneID>)
        ensures
            turns_extend(
                old(self).turns@,
                final(self).turns@,
                old(self).id,
                new_turn_pairs(
                    old(self).roads@.len() as int,
                    old(self).incoming_lanes@,
                    old(self).outgoing_lanes@,
                    incoming@,
                    outgoing@,
                ),
            ),
            final(self).incoming_lanes@ == old(self).incoming_lanes@ + incoming@,
            final(self).outgoing_lanes@ == old(self).outgoing_lanes@ + outgoing@,
            final(self).id == old(self).id,
            final(self).pos == old(self).pos,
            final(self).roads == old(self).roads,
    {
        let old_in = copy_lane_ids(&self.incoming_lanes);
        let old_out = copy_lane_ids(&self.outgoing_lanes);
        let ghost start = self.turns@;
        if self.roads.len() >= 3 {
            self.add_cross(&old_in, &outgoing, false);
            let ghost mid = self.turns@;
            self.add_cross(&old_out, &incoming, true);
            proof {
                lemma_turns_extend_trans(
                    start,
                    mid,
                    self.turns@,
                    self.id,
                    cross(old_in@, outgoing@, false),
                    cross(old_out@, incoming@, true),
                );
            }
        } else if self.roads.len() == 2 {
            self.add_zip(&old_in, &outgoing, false);
            let ghost mid = self.turns@;
            self.add_zip(&old_out, &incoming, true);
            proof {
                lemma_turns_extend_trans(
                    start,
                    mid,
                    self.turns@,
                    self.id,
                    zip(old_in@, outgoing@, false),
                    zip(old_out@, incoming@, true),
                );
            }
        } else {
            proof {
                lemma_turns_extend_empty(self.turns@, self.id);
            }
        }
        let mut outgoing = outgoing;
        let mut incoming = incoming;
        self.outgoing_lanes.append(&mut outgoing);
        self.incoming_lanes.append(&mut incoming);
    }

    /// Attaches `road` to this intersection: records it, folds in its lanes
    /// and creates the turns that the new lanes call for (see
    /// `new_turn_pairs`).
    pub fn add_road(&mut self, road: &Road)
        requires
            road.src == old(self).id || road.dst == old(self).id,
        ensures
            final(self).roads@ == old(self).roads@.push(road.id),
            final(self).incoming_lanes@ == old(self).incoming_lanes@ + road.spec_incoming_from(
                old(self).id,
            ),
            final(self).outgoing_lanes@ == old(self).outgoing_lanes@ + road.spec_outgoing_from(
                old(self).id,
            ),
            turns_extend(
                old(self).turns@,
                final(self).turns@,
                old(self).id,
                new_turn_pairs(
                    old(self).roads@.len() + 1int,
                    old(self).incoming_lanes@,
                    old(self).outgoing_lanes@,
                    road.spec_incoming_from(old(self).id),
                    road.spec_outgoing_from(old(self).id),
                ),
            ),
            final(self).id == old(self).id,
            final(self).pos == old(self).pos,
    {
        self.roads.push(road.id);
        if road.src == self.id {
            self.fill_lanes(copy_lane_ids(&road.lanes_backward), copy_lane_ids(&road.lanes_forward));
        } else {
            self.fill_lanes(copy_lane_ids(&road.lanes_forward), copy_lane_ids(&road.lanes_backward));
        }
    }
}

} // verus!
