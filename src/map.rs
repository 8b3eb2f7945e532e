//! The network aggregate: every lane, road and intersection, and the edits
//! that keep them consistent.

use crate::network::{
    copy_lane_ids, inter_at, inter_live, lane_live, live_road_ids, road_at, road_live,
    Intersection, IntersectionID, Intersections, LaneID, Lanes, RoadID, Roads,
};
use vstd::prelude::*;

verus! {

pub struct RoadMap {
    pub lanes: Lanes,
    pub roads: Roads,
    pub intersections: Intersections,
}

fn remove_lanes(lanes: &mut Lanes, ids: &Vec<LaneID>)
    ensures
        final(lanes)@.len() == old(lanes)@.len(),
        forall|k: int| 0 <= k < ids@.len() ==> !lane_live(final(lanes)@, #[trigger] ids@[k]),
        forall|i: int|
            0 <= i < old(lanes)@.len() ==> #[trigger] final(lanes)@[i] == old(lanes)@[i] || final(lanes)@[i] is None,
        forall|l: LaneID| !lane_live(old(lanes)@, l) ==> !lane_live(final(lanes)@, l),
{
    let mut j: usize = 0;
    while j < ids.len()
        invariant
            j <= ids@.len(),
            lanes@.len() == old(lanes)@.len(),
            forall|k: int| 0 <= k < j ==> !lane_live(lanes@, #[trigger] ids@[k]),
            forall|i: int|
                0 <= i < old(lanes)@.len() ==> #[trigger] lanes@[i] == old(lanes)@[i] || lanes@[i] is None,
            forall|l: LaneID| !lane_live(old(lanes)@, l) ==> !lane_live(lanes@, l),
        decreases ids.len() - j,
    {
        let l = ids[j];
        if l.index < lanes.len() {
            lanes.set(l.index, None);
        }
        j += 1;
    }
}

impl RoadMap {
    /// Cleans intersection `i` against the current lanes and roads, and
    /// removes it when no road is left at it.
    fn clean_intersection(&mut self, i: IntersectionID)
        ensures
            final(self).lanes == old(self).lanes,
            final(self).roads == old(self).roads,
            final(self).intersections@.len() == old(self).intersections@.len(),
            forall|k: int|
                0 <= k < old(self).intersections@.len() && k != i.index ==> #[trigger] final(self).intersections@[k] == old(self).intersections@[k],
            !inter_live(old(self).intersections@, i) ==> final(self).intersections@ == old(self).intersections@,
            inter_live(old(self).intersections@, i) ==> (inter_live(final(self).intersections@, i)
                <==> live_road_ids(
                inter_at(old(self).intersections@, i).roads@,
                old(self).roads@,
            ).len() > 0),
    {
        if i.index < self.intersections.len() {
            let mut slot: Option<Intersection> = None;
            self.intersections.set_and_swap(i.index, &mut slot);
            match slot {
                Some(mut inter) => {
                    inter.clean(&self.lanes, &self.roads);
                    if inter.roads.len() > 0 {
                        self.intersections.set(i.index, Some(inter));
                    }
                },
                None => {
                    self.intersections.set(i.index, None);
                },
            }
        }
    }

    /// Removes road `id` and its lanes, cleans the intersections at its two
    /// ends, and removes each of them that is left without a road.
    pub fn remove_road(&mut self, id: RoadID)
        requires
            road_live(old(self).roads@, id),
        ensures
            !road_live(final(self).roads@, id),
            final(self).roads@.len() == old(self).roads@.len(),
            forall|k: int|
                0 <= k < old(self).roads@.len() && k != id.index ==> #[trigger] final(self).roads@[k]
                    == old(self).roads@[k],
            forall|k: int|
                0 <= k < road_at(old(self).roads@, id).lanes_forward@.len() ==> !lane_live(
                    final(self).lanes@,
                    #[trigger] road_at(old(self).roads@, id).lanes_forward@[k],
                ),
            forall|k: int|
                0 <= k < road_at(old(self).roads@, id).lanes_backward@.len() ==> !lane_live(
                    final(self).lanes@,
                    #[trigger] road_at(old(self).roads@, id).lanes_backward@[k],
                ),
            forall|e: IntersectionID|
                (e == road_at(old(self).roads@, id).src || e == road_at(old(self).roads@, id).dst)
                    && #[trigger] inter_live(old(self).intersections@, e) ==> (inter_live(
                    final(self).intersections@,
                    e,
                ) <==> live_road_ids(inter_at(old(self).intersections@, e).roads@, final(self).roads@).len()
                    > 0),
    {
        let road = self.roads[id.index].as_ref().unwrap();
        let fwd = copy_lane_ids(&road.lanes_forward);
        let bwd = copy_lane_ids(&road.lanes_backward);
        let src = road.src;
        let dst = road.dst;
        self.roads.set(id.index, None);
        remove_lanes(&mut self.lanes, &fwd);
        remove_lanes(&mut self.lanes, &bwd);
        let ghost before = self.intersections@;
        self.clean_intersection(src);
        if dst != src {
            self.clean_intersection(dst);
        }
        assert(inter_live(before, src) ==> inter_at(before, src) == inter_at(old(self).intersections@, src));
    }
}

} // verus!
