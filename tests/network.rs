use map_model::geometry::{distance, isqrt, pseudo_angle_less, Point};
use map_model::map::RoadMap;
use map_model::network::{Intersection, IntersectionID, Lane, LaneID, Road, RoadID, TurnID};
use map_model::pathfinding::{
    lane_successors, pedestrian_successors, search_goal_reached, SearchMode, SearchNode,
    SearchQuery,
};
use map_model::pathfinding::{DirectionalPath, PedestrianPath};
use map_model::routes::Pathfinder;
use map_model::render::{DrawCall, MeshRender, MeshRenderer, OrderKind, RenderEntity};
use map_model::signal::{TrafficBehavior, TrafficLight, TrafficLightSchedule};
use map_model::traversable::{TraverseDirection, TraverseKind, Traversable};

fn lane(id: usize, parent: usize, src: usize, dst: usize, a: Point, b: Point) -> Option<Lane> {
    Some(Lane {
        id: LaneID { index: id },
        parent: RoadID { index: parent },
        src: IntersectionID { index: src },
        dst: IntersectionID { index: dst },
        points: vec![a, b],
        length: 100,
        control: TrafficLight::Always,
    })
}

fn road(id: usize, src: usize, dst: usize, sp: Point, dp: Point, fwd: Vec<usize>, bwd: Vec<usize>) -> Road {
    Road {
        id: RoadID { index: id },
        src: IntersectionID { index: src },
        dst: IntersectionID { index: dst },
        src_pos: sp,
        dst_pos: dp,
        lanes_forward: fwd.into_iter().map(|i| LaneID { index: i }).collect(),
        lanes_backward: bwd.into_iter().map(|i| LaneID { index: i }).collect(),
    }
}

fn l(i: usize) -> LaneID {
    LaneID { index: i }
}

fn pairs(inter: &Intersection) -> Vec<(usize, usize)> {
    inter.turns.iter().map(|t| (t.id.src.index, t.id.dst.index)).collect()
}

#[test]
fn integer_square_root() {
    assert_eq!(isqrt(0), 0);
    assert_eq!(isqrt(15), 3);
    assert_eq!(isqrt(16), 4);
    assert_eq!(isqrt(u128::MAX), u64::MAX);
    assert_eq!(distance(Point::new(0, 0), Point::new(3, 4)), 5);
    assert_eq!(distance(Point::new(-1, -1), Point::new(2, 3)), 5);
}

#[test]
fn pseudo_angle_orders_directions() {
    // east < north < west, and south below east
    assert!(pseudo_angle_less(1, 0, 0, 1));
    assert!(pseudo_angle_less(0, 1, -1, 0));
    assert!(pseudo_angle_less(0, -1, 1, 0));
    assert!(!pseudo_angle_less(2, 0, 1, 0));
    assert!(!pseudo_angle_less(1, 0, 2, 0));
}

#[test]
fn periodic_signal_phases() {
    let s = TrafficLightSchedule::from_basic(10, 5, 15, 0);
    assert_eq!(s.get_behavior(0), TrafficBehavior::Green);
    assert_eq!(s.get_behavior(9), TrafficBehavior::Green);
    assert_eq!(s.get_behavior(10), TrafficBehavior::Orange);
    assert_eq!(s.get_behavior(15), TrafficBehavior::Red);
    assert_eq!(s.get_behavior(30), TrafficBehavior::Green);
    let shifted = TrafficLightSchedule::from_basic(10, 5, 15, 15);
    assert_eq!(shifted.get_behavior(0), TrafficBehavior::Red);
    assert_eq!(shifted.get_behavior(15), TrafficBehavior::Green);
    assert_eq!(TrafficLight::Always.get_behavior(7), TrafficBehavior::Green);
    let empty = TrafficLightSchedule::from_basic(0, 0, 0, 3);
    assert!(empty.get_behavior(5).is_red());
}

#[test]
fn two_roads_pair_lanes() {
    let mut store = Vec::new();
    let c = Intersection::make(&mut store, Point::new(0, 0));
    let mut inter = store[c.index].take().unwrap();
    // road 0 from the west: forward lanes 0,1 enter, backward 2,3 leave
    let r0 = road(0, 5, c.index, Point::new(-100, 0), Point::new(0, 0), vec![0, 1], vec![2, 3]);
    // road 1 to the east: forward lanes 4,5 leave, backward 6,7 enter
    let r1 = road(1, c.index, 6, Point::new(0, 0), Point::new(100, 0), vec![4, 5], vec![6, 7]);
    inter.add_road(&r0);
    assert!(inter.turns.is_empty());
    inter.add_road(&r1);
    assert_eq!(pairs(&inter), vec![(0, 4), (1, 5), (6, 2), (7, 3)]);
    assert_eq!(inter.incoming_lanes, vec![l(0), l(1), l(6), l(7)]);
    assert_eq!(inter.outgoing_lanes, vec![l(2), l(3), l(4), l(5)]);
}

#[test]
fn three_roads_fan_out() {
    let mut store = Vec::new();
    let c = Intersection::make(&mut store, Point::new(0, 0));
    let mut inter = store[c.index].take().unwrap();
    // each road comes in with one forward (incoming) and one backward (outgoing) lane
    inter.add_road(&road(0, 1, c.index, Point::new(-100, 0), Point::new(0, 0), vec![0], vec![1]));
    inter.add_road(&road(1, 2, c.index, Point::new(100, 0), Point::new(0, 0), vec![2], vec![3]));
    inter.add_road(&road(2, 3, c.index, Point::new(0, 100), Point::new(0, 0), vec![4], vec![5]));
    let p = pairs(&inter);
    assert_eq!(p.len(), 6);
    for (a, b) in [(0, 3), (0, 5), (2, 1), (2, 5), (4, 1), (4, 3)] {
        assert!(p.contains(&(a, b)));
    }
}

#[test]
fn four_way_signals_alternate() {
    let mut store = Vec::new();
    let c = Intersection::make(&mut store, Point::new(0, 0));
    let mut inter = store[c.index].take().unwrap();
    let ends = [Point::new(100, 0), Point::new(0, 100), Point::new(-100, 0), Point::new(0, -100)];
    let mut roads = Vec::new();
    let mut lanes = Vec::new();
    for (i, e) in ends.iter().enumerate() {
        let r = road(i, i + 1, c.index, *e, Point::new(0, 0), vec![i], vec![]);
        inter.add_road(&r);
        roads.push(Some(r));
        lanes.push(lane(i, i, i + 1, c.index, *e, Point::new(0, 0)));
    }
    inter.update_traffic_lights(&roads, &mut lanes);
    let offset = |i: usize| match lanes[i].as_ref().unwrap().control {
        TrafficLight::Periodic(s) => s.offset,
        TrafficLight::Always => panic!("expected a periodic light"),
    };
    // east and west share a phase, north and south the other
    assert_eq!(offset(3), 0);
    assert_eq!(offset(0), 15);
    assert_eq!(offset(1), 0);
    assert_eq!(offset(2), 15);
}

#[test]
fn simple_merge_is_always_passable() {
    let mut store = Vec::new();
    let c = Intersection::make(&mut store, Point::new(0, 0));
    let mut inter = store[c.index].take().unwrap();
    let r = road(0, 1, c.index, Point::new(100, 0), Point::new(0, 0), vec![0], vec![]);
    inter.add_road(&r);
    let mut lanes = vec![lane(0, 0, 1, c.index, Point::new(100, 0), Point::new(0, 0))];
    lanes[0].as_mut().unwrap().control =
        TrafficLight::Periodic(TrafficLightSchedule::from_basic(1, 1, 1, 0));
    inter.update_traffic_lights(&vec![Some(r)], &mut lanes);
    assert_eq!(lanes[0].as_ref().unwrap().control, TrafficLight::Always);
}

#[test]
fn clean_drops_removed_lanes_and_turns() {
    let mut store = Vec::new();
    let c = Intersection::make(&mut store, Point::new(0, 0));
    let mut inter = store[c.index].take().unwrap();
    let r0 = road(0, 1, c.index, Point::new(-100, 0), Point::new(0, 0), vec![0], vec![1]);
    let r1 = road(1, c.index, 2, Point::new(0, 0), Point::new(100, 0), vec![2], vec![3]);
    inter.add_road(&r0);
    inter.add_road(&r1);
    let mut lanes = vec![
        lane(0, 0, 1, 0, Point::new(-100, 0), Point::new(0, 0)),
        lane(1, 0, 0, 1, Point::new(0, 0), Point::new(-100, 0)),
        lane(2, 1, 0, 2, Point::new(0, 0), Point::new(100, 0)),
        lane(3, 1, 2, 0, Point::new(100, 0), Point::new(0, 0)),
    ];
    inter.gen_turns(&lanes);
    assert!(inter.turns.iter().all(|t| t.generated));
    assert_eq!(inter.turns[0].points, vec![Point::new(0, 0), Point::new(0, 0)]);
    // road 1 goes away
    lanes[2] = None;
    lanes[3] = None;
    let roads = vec![Some(r0), None];
    inter.clean(&lanes, &roads);
    assert!(inter.turns.is_empty());
    assert_eq!(inter.roads, vec![RoadID { index: 0 }]);
    assert_eq!(inter.incoming_lanes, vec![l(0)]);
    assert_eq!(inter.outgoing_lanes, vec![l(1)]);
    // and road 0 too: nothing is left to keep the intersection
    lanes[0] = None;
    lanes[1] = None;
    inter.clean(&lanes, &vec![None, None]);
    assert!(inter.roads.is_empty());
    assert!(inter.incoming_lanes.is_empty() && inter.outgoing_lanes.is_empty());
}

fn corridor() -> RoadMap {
    // intersections 0 (west), 1 (centre), 2 (east); lane 0: 0 -> 1, lane 1: 1 -> 2
    let mut inters = Vec::new();
    Intersection::make(&mut inters, Point::new(-100, 0));
    Intersection::make(&mut inters, Point::new(0, 0));
    Intersection::make(&mut inters, Point::new(100, 0));
    let r0 = road(0, 0, 1, Point::new(-100, 0), Point::new(0, 0), vec![0], vec![]);
    let r1 = road(1, 1, 2, Point::new(0, 0), Point::new(100, 0), vec![1], vec![]);
    inters[0].as_mut().unwrap().add_road(&r0);
    inters[1].as_mut().unwrap().add_road(&r0);
    inters[1].as_mut().unwrap().add_road(&r1);
    inters[2].as_mut().unwrap().add_road(&r1);
    RoadMap {
        lanes: vec![
            lane(0, 0, 0, 1, Point::new(-100, 0), Point::new(0, 0)),
            lane(1, 1, 1, 2, Point::new(0, 0), Point::new(100, 0)),
        ],
        roads: vec![Some(r0), Some(r1)],
        intersections: inters,
    }
}

#[test]
fn traversable_endpoints() {
    let m = corridor();
    let fwd = Traversable::new(TraverseKind::Lane(l(0)), TraverseDirection::Forward);
    let bwd = Traversable::new(TraverseKind::Lane(l(0)), TraverseDirection::Backward);
    assert_eq!(fwd.destination_intersection(&m.lanes), IntersectionID { index: 1 });
    assert_eq!(bwd.destination_intersection(&m.lanes), IntersectionID { index: 0 });
    assert_eq!(bwd.points(&m), vec![Point::new(0, 0), Point::new(-100, 0)]);
    let t = TurnID::new(IntersectionID { index: 1 }, l(0), l(1), false);
    let turn_b = Traversable::new(TraverseKind::Turn(t), TraverseDirection::Backward);
    assert_eq!(turn_b.destination_lane(), l(0));
    assert!(turn_b.is_valid(&m));
    assert!(turn_b.can_pass(0, &m.lanes));
    assert!(TraverseKind::Lane(l(0)).is_lane());
    let gone = Traversable::new(TraverseKind::Lane(l(9)), TraverseDirection::Forward);
    assert!(!gone.is_valid(&m));
}

#[test]
fn walking_and_driving_successors() {
    let m = corridor();
    let start = Traversable::new(TraverseKind::Lane(l(0)), TraverseDirection::Forward);
    let next = pedestrian_successors(&m, &start);
    let t = TurnID::new(IntersectionID { index: 1 }, l(0), l(1), false);
    assert_eq!(
        next,
        vec![
            (Traversable::new(TraverseKind::Turn(t), TraverseDirection::Forward), 1),
            (Traversable::new(TraverseKind::Lane(l(0)), TraverseDirection::Backward), 100),
        ]
    );
    assert_eq!(lane_successors(&m, l(0)), vec![(l(1), 100)]);
    assert!(lane_successors(&m, l(1)).is_empty());
    let q = SearchQuery {
        mode: SearchMode::Directional,
        start_lane: l(0),
        end: l(1),
        end_pos: Point::new(100, 0),
    };
    assert!(search_goal_reached(&q, &SearchNode::OnLane(l(1))));
    assert!(!search_goal_reached(&q, &SearchNode::Start));
}

#[test]
fn frame_draw_calls() {
    let entities = vec![
        RenderEntity {
            has_transform: true,
            mesh: Some(MeshRender {
                hide: false,
                orders: vec![OrderKind::Circle, OrderKind::LineTo(1), OrderKind::LineTo(2)],
            }),
        },
        RenderEntity { has_transform: false, mesh: None },
        RenderEntity {
            has_transform: true,
            mesh: Some(MeshRender { hide: true, orders: vec![OrderKind::Rect] }),
        },
    ];
    assert_eq!(
        MeshRenderer::render(&entities),
        vec![DrawCall { entity: 0, order: 0 }, DrawCall { entity: 0, order: 2 }]
    );
}

#[test]
fn walk_onto_approached_lane() {
    // two intersections joined by a single lane; the walker comes out of a
    // turn whose destination is that lane
    let mut inters = Vec::new();
    Intersection::make(&mut inters, Point::new(0, 0));
    Intersection::make(&mut inters, Point::new(100, 0));
    let r0 = road(0, 0, 1, Point::new(0, 0), Point::new(100, 0), vec![0], vec![]);
    inters[0].as_mut().unwrap().add_road(&r0);
    inters[1].as_mut().unwrap().add_road(&r0);
    let m = RoadMap {
        lanes: vec![lane(0, 0, 0, 1, Point::new(0, 0), Point::new(100, 0))],
        roads: vec![Some(r0)],
        intersections: inters,
    };
    let start = Traversable::new(
        TraverseKind::Turn(TurnID::new(IntersectionID { index: 0 }, l(5), l(0), false)),
        TraverseDirection::Forward,
    );
    let route = PedestrianPath.path(&m, start, l(0)).unwrap();
    assert_eq!(
        route,
        vec![start, Traversable::new(TraverseKind::Lane(l(0)), TraverseDirection::Forward)]
    );
}

#[test]
fn both_searches_find_the_corridor() {
    let m = corridor();
    let start = Traversable::new(TraverseKind::Lane(l(0)), TraverseDirection::Forward);
    let t = TurnID::new(IntersectionID { index: 1 }, l(0), l(1), false);
    let drive = DirectionalPath.path(&m, start, l(1)).unwrap();
    assert_eq!(
        drive,
        vec![
            start,
            Traversable::new(TraverseKind::Turn(t), TraverseDirection::Forward),
            Traversable::new(TraverseKind::Lane(l(1)), TraverseDirection::Forward),
        ]
    );
    let walk = PedestrianPath.path(&m, start, l(1)).unwrap();
    assert_eq!(walk.first(), Some(&start));
    assert_eq!(walk.last().unwrap().kind, TraverseKind::Lane(l(1)));
}

#[test]
fn disconnected_lanes_have_no_route() {
    let mut m = corridor();
    // the turn between the two lanes is gone
    m.intersections[1].as_mut().unwrap().turns.clear();
    let start = Traversable::new(TraverseKind::Lane(l(0)), TraverseDirection::Forward);
    assert!(DirectionalPath.path(&m, start, l(1)).is_none());
    assert!(PedestrianPath.path(&m, start, l(1)).is_none());
}

#[test]
fn searches_behind_one_interface() {
    let m = corridor();
    let start = Traversable::new(TraverseKind::Lane(l(0)), TraverseDirection::Forward);
    let finders: Vec<&dyn Pathfinder> = vec![&PedestrianPath, &DirectionalPath];
    for f in finders {
        let route = f.path(&m, start, l(1)).unwrap();
        assert_eq!(route[0], start);
        assert_eq!(route.last().unwrap().kind, TraverseKind::Lane(l(1)));
    }
}

#[test]
fn looping_road_folds_backward_lanes_in() {
    let mut store = Vec::new();
    let c = Intersection::make(&mut store, Point::new(0, 0));
    let mut inter = store[c.index].take().unwrap();
    let r = road(0, c.index, c.index, Point::new(0, 0), Point::new(0, 0), vec![0], vec![1]);
    inter.add_road(&r);
    assert_eq!(inter.incoming_lanes, vec![l(1)]);
    assert_eq!(inter.outgoing_lanes, vec![l(0)]);
}

#[test]
fn removing_both_roads_removes_the_intersection() {
    let mut m = corridor();
    m.remove_road(RoadID { index: 0 });
    assert!(m.lanes[0].is_none());
    assert!(m.roads[0].is_none());
    // the west end had only this road; the centre keeps the other one
    assert!(m.intersections[0].is_none());
    let centre = m.intersections[1].as_ref().unwrap();
    assert_eq!(centre.roads, vec![RoadID { index: 1 }]);
    assert!(centre.turns.is_empty());
    m.remove_road(RoadID { index: 1 });
    assert!(m.intersections[1].is_none());
    assert!(m.intersections[2].is_none());
    assert!(m.lanes.iter().all(|x| x.is_none()));
}
