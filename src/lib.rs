//! Road-network graph engine: lanes, roads, intersections and turns kept in
//! index arenas, turn generation, traffic-signal assignment, direction-aware
//! traversables, and the two route searches over them.

pub mod geometry;
pub mod signal;
pub mod network;
pub mod traversable;
pub mod map;
pub mod pathfinding;
pub mod render;
pub mod routes;
pub mod phases;
