//! Signal policies: a pure function from a simulation time to a light state.

use vstd::prelude::*;

verus! {

#[derive(Clone, Copy, PartialEq, Eq, Hash, Debug, Structural)]
pub enum TrafficBehavior {
    Red,
    Orange,
    Green,
}

impl TrafficBehavior {
    pub fn is_red(&self) -> (r: bool)
        ensures
            r == (*self == TrafficBehavior::Red),
    {
        match self {
            TrafficBehavior::Red => true,
            _ => false,
        }
    }
}

/// A periodic schedule: `green`, then `orange`, then `red` time units, the
/// whole cycle shifted by `offset`.
#[derive(Clone, Copy, PartialEq, Eq, Hash, Debug, Structural)]
pub struct TrafficLightSchedule {
    pub green: u64,
    pub orange: u64,
    pub red: u64,
    pub offset: u64,
}

impl TrafficLightSchedule {
    pub open spec fn period(&self) -> int {
        self.green + self.orange + self.red
    }

    /// Position of `time` inside the cycle.
    pub open spec fn phase(&self, time: int) -> int {
        (time + self.offset) % self.period()
    }

    /// State of the light at `time`. A cycle of length zero has no green
    /// time and reads as red.
    pub open spec fn behavior(&self, time: int) -> TrafficBehavior {
        if self.period() == 0 {
            TrafficBehavior::Red
        } else if self.phase(time) < self.green {
            TrafficBehavior::Green
        } else if self.phase(time) < self.green + self.orange {
            TrafficBehavior::Orange
        } else {
            TrafficBehavior::Red
        }
    }

    pub fn from_basic(green: u64, orange: u64, red: u64, offset: u64) -> (r: TrafficLightSchedule)
        ensures
            r == (TrafficLightSchedule { green, orange, red, offset }),
    {
        TrafficLightSchedule { green, orange, red, offset }
    }

    pub fn get_behavior(&self, time: u64) -> (r: TrafficBehavior)
        ensures
            r == self.behavior(time as int),
    {
        let period: u128 = self.green as u128 + self.orange as u128 + self.red as u128;
        if period == 0 {
            return TrafficBehavior::Red;
        }
        let phase: u128 = (time as u128 + self.offset as u128) % period;
        if phase < self.green as u128 {
            TrafficBehavior::Green
        } else if phase < self.green as u128 + self.orange as u128 {
            TrafficBehavior::Orange
        } else {
            TrafficBehavior::Red
        }
    }
}

/// The control attached to an incoming lane.
#[derive(Clone, Copy, PartialEq, Eq, Hash, Debug, Structural)]
pub enum TrafficLight {
    Always,
    Periodic(TrafficLightSchedule),
}

impl TrafficLight {
    pub open spec fn behavior(&self, time: int) -> TrafficBehavior {
        match self {
            TrafficLight::Always => TrafficBehavior::Green,
            TrafficLight::Periodic(s) => s.behavior(time),
        }
    }

    pub fn get_behavior(&self, time: u64) -> (r: TrafficBehavior)
        ensures
            r == self.behavior(time as int),
    {
        match self {
            TrafficLight::Always => TrafficBehavior::Green,
            TrafficLight::Periodic(s) => s.get_behavior(time),
        }
    }
}

} // verus!
