//! Per-part behavior state: tunables plus mutable timer state, created
//! at spawn from the part catalog and destroyed with the entity.

use vstd::prelude::*;
use crate::fixed::Vec2Fx;
use crate::timer::RepeatingTimer;

verus! {

/// Hover lift: when active, probe downward up to `range` and push the
/// part up, harder the closer the ground.
#[derive(Clone, Copy, PartialEq, Eq, Structural, Debug)]
pub struct HoverBehavior {
    pub range: i64,
}

/// Periodic laser discharge: when active, fire a bolt of the given
/// speed and range every time the timer completes.
#[derive(Clone, Copy, PartialEq, Eq, Structural, Debug)]
pub struct LaserBehavior {
    pub next_shot_timer: RepeatingTimer,
    pub speed: i64,
    pub range: i64,
}

/// Periodic direction flip: when active, flip the facing of this part
/// and of every part carried above it every time the timer completes.
#[derive(Clone, Copy, PartialEq, Eq, Structural, Debug)]
pub struct RotatorBehavior {
    pub next_turn_timer: RepeatingTimer,
}

/// A laser bolt in flight: despawned once it has travelled `range`
/// from `origin`, or on its first intersection with anything but the
/// entity it ignores (its shooter, so it cannot hit itself on the way
/// out).
#[derive(Clone, Copy, PartialEq, Eq, Structural, Debug)]
pub struct Laser {
    pub origin: Vec2Fx,
    pub range: i64,
    pub ignore: usize,
}

/// Destructible scenery: loses life on each laser impact and is
/// despawned once the life is gone.
#[derive(Clone, Copy, PartialEq, Eq, Structural, Debug)]
pub struct Breakable {
    pub life: i64,
}

impl Breakable {
    /// A fresh breakable with one full unit of life.
    pub fn new() -> (r: Breakable)
        ensures
            r == (Breakable { life: crate::fixed::FX_ONE }),
    {
        Breakable { life: crate::fixed::FX_ONE }
    }
}

/// A request to spawn a laser bolt, emitted by the laser behavior and
/// performed by the spawn collaborator.
#[derive(Clone, Copy, PartialEq, Eq, Structural, Debug)]
pub struct TriggerLaserShot {
    pub ignore_entity: usize,
    pub origin: Vec2Fx,
    pub velocity: Vec2Fx,
    pub range: i64,
}

} // verus!
