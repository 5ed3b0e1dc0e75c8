//! Roles and per-part state shared by the simulation systems.
//!
//! An entity may hold any subset of these components; the
//! [`crate::world`] module gathers them into one record per entity.

use vstd::prelude::*;
use crate::fixed::{FX_ONE, Vec2Fx};

verus! {

/// Which way an entity faces.
#[derive(Clone, Copy, PartialEq, Eq, Structural, Debug)]
pub enum HDirection {
    Left,
    Right,
}

impl HDirection {
    /// The horizontal component of the facing direction, as a
    /// fixed-point scalar of unit magnitude.
    pub fn as_x(&self) -> (r: i64)
        ensures
            self is Left ==> r == -FX_ONE,
            self is Right ==> r == FX_ONE,
    {
        match self {
            HDirection::Left => -FX_ONE,
            HDirection::Right => FX_ONE,
        }
    }

    /// The opposite facing direction.
    pub fn switch(&self) -> (r: HDirection)
        ensures
            r == self.switch_s(),
    {
        match self {
            HDirection::Left => HDirection::Right,
            HDirection::Right => HDirection::Left,
        }
    }

    /// The opposite facing direction.
    pub open spec fn switch_s(self) -> HDirection {
        match self {
            HDirection::Left => HDirection::Right,
            HDirection::Right => HDirection::Left,
        }
    }

    /// The facing direction as a unit vector along the x axis.
    pub fn as_vec(&self) -> (r: Vec2Fx)
        ensures
            self is Left ==> r == (Vec2Fx { x: (-FX_ONE) as i64, y: 0 }),
            self is Right ==> r == (Vec2Fx { x: FX_ONE, y: 0 }),
    {
        Vec2Fx { x: self.as_x(), y: 0 }
    }
}

/// Carrier role: holds at most one reference to the entity currently
/// carried.
#[derive(Clone, Copy, PartialEq, Eq, Structural, Debug)]
pub struct Carrier {
    pub carrying: Option<usize>,
}

/// Pickable role: holds at most one back-reference to the carrier
/// currently carrying this entity.
#[derive(Clone, Copy, PartialEq, Eq, Structural, Debug)]
pub struct Pickable {
    pub carried_by: Option<usize>,
}

/// Activatable role: the powered-on flag, written each tick by
/// activation propagation and read by the behavior systems.
#[derive(Clone, Copy, PartialEq, Eq, Structural, Debug)]
pub struct Activatable {
    pub active: bool,
}

/// A door that opens once every key is taken.
#[derive(Clone, Copy, PartialEq, Eq, Structural, Debug)]
pub struct OpenableDoor {
    pub open: bool,
}

/// A physics joint pinning an entity to a parent at a local anchor,
/// applied by the physics collaborator.
#[derive(Clone, Copy, PartialEq, Eq, Structural, Debug)]
pub struct Joint {
    pub parent: usize,
    pub anchor: Vec2Fx,
}

/// One-tick transactional marker: requests a deferred change of the
/// carry link once geometric repositioning succeeds.
#[derive(Clone, Copy, PartialEq, Eq, Structural, Debug)]
pub struct ChangeCarrying {
    pub carrier_entity: usize,
    pub old_carrier_entity: Option<usize>,
}

} // verus!
