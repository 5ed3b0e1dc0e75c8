//! The part catalog: static per-type geometry and role wiring, read by
//! spawn logic and never during the simulation loop.

use vstd::prelude::*;
use crate::behavior_types::{HoverBehavior, LaserBehavior, RotatorBehavior};
use crate::fixed::Vec2Fx;
use crate::global_types::{Activatable, Carrier, HDirection, Pickable};
use crate::timer::RepeatingTimer;
use crate::world::{EntityRec, World};

verus! {

/// The kinds of robot part a level may hold.
#[derive(Clone, Copy, PartialEq, Eq, Structural, Debug)]
pub enum RobotPartType {
    Platform,
    Hover,
    Laser,
    Stationary,
    Rotator,
}

impl RobotPartType {
    /// All part types, in catalog order.
    pub fn list() -> (r: Vec<RobotPartType>)
        ensures
            r@ == seq![
                RobotPartType::Platform,
                RobotPartType::Hover,
                RobotPartType::Laser,
                RobotPartType::Stationary,
                RobotPartType::Rotator,
            ],
    {
        let mut r: Vec<RobotPartType> = Vec::new();
        r.push(RobotPartType::Platform);
        r.push(RobotPartType::Hover);
        r.push(RobotPartType::Laser);
        r.push(RobotPartType::Stationary);
        r.push(RobotPartType::Rotator);
        proof {
            assert(r@ =~= seq![
                RobotPartType::Platform,
                RobotPartType::Hover,
                RobotPartType::Laser,
                RobotPartType::Stationary,
                RobotPartType::Rotator,
            ]);
        }
        r
    }

    /// The part's collider height in world units.
    pub open spec fn height_s(self) -> i64 {
        match self {
            RobotPartType::Platform => 93_750,
            RobotPartType::Hover => 312_500,
            RobotPartType::Laser => 468_750,
            RobotPartType::Stationary => 218_750,
            RobotPartType::Rotator => 218_750,
        }
    }

    /// The part's collider height in world units.
    pub fn height(&self) -> (r: i64)
        ensures
            r == self.height_s(),
    {
        match self {
            RobotPartType::Platform => 93_750,
            RobotPartType::Hover => 312_500,
            RobotPartType::Laser => 468_750,
            RobotPartType::Stationary => 218_750,
            RobotPartType::Rotator => 218_750,
        }
    }

    /// The roles and behavior state a fresh part of this type carries.
    pub open spec fn components_s(self, base: EntityRec) -> EntityRec {
        match self {
            RobotPartType::Platform => EntityRec {
                pickable: Some(Pickable { carried_by: None }),
                ..base
            },
            RobotPartType::Hover => EntityRec {
                is_mount_base: true,
                is_power_source: true,
                carrier: Some(Carrier { carrying: None }),
                activatable: Some(Activatable { active: false }),
                hover: Some(HoverBehavior { range: 600_000 }),
                ..base
            },
            RobotPartType::Laser => EntityRec {
                pickable: Some(Pickable { carried_by: None }),
                activatable: Some(Activatable { active: false }),
                laser: Some(
                    LaserBehavior {
                        next_shot_timer: RepeatingTimer {
                            duration: 500_000,
                            elapsed: 0,
                            just_finished: false,
                        },
                        speed: 10_000_000,
                        range: 3_000_000,
                    },
                ),
                ..base
            },
            RobotPartType::Stationary => EntityRec {
                is_mount_base: true,
                is_power_source: true,
                carrier: Some(Carrier { carrying: None }),
                activatable: Some(Activatable { active: false }),
                ..base
            },
            RobotPartType::Rotator => EntityRec {
                is_mount_base: true,
                pickable: Some(Pickable { carried_by: None }),
                carrier: Some(Carrier { carrying: None }),
                activatable: Some(Activatable { active: false }),
                rotator: Some(
                    RotatorBehavior {
                        next_turn_timer: RepeatingTimer {
                            duration: 1_000_000,
                            elapsed: 0,
                            just_finished: false,
                        },
                    },
                ),
                ..base
            },
        }
    }

    /// Attaches this part type's roles and behavior state to a record.
    pub fn fill_components(&self, rec: &mut EntityRec)
        ensures
            *final(rec) == self.components_s(*old(rec)),
    {
        match self {
            RobotPartType::Platform => {
                rec.pickable = Some(Pickable { carried_by: None });
            },
            RobotPartType::Hover => {
                rec.is_mount_base = true;
                rec.is_power_source = true;
                rec.carrier = Some(Carrier { carrying: None });
                rec.activatable = Some(Activatable { active: false });
                rec.hover = Some(HoverBehavior { range: 600_000 });
            },
            RobotPartType::Laser => {
                rec.pickable = Some(Pickable { carried_by: None });
                rec.activatable = Some(Activatable { active: false });
                rec.laser = Some(
                    LaserBehavior {
                        next_shot_timer: RepeatingTimer {
                            duration: 500_000,
                            elapsed: 0,
                            just_finished: false,
                        },
                        speed: 10_000_000,
                        range: 3_000_000,
                    },
                );
            },
            RobotPartType::Stationary => {
                rec.is_mount_base = true;
                rec.is_power_source = true;
                rec.carrier = Some(Carrier { carrying: None });
                rec.activatable = Some(Activatable { active: false });
            },
            RobotPartType::Rotator => {
                rec.is_mount_base = true;
                rec.pickable = Some(Pickable { carried_by: None });
                rec.carrier = Some(Carrier { carrying: None });
                rec.activatable = Some(Activatable { active: false });
                rec.rotator = Some(
                    RotatorBehavior {
                        next_turn_timer: RepeatingTimer {
                            duration: 1_000_000,
                            elapsed: 0,
                            just_finished: false,
                        },
                    },
                );
            },
        }
    }
}

/// Spawns a robot part of the given type: a live body at `position`
/// facing `hdirection`, at rest, with the catalog's geometry and roles.
pub fn spawn_robot_part(
    w: &mut World,
    part_type: RobotPartType,
    position: Vec2Fx,
    hdirection: HDirection,
) -> (e: usize)
    requires
        old(w).wf(),
    ensures
        final(w).wf(),
        e == old(w).entities@.len(),
        final(w).entities@ == old(w).entities@.push(
            part_type.components_s(
                EntityRec {
                    alive: true,
                    position: Some(position),
                    velocity: Some(Vec2Fx { x: 0, y: 0 }),
                    hdirection: Some(hdirection),
                    half_height: Some((part_type.height_s() as int / 2) as i64),
                    ..EntityRec::empty_s()
                },
            ),
        ),
{
    let mut rec = EntityRec::blank();
    rec.position = Some(position);
    rec.velocity = Some(Vec2Fx { x: 0, y: 0 });
    rec.hdirection = Some(hdirection);
    rec.half_height = Some(((part_type.height() as u64) / 2) as i64);
    part_type.fill_components(&mut rec);
    w.spawn(rec)
}

} // verus!
