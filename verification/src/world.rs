//! The entity table: one record per entity, holding whichever roles
//! the entity has.
//!
//! Entities are indices into the table, never owning pointers, so the
//! carry graph may in principle hold any shape — every traversal over
//! it carries an explicit visited set and is proved to terminate.

use vstd::prelude::*;
use crate::fixed::Vec2Fx;
use crate::global_types::{
    Activatable, Carrier, ChangeCarrying, HDirection, Joint, OpenableDoor, Pickable,
};
use crate::behavior_types::{Breakable, HoverBehavior, Laser, LaserBehavior, RotatorBehavior};
use crate::player_control::PlayerControl;

verus! {

/// All the state one entity may hold.  A `None` role means the entity
/// does not take part in the corresponding rule.
#[derive(Clone, Copy, PartialEq, Eq, Structural, Debug)]
pub struct EntityRec {
    pub alive: bool,
    pub is_player: bool,
    pub is_mount_base: bool,
    pub is_power_source: bool,
    pub is_door_key: bool,
    pub half_height: Option<i64>,
    pub position: Option<Vec2Fx>,
    pub velocity: Option<Vec2Fx>,
    pub hdirection: Option<HDirection>,
    pub carrier: Option<Carrier>,
    pub pickable: Option<Pickable>,
    pub activatable: Option<Activatable>,
    pub joint: Option<Joint>,
    pub pending: Option<ChangeCarrying>,
    pub hover: Option<HoverBehavior>,
    pub laser: Option<LaserBehavior>,
    pub rotator: Option<RotatorBehavior>,
    pub bolt: Option<Laser>,
    pub breakable: Option<Breakable>,
    pub door: Option<OpenableDoor>,
    pub player_control: Option<PlayerControl>,
}

impl EntityRec {
    /// A despawned entity: no roles, not alive.
    pub fn empty() -> (r: EntityRec)
        ensures
            r == EntityRec::empty_s(),
    {
        EntityRec {
            alive: false,
            is_player: false,
            is_mount_base: false,
            is_power_source: false,
            is_door_key: false,
            half_height: None,
            position: None,
            velocity: None,
            hdirection: None,
            carrier: None,
            pickable: None,
            activatable: None,
            joint: None,
            pending: None,
            hover: None,
            laser: None,
            rotator: None,
            bolt: None,
            breakable: None,
            door: None,
            player_control: None,
        }
    }

    /// A despawned entity: no roles, not alive.
    pub open spec fn empty_s() -> EntityRec {
        EntityRec {
            alive: false,
            is_player: false,
            is_mount_base: false,
            is_power_source: false,
            is_door_key: false,
            half_height: None,
            position: None,
            velocity: None,
            hdirection: None,
            carrier: None,
            pickable: None,
            activatable: None,
            joint: None,
            pending: None,
            hover: None,
            laser: None,
            rotator: None,
            bolt: None,
            breakable: None,
            door: None,
            player_control: None,
        }
    }

    /// A fresh alive entity with no roles yet.
    pub fn blank() -> (r: EntityRec)
        ensures
            r == (EntityRec { alive: true, ..EntityRec::empty_s() }),
    {
        let mut r = EntityRec::empty();
        r.alive = true;
        r
    }
}

/// The entity table.
#[derive(Clone, PartialEq, Eq, Debug)]
pub struct World {
    pub entities: Vec<EntityRec>,
}

/// Whom the record's carrier role points at, if it has one.
pub open spec fn carry_target_s(r: EntityRec) -> Option<usize> {
    match r.carrier {
        Some(c) => c.carrying,
        None => None,
    }
}

/// Whom the record's pickable role points back at, if it has one.
pub open spec fn carried_by_s(r: EntityRec) -> Option<usize> {
    match r.pickable {
        Some(k) => k.carried_by,
        None => None,
    }
}

impl World {
    /// The record of entity `e`.
    pub open spec fn rec(self, e: int) -> EntityRec {
        self.entities@[e]
    }

    /// `e` is an index into the table.
    pub open spec fn valid(self, e: int) -> bool {
        0 <= e < self.entities@.len()
    }

    /// Every entity reference held by the record of `e` points into the
    /// table, and its timers are sound.
    pub open spec fn rec_ok(self, e: int) -> bool {
        let r = self.rec(e);
        &&& (carry_target_s(r) matches Some(p) ==> p < self.entities@.len())
        &&& (carried_by_s(r) matches Some(c) ==> c < self.entities@.len())
        &&& (r.joint matches Some(j) ==> j.parent < self.entities@.len())
        &&& (r.pending matches Some(t) ==> t.carrier_entity < self.entities@.len() && (
        t.old_carrier_entity matches Some(o) ==> o < self.entities@.len()))
        &&& (r.laser matches Some(l) ==> l.next_shot_timer.wf())
        &&& (r.rotator matches Some(rt) ==> rt.next_turn_timer.wf())
    }

    /// The whole table is well formed.
    pub open spec fn wf(self) -> bool {
        forall|e: int| self.valid(e) ==> #[trigger] self.rec_ok(e)
    }

    /// Entity `c` is alive, has the carrier role, and carries `p`.
    pub open spec fn carries(self, c: int, p: int) -> bool {
        &&& self.rec(c).alive
        &&& carry_target_s(self.rec(c)) is Some
        &&& carry_target_s(self.rec(c))->0 == p
    }

    /// Entity `p` is alive, has the pickable role, and records `c` as
    /// its carrier.
    pub open spec fn carried_link(self, p: int, c: int) -> bool {
        &&& self.rec(p).alive
        &&& carried_by_s(self.rec(p)) is Some
        &&& carried_by_s(self.rec(p))->0 == c
    }

    /// The bidirectional carry link is never one-sided: a carrier
    /// points at a pickable exactly when that pickable points back.
    pub open spec fn links_consistent(self) -> bool {
        forall|c: int, p: int|
            #![trigger self.carries(c, p)]
            #![trigger self.carried_link(p, c)]
            self.valid(c) && self.valid(p) ==> (self.carries(c, p) <==> self.carried_link(p, c))
    }

    /// An empty table.
    pub fn new() -> (r: World)
        ensures
            r.entities@.len() == 0,
            r.wf(),
    {
        World { entities: Vec::new() }
    }

    /// Number of entities ever spawned (despawned slots included).
    pub fn len(&self) -> (r: usize)
        ensures
            r == self.entities@.len(),
    {
        self.entities.len()
    }

    /// Adds an entity record and returns its index.  The record may not
    /// reference other entities yet.
    pub fn spawn(&mut self, rec: EntityRec) -> (e: usize)
        requires
            old(self).wf(),
            carry_target_s(rec) is None,
            carried_by_s(rec) is None,
            rec.joint is None,
            rec.pending is None,
            rec.laser matches Some(l) ==> l.next_shot_timer.wf(),
            rec.rotator matches Some(rt) ==> rt.next_turn_timer.wf(),
        ensures
            final(self).wf(),
            e == old(self).entities@.len(),
            final(self).entities@ == old(self).entities@.push(rec),
    {
        let e = self.entities.len();
        self.entities.push(rec);
        proof {
            assert forall|i: int| self.valid(i) implies #[trigger] self.rec_ok(i) by {
                if i < e {
                    assert(old(self).rec_ok(i));
                    assert(self.rec(i) == old(self).rec(i));
                } else {
                    assert(self.rec(i) == rec);
                }
            }
        }
        e
    }

    /// Removes entity `e` from play: the record is cleared and the slot
    /// stays dead.  References other entities hold to `e` are left in
    /// place, as the collaborator that despawns does not know of them;
    /// the systems that walk the graph treat a dead target as a missing
    /// role and stop there.
    pub fn despawn(&mut self, e: usize)
        requires
            old(self).wf(),
            old(self).valid(e as int),
        ensures
            final(self).wf(),
            final(self).entities@ == old(self).entities@.update(e as int, EntityRec::empty_s()),
    {
        self.entities[e] = EntityRec::empty();
        proof {
            assert forall|i: int| self.valid(i) implies #[trigger] self.rec_ok(i) by {
                if i != e {
                    assert(old(self).rec_ok(i));
                    assert(self.rec(i) == old(self).rec(i));
                } else {
                    assert(self.rec(i) == EntityRec::empty_s());
                }
            }
        }
    }
}

} // verus!
