//! The carry/mount manipulation protocol: picking a part up from under
//! the player's feet, dropping a carried part, resolving the deferred
//! transfer, and collision-triggered mounting onto a base.
//!
//! Every operation here keeps the carry link bidirectional: a carrier
//! points at a pickable exactly when the pickable points back
//! ([`World::links_consistent`]).

use vstd::prelude::*;
use crate::fixed::{FX_ONE, Vec2Fx, iabs, v2_bounded};
use crate::global_types::{Carrier, ChangeCarrying, Joint, Pickable};
use crate::physics_utils::{Contact, StandingOn, contacts_wf, standing_on, standing_on_ok};
use crate::player_control::{FX_HALF, MoveInput};
use crate::world::{EntityRec, World, carried_by_s, carry_target_s};

verus! {

/// Gap left between a carrier and the part anchored above it.
pub const CLEARANCE: i64 = 10_000;

/// Horizontal offset a thrown part is pushed out by.
pub const THROW_OFFSET_X: i64 = 750_000;

/// Vertical offset a thrown part is pushed down by.
pub const THROW_OFFSET_Y: i64 = -200_000;

/// Downward speed a thrown part starts with.
pub const THROW_SPEED_Y: i64 = -3_000_000;

/// Greatest horizontal distance at which a collision still mounts.
pub const MOUNT_ALIGN_TOLERANCE: i64 = 500_000;

/// Greatest half height an entity may have.
pub const HH_LIMIT: i64 = 1_000_000_000;

/// Greatest position or speed magnitude the protocol works with.
pub const GEOM_LIMIT: i64 = 1_000_000_000_000;

/// Loose position bound inside a resolution pass, which may shift an
/// entity by a carry transfer before its own is looked at.
pub const GEOM_SLACK_LIMIT: i64 = 1_000_000_000_000_000;

/// Greatest number of entities a resolution pass accepts; with it the
/// transfer shifts of one pass cannot overflow a position.
pub const MAX_ENTITIES: usize = 100_000;

/// Every collider a contact names is an entity of the table.
pub open spec fn contacts_in_world(cs: Seq<Contact>, len: int) -> bool {
    forall|ci: int|
        0 <= ci < cs.len() ==> #[trigger] cs[ci].collider1 < len && cs[ci].collider2 < len
}

/// Positions, speeds and half heights of all entities are in bounds.
pub open spec fn geom_ok(w: World, bound: int) -> bool {
    forall|e: int|
        w.valid(e) ==> {
            let r = #[trigger] w.rec(e);
            &&& (r.position matches Some(p) ==> v2_bounded(p, bound))
            &&& (r.velocity matches Some(v) ==> v2_bounded(v, bound))
            &&& (r.half_height matches Some(h) ==> 0 <= h <= HH_LIMIT)
        }
}

/// A collision event drained from the physics collaborator's queue.
#[derive(Clone, Copy, PartialEq, Eq, Structural, Debug)]
pub struct CollisionEvent {
    /// Contact started this tick (as opposed to ended).
    pub started: bool,
    pub entity1: usize,
    pub entity2: usize,
    /// The contact involves a sensor collider rather than a solid one.
    pub sensor: bool,
}

/// What one pickup press did.
#[derive(Clone, Copy, PartialEq, Eq, Structural, Debug)]
pub enum PickupOutcome {
    /// The action was not freshly pressed this tick.
    NotPressed,
    /// A carried part was released (and thrown, when a direction was
    /// held).
    Dropped { part: usize },
    /// The part under the player's feet was marked for a deferred
    /// transfer.
    Marked { part: usize, old_carrier: Option<usize> },
    /// Nothing carried and nothing pickable underfoot.
    NoTarget,
}

/// The throw direction a drop uses: the sign of the horizontal axis
/// when it is pushed at least halfway, else none.
pub open spec fn throw_direction_s(input: MoveInput) -> Option<int> {
    if iabs(input.axis_x as int) < FX_HALF {
        None
    } else if input.axis_x > 0 {
        Some(1int)
    } else {
        Some(-1int)
    }
}

/// The record of a part after being dropped: the back link and the
/// joint are cleared, and when thrown it is pushed out and down and
/// given a downward speed.
pub open spec fn dropped_rec_s(r0: EntityRec, dir: Option<int>) -> EntityRec {
    let r1 = EntityRec {
        pickable: Some(Pickable { carried_by: None }),
        joint: None,
        ..r0
    };
    match dir {
        None => r1,
        Some(d) => EntityRec {
            position: Some(
                Vec2Fx {
                    x: (r0.position->0.x + d * THROW_OFFSET_X) as i64,
                    y: (r0.position->0.y + THROW_OFFSET_Y) as i64,
                },
            ),
            velocity: Some(
                Vec2Fx { x: r0.velocity->0.x, y: (r0.velocity->0.y + THROW_SPEED_Y) as i64 },
            ),
            ..r1
        },
    }
}

/// The entity under the player's feet can be marked for a transfer: a
/// live pickable other than the player itself, with the geometry the
/// deferred swap will need.
pub open spec fn pickup_target_ok(w: World, target: usize, player: usize) -> bool {
    &&& target != player
    &&& w.valid(target as int)
    &&& w.rec(target as int).alive
    &&& w.rec(target as int).pickable is Some
    &&& w.rec(target as int).position is Some
    &&& w.rec(target as int).velocity is Some
}

/// One pickup press for `player`: a carried part is always dropped,
/// else the part the player stands on (by the contact oracle) is
/// marked with a deferred transfer.  Returns what was done; the
/// postcondition both pins each outcome's whole change and forces the
/// outcome itself.
#[verifier::rlimit(50)]
pub fn control_pickup(
    w: &mut World,
    player: usize,
    contacts: &Vec<Contact>,
    input: MoveInput,
    just_pressed: bool,
) -> (outcome: PickupOutcome)
    requires
        old(w).wf(),
        old(w).links_consistent(),
        old(w).valid(player as int),
        old(w).rec(player as int).alive,
        old(w).rec(player as int).carrier is Some,
        contacts_wf(contacts@),
        contacts_in_world(contacts@, old(w).entities@.len() as int),
        geom_ok(*old(w), GEOM_LIMIT as int),
        iabs(input.axis_x as int) <= FX_ONE,
        carry_target_s(old(w).rec(player as int)) matches Some(part) ==> part != player && old(
            w,
        ).rec(part as int).position is Some && old(w).rec(part as int).velocity is Some,
    ensures
        final(w).wf(),
        final(w).links_consistent(),
        final(w).entities@.len() == old(w).entities@.len(),
        !just_pressed ==> outcome == PickupOutcome::NotPressed && final(w).entities@ == old(
            w,
        ).entities@,
        outcome == PickupOutcome::NoTarget ==> final(w).entities@ == old(w).entities@
            && carry_target_s(old(w).rec(player as int)) is None,
        outcome matches PickupOutcome::Dropped { part } ==> {
            &&& carry_target_s(old(w).rec(player as int)) == Some(part)
            &&& final(w).rec(player as int) == (EntityRec {
                carrier: Some(Carrier { carrying: None }),
                ..old(w).rec(player as int)
            })
            &&& final(w).rec(part as int) == dropped_rec_s(
                old(w).rec(part as int),
                throw_direction_s(input),
            )
            &&& forall|e: int|
                old(w).valid(e) && e != player && e != part ==> final(w).rec(e) == old(w).rec(e)
        },
        outcome matches PickupOutcome::Marked { part, old_carrier } ==> {
            &&& carry_target_s(old(w).rec(player as int)) is None
            &&& exists|s: StandingOn|
                #[trigger] standing_on_ok(contacts@, player, s) && s.other == part
            &&& old_carrier == carried_by_s(old(w).rec(part as int))
            &&& part != player
            &&& final(w).rec(part as int) == (EntityRec {
                joint: None,
                pending: Some(
                    ChangeCarrying {
                        carrier_entity: player,
                        old_carrier_entity: carried_by_s(old(w).rec(part as int)),
                    },
                ),
                ..old(w).rec(part as int)
            })
            &&& forall|e: int|
                old(w).valid(e) && e != part ==> final(w).rec(e) == old(w).rec(e)
        },
        (outcome == PickupOutcome::NotPressed) <==> !just_pressed,
        just_pressed ==> (carry_target_s(old(w).rec(player as int)) matches Some(part) ==> outcome
            == (PickupOutcome::Dropped { part })),
        just_pressed && carry_target_s(old(w).rec(player as int)) is None && (forall|ci: int,
            mi: int|
            !crate::physics_utils::eligible(contacts@, player, ci, mi)) ==> outcome
            == PickupOutcome::NoTarget,
        just_pressed && carry_target_s(old(w).rec(player as int)) is None ==> forall|
            s: StandingOn,
        |
            #[trigger] standing_on_ok(contacts@, player, s) ==> outcome == (if pickup_target_ok(
                *old(w),
                s.other,
                player,
            ) {
                PickupOutcome::Marked {
                    part: s.other,
                    old_carrier: carried_by_s(old(w).rec(s.other as int)),
                }
            } else {
                PickupOutcome::NoTarget
            }),
{
    if !just_pressed {
        return PickupOutcome::NotPressed;
    }
    let so = standing_on(contacts, player);
    let player_rec = w.entities[player];
    let carrying = player_rec.carrier.unwrap().carrying;
    if let Some(part) = carrying {
        proof {
            assert(old(w).rec_ok(player as int));
            assert(old(w).carries(player as int, part as int));
            assert(old(w).carried_link(part as int, player as int));
        }
        // release: clear both sides of the link and detach the joint;
        // with a held direction the part is also thrown out and down.
        let dir: Option<i64> = if input.axis_x >= FX_HALF {
            Some(1)
        } else if input.axis_x <= -FX_HALF {
            Some(-1)
        } else {
            None
        };
        let part_rec0 = w.entities[part];
        let mut part_rec = part_rec0;
        part_rec.pickable = Some(Pickable { carried_by: None });
        part_rec.joint = None;
        if let Some(d) = dir {
            let pos = part_rec0.position.unwrap();
            let vel = part_rec0.velocity.unwrap();
            proof {
                assert(old(w).rec(part as int) == part_rec0);
                assert(v2_bounded(pos, GEOM_LIMIT as int));
                assert(v2_bounded(vel, GEOM_LIMIT as int));
                assert(d == 1 || d == -1);
            }
            part_rec.position = Some(
                Vec2Fx {
                    x: pos.x + d * THROW_OFFSET_X,
                    y: pos.y + THROW_OFFSET_Y,
                },
            );
            part_rec.velocity = Some(Vec2Fx { x: vel.x, y: vel.y + THROW_SPEED_Y });
        }
        proof {
            assert(part_rec == dropped_rec_s(old(w).rec(part as int), throw_direction_s(
                input,
            )));
        }
        w.entities[part] = part_rec;
        let mut player_rec2 = w.entities[player];
        player_rec2.carrier = Some(Carrier { carrying: None });
        w.entities[player] = player_rec2;
        proof {
            lemma_drop_keeps_links(*old(w), *w, player as int, part as int);
            assert forall|i: int| w.valid(i) implies #[trigger] w.rec_ok(i) by {
                assert(old(w).rec_ok(i));
            }
        }
        PickupOutcome::Dropped { part }
    } else if let Some(s) = so {
        let target = s.other;
        proof {
            assert(standing_on_ok(contacts@, player, s));
            assert(contacts@[s.contact_index as int].collider1 < w.entities@.len()
                && contacts@[s.contact_index as int].collider2 < w.entities@.len());
            assert((target as int) < w.entities@.len());
        }
        if target == player {
            proof {
                assert(!pickup_target_ok(*old(w), target, player));
                assert forall|s2: StandingOn| #[trigger] standing_on_ok(
                    contacts@,
                    player,
                    s2,
                ) implies s2 == s by {
                    crate::physics_utils::lemma_standing_on_unique(contacts@, player, s2, s);
                }
            }
            return PickupOutcome::NoTarget;
        }
        let target_rec = w.entities[target];
        proof {
            assert forall|s2: StandingOn| #[trigger] standing_on_ok(
                contacts@,
                player,
                s2,
            ) implies s2 == s by {
                crate::physics_utils::lemma_standing_on_unique(contacts@, player, s2, s);
            }
        }
        if target_rec.alive && target_rec.pickable.is_some() && target_rec.position.is_some()
            && target_rec.velocity.is_some() {
            let old_carrier = target_rec.pickable.unwrap().carried_by;
            let mut t2 = target_rec;
            t2.joint = None;
            t2.pending = Some(
                ChangeCarrying { carrier_entity: player, old_carrier_entity: old_carrier },
            );
            w.entities[target] = t2;
            proof {
                assert(old(w).valid(target as int));
                assert(old(w).rec_ok(target as int));
                assert(standing_on_ok(contacts@, player, s) && s.other == target);
                assert(pickup_target_ok(*old(w), target, player));
                assert forall|i: int| w.valid(i) implies #[trigger] w.rec_ok(i) by {
                    assert(old(w).rec_ok(i));
                }
                lemma_same_links(*old(w), *w);
            }
            PickupOutcome::Marked { part: target, old_carrier }
        } else {
            proof {
                assert(!pickup_target_ok(*old(w), target, player));
            }
            PickupOutcome::NoTarget
        }
    } else {
        PickupOutcome::NoTarget
    }
}

/// Dropping clears exactly one link, on both of its sides at once, so
/// consistency carries over.
proof fn lemma_drop_keeps_links(w0: World, w1: World, player: int, part: int)
    requires
        w0.links_consistent(),
        w0.valid(player),
        w0.valid(part),
        w1.entities@.len() == w0.entities@.len(),
        w0.carries(player, part),
        w0.carried_link(part, player),
        carry_target_s(w1.rec(player)) is None,
        carried_by_s(w1.rec(part)) is None,
        w1.rec(player).alive == w0.rec(player).alive,
        part != player ==> w1.rec(player).pickable == w0.rec(player).pickable,
        w1.rec(part).alive == w0.rec(part).alive,
        part != player ==> w1.rec(part).carrier == w0.rec(part).carrier,
        forall|e: int| w0.valid(e) && e != player && e != part ==> w1.rec(e) == w0.rec(e),
    ensures
        w1.links_consistent(),
{
    assert forall|c: int, p: int| w1.valid(c) && w1.valid(p) implies (#[trigger] w1.carries(c, p)
        <==> #[trigger] w1.carried_link(p, c)) by {
        if c == player {
            assert(!w1.carries(c, p));
            if w1.carried_link(p, c) {
                assert(p != part);
                assert(w0.carried_link(p, c));
                assert(w0.carries(c, p));
                assert(w0.carried_link(part, player));
                assert(p == part);
            }
        } else if p == part {
            assert(!w1.carried_link(p, c));
            if w1.carries(c, p) {
                assert(c != player);
                assert(w0.carries(c, p));
                assert(w0.carried_link(p, c));
                assert(c == player);
            }
        } else {
            assert(w0.carries(c, p) <==> w0.carried_link(p, c));
            assert(w1.carries(c, p) == w0.carries(c, p));
            assert(w1.carried_link(p, c) == w0.carried_link(p, c));
        }
    }
}

/// Greatest distance a carry transfer may shift an entity by.
pub const TRANSFER_SHIFT_MAX: i64 = 3_000_000_000;

/// The conditions under which a pending transfer on `p` commits this
/// tick: the part still has its roles and geometry; the requesting
/// carrier is a live, distinct carrier with geometry of its own and
/// holds nothing yet; and the marker is not stale — the recorded
/// previous carrier is still the part's current one and is a third
/// entity.  A marker failing any of these is left in place untouched,
/// to be retried next tick (or to vanish with its entity).
pub open spec fn transfer_commits_at(s: Seq<EntityRec>, p: int) -> bool {
    let r = s[p];
    &&& 0 <= p < s.len()
    &&& r.alive
    &&& r.pending is Some
    &&& r.pickable is Some
    &&& r.position is Some
    &&& r.half_height is Some
    &&& {
        let t = r.pending->0;
        let c = t.carrier_entity as int;
        &&& c < s.len()
        &&& c != p
        &&& s[c].alive
        &&& s[c].carrier is Some
        &&& s[c].position is Some
        &&& s[c].half_height is Some
        &&& carry_target_s(s[c]) is None
        &&& carried_by_s(r) == t.old_carrier_entity
        &&& (t.old_carrier_entity matches Some(o) ==> o != t.carrier_entity && o as int != p)
    }
}

/// The conditions under which a pending transfer on `p` commits, over
/// the world.
pub open spec fn transfer_commits(w: World, p: int) -> bool {
    transfer_commits_at(w.entities@, p)
}

/// The part's record once its transfer commits: moved up to sit above
/// the carrier, anchored to it by a fixed joint, back link set, marker
/// gone.
pub open spec fn committed_part_at(s: Seq<EntityRec>, p: int) -> EntityRec {
    let r = s[p];
    let c = r.pending->0.carrier_entity;
    let chh = s[c as int].half_height->0;
    let phh = r.half_height->0;
    EntityRec {
        position: Some(
            Vec2Fx { x: r.position->0.x, y: (r.position->0.y + CLEARANCE + 2 * chh) as i64 },
        ),
        pending: None,
        joint: Some(
            Joint {
                parent: c,
                anchor: Vec2Fx { x: 0, y: (CLEARANCE + chh + phh) as i64 },
            },
        ),
        pickable: Some(Pickable { carried_by: Some(c) }),
        ..r
    }
}

/// The part's record once its transfer commits, over the world.
pub open spec fn committed_part_rec(w: World, p: int) -> EntityRec {
    committed_part_at(w.entities@, p)
}

/// The carrier's record once the transfer commits: moved down to make
/// room, now carrying the part.
pub open spec fn committed_carrier_at(s: Seq<EntityRec>, p: int) -> EntityRec {
    let r = s[p];
    let c = r.pending->0.carrier_entity as int;
    let cr = s[c];
    let phh = r.half_height->0;
    EntityRec {
        position: Some(
            Vec2Fx { x: cr.position->0.x, y: (cr.position->0.y - CLEARANCE - 2 * phh) as i64 },
        ),
        carrier: Some(Carrier { carrying: Some(p as usize) }),
        ..cr
    }
}

/// The carrier's record once the transfer commits, over the world.
pub open spec fn committed_carrier_rec(w: World, p: int) -> EntityRec {
    committed_carrier_at(w.entities@, p)
}

/// The table after the transfer on `p` is looked at: on a commit the
/// part and carrier move and link up and the previous carrier lets go;
/// otherwise nothing changes.
pub open spec fn apply_one_s(s: Seq<EntityRec>, p: int) -> Seq<EntityRec> {
    if transfer_commits_at(s, p) {
        let t = s[p].pending->0;
        let c = t.carrier_entity as int;
        let s1 = s.update(p, committed_part_at(s, p)).update(c, committed_carrier_at(s, p));
        match t.old_carrier_entity {
            Some(o) => s1.update(
                o as int,
                EntityRec { carrier: Some(Carrier { carrying: None }), ..s[o as int] },
            ),
            None => s1,
        }
    } else {
        s
    }
}

/// The table after one resolution pass has looked at the first `k`
/// entities in index order.
pub open spec fn apply_pass_s(s: Seq<EntityRec>, k: nat) -> Seq<EntityRec>
    decreases k,
{
    if k == 0 {
        s
    } else {
        apply_one_s(apply_pass_s(s, (k - 1) as nat), k - 1)
    }
}

/// Resolves the pending transfer on `p`, retrying-style: when the part
/// or its requesting carrier lost a needed role or its geometry, the
/// marker stays for the next tick; otherwise carrier and part swap
/// places vertically, a joint anchors the part above the carrier, both
/// sides of the link are set, and the previous carrier lets go.
pub fn apply_carrying_one(w: &mut World, p: usize) -> (committed: bool)
    requires
        old(w).wf(),
        old(w).links_consistent(),
        old(w).valid(p as int),
        transfer_commits(*old(w), p as int) ==> {
            let c = old(w).rec(p as int).pending->0.carrier_entity as int;
            &&& iabs(old(w).rec(p as int).position->0.y as int) <= GEOM_SLACK_LIMIT
            &&& iabs(old(w).rec(c).position->0.y as int) <= GEOM_SLACK_LIMIT
            &&& 0 <= old(w).rec(p as int).half_height->0 <= HH_LIMIT
            &&& 0 <= old(w).rec(c).half_height->0 <= HH_LIMIT
        },
    ensures
        final(w).wf(),
        final(w).links_consistent(),
        final(w).entities@.len() == old(w).entities@.len(),
        committed == transfer_commits(*old(w), p as int),
        final(w).entities@ == apply_one_s(old(w).entities@, p as int),
        !committed ==> final(w).entities@ == old(w).entities@,
        committed ==> {
            let t = old(w).rec(p as int).pending->0;
            let c = t.carrier_entity as int;
            &&& final(w).rec(p as int) == committed_part_rec(*old(w), p as int)
            &&& final(w).rec(c) == committed_carrier_rec(*old(w), p as int)
            &&& (t.old_carrier_entity matches Some(o) ==> final(w).rec(o as int) == (EntityRec {
                carrier: Some(Carrier { carrying: None }),
                ..old(w).rec(o as int)
            }))
            &&& forall|e: int|
                old(w).valid(e) && e != p && e != c && (t.old_carrier_entity matches Some(o) ==> e
                    != o) ==> final(w).rec(e) == old(w).rec(e)
        },
{
    let rec = w.entities[p];
    if !(rec.alive && rec.pending.is_some() && rec.pickable.is_some() && rec.position.is_some()
        && rec.half_height.is_some()) {
        return false;
    }
    let t = rec.pending.unwrap();
    let c = t.carrier_entity;
    proof {
        assert(old(w).rec_ok(p as int));
    }
    if c == p {
        return false;
    }
    let crec = w.entities[c];
    if !(crec.alive && crec.carrier.is_some() && crec.position.is_some()
        && crec.half_height.is_some()) {
        return false;
    }
    // staleness checks: the requesting carrier must still be free, the
    // recorded previous carrier must still be the part's current one,
    // and must be a third entity
    if crec.carrier.unwrap().carrying.is_some() {
        return false;
    }
    let cur_old = rec.pickable.unwrap().carried_by;
    let still_current = match (cur_old, t.old_carrier_entity) {
        (None, None) => true,
        (Some(a), Some(b)) => a == b,
        _ => false,
    };
    if !still_current {
        return false;
    }
    if let Some(o) = t.old_carrier_entity {
        if o == c || o == p {
            return false;
        }
    }
    proof {
        assert(transfer_commits(*old(w), p as int));
    }
    let chh = crec.half_height.unwrap();
    let phh = rec.half_height.unwrap();
    let pos = rec.position.unwrap();
    let cpos = crec.position.unwrap();
    let mut newp = rec;
    newp.position = Some(Vec2Fx { x: pos.x, y: pos.y + (CLEARANCE + 2 * chh) });
    newp.pending = None;
    newp.joint = Some(Joint { parent: c, anchor: Vec2Fx { x: 0, y: CLEARANCE + chh + phh } });
    newp.pickable = Some(Pickable { carried_by: Some(c) });
    w.entities[p] = newp;
    let mut newc = crec;
    newc.position = Some(Vec2Fx { x: cpos.x, y: cpos.y - (CLEARANCE + 2 * phh) });
    newc.carrier = Some(Carrier { carrying: Some(p) });
    w.entities[c] = newc;
    if let Some(o) = t.old_carrier_entity {
        let orec = w.entities[o];
        if orec.alive && orec.carrier.is_some() {
            let mut newo = orec;
            newo.carrier = Some(Carrier { carrying: None });
            w.entities[o] = newo;
        } else {
            proof {
                assert(old(w).rec(p as int).alive);
                assert(old(w).carried_link(p as int, o as int));
                assert(old(w).carries(o as int, p as int));
                assert(false);
            }
        }
    }
    proof {
        assert forall|i: int| w.valid(i) implies #[trigger] w.rec_ok(i) by {
            assert(old(w).rec_ok(i));
        }
        lemma_transfer_keeps_links(*old(w), *w, p as int, c as int, t.old_carrier_entity);
        assert(w.entities@ =~= apply_one_s(old(w).entities@, p as int));
    }
    true
}

/// Committing one transfer moves one link: the part leaves its old
/// carrier (cleared on both sides at once) and joins the new one (set
/// on both sides at once), so consistency carries over.
proof fn lemma_transfer_keeps_links(w0: World, w1: World, p: int, c: int, old_c: Option<usize>)
    requires
        w0.links_consistent(),
        w0.valid(p),
        w0.valid(c),
        p != c,
        w1.entities@.len() == w0.entities@.len(),
        carry_target_s(w0.rec(c)) is None,
        carried_by_s(w0.rec(p)) == old_c,
        w0.rec(p).alive,
        w0.rec(c).alive,
        old_c matches Some(o) ==> o != c && o as int != p && w0.valid(o as int),
        w1.rec(p).alive == w0.rec(p).alive,
        carry_target_s(w1.rec(p)) == carry_target_s(w0.rec(p)),
        carried_by_s(w1.rec(p)) == Some(c as usize),
        c == c as usize as int,
        w1.rec(c).alive == w0.rec(c).alive,
        carried_by_s(w1.rec(c)) == carried_by_s(w0.rec(c)),
        carry_target_s(w1.rec(c)) == Some(p as usize),
        p == p as usize as int,
        old_c matches Some(o) ==> {
            &&& w1.rec(o as int).alive == w0.rec(o as int).alive
            &&& carry_target_s(w1.rec(o as int)) is None
            &&& carried_by_s(w1.rec(o as int)) == carried_by_s(w0.rec(o as int))
        },
        forall|e: int|
            w0.valid(e) && e != p && e != c && (old_c matches Some(o) ==> e != o) ==> w1.rec(e)
                == w0.rec(e),
    ensures
        w1.links_consistent(),
{
    assert forall|c2: int, p2: int| w1.valid(c2) && w1.valid(p2) implies (#[trigger] w1.carries(
        c2,
        p2,
    ) <==> #[trigger] w1.carried_link(p2, c2)) by {
        if c2 == c {
            if w1.carries(c2, p2) {
                assert(p2 == p);
                assert(w1.carried_link(p, c));
            }
            if w1.carried_link(p2, c2) {
                if p2 != p {
                    assert(carried_by_s(w1.rec(p2)) == carried_by_s(w0.rec(p2)));
                    assert(w0.carried_link(p2, c));
                    assert(w0.carries(c, p2));
                    assert(false);
                }
                assert(w1.carries(c2, p2));
            }
        } else if old_c is Some && c2 == old_c->0 as int {
            let o = old_c->0 as int;
            assert(!w1.carries(c2, p2));
            if w1.carried_link(p2, c2) {
                assert(p2 != p);
                assert(carried_by_s(w1.rec(p2)) == carried_by_s(w0.rec(p2)));
                assert(w0.carried_link(p2, o));
                assert(w0.carries(o, p2));
                assert(w0.carried_link(p, o));
                assert(w0.carries(o, p));
                assert(p2 == p);
                assert(false);
            }
        } else {
            // the carrier role of c2 is as it was in w0
            assert(carry_target_s(w1.rec(c2)) == carry_target_s(w0.rec(c2)) && w1.rec(c2).alive
                == w0.rec(c2).alive);
            if p2 == p {
                if w1.carries(c2, p2) {
                    assert(w0.carries(c2, p));
                    assert(w0.carried_link(p, c2));
                    assert(old_c matches Some(o) && c2 == o as int);
                    assert(false);
                }
                if w1.carried_link(p2, c2) {
                    assert(c2 == c);
                    assert(false);
                }
            } else {
                assert(carried_by_s(w1.rec(p2)) == carried_by_s(w0.rec(p2)) && w1.rec(p2).alive
                    == w0.rec(p2).alive);
                assert(w0.carries(c2, p2) <==> w0.carried_link(p2, c2));
                assert(w1.carries(c2, p2) == w0.carries(c2, p2));
                assert(w1.carried_link(p2, c2) == w0.carried_link(p2, c2));
            }
        }
    }
}

/// A smaller geometry bound implies any larger one.
proof fn lemma_geom_ok_weaken(w: World, b1: int, b2: int)
    requires
        geom_ok(w, b1),
        b1 <= b2,
    ensures
        geom_ok(w, b2),
{
    assert forall|e: int| w.valid(e) implies {
        let r = #[trigger] w.rec(e);
        &&& (r.position matches Some(q) ==> v2_bounded(q, b2))
        &&& (r.velocity matches Some(v) ==> v2_bounded(v, b2))
        &&& (r.half_height matches Some(h) ==> 0 <= h <= HH_LIMIT)
    } by {
        assert(w.rec(e).position matches Some(q) ==> v2_bounded(q, b1));
        assert(w.rec(e).velocity matches Some(v) ==> v2_bounded(v, b1));
        assert(w.rec(e).half_height matches Some(h) ==> 0 <= h <= HH_LIMIT);
    }
}

/// Geometry bounds only read the entity records, so they carry over to
/// any world with the same table.
proof fn lemma_geom_same_view(w0: World, w1: World, b: int)
    requires
        w1.entities@ == w0.entities@,
        geom_ok(w0, b),
    ensures
        geom_ok(w1, b),
{
    assert forall|e: int| w1.valid(e) implies {
        let r = #[trigger] w1.rec(e);
        &&& (r.position matches Some(q) ==> v2_bounded(q, b))
        &&& (r.velocity matches Some(v) ==> v2_bounded(v, b))
        &&& (r.half_height matches Some(h) ==> 0 <= h <= HH_LIMIT)
    } by {
        assert(w1.rec(e) == w0.rec(e));
        assert(w0.rec(e).position matches Some(q) ==> v2_bounded(q, b));
        assert(w0.rec(e).velocity matches Some(v) ==> v2_bounded(v, b));
        assert(w0.rec(e).half_height matches Some(h) ==> 0 <= h <= HH_LIMIT);
    }
}

/// One resolution pass: every pending transfer is looked at once, in
/// entity order, and resolved where its part and carrier still stand
/// and the marker is not stale; any marker that cannot commit is left
/// in place for the next tick.
pub fn apply_carrying(w: &mut World)
    requires
        old(w).wf(),
        old(w).links_consistent(),
        geom_ok(*old(w), GEOM_LIMIT as int),
        old(w).entities@.len() <= MAX_ENTITIES,
    ensures
        final(w).wf(),
        final(w).links_consistent(),
        final(w).entities@.len() == old(w).entities@.len(),
        final(w).entities@ == apply_pass_s(old(w).entities@, old(w).entities@.len()),
{
    let ghost w0 = *w;
    let n = w.entities.len();
    let mut p: usize = 0;
    while p < n
        invariant
            w0 == *old(w),
            w.wf(),
            w.links_consistent(),
            w.entities@.len() == n,
            n == w0.entities@.len(),
            n <= MAX_ENTITIES,
            p <= n,
            w.entities@ == apply_pass_s(w0.entities@, p as nat),
            geom_ok(*w, 1_000_000_000_000 + 6_000_000_000 * p as int),
        decreases n - p,
    {
        let ghost w_before = *w;
        if w.entities[p].pending.is_some() {
            proof {
                if transfer_commits(w_before, p as int) {
                    let c = w_before.rec(p as int).pending->0.carrier_entity as int;
                    assert(w_before.rec(p as int).position matches Some(q) ==> v2_bounded(
                        q,
                        1_000_000_000_000 + 6_000_000_000 * p as int,
                    ));
                    assert(w_before.rec(c).position matches Some(q) ==> v2_bounded(
                        q,
                        1_000_000_000_000 + 6_000_000_000 * p as int,
                    ));
                }
            }
            let committed = apply_carrying_one(w, p);
            proof {
                assert(w.entities@ == apply_one_s(w_before.entities@, p as int));
                if !committed {
                    lemma_geom_same_view(
                        w_before,
                        *w,
                        1_000_000_000_000 + 6_000_000_000 * p as int,
                    );
                    lemma_geom_ok_weaken(
                        *w,
                        1_000_000_000_000 + 6_000_000_000 * p as int,
                        1_000_000_000_000 + 6_000_000_000 * (p as int + 1),
                    );
                } else {
                    let t = w_before.rec(p as int).pending->0;
                    let c = t.carrier_entity as int;
                    assert forall|e: int| w.valid(e) implies {
                        let r = #[trigger] w.rec(e);
                        &&& (r.position matches Some(q) ==> v2_bounded(
                            q,
                            1_000_000_000_000 + 6_000_000_000 * (p as int + 1),
                        ))
                        &&& (r.velocity matches Some(v) ==> v2_bounded(
                            v,
                            1_000_000_000_000 + 6_000_000_000 * (p as int + 1),
                        ))
                        &&& (r.half_height matches Some(h) ==> 0 <= h <= HH_LIMIT)
                    } by {
                        assert(w_before.rec(e).position matches Some(q) ==> v2_bounded(
                            q,
                            1_000_000_000_000 + 6_000_000_000 * p as int,
                        ));
                        assert(w_before.rec(e).velocity matches Some(v) ==> v2_bounded(
                            v,
                            1_000_000_000_000 + 6_000_000_000 * p as int,
                        ));
                        assert(w_before.rec(e).half_height matches Some(h) ==> 0 <= h
                            <= HH_LIMIT);
                        if e == p {
                            assert(w.rec(e) == committed_part_rec(w_before, p as int));
                        } else if e == c {
                            assert(w.rec(e) == committed_carrier_rec(w_before, p as int));
                        } else if t.old_carrier_entity matches Some(o) && e == o as int {
                            assert(w.rec(e).position == w_before.rec(e).position);
                            assert(w.rec(e).velocity == w_before.rec(e).velocity);
                            assert(w.rec(e).half_height == w_before.rec(e).half_height);
                        } else {
                            assert(w.rec(e) == w_before.rec(e));
                        }
                    }
                }
            }
        } else {
            proof {
                assert(!transfer_commits_at(w.entities@, p as int));
                assert(apply_one_s(w.entities@, p as int) == w.entities@);
                lemma_geom_ok_weaken(
                    *w,
                    1_000_000_000_000 + 6_000_000_000 * p as int,
                    1_000_000_000_000 + 6_000_000_000 * (p as int + 1),
                );
            }
        }
        p = p + 1;
    }
}

/// The mounting event is geometrically sound: a fresh contact between
/// two distinct placed entities, horizontally aligned within tolerance.
pub open spec fn mount_geometry_ok(s: Seq<EntityRec>, ev: CollisionEvent) -> bool {
    &&& ev.started
    &&& ev.entity1 != ev.entity2
    &&& ev.entity1 < s.len()
    &&& ev.entity2 < s.len()
    &&& s[ev.entity1 as int].alive
    &&& s[ev.entity2 as int].alive
    &&& s[ev.entity1 as int].position is Some
    &&& s[ev.entity2 as int].position is Some
    &&& iabs(
        s[ev.entity1 as int].position->0.x - s[ev.entity2 as int].position->0.x,
    ) <= MOUNT_ALIGN_TOLERANCE
}

/// The lower entity of the pair: the candidate base.
pub open spec fn mount_base_of(s: Seq<EntityRec>, ev: CollisionEvent) -> usize {
    if s[ev.entity1 as int].position->0.y < s[ev.entity2 as int].position->0.y {
        ev.entity1
    } else {
        ev.entity2
    }
}

/// The upper entity of the pair: the candidate part.
pub open spec fn mount_part_of(s: Seq<EntityRec>, ev: CollisionEvent) -> usize {
    if s[ev.entity1 as int].position->0.y < s[ev.entity2 as int].position->0.y {
        ev.entity2
    } else {
        ev.entity1
    }
}

/// The event mounts: sound geometry, an unengaged mount base below and
/// an unclaimed pickable above, both with a height.
pub open spec fn mount_commits(s: Seq<EntityRec>, ev: CollisionEvent) -> bool {
    &&& mount_geometry_ok(s, ev)
    &&& {
        let b = mount_base_of(s, ev) as int;
        let q = mount_part_of(s, ev) as int;
        &&& s[b].is_mount_base
        &&& s[b].carrier is Some
        &&& carry_target_s(s[b]) is None
        &&& s[b].half_height is Some
        &&& s[q].pickable is Some
        &&& carried_by_s(s[q]) is None
        &&& s[q].half_height is Some
    }
}

/// The part's record once mounted: snapped over the base's center,
/// anchored to it, back link set.
pub open spec fn mounted_part_rec(s: Seq<EntityRec>, ev: CollisionEvent) -> EntityRec {
    let b = mount_base_of(s, ev);
    let q = mount_part_of(s, ev) as int;
    let r = s[q];
    let bhh = s[b as int].half_height->0;
    let qhh = r.half_height->0;
    EntityRec {
        position: Some(Vec2Fx { x: s[b as int].position->0.x, y: r.position->0.y }),
        pickable: Some(Pickable { carried_by: Some(b) }),
        joint: Some(
            Joint { parent: b, anchor: Vec2Fx { x: 0, y: (CLEARANCE + bhh + qhh) as i64 } },
        ),
        ..r
    }
}

/// The table after one collision event is looked at: a mounting event
/// links base and part; any other event changes nothing.
pub open spec fn mount_one_s(s: Seq<EntityRec>, ev: CollisionEvent) -> Seq<EntityRec> {
    if mount_commits(s, ev) {
        let b = mount_base_of(s, ev) as int;
        let q = mount_part_of(s, ev) as int;
        s.update(q, mounted_part_rec(s, ev)).update(
            b,
            EntityRec {
                carrier: Some(Carrier { carrying: Some(mount_part_of(s, ev)) }),
                ..s[b]
            },
        )
    } else {
        s
    }
}

/// The table after the mounting detector has drained the first `k`
/// events in order.
pub open spec fn mount_pass_s(s: Seq<EntityRec>, events: Seq<CollisionEvent>, k: nat) -> Seq<
    EntityRec,
>
    decreases k,
{
    if k == 0 {
        s
    } else {
        mount_one_s(mount_pass_s(s, events, (k - 1) as nat), events[k - 1])
    }
}

/// On a fresh contact between an unengaged mount base and an unclaimed
/// pickable aligned within tolerance, establishes the carry link and
/// the joint directly; any other event changes nothing.
pub fn detect_mounting_one(w: &mut World, ev: CollisionEvent) -> (mounted: bool)
    requires
        old(w).wf(),
        old(w).links_consistent(),
        geom_ok(*old(w), GEOM_LIMIT as int),
        ev.entity1 < old(w).entities@.len(),
        ev.entity2 < old(w).entities@.len(),
    ensures
        final(w).wf(),
        final(w).links_consistent(),
        final(w).entities@.len() == old(w).entities@.len(),
        geom_ok(*final(w), GEOM_LIMIT as int),
        mounted == mount_commits(old(w).entities@, ev),
        final(w).entities@ == mount_one_s(old(w).entities@, ev),
        !mounted ==> final(w).entities@ == old(w).entities@,
        mounted ==> {
            let b = mount_base_of(old(w).entities@, ev) as int;
            let q = mount_part_of(old(w).entities@, ev) as int;
            &&& final(w).rec(q) == mounted_part_rec(old(w).entities@, ev)
            &&& final(w).rec(b) == (EntityRec {
                carrier: Some(Carrier { carrying: Some(mount_part_of(old(w).entities@, ev)) }),
                ..old(w).rec(b)
            })
            &&& forall|e: int|
                old(w).valid(e) && e != b && e != q ==> final(w).rec(e) == old(w).rec(e)
        },
{
    if !ev.started || ev.entity1 == ev.entity2 {
        return false;
    }
    let r1 = w.entities[ev.entity1];
    let r2 = w.entities[ev.entity2];
    if !(r1.alive && r2.alive && r1.position.is_some() && r2.position.is_some()) {
        return false;
    }
    let p1 = r1.position.unwrap();
    let p2 = r2.position.unwrap();
    proof {
        assert(r1 == old(w).rec(ev.entity1 as int));
        assert(r2 == old(w).rec(ev.entity2 as int));
        assert(old(w).rec(ev.entity1 as int).position matches Some(q) ==> v2_bounded(
            q,
            GEOM_LIMIT as int,
        ));
        assert(old(w).rec(ev.entity2 as int).position matches Some(q) ==> v2_bounded(
            q,
            GEOM_LIMIT as int,
        ));
        assert(v2_bounded(p1, GEOM_LIMIT as int));
        assert(v2_bounded(p2, GEOM_LIMIT as int));
    }
    let dx = if p1.x >= p2.x {
        p1.x - p2.x
    } else {
        p2.x - p1.x
    };
    if dx > MOUNT_ALIGN_TOLERANCE {
        return false;
    }
    let (base, part) = if p1.y < p2.y {
        (ev.entity1, ev.entity2)
    } else {
        (ev.entity2, ev.entity1)
    };
    let brec = w.entities[base];
    if !(brec.is_mount_base && brec.carrier.is_some() && brec.half_height.is_some()) {
        return false;
    }
    if brec.carrier.unwrap().carrying.is_some() {
        return false;
    }
    let qrec = w.entities[part];
    if !(qrec.pickable.is_some() && qrec.half_height.is_some()) {
        return false;
    }
    if qrec.pickable.unwrap().carried_by.is_some() {
        return false;
    }
    let bhh = brec.half_height.unwrap();
    let qhh = qrec.half_height.unwrap();
    let bpos = brec.position.unwrap();
    let qpos = qrec.position.unwrap();
    proof {
        assert(0 <= bhh <= HH_LIMIT);
        assert(0 <= qhh <= HH_LIMIT);
    }
    let mut newq = qrec;
    newq.position = Some(Vec2Fx { x: bpos.x, y: qpos.y });
    newq.pickable = Some(Pickable { carried_by: Some(base) });
    newq.joint = Some(Joint { parent: base, anchor: Vec2Fx { x: 0, y: CLEARANCE + bhh + qhh } });
    w.entities[part] = newq;
    let mut newb = brec;
    newb.carrier = Some(Carrier { carrying: Some(part) });
    w.entities[base] = newb;
    proof {
        assert forall|i: int| w.valid(i) implies #[trigger] w.rec_ok(i) by {
            assert(old(w).rec_ok(i));
        }
        lemma_transfer_keeps_links(*old(w), *w, part as int, base as int, None);
        assert(w.entities@ =~= mount_one_s(old(w).entities@, ev));
        assert forall|e: int| w.valid(e) implies {
            let r = #[trigger] w.rec(e);
            &&& (r.position matches Some(q) ==> v2_bounded(q, GEOM_LIMIT as int))
            &&& (r.velocity matches Some(v) ==> v2_bounded(v, GEOM_LIMIT as int))
            &&& (r.half_height matches Some(h) ==> 0 <= h <= HH_LIMIT)
        } by {
            assert(old(w).rec(e).position matches Some(q) ==> v2_bounded(q, GEOM_LIMIT as int));
            assert(old(w).rec(e).velocity matches Some(v) ==> v2_bounded(v, GEOM_LIMIT as int));
            assert(old(w).rec(e).half_height matches Some(h) ==> 0 <= h <= HH_LIMIT);
            if e != part as int && e != base as int {
                assert(w.rec(e) == old(w).rec(e));
            }
        }
    }
    true
}

/// Drains this tick's collision events once, in order, mounting
/// wherever a fresh contact pairs an unengaged base with an unclaimed
/// part, and discarding every other event silently.
pub fn detect_mounting(w: &mut World, events: &Vec<CollisionEvent>)
    requires
        old(w).wf(),
        old(w).links_consistent(),
        geom_ok(*old(w), GEOM_LIMIT as int),
        forall|i: int|
            0 <= i < events@.len() ==> #[trigger] events@[i].entity1 < old(w).entities@.len()
                && events@[i].entity2 < old(w).entities@.len(),
    ensures
        final(w).wf(),
        final(w).links_consistent(),
        final(w).entities@.len() == old(w).entities@.len(),
        geom_ok(*final(w), GEOM_LIMIT as int),
        final(w).entities@ == mount_pass_s(old(w).entities@, events@, events@.len()),
{
    let ghost w0 = *w;
    let mut i: usize = 0;
    while i < events.len()
        invariant
            w0 == *old(w),
            w.wf(),
            w.links_consistent(),
            w.entities@.len() == w0.entities@.len(),
            i <= events@.len(),
            geom_ok(*w, GEOM_LIMIT as int),
            w.entities@ == mount_pass_s(w0.entities@, events@, i as nat),
            forall|j: int|
                0 <= j < events@.len() ==> #[trigger] events@[j].entity1 < w.entities@.len()
                    && events@[j].entity2 < w.entities@.len(),
        decreases events@.len() - i,
    {
        let ev = events[i];
        let ghost w_prev = *w;
        detect_mounting_one(w, ev);
        proof {
            assert(w.entities@ == mount_one_s(w_prev.entities@, ev));
        }
        i = i + 1;
    }
}

/// A world whose carry links all match another's is consistent when
/// that other is.
proof fn lemma_same_links(w0: World, w1: World)
    requires
        w0.links_consistent(),
        w1.entities@.len() == w0.entities@.len(),
        forall|e: int|
            w0.valid(e) ==> {
                &&& carry_target_s(#[trigger] w1.rec(e)) == carry_target_s(w0.rec(e))
                &&& carried_by_s(w1.rec(e)) == carried_by_s(w0.rec(e))
                &&& w1.rec(e).alive == w0.rec(e).alive
            },
    ensures
        w1.links_consistent(),
{
    assert forall|c: int, p: int| w1.valid(c) && w1.valid(p) implies (#[trigger] w1.carries(c, p)
        <==> #[trigger] w1.carried_link(p, c)) by {
        assert(carry_target_s(w1.rec(c)) == carry_target_s(w0.rec(c)));
        assert(carried_by_s(w1.rec(p)) == carried_by_s(w0.rec(p)));
        assert(w0.carries(c, p) <==> w0.carried_link(p, c));
    }
}

} // verus!
