//! Per-behavior per-tick logic, gated by the active flag: hover lift,
//! timed laser discharge, and timed direction flip that propagates
//! through the stack of carried parts.

use vstd::prelude::*;
use crate::behavior_types::TriggerLaserShot;
use crate::fixed::{FX_ONE, Vec2Fx, halve, iabs, tdiv, v2_bounded};
use crate::global_types::HDirection;
use crate::parts_manipulation::GEOM_LIMIT;
use crate::part_activation::{count_marked, lemma_count_marked_le, lemma_count_marked_update};
use crate::player_control::FX_HALF;
use crate::timer::RepeatingTimer;
use crate::world::{EntityRec, World, carry_target_s};

verus! {

/// The entity runs the hover rule this tick: alive, activatable,
/// hovering, with a velocity to steer.
pub open spec fn hover_applies(w: World, e: int) -> bool {
    let r = w.rec(e);
    &&& r.alive
    &&& r.activatable is Some
    &&& r.activatable->0.active
    &&& r.hover is Some
    &&& r.velocity is Some
}

/// The vertical speed after one hover tick that saw ground at distance
/// `toi`: the desired upward speed grows as the ground gets closer, and
/// the current speed is averaged toward it rather than replaced, so the
/// lift never snaps.
pub open spec fn hover_vy(vy: int, range: int, toi: int) -> int {
    let desired = 2 * (range - toi);
    if vy < desired {
        tdiv(vy + desired, 2)
    } else {
        vy
    }
}

/// One hover tick for `e`.  `cast_toi` is the physics collaborator's
/// downward shape probe from the part (ignoring the part and its
/// children): the distance to the first hit within the hover range, if
/// any.
pub fn impl_hover_one(w: &mut World, e: usize, cast_toi: Option<i64>)
    requires
        old(w).wf(),
        old(w).valid(e as int),
        old(w).rec(e as int).hover matches Some(h) ==> 0 <= h.range <= GEOM_LIMIT,
        old(w).rec(e as int).velocity matches Some(v) ==> v2_bounded(v, GEOM_LIMIT as int),
        cast_toi matches Some(t) ==> 0 <= t && (old(w).rec(e as int).hover matches Some(h) ==> t
            <= h.range),
    ensures
        final(w).wf(),
        final(w).entities@.len() == old(w).entities@.len(),
        hover_applies(*old(w), e as int) && cast_toi is Some ==> final(w).entities@ == old(
            w,
        ).entities@.update(
            e as int,
            EntityRec {
                velocity: Some(
                    Vec2Fx {
                        x: old(w).rec(e as int).velocity->0.x,
                        y: hover_vy(
                            old(w).rec(e as int).velocity->0.y as int,
                            old(w).rec(e as int).hover->0.range as int,
                            cast_toi->0 as int,
                        ) as i64,
                    },
                ),
                ..old(w).rec(e as int)
            },
        ),
        !(hover_applies(*old(w), e as int) && cast_toi is Some) ==> final(w).entities@ == old(
            w,
        ).entities@,
{
    let rec = w.entities[e];
    if !(rec.alive && rec.activatable.is_some() && rec.hover.is_some() && rec.velocity.is_some()) {
        return ;
    }
    if !rec.activatable.unwrap().active {
        return ;
    }
    if let Some(toi) = cast_toi {
        let range = rec.hover.unwrap().range;
        let vel = rec.velocity.unwrap();
        let desired = 2 * (range - toi);
        let new_y = if vel.y < desired {
            halve(vel.y + desired)
        } else {
            vel.y
        };
        let mut r2 = rec;
        r2.velocity = Some(Vec2Fx { x: vel.x, y: new_y });
        w.entities[e] = r2;
        proof {
            assert forall|i: int| w.valid(i) implies #[trigger] w.rec_ok(i) by {
                assert(old(w).rec_ok(i));
            }
        }
    }
}

/// The entity runs the laser rule this tick: alive, activatable, armed,
/// placed and facing somewhere.
pub open spec fn laser_ready(w: World, e: int) -> bool {
    let r = w.rec(e);
    &&& r.alive
    &&& r.activatable is Some
    &&& r.laser is Some
    &&& r.position is Some
    &&& r.hdirection is Some
}

/// The facing direction's sign.
pub open spec fn dir_sign(d: HDirection) -> int {
    if d is Left {
        -1
    } else {
        1
    }
}

/// The shoot request the laser emits when its timer completes: origin
/// half a unit out along the facing, speed along the facing, the
/// configured range, and the shooter itself to ignore on the way out.
pub open spec fn shot_of(w: World, e: int) -> TriggerLaserShot {
    let r = w.rec(e);
    let d = dir_sign(r.hdirection->0);
    TriggerLaserShot {
        ignore_entity: e as usize,
        origin: Vec2Fx {
            x: (r.position->0.x + d * FX_HALF) as i64,
            y: r.position->0.y,
        },
        velocity: Vec2Fx { x: (d * r.laser->0.speed) as i64, y: 0 },
        range: r.laser->0.range,
    }
}

/// One laser tick for `e`: inactive resets the timer (so reactivation
/// waits a full period); active advances it and fires exactly when a
/// period completes.
pub fn impl_laser_one(w: &mut World, e: usize, delta: i64) -> (shot: Option<TriggerLaserShot>)
    requires
        old(w).wf(),
        old(w).valid(e as int),
        0 <= delta <= FX_ONE,
        old(w).rec(e as int).position matches Some(p) ==> v2_bounded(p, GEOM_LIMIT as int),
        old(w).rec(e as int).laser matches Some(l) ==> iabs(l.speed as int) <= GEOM_LIMIT
            && l.next_shot_timer.elapsed + delta <= i64::MAX,
    ensures
        final(w).wf(),
        final(w).entities@.len() == old(w).entities@.len(),
        !laser_ready(*old(w), e as int) ==> final(w).entities@ == old(w).entities@ && shot is None,
        laser_ready(*old(w), e as int) && !old(w).rec(e as int).activatable->0.active ==> {
            &&& shot is None
            &&& final(w).entities@ == old(w).entities@.update(
                e as int,
                EntityRec {
                    laser: Some(
                        crate::behavior_types::LaserBehavior {
                            next_shot_timer: RepeatingTimer {
                                duration: old(w).rec(e as int).laser->0.next_shot_timer.duration,
                                elapsed: 0,
                                just_finished: false,
                            },
                            ..old(w).rec(e as int).laser->0
                        },
                    ),
                    ..old(w).rec(e as int)
                },
            )
        },
        laser_ready(*old(w), e as int) && old(w).rec(e as int).activatable->0.active ==> {
            let t0 = old(w).rec(e as int).laser->0.next_shot_timer;
            let fired = t0.elapsed + delta >= t0.duration;
            &&& final(w).entities@ == old(w).entities@.update(
                e as int,
                EntityRec {
                    laser: Some(
                        crate::behavior_types::LaserBehavior {
                            next_shot_timer: RepeatingTimer {
                                duration: t0.duration,
                                elapsed: ((t0.elapsed + delta) % (t0.duration as int)) as i64,
                                just_finished: fired,
                            },
                            ..old(w).rec(e as int).laser->0
                        },
                    ),
                    ..old(w).rec(e as int)
                },
            )
            &&& shot == (if fired {
                Some(shot_of(*old(w), e as int))
            } else {
                Option::<TriggerLaserShot>::None
            })
        },
{
    let rec = w.entities[e];
    if !(rec.alive && rec.activatable.is_some() && rec.laser.is_some() && rec.position.is_some()
        && rec.hdirection.is_some()) {
        return None;
    }
    proof {
        assert(old(w).rec_ok(e as int));
    }
    let mut behavior = rec.laser.unwrap();
    if !rec.activatable.unwrap().active {
        behavior.next_shot_timer.reset();
        let mut r2 = rec;
        r2.laser = Some(behavior);
        w.entities[e] = r2;
        proof {
            assert forall|i: int| w.valid(i) implies #[trigger] w.rec_ok(i) by {
                assert(old(w).rec_ok(i));
            }
        }
        return None;
    }
    behavior.next_shot_timer.tick(delta);
    let fired = behavior.next_shot_timer.just_finished;
    let mut r2 = rec;
    r2.laser = Some(behavior);
    w.entities[e] = r2;
    proof {
        assert forall|i: int| w.valid(i) implies #[trigger] w.rec_ok(i) by {
            assert(old(w).rec_ok(i));
        }
    }
    if fired {
        let pos = rec.position.unwrap();
        let d = rec.hdirection.unwrap();
        let dx = d.as_x();
        let speed = behavior.speed;
        let origin_x = if dx > 0 {
            pos.x + FX_HALF
        } else {
            pos.x - FX_HALF
        };
        let vel_x = if dx > 0 {
            speed
        } else {
            -speed
        };
        Some(
            TriggerLaserShot {
                ignore_entity: e,
                origin: Vec2Fx { x: origin_x, y: pos.y },
                velocity: Vec2Fx { x: vel_x, y: 0 },
                range: behavior.range,
            },
        )
    } else {
        None
    }
}


/// The next part along the flip chain: defined only for a live, facing
/// entity with the carrier role.
pub open spec fn rot_succ(w: World, x: int) -> Option<usize> {
    if w.valid(x) && w.rec(x).alive && w.rec(x).hdirection is Some && w.rec(x).carrier is Some {
        carry_target_s(w.rec(x))
    } else {
        None
    }
}

/// `y` lies `k` flip-chain steps from `x`.
pub open spec fn rot_chain(w: World, x: int, y: int, k: nat) -> bool
    decreases k,
{
    if k == 0 {
        x == y
    } else {
        match rot_succ(w, x) {
            Some(nx) => rot_chain(w, nx as int, y, (k - 1) as nat),
            None => false,
        }
    }
}

/// The rotator at `start` flips `x`: a live, facing entity on the carry
/// chain above it.
pub open spec fn rot_reach(w: World, start: int, x: int) -> bool {
    &&& exists|k: nat| #[trigger] rot_chain(w, start, x, k)
    &&& w.valid(x)
    &&& w.rec(x).alive
    &&& w.rec(x).hdirection is Some
}

/// A flip mask closed under the chain: one step from any flipped entity
/// lands on a flipped one, unless that step leaves the facing parts.
pub open spec fn rot_mask_closed(w: World, mask: Seq<bool>) -> bool {
    forall|x: int|
        0 <= x < mask.len() && mask[x] && #[trigger] rot_succ(w, x) is Some ==> {
            let nx = rot_succ(w, x)->0 as int;
            0 <= nx < mask.len() && ((w.rec(nx).alive && w.rec(nx).hdirection is Some)
                ==> mask[nx])
        }
}

/// One more flip-chain step keeps reachability.
proof fn lemma_rot_chain_extend(w: World, s: int, x: int, k: nat)
    requires
        rot_chain(w, s, x, k),
        rot_succ(w, x) is Some,
    ensures
        rot_chain(w, s, rot_succ(w, x)->0 as int, (k + 1) as nat),
    decreases k,
{
    if k == 0 {
        assert(rot_chain(w, rot_succ(w, x)->0 as int, rot_succ(w, x)->0 as int, 0));
    } else {
        lemma_rot_chain_extend(w, rot_succ(w, s)->0 as int, x, (k - 1) as nat);
    }
}

/// Everything the flip chain reaches from the start of a closed mask is
/// flipped.
proof fn lemma_rot_closed_chain(w: World, mask: Seq<bool>, s: int, x: int, k: nat)
    requires
        rot_mask_closed(w, mask),
        mask.len() == w.entities@.len(),
        0 <= s < mask.len(),
        w.rec(s).alive && w.rec(s).hdirection is Some ==> mask[s],
        rot_chain(w, s, x, k),
        w.valid(x),
        w.rec(x).alive,
        w.rec(x).hdirection is Some,
    ensures
        0 <= x < mask.len() && mask[x],
    decreases k,
{
    if k == 0 {
        assert(x == s);
        assert(mask[s]);
    } else {
        assert(rot_succ(w, s) is Some);
        assert(w.rec(s).alive && w.rec(s).hdirection is Some);
        assert(mask[s]);
        let nx = rot_succ(w, s)->0 as int;
        assert(0 <= nx < mask.len() && ((w.rec(nx).alive && w.rec(nx).hdirection is Some)
            ==> mask[nx]));
        lemma_rot_closed_chain(w, mask, nx, x, (k - 1) as nat);
    }
}

/// Computes the set of parts one completed rotator turn flips: the
/// carry chain upward from the rotator, each entity visited once.
pub fn compute_rotator_flips(w: &World, start: usize) -> (mask: Vec<bool>)
    requires
        w.wf(),
        w.valid(start as int),
    ensures
        mask@.len() == w.entities@.len(),
        forall|x: int| 0 <= x < mask@.len() ==> (mask@[x] <==> rot_reach(*w, start as int, x)),
{
    let n = w.entities.len();
    let mut mask: Vec<bool> = vec![false; n];
    let mut entity = start;
    proof {
        assert(rot_chain(*w, start as int, start as int, 0));
    }
    loop
        invariant
            w.wf(),
            n == w.entities@.len(),
            mask@.len() == n,
            (entity as int) < n,
            exists|k: nat| #[trigger] rot_chain(*w, start as int, entity as int, k),
            forall|x: int| 0 <= x < n && #[trigger] mask@[x] ==> rot_reach(*w, start as int, x),
            forall|x: int|
                0 <= x < n && mask@[x] && #[trigger] rot_succ(*w, x) is Some ==> {
                    let nx = rot_succ(*w, x)->0 as int;
                    0 <= nx < n && (mask@[nx] || nx == entity as int)
                },
            mask@[start as int] || entity == start,
        ensures
            mask@.len() == n,
            forall|x: int| 0 <= x < n && #[trigger] mask@[x] ==> rot_reach(*w, start as int, x),
            rot_mask_closed(*w, mask@),
            w.rec(start as int).alive && w.rec(start as int).hdirection is Some ==> mask@[
                start as int],
        decreases n - count_marked(mask@),
    {
        let erec = &w.entities[entity];
        if !(erec.alive && erec.hdirection.is_some()) {
            proof {
                assert forall|x: int|
                    0 <= x < n && mask@[x] && #[trigger] rot_succ(*w, x) is Some implies {
                    let nx = rot_succ(*w, x)->0 as int;
                    0 <= nx < n && ((w.rec(nx).alive && w.rec(nx).hdirection is Some)
                        ==> mask@[nx])
                } by {}
            }
            break ;
        }
        if mask[entity] {
            break ;
        }
        let ghost mask_before = mask@;
        mask[entity] = true;
        proof {
            lemma_count_marked_update(mask_before, entity as int);
            lemma_count_marked_le(mask@);
            assert(rot_reach(*w, start as int, entity as int));
        }
        let next = match erec.carrier.as_ref() {
            Some(c) => c.carrying,
            None => None,
        };
        match next {
            None => {
                proof {
                    assert(rot_succ(*w, entity as int) is None);
                }
                break ;
            },
            Some(nx) => {
                proof {
                    assert(w.rec_ok(entity as int));
                    assert(rot_succ(*w, entity as int) == Some(nx));
                    let k = choose|k: nat|
                        #[trigger] rot_chain(*w, start as int, entity as int, k);
                    lemma_rot_chain_extend(*w, start as int, entity as int, k);
                }
                entity = nx;
            },
        }
    }
    proof {
        assert forall|x: int| 0 <= x < mask@.len() implies (mask@[x] <==> rot_reach(
            *w,
            start as int,
            x,
        )) by {
            if rot_reach(*w, start as int, x) {
                lemma_rot_closed_chain(
                    *w,
                    mask@,
                    start as int,
                    x,
                    choose|k: nat| #[trigger] rot_chain(*w, start as int, x, k),
                );
            }
        }
    }
    mask
}

/// The entity runs the rotator rule this tick.
pub open spec fn rotator_ready(w: World, e: int) -> bool {
    let r = w.rec(e);
    &&& r.alive
    &&& r.activatable is Some
    &&& r.rotator is Some
}

/// The rotator's record with its timer advanced by this tick.
pub open spec fn rotator_ticked_rec(w0: World, e: int, delta: int) -> EntityRec {
    let r = w0.rec(e);
    let t0 = r.rotator->0.next_turn_timer;
    EntityRec {
        rotator: Some(
            crate::behavior_types::RotatorBehavior {
                next_turn_timer: RepeatingTimer {
                    duration: t0.duration,
                    elapsed: ((t0.elapsed + delta) % (t0.duration as int)) as i64,
                    just_finished: t0.elapsed + delta >= t0.duration,
                },
            },
        ),
        ..r
    }
}

/// An entity record after a completed rotator turn at `start`: the
/// rotator's own timer has advanced, and every part the flip chain
/// reaches faces the other way.
pub open spec fn rot_turned_rec(w0: World, start: int, x: int, delta: int) -> EntityRec {
    let base = if x == start {
        rotator_ticked_rec(w0, start, delta)
    } else {
        w0.rec(x)
    };
    if rot_reach(w0, start, x) {
        EntityRec { hdirection: Some(base.hdirection->0.switch_s()), ..base }
    } else {
        base
    }
}

/// Flip chains read only the live flags, facings and carrier roles:
/// worlds agreeing there reach the same parts.
proof fn lemma_rot_reach_same_graph(w0: World, w1: World, start: int)
    requires
        w1.entities@.len() == w0.entities@.len(),
        forall|x: int|
            w0.valid(x) ==> {
                &&& (#[trigger] w1.rec(x)).alive == w0.rec(x).alive
                &&& w1.rec(x).hdirection == w0.rec(x).hdirection
                &&& w1.rec(x).carrier == w0.rec(x).carrier
            },
    ensures
        forall|x: int| #[trigger] rot_reach(w1, start, x) == rot_reach(w0, start, x),
{
    assert forall|y: int| #[trigger] rot_succ(w1, y) == rot_succ(w0, y) by {
        if w0.valid(y) {
            assert(w1.rec(y).alive == w0.rec(y).alive);
        }
    }
    assert forall|x: int| #[trigger] rot_reach(w1, start, x) == rot_reach(w0, start, x) by {
        assert forall|k: nat| #[trigger] rot_chain(w1, start, x, k) == rot_chain(
            w0,
            start,
            x,
            k,
        ) by {
            lemma_rot_chain_same_graph(w0, w1, start, x, k);
        }
        if w0.valid(x) {
            assert(w1.rec(x).alive == w0.rec(x).alive && w1.rec(x).hdirection == w0.rec(
                x,
            ).hdirection);
        }
        if rot_reach(w0, start, x) {
            let k = choose|k: nat| #[trigger] rot_chain(w0, start, x, k);
            assert(rot_chain(w1, start, x, k));
        }
        if rot_reach(w1, start, x) {
            let k = choose|k: nat| #[trigger] rot_chain(w1, start, x, k);
            assert(rot_chain(w0, start, x, k));
        }
    }
}

/// Flip chains agree step by step between worlds whose steps agree.
proof fn lemma_rot_chain_same_graph(w0: World, w1: World, x: int, y: int, k: nat)
    requires
        forall|z: int| #[trigger] rot_succ(w1, z) == rot_succ(w0, z),
    ensures
        rot_chain(w1, x, y, k) == rot_chain(w0, x, y, k),
    decreases k,
{
    if k > 0 {
        if rot_succ(w0, x) is Some {
            lemma_rot_chain_same_graph(w0, w1, rot_succ(w0, x)->0 as int, y, (k - 1) as nat);
        }
    }
}

/// One rotator tick for `e`: inactive resets the timer; active advances
/// it, and on each completed period flips this part's facing and then
/// the facing of every part carried above it, each exactly once.
pub fn impl_rotator_one(w: &mut World, e: usize, delta: i64) -> (turned: bool)
    requires
        old(w).wf(),
        old(w).valid(e as int),
        0 <= delta <= FX_ONE,
        old(w).rec(e as int).rotator matches Some(r)
            ==> r.next_turn_timer.elapsed + delta <= i64::MAX,
    ensures
        final(w).wf(),
        final(w).entities@.len() == old(w).entities@.len(),
        !rotator_ready(*old(w), e as int) ==> final(w).entities@ == old(w).entities@ && !turned,
        rotator_ready(*old(w), e as int) && !old(w).rec(e as int).activatable->0.active ==> {
            &&& !turned
            &&& final(w).entities@ == old(w).entities@.update(
                e as int,
                EntityRec {
                    rotator: Some(
                        crate::behavior_types::RotatorBehavior {
                            next_turn_timer: RepeatingTimer {
                                duration: old(w).rec(
                                    e as int,
                                ).rotator->0.next_turn_timer.duration,
                                elapsed: 0,
                                just_finished: false,
                            },
                        },
                    ),
                    ..old(w).rec(e as int)
                },
            )
        },
        rotator_ready(*old(w), e as int) && old(w).rec(e as int).activatable->0.active ==> {
            let t0 = old(w).rec(e as int).rotator->0.next_turn_timer;
            &&& turned == (t0.elapsed + delta >= t0.duration)
            &&& !turned ==> final(w).entities@ == old(w).entities@.update(
                e as int,
                rotator_ticked_rec(*old(w), e as int, delta as int),
            )
            &&& turned ==> forall|x: int|
                old(w).valid(x) ==> #[trigger] final(w).rec(x) == rot_turned_rec(
                    *old(w),
                    e as int,
                    x,
                    delta as int,
                )
        },
{
    let rec = w.entities[e];
    if !(rec.alive && rec.activatable.is_some() && rec.rotator.is_some()) {
        return false;
    }
    proof {
        assert(old(w).rec_ok(e as int));
    }
    let mut behavior = rec.rotator.unwrap();
    if !rec.activatable.unwrap().active {
        behavior.next_turn_timer.reset();
        let mut r2 = rec;
        r2.rotator = Some(behavior);
        w.entities[e] = r2;
        proof {
            assert forall|i: int| w.valid(i) implies #[trigger] w.rec_ok(i) by {
                assert(old(w).rec_ok(i));
            }
        }
        return false;
    }
    behavior.next_turn_timer.tick(delta);
    let turned = behavior.next_turn_timer.just_finished;
    let mut r2 = rec;
    r2.rotator = Some(behavior);
    w.entities[e] = r2;
    proof {
        assert forall|i: int| w.valid(i) implies #[trigger] w.rec_ok(i) by {
            assert(old(w).rec_ok(i));
        }
    }
    if !turned {
        return false;
    }
    let ghost w_mid = *w;
    proof {
        lemma_rot_reach_same_graph(*old(w), w_mid, e as int);
        assert(w_mid.rec(e as int) == rotator_ticked_rec(*old(w), e as int, delta as int));
    }
    let mask = compute_rotator_flips(w, e);
    let n = w.entities.len();
    let mut x: usize = 0;
    while x < n
        invariant
            w_mid.wf(),
            n == w_mid.entities@.len(),
            w.entities@.len() == n,
            mask@.len() == n,
            x <= n,
            forall|i: int|
                0 <= i < mask@.len() ==> (mask@[i] <==> rot_reach(w_mid, e as int, i)),
            forall|i: int|
                0 <= i < x ==> #[trigger] w.rec(i) == (if rot_reach(w_mid, e as int, i) {
                    EntityRec {
                        hdirection: Some(w_mid.rec(i).hdirection->0.switch_s()),
                        ..w_mid.rec(i)
                    }
                } else {
                    w_mid.rec(i)
                }),
            forall|i: int| x <= i < n ==> #[trigger] w.rec(i) == w_mid.rec(i),
        decreases n - x,
    {
        let ghost w_prev = *w;
        if mask[x] {
            let rx = w.entities[x];
            proof {
                assert(rx == w.rec(x as int));
                assert(w.rec(x as int) == w_mid.rec(x as int));
                assert(rot_reach(w_mid, e as int, x as int));
            }
            let d = rx.hdirection.unwrap();
            let mut r3 = rx;
            r3.hdirection = Some(d.switch());
            w.entities[x] = r3;
        }
        proof {
            assert forall|i: int| 0 <= i < x + 1 implies #[trigger] w.rec(i) == (if rot_reach(
                w_mid,
                e as int,
                i,
            ) {
                EntityRec {
                    hdirection: Some(w_mid.rec(i).hdirection->0.switch_s()),
                    ..w_mid.rec(i)
                }
            } else {
                w_mid.rec(i)
            }) by {
                if i < x {
                    assert(w.rec(i) == w_prev.rec(i));
                }
            }
            assert forall|i: int| x + 1 <= i < n implies #[trigger] w.rec(i) == w_mid.rec(i) by {
                assert(w.rec(i) == w_prev.rec(i));
            }
        }
        x = x + 1;
    }
    proof {
        assert forall|i: int| w.valid(i) implies #[trigger] w.rec_ok(i) by {
            assert(w_mid.rec_ok(i));
        }
        assert forall|i: int| old(w).valid(i) implies #[trigger] w.rec(i) == rot_turned_rec(
            *old(w),
            e as int,
            i,
            delta as int,
        ) by {
            assert(rot_reach(w_mid, e as int, i) == rot_reach(*old(w), e as int, i));
        }
    }
    true
}

} // verus!
