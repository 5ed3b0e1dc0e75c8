//! Laser bolt lifecycle: bolts spawn from shoot requests, expire once
//! they have travelled their range, and on their first intersection
//! despawn, damaging a breakable target.

use vstd::prelude::*;
use crate::behavior_types::{Breakable, Laser, TriggerLaserShot};
use crate::fixed::{Vec2Fx, i64_abs, iabs, v2_bounded};
use crate::parts_manipulation::GEOM_LIMIT;
use crate::world::{EntityRec, World};

verus! {

/// Life a breakable loses on each laser impact.
pub const HIT_DAMAGE: i64 = 300_000;

/// Spawns a laser bolt for a shoot request: a fresh entity at the
/// request's origin, moving with its velocity, remembering origin and
/// range so it can expire, and the shooter so it cannot self-hit.
pub fn shoot_laser(w: &mut World, shot: &TriggerLaserShot) -> (e: usize)
    requires
        old(w).wf(),
    ensures
        final(w).wf(),
        e == old(w).entities@.len(),
        final(w).entities@ == old(w).entities@.push(
            EntityRec {
                alive: true,
                position: Some(shot.origin),
                velocity: Some(shot.velocity),
                bolt: Some(
                    Laser {
                        origin: shot.origin,
                        range: shot.range,
                        ignore: shot.ignore_entity,
                    },
                ),
                ..EntityRec::empty_s()
            },
        ),
{
    let mut rec = EntityRec::blank();
    rec.position = Some(shot.origin);
    rec.velocity = Some(shot.velocity);
    rec.bolt = Some(
        Laser { origin: shot.origin, range: shot.range, ignore: shot.ignore_entity },
    );
    w.spawn(rec)
}

/// The bolt has travelled its range: the squared distance from its
/// origin has reached the squared range (both sides nonnegative, so
/// this is exactly "distance at least range", with no square root).
pub open spec fn bolt_expired(w: World, e: int) -> bool {
    let r = w.rec(e);
    &&& r.alive
    &&& r.bolt is Some
    &&& r.position is Some
    &&& {
        let dx = r.position->0.x - r.bolt->0.origin.x;
        let dy = r.position->0.y - r.bolt->0.origin.y;
        dx * dx + dy * dy >= r.bolt->0.range * r.bolt->0.range
    }
}

/// The geometry a bolt check needs is in bounds.
pub open spec fn bolt_geom_ok(r: EntityRec) -> bool {
    &&& (r.position matches Some(p) ==> v2_bounded(p, GEOM_LIMIT as int))
    &&& (r.bolt matches Some(b) ==> v2_bounded(b.origin, GEOM_LIMIT as int) && 0 <= b.range
        <= GEOM_LIMIT)
}

/// Despawns the bolt `e` once its travelled distance reaches its range.
pub fn dispose_laser_one(w: &mut World, e: usize) -> (disposed: bool)
    requires
        old(w).wf(),
        old(w).valid(e as int),
        bolt_geom_ok(old(w).rec(e as int)),
    ensures
        final(w).wf(),
        final(w).entities@.len() == old(w).entities@.len(),
        disposed == bolt_expired(*old(w), e as int),
        disposed ==> final(w).entities@ == old(w).entities@.update(
            e as int,
            EntityRec::empty_s(),
        ),
        !disposed ==> final(w).entities@ == old(w).entities@,
{
    let rec = w.entities[e];
    if !(rec.alive && rec.bolt.is_some() && rec.position.is_some()) {
        return false;
    }
    let bolt = rec.bolt.unwrap();
    let pos = rec.position.unwrap();
    let dx = i64_abs(pos.x - bolt.origin.x);
    let dy = i64_abs(pos.y - bolt.origin.y);
    let range = i64_abs(bolt.range);
    proof {
        crate::fixed::lemma_mul_le(dx as int, dx as int, 2 * GEOM_LIMIT as int,
            2 * GEOM_LIMIT as int);
        crate::fixed::lemma_mul_le(dy as int, dy as int, 2 * GEOM_LIMIT as int,
            2 * GEOM_LIMIT as int);
        crate::fixed::lemma_mul_le(range as int, range as int, GEOM_LIMIT as int,
            GEOM_LIMIT as int);
        assert((2 * GEOM_LIMIT as int) * (2 * GEOM_LIMIT as int) < u128::MAX)
            by (nonlinear_arith);
        assert((GEOM_LIMIT as int) * (GEOM_LIMIT as int) < u128::MAX) by (nonlinear_arith);
    }
    let travelled_sq: u128 = (dx as u128) * (dx as u128) + (dy as u128) * (dy as u128);
    let range_sq: u128 = (range as u128) * (range as u128);
    proof {
        let dxi = pos.x - bolt.origin.x;
        let dyi = pos.y - bolt.origin.y;
        assert(dx as int * dx as int == dxi * dxi) by (nonlinear_arith)
            requires
                dx == iabs(dxi),
        ;
        assert(dy as int * dy as int == dyi * dyi) by (nonlinear_arith)
            requires
                dy == iabs(dyi),
        ;
        assert(range as int * range as int == bolt.range as int * bolt.range as int)
            by (nonlinear_arith)
            requires
                range == iabs(bolt.range as int),
        ;
    }
    if travelled_sq >= range_sq {
        w.despawn(e);
        true
    } else {
        false
    }
}

/// One expiry pass: every bolt that has travelled its range despawns.
pub fn dispose_laser(w: &mut World)
    requires
        old(w).wf(),
        forall|e: int| old(w).valid(e) ==> bolt_geom_ok(#[trigger] old(w).rec(e)),
    ensures
        final(w).wf(),
        final(w).entities@.len() == old(w).entities@.len(),
        forall|e: int|
            old(w).valid(e) ==> #[trigger] final(w).rec(e) == (if bolt_expired(*old(w), e) {
                EntityRec::empty_s()
            } else {
                old(w).rec(e)
            }),
{
    let ghost w0 = *w;
    let n = w.entities.len();
    let mut e: usize = 0;
    while e < n
        invariant
            w0 == *old(w),
            w0.wf(),
            w.wf(),
            n == w0.entities@.len(),
            w.entities@.len() == n,
            e <= n,
            forall|i: int| 0 <= i < n ==> bolt_geom_ok(#[trigger] w0.rec(i)),
            forall|i: int|
                0 <= i < e ==> #[trigger] w.rec(i) == (if bolt_expired(w0, i) {
                    EntityRec::empty_s()
                } else {
                    w0.rec(i)
                }),
            forall|i: int| e <= i < n ==> #[trigger] w.rec(i) == w0.rec(i),
        decreases n - e,
    {
        let ghost w_prev = *w;
        proof {
            assert(w.rec(e as int) == w0.rec(e as int));
        }
        dispose_laser_one(w, e);
        proof {
            assert(bolt_expired(w_prev, e as int) == bolt_expired(w0, e as int));
            assert forall|i: int| 0 <= i < e + 1 implies #[trigger] w.rec(i) == (if bolt_expired(
                w0,
                i,
            ) {
                EntityRec::empty_s()
            } else {
                w0.rec(i)
            }) by {
                if i < e {
                    assert(w.rec(i) == w_prev.rec(i));
                }
            }
            assert forall|i: int| e + 1 <= i < n implies #[trigger] w.rec(i) == w0.rec(i) by {
                assert(w.rec(i) == w_prev.rec(i));
            }
        }
        e = e + 1;
    }
}

/// An overlap the physics collaborator reported between two sensor
/// colliders this tick.
#[derive(Clone, Copy, PartialEq, Eq, Structural, Debug)]
pub struct Intersection {
    pub entity1: usize,
    pub entity2: usize,
}

/// The bolt at `x` hits `other`: `x` is a live bolt and `other` is not
/// the entity the bolt ignores (its shooter).
pub open spec fn bolt_hits(s: Seq<EntityRec>, x: int, other: usize) -> bool {
    &&& 0 <= x < s.len()
    &&& s[x].alive
    &&& s[x].bolt is Some
    &&& s[x].bolt->0.ignore != other
}

/// A breakable record after one laser impact: life drops by the hit
/// damage, and a drained breakable despawns.
pub open spec fn damaged_rec(r: EntityRec) -> EntityRec {
    if r.breakable->0.life - HIT_DAMAGE <= 0 {
        EntityRec::empty_s()
    } else {
        EntityRec {
            breakable: Some(Breakable { life: (r.breakable->0.life - HIT_DAMAGE) as i64 }),
            ..r
        }
    }
}

/// The record takes laser damage: alive and breakable.
pub open spec fn damageable(r: EntityRec) -> bool {
    r.alive && r.breakable is Some
}

/// The first endpoint's record once the pair is resolved.
pub open spec fn hit_rec_first(s: Seq<EntityRec>, a: int, b: usize) -> EntityRec {
    if bolt_hits(s, a, b) {
        EntityRec::empty_s()
    } else if bolt_hits(s, b as int, a as usize) && damageable(s[a]) {
        damaged_rec(s[a])
    } else {
        s[a]
    }
}

/// The second endpoint's record once the pair is resolved.
pub open spec fn hit_rec_second(s: Seq<EntityRec>, a: int, b: int) -> EntityRec {
    if bolt_hits(s, a, b as usize) && damageable(s[b]) {
        if bolt_hits(s, b, a as usize) {
            EntityRec::empty_s()
        } else {
            damaged_rec(s[b])
        }
    } else if bolt_hits(s, b, a as usize) {
        EntityRec::empty_s()
    } else {
        s[b]
    }
}

/// The table after one reported overlap is resolved.
pub open spec fn hit_one_s(s: Seq<EntityRec>, pair: Intersection) -> Seq<EntityRec> {
    let a = pair.entity1 as int;
    let b = pair.entity2 as int;
    if pair.entity1 == pair.entity2 || a >= s.len() || b >= s.len() {
        s
    } else {
        s.update(a, hit_rec_first(s, a, pair.entity2)).update(b, hit_rec_second(s, a, b))
    }
}

/// The table after the hit handler has drained the first `k` overlaps
/// in order.
pub open spec fn hit_pass_s(s: Seq<EntityRec>, pairs: Seq<Intersection>, k: nat) -> Seq<EntityRec>
    decreases k,
{
    if k == 0 {
        s
    } else {
        hit_one_s(hit_pass_s(s, pairs, (k - 1) as nat), pairs[k - 1])
    }
}

/// Handles one reported overlap: each side that is a live bolt and does
/// not ignore the other despawns on this, its first hit, and a struck
/// breakable loses life, despawning once its life is gone.  A bolt's
/// overlap with its own shooter does not count as a hit.
pub fn handle_laser_hit_one(w: &mut World, pair: Intersection)
    requires
        old(w).wf(),
        pair.entity1 < old(w).entities@.len(),
        pair.entity2 < old(w).entities@.len(),
        old(w).rec(pair.entity1 as int).breakable matches Some(b) ==> iabs(b.life as int)
            <= GEOM_LIMIT,
        old(w).rec(pair.entity2 as int).breakable matches Some(b) ==> iabs(b.life as int)
            <= GEOM_LIMIT,
    ensures
        final(w).wf(),
        final(w).entities@.len() == old(w).entities@.len(),
        final(w).entities@ == hit_one_s(old(w).entities@, pair),
        pair.entity1 == pair.entity2 ==> final(w).entities@ == old(w).entities@,
        pair.entity1 != pair.entity2 ==> {
            let a = pair.entity1 as int;
            let b = pair.entity2 as int;
            &&& final(w).rec(a) == hit_rec_first(old(w).entities@, a, pair.entity2)
            &&& final(w).rec(b) == hit_rec_second(old(w).entities@, a, b)
            &&& forall|i: int|
                old(w).valid(i) && i != a && i != b ==> final(w).rec(i) == old(w).rec(i)
        },
{
    let a = pair.entity1;
    let b = pair.entity2;
    if a == b {
        return ;
    }
    let ra = w.entities[a];
    if ra.alive && ra.bolt.is_some() && ra.bolt.unwrap().ignore != b {
        w.despawn(a);
        damage_if_breakable(w, b);
    }
    let rb = w.entities[b];
    if rb.alive && rb.bolt.is_some() && rb.bolt.unwrap().ignore != a {
        w.despawn(b);
        damage_if_breakable(w, a);
    }
    proof {
        assert(w.entities@ =~= hit_one_s(old(w).entities@, pair));
    }
}

/// Applies one hit of laser damage where the target is a live
/// breakable, despawning it once its life is gone.
fn damage_if_breakable(w: &mut World, t: usize)
    requires
        old(w).wf(),
        old(w).valid(t as int),
        old(w).rec(t as int).breakable matches Some(b) ==> iabs(b.life as int) <= GEOM_LIMIT,
    ensures
        final(w).wf(),
        final(w).entities@.len() == old(w).entities@.len(),
        damageable(old(w).rec(t as int)) ==> final(w).entities@ == old(w).entities@.update(
            t as int,
            damaged_rec(old(w).rec(t as int)),
        ),
        !damageable(old(w).rec(t as int)) ==> final(w).entities@ == old(w).entities@,
{
    let rec = w.entities[t];
    if !(rec.alive && rec.breakable.is_some()) {
        return ;
    }
    let life = rec.breakable.unwrap().life;
    let new_life = life - HIT_DAMAGE;
    if new_life <= 0 {
        w.despawn(t);
    } else {
        let mut r2 = rec;
        r2.breakable = Some(Breakable { life: new_life });
        w.entities[t] = r2;
        proof {
            assert forall|i: int| w.valid(i) implies #[trigger] w.rec_ok(i) by {
                assert(old(w).rec_ok(i));
            }
        }
    }
}

/// Drains this tick's reported intersections once, resolving each.
pub fn handle_laser_hits(w: &mut World, pairs: &Vec<Intersection>)
    requires
        old(w).wf(),
        forall|i: int|
            0 <= i < pairs@.len() ==> #[trigger] pairs@[i].entity1 < old(w).entities@.len()
                && pairs@[i].entity2 < old(w).entities@.len(),
        forall|e: int|
            old(w).valid(e) ==> (#[trigger] old(w).rec(e).breakable matches Some(b) ==> iabs(
                b.life as int,
            ) <= GEOM_LIMIT),
    ensures
        final(w).wf(),
        final(w).entities@.len() == old(w).entities@.len(),
        final(w).entities@ == hit_pass_s(old(w).entities@, pairs@, pairs@.len()),
{
    let ghost w0 = *w;
    let mut i: usize = 0;
    while i < pairs.len()
        invariant
            w0 == *old(w),
            w.wf(),
            w.entities@.len() == old(w).entities@.len(),
            i <= pairs@.len(),
            w.entities@ == hit_pass_s(w0.entities@, pairs@, i as nat),
            forall|j: int|
                0 <= j < pairs@.len() ==> #[trigger] pairs@[j].entity1 < w.entities@.len()
                    && pairs@[j].entity2 < w.entities@.len(),
            forall|e: int|
                w.valid(e) ==> (#[trigger] w.rec(e).breakable matches Some(b) ==> iabs(
                    b.life as int,
                ) <= GEOM_LIMIT),
        decreases pairs@.len() - i,
    {
        let pair = pairs[i];
        let ghost w_prev = *w;
        handle_laser_hit_one(w, pair);
        proof {
            assert(w.entities@ == hit_one_s(w_prev.entities@, pair));
            assert forall|e: int| w.valid(e) implies (#[trigger] w.rec(e).breakable matches Some(
                b,
            ) ==> iabs(b.life as int) <= GEOM_LIMIT) by {
                if pair.entity1 != pair.entity2 && (e == pair.entity1 as int || e
                    == pair.entity2 as int) {
                    assert(w_prev.rec(e).breakable matches Some(b) ==> iabs(b.life as int)
                        <= GEOM_LIMIT);
                } else {
                    assert(w.rec(e) == w_prev.rec(e));
                }
            }
        }
        i = i + 1;
    }
}

} // verus!
