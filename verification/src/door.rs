//! Doors and keys: a door opens once every key is taken; the player
//! finishes the level by entering an open door, and takes a key by
//! touching it.

use vstd::prelude::*;
use crate::global_types::OpenableDoor;
use crate::parts_manipulation::CollisionEvent;
use crate::world::{EntityRec, World};

verus! {

/// Some key is still waiting to be taken.
pub open spec fn any_key_left(w: World) -> bool {
    exists|k: int| w.valid(k) && (#[trigger] w.rec(k)).alive && w.rec(k).is_door_key
}

/// The record of an entity once the doors have been retuned: every
/// live door is open exactly when no key is left.
pub open spec fn door_rec_s(w0: World, e: int) -> EntityRec {
    let r = w0.rec(e);
    if r.alive && r.door is Some {
        EntityRec { door: Some(OpenableDoor { open: !any_key_left(w0) }), ..r }
    } else {
        r
    }
}

/// Opens every door once all keys are taken, and closes them otherwise.
pub fn handle_opening_when_keys_are_taken(w: &mut World)
    requires
        old(w).wf(),
    ensures
        final(w).wf(),
        final(w).entities@.len() == old(w).entities@.len(),
        forall|e: int| old(w).valid(e) ==> #[trigger] final(w).rec(e) == door_rec_s(*old(w), e),
{
    let ghost w0 = *w;
    let n = w.entities.len();
    let mut any_key = false;
    let mut k: usize = 0;
    while k < n
        invariant
            w0 == *old(w),
            *w == w0,
            n == w0.entities@.len(),
            k <= n,
            any_key <==> exists|i: int|
                0 <= i < k && (#[trigger] w0.rec(i)).alive && w0.rec(i).is_door_key,
        decreases n - k,
    {
        let rec = &w.entities[k];
        proof {
            assert(*rec == w0.rec(k as int));
        }
        if rec.alive && rec.is_door_key {
            any_key = true;
            proof {
                assert((w0.rec(k as int)).alive && w0.rec(k as int).is_door_key);
            }
        }
        k = k + 1;
    }
    proof {
        assert(any_key <==> any_key_left(w0));
    }
    let should_open = !any_key;
    let mut e: usize = 0;
    while e < n
        invariant
            w0 == *old(w),
            w0.wf(),
            n == w0.entities@.len(),
            w.entities@.len() == n,
            e <= n,
            should_open == !any_key_left(w0),
            forall|i: int| 0 <= i < e ==> #[trigger] w.rec(i) == door_rec_s(w0, i),
            forall|i: int| e <= i < n ==> #[trigger] w.rec(i) == w0.rec(i),
        decreases n - e,
    {
        let ghost w_prev = *w;
        let rec = w.entities[e];
        proof {
            assert(rec == w_prev.rec(e as int));
            assert(w_prev.rec(e as int) == w0.rec(e as int));
        }
        if rec.alive && rec.door.is_some() {
            let mut r2 = rec;
            r2.door = Some(OpenableDoor { open: should_open });
            w.entities[e] = r2;
            proof {
                assert(w.rec(e as int) == r2);
            }
        }
        proof {
            assert(w.rec(e as int) == door_rec_s(w0, e as int));
            assert forall|i: int| 0 <= i < e + 1 implies #[trigger] w.rec(i) == door_rec_s(
                w0,
                i,
            ) by {
                if i < e {
                    assert(w.rec(i) == w_prev.rec(i));
                }
            }
            assert forall|i: int| e + 1 <= i < n implies #[trigger] w.rec(i) == w0.rec(i) by {
                assert(w.rec(i) == w_prev.rec(i));
            }
        }
        e = e + 1;
    }
    proof {
        assert forall|i: int| w.valid(i) implies #[trigger] w.rec_ok(i) by {
            assert(w0.rec_ok(i));
            assert(w.rec(i) == door_rec_s(w0, i));
        }
    }
}

/// The event pairs a live player with a live entity of the other role:
/// the second entity of the resolved pair, with ambiguous pairings
/// (both or neither ordering matching) discarded.
pub open spec fn player_pair_other(w: World, e1: usize, e2: usize, ok2: bool, ok1: bool) -> Option<
    usize,
> {
    if ok2 && !ok1 {
        Some(e2)
    } else if ok1 && !ok2 {
        Some(e1)
    } else {
        None
    }
}

/// `e` is a live player.
pub open spec fn is_live_player(w: World, e: int) -> bool {
    w.valid(e) && w.rec(e).alive && w.rec(e).is_player
}

/// `e` is a live door.
pub open spec fn is_live_door(w: World, e: int) -> bool {
    w.valid(e) && w.rec(e).alive && w.rec(e).door is Some
}

/// `e` is a live door key.
pub open spec fn is_live_key(w: World, e: int) -> bool {
    w.valid(e) && w.rec(e).alive && w.rec(e).is_door_key
}

/// The door of a sensor-contact event that pairs the player with a
/// door, if the pairing is unambiguous.
pub open spec fn door_entered(w: World, ev: CollisionEvent) -> Option<usize> {
    if ev.started && ev.sensor {
        player_pair_other(
            w,
            ev.entity1,
            ev.entity2,
            is_live_player(w, ev.entity1 as int) && is_live_door(w, ev.entity2 as int),
            is_live_player(w, ev.entity2 as int) && is_live_door(w, ev.entity1 as int),
        )
    } else {
        None
    }
}

/// The event completes the level: the player entered a door that is
/// open.
pub open spec fn event_completes(w: World, ev: CollisionEvent) -> bool {
    match door_entered(w, ev) {
        Some(d) => w.rec(d as int).door->0.open,
        None => false,
    }
}

/// Reads this tick's collision events and reports whether the player
/// entered an open door, which ends the level.
pub fn handle_player_enters(w: &World, events: &Vec<CollisionEvent>) -> (completed: bool)
    requires
        w.wf(),
    ensures
        completed <==> exists|i: int|
            0 <= i < events@.len() && event_completes(*w, #[trigger] events@[i]),
{
    let mut i: usize = 0;
    while i < events.len()
        invariant
            w.wf(),
            i <= events@.len(),
            forall|j: int| 0 <= j < i ==> !event_completes(*w, #[trigger] events@[j]),
        decreases events@.len() - i,
    {
        let ev = events[i];
        if ev.started && ev.sensor {
            let n = w.entities.len();
            let ok1 = ev.entity1 < n && ev.entity2 < n && {
                let r1 = &w.entities[ev.entity1];
                let r2 = &w.entities[ev.entity2];
                r1.alive && r1.is_player && r2.alive && r2.door.is_some()
            };
            let ok2 = ev.entity1 < n && ev.entity2 < n && {
                let r1 = &w.entities[ev.entity1];
                let r2 = &w.entities[ev.entity2];
                r2.alive && r2.is_player && r1.alive && r1.door.is_some()
            };
            let door: Option<usize> = if ok1 && !ok2 {
                Some(ev.entity2)
            } else if ok2 && !ok1 {
                Some(ev.entity1)
            } else {
                None
            };
            if let Some(d) = door {
                if w.entities[d].door.unwrap().open {
                    proof {
                        assert(event_completes(*w, events@[i as int]));
                    }
                    return true;
                }
            }
        }
        proof {
            assert(!event_completes(*w, events@[i as int]));
        }
        i = i + 1;
    }
    false
}

/// `e` is a live player, over the table.
pub open spec fn is_live_player_at(s: Seq<EntityRec>, e: int) -> bool {
    0 <= e < s.len() && s[e].alive && s[e].is_player
}

/// `e` is a live door key, over the table.
pub open spec fn is_live_key_at(s: Seq<EntityRec>, e: int) -> bool {
    0 <= e < s.len() && s[e].alive && s[e].is_door_key
}

/// The key of a sensor-contact event that pairs the player with a key,
/// if the pairing is unambiguous, over the table.
pub open spec fn key_touched_at(s: Seq<EntityRec>, ev: CollisionEvent) -> Option<usize> {
    if ev.started && ev.sensor {
        let ok1 = is_live_player_at(s, ev.entity1 as int) && is_live_key_at(s, ev.entity2 as int);
        let ok2 = is_live_player_at(s, ev.entity2 as int) && is_live_key_at(s, ev.entity1 as int);
        if ok1 && !ok2 {
            Some(ev.entity2)
        } else if ok2 && !ok1 {
            Some(ev.entity1)
        } else {
            None
        }
    } else {
        None
    }
}

/// The key of a sensor-contact event that pairs the player with a key,
/// if the pairing is unambiguous.
pub open spec fn key_touched(w: World, ev: CollisionEvent) -> Option<usize> {
    key_touched_at(w.entities@, ev)
}

/// The table after one event is looked at: a touched key despawns.
pub open spec fn taken_one_s(s: Seq<EntityRec>, ev: CollisionEvent) -> Seq<EntityRec> {
    match key_touched_at(s, ev) {
        Some(k) => s.update(k as int, EntityRec::empty_s()),
        None => s,
    }
}

/// The table after the key taker has drained the first `k` events in
/// order.
pub open spec fn taken_pass_s(s: Seq<EntityRec>, events: Seq<CollisionEvent>, k: nat) -> Seq<
    EntityRec,
>
    decreases k,
{
    if k == 0 {
        s
    } else {
        taken_one_s(taken_pass_s(s, events, (k - 1) as nat), events[k - 1])
    }
}

/// `e` is taken by some event of the tick.
pub open spec fn key_taken(w: World, events: Seq<CollisionEvent>, e: int) -> bool {
    exists|i: int| 0 <= i < events.len() && key_touched(w, #[trigger] events[i]) == Some(e as usize)
}

/// Despawns the key of one sensor-contact event that unambiguously
/// pairs the player with a key; any other event changes nothing.
pub fn handle_taken_one(w: &mut World, ev: CollisionEvent) -> (taken: Option<usize>)
    requires
        old(w).wf(),
    ensures
        final(w).wf(),
        final(w).entities@.len() == old(w).entities@.len(),
        taken == key_touched(*old(w), ev),
        final(w).entities@ == taken_one_s(old(w).entities@, ev),
        taken matches Some(k) ==> final(w).entities@ == old(w).entities@.update(
            k as int,
            EntityRec::empty_s(),
        ),
        taken is None ==> final(w).entities@ == old(w).entities@,
{
    if !(ev.started && ev.sensor) {
        return None;
    }
    let n = w.entities.len();
    if !(ev.entity1 < n && ev.entity2 < n) {
        return None;
    }
    let r1 = w.entities[ev.entity1];
    let r2 = w.entities[ev.entity2];
    let ok1 = r1.alive && r1.is_player && r2.alive && r2.is_door_key;
    let ok2 = r2.alive && r2.is_player && r1.alive && r1.is_door_key;
    proof {
        assert(ok1 == (is_live_player(*old(w), ev.entity1 as int) && is_live_key(
            *old(w),
            ev.entity2 as int,
        )));
        assert(ok2 == (is_live_player(*old(w), ev.entity2 as int) && is_live_key(
            *old(w),
            ev.entity1 as int,
        )));
    }
    if ok1 && !ok2 {
        w.despawn(ev.entity2);
        Some(ev.entity2)
    } else if ok2 && !ok1 {
        w.despawn(ev.entity1);
        Some(ev.entity1)
    } else {
        None
    }
}

/// Despawns every key the player touched this tick, draining the event
/// queue once, in order.
pub fn handle_taken_by_player(w: &mut World, events: &Vec<CollisionEvent>)
    requires
        old(w).wf(),
    ensures
        final(w).wf(),
        final(w).entities@.len() == old(w).entities@.len(),
        final(w).entities@ == taken_pass_s(old(w).entities@, events@, events@.len()),
{
    let ghost w0 = *w;
    let mut i: usize = 0;
    while i < events.len()
        invariant
            w0 == *old(w),
            w.wf(),
            w.entities@.len() == w0.entities@.len(),
            i <= events@.len(),
            w.entities@ == taken_pass_s(w0.entities@, events@, i as nat),
        decreases events@.len() - i,
    {
        let ev = events[i];
        let ghost w_prev = *w;
        handle_taken_one(w, ev);
        proof {
            assert(w.entities@ == taken_one_s(w_prev.entities@, ev));
        }
        i = i + 1;
    }
}

} // verus!
