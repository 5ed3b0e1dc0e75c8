use mix_n_mech::behavior_types::{Breakable, TriggerLaserShot};
use mix_n_mech::fixed::Vec2Fx;
use mix_n_mech::laser::{
    Intersection, dispose_laser, dispose_laser_one, handle_laser_hit_one, handle_laser_hits,
    shoot_laser,
};
use mix_n_mech::world::{EntityRec, World};

fn emitter(w: &mut World) -> usize {
    let mut r = EntityRec::blank();
    r.position = Some(Vec2Fx { x: 0, y: 0 });
    w.spawn(r)
}

fn bolt_from(w: &mut World, shooter: usize) -> usize {
    shoot_laser(
        w,
        &TriggerLaserShot {
            ignore_entity: shooter,
            origin: Vec2Fx { x: 0, y: 0 },
            velocity: Vec2Fx { x: 10_000_000, y: 0 },
            range: 3_000_000,
        },
    )
}

fn breakable_at(w: &mut World, life: i64) -> usize {
    let mut r = EntityRec::blank();
    r.breakable = Some(Breakable { life });
    r.position = Some(Vec2Fx { x: 0, y: 0 });
    w.spawn(r)
}

#[test]
fn bolt_expires_exactly_at_its_range() {
    let mut w = World::new();
    let shooter = emitter(&mut w);
    let e = bolt_from(&mut w, shooter);
    // still in flight at 2.9 units out
    let mut r = w.entities[e];
    r.position = Some(Vec2Fx { x: 2_900_000, y: 0 });
    w.entities[e] = r;
    assert!(!dispose_laser_one(&mut w, e));
    assert!(w.entities[e].alive);
    // gone once the travelled distance reaches 3.0
    let mut r = w.entities[e];
    r.position = Some(Vec2Fx { x: 3_000_000, y: 0 });
    w.entities[e] = r;
    assert!(dispose_laser_one(&mut w, e));
    assert!(!w.entities[e].alive);
}

#[test]
fn expiry_measures_distance_from_the_origin() {
    let mut w = World::new();
    let shooter = emitter(&mut w);
    let e = bolt_from(&mut w, shooter);
    // a diagonal flight: 1.8^2 + 2.4^2 == 3.0^2
    let mut r = w.entities[e];
    r.position = Some(Vec2Fx { x: 1_800_000, y: 2_400_000 });
    w.entities[e] = r;
    dispose_laser(&mut w);
    assert!(!w.entities[e].alive);
}

#[test]
fn a_bolt_despawns_on_its_first_hit() {
    let mut w = World::new();
    let shooter = emitter(&mut w);
    let e = bolt_from(&mut w, shooter);
    let wall = breakable_at(&mut w, 1_000_000);
    handle_laser_hit_one(&mut w, Intersection { entity1: e, entity2: wall });
    assert!(!w.entities[e].alive);
    // one hit takes 0.3 of the wall's life
    assert_eq!(w.entities[wall].breakable.unwrap().life, 700_000);
}

#[test]
fn a_bolt_passes_through_its_own_shooter() {
    let mut w = World::new();
    let shooter = emitter(&mut w);
    let e = bolt_from(&mut w, shooter);
    // the bolt starts inside its shooter: that overlap is no hit
    handle_laser_hit_one(&mut w, Intersection { entity1: e, entity2: shooter });
    assert!(w.entities[e].alive);
    assert!(w.entities[shooter].alive);
    // anything else still stops it
    let wall = breakable_at(&mut w, 1_000_000);
    handle_laser_hit_one(&mut w, Intersection { entity1: e, entity2: wall });
    assert!(!w.entities[e].alive);
}

#[test]
fn a_breakable_with_unit_life_falls_within_four_hits() {
    let mut w = World::new();
    let shooter = emitter(&mut w);
    let wall = breakable_at(&mut w, 1_000_000);
    let mut hits: u32 = 0;
    while w.entities[wall].alive {
        let e = bolt_from(&mut w, shooter);
        handle_laser_hit_one(&mut w, Intersection { entity1: wall, entity2: e });
        hits += 1;
        assert!(hits <= 4);
    }
    assert_eq!(hits, 4);
}

#[test]
fn hits_drain_the_event_list_symmetrically() {
    let mut w = World::new();
    let shooter = emitter(&mut w);
    let b1 = bolt_from(&mut w, shooter);
    let b2 = bolt_from(&mut w, shooter);
    let wall = breakable_at(&mut w, 1_000_000);
    let pairs = vec![
        Intersection { entity1: b1, entity2: wall },
        Intersection { entity1: wall, entity2: b2 },
    ];
    handle_laser_hits(&mut w, &pairs);
    assert!(!w.entities[b1].alive);
    assert!(!w.entities[b2].alive);
    assert_eq!(w.entities[wall].breakable.unwrap().life, 400_000);
}

#[test]
fn a_hit_on_plain_scenery_only_removes_the_bolt() {
    let mut w = World::new();
    let shooter = emitter(&mut w);
    let e = bolt_from(&mut w, shooter);
    let mut r = EntityRec::blank();
    r.position = Some(Vec2Fx { x: 0, y: 0 });
    let scenery = w.spawn(r);
    handle_laser_hit_one(&mut w, Intersection { entity1: e, entity2: scenery });
    assert!(!w.entities[e].alive);
    assert!(w.entities[scenery].alive);
}
