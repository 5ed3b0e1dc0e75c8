use mix_n_mech::door::{
    handle_opening_when_keys_are_taken, handle_player_enters, handle_taken_by_player,
    handle_taken_one,
};
use mix_n_mech::global_types::OpenableDoor;
use mix_n_mech::parts_manipulation::CollisionEvent;
use mix_n_mech::world::{EntityRec, World};

fn door(w: &mut World) -> usize {
    let mut r = EntityRec::blank();
    r.door = Some(OpenableDoor { open: false });
    w.spawn(r)
}

fn key(w: &mut World) -> usize {
    let mut r = EntityRec::blank();
    r.is_door_key = true;
    w.spawn(r)
}

fn player(w: &mut World) -> usize {
    let mut r = EntityRec::blank();
    r.is_player = true;
    w.spawn(r)
}

fn sensor_contact(e1: usize, e2: usize) -> CollisionEvent {
    CollisionEvent { started: true, entity1: e1, entity2: e2, sensor: true }
}

#[test]
fn doors_open_once_every_key_is_taken() {
    let mut w = World::new();
    let d = door(&mut w);
    let k = key(&mut w);
    let p = player(&mut w);
    handle_opening_when_keys_are_taken(&mut w);
    assert!(!w.entities[d].door.unwrap().open);

    handle_taken_by_player(&mut w, &vec![sensor_contact(p, k)]);
    assert!(!w.entities[k].alive);
    handle_opening_when_keys_are_taken(&mut w);
    assert!(w.entities[d].door.unwrap().open);
}

#[test]
fn a_solid_contact_takes_no_key() {
    let mut w = World::new();
    let k = key(&mut w);
    let p = player(&mut w);
    let taken = handle_taken_one(
        &mut w,
        CollisionEvent { started: true, entity1: p, entity2: k, sensor: false },
    );
    assert_eq!(taken, None);
    assert!(w.entities[k].alive);
}

#[test]
fn ambiguous_pairings_are_discarded() {
    let mut w = World::new();
    let p1 = player(&mut w);
    let p2 = player(&mut w);
    let taken = handle_taken_one(&mut w, sensor_contact(p1, p2));
    assert_eq!(taken, None);
}

#[test]
fn entering_an_open_door_completes_the_level() {
    let mut w = World::new();
    let d = door(&mut w);
    let p = player(&mut w);
    // closed door: no completion
    assert!(!handle_player_enters(&w, &vec![sensor_contact(p, d)]));
    let mut r = w.entities[d];
    r.door = Some(OpenableDoor { open: true });
    w.entities[d] = r;
    assert!(handle_player_enters(&w, &vec![sensor_contact(p, d)]));
    // either endpoint order resolves
    assert!(handle_player_enters(&w, &vec![sensor_contact(d, p)]));
    // a non-sensor contact does not count
    assert!(!handle_player_enters(
        &w,
        &vec![CollisionEvent { started: true, entity1: p, entity2: d, sensor: false }],
    ));
}
