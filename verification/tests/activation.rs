use mix_n_mech::fixed::Vec2Fx;
use mix_n_mech::global_types::{Carrier, HDirection};
use mix_n_mech::part_activation::{compute_activation, set_activation_state};
use mix_n_mech::robot_part::{RobotPartType, spawn_robot_part};
use mix_n_mech::world::{EntityRec, World};

fn link(w: &mut World, carrier: usize, carried: usize) {
    let mut c = w.entities[carrier];
    c.carrier = Some(Carrier { carrying: Some(carried) });
    w.entities[carrier] = c;
}

#[test]
fn activation_follows_the_carry_chain() {
    let mut w = World::new();
    let base = spawn_robot_part(&mut w, RobotPartType::Stationary, Vec2Fx { x: 0, y: 0 },
        HDirection::Right);
    let mid = spawn_robot_part(&mut w, RobotPartType::Rotator, Vec2Fx { x: 0, y: 0 },
        HDirection::Right);
    let top = spawn_robot_part(&mut w, RobotPartType::Laser, Vec2Fx { x: 0, y: 0 },
        HDirection::Right);
    let stray = spawn_robot_part(&mut w, RobotPartType::Laser, Vec2Fx { x: 0, y: 0 },
        HDirection::Right);
    link(&mut w, base, mid);
    link(&mut w, mid, top);
    set_activation_state(&mut w);
    assert!(w.entities[base].activatable.unwrap().active);
    assert!(w.entities[mid].activatable.unwrap().active);
    assert!(w.entities[top].activatable.unwrap().active);
    assert!(!w.entities[stray].activatable.unwrap().active);
}

#[test]
fn a_power_source_is_a_root_even_when_carrying_nothing() {
    let mut w = World::new();
    let base = spawn_robot_part(&mut w, RobotPartType::Stationary, Vec2Fx { x: 0, y: 0 },
        HDirection::Right);
    set_activation_state(&mut w);
    assert!(w.entities[base].activatable.unwrap().active);
}

#[test]
fn stale_activation_is_overwritten_every_tick() {
    let mut w = World::new();
    let base = spawn_robot_part(&mut w, RobotPartType::Stationary, Vec2Fx { x: 0, y: 0 },
        HDirection::Right);
    let part = spawn_robot_part(&mut w, RobotPartType::Laser, Vec2Fx { x: 0, y: 0 },
        HDirection::Right);
    link(&mut w, base, part);
    set_activation_state(&mut w);
    assert!(w.entities[part].activatable.unwrap().active);
    // the link breaks: the next tick must clear the part's flag, not
    // keep it; the base stays lit, being itself a root
    let mut c = w.entities[base];
    c.carrier = Some(Carrier { carrying: None });
    w.entities[base] = c;
    set_activation_state(&mut w);
    assert!(!w.entities[part].activatable.unwrap().active);
    assert!(w.entities[base].activatable.unwrap().active);
}

#[test]
fn activation_terminates_and_marks_a_cycle() {
    let mut w = World::new();
    let a = spawn_robot_part(&mut w, RobotPartType::Stationary, Vec2Fx { x: 0, y: 0 },
        HDirection::Right);
    let b = spawn_robot_part(&mut w, RobotPartType::Rotator, Vec2Fx { x: 0, y: 0 },
        HDirection::Right);
    // a carries b and b carries a: the visited set bounds the walk
    link(&mut w, a, b);
    link(&mut w, b, a);
    set_activation_state(&mut w);
    assert!(w.entities[a].activatable.unwrap().active);
    assert!(w.entities[b].activatable.unwrap().active);
}

#[test]
fn running_activation_twice_changes_nothing() {
    let mut w = World::new();
    let base = spawn_robot_part(&mut w, RobotPartType::Stationary, Vec2Fx { x: 0, y: 0 },
        HDirection::Right);
    let part = spawn_robot_part(&mut w, RobotPartType::Laser, Vec2Fx { x: 0, y: 0 },
        HDirection::Right);
    link(&mut w, base, part);
    set_activation_state(&mut w);
    let once = w.entities.clone();
    set_activation_state(&mut w);
    assert_eq!(w.entities, once);
}

#[test]
fn unreachable_parts_are_never_marked() {
    let mut w = World::new();
    // a plain carrier chain with no power source at its root
    let mut root = EntityRec::blank();
    root.carrier = Some(Carrier { carrying: None });
    let root = w.spawn(root);
    let part = spawn_robot_part(&mut w, RobotPartType::Laser, Vec2Fx { x: 0, y: 0 },
        HDirection::Right);
    link(&mut w, root, part);
    let mask = compute_activation(&w);
    assert!(!mask[root]);
    assert!(!mask[part]);
}
