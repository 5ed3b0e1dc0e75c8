use mix_n_mech::fixed::Vec2Fx;
use mix_n_mech::global_types::{Activatable, Carrier, HDirection};
use mix_n_mech::part_behavior::{impl_hover_one, impl_laser_one, impl_rotator_one};
use mix_n_mech::robot_part::{RobotPartType, spawn_robot_part};
use mix_n_mech::world::World;

fn activate(w: &mut World, e: usize, on: bool) {
    let mut r = w.entities[e];
    r.activatable = Some(Activatable { active: on });
    w.entities[e] = r;
}

fn link(w: &mut World, carrier: usize, carried: usize) {
    let mut c = w.entities[carrier];
    c.carrier = Some(Carrier { carrying: Some(carried) });
    w.entities[carrier] = c;
}

#[test]
fn laser_fires_exactly_once_after_its_period() {
    let mut w = World::new();
    let e = spawn_robot_part(&mut w, RobotPartType::Laser, Vec2Fx { x: 0, y: 0 },
        HDirection::Right);
    activate(&mut w, e, true);
    // 0.3 s: nothing yet
    assert_eq!(impl_laser_one(&mut w, e, 300_000), None);
    // 0.2 s more: the 0.5 s period completes, exactly one shot
    let shot = impl_laser_one(&mut w, e, 200_000).unwrap();
    assert_eq!(shot.ignore_entity, e);
    assert_eq!(shot.origin, Vec2Fx { x: 500_000, y: 0 });
    assert_eq!(shot.velocity, Vec2Fx { x: 10_000_000, y: 0 });
    assert_eq!(shot.range, 3_000_000);
    // and only one: the next small step is quiet
    assert_eq!(impl_laser_one(&mut w, e, 100_000), None);
}

#[test]
fn deactivation_resets_the_laser_timer() {
    let mut w = World::new();
    let e = spawn_robot_part(&mut w, RobotPartType::Laser, Vec2Fx { x: 0, y: 0 },
        HDirection::Right);
    activate(&mut w, e, true);
    assert_eq!(impl_laser_one(&mut w, e, 400_000), None);
    // deactivate: the 0.4 s of progress is discarded
    activate(&mut w, e, false);
    assert_eq!(impl_laser_one(&mut w, e, 100_000), None);
    assert_eq!(w.entities[e].laser.unwrap().next_shot_timer.elapsed, 0);
    // reactivate: a full period is needed again, no partial carryover
    activate(&mut w, e, true);
    assert_eq!(impl_laser_one(&mut w, e, 400_000), None);
    assert!(impl_laser_one(&mut w, e, 100_000).is_some());
}

#[test]
fn laser_faces_left_too() {
    let mut w = World::new();
    let e = spawn_robot_part(&mut w, RobotPartType::Laser, Vec2Fx { x: 2_000_000, y: 0 },
        HDirection::Left);
    activate(&mut w, e, true);
    let shot = impl_laser_one(&mut w, e, 500_000).unwrap();
    assert_eq!(shot.origin, Vec2Fx { x: 1_500_000, y: 0 });
    assert_eq!(shot.velocity, Vec2Fx { x: -10_000_000, y: 0 });
}

#[test]
fn hover_blends_toward_the_desired_lift() {
    let mut w = World::new();
    let e = spawn_robot_part(&mut w, RobotPartType::Hover, Vec2Fx { x: 0, y: 0 },
        HDirection::Right);
    activate(&mut w, e, true);
    // ground 0.1 under a 0.6 range: desired up speed 2 * 0.5 = 1.0;
    // from rest the blend averages to 0.5
    impl_hover_one(&mut w, e, Some(100_000));
    assert_eq!(w.entities[e].velocity.unwrap().y, 500_000);
    // already rising faster than desired: untouched
    let mut r = w.entities[e];
    r.velocity = Some(Vec2Fx { x: 0, y: 2_000_000 });
    w.entities[e] = r;
    impl_hover_one(&mut w, e, Some(100_000));
    assert_eq!(w.entities[e].velocity.unwrap().y, 2_000_000);
}

#[test]
fn inactive_hover_does_nothing() {
    let mut w = World::new();
    let e = spawn_robot_part(&mut w, RobotPartType::Hover, Vec2Fx { x: 0, y: 0 },
        HDirection::Right);
    impl_hover_one(&mut w, e, Some(100_000));
    assert_eq!(w.entities[e].velocity.unwrap().y, 0);
}

#[test]
fn rotator_flips_the_whole_stack() {
    let mut w = World::new();
    let rot = spawn_robot_part(&mut w, RobotPartType::Rotator, Vec2Fx { x: 0, y: 0 },
        HDirection::Right);
    let mid = spawn_robot_part(&mut w, RobotPartType::Platform, Vec2Fx { x: 0, y: 0 },
        HDirection::Right);
    let top = spawn_robot_part(&mut w, RobotPartType::Laser, Vec2Fx { x: 0, y: 0 },
        HDirection::Left);
    let bystander = spawn_robot_part(&mut w, RobotPartType::Platform, Vec2Fx { x: 0, y: 0 },
        HDirection::Right);
    activate(&mut w, rot, true);
    link(&mut w, rot, mid);
    // a platform is no carrier, so give the middle part a carrier role
    // by hand to extend the stack
    let mut m = w.entities[mid];
    m.carrier = Some(Carrier { carrying: Some(top) });
    w.entities[mid] = m;

    // half a period: no turn yet
    assert!(!impl_rotator_one(&mut w, rot, 500_000));
    assert_eq!(w.entities[rot].hdirection.unwrap(), HDirection::Right);
    // the period completes: the whole stack flips, the bystander not
    assert!(impl_rotator_one(&mut w, rot, 500_000));
    assert_eq!(w.entities[rot].hdirection.unwrap(), HDirection::Left);
    assert_eq!(w.entities[mid].hdirection.unwrap(), HDirection::Left);
    assert_eq!(w.entities[top].hdirection.unwrap(), HDirection::Right);
    assert_eq!(w.entities[bystander].hdirection.unwrap(), HDirection::Right);
}

#[test]
fn rotator_terminates_on_a_cycle_flipping_each_once() {
    let mut w = World::new();
    let a = spawn_robot_part(&mut w, RobotPartType::Rotator, Vec2Fx { x: 0, y: 0 },
        HDirection::Right);
    let b = spawn_robot_part(&mut w, RobotPartType::Rotator, Vec2Fx { x: 0, y: 0 },
        HDirection::Right);
    activate(&mut w, a, true);
    link(&mut w, a, b);
    link(&mut w, b, a);
    assert!(impl_rotator_one(&mut w, a, 1_000_000));
    assert_eq!(w.entities[a].hdirection.unwrap(), HDirection::Left);
    assert_eq!(w.entities[b].hdirection.unwrap(), HDirection::Left);
}

#[test]
fn inactive_rotator_resets_its_timer() {
    let mut w = World::new();
    let rot = spawn_robot_part(&mut w, RobotPartType::Rotator, Vec2Fx { x: 0, y: 0 },
        HDirection::Right);
    activate(&mut w, rot, true);
    assert!(!impl_rotator_one(&mut w, rot, 900_000));
    activate(&mut w, rot, false);
    assert!(!impl_rotator_one(&mut w, rot, 200_000));
    assert_eq!(w.entities[rot].rotator.unwrap().next_turn_timer.elapsed, 0);
    assert_eq!(w.entities[rot].hdirection.unwrap(), HDirection::Right);
}
