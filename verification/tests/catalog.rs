use mix_n_mech::fixed::Vec2Fx;
use mix_n_mech::global_types::HDirection;
use mix_n_mech::robot_part::{RobotPartType, spawn_robot_part};
use mix_n_mech::world::{EntityRec, World};

#[test]
fn the_catalog_lists_every_part_type() {
    let all = RobotPartType::list();
    assert_eq!(
        all,
        vec![
            RobotPartType::Platform,
            RobotPartType::Hover,
            RobotPartType::Laser,
            RobotPartType::Stationary,
            RobotPartType::Rotator,
        ]
    );
}

#[test]
fn heights_match_the_catalog() {
    assert_eq!(RobotPartType::Platform.height(), 93_750);
    assert_eq!(RobotPartType::Hover.height(), 312_500);
    assert_eq!(RobotPartType::Laser.height(), 468_750);
    assert_eq!(RobotPartType::Stationary.height(), 218_750);
    assert_eq!(RobotPartType::Rotator.height(), 218_750);
}

#[test]
fn each_type_wires_its_roles() {
    let mut base = EntityRec::blank();
    RobotPartType::Platform.fill_components(&mut base);
    assert!(base.pickable.is_some());
    assert!(base.carrier.is_none());

    let mut hover = EntityRec::blank();
    RobotPartType::Hover.fill_components(&mut hover);
    assert!(hover.is_mount_base && hover.is_power_source);
    assert!(hover.carrier.is_some() && hover.activatable.is_some());
    assert_eq!(hover.hover.unwrap().range, 600_000);

    let mut laser = EntityRec::blank();
    RobotPartType::Laser.fill_components(&mut laser);
    assert!(laser.pickable.is_some() && laser.activatable.is_some());
    let lb = laser.laser.unwrap();
    assert_eq!(lb.next_shot_timer.duration, 500_000);
    assert_eq!(lb.speed, 10_000_000);
    assert_eq!(lb.range, 3_000_000);
    assert!(!laser.activatable.unwrap().active);

    let mut stationary = EntityRec::blank();
    RobotPartType::Stationary.fill_components(&mut stationary);
    assert!(stationary.is_mount_base && stationary.is_power_source);
    assert!(stationary.carrier.is_some());

    let mut rotator = EntityRec::blank();
    RobotPartType::Rotator.fill_components(&mut rotator);
    assert!(rotator.is_mount_base && !rotator.is_power_source);
    assert!(rotator.pickable.is_some() && rotator.carrier.is_some());
    assert_eq!(rotator.rotator.unwrap().next_turn_timer.duration, 1_000_000);
}

#[test]
fn spawning_places_the_part_with_half_its_height() {
    let mut w = World::new();
    let e = spawn_robot_part(
        &mut w,
        RobotPartType::Laser,
        Vec2Fx { x: 1_000_000, y: 2_000_000 },
        HDirection::Left,
    );
    let r = w.entities[e];
    assert!(r.alive);
    assert_eq!(r.position.unwrap(), Vec2Fx { x: 1_000_000, y: 2_000_000 });
    assert_eq!(r.velocity.unwrap(), Vec2Fx { x: 0, y: 0 });
    assert_eq!(r.hdirection.unwrap(), HDirection::Left);
    assert_eq!(r.half_height.unwrap(), 234_375);
}
