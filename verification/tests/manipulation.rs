use mix_n_mech::fixed::Vec2Fx;
use mix_n_mech::global_types::{Carrier, Pickable};
use mix_n_mech::parts_manipulation::{
    CollisionEvent, PickupOutcome, apply_carrying, apply_carrying_one, control_pickup,
    detect_mounting, detect_mounting_one,
};
use mix_n_mech::physics_utils::{Contact, ContactManifold, ManifoldPoint};
use mix_n_mech::player_control::MoveInput;
use mix_n_mech::robot_part::{RobotPartType, spawn_robot_part};
use mix_n_mech::world::{EntityRec, World};
use mix_n_mech::global_types::HDirection;

fn player_at(y: i64) -> EntityRec {
    let mut r = EntityRec::blank();
    r.is_player = true;
    r.carrier = Some(Carrier { carrying: None });
    r.position = Some(Vec2Fx { x: 0, y });
    r.velocity = Some(Vec2Fx { x: 0, y: 0 });
    r.half_height = Some(500_000);
    r
}

fn standing_contact(player: usize, ground: usize) -> Vec<Contact> {
    // the stored normal points from the first collider toward the
    // second; the oracle flips it outward from the queried entity
    vec![Contact {
        collider1: player,
        collider2: ground,
        has_any_active_contact: true,
        manifolds: vec![ContactManifold {
            normal: Vec2Fx { x: 0, y: -1_000_000 },
            points: vec![ManifoldPoint {
                local_p1: Vec2Fx { x: 0, y: -500_000 },
                local_p2: Vec2Fx { x: 0, y: 46_875 },
            }],
        }],
    }]
}

#[test]
fn drop_clears_both_sides_in_the_same_tick() {
    let mut w = World::new();
    let player = w.spawn(player_at(0));
    let part = spawn_robot_part(
        &mut w,
        RobotPartType::Platform,
        Vec2Fx { x: 0, y: 1_000_000 },
        HDirection::Right,
    );
    // establish the carry link by hand
    let mut p = w.entities[player];
    p.carrier = Some(Carrier { carrying: Some(part) });
    w.entities[player] = p;
    let mut q = w.entities[part];
    q.pickable = Some(Pickable { carried_by: Some(player) });
    q.joint = Some(mix_n_mech::global_types::Joint {
        parent: player,
        anchor: Vec2Fx { x: 0, y: 556_875 },
    });
    w.entities[part] = q;

    let outcome = control_pickup(
        &mut w,
        player,
        &Vec::new(),
        MoveInput { axis_x: 0, axis_y: 0 },
        true,
    );
    assert_eq!(outcome, PickupOutcome::Dropped { part });
    assert_eq!(w.entities[player].carrier.unwrap().carrying, None);
    assert_eq!(w.entities[part].pickable.unwrap().carried_by, None);
    assert_eq!(w.entities[part].joint, None);
    // no direction held: the part is released in place
    assert_eq!(w.entities[part].position.unwrap(), Vec2Fx { x: 0, y: 1_000_000 });
}

#[test]
fn throw_pushes_the_part_out_and_down() {
    let mut w = World::new();
    let player = w.spawn(player_at(0));
    let part = spawn_robot_part(
        &mut w,
        RobotPartType::Platform,
        Vec2Fx { x: 0, y: 1_000_000 },
        HDirection::Right,
    );
    let mut p = w.entities[player];
    p.carrier = Some(Carrier { carrying: Some(part) });
    w.entities[player] = p;
    let mut q = w.entities[part];
    q.pickable = Some(Pickable { carried_by: Some(player) });
    w.entities[part] = q;

    let outcome = control_pickup(
        &mut w,
        player,
        &Vec::new(),
        MoveInput { axis_x: -1_000_000, axis_y: 0 },
        true,
    );
    assert_eq!(outcome, PickupOutcome::Dropped { part });
    let pos = w.entities[part].position.unwrap();
    assert_eq!(pos, Vec2Fx { x: -750_000, y: 800_000 });
    assert_eq!(w.entities[part].velocity.unwrap(), Vec2Fx { x: 0, y: -3_000_000 });
}

#[test]
fn pickup_marks_the_stood_on_part_and_resolution_swaps_places() {
    let mut w = World::new();
    let player = w.spawn(player_at(0));
    let part = spawn_robot_part(
        &mut w,
        RobotPartType::Platform,
        Vec2Fx { x: 0, y: -600_000 },
        HDirection::Right,
    );
    let contacts = standing_contact(player, part);
    let outcome = control_pickup(
        &mut w,
        player,
        &contacts,
        MoveInput { axis_x: 0, axis_y: 0 },
        true,
    );
    assert_eq!(outcome, PickupOutcome::Marked { part, old_carrier: None });
    let t = w.entities[part].pending.unwrap();
    assert_eq!(t.carrier_entity, player);
    assert_eq!(t.old_carrier_entity, None);

    apply_carrying(&mut w);
    // the part rises above the player by the clearance plus twice the
    // player's half height; the player drops by the clearance plus
    // twice the part's half height
    assert_eq!(w.entities[part].position.unwrap(), Vec2Fx { x: 0, y: 410_000 });
    assert_eq!(w.entities[player].position.unwrap(), Vec2Fx { x: 0, y: -103_750 });
    assert_eq!(w.entities[player].carrier.unwrap().carrying, Some(part));
    assert_eq!(w.entities[part].pickable.unwrap().carried_by, Some(player));
    assert_eq!(w.entities[part].pending, None);
    let joint = w.entities[part].joint.unwrap();
    assert_eq!(joint.parent, player);
    assert_eq!(joint.anchor, Vec2Fx { x: 0, y: 556_875 });
}

#[test]
fn unresolved_transfer_is_retried_not_dropped() {
    let mut w = World::new();
    let player = w.spawn(player_at(0));
    let part = spawn_robot_part(
        &mut w,
        RobotPartType::Platform,
        Vec2Fx { x: 0, y: -600_000 },
        HDirection::Right,
    );
    let contacts = standing_contact(player, part);
    control_pickup(&mut w, player, &contacts, MoveInput { axis_x: 0, axis_y: 0 }, true);
    // the player vanishes before resolution: the swap fails and the
    // marker stays for the next tick
    w.despawn(player);
    let committed = apply_carrying_one(&mut w, part);
    assert!(!committed);
    assert!(w.entities[part].pending.is_some());
}

#[test]
fn a_stale_marker_is_left_for_the_next_tick() {
    let mut w = World::new();
    let player = w.spawn(player_at(0));
    let part = spawn_robot_part(
        &mut w,
        RobotPartType::Platform,
        Vec2Fx { x: 0, y: -600_000 },
        HDirection::Right,
    );
    let contacts = standing_contact(player, part);
    control_pickup(&mut w, player, &contacts, MoveInput { axis_x: 0, axis_y: 0 }, true);

    // before resolution the part is claimed by a mount base: the
    // marker's recorded previous carrier is no longer current, so the
    // transfer must not tear that fresh link
    let base = spawn_robot_part(
        &mut w,
        RobotPartType::Stationary,
        Vec2Fx { x: 0, y: -1_200_000 },
        HDirection::Right,
    );
    detect_mounting_one(
        &mut w,
        CollisionEvent { started: true, entity1: part, entity2: base, sensor: false },
    );
    assert_eq!(w.entities[part].pickable.unwrap().carried_by, Some(base));

    let committed = apply_carrying_one(&mut w, part);
    assert!(!committed);
    assert!(w.entities[part].pending.is_some());
    assert_eq!(w.entities[base].carrier.unwrap().carrying, Some(part));
    assert_eq!(w.entities[player].carrier.unwrap().carrying, None);
}

#[test]
fn an_engaged_carrier_defers_the_transfer() {
    let mut w = World::new();
    let player = w.spawn(player_at(0));
    let part = spawn_robot_part(
        &mut w,
        RobotPartType::Platform,
        Vec2Fx { x: 0, y: -600_000 },
        HDirection::Right,
    );
    let contacts = standing_contact(player, part);
    control_pickup(&mut w, player, &contacts, MoveInput { axis_x: 0, axis_y: 0 }, true);

    // the requesting carrier gets its hands full before resolution
    let other = spawn_robot_part(
        &mut w,
        RobotPartType::Platform,
        Vec2Fx { x: 0, y: 1_000_000 },
        HDirection::Right,
    );
    let mut pr = w.entities[player];
    pr.carrier = Some(Carrier { carrying: Some(other) });
    w.entities[player] = pr;
    let mut q = w.entities[other];
    q.pickable = Some(Pickable { carried_by: Some(player) });
    w.entities[other] = q;

    let committed = apply_carrying_one(&mut w, part);
    assert!(!committed);
    assert!(w.entities[part].pending.is_some());
    assert_eq!(w.entities[player].carrier.unwrap().carrying, Some(other));
}

#[test]
fn pickup_without_press_or_target_changes_nothing() {
    let mut w = World::new();
    let player = w.spawn(player_at(0));
    let before = w.entities[player];
    let o1 = control_pickup(&mut w, player, &Vec::new(), MoveInput { axis_x: 0, axis_y: 0 }, false);
    assert_eq!(o1, PickupOutcome::NotPressed);
    let o2 = control_pickup(&mut w, player, &Vec::new(), MoveInput { axis_x: 0, axis_y: 0 }, true);
    assert_eq!(o2, PickupOutcome::NoTarget);
    assert_eq!(w.entities[player], before);
}

#[test]
fn mounting_links_an_aligned_pair() {
    let mut w = World::new();
    let base = spawn_robot_part(
        &mut w,
        RobotPartType::Stationary,
        Vec2Fx { x: 0, y: 0 },
        HDirection::Right,
    );
    let part = spawn_robot_part(
        &mut w,
        RobotPartType::Platform,
        Vec2Fx { x: 100_000, y: 500_000 },
        HDirection::Right,
    );
    let events = vec![CollisionEvent { started: true, entity1: part, entity2: base, sensor: false }];
    detect_mounting(&mut w, &events);
    assert_eq!(w.entities[base].carrier.unwrap().carrying, Some(part));
    assert_eq!(w.entities[part].pickable.unwrap().carried_by, Some(base));
    // the part snaps over the base's center
    assert_eq!(w.entities[part].position.unwrap().x, 0);
    let joint = w.entities[part].joint.unwrap();
    assert_eq!(joint.parent, base);
    // clearance plus both half heights
    assert_eq!(joint.anchor, Vec2Fx { x: 0, y: 10_000 + 109_375 + 46_875 });

    // the freshly mounted pair is eligible for activation next tick
    mix_n_mech::part_activation::set_activation_state(&mut w);
    assert!(w.entities[base].activatable.unwrap().active);
    // the mounted part has no activatable role of its own (a platform),
    // but a mounted laser part would light up: remount with one
    let laser = spawn_robot_part(
        &mut w,
        RobotPartType::Laser,
        Vec2Fx { x: 0, y: 700_000 },
        HDirection::Right,
    );
    let mut b = w.entities[base];
    b.carrier = Some(Carrier { carrying: Some(laser) });
    w.entities[base] = b;
    let mut q = w.entities[laser];
    q.pickable = Some(Pickable { carried_by: Some(base) });
    w.entities[laser] = q;
    mix_n_mech::part_activation::set_activation_state(&mut w);
    assert!(w.entities[laser].activatable.unwrap().active);
}

#[test]
fn mounting_rejects_misalignment_and_engaged_sides() {
    let mut w = World::new();
    let base = spawn_robot_part(
        &mut w,
        RobotPartType::Stationary,
        Vec2Fx { x: 0, y: 0 },
        HDirection::Right,
    );
    let far = spawn_robot_part(
        &mut w,
        RobotPartType::Platform,
        Vec2Fx { x: 600_000, y: 500_000 },
        HDirection::Right,
    );
    // too far out horizontally
    let mounted = detect_mounting_one(
        &mut w,
        CollisionEvent { started: true, entity1: base, entity2: far, sensor: false },
    );
    assert!(!mounted);
    assert_eq!(w.entities[base].carrier.unwrap().carrying, None);

    // engage the base, then try a second part in tolerance
    let near = spawn_robot_part(
        &mut w,
        RobotPartType::Platform,
        Vec2Fx { x: 0, y: 500_000 },
        HDirection::Right,
    );
    detect_mounting_one(
        &mut w,
        CollisionEvent { started: true, entity1: base, entity2: near, sensor: false },
    );
    assert_eq!(w.entities[base].carrier.unwrap().carrying, Some(near));
    let other = spawn_robot_part(
        &mut w,
        RobotPartType::Platform,
        Vec2Fx { x: 0, y: 700_000 },
        HDirection::Right,
    );
    let mounted = detect_mounting_one(
        &mut w,
        CollisionEvent { started: true, entity1: base, entity2: other, sensor: false },
    );
    assert!(!mounted);
    assert_eq!(w.entities[other].pickable.unwrap().carried_by, None);
}
