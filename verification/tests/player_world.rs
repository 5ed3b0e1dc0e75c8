use mix_n_mech::FX_ONE;
use mix_n_mech::fixed::Vec2Fx;
use mix_n_mech::global_types::Carrier;
use mix_n_mech::physics_utils::{Contact, ContactManifold};
use mix_n_mech::player_control::{
    FrameTimings, MoveInput, PlayerControl, PlayerMovementSettings, control_player,
};
use mix_n_mech::world::{EntityRec, World};

fn settings() -> PlayerMovementSettings {
    PlayerMovementSettings::game_defaults()
}

fn timings() -> FrameTimings {
    FrameTimings {
        delta_seconds: 100_000,
        jump_brake_factor: 676_082,
        fall_boost_factor: 1_074_959,
    }
}

#[test]
fn the_controller_reads_the_oracle_and_writes_the_body() {
    let mut w = World::new();
    let mut rec = EntityRec::blank();
    rec.is_player = true;
    rec.carrier = Some(Carrier { carrying: None });
    rec.position = Some(Vec2Fx { x: 0, y: 0 });
    rec.velocity = Some(Vec2Fx { x: 0, y: 0 });
    rec.player_control = Some(PlayerControl::new());
    let player = w.spawn(rec);
    let mut g = EntityRec::blank();
    g.position = Some(Vec2Fx { x: 0, y: -1_000_000 });
    let ground = w.spawn(g);

    let contacts = vec![Contact {
        collider1: player,
        collider2: ground,
        has_any_active_contact: true,
        manifolds: vec![ContactManifold {
            normal: Vec2Fx { x: 0, y: -FX_ONE },
            points: Vec::new(),
        }],
    }];
    let used = control_player(
        &mut w,
        player,
        &contacts,
        MoveInput { axis_x: 0, axis_y: FX_ONE },
        &settings(),
        &timings(),
    );
    // the oracle saw the upward ground normal, so the jump started
    assert_eq!(used, Some(Vec2Fx { x: 0, y: FX_ONE }));
    let r = w.entities[player];
    assert_eq!(r.velocity.unwrap(), Vec2Fx { x: 0, y: 7_000_000 });
    assert!(r.player_control.unwrap().mid_jump);
    assert_eq!(r.player_control.unwrap().stood_on_potential, FX_ONE);
    // the ground record is untouched
    assert_eq!(w.entities[ground].position.unwrap(), Vec2Fx { x: 0, y: -1_000_000 });
}

#[test]
fn touching_nothing_reports_no_contact() {
    let mut w = World::new();
    let mut rec = EntityRec::blank();
    rec.velocity = Some(Vec2Fx { x: 0, y: 0 });
    rec.player_control = Some(PlayerControl::new());
    let player = w.spawn(rec);
    let used = control_player(
        &mut w,
        player,
        &Vec::new(),
        MoveInput { axis_x: 0, axis_y: 0 },
        &settings(),
        &timings(),
    );
    assert_eq!(used, None);
}
