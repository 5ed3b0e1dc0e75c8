use mix_n_mech::FX_ONE;
use mix_n_mech::fixed::Vec2Fx;
use mix_n_mech::player_control::{
    FrameTimings, MoveInput, PlayerControl, PlayerMovementSettings, movement_tick,
};

fn settings() -> PlayerMovementSettings {
    PlayerMovementSettings::game_defaults()
}

fn timings() -> FrameTimings {
    FrameTimings {
        delta_seconds: 100_000,  // a tenth of a second
        jump_brake_factor: 676_082,  // the jump-brake rate raised to the delta
        fall_boost_factor: 1_074_959,  // the fall-boost rate raised to the delta
    }
}

fn flat_up() -> Vec2Fx {
    Vec2Fx { x: 0, y: FX_ONE }
}

#[test]
fn stationary_with_no_input_gets_no_impulse() {
    let mut control = PlayerControl::new();
    let mut velocity = Vec2Fx { x: 0, y: 0 };
    movement_tick(
        &mut control,
        &mut velocity,
        Some(flat_up()),
        MoveInput { axis_x: 0, axis_y: 0 },
        &settings(),
        &timings(),
    );
    assert_eq!(velocity, Vec2Fx { x: 0, y: 0 });
    assert!(!control.mid_jump);
    assert_eq!(control.stood_on_potential, FX_ONE);
}

#[test]
fn jump_press_on_ground_adds_exactly_the_jump_power() {
    let mut control = PlayerControl::new();
    let mut velocity = Vec2Fx { x: 0, y: 0 };
    movement_tick(
        &mut control,
        &mut velocity,
        Some(flat_up()),
        MoveInput { axis_x: 0, axis_y: FX_ONE },
        &settings(),
        &timings(),
    );
    assert_eq!(velocity.y, 7_000_000);
    assert_eq!(velocity.x, 0);
    assert!(control.mid_jump);
}

#[test]
fn jump_needs_the_axis_past_half() {
    let mut control = PlayerControl::new();
    let mut velocity = Vec2Fx { x: 0, y: 0 };
    movement_tick(
        &mut control,
        &mut velocity,
        Some(flat_up()),
        MoveInput { axis_x: 0, axis_y: 500_000 },
        &settings(),
        &timings(),
    );
    assert_eq!(velocity.y, 0);
    assert!(!control.mid_jump);
}

#[test]
fn released_jump_brakes_upward_speed() {
    // mid-air, going up, jump released: the brake factor scales the
    // vertical speed; 20.0 * 0.676082 = 13.52164, above the pre-fall
    // threshold, so no extra boost applies.
    let mut control = PlayerControl::new();
    control.mid_jump = true;
    let mut velocity = Vec2Fx { x: 0, y: 20_000_000 };
    movement_tick(
        &mut control,
        &mut velocity,
        None,
        MoveInput { axis_x: 0, axis_y: 0 },
        &settings(),
        &timings(),
    );
    assert_eq!(velocity.y, 13_521_640);
    assert!(!control.mid_jump);
}

#[test]
fn held_jump_keeps_going_up() {
    let mut control = PlayerControl::new();
    control.mid_jump = true;
    let mut velocity = Vec2Fx { x: 0, y: 5_000_000 };
    movement_tick(
        &mut control,
        &mut velocity,
        None,
        MoveInput { axis_x: 0, axis_y: FX_ONE },
        &settings(),
        &timings(),
    );
    // GoingUp has no vertical side effect, and with no horizontal
    // input, zero potential and unit up the movement axis is pure x.
    assert_eq!(velocity.y, 5_000_000);
    assert!(control.mid_jump);
}

#[test]
fn near_apex_fall_gets_the_gravity_boost() {
    // falling slowly (within the start-of-fall range): linear boost,
    // 60.0 * 0.1 = 6.0 added downward.
    let mut control = PlayerControl::new();
    let mut velocity = Vec2Fx { x: 0, y: -500_000 };
    movement_tick(
        &mut control,
        &mut velocity,
        None,
        MoveInput { axis_x: 0, axis_y: 0 },
        &settings(),
        &timings(),
    );
    assert_eq!(velocity.y, -6_500_000);
}

#[test]
fn clear_fall_is_scaled_by_the_boost_factor() {
    // falling fast: the exponential boost multiplies the speed;
    // -2.0 * 1.074959 = -2.149918.
    let mut control = PlayerControl::new();
    let mut velocity = Vec2Fx { x: 0, y: -2_000_000 };
    movement_tick(
        &mut control,
        &mut velocity,
        None,
        MoveInput { axis_x: 0, axis_y: 0 },
        &settings(),
        &timings(),
    );
    assert_eq!(velocity.y, -2_149_918);
}

#[test]
fn a_sideways_contact_refreshes_nothing() {
    // brushing a wall: the contact does not face upward, so the
    // remembered normal stays and the potential decays from its old
    // value instead of refilling
    let mut control = PlayerControl::new();
    control.stood_on_potential = FX_ONE;
    let mut velocity = Vec2Fx { x: 0, y: 0 };
    movement_tick(
        &mut control,
        &mut velocity,
        Some(Vec2Fx { x: FX_ONE, y: 0 }),
        MoveInput { axis_x: 0, axis_y: 0 },
        &settings(),
        &timings(),
    );
    assert_eq!(control.last_stood_on, flat_up());
    assert_eq!(control.stood_on_potential, 0);
    // airborne rules applied: the near-apex gravity boost
    assert_eq!(velocity.y, -6_000_000);
}

#[test]
fn stood_on_potential_decays_off_the_ground() {
    let mut control = PlayerControl::new();
    control.stood_on_potential = FX_ONE;
    let mut velocity = Vec2Fx { x: 0, y: 0 };
    movement_tick(
        &mut control,
        &mut velocity,
        None,
        MoveInput { axis_x: 0, axis_y: 0 },
        &settings(),
        &timings(),
    );
    // 1.0 - 0.1 * 10.0 == 0.0
    assert_eq!(control.stood_on_potential, 0);
}

#[test]
fn full_throttle_on_flat_ground_accelerates_forward() {
    // stationary on flat ground, axis hard right: the gap is 1.0, so
    // the shaped impulse is 1.0^4 = 1.0 and the applied impulse is
    // dt * coefficient = 0.1 * 400.0 = 40.0 along +x, with no uphill
    // component to attenuate.
    let mut control = PlayerControl::new();
    let mut velocity = Vec2Fx { x: 0, y: 0 };
    movement_tick(
        &mut control,
        &mut velocity,
        Some(flat_up()),
        MoveInput { axis_x: FX_ONE, axis_y: 0 },
        &settings(),
        &timings(),
    );
    assert_eq!(velocity.x, 40_000_000);
    assert_eq!(velocity.y, 0);
}

#[test]
fn no_impulse_when_already_at_speed() {
    // moving at the asked speed already: no runaway acceleration.
    let mut control = PlayerControl::new();
    control.stood_on_potential = FX_ONE;
    control.last_stood_on = flat_up();
    let mut velocity = Vec2Fx { x: 10_000_000, y: 0 };
    movement_tick(
        &mut control,
        &mut velocity,
        Some(flat_up()),
        MoveInput { axis_x: FX_ONE, axis_y: 0 },
        &settings(),
        &timings(),
    );
    assert_eq!(velocity.x, 10_000_000);
    assert_eq!(velocity.y, 0);
}

#[test]
fn uphill_impulse_is_attenuated() {
    // standing on a 45-degree slope just left: the movement axis tilts
    // with the remembered normal, so pushing right goes uphill and the
    // impulse loses traction; it must stay strictly under the flat
    // 40.0-unit impulse but keep pushing.
    let n = Vec2Fx { x: -707_107, y: 707_107 };
    let mut control = PlayerControl::new();
    let mut velocity = Vec2Fx { x: 0, y: 0 };
    movement_tick(
        &mut control,
        &mut velocity,
        Some(n),
        MoveInput { axis_x: FX_ONE, axis_y: 0 },
        &settings(),
        &timings(),
    );
    assert!(velocity.x > 0);
    assert!(velocity.y > 0);
    assert!(velocity.x < 40_000_000);
}
