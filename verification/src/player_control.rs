//! The jump/fall state machine and per-tick movement impulse of the
//! player-controlled body.

use vstd::prelude::*;
use crate::world::{EntityRec, World};
use crate::physics_utils::{Contact, StandingOn, standing_on, standing_on_ok};
use crate::fixed::{
    FX_ONE, Vec2Fx, fdiv, fdiv_s, fmul, fmul_s, i64_abs, iabs, isqrt, isqrt_s, pow_half,
    pow_half_s, v2_bounded, lemma_mul_le, lemma_isqrt_s_bounds,
};

verus! {

/// Half a unit: the threshold above which the vertical input axis
/// counts as a jump request.
pub const FX_HALF: i64 = 500_000;

/// A hundredth of a unit: the least uphill component that triggers
/// traction loss.
pub const FX_CENT: i64 = 10_000;

/// Greatest speed magnitude (per component) the movement tick accepts,
/// far beyond anything the rules can produce in play.
pub const VEL_LIMIT: i64 = 100_000_000_000_000;

/// Greatest magnitude a movement tunable may have.
pub const SETTING_LIMIT: i64 = 10_000_000_000;

/// Mutable controller state carried by the player entity across ticks.
#[derive(Clone, Copy, PartialEq, Eq, Structural, Debug)]
pub struct PlayerControl {
    pub mid_jump: bool,
    pub last_stood_on: Vec2Fx,
    pub stood_on_potential: i64,
}

impl PlayerControl {
    /// The state before the first tick: not jumping, with flat ground
    /// remembered and no recent contact.
    pub fn new() -> (r: PlayerControl)
        ensures
            r == PlayerControl::initial(),
    {
        PlayerControl {
            mid_jump: false,
            last_stood_on: Vec2Fx { x: 0, y: FX_ONE },
            stood_on_potential: 0,
        }
    }

    /// The state before the first tick.
    pub open spec fn initial() -> PlayerControl {
        PlayerControl {
            mid_jump: false,
            last_stood_on: Vec2Fx { x: 0, y: FX_ONE },
            stood_on_potential: 0,
        }
    }

    /// The controller state is sound: the remembered normal is a unit-
    /// scale vector and the potential sits in the unit interval.
    pub open spec fn wf(self) -> bool {
        &&& 0 <= self.stood_on_potential <= FX_ONE
        &&& crate::fixed::v2_bounded(self.last_stood_on, FX_ONE as int)
    }
}

/// Movement tunables, fixed for a play session.
#[derive(Clone, Copy, PartialEq, Eq, Structural, Debug)]
pub struct PlayerMovementSettings {
    /// Speed the movement axis maps onto, in world units per second.
    pub max_speed: i64,
    /// Power-law shaping of the speed gap, counted in half steps
    /// (a value of 8 is the fourth power).
    pub impulse_exponent: u32,
    /// Gain from shaped speed gap to impulse, per second.
    pub impulse_coefficient: i64,
    /// Upward speed added when a jump starts.
    pub jump_power_coefficient: i64,
    /// Upward speed under which the pre-fall gravity boost starts.
    pub start_fall_before_peak: i64,
    /// Downward speed under which the fall still counts as near-apex.
    pub start_of_fall_range: i64,
    /// Extra downward acceleration near the jump's apex.
    pub start_of_fall_gravity_boost: i64,
    /// Decay rate of the stood-on potential, per second.
    pub stood_on_time_coefficient: i64,
    /// Attenuation exponent in half steps when pushing uphill onward.
    pub uphill_move_exponent: u32,
    /// Attenuation exponent in half steps when braking back downhill.
    pub downhill_brake_exponent: u32,
}

/// Per-tick values from the frame-time collaborator: the frame delta
/// and the exponential decay factors it fixes for this tick.
#[derive(Clone, Copy, PartialEq, Eq, Structural, Debug)]
pub struct FrameTimings {
    /// Seconds elapsed this tick.
    pub delta_seconds: i64,
    /// Per-tick factor braking upward speed when the jump key is
    /// released: the jump-brake rate raised to the frame delta.
    pub jump_brake_factor: i64,
    /// Per-tick factor boosting downward speed in a clear fall: the
    /// fall-boost rate raised to the frame delta.
    pub fall_boost_factor: i64,
}

/// The player's movement input this tick, each axis clamped to unit
/// scale by the input collaborator.
#[derive(Clone, Copy, PartialEq, Eq, Structural, Debug)]
pub struct MoveInput {
    pub axis_x: i64,
    pub axis_y: i64,
}

/// The jump/fall states the controller distinguishes each tick.
#[derive(Clone, Copy, PartialEq, Eq, Structural, Debug)]
pub enum JumpStatus {
    CanJump,
    InitiateJump,
    GoingUp,
    StoppingUp,
    GoingDown,
}

impl PlayerMovementSettings {
    /// Machine limits on the tunables, so that every intermediate of
    /// the tick fits its word; the shaping exponent is at least one
    /// half step, so a zero speed gap shapes to a zero impulse.
    pub open spec fn wf(self) -> bool {
        &&& FX_ONE / 1000 <= self.max_speed <= SETTING_LIMIT
        &&& 1 <= self.impulse_exponent
        &&& 0 <= self.impulse_coefficient <= SETTING_LIMIT
        &&& 0 <= self.jump_power_coefficient <= SETTING_LIMIT
        &&& iabs(self.start_fall_before_peak as int) <= SETTING_LIMIT
        &&& 0 <= self.start_of_fall_range <= SETTING_LIMIT
        &&& 0 <= self.start_of_fall_gravity_boost <= SETTING_LIMIT
        &&& 0 <= self.stood_on_time_coefficient <= SETTING_LIMIT
    }
}

impl PlayerMovementSettings {
    /// The tunables the game ships with.
    pub fn game_defaults() -> (r: PlayerMovementSettings)
        ensures
            r == (PlayerMovementSettings {
                max_speed: 10_000_000,
                impulse_exponent: 8,
                impulse_coefficient: 400_000_000,
                jump_power_coefficient: 7_000_000,
                start_fall_before_peak: 10_000_000,
                start_of_fall_range: 1_000_000,
                start_of_fall_gravity_boost: 60_000_000,
                stood_on_time_coefficient: 10_000_000,
                uphill_move_exponent: 1,
                downhill_brake_exponent: 2,
            }),
            r.wf(),
    {
        PlayerMovementSettings {
            max_speed: 10_000_000,
            impulse_exponent: 8,
            impulse_coefficient: 400_000_000,
            jump_power_coefficient: 7_000_000,
            start_fall_before_peak: 10_000_000,
            start_of_fall_range: 1_000_000,
            start_of_fall_gravity_boost: 60_000_000,
            stood_on_time_coefficient: 10_000_000,
            uphill_move_exponent: 1,
            downhill_brake_exponent: 2,
        }
    }
}

impl FrameTimings {
    /// Sound per-tick values: at most one second per tick, a shrinking
    /// brake factor, and a fall boost of at most four per tick.
    pub open spec fn wf(self) -> bool {
        &&& 0 <= self.delta_seconds <= FX_ONE
        &&& 0 <= self.jump_brake_factor <= FX_ONE
        &&& FX_ONE <= self.fall_boost_factor <= 4 * FX_ONE
    }
}

/// The vertical axis is pushed past the jump threshold.
pub open spec fn is_jumping_s(input: MoveInput) -> bool {
    input.axis_y > FX_HALF
}

/// The contact the entity stands on faces upward.
pub open spec fn upward_contact(standing: Option<Vec2Fx>) -> bool {
    standing matches Some(n) && n.y > 0
}

/// The jump/fall state this tick, from the contact, the vertical
/// speed, the jump request, and whether a jump is in flight.
pub open spec fn jump_status_s(
    c: PlayerControl,
    vel: Vec2Fx,
    standing: Option<Vec2Fx>,
    jumping: bool,
) -> JumpStatus {
    if upward_contact(standing) {
        if jumping {
            JumpStatus::InitiateJump
        } else {
            JumpStatus::CanJump
        }
    } else if vel.y >= 0 {
        if jumping && c.mid_jump {
            JumpStatus::GoingUp
        } else {
            JumpStatus::StoppingUp
        }
    } else {
        JumpStatus::GoingDown
    }
}

/// Whether a jump is in flight after the tick.
pub open spec fn mid_jump_after_s(
    c: PlayerControl,
    vel: Vec2Fx,
    standing: Option<Vec2Fx>,
    input: MoveInput,
) -> bool {
    let st = jump_status_s(c, vel, standing, is_jumping_s(input));
    st is InitiateJump || st is GoingUp
}

/// The surface normal remembered after the tick: only a contact that
/// faces upward replaces it.
pub open spec fn last_stood_on_after(c: PlayerControl, standing: Option<Vec2Fx>) -> Vec2Fx {
    if upward_contact(standing) {
        standing->0
    } else {
        c.last_stood_on
    }
}

/// The potential decayed by this tick's share, floored at zero.
pub open spec fn decayed_potential_s(
    p: int,
    s: PlayerMovementSettings,
    t: FrameTimings,
) -> int {
    let d = p - fmul_s(t.delta_seconds as int, s.stood_on_time_coefficient as int);
    if d < 0 {
        0
    } else {
        d
    }
}

/// The stood-on potential after the tick: full on an upward contact,
/// decaying from its old value otherwise — a contact that does not
/// face upward refreshes nothing.
pub open spec fn potential_after(
    c: PlayerControl,
    standing: Option<Vec2Fx>,
    s: PlayerMovementSettings,
    t: FrameTimings,
) -> int {
    if upward_contact(standing) {
        FX_ONE as int
    } else {
        decayed_potential_s(c.stood_on_potential as int, s, t)
    }
}

/// The vertical speed after the jump/fall side effects of the state.
pub open spec fn vy_after_jump_s(
    vy: int,
    st: JumpStatus,
    s: PlayerMovementSettings,
    t: FrameTimings,
) -> int {
    match st {
        JumpStatus::CanJump => vy,
        JumpStatus::GoingUp => vy,
        JumpStatus::InitiateJump => vy + s.jump_power_coefficient,
        JumpStatus::StoppingUp => {
            let b = fmul_s(vy, t.jump_brake_factor as int);
            if b < s.start_fall_before_peak {
                b - fmul_s(s.start_of_fall_gravity_boost as int, t.delta_seconds as int)
            } else {
                b
            }
        },
        JumpStatus::GoingDown => {
            if -s.start_of_fall_range < vy {
                vy - fmul_s(s.start_of_fall_gravity_boost as int, t.delta_seconds as int)
            } else {
                fmul_s(vy, t.fall_boost_factor as int)
            }
        },
    }
}

/// The x component of the effective up direction: true up blended with
/// the last stood-on normal, weighted by the potential.
pub open spec fn up_now_x_s(pot: int, last: Vec2Fx) -> int {
    fmul_s(pot, last.x as int)
}

/// The y component of the effective up direction.
pub open spec fn up_now_y_s(pot: int, last: Vec2Fx) -> int {
    FX_ONE - pot + fmul_s(pot, last.y as int)
}

/// Speed along the movement direction (the effective up rotated a
/// quarter turn clockwise), as a fraction of the configured maximum.
pub open spec fn current_speed_s(
    vx: int,
    vy: int,
    pot: int,
    last: Vec2Fx,
    max_speed: int,
) -> int {
    fdiv_s(fmul_s(vx, up_now_y_s(pot, last)) + fmul_s(vy, -up_now_x_s(pot, last)), max_speed)
}

/// Already moving at or past the asked speed in the asked direction:
/// no impulse, so acceleration cannot run away.
pub open spec fn no_impulse_needed(target: int, cur: int) -> bool {
    (0 < target && target <= cur) || (target < 0 && cur <= target)
}

/// Sign as the floating controller reads it: nonnegative counts as
/// positive.
pub open spec fn fsign_s(x: int) -> int {
    if x >= 0 {
        1
    } else {
        -1
    }
}

/// The impulse magnitude for a speed gap: saturated at one unit, else
/// shaped by the configured power law.
pub open spec fn impulse_scalar_s(gap: int, e: nat) -> int {
    if iabs(gap) > FX_ONE {
        fsign_s(gap) * FX_ONE
    } else {
        fsign_s(gap) * pow_half_s(iabs(gap), e)
    }
}

/// The movement impulse this tick, over the state the jump phase
/// leaves: along the movement direction, scaled by frame time, the
/// gain, and the shaped speed gap, then attenuated when it points
/// uphill.
pub open spec fn impulse_pair_s(
    vx1: int,
    vy1: int,
    pot: int,
    last: Vec2Fx,
    target: int,
    s: PlayerMovementSettings,
    t: FrameTimings,
) -> (int, int) {
    let mvx = up_now_y_s(pot, last);
    let mvy = -up_now_x_s(pot, last);
    let cur = fdiv_s(fmul_s(vx1, mvx) + fmul_s(vy1, mvy), s.max_speed as int);
    if no_impulse_needed(target, cur) {
        (0, 0)
    } else {
        let gap = target - cur;
        let sc = impulse_scalar_s(gap, s.impulse_exponent as nat);
        let s2 = fmul_s(fmul_s(t.delta_seconds as int, s.impulse_coefficient as int), sc);
        let ix = fmul_s(mvx, s2);
        let iy = fmul_s(mvy, s2);
        let norm = isqrt_s((ix * ix + iy * iy) as nat) as int;
        if norm > 0 {
            let uphill = fdiv_s(iy, norm);
            if uphill >= FX_CENT {
                let e = if fsign_s(target) == fsign_s(cur) {
                    s.uphill_move_exponent
                } else {
                    s.downhill_brake_exponent
                };
                let att = FX_ONE - pow_half_s(uphill, e as nat);
                (fmul_s(ix, att), fmul_s(iy, att))
            } else {
                (ix, iy)
            }
        } else {
            (ix, iy)
        }
    }
}

/// Computes this tick's movement impulse from the state the jump phase
/// left behind.
fn horizontal_impulse(
    vx1: i64,
    vy1: i64,
    pot: i64,
    last: Vec2Fx,
    target: i64,
    settings: &PlayerMovementSettings,
    timings: &FrameTimings,
) -> (r: (i64, i64))
    requires
        iabs(vx1 as int) <= VEL_LIMIT,
        iabs(vy1 as int) <= 5 * VEL_LIMIT,
        0 <= pot <= FX_ONE,
        v2_bounded(last, FX_ONE as int),
        iabs(target as int) <= FX_ONE,
        settings.wf(),
        timings.wf(),
    ensures
        (r.0 as int, r.1 as int) == impulse_pair_s(
            vx1 as int,
            vy1 as int,
            pot as int,
            last,
            target as int,
            *settings,
            *timings,
        ),
        iabs(r.0 as int) <= SETTING_LIMIT,
        iabs(r.1 as int) <= SETTING_LIMIT,
{
    proof {
        lemma_mul_le(iabs(pot as int), iabs(last.x as int), FX_ONE as int, FX_ONE as int);
        lemma_mul_le(iabs(pot as int), iabs(last.y as int), pot as int, FX_ONE as int);
    }
    let ux = fmul(pot, last.x);
    let blend = fmul(pot, last.y);
    proof {
        assert(iabs(ux as int) <= FX_ONE);
        assert(iabs(blend as int) <= pot);
    }
    let uy = (FX_ONE - pot) + blend;
    proof {
        assert(iabs(uy as int) <= FX_ONE);
    }
    let mvx = uy;
    let mvy = -ux;
    proof {
        lemma_mul_le(iabs(vx1 as int), iabs(mvx as int), VEL_LIMIT as int, FX_ONE as int);
        lemma_mul_le(iabs(vy1 as int), iabs(mvy as int), 5 * VEL_LIMIT as int, FX_ONE as int);
    }
    let dx = fmul(vx1, mvx);
    let dy = fmul(vy1, mvy);
    proof {
        assert(iabs(dx as int) <= VEL_LIMIT);
        assert(iabs(dy as int) <= 5 * VEL_LIMIT);
    }
    let dot = dx + dy;
    proof {
        lemma_mul_le(iabs(dot as int), FX_ONE as int, 6 * VEL_LIMIT as int, FX_ONE as int);
        lemma_mul_le(FX_ONE as int / 1000, 1, settings.max_speed as int, 1);
    }
    let cur = fdiv(dot, settings.max_speed);
    proof {
        lemma_mul_le(FX_ONE as int / 1000, iabs(cur as int), settings.max_speed as int,
            iabs(cur as int));
        assert(iabs(cur as int) <= 6 * VEL_LIMIT as int * 1000);
    }
    if (0 < target && target <= cur) || (target < 0 && cur <= target) {
        return (0, 0);
    }
    let gap = target - cur;
    let sc: i64 = if gap > FX_ONE {
        FX_ONE
    } else if gap < -FX_ONE {
        -FX_ONE
    } else if gap >= 0 {
        pow_half(gap, settings.impulse_exponent)
    } else {
        -pow_half(-gap, settings.impulse_exponent)
    };
    proof {
        assert(sc == impulse_scalar_s(gap as int, settings.impulse_exponent as nat));
        assert(iabs(sc as int) <= FX_ONE);
        lemma_mul_le(iabs(timings.delta_seconds as int), iabs(
            settings.impulse_coefficient as int,
        ), FX_ONE as int, SETTING_LIMIT as int);
    }
    let s1 = fmul(timings.delta_seconds, settings.impulse_coefficient);
    proof {
        assert(iabs(s1 as int) <= SETTING_LIMIT);
        lemma_mul_le(iabs(s1 as int), iabs(sc as int), SETTING_LIMIT as int, FX_ONE as int);
    }
    let s2 = fmul(s1, sc);
    proof {
        assert(iabs(s2 as int) <= SETTING_LIMIT);
        lemma_mul_le(iabs(mvx as int), iabs(s2 as int), FX_ONE as int, SETTING_LIMIT as int);
        lemma_mul_le(iabs(mvy as int), iabs(s2 as int), FX_ONE as int, SETTING_LIMIT as int);
    }
    let ix = fmul(mvx, s2);
    let iy = fmul(mvy, s2);
    proof {
        assert(iabs(ix as int) <= SETTING_LIMIT);
        assert(iabs(iy as int) <= SETTING_LIMIT);
    }
    let ax = i64_abs(ix);
    let ay = i64_abs(iy);
    proof {
        lemma_mul_le(ax as int, ax as int, SETTING_LIMIT as int, SETTING_LIMIT as int);
        lemma_mul_le(ay as int, ay as int, SETTING_LIMIT as int, SETTING_LIMIT as int);
        assert(ax as int * ax as int == ix as int * ix as int) by (nonlinear_arith)
            requires
                ax == iabs(ix as int),
        ;
        assert(ay as int * ay as int == iy as int * iy as int) by (nonlinear_arith)
            requires
                ay == iabs(iy as int),
        ;
    }
    let sq: u128 = (ax as u128) * (ax as u128) + (ay as u128) * (ay as u128);
    let norm64 = isqrt(sq);
    proof {
        lemma_isqrt_s_bounds(sq as nat);
        assert(norm64 as int * norm64 as int <= sq);
        assert(norm64 <= 2 * SETTING_LIMIT) by (nonlinear_arith)
            requires
                norm64 as int * norm64 as int <= sq,
                sq <= 2 * (SETTING_LIMIT as int * SETTING_LIMIT as int),
                SETTING_LIMIT == 10_000_000_000,
        ;
    }
    let norm = norm64 as i64;
    if norm > 0 {
        proof {
            assert(iy as int * iy as int <= sq);
            assert(iabs(iy as int) <= norm as int) by (nonlinear_arith)
                requires
                    iy as int * iy as int <= sq,
                    sq < (norm as int + 1) * (norm as int + 1),
                    norm as int >= 0,
            ;
            lemma_mul_le(iabs(iy as int), FX_ONE as int, norm as int, FX_ONE as int);
            lemma_mul_le(1, FX_ONE as int, norm as int, i64::MAX as int);
        }
        let uphill = fdiv(iy, norm);
        proof {
            lemma_mul_le(1, iabs(uphill as int), norm as int, iabs(uphill as int));
            assert(iabs(uphill as int) * norm as int <= iabs(iy as int) * FX_ONE as int);
            assert(iabs(uphill as int) <= FX_ONE) by (nonlinear_arith)
                requires
                    iabs(uphill as int) * norm as int <= iabs(iy as int) * FX_ONE as int,
                    iabs(iy as int) <= norm as int,
                    norm as int > 0,
                    iabs(uphill as int) >= 0,
            ;
        }
        if uphill >= FX_CENT {
            let e = if (target >= 0) == (cur >= 0) {
                settings.uphill_move_exponent
            } else {
                settings.downhill_brake_exponent
            };
            let att = FX_ONE - pow_half(uphill, e);
            proof {
                lemma_mul_le(iabs(ix as int), iabs(att as int), SETTING_LIMIT as int,
                    FX_ONE as int);
                lemma_mul_le(iabs(iy as int), iabs(att as int), SETTING_LIMIT as int,
                    FX_ONE as int);
            }
            let rx = fmul(ix, att);
            let ry = fmul(iy, att);
            (rx, ry)
        } else {
            (ix, iy)
        }
    } else {
        (ix, iy)
    }
}

/// One tick of the movement controller: reads the contact the body
/// stands on, advances the jump/fall state machine, applies its
/// vertical side effects, and adds the horizontal movement impulse.
pub fn movement_tick(
    control: &mut PlayerControl,
    velocity: &mut Vec2Fx,
    standing_normal: Option<Vec2Fx>,
    input: MoveInput,
    settings: &PlayerMovementSettings,
    timings: &FrameTimings,
)
    requires
        old(control).wf(),
        v2_bounded(*old(velocity), VEL_LIMIT as int),
        standing_normal matches Some(n) ==> v2_bounded(n, FX_ONE as int),
        iabs(input.axis_x as int) <= FX_ONE,
        settings.wf(),
        timings.wf(),
    ensures
        final(control).wf(),
        final(control).mid_jump == mid_jump_after_s(
            *old(control),
            *old(velocity),
            standing_normal,
            input,
        ),
        final(control).last_stood_on == last_stood_on_after(*old(control), standing_normal),
        final(control).stood_on_potential == potential_after(
            *old(control),
            standing_normal,
            *settings,
            *timings,
        ),
        ({
            let st = jump_status_s(*old(control), *old(velocity), standing_normal, is_jumping_s(
                input,
            ));
            let vy1 = vy_after_jump_s(old(velocity).y as int, st, *settings, *timings);
            let pair = impulse_pair_s(
                old(velocity).x as int,
                vy1,
                potential_after(*old(control), standing_normal, *settings, *timings),
                last_stood_on_after(*old(control), standing_normal),
                input.axis_x as int,
                *settings,
                *timings,
            );
            final(velocity).x == old(velocity).x + pair.0 && final(velocity).y == vy1 + pair.1
        }),
{
    let is_jumping = FX_HALF < input.axis_y;
    let upward = match &standing_normal {
        Some(n) => 0 < n.y,
        None => false,
    };
    let status: JumpStatus = if upward {
        let n = standing_normal.unwrap();
        control.last_stood_on = n;
        control.stood_on_potential = FX_ONE;
        if is_jumping {
            JumpStatus::InitiateJump
        } else {
            JumpStatus::CanJump
        }
    } else {
        proof {
            lemma_mul_le(iabs(timings.delta_seconds as int), iabs(
                settings.stood_on_time_coefficient as int,
            ), FX_ONE as int, SETTING_LIMIT as int);
        }
        let share = fmul(timings.delta_seconds, settings.stood_on_time_coefficient);
        let d = control.stood_on_potential - share;
        control.stood_on_potential = if d < 0 {
            0
        } else {
            d
        };
        if velocity.y >= 0 {
            if is_jumping && control.mid_jump {
                JumpStatus::GoingUp
            } else {
                JumpStatus::StoppingUp
            }
        } else {
            JumpStatus::GoingDown
        }
    };
    proof {
        assert(status == jump_status_s(*old(control), *old(velocity), standing_normal,
            is_jumping_s(input)));
        assert(control.stood_on_potential == potential_after(*old(control), standing_normal,
            *settings, *timings));
    }
    match status {
        JumpStatus::CanJump => {
            control.mid_jump = false;
        },
        JumpStatus::InitiateJump => {
            control.mid_jump = true;
            velocity.y = velocity.y + settings.jump_power_coefficient;
        },
        JumpStatus::GoingUp => {
            control.mid_jump = true;
        },
        JumpStatus::StoppingUp => {
            control.mid_jump = false;
            proof {
                lemma_mul_le(iabs(velocity.y as int), iabs(timings.jump_brake_factor as int),
                    VEL_LIMIT as int, FX_ONE as int);
            }
            velocity.y = fmul(velocity.y, timings.jump_brake_factor);
            if velocity.y < settings.start_fall_before_peak {
                proof {
                    lemma_mul_le(iabs(settings.start_of_fall_gravity_boost as int), iabs(
                        timings.delta_seconds as int,
                    ), SETTING_LIMIT as int, FX_ONE as int);
                }
                velocity.y = velocity.y - fmul(
                    settings.start_of_fall_gravity_boost,
                    timings.delta_seconds,
                );
            }
        },
        JumpStatus::GoingDown => {
            if -settings.start_of_fall_range < velocity.y {
                proof {
                    lemma_mul_le(iabs(settings.start_of_fall_gravity_boost as int), iabs(
                        timings.delta_seconds as int,
                    ), SETTING_LIMIT as int, FX_ONE as int);
                }
                velocity.y = velocity.y - fmul(
                    settings.start_of_fall_gravity_boost,
                    timings.delta_seconds,
                );
            } else {
                proof {
                    lemma_mul_le(iabs(velocity.y as int), iabs(timings.fall_boost_factor as int),
                        VEL_LIMIT as int, 4 * FX_ONE as int);
                }
                velocity.y = fmul(velocity.y, timings.fall_boost_factor);
            }
            control.mid_jump = false;
        },
    }
    proof {
        assert(velocity.y == vy_after_jump_s(old(velocity).y as int, status, *settings,
            *timings));
        assert(iabs(velocity.y as int) <= 5 * VEL_LIMIT);
    }
    let pair = horizontal_impulse(
        velocity.x,
        velocity.y,
        control.stood_on_potential,
        control.last_stood_on,
        input.axis_x,
        settings,
        timings,
    );
    velocity.x = velocity.x + pair.0;
    velocity.y = velocity.y + pair.1;
}

/// With no movement input, a stationary body, and an upward-facing
/// contact, the tick asks for no jump, applies no fall correction and
/// no movement impulse: the velocity parts of the tick all come out
/// zero.
pub proof fn lemma_zero_axis_stationary_tick(
    c: PlayerControl,
    sn: Vec2Fx,
    input: MoveInput,
    s: PlayerMovementSettings,
    t: FrameTimings,
)
    requires
        c.wf(),
        s.wf(),
        t.wf(),
        input.axis_x == 0,
        input.axis_y == 0,
        sn.y > 0,
        v2_bounded(sn, FX_ONE as int),
    ensures
        ({
            let v0 = Vec2Fx { x: 0, y: 0 };
            let st = jump_status_s(c, v0, Some(sn), is_jumping_s(input));
            let pot1 = potential_after(c, Some(sn), s, t);
            let pair = impulse_pair_s(0, vy_after_jump_s(0, st, s, t), pot1, sn, 0, s, t);
            st == JumpStatus::CanJump && vy_after_jump_s(0, st, s, t) == 0 && pair == (0int, 0int)
        }),
{
    let v0 = Vec2Fx { x: 0, y: 0 };
    let st = jump_status_s(c, v0, Some(sn), is_jumping_s(input));
    assert(st == JumpStatus::CanJump);
    let pot1 = potential_after(c, Some(sn), s, t);
    let mvx = up_now_y_s(pot1, sn);
    let mvy = -up_now_x_s(pot1, sn);
    assert(fmul_s(0, mvx) == 0);
    assert(fmul_s(0, mvy) == 0);
    let cur = fdiv_s(0, s.max_speed as int);
    assert(cur == 0) by {
        vstd::arithmetic::div_mod::lemma_div_of0(s.max_speed as int);
    }
    assert(!no_impulse_needed(0, 0));
    crate::fixed::lemma_pow_half_zero(s.impulse_exponent as nat);
    assert(impulse_scalar_s(0, s.impulse_exponent as nat) == 0);
    let s2 = fmul_s(fmul_s(t.delta_seconds as int, s.impulse_coefficient as int), 0);
    assert(s2 == 0);
    assert(fmul_s(mvx, 0) == 0);
    assert(fmul_s(mvy, 0) == 0);
    assert(isqrt_s(0nat) == 0);
}

/// Applied with zero movement-axis input to a body already stationary
/// on an upward-facing contact, one controller tick produces zero net
/// impulse: the velocity stays exactly zero.
pub proof fn lemma_zero_axis_stationary_player(
    w0: World,
    w1: World,
    player: int,
    sn: Vec2Fx,
    input: MoveInput,
    s: PlayerMovementSettings,
    t: FrameTimings,
)
    requires
        w0.valid(player),
        w0.rec(player).player_control matches Some(c0) ==> c0.wf(),
        w0.rec(player).player_control is Some,
        w0.rec(player).velocity == Some(Vec2Fx { x: 0, y: 0 }),
        control_player_post(w0, w1, player, Some(sn), input, s, t),
        s.wf(),
        t.wf(),
        input.axis_x == 0,
        input.axis_y == 0,
        sn.y > 0,
        v2_bounded(sn, FX_ONE as int),
    ensures
        w1.rec(player).velocity == Some(Vec2Fx { x: 0, y: 0 }),
{
    let c0 = w0.rec(player).player_control->0;
    lemma_zero_axis_stationary_tick(c0, sn, input, s, t);
    let r1 = w1.rec(player);
    assert(r1.velocity->0.x == 0 && r1.velocity->0.y == 0);
    assert(r1.velocity == Some(Vec2Fx { x: 0, y: 0 }));
}

/// A jump pressed on an upward-facing contact always starts a jump:
/// the tick raises the vertical speed by exactly the jump power and
/// marks the jump as in flight, whatever the rest of the state.
pub proof fn lemma_jump_start_adds_jump_power(
    c: PlayerControl,
    vel: Vec2Fx,
    sn: Vec2Fx,
    input: MoveInput,
    s: PlayerMovementSettings,
    t: FrameTimings,
)
    requires
        sn.y > 0,
        is_jumping_s(input),
    ensures
        ({
            let st = jump_status_s(c, vel, Some(sn), is_jumping_s(input));
            st == JumpStatus::InitiateJump && vy_after_jump_s(vel.y as int, st, s, t) == vel.y
                + s.jump_power_coefficient && mid_jump_after_s(c, vel, Some(sn), input)
        }),
{
}

/// `sn` is the oracle's answer for `e` on `cs`, reduced to the normal:
/// nothing touched, or the outward normal of the selected manifold.
pub open spec fn oracle_normal_ok(cs: Seq<Contact>, e: usize, sn: Option<Vec2Fx>) -> bool {
    match sn {
        None => forall|ci: int, mi: int| !crate::physics_utils::eligible(cs, e, ci, mi),
        Some(n) => exists|s: StandingOn|
            #[trigger] standing_on_ok(cs, e, s) && s.normal == n,
    }
}

/// The player's record after one controller tick, given the contact
/// normal `sn` the oracle chose: the controller state and velocity
/// advance by the movement rules and every other role is untouched.
pub open spec fn control_player_post(
    w0: World,
    w1: World,
    player: int,
    sn: Option<Vec2Fx>,
    input: MoveInput,
    s: PlayerMovementSettings,
    t: FrameTimings,
) -> bool {
    let r0 = w0.rec(player);
    let c0 = r0.player_control->0;
    let v0 = r0.velocity->0;
    let st = jump_status_s(c0, v0, sn, is_jumping_s(input));
    let pot1 = potential_after(c0, sn, s, t);
    let last1 = last_stood_on_after(c0, sn);
    let vy1 = vy_after_jump_s(v0.y as int, st, s, t);
    let pair = impulse_pair_s(v0.x as int, vy1, pot1, last1, input.axis_x as int, s, t);
    let r1 = w1.rec(player);
    &&& r1.player_control is Some
    &&& r1.velocity is Some
    &&& r1.player_control->0.mid_jump == (st is InitiateJump || st is GoingUp)
    &&& r1.player_control->0.last_stood_on == last1
    &&& r1.player_control->0.stood_on_potential == pot1
    &&& r1.velocity->0.x == v0.x + pair.0
    &&& r1.velocity->0.y == vy1 + pair.1
    &&& r1 == (EntityRec { player_control: r1.player_control, velocity: r1.velocity, ..r0 })
}

/// One tick of player control: queries the contact oracle for what the
/// player stands on, then advances the jump/fall state machine and the
/// movement impulse.  Returns the normal the oracle chose, so that the
/// postcondition pins the whole tick to it.
pub fn control_player(
    w: &mut World,
    player: usize,
    contacts: &Vec<Contact>,
    input: MoveInput,
    settings: &PlayerMovementSettings,
    timings: &FrameTimings,
) -> (used: Option<Vec2Fx>)
    requires
        old(w).wf(),
        old(w).valid(player as int),
        old(w).rec(player as int).player_control is Some,
        old(w).rec(player as int).player_control->0.wf(),
        old(w).rec(player as int).velocity is Some,
        v2_bounded(old(w).rec(player as int).velocity->0, VEL_LIMIT as int),
        crate::physics_utils::contacts_wf(contacts@),
        iabs(input.axis_x as int) <= FX_ONE,
        settings.wf(),
        timings.wf(),
    ensures
        final(w).wf(),
        final(w).entities@.len() == old(w).entities@.len(),
        forall|e: int|
            old(w).valid(e) && e != player ==> final(w).rec(e) == old(w).rec(e),
        oracle_normal_ok(contacts@, player, used),
        control_player_post(*old(w), *final(w), player as int, used, input, *settings, *timings),
        final(w).rec(player as int).player_control->0.wf(),
{
    let so = standing_on(contacts, player);
    let sn: Option<Vec2Fx> = match &so {
        Some(s) => {
            proof {
                assert(crate::physics_utils::eligible(contacts@, player, s.contact_index as int,
                    s.manifold_index as int));
                assert(v2_bounded(contacts@[s.contact_index as int].manifolds@[
                    s.manifold_index as int].normal, FX_ONE as int));
                assert(v2_bounded(s.normal, FX_ONE as int));
            }
            Some(s.normal)
        },
        None => None,
    };
    let rec = w.entities[player];
    let mut pc = rec.player_control.unwrap();
    let mut vel = rec.velocity.unwrap();
    movement_tick(&mut pc, &mut vel, sn, input, settings, timings);
    let mut rec2 = rec;
    rec2.player_control = Some(pc);
    rec2.velocity = Some(vel);
    w.entities[player] = rec2;
    proof {
        assert forall|i: int| w.valid(i) implies #[trigger] w.rec_ok(i) by {
            assert(old(w).rec_ok(i));
            if i != player {
                assert(w.rec(i) == old(w).rec(i));
            }
        }
    }
    sn
}

} // verus!
