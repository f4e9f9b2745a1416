//! Newtonian physics for actors: input-driven turning and thrust, one fixed
//! integration step per tick with a velocity clamp, toroidal wrap-around,
//! and timed decay for shots.
//!
//! Every function advances exactly one tick (1/60 s); the frame-loop driver
//! outside the crate calls them once per catch-up step.

use vstd::prelude::*;

use crate::actor::Actor;
use crate::geometry::TAU_URAD;
use crate::geometry::Vec2;
use crate::geometry::ceil_sqrt;
use crate::geometry::is_ceil_sqrt;
use crate::geometry::isqrt_ceil;
use crate::geometry::norm_angle;
use crate::geometry::scale_trunc;
use crate::geometry::scale_trunc_exec;
use crate::geometry::wrap1;
use crate::input::InputState;

verus! {

/// Speed a shot gains over the player, in units per tick (200 px/s).
pub const SHOT_SPEED: i64 = 12_000;

/// Velocity the player gains in one tick of thrust, in units per tick
/// (100 px/s^2 at the fixed step).
pub const PLAYER_THRUST: i64 = 100;

/// Turn at full stick deflection, in microradians per tick (3 rad/s).
pub const PLAYER_TURN_RATE: i64 = 50_000;

/// Ticks between shots (0.5 s).
pub const PLAYER_SHOT_TIME: i64 = 30;

/// Speed cap for every actor, in units per tick (250 px/s).
pub const MAX_PHYSICS_VEL: i64 = 15_000;

/// Speed cap for freshly spawned rocks, in units per tick (50 px/s).
pub const MAX_ROCK_VEL: i64 = 3_000;

/// Overflow guard: position components the physics functions accept.
pub const POS_LIMIT: i64 = 2_000_000_000;

/// Overflow guard: velocity components the clamp accepts.
pub const VEL_LIMIT: i64 = 1_000_000;

/// The velocity after clamping to `MAX_PHYSICS_VEL`: unchanged when already
/// within the cap, else scaled down by `MAX_PHYSICS_VEL / |v|` with the
/// rounded-up integer norm, each component truncated toward zero.
pub open spec fn clamped_vel(v: Vec2) -> Vec2 {
    if v.norm_sq() <= MAX_PHYSICS_VEL * MAX_PHYSICS_VEL {
        v
    } else {
        let n = ceil_sqrt(v.norm_sq());
        Vec2 {
            x: scale_trunc(v.x as int, MAX_PHYSICS_VEL as int, n) as i64,
            y: scale_trunc(v.y as int, MAX_PHYSICS_VEL as int, n) as i64,
        }
    }
}

/// Scaling both components by `m/n` with `n*n >= |v|^2` keeps the squared
/// norm at or below `m*m`; truncation toward zero only shrinks it further.
proof fn lemma_scale_bounds_norm(a: int, b: int, m: int, n: int)
    requires
        a >= 0,
        b >= 0,
        m >= 0,
        n > 0,
        a * a + b * b <= n * n,
    ensures
        ((a * m) / n) * ((a * m) / n) + ((b * m) / n) * ((b * m) / n) <= m * m,
{
    let qa = (a * m) / n;
    let qb = (b * m) / n;
    vstd::arithmetic::div_mod::lemma_fundamental_div_mod(a * m, n);
    vstd::arithmetic::div_mod::lemma_fundamental_div_mod(b * m, n);
    assert(a * m >= 0) by (nonlinear_arith)
        requires
            a >= 0,
            m >= 0,
    ;
    assert(b * m >= 0) by (nonlinear_arith)
        requires
            b >= 0,
            m >= 0,
    ;
    vstd::arithmetic::div_mod::lemma_div_is_ordered(0, a * m, n);
    vstd::arithmetic::div_mod::lemma_div_is_ordered(0, b * m, n);
    assert(0 <= (a * m) % n < n);
    assert(qa * n <= a * m);
    assert(qb * n <= b * m);
    assert(qa * qa * (n * n) <= (a * m) * (a * m)) by (nonlinear_arith)
        requires
            qa >= 0,
            n > 0,
            qa * n <= a * m,
    ;
    assert(qb * qb * (n * n) <= (b * m) * (b * m)) by (nonlinear_arith)
        requires
            qb >= 0,
            n > 0,
            qb * n <= b * m,
    ;
    assert((a * m) * (a * m) + (b * m) * (b * m) == (a * a + b * b) * (m * m)) by (nonlinear_arith);
    assert((a * a + b * b) * (m * m) <= (n * n) * (m * m)) by (nonlinear_arith)
        requires
            a * a + b * b <= n * n,
            m * m >= 0,
    ;
    assert((qa * qa + qb * qb) * (n * n) <= (m * m) * (n * n)) by (nonlinear_arith)
        requires
            qa * qa * (n * n) <= (a * m) * (a * m),
            qb * qb * (n * n) <= (b * m) * (b * m),
            (a * m) * (a * m) + (b * m) * (b * m) == (a * a + b * b) * (m * m),
            (a * a + b * b) * (m * m) <= (n * n) * (m * m),
    ;
    assert(n * n > 0) by (nonlinear_arith)
        requires
            n > 0,
    ;
    assert(qa * qa + qb * qb <= m * m) by (nonlinear_arith)
        requires
            (qa * qa + qb * qb) * (n * n) <= (m * m) * (n * n),
            n * n > 0,
    ;
}

/// A velocity whose squared norm is within `m * m` has both components
/// within `m`.
pub proof fn lemma_norm_sq_component_bound(v: Vec2, m: int)
    requires
        m >= 0,
        v.norm_sq() <= m * m,
    ensures
        -m <= v.x <= m,
        -m <= v.y <= m,
{
    assert(-m <= v.x <= m && -m <= v.y <= m) by (nonlinear_arith)
        requires
            m >= 0,
            v.x * v.x + v.y * v.y <= m * m,
    ;
}

/// The facing the ship will have after one tick's turn at the given stick
/// deflection. Callers use it to aim this tick's thrust and shot vectors
/// exactly the way `player_handle_input` will turn the ship.
pub fn turned_facing(facing: i64, xaxis: i8) -> (r: i64)
    requires
        0 <= facing < TAU_URAD,
        -1 <= xaxis <= 1,
    ensures
        r == norm_angle(facing + PLAYER_TURN_RATE * xaxis),
        0 <= r < TAU_URAD,
{
    let mut f: i64 = facing + PLAYER_TURN_RATE * (xaxis as i64);
    if f < 0 {
        f = f + TAU_URAD;
    } else if f >= TAU_URAD {
        f = f - TAU_URAD;
    }
    f
}

/// Turn the ship by the stick deflection and, while thrusting, add the
/// tick's thrust vector to its velocity.
///
/// `thrust` is the thrust gained this tick — `PLAYER_THRUST` times the unit
/// vector of the new facing, which the caller computes — and is ignored
/// unless the thrust axis is held.
pub fn player_handle_input(actor: &mut Actor, input: &InputState, thrust: Vec2)
    requires
        input.wf(),
        0 <= old(actor).facing < TAU_URAD,
        -PLAYER_THRUST <= thrust.x <= PLAYER_THRUST,
        -PLAYER_THRUST <= thrust.y <= PLAYER_THRUST,
        -VEL_LIMIT + PLAYER_THRUST <= old(actor).velocity.x <= VEL_LIMIT - PLAYER_THRUST,
        -VEL_LIMIT + PLAYER_THRUST <= old(actor).velocity.y <= VEL_LIMIT - PLAYER_THRUST,
    ensures
        *final(actor) == (Actor {
            facing: norm_angle(old(actor).facing + PLAYER_TURN_RATE * input.xaxis) as i64,
            velocity: if input.yaxis > 0 {
                Vec2 {
                    x: (old(actor).velocity.x + thrust.x) as i64,
                    y: (old(actor).velocity.y + thrust.y) as i64,
                }
            } else {
                old(actor).velocity
            },
            ..*old(actor)
        }),
{
    actor.facing = turned_facing(actor.facing, input.xaxis);
    if input.yaxis > 0 {
        player_thrust(actor, thrust);
    }
}

/// Add one tick's thrust vector to the velocity.
pub fn player_thrust(actor: &mut Actor, thrust: Vec2)
    requires
        -PLAYER_THRUST <= thrust.x <= PLAYER_THRUST,
        -PLAYER_THRUST <= thrust.y <= PLAYER_THRUST,
        -VEL_LIMIT + PLAYER_THRUST <= old(actor).velocity.x <= VEL_LIMIT - PLAYER_THRUST,
        -VEL_LIMIT + PLAYER_THRUST <= old(actor).velocity.y <= VEL_LIMIT - PLAYER_THRUST,
    ensures
        *final(actor) == (Actor {
            velocity: Vec2 {
                x: (old(actor).velocity.x + thrust.x) as i64,
                y: (old(actor).velocity.y + thrust.y) as i64,
            },
            ..*old(actor)
        }),
{
    actor.velocity = Vec2 { x: actor.velocity.x + thrust.x, y: actor.velocity.y + thrust.y };
}

/// One integration step: clamp the velocity to the cap, move the actor by
/// the clamped velocity (one tick), and apply the per-tick spin.
pub fn update_actor_position(actor: &mut Actor)
    requires
        -POS_LIMIT <= old(actor).pos.x <= POS_LIMIT,
        -POS_LIMIT <= old(actor).pos.y <= POS_LIMIT,
        -VEL_LIMIT <= old(actor).velocity.x <= VEL_LIMIT,
        -VEL_LIMIT <= old(actor).velocity.y <= VEL_LIMIT,
        0 <= old(actor).facing < TAU_URAD,
        -TAU_URAD < old(actor).ang_vel < TAU_URAD,
    ensures
        *final(actor) == (Actor {
            pos: Vec2 {
                x: (old(actor).pos.x + clamped_vel(old(actor).velocity).x) as i64,
                y: (old(actor).pos.y + clamped_vel(old(actor).velocity).y) as i64,
            },
            facing: norm_angle(old(actor).facing + old(actor).ang_vel) as i64,
            velocity: clamped_vel(old(actor).velocity),
            ..*old(actor)
        }),
        final(actor).velocity.norm_sq() <= MAX_PHYSICS_VEL * MAX_PHYSICS_VEL,
        0 <= final(actor).facing < TAU_URAD,
{
    clamp_actor_velocity(actor);
    proof {
        lemma_norm_sq_component_bound(actor.velocity, MAX_PHYSICS_VEL as int);
    }
    actor.pos = Vec2 { x: actor.pos.x + actor.velocity.x, y: actor.pos.y + actor.velocity.y };
    let mut f: i64 = actor.facing + actor.ang_vel;
    if f < 0 {
        f = f + TAU_URAD;
    } else if f >= TAU_URAD {
        f = f - TAU_URAD;
    }
    actor.facing = f;
}

/// Clamp the velocity so the speed never exceeds `MAX_PHYSICS_VEL`.
pub fn clamp_actor_velocity(actor: &mut Actor)
    requires
        -VEL_LIMIT <= old(actor).velocity.x <= VEL_LIMIT,
        -VEL_LIMIT <= old(actor).velocity.y <= VEL_LIMIT,
    ensures
        *final(actor) == (Actor { velocity: clamped_vel(old(actor).velocity), ..*old(actor) }),
        final(actor).velocity.norm_sq() <= MAX_PHYSICS_VEL * MAX_PHYSICS_VEL,
{
    let vx: i64 = actor.velocity.x;
    let vy: i64 = actor.velocity.y;
    proof {
        assert(vx * vx + vy * vy <= 2_000_000_000_000 && vx * vx >= 0 && vy * vy >= 0)
            by (nonlinear_arith)
            requires
                -VEL_LIMIT <= vx <= VEL_LIMIT,
                -VEL_LIMIT <= vy <= VEL_LIMIT,
        ;
    }
    let nsq: i64 = vx * vx + vy * vy;
    if nsq > MAX_PHYSICS_VEL * MAX_PHYSICS_VEL {
        let n: u64 = isqrt_ceil(nsq as u64);
        proof {
            assert(n * n >= nsq);
            assert(n > 0) by (nonlinear_arith)
                requires
                    n * n >= nsq,
                    nsq > 0,
                    n >= 0,
            ;
        }
        let cx: i64 = scale_trunc_exec(vx, MAX_PHYSICS_VEL as u64, n);
        let cy: i64 = scale_trunc_exec(vy, MAX_PHYSICS_VEL as u64, n);
        actor.velocity = Vec2 { x: cx, y: cy };
        proof {
            let s = old(actor).velocity.norm_sq();
            let ni = n as int;
            let m = MAX_PHYSICS_VEL as int;
            let a: int = if vx >= 0 { vx as int } else { -(vx as int) };
            let b: int = if vy >= 0 { vy as int } else { -(vy as int) };
            assert(a * a + b * b == s) by (nonlinear_arith)
                requires
                    s == vx * vx + vy * vy,
                    a == (if vx >= 0 { vx as int } else { -(vx as int) }),
                    b == (if vy >= 0 { vy as int } else { -(vy as int) }),
            ;
            lemma_scale_bounds_norm(a, b, m, ni);
            let qa = (a * m) / ni;
            let qb = (b * m) / ni;
            assert(cx == qa || cx == -qa);
            assert(cy == qb || cy == -qb);
            assert(actor.velocity.norm_sq() == qa * qa + qb * qb) by (nonlinear_arith)
                requires
                    actor.velocity.norm_sq() == actor.velocity.x * actor.velocity.x
                        + actor.velocity.y * actor.velocity.y,
                    actor.velocity.x == qa || actor.velocity.x == -qa,
                    actor.velocity.y == qb || actor.velocity.y == -qb,
            ;
            assert(actor.velocity == clamped_vel(old(actor).velocity));
        }
    }
}

/// Wrap the actor's position to the bounds of the screen: leaving one side
/// re-enters on the other.
pub fn wrap_actor_position(actor: &mut Actor, sx: i64, sy: i64)
    requires
        0 < sx <= 4_000_000_000,
        0 < sy <= 4_000_000_000,
        sx % 2 == 0,
        sy % 2 == 0,
        -POS_LIMIT - MAX_PHYSICS_VEL <= old(actor).pos.x <= POS_LIMIT + MAX_PHYSICS_VEL,
        -POS_LIMIT - MAX_PHYSICS_VEL <= old(actor).pos.y <= POS_LIMIT + MAX_PHYSICS_VEL,
    ensures
        final(actor).pos.x == wrap1(old(actor).pos.x as int, sx as int),
        final(actor).pos.y == wrap1(old(actor).pos.y as int, sy as int),
        *final(actor) == (Actor { pos: final(actor).pos, ..*old(actor) }),
        -(sx / 2) - sx <= old(actor).pos.x <= sx / 2 + sx ==> -(sx / 2) <= final(actor).pos.x
            <= sx / 2,
        -(sy / 2) - sy <= old(actor).pos.y <= sy / 2 + sy ==> -(sy / 2) <= final(actor).pos.y
            <= sy / 2,
{
    proof {
        if -(sx / 2) - sx <= old(actor).pos.x <= sx / 2 + sx {
            crate::geometry::lemma_wrap_in_range(old(actor).pos.x as int, sx as int);
        }
        if -(sy / 2) - sy <= old(actor).pos.y <= sy / 2 + sy {
            crate::geometry::lemma_wrap_in_range(old(actor).pos.y as int, sy as int);
        }
    }
    let half_x: i64 = ((sx as u64) / 2) as i64;
    let half_y: i64 = ((sy as u64) / 2) as i64;
    let mut x: i64 = actor.pos.x;
    let mut y: i64 = actor.pos.y;
    if x > half_x {
        x = x - sx;
    } else if x < -half_x {
        x = x + sx;
    }
    if y > half_y {
        y = y - sy;
    } else if y < -half_y {
        y = y + sy;
    }
    actor.pos = Vec2 { x, y };
}

/// One tick of timed decay: for shots, `life` is the remaining ticks.
pub fn handle_timed_life(actor: &mut Actor)
    requires
        old(actor).life > i64::MIN,
    ensures
        *final(actor) == (Actor { life: (old(actor).life - 1) as i64, ..*old(actor) }),
{
    actor.life = actor.life - 1;
}

} // verus!
