use astroblasto_multiplayer::actor::Actor;
use astroblasto_multiplayer::actor::ActorType;
use astroblasto_multiplayer::geometry::Vec2;
use astroblasto_multiplayer::physics::clamp_actor_velocity;
use astroblasto_multiplayer::physics::handle_timed_life;
use astroblasto_multiplayer::physics::player_handle_input;
use astroblasto_multiplayer::physics::update_actor_position;
use astroblasto_multiplayer::physics::wrap_actor_position;
use astroblasto_multiplayer::input::InputState;

// Screen of 640 x 480 pixels, in units of 1/3600 pixel.
const W: i64 = 2_304_000;
const H: i64 = 1_728_000;

#[test]
fn constructors_fill_the_tag_specific_fields() {
    let p = Actor::create_player();
    assert!(matches!(p.tag, ActorType::Player));
    assert_eq!(p.pos, Vec2 { x: 0, y: 0 });
    assert_eq!(p.life, 1);
    assert_eq!(p.bbox_size, 43_200); // 12 px
    assert_eq!(p.ang_vel, 0);

    let r = Actor::create_rock();
    assert!(matches!(r.tag, ActorType::Rock));
    assert_eq!(r.life, 1);
    assert_eq!(r.bbox_size, 43_200); // 12 px

    let s = Actor::create_shot();
    assert!(matches!(s.tag, ActorType::Shot));
    assert_eq!(s.life, 120); // 2 s of ticks
    assert_eq!(s.bbox_size, 21_600); // 6 px
    assert_eq!(s.ang_vel, 100_000); // 0.1 rad per tick
}

#[test]
fn wrap_leaves_the_exact_boundary_alone() {
    // the wrap condition is strict: x == W/2 stays
    let mut a = Actor::create_rock();
    a.pos = Vec2 { x: W / 2, y: -H / 2 };
    wrap_actor_position(&mut a, W, H);
    assert_eq!(a.pos, Vec2 { x: W / 2, y: -H / 2 });
}

#[test]
fn wrap_moves_one_screen_at_most() {
    let mut a = Actor::create_rock();
    a.pos = Vec2 { x: W / 2 + 3600, y: 0 }; // one pixel past the right edge
    wrap_actor_position(&mut a, W, H);
    assert_eq!(a.pos, Vec2 { x: 3600 - W / 2, y: 0 });

    a.pos = Vec2 { x: 0, y: -H / 2 - 7200 }; // two pixels past the bottom
    wrap_actor_position(&mut a, W, H);
    assert_eq!(a.pos, Vec2 { x: 0, y: H / 2 - 7200 });
}

#[test]
fn wrap_is_idempotent() {
    let samples: [(i64, i64); 5] = [
        (0, 0),
        (W / 2, -H / 2),
        (W / 2 + 1, H / 2 + 777),
        (-W / 2 - 3600, 0),
        (W, -H),
    ];
    for (x, y) in samples {
        let mut once = Actor::create_rock();
        once.pos = Vec2 { x, y };
        wrap_actor_position(&mut once, W, H);
        let mut twice = once;
        wrap_actor_position(&mut twice, W, H);
        assert_eq!(once.pos, twice.pos);
    }
}

#[test]
fn clamp_caps_the_speed_exactly() {
    let mut a = Actor::create_player();
    a.velocity = Vec2 { x: 0, y: 16_000 };
    clamp_actor_velocity(&mut a);
    assert_eq!(a.velocity, Vec2 { x: 0, y: 15_000 }); // exactly 250 px/s

    let mut b = Actor::create_player();
    b.velocity = Vec2 { x: -14_999, y: 0 };
    clamp_actor_velocity(&mut b);
    assert_eq!(b.velocity, Vec2 { x: -14_999, y: 0 }); // already under the cap

    let mut c = Actor::create_player();
    c.velocity = Vec2 { x: 30_000, y: 40_000 }; // norm 50 000
    clamp_actor_velocity(&mut c);
    assert_eq!(c.velocity, Vec2 { x: 9_000, y: 12_000 }); // norm exactly 15 000
}

#[test]
fn integration_moves_by_the_clamped_velocity() {
    let mut a = Actor::create_rock();
    a.pos = Vec2 { x: 100, y: -200 };
    a.velocity = Vec2 { x: 3_000, y: -1_000 };
    update_actor_position(&mut a);
    assert_eq!(a.pos, Vec2 { x: 3_100, y: -1_200 });
    assert_eq!(a.facing, 0);
}

#[test]
fn shot_spin_is_applied_once_per_tick() {
    let mut s = Actor::create_shot();
    update_actor_position(&mut s);
    assert_eq!(s.facing, 100_000); // 0.1 rad
    update_actor_position(&mut s);
    assert_eq!(s.facing, 200_000);
}

#[test]
fn timed_life_counts_ticks_down() {
    let mut s = Actor::create_shot();
    handle_timed_life(&mut s);
    assert_eq!(s.life, 119);
}

#[test]
fn input_turns_and_thrusts() {
    let mut p = Actor::create_player();
    let input = InputState { xaxis: 1, yaxis: 0, fire: false };
    player_handle_input(&mut p, &input, Vec2 { x: 0, y: 100 });
    assert_eq!(p.facing, 50_000); // 3 rad/s over one tick
    assert_eq!(p.velocity, Vec2 { x: 0, y: 0 }); // no thrust without the axis

    let input = InputState { xaxis: -1, yaxis: 1, fire: false };
    player_handle_input(&mut p, &input, Vec2 { x: 0, y: 100 });
    assert_eq!(p.facing, 0); // turned back
    assert_eq!(p.velocity, Vec2 { x: 0, y: 100 }); // one tick of thrust
}

#[test]
fn facing_stays_normalised() {
    let mut p = Actor::create_player();
    let input = InputState { xaxis: -1, yaxis: 0, fire: false };
    player_handle_input(&mut p, &input, Vec2 { x: 0, y: 0 });
    // one step left from 0 wraps just under a full turn (2 pi = 6 283 185 urad)
    assert_eq!(p.facing, 6_283_185 - 50_000);
}

#[test]
fn default_input_is_neutral() {
    let input = InputState::default();
    assert_eq!(input.xaxis, 0);
    assert_eq!(input.yaxis, 0);
    assert!(!input.fire);
}
