use astroblasto_multiplayer::MainState;
use astroblasto_multiplayer::actor::Actor;
use astroblasto_multiplayer::geometry::Vec2;
use astroblasto_multiplayer::input::InputState;
use astroblasto_multiplayer::input::KeyAction;
use astroblasto_multiplayer::input::KeyCode;
use astroblasto_multiplayer::spawn::RockSpawn;
use astroblasto_multiplayer::world::State;

// Screen of 640 x 480 pixels, in units of 1/3600 pixel.
const W: i64 = 2_304_000;
const H: i64 = 1_728_000;

/// A batch of valid placements: offsets inside the [100 px, 250 px)
/// annulus, drifts within the rock speed cap.
fn seeds(n: usize) -> Vec<RockSpawn> {
    (0..n)
        .map(|i| RockSpawn {
            offset: if i % 2 == 0 {
                Vec2 { x: 400_000 + (i as i64) * 1000, y: 0 }
            } else {
                Vec2 { x: 0, y: -500_000 }
            },
            velocity: Vec2 { x: 0, y: 0 },
        })
        .collect()
}

fn no_thrust() -> Vec2 {
    Vec2 { x: 0, y: 0 }
}

/// The shot velocity boost for facing 0 (straight up): 200 px/s times
/// (sin 0, cos 0).
fn shot_up() -> Vec2 {
    Vec2 { x: 0, y: 12_000 }
}

/// A playing world with no rocks or shots, ready to be shaped by a test.
fn playing_state() -> MainState {
    let mut s = MainState::new(W, H, &seeds(11));
    s.state = State::Playing;
    s.rocks = Vec::new();
    s.shots = Vec::new();
    s
}

fn far_rock() -> Actor {
    let mut r = Actor::create_rock();
    r.pos = Vec2 { x: -800_000, y: -800_000 };
    r
}

#[test]
fn instructions_time_out_after_five_seconds() {
    let mut s = MainState::new(W, H, &seeds(11));
    assert!(matches!(s.state, State::Instructions));
    for _ in 0..301 {
        s.update(no_thrust(), shot_up(), &seeds(11));
    }
    assert!(matches!(s.state, State::Instructions));
    s.update(no_thrust(), shot_up(), &seeds(11));
    assert!(matches!(s.state, State::Playing));
}

#[test]
fn fire_skips_the_instructions() {
    let mut s = MainState::new(W, H, &seeds(11));
    s.key_down_event(KeyCode::Space);
    s.update(no_thrust(), shot_up(), &seeds(11));
    assert!(matches!(s.state, State::Playing));
    assert!(!s.input.fire); // the press was consumed by the transition
}

#[test]
fn death_screen_returns_to_play() {
    let mut s = playing_state();
    s.state = State::Dead;
    s.state_transition = 300;
    for _ in 0..301 {
        s.update(no_thrust(), shot_up(), &seeds(11));
    }
    assert!(matches!(s.state, State::Dead));
    s.update(no_thrust(), shot_up(), &seeds(11));
    assert!(matches!(s.state, State::Playing));
}

#[test]
fn no_shot_on_the_cooldown_boundary() {
    // the fire test is strict: the decremented cooldown must be below zero
    let mut s = playing_state();
    s.rocks.push(far_rock());
    s.input.fire = true;
    s.player_shot_timeout = 1; // decrements to 0; 0 < 0 is false
    let o = s.update(no_thrust(), shot_up(), &seeds(11));
    assert!(!o.fired);
    assert_eq!(s.shots.len(), 0);

    let o = s.update(no_thrust(), shot_up(), &seeds(11)); // now -1 < 0
    assert!(o.fired);
    assert_eq!(s.shots.len(), 1);
    assert_eq!(s.player_shot_timeout, 30); // 0.5 s of cooldown
}

#[test]
fn rock_on_the_collision_boundary_does_not_hit() {
    // the distance test is strict: player bbox + rock bbox exactly apart
    let mut s = playing_state();
    let mut rock = Actor::create_rock();
    rock.pos = Vec2 { x: 86_400, y: 0 }; // 43 200 + 43 200
    s.rocks.push(rock);
    s.handle_collisions();
    assert_eq!(s.player.life, 1);

    let mut rock_closer = Actor::create_rock();
    rock_closer.pos = Vec2 { x: 86_399, y: 0 };
    s.rocks.push(rock_closer);
    s.handle_collisions();
    assert_eq!(s.player.life, 0);
}

#[test]
fn head_on_shot_destroys_the_rock_and_scores() {
    let mut s = playing_state();
    let mut rock = Actor::create_rock();
    rock.pos = Vec2 { x: 0, y: 540_000 }; // 150 px straight ahead
    s.rocks.push(rock);
    s.input.fire = true;
    s.player_shot_timeout = 0;

    let o = s.update(no_thrust(), shot_up(), &seeds(11));
    assert!(o.fired);
    s.input.fire = false; // release the trigger after one shot

    let mut hit_tick = 0;
    for tick in 2..60 {
        let o = s.update(no_thrust(), shot_up(), &seeds(11));
        if o.hits > 0 {
            // the hit sound is placed on the struck rock
            assert_eq!(o.hit_pos, Vec2 { x: 0, y: 540_000 });
            hit_tick = tick;
            break;
        }
    }
    // the shot flies 200 px/s plus nothing; it covers the gap well within a second
    assert_eq!(hit_tick, 40);
    assert_eq!(s.score, 1);
    assert_eq!(s.shots.len(), 0); // the shot died with the rock
    // the field was cleared, so the next level spawned level + 5 rocks
    assert_eq!(s.level, 1);
    assert_eq!(s.rocks.len(), 6);
    assert_eq!(s.player.life, 1);
}

#[test]
fn level_respawn_after_prune() {
    let mut s = playing_state();
    s.level = 3;
    let mut dead_rock = Actor::create_rock();
    dead_rock.life = 0;
    s.rocks.push(dead_rock);

    s.clear_dead_stuff();
    assert_eq!(s.rocks.len(), 0);

    let batch = seeds(11);
    s.check_for_level_respawn(&batch);
    assert_eq!(s.level, 4);
    assert_eq!(s.rocks.len(), 9); // level + 5
    for (i, rock) in s.rocks.iter().enumerate() {
        let dx = rock.pos.x - s.player.pos.x;
        let dy = rock.pos.y - s.player.pos.y;
        let d2 = dx * dx + dy * dy;
        // inside the [100 px, 250 px) annulus around the player
        assert!(d2 >= 360_000i64 * 360_000);
        assert!(d2 < 900_000i64 * 900_000);
        assert_eq!(rock.pos.x - s.player.pos.x, batch[i].offset.x);
        assert_eq!(rock.pos.y - s.player.pos.y, batch[i].offset.y);
    }
}

#[test]
fn thrust_holds_the_speed_at_the_cap_exactly() {
    let mut s = playing_state();
    s.rocks.push(far_rock());
    s.input.yaxis = 1; // thrust held, facing straight up
    for _ in 0..600 {
        // 10 s of thrust: 100 px/s^2 along (sin 0, cos 0)
        s.update(Vec2 { x: 0, y: 100 }, shot_up(), &seeds(11));
    }
    assert_eq!(s.player.velocity, Vec2 { x: 0, y: 15_000 }); // exactly 250 px/s
    assert_eq!(s.player.life, 1);
}

#[test]
fn wrap_after_one_step_past_the_edge() {
    let mut s = playing_state();
    s.rocks.push(far_rock());
    s.player.pos = Vec2 { x: W / 2 + 3600, y: 0 }; // one pixel beyond the edge
    let o = s.update(no_thrust(), shot_up(), &seeds(11));
    assert!(!o.died);
    assert_eq!(s.player.pos, Vec2 { x: 3600 - W / 2, y: 0 });
}

#[test]
fn score_and_level_never_decrease_while_alive() {
    let mut s = playing_state();
    let mut rock = Actor::create_rock();
    rock.pos = Vec2 { x: 0, y: 540_000 };
    s.rocks.push(rock);
    s.input.fire = true;
    let mut last_score = s.score;
    let mut last_level = s.level;
    for _ in 0..120 {
        let o = s.update(no_thrust(), shot_up(), &seeds(11));
        if o.died {
            break;
        }
        assert!(s.score >= last_score);
        assert!(s.level >= last_level);
        last_score = s.score;
        last_level = s.level;
    }
}

#[test]
fn player_death_resets_the_world() {
    let mut s = playing_state();
    s.score = 7;
    s.level = 2;
    let mut rock = Actor::create_rock();
    rock.pos = Vec2 { x: 10_000, y: 0 }; // overlapping the player
    s.rocks.push(rock);
    let o = s.update(no_thrust(), shot_up(), &seeds(11));
    assert!(o.died);
    assert!(matches!(s.state, State::Dead));
    assert_eq!(s.state_transition, 300);
    assert_eq!(s.score, 0);
    assert_eq!(s.level, 0);
    assert_eq!(s.player.life, 1);
    assert_eq!(s.shots.len(), 0);
    assert_eq!(s.rocks.len(), 5);
}

#[test]
fn reset_state_rebuilds_the_run() {
    let mut s = MainState::new(W, H, &seeds(11));
    s.score = 42;
    s.level = 9;
    s.player_shot_timeout = 17;
    s.reset_state(&seeds(11));
    assert_eq!(s.score, 0);
    assert_eq!(s.level, 0);
    assert_eq!(s.player_shot_timeout, 0);
    assert_eq!(s.rocks.len(), 5);
    assert_eq!(s.shots.len(), 0);
    assert!(matches!(s.state, State::Instructions)); // the mode is left alone
}

#[test]
fn key_events_drive_the_input_snapshot() {
    let mut s = MainState::new(W, H, &seeds(11));
    assert!(matches!(s.key_down_event(KeyCode::Up), KeyAction::Ignore));
    assert_eq!(s.input.yaxis, 1);
    assert!(matches!(s.key_down_event(KeyCode::Left), KeyAction::Ignore));
    assert_eq!(s.input.xaxis, -1);
    s.key_down_event(KeyCode::Right);
    assert_eq!(s.input.xaxis, 1);
    s.key_down_event(KeyCode::Space);
    assert!(s.input.fire);
    assert!(matches!(s.key_down_event(KeyCode::P), KeyAction::Screenshot));
    assert!(matches!(s.key_down_event(KeyCode::Escape), KeyAction::Quit));
    assert!(matches!(s.key_down_event(KeyCode::Q), KeyAction::Ignore));

    assert!(matches!(s.key_up_event(KeyCode::Up), KeyAction::Ignore));
    assert_eq!(s.input.yaxis, 0);
    s.key_up_event(KeyCode::Right);
    assert_eq!(s.input.xaxis, 0);
    s.key_up_event(KeyCode::Space);
    assert!(!s.input.fire);
    assert!(matches!(s.key_up_event(KeyCode::Q), KeyAction::Quit));
    assert_eq!(s.input, InputState { xaxis: 0, yaxis: 0, fire: false });
}

#[test]
fn new_world_matches_the_spec() {
    let batch = seeds(11);
    let s = MainState::new(W, H, &batch);
    assert_eq!(s.level, 0);
    assert_eq!(s.score, 0);
    assert_eq!(s.player_shot_timeout, 0);
    assert_eq!(s.state_transition, 300); // 5 s of instructions
    assert_eq!(s.rocks.len(), 5);
    assert_eq!(s.shots.len(), 0);
    assert_eq!(s.player.pos, Vec2 { x: 0, y: 0 });
    assert_eq!(s.rocks[0].pos.x, batch[0].offset.x);
}
