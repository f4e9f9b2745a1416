//! The game world and its fixed-step update: the player, shots and rocks,
//! score and level, the input snapshot, and the Instructions → Playing →
//! Dead state machine.
//!
//! Contracts are stated over `WorldModel`, the mathematical view of the
//! world, through spec transition functions; `MainState::update` advances
//! exactly one tick and is pinned to `spec_update`.

use vstd::prelude::*;

use crate::actor::Actor;
use crate::actor::ActorType;
use crate::actor::PLAYER_BBOX;
use crate::actor::PLAYER_LIFE;
use crate::actor::ROCK_BBOX;
use crate::actor::ROCK_LIFE;
use crate::actor::SHOT_ANG_VEL;
use crate::actor::SHOT_BBOX;
use crate::actor::SHOT_LIFE;
use crate::geometry::TAU_URAD;
use crate::geometry::Vec2;
use crate::geometry::norm_angle;
use crate::geometry::wrap1;
use crate::input::InputState;
use crate::input::KeyAction;
use crate::input::KeyCode;
use crate::physics::MAX_PHYSICS_VEL;
use crate::physics::PLAYER_SHOT_TIME;
use crate::physics::PLAYER_THRUST;
use crate::physics::PLAYER_TURN_RATE;
use crate::physics::SHOT_SPEED;
use crate::physics::VEL_LIMIT;
use crate::physics::clamped_vel;
use crate::physics::handle_timed_life;
use crate::physics::lemma_norm_sq_component_bound;
use crate::physics::player_handle_input;
use crate::physics::update_actor_position;
use crate::physics::wrap_actor_position;
use crate::spawn::RockSpawn;
use crate::spawn::create_rocks;
use crate::spawn::rock_from_spawn;
use crate::spawn::valid_spawn;

verus! {

/// Ticks of the instructions and death screens (5 s).
pub const STATE_TRANSITION_TIME: i64 = 300;

/// Rocks at level start, before the level bonus.
pub const LEVEL_ROCK_BASE: u32 = 5;

/// Inner spawn radius around the player: 100 pixels.
pub const SPAWN_MIN_RADIUS: i64 = 360_000;

/// Outer spawn radius around the player: 250 pixels.
pub const SPAWN_MAX_RADIUS: i64 = 900_000;

/// Smallest screen dimension the wrap supports (about 417 pixels).
pub const MIN_SCREEN: i64 = 1_500_000;

/// Largest screen dimension the collision arithmetic supports.
pub const MAX_SCREEN: i64 = 1_000_000_000;

/// The game-mode state machine.
#[derive(Clone, Copy, Debug, PartialEq, Eq, Structural)]
pub enum State {
    Instructions,
    Playing,
    Dead,
}

/// What one tick did, for the caller's sound and shutdown hooks: whether a
/// shot was fired, how many shot/rock hits landed, where the last hit rock
/// stood (for the hit sound's position; the origin when nothing was hit),
/// and whether the player died (and the world was reset).
#[derive(Clone, Copy, Debug, PartialEq, Eq, Structural)]
pub struct TickOutcome {
    pub fired: bool,
    pub hits: u32,
    pub hit_pos: Vec2,
    pub died: bool,
}

/// The global game state.
pub struct MainState {
    pub player: Actor,
    pub shots: Vec<Actor>,
    pub rocks: Vec<Actor>,
    pub level: u32,
    pub score: u32,
    pub screen_width: i64,
    pub screen_height: i64,
    pub input: InputState,
    pub player_shot_timeout: i64,
    pub state: State,
    pub state_transition: i64,
}

/// The mathematical view of the world.
pub struct WorldModel {
    pub player: Actor,
    pub shots: Seq<Actor>,
    pub rocks: Seq<Actor>,
    pub level: u32,
    pub score: u32,
    pub screen_width: i64,
    pub screen_height: i64,
    pub input: InputState,
    pub player_shot_timeout: i64,
    pub state: State,
    pub state_transition: i64,
}

impl View for MainState {
    type V = WorldModel;

    open spec fn view(&self) -> WorldModel {
        WorldModel {
            player: self.player,
            shots: self.shots@,
            rocks: self.rocks@,
            level: self.level,
            score: self.score,
            screen_width: self.screen_width,
            screen_height: self.screen_height,
            input: self.input,
            player_shot_timeout: self.player_shot_timeout,
            state: self.state,
            state_transition: self.state_transition,
        }
    }
}

/// `x` clamped into the `u32` range: scores and levels never overflow,
/// they stop at the cap.
pub open spec fn sat_u32(x: int) -> u32 {
    if x > u32::MAX {
        u32::MAX as u32
    } else if x < 0 {
        0u32
    } else {
        x as u32
    }
}

/// Two actors collide when their centres are strictly closer than the sum
/// of their bounding radii (compared on squares, which is equivalent).
pub open spec fn actors_collide(a: Actor, b: Actor) -> bool {
    let dx = a.pos.x - b.pos.x;
    let dy = a.pos.y - b.pos.y;
    dx * dx + dy * dy < (a.bbox_size + b.bbox_size) * (a.bbox_size + b.bbox_size)
}

/// Whether `a` collides with any actor of `others`.
pub open spec fn hit_by_any(a: Actor, others: Seq<Actor>) -> bool {
    exists|j: int| 0 <= j < others.len() && actors_collide(a, #[trigger] others[j])
}

/// How many shots of `shots` collide with `rock`.
pub open spec fn hits_against(shots: Seq<Actor>, rock: Actor) -> nat
    decreases shots.len(),
{
    if shots.len() == 0 {
        0
    } else {
        hits_against(shots.drop_last(), rock) + if actors_collide(shots.last(), rock) {
            1nat
        } else {
            0nat
        }
    }
}

/// How many shot/rock pairs collide.
pub open spec fn hit_pairs(shots: Seq<Actor>, rocks: Seq<Actor>) -> nat
    decreases rocks.len(),
{
    if rocks.len() == 0 {
        0
    } else {
        hit_pairs(shots, rocks.drop_last()) + hits_against(shots, rocks.last())
    }
}

/// Where the hit sound plays: the position of the hit rock the collision
/// loop visits last, or the origin when no shot hit a rock.
pub open spec fn last_hit_pos(shots: Seq<Actor>, rocks: Seq<Actor>) -> Vec2
    decreases rocks.len(),
{
    if rocks.len() == 0 {
        Vec2 { x: 0, y: 0 }
    } else if hits_against(shots, rocks.last()) > 0 {
        rocks.last().pos
    } else {
        last_hit_pos(shots, rocks.drop_last())
    }
}

/// An actor with its life zeroed when it collides with any of `others`.
pub open spec fn after_collisions(a: Actor, others: Seq<Actor>) -> Actor {
    Actor { life: if hit_by_any(a, others) { 0 } else { a.life }, ..a }
}

/// Every actor of `s` with its life zeroed where it collides with any of
/// `others`.
pub open spec fn seq_after_collisions(s: Seq<Actor>, others: Seq<Actor>) -> Seq<Actor> {
    s.map_values(|a: Actor| after_collisions(a, others))
}

impl MainState {
    /// Position bound every actor keeps: on screen, with the slack the
    /// spawner may add until the next wrap.
    pub open spec fn pos_ok(self, a: Actor) -> bool {
        &&& -(self.screen_width / 2) - SPAWN_MAX_RADIUS <= a.pos.x <= self.screen_width / 2
            + SPAWN_MAX_RADIUS
        &&& -(self.screen_height / 2) - SPAWN_MAX_RADIUS <= a.pos.y <= self.screen_height / 2
            + SPAWN_MAX_RADIUS
    }

    /// The screen dimensions the physics supports: even (so the wrap
    /// bounds are exact) and within the arithmetic guards.
    pub open spec fn screen_ok(self) -> bool {
        &&& MIN_SCREEN <= self.screen_width <= MAX_SCREEN
        &&& MIN_SCREEN <= self.screen_height <= MAX_SCREEN
        &&& self.screen_width % 2 == 0
        &&& self.screen_height % 2 == 0
    }

    /// What collision resolution needs: bounded positions and radii for
    /// every actor, so the squared distances fit the machine integers.
    /// Lives may be anything; mid-tick states satisfy this.
    pub open spec fn collision_pre(self) -> bool {
        &&& self.screen_ok()
        &&& self.pos_ok(self.player)
        &&& 0 <= self.player.bbox_size <= 100_000
        &&& forall|i: int|
            0 <= i < self.shots@.len() ==> self.pos_ok(#[trigger] self.shots@[i]) && 0
                <= self.shots@[i].bbox_size <= 100_000
        &&& forall|i: int|
            0 <= i < self.rocks@.len() ==> self.pos_ok(#[trigger] self.rocks@[i]) && 0
                <= self.rocks@[i].bbox_size <= 100_000
    }

    /// Well-formedness of the whole world; every constructor establishes
    /// it and every tick preserves it.
    pub open spec fn wf(self) -> bool {
        &&& self.screen_ok()
        &&& self.input.wf()
        &&& self.player.wf()
        &&& self.pos_ok(self.player)
        &&& self.player.tag is Player
        &&& 0 <= self.player.life <= PLAYER_LIFE
        &&& self.player.bbox_size == PLAYER_BBOX
        &&& forall|i: int|
            0 <= i < self.shots@.len() ==> {
                let s = #[trigger] self.shots@[i];
                &&& s.wf()
                &&& self.pos_ok(s)
                &&& s.tag is Shot
                &&& 0 <= s.life <= SHOT_LIFE
                &&& s.bbox_size == SHOT_BBOX
            }
        &&& forall|i: int|
            0 <= i < self.rocks@.len() ==> {
                let r = #[trigger] self.rocks@[i];
                &&& r.wf()
                &&& self.pos_ok(r)
                &&& r.tag is Rock
                &&& 0 <= r.life <= ROCK_LIFE
                &&& r.bbox_size == ROCK_BBOX
            }
        &&& -1 <= self.player_shot_timeout <= PLAYER_SHOT_TIME
        &&& -1 <= self.state_transition <= STATE_TRANSITION_TIME
    }

    /// A spawn batch big enough and entirely inside the annulus, for this
    /// tick's possible level respawn and death reset.
    pub open spec fn spawn_ok(self, seeds: Seq<RockSpawn>) -> bool {
        &&& seeds.len() >= self.level + 6
        &&& forall|i: int|
            0 <= i < seeds.len() ==> valid_spawn(
                #[trigger] seeds[i],
                SPAWN_MIN_RADIUS as int,
                SPAWN_MAX_RADIUS as int,
            )
    }

    /// Build the world: the player at the centre, the initial five rocks
    /// around it, and the instructions screen counting down.
    pub fn new(screen_width: i64, screen_height: i64, seeds: &Vec<RockSpawn>) -> (s: MainState)
        requires
            MIN_SCREEN <= screen_width <= MAX_SCREEN,
            MIN_SCREEN <= screen_height <= MAX_SCREEN,
            screen_width % 2 == 0,
            screen_height % 2 == 0,
            seeds@.len() >= 5,
            forall|i: int|
                0 <= i < seeds@.len() ==> valid_spawn(
                    #[trigger] seeds@[i],
                    SPAWN_MIN_RADIUS as int,
                    SPAWN_MAX_RADIUS as int,
                ),
        ensures
            s.wf(),
            s.player == Actor::spec_player_new(),
            s.shots@ =~= Seq::<Actor>::empty(),
            s.rocks@.len() == 5,
            forall|i: int|
                0 <= i < 5 ==> #[trigger] s.rocks@[i] == rock_from_spawn(
                    seeds@[i],
                    Vec2 { x: 0, y: 0 },
                ),
            s.level == 0,
            s.score == 0,
            s.screen_width == screen_width,
            s.screen_height == screen_height,
            s.input == InputState::spec_neutral(),
            s.player_shot_timeout == 0,
            s.state is Instructions,
            s.state_transition == STATE_TRANSITION_TIME,
    {
        let player = Actor::create_player();
        let rocks = create_rocks(5, player.pos, SPAWN_MIN_RADIUS, SPAWN_MAX_RADIUS, seeds);
        let s = MainState {
            player,
            shots: Vec::new(),
            rocks,
            level: 0,
            score: 0,
            screen_width,
            screen_height,
            input: InputState::default(),
            player_shot_timeout: 0,
            state_transition: STATE_TRANSITION_TIME,
            state: State::Instructions,
        };
        proof {
            lemma_spawned_rocks_wf(s, seeds@, 5, Vec2 { x: 0, y: 0 });
        }
        s
    }

    /// Put the world back to a fresh run: new player, no shots, five rocks,
    /// level and score zeroed, shot cooldown cleared. The game mode and its
    /// countdown are left alone.
    pub fn reset_state(&mut self, seeds: &Vec<RockSpawn>)
        requires
            old(self).screen_ok(),
            seeds@.len() >= 5,
            forall|i: int|
                0 <= i < seeds@.len() ==> valid_spawn(
                    #[trigger] seeds@[i],
                    SPAWN_MIN_RADIUS as int,
                    SPAWN_MAX_RADIUS as int,
                ),
        ensures
            final(self)@ =~~= spec_reset(old(self)@, seeds@),
    {
        let player = Actor::create_player();
        let rocks = create_rocks(5, player.pos, SPAWN_MIN_RADIUS, SPAWN_MAX_RADIUS, seeds);
        self.player = player;
        self.shots = Vec::new();
        self.rocks = rocks;
        self.level = 0;
        self.score = 0;
        self.player_shot_timeout = 0;
        proof {
            assert(self.rocks@ =~= Seq::new(5, |i: int| rock_from_spawn(seeds@[i], Vec2 { x: 0, y: 0 })));
        }
    }

    /// Start the shot cooldown and spawn a shot at the player, spinning,
    /// with the player's velocity plus the shot speed along the player's
    /// facing.
    ///
    /// `shot_vel` is that added velocity — `SHOT_SPEED` times the unit
    /// vector of the facing, which the caller computes.
    pub fn fire_player_shot(&mut self, shot_vel: Vec2)
        requires
            -SHOT_SPEED <= shot_vel.x <= SHOT_SPEED,
            -SHOT_SPEED <= shot_vel.y <= SHOT_SPEED,
            -100_000 <= old(self).player.velocity.x <= 100_000,
            -100_000 <= old(self).player.velocity.y <= 100_000,
        ensures
            final(self)@ =~~= (WorldModel {
                player_shot_timeout: PLAYER_SHOT_TIME,
                shots: old(self)@.shots.push(spec_new_shot(old(self).player, shot_vel)),
                ..old(self)@
            }),
    {
        self.player_shot_timeout = PLAYER_SHOT_TIME;
        let mut shot = Actor::create_shot();
        shot.pos = self.player.pos;
        shot.facing = self.player.facing;
        shot.velocity = Vec2 {
            x: self.player.velocity.x + shot_vel.x,
            y: self.player.velocity.y + shot_vel.y,
        };
        self.shots.push(shot);
    }

    /// Drop the shots and rocks whose life has run out.
    pub fn clear_dead_stuff(&mut self)
        ensures
            final(self)@ =~~= (WorldModel {
                shots: old(self)@.shots.filter(|a: Actor| a.life > 0),
                rocks: old(self)@.rocks.filter(|a: Actor| a.life > 0),
                ..old(self)@
            }),
    {
        retain_live(&mut self.shots);
        retain_live(&mut self.rocks);
    }

    /// When the field is clear, advance the level and spawn `level + 5`
    /// rocks around the player.
    pub fn check_for_level_respawn(&mut self, seeds: &Vec<RockSpawn>)
        requires
            old(self).screen_ok(),
            old(self).pos_ok(old(self).player),
            old(self).spawn_ok(seeds@),
        ensures
            final(self)@ =~~= spec_level_respawn(old(self)@, seeds@),
    {
        if self.rocks.len() == 0 {
            if self.level < u32::MAX {
                self.level = self.level + 1;
            }
            let count_u32: u32 = if self.level <= u32::MAX - LEVEL_ROCK_BASE {
                self.level + LEVEL_ROCK_BASE
            } else {
                u32::MAX
            };
            let count: usize = count_u32 as usize;
            let rocks = create_rocks(
                count,
                self.player.pos,
                SPAWN_MIN_RADIUS,
                SPAWN_MAX_RADIUS,
                seeds,
            );
            self.rocks = rocks;
            proof {
                assert(self.rocks@ =~= Seq::new(
                    count as nat,
                    |i: int| rock_from_spawn(seeds@[i], self.player.pos),
                ));
            }
        }
    }

    /// Map a pressed key to the input snapshot, per the keyboard map;
    /// screenshot and quit requests are returned for the caller to act on.
    pub fn key_down_event(&mut self, keycode: KeyCode) -> (action: KeyAction)
        ensures
            final(self).input == (match keycode {
                KeyCode::Up => (InputState { yaxis: 1, ..old(self).input }),
                KeyCode::Left => (InputState { xaxis: -1i8, ..old(self).input }),
                KeyCode::Right => (InputState { xaxis: 1, ..old(self).input }),
                KeyCode::Space => (InputState { fire: true, ..old(self).input }),
                _ => old(self).input,
            }),
            action == (match keycode {
                KeyCode::P => KeyAction::Screenshot,
                KeyCode::Escape => KeyAction::Quit,
                _ => KeyAction::Ignore,
            }),
            *final(self) == (MainState { input: final(self).input, ..*old(self) }),
    {
        match keycode {
            KeyCode::Up => {
                self.input.yaxis = 1;
                KeyAction::Ignore
            },
            KeyCode::Left => {
                self.input.xaxis = -1;
                KeyAction::Ignore
            },
            KeyCode::Right => {
                self.input.xaxis = 1;
                KeyAction::Ignore
            },
            KeyCode::Space => {
                self.input.fire = true;
                KeyAction::Ignore
            },
            KeyCode::P => KeyAction::Screenshot,
            KeyCode::Escape => KeyAction::Quit,
            _ => KeyAction::Ignore,
        }
    }

    /// Map a released key to the input snapshot; a released Q quits.
    pub fn key_up_event(&mut self, keycode: KeyCode) -> (action: KeyAction)
        ensures
            final(self).input == (match keycode {
                KeyCode::Up => (InputState { yaxis: 0, ..old(self).input }),
                KeyCode::Left => (InputState { xaxis: 0, ..old(self).input }),
                KeyCode::Right => (InputState { xaxis: 0, ..old(self).input }),
                KeyCode::Space => (InputState { fire: false, ..old(self).input }),
                _ => old(self).input,
            }),
            action == (match keycode {
                KeyCode::Q => KeyAction::Quit,
                _ => KeyAction::Ignore,
            }),
            *final(self) == (MainState { input: final(self).input, ..*old(self) }),
    {
        match keycode {
            KeyCode::Up => {
                self.input.yaxis = 0;
                KeyAction::Ignore
            },
            KeyCode::Left => {
                self.input.xaxis = 0;
                KeyAction::Ignore
            },
            KeyCode::Right => {
                self.input.xaxis = 0;
                KeyAction::Ignore
            },
            KeyCode::Space => {
                self.input.fire = false;
                KeyAction::Ignore
            },
            KeyCode::Q => KeyAction::Quit,
            _ => KeyAction::Ignore,
        }
    }
}

/// The shot fired by `player` with added velocity `shot_vel`.
pub open spec fn spec_new_shot(player: Actor, shot_vel: Vec2) -> Actor {
    Actor {
        tag: ActorType::Shot,
        pos: player.pos,
        facing: player.facing,
        velocity: Vec2 {
            x: (player.velocity.x + shot_vel.x) as i64,
            y: (player.velocity.y + shot_vel.y) as i64,
        },
        ang_vel: SHOT_ANG_VEL,
        bbox_size: SHOT_BBOX,
        life: SHOT_LIFE,
    }
}

/// The model after a reset: fresh player, no shots, five fresh rocks,
/// counters zeroed; mode and countdown untouched.
pub open spec fn spec_reset(w: WorldModel, seeds: Seq<RockSpawn>) -> WorldModel {
    WorldModel {
        player: Actor::spec_player_new(),
        shots: Seq::empty(),
        rocks: Seq::new(5, |i: int| rock_from_spawn(seeds[i], Vec2 { x: 0, y: 0 })),
        level: 0,
        score: 0,
        player_shot_timeout: 0,
        ..w
    }
}

/// The model after the level-respawn check: unchanged while rocks remain,
/// else the next level's rocks appear around the player.
pub open spec fn spec_level_respawn(w: WorldModel, seeds: Seq<RockSpawn>) -> WorldModel {
    if w.rocks.len() > 0 {
        w
    } else {
        let level = sat_u32(w.level + 1);
        let count = sat_u32(level + LEVEL_ROCK_BASE);
        WorldModel {
            level,
            rocks: Seq::new(count as nat, |i: int| rock_from_spawn(seeds[i], w.player.pos)),
            ..w
        }
    }
}

/// Rocks spawned from a valid batch around an on-screen point satisfy the
/// per-rock part of `MainState::wf`.
proof fn lemma_spawned_rocks_wf(s: MainState, seeds: Seq<RockSpawn>, count: int, around: Vec2)
    requires
        s.screen_ok(),
        -(s.screen_width / 2) <= around.x <= s.screen_width / 2,
        -(s.screen_height / 2) <= around.y <= s.screen_height / 2,
        0 <= count <= seeds.len(),
        forall|i: int|
            0 <= i < seeds.len() ==> valid_spawn(
                #[trigger] seeds[i],
                SPAWN_MIN_RADIUS as int,
                SPAWN_MAX_RADIUS as int,
            ),
        s.rocks@.len() == count,
        forall|i: int| 0 <= i < count ==> #[trigger] s.rocks@[i] == rock_from_spawn(seeds[i], around),
    ensures
        forall|i: int|
            0 <= i < s.rocks@.len() ==> {
                let r = #[trigger] s.rocks@[i];
                &&& r.wf()
                &&& s.pos_ok(r)
                &&& r.tag is Rock
                &&& 0 <= r.life <= ROCK_LIFE
                &&& r.bbox_size == ROCK_BBOX
            },
{
    assert forall|i: int| 0 <= i < s.rocks@.len() implies {
        let r = #[trigger] s.rocks@[i];
        &&& r.wf()
        &&& s.pos_ok(r)
        &&& r.tag is Rock
        &&& 0 <= r.life <= ROCK_LIFE
        &&& r.bbox_size == ROCK_BBOX
    } by {
        let r = s.rocks@[i];
        let sp = seeds[i];
        assert(r == rock_from_spawn(sp, around));
        assert(sp.velocity.norm_sq() <= MAX_PHYSICS_VEL * MAX_PHYSICS_VEL);
    }
}

/// The model after collision resolution: the player's life is zeroed when
/// a rock overlaps it, a shot's when it overlaps any rock, a rock's when
/// any shot overlaps it, and the score grows by the number of overlapping
/// shot/rock pairs. Positions never change here, so all tests are against
/// the pre-collision state.
pub open spec fn spec_collisions(w: WorldModel) -> WorldModel {
    WorldModel {
        player: after_collisions(w.player, w.rocks),
        shots: seq_after_collisions(w.shots, w.rocks),
        rocks: seq_after_collisions(w.rocks, w.shots),
        score: sat_u32(w.score + hit_pairs(w.shots, w.rocks)),
        ..w
    }
}

/// Overlap does not depend on the order of the two actors.
proof fn lemma_collide_symm(a: Actor, b: Actor)
    ensures
        actors_collide(a, b) == actors_collide(b, a),
{
    assert((a.pos.x - b.pos.x) * (a.pos.x - b.pos.x) == (b.pos.x - a.pos.x) * (b.pos.x - a.pos.x))
        by (nonlinear_arith);
    assert((a.pos.y - b.pos.y) * (a.pos.y - b.pos.y) == (b.pos.y - a.pos.y) * (b.pos.y - a.pos.y))
        by (nonlinear_arith);
}

/// Extending the field by one actor adds exactly the collision with it.
proof fn lemma_hit_by_any_push(a: Actor, s: Seq<Actor>, r: Actor)
    ensures
        hit_by_any(a, s.push(r)) == (hit_by_any(a, s) || actors_collide(a, r)),
{
    let p = s.push(r);
    assert(p[s.len() as int] == r);
    assert(forall|j: int| 0 <= j < s.len() ==> #[trigger] p[j] == s[j]);
    if hit_by_any(a, p) {
        let j = choose|j: int| 0 <= j < p.len() && actors_collide(a, #[trigger] p[j]);
        if j < s.len() {
            assert(actors_collide(a, s[j]));
        }
    }
    if hit_by_any(a, s) {
        let j = choose|j: int| 0 <= j < s.len() && actors_collide(a, #[trigger] s[j]);
        assert(actors_collide(a, p[j]));
    }
    if actors_collide(a, r) {
        assert(actors_collide(a, p[s.len() as int]));
    }
}

/// Whether two actors overlap, on machine integers.
fn actors_collide_exec(a: &Actor, b: &Actor) -> (c: bool)
    requires
        -600_000_000 <= a.pos.x <= 600_000_000,
        -600_000_000 <= a.pos.y <= 600_000_000,
        -600_000_000 <= b.pos.x <= 600_000_000,
        -600_000_000 <= b.pos.y <= 600_000_000,
        0 <= a.bbox_size <= 100_000,
        0 <= b.bbox_size <= 100_000,
    ensures
        c == actors_collide(*a, *b),
{
    let dx: i64 = a.pos.x - b.pos.x;
    let dy: i64 = a.pos.y - b.pos.y;
    proof {
        assert(dx * dx + dy * dy <= 4_000_000_000_000_000_000 && dx * dx >= 0 && dy * dy >= 0)
            by (nonlinear_arith)
            requires
                -1_200_000_000 <= dx <= 1_200_000_000,
                -1_200_000_000 <= dy <= 1_200_000_000,
        ;
    }
    let d2: i64 = dx * dx + dy * dy;
    let rr: i64 = a.bbox_size + b.bbox_size;
    proof {
        assert(rr * rr <= 200_000i64 * 200_000i64) by (nonlinear_arith)
            requires
                0 <= rr <= 200_000,
        ;
    }
    let r2: i64 = rr * rr;
    d2 < r2
}

impl MainState {
    /// Resolve all collisions of this tick: rocks against the player and
    /// shots against rocks, counting a point per overlapping shot/rock
    /// pair. Returns the number of hits and the position of the last hit
    /// rock, for the caller's hit sound.
    ///
    /// A rock already destroyed by an earlier shot still destroys later
    /// shots that overlap it this tick, exactly as the double loop visits
    /// every pair.
    #[verifier::loop_isolation(false)]
    pub fn handle_collisions(&mut self) -> (r: (u32, Vec2))
        requires
            old(self).collision_pre(),
        ensures
            final(self)@ =~~= spec_collisions(old(self)@),
            r.0 == sat_u32(hit_pairs(old(self)@.shots, old(self)@.rocks) as int),
            r.1 == last_hit_pos(old(self)@.shots, old(self)@.rocks),
    {
        let ghost w0 = self@;
        let nr: usize = self.rocks.len();
        let ns: usize = self.shots.len();
        let mut hits: u32 = 0;
        let mut hit_pos: Vec2 = Vec2 { x: 0, y: 0 };
        proof {
            assert(w0.rocks.take(0) =~= Seq::<Actor>::empty());
        }
        let mut j: usize = 0;
        while j < nr
            invariant
                j <= nr,
                self.rocks@.len() == nr,
                self.shots@.len() == ns,
                self.player == after_collisions(w0.player, w0.rocks.take(j as int)),
                forall|t: int|
                    0 <= t < ns ==> #[trigger] self.shots@[t] == after_collisions(
                        w0.shots[t],
                        w0.rocks.take(j as int),
                    ),
                forall|t: int|
                    0 <= t < j ==> #[trigger] self.rocks@[t] == after_collisions(
                        w0.rocks[t],
                        w0.shots,
                    ),
                forall|t: int| j <= t < nr ==> #[trigger] self.rocks@[t] == w0.rocks[t],
                self.score == sat_u32(w0.score + hit_pairs(w0.shots, w0.rocks.take(j as int))),
                hits == sat_u32(hit_pairs(w0.shots, w0.rocks.take(j as int)) as int),
                hit_pos == last_hit_pos(w0.shots, w0.rocks.take(j as int)),
                self.level == w0.level,
                self.screen_width == w0.screen_width,
                self.screen_height == w0.screen_height,
                self.input == w0.input,
                self.player_shot_timeout == w0.player_shot_timeout,
                self.state == w0.state,
                self.state_transition == w0.state_transition,
            decreases nr - j,
        {
            let rock_j: Actor = self.rocks[j];
            proof {
                assert(rock_j == w0.rocks[j as int]);
            }
            let hit_player: bool = actors_collide_exec(&self.player, &rock_j);
            proof {
                assert(actors_collide(self.player, rock_j) == actors_collide(
                    w0.player,
                    w0.rocks[j as int],
                ));
            }
            if hit_player {
                self.player.life = 0;
            }
            proof {
                assert(w0.rocks.take(j + 1) =~= w0.rocks.take(j as int).push(w0.rocks[j as int]));
                lemma_hit_by_any_push(w0.player, w0.rocks.take(j as int), w0.rocks[j as int]);
                assert(self.player == after_collisions(w0.player, w0.rocks.take(j + 1)));
            }
            let mut k: usize = 0;
            while k < ns
                invariant
                    k <= ns,
                    j < nr,
                    self.rocks@.len() == nr,
                    self.shots@.len() == ns,
                    self.player == after_collisions(w0.player, w0.rocks.take(j + 1)),
                    forall|t: int|
                        0 <= t < k ==> #[trigger] self.shots@[t] == after_collisions(
                            w0.shots[t],
                            w0.rocks.take(j + 1),
                        ),
                    forall|t: int|
                        k <= t < ns ==> #[trigger] self.shots@[t] == after_collisions(
                            w0.shots[t],
                            w0.rocks.take(j as int),
                        ),
                    forall|t: int|
                        0 <= t < j ==> #[trigger] self.rocks@[t] == after_collisions(
                            w0.rocks[t],
                            w0.shots,
                        ),
                    self.rocks@[j as int] == after_collisions(
                        w0.rocks[j as int],
                        w0.shots.take(k as int),
                    ),
                    forall|t: int| j < t < nr ==> #[trigger] self.rocks@[t] == w0.rocks[t],
                    self.score == sat_u32(
                        w0.score + hit_pairs(w0.shots, w0.rocks.take(j as int)) + hits_against(
                            w0.shots.take(k as int),
                            w0.rocks[j as int],
                        ),
                    ),
                    hits == sat_u32(
                        hit_pairs(w0.shots, w0.rocks.take(j as int)) + hits_against(
                            w0.shots.take(k as int),
                            w0.rocks[j as int],
                        ) as int,
                    ),
                    hit_pos == (if hits_against(w0.shots.take(k as int), w0.rocks[j as int]) > 0 {
                        w0.rocks[j as int].pos
                    } else {
                        last_hit_pos(w0.shots, w0.rocks.take(j as int))
                    }),
                    self.level == w0.level,
                    self.screen_width == w0.screen_width,
                    self.screen_height == w0.screen_height,
                    self.input == w0.input,
                    self.player_shot_timeout == w0.player_shot_timeout,
                    self.state == w0.state,
                    self.state_transition == w0.state_transition,
                decreases ns - k,
            {
                let shot_k: Actor = self.shots[k];
                proof {
                    assert(after_collisions(w0.shots[k as int], w0.rocks.take(j as int)).pos
                        == w0.shots[k as int].pos);
                }
                let hit: bool = actors_collide_exec(&shot_k, &self.rocks[j]);
                proof {
                    assert(actors_collide(shot_k, self.rocks@[j as int]) == actors_collide(
                        w0.shots[k as int],
                        w0.rocks[j as int],
                    ));
                }
                if hit {
                    let mut s: Actor = self.shots[k];
                    s.life = 0;
                    self.shots.set(k, s);
                    let mut r: Actor = self.rocks[j];
                    r.life = 0;
                    self.rocks.set(j, r);
                    hit_pos = rock_j.pos;
                    if self.score < u32::MAX {
                        self.score = self.score + 1;
                    }
                    if hits < u32::MAX {
                        hits = hits + 1;
                    }
                }
                proof {
                    assert(w0.shots.take(k + 1) =~= w0.shots.take(k as int).push(
                        w0.shots[k as int],
                    ));
                    lemma_hit_by_any_push(
                        w0.rocks[j as int],
                        w0.shots.take(k as int),
                        w0.shots[k as int],
                    );
                    lemma_collide_symm(w0.rocks[j as int], w0.shots[k as int]);
                    assert(hits_against(w0.shots.take(k + 1), w0.rocks[j as int]) == hits_against(
                        w0.shots.take(k as int),
                        w0.rocks[j as int],
                    ) + if actors_collide(w0.shots[k as int], w0.rocks[j as int]) {
                        1nat
                    } else {
                        0nat
                    }) by {
                        assert(w0.shots.take(k + 1).drop_last() =~= w0.shots.take(k as int));
                        assert(w0.shots.take(k + 1).last() == w0.shots[k as int]);
                    }
                    lemma_hit_by_any_push(
                        w0.shots[k as int],
                        w0.rocks.take(j as int),
                        w0.rocks[j as int],
                    );
                    assert(self.shots@[k as int] == after_collisions(
                        w0.shots[k as int],
                        w0.rocks.take(j + 1),
                    ));
                    assert(self.rocks@[j as int] == after_collisions(
                        w0.rocks[j as int],
                        w0.shots.take(k + 1),
                    ));
                }
                k = k + 1;
            }
            proof {
                assert(w0.shots.take(ns as int) =~= w0.shots);
                assert(self.rocks@[j as int] == after_collisions(w0.rocks[j as int], w0.shots));
                assert(hit_pairs(w0.shots, w0.rocks.take(j + 1)) == hit_pairs(
                    w0.shots,
                    w0.rocks.take(j as int),
                ) + hits_against(w0.shots, w0.rocks[j as int])) by {
                    assert(w0.rocks.take(j + 1).drop_last() =~= w0.rocks.take(j as int));
                    assert(w0.rocks.take(j + 1).last() == w0.rocks[j as int]);
                }
                assert(hit_pos == last_hit_pos(w0.shots, w0.rocks.take(j + 1))) by {
                    assert(w0.rocks.take(j + 1).drop_last() =~= w0.rocks.take(j as int));
                    assert(w0.rocks.take(j + 1).last() == w0.rocks[j as int]);
                }
            }
            j = j + 1;
        }
        proof {
            assert(w0.rocks.take(nr as int) =~= w0.rocks);
            assert(self.shots@ =~~= seq_after_collisions(w0.shots, w0.rocks));
            assert(self.rocks@ =~~= seq_after_collisions(w0.rocks, w0.shots));
        }
        (hits, hit_pos)
    }
}

/// The player after one tick of input: turned by the stick, thrust added
/// while the thrust axis is held.
pub open spec fn spec_turned(a: Actor, input: InputState, thrust: Vec2) -> Actor {
    Actor {
        facing: norm_angle(a.facing + PLAYER_TURN_RATE * input.xaxis) as i64,
        velocity: if input.yaxis > 0 {
            Vec2 { x: (a.velocity.x + thrust.x) as i64, y: (a.velocity.y + thrust.y) as i64 }
        } else {
            a.velocity
        },
        ..a
    }
}

/// An actor after one integration step: velocity clamped, position moved
/// by it, facing advanced by the per-tick spin.
pub open spec fn spec_integrated(a: Actor) -> Actor {
    Actor {
        pos: Vec2 {
            x: (a.pos.x + clamped_vel(a.velocity).x) as i64,
            y: (a.pos.y + clamped_vel(a.velocity).y) as i64,
        },
        facing: norm_angle(a.facing + a.ang_vel) as i64,
        velocity: clamped_vel(a.velocity),
        ..a
    }
}

/// An actor wrapped back onto the screen.
pub open spec fn spec_wrapped(a: Actor, sx: i64, sy: i64) -> Actor {
    Actor {
        pos: Vec2 {
            x: wrap1(a.pos.x as int, sx as int) as i64,
            y: wrap1(a.pos.y as int, sy as int) as i64,
        },
        ..a
    }
}

/// One tick of timed decay.
pub open spec fn spec_aged(a: Actor) -> Actor {
    Actor { life: (a.life - 1) as i64, ..a }
}

/// Integration followed by wrap: how every actor moves each tick.
pub open spec fn spec_moved(a: Actor, sx: i64, sy: i64) -> Actor {
    spec_wrapped(spec_integrated(a), sx, sy)
}

/// The shot cooldown after its per-tick decrement (it rests at -1).
pub open spec fn spec_timeout_dec(t: i64) -> i64 {
    if t >= 0 {
        (t - 1) as i64
    } else {
        t
    }
}

/// One tick of the instructions screen: the countdown runs; when it has
/// run out, or on a fire press (which is consumed), play begins.
pub open spec fn spec_instructions_tick(w: WorldModel) -> WorldModel {
    let st = if w.state_transition >= 0 {
        (w.state_transition - 1) as i64
    } else {
        w.state_transition
    };
    let mode1 = if w.state_transition >= 0 {
        State::Instructions
    } else {
        State::Playing
    };
    let mode2 = if w.input.fire {
        State::Playing
    } else {
        mode1
    };
    WorldModel {
        state: mode2,
        state_transition: st,
        input: InputState { fire: false, ..w.input },
        ..w
    }
}

/// One tick of the death screen: the countdown runs; when it has run out,
/// play resumes.
pub open spec fn spec_dead_tick(w: WorldModel) -> WorldModel {
    let st = if w.state_transition >= 0 {
        (w.state_transition - 1) as i64
    } else {
        w.state_transition
    };
    let mode = if w.state_transition >= 0 {
        State::Dead
    } else {
        State::Playing
    };
    WorldModel { state: mode, state_transition: st, ..w }
}

/// The movement half of a playing tick: input, cooldown and firing, then
/// one integration step with wrap for the player, every shot (with timed
/// decay) and every rock.
pub open spec fn spec_move_phase(w: WorldModel, thrust: Vec2, shot_vel: Vec2) -> (WorldModel, bool) {
    let p1 = spec_turned(w.player, w.input, thrust);
    let t1 = spec_timeout_dec(w.player_shot_timeout);
    let fired = w.input.fire && t1 < 0;
    let t2 = if fired {
        PLAYER_SHOT_TIME
    } else {
        t1
    };
    let shots1 = if fired {
        w.shots.push(spec_new_shot(p1, shot_vel))
    } else {
        w.shots
    };
    (
        WorldModel {
            player: spec_moved(p1, w.screen_width, w.screen_height),
            shots: shots1.map_values(
                |s: Actor| spec_aged(spec_moved(s, w.screen_width, w.screen_height)),
            ),
            rocks: w.rocks.map_values(|r: Actor| spec_moved(r, w.screen_width, w.screen_height)),
            player_shot_timeout: t2,
            ..w
        },
        fired,
    )
}

/// The resolution half of a playing tick: collisions, scoring, pruning,
/// level respawn, and the death check (death resets the world and shows
/// the death screen). Returns the new model, the hit count, the last hit
/// rock's position and whether the player died.
pub open spec fn spec_resolve_phase(w: WorldModel, seeds: Seq<RockSpawn>) -> (
    WorldModel,
    nat,
    Vec2,
    bool,
) {
    let hits = hit_pairs(w.shots, w.rocks);
    let hpos = last_hit_pos(w.shots, w.rocks);
    let w1 = WorldModel {
        player: after_collisions(w.player, w.rocks),
        shots: seq_after_collisions(w.shots, w.rocks).filter(|a: Actor| a.life > 0),
        rocks: seq_after_collisions(w.rocks, w.shots).filter(|a: Actor| a.life > 0),
        score: sat_u32(w.score + hits),
        ..w
    };
    let w2 = spec_level_respawn(w1, seeds);
    let died = w2.player.life <= 0;
    let w3 = if died {
        spec_reset(
            WorldModel { state: State::Dead, state_transition: STATE_TRANSITION_TIME, ..w2 },
            seeds,
        )
    } else {
        w2
    };
    (w3, hits, hpos, died)
}

/// One tick of play, in the fixed order: the movement phase, then the
/// resolution phase.
#[verifier::opaque]
pub open spec fn spec_playing_tick(
    w: WorldModel,
    thrust: Vec2,
    shot_vel: Vec2,
    seeds: Seq<RockSpawn>,
) -> (WorldModel, TickOutcome) {
    let moved = spec_move_phase(w, thrust, shot_vel);
    let resolved = spec_resolve_phase(moved.0, seeds);
    (
        resolved.0,
        TickOutcome {
            fired: moved.1,
            hits: sat_u32(resolved.1 as int),
            hit_pos: resolved.2,
            died: resolved.3,
        },
    )
}

/// One tick of the whole game, by mode.
pub open spec fn spec_update(
    w: WorldModel,
    thrust: Vec2,
    shot_vel: Vec2,
    seeds: Seq<RockSpawn>,
) -> (WorldModel, TickOutcome) {
    match w.state {
        State::Instructions => (
            spec_instructions_tick(w),
            TickOutcome { fired: false, hits: 0, hit_pos: Vec2 { x: 0, y: 0 }, died: false },
        ),
        State::Playing => spec_playing_tick(w, thrust, shot_vel, seeds),
        State::Dead => (
            spec_dead_tick(w),
            TickOutcome { fired: false, hits: 0, hit_pos: Vec2 { x: 0, y: 0 }, died: false },
        ),
    }
}

impl MainState {
    /// Advance the world by exactly one tick (1/60 s), per the current
    /// game mode; the whole transition is `spec_update` of the old state.
    ///
    /// `thrust` and `shot_vel` carry the only quantities the kernel does
    /// not compute itself: this tick's thrust vector and shot velocity
    /// boost, both `c * (sin facing, cos facing)` for their constant `c`,
    /// computed by the caller from the ship's facing. `seeds` carries the
    /// tick's rock placements, used only on a level respawn or a death
    /// reset.
    #[verifier::loop_isolation(false)]
    #[verifier::rlimit(100)]
    pub fn update(&mut self, thrust: Vec2, shot_vel: Vec2, seeds: &Vec<RockSpawn>) -> (o:
        TickOutcome)
        requires
            old(self).wf(),
            -PLAYER_THRUST <= thrust.x <= PLAYER_THRUST,
            -PLAYER_THRUST <= thrust.y <= PLAYER_THRUST,
            -SHOT_SPEED <= shot_vel.x <= SHOT_SPEED,
            -SHOT_SPEED <= shot_vel.y <= SHOT_SPEED,
            old(self).spawn_ok(seeds@),
        ensures
            final(self)@ =~~= spec_update(old(self)@, thrust, shot_vel, seeds@).0,
            o == spec_update(old(self)@, thrust, shot_vel, seeds@).1,
            final(self).wf(),
            o.fired == (old(self).state is Playing && old(self).input.fire && spec_timeout_dec(
                old(self).player_shot_timeout,
            ) < 0),
            old(self).state is Playing && !o.died ==> final(self).score >= old(self).score
                && final(self).level >= old(self).level,
            !(old(self).state is Playing) ==> final(self).score == old(self).score
                && final(self).level == old(self).level,
            o.died ==> final(self).score == 0 && final(self).level == 0,
            old(self).state is Playing && !o.died ==> forall|i: int|
                0 <= i < final(self).shots@.len() ==> 0 < (#[trigger] final(self).shots@[i]).life
                    <= SHOT_LIFE,
    {
        let ghost w0 = old(self)@;
        match self.state {
            State::Instructions => {
                if self.state_transition >= 0 {
                    self.state_transition = self.state_transition - 1;
                } else {
                    self.state = State::Playing;
                }
                if self.input.fire {
                    self.state = State::Playing;
                    self.input.fire = false;
                }
                proof {
                    assert(self@ =~~= spec_instructions_tick(w0));
                }
                TickOutcome { fired: false, hits: 0, hit_pos: Vec2 { x: 0, y: 0 }, died: false }
            },
            State::Dead => {
                if self.state_transition >= 0 {
                    self.state_transition = self.state_transition - 1;
                } else {
                    self.state = State::Playing;
                }
                proof {
                    assert(self@ =~~= spec_dead_tick(w0));
                }
                TickOutcome { fired: false, hits: 0, hit_pos: Vec2 { x: 0, y: 0 }, died: false }
            },
            State::Playing => {
                let o: TickOutcome = self.playing_tick(thrust, shot_vel, seeds);
                proof {
                    reveal(spec_playing_tick);
                }
                o
            },
        }
    }
}

impl MainState {
    /// The state a world is in between the two halves of a playing tick:
    /// every actor moved and back on screen, lives still unresolved.
    pub open spec fn mid_ok(self) -> bool {
        &&& self.screen_ok()
        &&& self.input.wf()
        &&& self.state is Playing
        &&& moved_ok(self.player, self@)
        &&& self.player.tag is Player
        &&& self.player.bbox_size == PLAYER_BBOX
        &&& 0 <= self.player.life <= PLAYER_LIFE
        &&& -TAU_URAD < self.player.ang_vel < TAU_URAD
        &&& forall|i: int|
            0 <= i < self.shots@.len() ==> {
                let s = #[trigger] self.shots@[i];
                &&& moved_ok(s, self@)
                &&& s.tag is Shot
                &&& s.bbox_size == SHOT_BBOX
                &&& -1 <= s.life <= SHOT_LIFE
                &&& -TAU_URAD < s.ang_vel < TAU_URAD
            }
        &&& forall|i: int|
            0 <= i < self.rocks@.len() ==> {
                let r = #[trigger] self.rocks@[i];
                &&& moved_ok(r, self@)
                &&& r.tag is Rock
                &&& r.bbox_size == ROCK_BBOX
                &&& 0 <= r.life <= ROCK_LIFE
                &&& -TAU_URAD < r.ang_vel < TAU_URAD
            }
        &&& -1 <= self.player_shot_timeout <= PLAYER_SHOT_TIME
        &&& -1 <= self.state_transition <= STATE_TRANSITION_TIME
    }

    /// One tick of play; the whole transition is `spec_playing_tick`.
    fn playing_tick(&mut self, thrust: Vec2, shot_vel: Vec2, seeds: &Vec<RockSpawn>) -> (o:
        TickOutcome)
        requires
            old(self).wf(),
            old(self).state is Playing,
            -PLAYER_THRUST <= thrust.x <= PLAYER_THRUST,
            -PLAYER_THRUST <= thrust.y <= PLAYER_THRUST,
            -SHOT_SPEED <= shot_vel.x <= SHOT_SPEED,
            -SHOT_SPEED <= shot_vel.y <= SHOT_SPEED,
            old(self).spawn_ok(seeds@),
        ensures
            final(self)@ =~~= spec_playing_tick(old(self)@, thrust, shot_vel, seeds@).0,
            o == spec_playing_tick(old(self)@, thrust, shot_vel, seeds@).1,
            final(self).wf(),
            !o.died ==> forall|i: int|
                0 <= i < final(self).shots@.len() ==> 0 < (#[trigger] final(self).shots@[i]).life
                    <= SHOT_LIFE,
    {
        let ghost w0 = old(self)@;
        let fired: bool = self.move_phase(thrust, shot_vel);
        let resolved: (u32, Vec2, bool) = self.resolve_phase(seeds);
        let hits: u32 = resolved.0;
        let hit_pos: Vec2 = resolved.1;
        let died: bool = resolved.2;
        proof {
            reveal(spec_playing_tick);
        }
        TickOutcome { fired, hits, hit_pos, died }
    }

    /// The movement half of one playing tick: apply input, run the shot
    /// cooldown and fire when asked, then integrate and wrap every actor,
    /// with timed decay for the shots.
    #[verifier::loop_isolation(false)]
    #[verifier::rlimit(100)]
    fn move_phase(&mut self, thrust: Vec2, shot_vel: Vec2) -> (fired: bool)
        requires
            old(self).wf(),
            old(self).state is Playing,
            -PLAYER_THRUST <= thrust.x <= PLAYER_THRUST,
            -PLAYER_THRUST <= thrust.y <= PLAYER_THRUST,
            -SHOT_SPEED <= shot_vel.x <= SHOT_SPEED,
            -SHOT_SPEED <= shot_vel.y <= SHOT_SPEED,
        ensures
            final(self)@ =~~= spec_move_phase(old(self)@, thrust, shot_vel).0,
            fired == spec_move_phase(old(self)@, thrust, shot_vel).1,
            final(self).mid_ok(),
            final(self).level == old(self).level,
    {
        let ghost w0 = old(self)@;
        let sw: i64 = self.screen_width;
        let sh: i64 = self.screen_height;
        proof {
            lemma_norm_sq_component_bound(self.player.velocity, MAX_PHYSICS_VEL as int);
        }
        player_handle_input(&mut self.player, &self.input, thrust);
        proof {
            assert(self.player == spec_turned(w0.player, w0.input, thrust));
        }
        if self.player_shot_timeout >= 0 {
            self.player_shot_timeout = self.player_shot_timeout - 1;
        }
        let fired: bool = self.input.fire && self.player_shot_timeout < 0;
        if fired {
            self.fire_player_shot(shot_vel);
        }
        let ghost p1 = spec_turned(w0.player, w0.input, thrust);
        let ghost t2 = if fired {
            PLAYER_SHOT_TIME
        } else {
            spec_timeout_dec(w0.player_shot_timeout)
        };
        let ghost shots1 = if fired {
            w0.shots.push(spec_new_shot(p1, shot_vel))
        } else {
            w0.shots
        };
        proof {
            assert(self.shots@ =~= shots1);
            assert(self.player_shot_timeout == t2);
            assert forall|k: int| 0 <= k < shots1.len() implies pre_move_ok(
                #[trigger] shots1[k],
                w0,
            ) by {
                if k < w0.shots.len() {
                    lemma_norm_sq_component_bound(w0.shots[k].velocity, MAX_PHYSICS_VEL as int);
                }
            }
        }
        update_actor_position(&mut self.player);
        proof {
            lemma_norm_sq_component_bound(self.player.velocity, MAX_PHYSICS_VEL as int);
        }
        wrap_actor_position(&mut self.player, sw, sh);
        proof {
            assert(self.player == spec_moved(p1, sw, sh));
            crate::geometry::lemma_wrap_in_range(spec_integrated(p1).pos.x as int, sw as int);
            crate::geometry::lemma_wrap_in_range(spec_integrated(p1).pos.y as int, sh as int);
        }
        let ghost m1 = self@;
        let n_shots: usize = self.shots.len();
        let mut i: usize = 0;
        while i < n_shots
            invariant
                i <= n_shots == self.shots@.len(),
                self@ == (WorldModel { shots: self.shots@, ..m1 }),
                forall|k: int| i <= k < n_shots ==> #[trigger] self.shots@[k] == shots1[k],
                forall|k: int|
                    0 <= k < i ==> #[trigger] self.shots@[k] == spec_aged(
                        spec_moved(shots1[k], sw, sh),
                    ),
                forall|k: int| 0 <= k < i ==> moved_ok(#[trigger] self.shots@[k], w0),
            decreases n_shots - i,
        {
            let mut a: Actor = self.shots[i];
            update_actor_position(&mut a);
            proof {
                lemma_norm_sq_component_bound(a.velocity, MAX_PHYSICS_VEL as int);
            }
            let ghost integ = a;
            wrap_actor_position(&mut a, sw, sh);
            handle_timed_life(&mut a);
            self.shots.set(i, a);
            proof {
                crate::geometry::lemma_wrap_in_range(integ.pos.x as int, sw as int);
                crate::geometry::lemma_wrap_in_range(integ.pos.y as int, sh as int);
                assert(self.shots@[i as int] == spec_aged(spec_moved(shots1[i as int], sw, sh)));
            }
            i = i + 1;
        }
        proof {
            assert(self.shots@ =~= shots1.map_values(
                |s: Actor| spec_aged(spec_moved(s, sw, sh)),
            )) by {
                assert(self.shots@.len() == shots1.len());
            }
            assert forall|k: int| 0 <= k < w0.rocks.len() implies pre_move_ok(
                #[trigger] w0.rocks[k],
                w0,
            ) by {
                lemma_norm_sq_component_bound(w0.rocks[k].velocity, MAX_PHYSICS_VEL as int);
            }
        }
        let ghost m2 = self@;
        let n_rocks: usize = self.rocks.len();
        let mut j: usize = 0;
        while j < n_rocks
            invariant
                j <= n_rocks == self.rocks@.len(),
                self@ == (WorldModel { rocks: self.rocks@, ..m2 }),
                forall|k: int| j <= k < n_rocks ==> #[trigger] self.rocks@[k] == w0.rocks[k],
                forall|k: int|
                    0 <= k < j ==> #[trigger] self.rocks@[k] == spec_moved(w0.rocks[k], sw, sh),
                forall|k: int| 0 <= k < j ==> moved_ok(#[trigger] self.rocks@[k], w0),
            decreases n_rocks - j,
        {
            let mut a: Actor = self.rocks[j];
            update_actor_position(&mut a);
            proof {
                lemma_norm_sq_component_bound(a.velocity, MAX_PHYSICS_VEL as int);
            }
            let ghost integ = a;
            wrap_actor_position(&mut a, sw, sh);
            self.rocks.set(j, a);
            proof {
                crate::geometry::lemma_wrap_in_range(integ.pos.x as int, sw as int);
                crate::geometry::lemma_wrap_in_range(integ.pos.y as int, sh as int);
            }
            j = j + 1;
        }
        proof {
            assert(self.rocks@ =~= w0.rocks.map_values(|r: Actor| spec_moved(r, sw, sh))) by {
                assert(self.rocks@.len() == w0.rocks.len());
            }
            assert(self@ =~~= spec_move_phase(w0, thrust, shot_vel).0);
            assert(self.mid_ok()) by {
                assert forall|k: int| 0 <= k < self.shots@.len() implies {
                    let s = #[trigger] self.shots@[k];
                    &&& s.tag is Shot
                    &&& s.bbox_size == SHOT_BBOX
                    &&& -1 <= s.life <= SHOT_LIFE
                    &&& -TAU_URAD < s.ang_vel < TAU_URAD
                } by {
                    assert(self.shots@[k] == spec_aged(spec_moved(shots1[k], sw, sh)));
                    if k < w0.shots.len() {
                        assert(shots1[k] == w0.shots[k]);
                    } else {
                        assert(shots1[k] == spec_new_shot(p1, shot_vel));
                    }
                }
            }
        }
        fired
    }

    /// The resolution half of one playing tick: collisions and scoring,
    /// pruning, the level respawn, and the death check with its reset.
    /// Returns the hit count, the last hit rock's position and whether the
    /// player died.
    #[verifier::rlimit(100)]
    fn resolve_phase(&mut self, seeds: &Vec<RockSpawn>) -> (r: (u32, Vec2, bool))
        requires
            old(self).mid_ok(),
            old(self).spawn_ok(seeds@),
        ensures
            final(self)@ =~~= spec_resolve_phase(old(self)@, seeds@).0,
            r.0 == sat_u32(spec_resolve_phase(old(self)@, seeds@).1 as int),
            r.1 == spec_resolve_phase(old(self)@, seeds@).2,
            r.2 == spec_resolve_phase(old(self)@, seeds@).3,
            final(self).wf(),
            !r.2 ==> forall|i: int|
                0 <= i < final(self).shots@.len() ==> 0 < (#[trigger] final(self).shots@[i]).life
                    <= SHOT_LIFE,
    {
        let ghost w0 = old(self)@;
        proof {
            assert(self.collision_pre());
        }
        let collided: (u32, Vec2) = self.handle_collisions();
        let hits: u32 = collided.0;
        let hit_pos: Vec2 = collided.1;
        self.clear_dead_stuff();
        let ghost w1 = WorldModel {
            player: after_collisions(w0.player, w0.rocks),
            shots: seq_after_collisions(w0.shots, w0.rocks).filter(|a: Actor| a.life > 0),
            rocks: seq_after_collisions(w0.rocks, w0.shots).filter(|a: Actor| a.life > 0),
            score: sat_u32(w0.score + hit_pairs(w0.shots, w0.rocks)),
            ..w0
        };
        proof {
            assert(self@ =~~= w1) by {
                assert(self.shots@ =~= w1.shots);
                assert(self.rocks@ =~= w1.rocks);
            }
        }
        self.check_for_level_respawn(seeds);
        proof {
            assert(self@ =~~= spec_level_respawn(w1, seeds@));
        }
        let died: bool = self.player.life <= 0;
        let ghost w2 = spec_level_respawn(w1, seeds@);
        if died {
            self.state = State::Dead;
            self.state_transition = STATE_TRANSITION_TIME;
            self.reset_state(seeds);
        }
        proof {
            assert(self@ =~~= spec_resolve_phase(w0, seeds@).0);
            if died {
                lemma_spawned_rocks_wf(*self, seeds@, 5, Vec2 { x: 0, y: 0 });
                assert(self.wf());
            } else {
                let pred = |a: Actor| a.life > 0;
                assert forall|k: int| 0 <= k < self.shots@.len() implies {
                    let s = #[trigger] self.shots@[k];
                    &&& s.wf()
                    &&& self.pos_ok(s)
                    &&& s.tag is Shot
                    &&& 0 < s.life <= SHOT_LIFE
                    &&& s.bbox_size == SHOT_BBOX
                } by {
                    let base = seq_after_collisions(w0.shots, w0.rocks);
                    let e = self.shots@[k];
                    base.lemma_filter_pred(pred, k);
                    assert(base.filter(pred)[k] == e);
                    assert(base.filter(pred).contains(e));
                    base.lemma_filter_contains_rev(pred, e);
                    let t = choose|t: int| 0 <= t < base.len() && base[t] == e;
                    assert(e == after_collisions(w0.shots[t], w0.rocks));
                    assert(moved_ok(w0.shots[t], w0));
                }
                assert forall|k: int| 0 <= k < self.rocks@.len() implies {
                    let r = #[trigger] self.rocks@[k];
                    &&& r.wf()
                    &&& self.pos_ok(r)
                    &&& r.tag is Rock
                    &&& 0 <= r.life <= ROCK_LIFE
                    &&& r.bbox_size == ROCK_BBOX
                } by {
                    if w1.rocks.len() > 0 {
                        let base = seq_after_collisions(w0.rocks, w0.shots);
                        let e = self.rocks@[k];
                        base.lemma_filter_pred(pred, k);
                        assert(base.filter(pred)[k] == e);
                        assert(base.filter(pred).contains(e));
                        base.lemma_filter_contains_rev(pred, e);
                        let t = choose|t: int| 0 <= t < base.len() && base[t] == e;
                        assert(e == after_collisions(w0.rocks[t], w0.shots));
                        assert(moved_ok(w0.rocks[t], w0));
                    } else {
                        lemma_spawned_rocks_wf(
                            *self,
                            seeds@,
                            w2.rocks.len() as int,
                            w2.player.pos,
                        );
                    }
                }
                assert(self.wf());
            }
        }
        (hits, hit_pos, died)
    }
}

/// No shot outlives its time to live. After a playing tick, every shot
/// still in the world either was just fired — with `SHOT_LIFE - 1` ticks
/// left — or carries exactly one tick less than a shot of the old world,
/// and always at least one tick; since no shot ever holds more than
/// `SHOT_LIFE` ticks, a shot is pruned at most `SHOT_LIFE` ticks after its
/// creation.
pub proof fn lemma_shot_lifetime_step(
    w: WorldModel,
    thrust: Vec2,
    shot_vel: Vec2,
    seeds: Seq<RockSpawn>,
    k: int,
)
    requires
        w.state is Playing,
        forall|i: int| 0 <= i < w.shots.len() ==> (#[trigger] w.shots[i]).life > i64::MIN,
        0 <= k < spec_playing_tick(w, thrust, shot_vel, seeds).0.shots.len(),
    ensures
        spec_playing_tick(w, thrust, shot_vel, seeds).0.shots[k].life >= 1,
        spec_playing_tick(w, thrust, shot_vel, seeds).0.shots[k].life == SHOT_LIFE - 1 || (
        exists|t: int|
            0 <= t < w.shots.len() && spec_playing_tick(w, thrust, shot_vel, seeds).0.shots[k].life
                == #[trigger] w.shots[t].life - 1),
{
    reveal(spec_playing_tick);
    let moved = spec_move_phase(w, thrust, shot_vel);
    let resolved = spec_resolve_phase(moved.0, seeds);
    let out = spec_playing_tick(w, thrust, shot_vel, seeds).0;
    let e = out.shots[k];
    if resolved.3 {
        assert(out.shots.len() == 0);
    } else {
        let pred = |a: Actor| a.life > 0;
        let base = seq_after_collisions(moved.0.shots, moved.0.rocks);
        assert(out.shots == base.filter(pred));
        base.lemma_filter_pred(pred, k);
        assert(base.filter(pred)[k] == e);
        assert(base.filter(pred).contains(e));
        base.lemma_filter_contains_rev(pred, e);
        let t = choose|t: int| 0 <= t < base.len() && base[t] == e;
        assert(e == after_collisions(moved.0.shots[t], moved.0.rocks));
        let p1 = spec_turned(w.player, w.input, thrust);
        let t1 = spec_timeout_dec(w.player_shot_timeout);
        let fired = w.input.fire && t1 < 0;
        let shots1 = if fired {
            w.shots.push(spec_new_shot(p1, shot_vel))
        } else {
            w.shots
        };
        assert(moved.0.shots[t] == spec_aged(
            spec_moved(shots1[t], w.screen_width, w.screen_height),
        ));
        assert(e.life > 0);
        assert(e.life == moved.0.shots[t].life);
        assert(spec_moved(shots1[t], w.screen_width, w.screen_height).life == shots1[t].life);
        assert(e.life == shots1[t].life - 1);
        if t < w.shots.len() {
            assert(shots1[t] == w.shots[t]);
            assert(e.life == w.shots[t].life - 1);
        } else {
            assert(shots1[t] == spec_new_shot(p1, shot_vel));
            assert(e.life == SHOT_LIFE - 1);
        }
    }
}

/// Bounds an actor satisfies before this tick's integration: the ones the
/// physics step needs.
pub open spec fn pre_move_ok(a: Actor, w: WorldModel) -> bool {
    &&& -(w.screen_width / 2) - SPAWN_MAX_RADIUS <= a.pos.x <= w.screen_width / 2
        + SPAWN_MAX_RADIUS
    &&& -(w.screen_height / 2) - SPAWN_MAX_RADIUS <= a.pos.y <= w.screen_height / 2
        + SPAWN_MAX_RADIUS
    &&& -VEL_LIMIT <= a.velocity.x <= VEL_LIMIT
    &&& -VEL_LIMIT <= a.velocity.y <= VEL_LIMIT
    &&& 0 <= a.facing < TAU_URAD
    &&& -TAU_URAD < a.ang_vel < TAU_URAD
    &&& a.life > i64::MIN
}

/// Bounds an actor satisfies right after integration and wrap: back on
/// the screen, speed within the cap, facing normalised.
pub open spec fn moved_ok(a: Actor, w: WorldModel) -> bool {
    &&& -(w.screen_width / 2) <= a.pos.x <= w.screen_width / 2
    &&& -(w.screen_height / 2) <= a.pos.y <= w.screen_height / 2
    &&& a.velocity.norm_sq() <= MAX_PHYSICS_VEL * MAX_PHYSICS_VEL
    &&& 0 <= a.facing < TAU_URAD
}

/// Keep only the live actors, in order.
fn retain_live(v: &mut Vec<Actor>)
    ensures
        final(v)@ =~= old(v)@.filter(|a: Actor| a.life > 0),
{
    let n: usize = v.len();
    let mut out: Vec<Actor> = Vec::new();
    let mut i: usize = 0;
    while i < n
        invariant
            i <= n == v@.len(),
            out@ =~= v@.take(i as int).filter(|a: Actor| a.life > 0),
        decreases n - i,
    {
        let a: Actor = v[i];
        proof {
            assert(v@.take(i + 1) =~= v@.take(i as int).push(a));
            v@.take(i as int).lemma_filter_push(a, |a: Actor| a.life > 0);
        }
        if a.life > 0 {
            out.push(a);
        }
        i = i + 1;
    }
    proof {
        assert(v@.take(n as int) =~= v@);
    }
    *v = out;
}

} // verus!
