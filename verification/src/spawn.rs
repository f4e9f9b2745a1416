//! The rock spawner: places a batch of rocks in an annulus around an
//! exclusion point (nominally the player) and gives each a drift velocity.
//!
//! The random draws behind the placements — a uniform angle and a uniform
//! radius per rock — happen outside the crate; each draw arrives here as a
//! `RockSpawn` already reduced to plain offsets, and the spawner is verified
//! for every batch that lies in the requested annulus.

use vstd::prelude::*;

use crate::actor::Actor;
use crate::actor::ActorType;
use crate::actor::ROCK_BBOX;
use crate::actor::ROCK_LIFE;
use crate::geometry::Vec2;
use crate::physics::MAX_ROCK_VEL;
use crate::physics::POS_LIMIT;

verus! {

/// One rock placement: an offset from the exclusion point and a drift
/// velocity, both in world units.
#[derive(Clone, Copy, Debug, PartialEq, Eq, Structural)]
pub struct RockSpawn {
    pub offset: Vec2,
    pub velocity: Vec2,
}

/// A placement is valid for an annulus when its offset lies at or beyond
/// the inner radius and strictly inside the outer one, and its drift speed
/// is within the rock cap.
pub open spec fn valid_spawn(sp: RockSpawn, min_radius: int, max_radius: int) -> bool {
    &&& min_radius * min_radius <= sp.offset.norm_sq()
    &&& sp.offset.norm_sq() < max_radius * max_radius
    &&& -max_radius <= sp.offset.x <= max_radius
    &&& -max_radius <= sp.offset.y <= max_radius
    &&& sp.velocity.norm_sq() <= MAX_ROCK_VEL * MAX_ROCK_VEL
    &&& -MAX_ROCK_VEL <= sp.velocity.x <= MAX_ROCK_VEL
    &&& -MAX_ROCK_VEL <= sp.velocity.y <= MAX_ROCK_VEL
}

/// The rock a placement produces around an exclusion point.
pub open spec fn rock_from_spawn(sp: RockSpawn, exclusion: Vec2) -> Actor {
    Actor {
        tag: ActorType::Rock,
        pos: Vec2 {
            x: (exclusion.x + sp.offset.x) as i64,
            y: (exclusion.y + sp.offset.y) as i64,
        },
        facing: 0,
        velocity: sp.velocity,
        ang_vel: 0,
        bbox_size: ROCK_BBOX,
        life: ROCK_LIFE,
    }
}

/// Create `num` rocks around `exclusion`, one per placement. None lands
/// within the inner radius, so none spawns on top of the player; rocks may
/// land outside the play field, and the next tick's wrap brings them back.
pub fn create_rocks(
    num: usize,
    exclusion: Vec2,
    min_radius: i64,
    max_radius: i64,
    seeds: &Vec<RockSpawn>,
) -> (rocks: Vec<Actor>)
    requires
        0 <= min_radius < max_radius <= 10_000_000,
        -POS_LIMIT <= exclusion.x <= POS_LIMIT,
        -POS_LIMIT <= exclusion.y <= POS_LIMIT,
        seeds.len() >= num,
        forall|i: int| 0 <= i < num ==> valid_spawn(#[trigger] seeds@[i], min_radius as int, max_radius as int),
    ensures
        rocks@.len() == num,
        forall|i: int| 0 <= i < num ==> #[trigger] rocks@[i] == rock_from_spawn(seeds@[i], exclusion),
{
    let mut rocks: Vec<Actor> = Vec::new();
    let mut i: usize = 0;
    while i < num
        invariant
            i <= num,
            seeds.len() >= num,
            0 <= min_radius < max_radius <= 10_000_000,
            -POS_LIMIT <= exclusion.x <= POS_LIMIT,
            -POS_LIMIT <= exclusion.y <= POS_LIMIT,
            forall|k: int| 0 <= k < num ==> valid_spawn(#[trigger] seeds@[k], min_radius as int, max_radius as int),
            rocks@.len() == i,
            forall|k: int| 0 <= k < i ==> #[trigger] rocks@[k] == rock_from_spawn(seeds@[k], exclusion),
        decreases num - i,
    {
        let sp: RockSpawn = seeds[i];
        let mut rock = Actor::create_rock();
        rock.pos = Vec2 { x: exclusion.x + sp.offset.x, y: exclusion.y + sp.offset.y };
        rock.velocity = sp.velocity;
        rocks.push(rock);
        i = i + 1;
    }
    rocks
}

} // verus!
