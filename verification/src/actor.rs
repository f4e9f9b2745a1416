//! The actor model: every body in the game world — the player's ship, the
//! drifting rocks and the shots — is an `Actor` distinguished by its tag.
//!
//! Units: positions and bounding radii in 1/3600 pixel, velocities in
//! units per tick (one tick is 1/60 s), angles in microradians, angular
//! velocity in microradians per tick (applied once per tick, not scaled by
//! the step). `life` is overloaded: hit points for players and rocks, ticks
//! left to live for shots.

use vstd::prelude::*;

use crate::geometry::TAU_URAD;
use crate::geometry::Vec2;

verus! {

/// Hit points of a fresh player.
pub const PLAYER_LIFE: i64 = 1;

/// Ticks a shot lives: 2 s at 60 ticks per second.
pub const SHOT_LIFE: i64 = 120;

/// Hit points of a fresh rock.
pub const ROCK_LIFE: i64 = 1;

/// Collision radius of the player: 12 pixels.
pub const PLAYER_BBOX: i64 = 43_200;

/// Collision radius of a rock: 12 pixels.
pub const ROCK_BBOX: i64 = 43_200;

/// Collision radius of a shot: 6 pixels.
pub const SHOT_BBOX: i64 = 21_600;

/// Spin of a shot: 0.1 rad per tick, in microradians.
pub const SHOT_ANG_VEL: i64 = 100_000;

#[derive(Clone, Copy, Debug, PartialEq, Eq, Structural)]
pub enum ActorType {
    Player,
    Rock,
    Shot,
}

#[derive(Clone, Copy, Debug, PartialEq, Eq, Structural)]
pub struct Actor {
    pub tag: ActorType,
    pub pos: Vec2,
    pub facing: i64,
    pub velocity: Vec2,
    pub ang_vel: i64,
    pub bbox_size: i64,
    pub life: i64,
}

impl Actor {
    /// The value `create_player` returns.
    pub open spec fn spec_player_new() -> Actor {
        Actor {
            tag: ActorType::Player,
            pos: Vec2 { x: 0, y: 0 },
            facing: 0,
            velocity: Vec2 { x: 0, y: 0 },
            ang_vel: 0,
            bbox_size: PLAYER_BBOX,
            life: PLAYER_LIFE,
        }
    }

    /// A new player: at the origin, at rest, facing up.
    pub fn create_player() -> (a: Actor)
        ensures
            a == (Actor {
                tag: ActorType::Player,
                pos: Vec2 { x: 0, y: 0 },
                facing: 0,
                velocity: Vec2 { x: 0, y: 0 },
                ang_vel: 0,
                bbox_size: PLAYER_BBOX,
                life: PLAYER_LIFE,
            }),
    {
        Actor {
            tag: ActorType::Player,
            pos: Vec2 { x: 0, y: 0 },
            facing: 0,
            velocity: Vec2 { x: 0, y: 0 },
            ang_vel: 0,
            bbox_size: PLAYER_BBOX,
            life: PLAYER_LIFE,
        }
    }

    /// A new rock: at the origin, at rest; the spawner moves it into place.
    pub fn create_rock() -> (a: Actor)
        ensures
            a == (Actor {
                tag: ActorType::Rock,
                pos: Vec2 { x: 0, y: 0 },
                facing: 0,
                velocity: Vec2 { x: 0, y: 0 },
                ang_vel: 0,
                bbox_size: ROCK_BBOX,
                life: ROCK_LIFE,
            }),
    {
        Actor {
            tag: ActorType::Rock,
            pos: Vec2 { x: 0, y: 0 },
            facing: 0,
            velocity: Vec2 { x: 0, y: 0 },
            ang_vel: 0,
            bbox_size: ROCK_BBOX,
            life: ROCK_LIFE,
        }
    }

    /// A new shot: at the origin, at rest, spinning, with its full time to
    /// live; firing moves it onto the player and gives it a velocity.
    pub fn create_shot() -> (a: Actor)
        ensures
            a == (Actor {
                tag: ActorType::Shot,
                pos: Vec2 { x: 0, y: 0 },
                facing: 0,
                velocity: Vec2 { x: 0, y: 0 },
                ang_vel: SHOT_ANG_VEL,
                bbox_size: SHOT_BBOX,
                life: SHOT_LIFE,
            }),
    {
        Actor {
            tag: ActorType::Shot,
            pos: Vec2 { x: 0, y: 0 },
            facing: 0,
            velocity: Vec2 { x: 0, y: 0 },
            ang_vel: SHOT_ANG_VEL,
            bbox_size: SHOT_BBOX,
            life: SHOT_LIFE,
        }
    }

    /// Translates the world coordinate system, which has y pointing up and
    /// the origin at the centre, to the screen coordinate system, which has
    /// y pointing downward and the origin at the top left. Exact in world
    /// units; drawing converts the result to pixels afterwards.
    pub fn world_to_screen_coords(screen_width: i64, screen_height: i64, point: Vec2) -> (r: Vec2)
        requires
            0 < screen_width <= 4_000_000_000,
            0 < screen_height <= 4_000_000_000,
            -4_000_000_000 <= point.x <= 4_000_000_000,
            -4_000_000_000 <= point.y <= 4_000_000_000,
        ensures
            r.x == point.x + screen_width / 2,
            r.y == screen_height - (point.y + screen_height / 2),
    {
        let half_w: i64 = ((screen_width as u64) / 2) as i64;
        let half_h: i64 = ((screen_height as u64) / 2) as i64;
        Vec2 { x: point.x + half_w, y: screen_height - (point.y + half_h) }
    }

    /// Basic well-formedness of a single actor, independent of the screen:
    /// normalised facing, bounded spin, a bounded non-negative collision
    /// radius, bounded life and a velocity within the physics cap.
    pub open spec fn wf(self) -> bool {
        &&& 0 <= self.facing < TAU_URAD
        &&& -TAU_URAD < self.ang_vel < TAU_URAD
        &&& 0 <= self.bbox_size <= 100_000
        &&& -1000 <= self.life <= 1000
        &&& self.velocity.norm_sq() <= crate::physics::MAX_PHYSICS_VEL * crate::physics::MAX_PHYSICS_VEL
    }
}

} // verus!
