//! Fixed-point 2D ball physics: gravity integration, border reflection and
//! soft pairwise collision resolution over a set of circular balls, with the
//! rules for spawning new balls.
//!
//! Positions are measured in integer sub-pixel units and time in integer
//! ticks; the host picks both units. Every step states its result exactly
//! over mathematical integers.

pub mod ball;
pub mod border;
pub mod collision;
pub mod geometry;
pub mod movement;
pub mod spawn;

pub use ball::{balls_within_limits, speed_hue, Ball, COORD_LIMIT, MAX_BALLS};
pub use border::ball_check_border;
pub use collision::{check_ball_collision, DAMPENING_SCALE};
pub use geometry::{floor_sqrt, Vec2};
pub use movement::{ball_movement, DT_LIMIT};
pub use spawn::{
    spawn_ball_function, spawn_positions, spawn_rate_limiter, SpawnRateLimiter,
    SPAWN_COOLDOWN_MICROS,
};
