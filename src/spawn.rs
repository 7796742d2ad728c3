use vstd::prelude::*;
use crate::ball::{Ball, COORD_LIMIT};
use crate::geometry::Vec2;

verus! {

/// Time that must pass between two spawns, in microseconds.
pub const SPAWN_COOLDOWN_MICROS: u64 = 200000;

/// A stopwatch that limits how often balls are spawned.
#[derive(Clone, Copy, Debug, PartialEq, Eq, Structural)]
pub struct SpawnRateLimiter {
    /// Time since the last spawn, in microseconds.
    pub elapsed_micros: u64,
}

/// A fresh limiter: its stopwatch starts at zero.
pub fn spawn_rate_limiter() -> (r: SpawnRateLimiter)
    ensures
        r.elapsed_micros == 0,
{
    SpawnRateLimiter { elapsed_micros: 0 }
}

impl SpawnRateLimiter {
    /// Whether enough time has passed for another spawn.
    pub open spec fn ready(self) -> bool {
        self.elapsed_micros >= SPAWN_COOLDOWN_MICROS
    }

    /// Advances the stopwatch by `delta_micros` (saturating at the largest
    /// representable time) and reports whether a spawn is allowed.
    pub fn tick(&mut self, delta_micros: u64) -> (ready: bool)
        ensures
            final(self).elapsed_micros == if old(self).elapsed_micros + delta_micros <= u64::MAX {
                (old(self).elapsed_micros + delta_micros) as u64
            } else {
                u64::MAX
            },
            ready == final(self).ready(),
    {
        self.elapsed_micros = self.elapsed_micros.saturating_add(delta_micros);
        self.elapsed_micros >= SPAWN_COOLDOWN_MICROS
    }

    /// Restarts the stopwatch from zero.
    pub fn reset(&mut self)
        ensures
            final(self).elapsed_micros == 0,
    {
        self.elapsed_micros = 0;
    }
}

/// Relies on rand's `thread_rng().gen_range(low..=high)` for `i64`: a value
/// drawn from the closed range, which must not be empty.
#[verifier::external_body]
fn random_in_range(low: i64, high: i64) -> (r: i64)
    requires
        low <= high,
    ensures
        low <= r <= high,
{
    rand::Rng::gen_range(&mut rand::thread_rng(), low..=high)
}

/// Where balls are spawned this frame. The stopwatch advances by
/// `delta_micros`; while the cooldown has not passed nothing is spawned.
/// Otherwise a ball goes at the cursor when it is in the window and
/// `clicked`, then one at each touch, in order.
pub fn spawn_positions(
    limiter: &mut SpawnRateLimiter,
    delta_micros: u64,
    cursor: Option<Vec2>,
    clicked: bool,
    touches: &Vec<Vec2>,
) -> (r: Vec<Vec2>)
    ensures
        final(limiter).elapsed_micros == if old(limiter).elapsed_micros + delta_micros <= u64::MAX {
            (old(limiter).elapsed_micros + delta_micros) as u64
        } else {
            u64::MAX
        },
        !final(limiter).ready() ==> r@ == Seq::<Vec2>::empty(),
        final(limiter).ready() ==> r@ == (if clicked && cursor.is_some() {
            seq![cursor.unwrap()]
        } else {
            Seq::<Vec2>::empty()
        }) + touches@,
{
    let mut r: Vec<Vec2> = Vec::new();
    if !limiter.tick(delta_micros) {
        return r;
    }
    if clicked {
        if let Some(p) = cursor {
            r.push(p);
        }
    }
    let ghost head = r@;
    let mut k: usize = 0;
    while k < touches.len()
        invariant
            k <= touches.len(),
            r@ == head + touches@.take(k as int),
        decreases touches.len() - k,
    {
        r.push(touches[k]);
        k = k + 1;
        assert(head + touches@.take(k as int) =~= r@);
    }
    assert(touches@.take(k as int) =~= touches@);
    r
}

/// Spawns a ball with identity `id` at `position`, with a radius drawn from
/// `[min_radius, max_radius]` and each velocity component drawn from
/// `[-max_speed, max_speed]`; the limiter's stopwatch restarts.
pub fn spawn_ball_function(
    limiter: &mut SpawnRateLimiter,
    id: u64,
    position: Vec2,
    min_radius: i64,
    max_radius: i64,
    max_speed: i64,
) -> (b: Ball)
    requires
        0 < min_radius <= max_radius <= COORD_LIMIT,
        0 <= max_speed <= COORD_LIMIT,
    ensures
        final(limiter).elapsed_micros == 0,
        b.id == id,
        b.position == position,
        min_radius <= b.radius <= max_radius,
        -max_speed <= b.velocity.x <= max_speed,
        -max_speed <= b.velocity.y <= max_speed,
{
    limiter.reset();
    let radius = random_in_range(min_radius, max_radius);
    let vx = random_in_range(-max_speed, max_speed);
    let vy = random_in_range(-max_speed, max_speed);
    Ball::new(id, position, radius, Vec2 { x: vx, y: vy })
}

} // verus!
