use vstd::prelude::*;
use crate::geometry::{floor_sqrt, sqrt_floor, Pt, Vec2};

verus! {

/// Largest magnitude of a coordinate, velocity component or radius that the
/// collision step accepts, in fixed-point units.
pub const COORD_LIMIT: i64 = 2147483648;

/// Most balls that one collision step accepts.
pub const MAX_BALLS: usize = 65536;

/// A non-rotating circular ball of unit mass.
#[derive(Clone, Copy, Debug, PartialEq, Eq, Structural)]
pub struct Ball {
    /// Stable identity of the ball for its whole lifetime.
    pub id: u64,
    pub position: Vec2,
    pub radius: i64,
    pub velocity: Vec2,
}

/// The mathematical state of a ball.
pub ghost struct BallState {
    pub id: u64,
    pub position: Pt,
    pub velocity: Pt,
    pub radius: int,
}

impl Ball {
    pub open spec fn view(self) -> BallState {
        BallState {
            id: self.id,
            position: self.position@,
            velocity: self.velocity@,
            radius: self.radius as int,
        }
    }

    /// Radius positive and every quantity within `COORD_LIMIT`.
    pub open spec fn within_limits(self) -> bool {
        &&& 0 < self.radius <= COORD_LIMIT
        &&& -COORD_LIMIT <= self.position.x <= COORD_LIMIT
        &&& -COORD_LIMIT <= self.position.y <= COORD_LIMIT
        &&& -COORD_LIMIT <= self.velocity.x <= COORD_LIMIT
        &&& -COORD_LIMIT <= self.velocity.y <= COORD_LIMIT
    }

    pub fn new(id: u64, position: Vec2, radius: i64, velocity: Vec2) -> (r: Ball)
        requires
            radius > 0,
        ensures
            r.id == id,
            r.position == position,
            r.radius == radius,
            r.velocity == velocity,
    {
        Ball { id, position, radius, velocity }
    }

    pub fn is_within_limits(&self) -> (r: bool)
        ensures
            r == self.within_limits(),
    {
        0 < self.radius && self.radius <= COORD_LIMIT && -COORD_LIMIT <= self.position.x
            && self.position.x <= COORD_LIMIT && -COORD_LIMIT <= self.position.y
            && self.position.y <= COORD_LIMIT && -COORD_LIMIT <= self.velocity.x
            && self.velocity.x <= COORD_LIMIT && -COORD_LIMIT <= self.velocity.y
            && self.velocity.y <= COORD_LIMIT
    }
}

impl Ball {
    /// Magnitude of the velocity, rounded down.
    pub fn speed(&self) -> (r: u64)
        requires
            self.within_limits(),
        ensures
            r as int == sqrt_floor(
                self.velocity.x * self.velocity.x + self.velocity.y * self.velocity.y,
            ),
    {
        let vx = self.velocity.x as i128;
        let vy = self.velocity.y as i128;
        assert(0 <= vx * vx <= COORD_LIMIT * COORD_LIMIT) by (nonlinear_arith)
            requires
                -COORD_LIMIT <= vx <= COORD_LIMIT,
        ;
        assert(0 <= vy * vy <= COORD_LIMIT * COORD_LIMIT) by (nonlinear_arith)
            requires
                -COORD_LIMIT <= vy <= COORD_LIMIT,
        ;
        floor_sqrt((vx * vx + vy * vy) as u128)
    }
}

/// Hue in whole degrees that shows a ball moving at `speed`: one degree per
/// nine units of speed, around the colour wheel.
pub fn speed_hue(speed: u64) -> (r: u64)
    ensures
        r == (speed / 9) % 360,
{
    (speed / 9) % 360
}

/// The states of a sequence of balls, in order.
pub open spec fn states(balls: Seq<Ball>) -> Seq<BallState> {
    balls.map_values(|b: Ball| b@)
}

pub open spec fn all_within_limits(balls: Seq<Ball>) -> bool {
    forall|i: int| 0 <= i < balls.len() ==> (#[trigger] balls[i]).within_limits()
}

/// Whether every ball is within the limits that the physics steps accept.
pub fn balls_within_limits(balls: &Vec<Ball>) -> (r: bool)
    ensures
        r == all_within_limits(balls@),
{
    let mut k: usize = 0;
    while k < balls.len()
        invariant
            k <= balls.len(),
            forall|i: int| 0 <= i < k ==> (#[trigger] balls@[i]).within_limits(),
        decreases balls.len() - k,
    {
        if !balls[k].is_within_limits() {
            return false;
        }
        k = k + 1;
    }
    true
}

} // verus!
