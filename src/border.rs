use vstd::prelude::*;
use crate::ball::{Ball, BallState, COORD_LIMIT};
use crate::geometry::{Pt, Vec2};

verus! {

/// One axis of border reflection on `[lo, hi]`: a coordinate below `lo` is
/// clamped to `lo`, else one above `hi` is clamped to `hi`; either way the
/// velocity on that axis changes sign. Returns the coordinate and velocity.
pub open spec fn reflect_axis(p: int, v: int, lo: int, hi: int) -> (int, int) {
    if p < lo {
        (lo, -v)
    } else if p > hi {
        (hi, -v)
    } else {
        (p, v)
    }
}

/// A ball after reflection off the borders of `[0, width] x [0, height]`,
/// the two axes taken independently.
pub open spec fn reflected(b: BallState, width: int, height: int) -> BallState {
    let (px, vx) = reflect_axis(b.position.x, b.velocity.x, b.radius, width - b.radius);
    let (py, vy) = reflect_axis(b.position.y, b.velocity.y, b.radius, height - b.radius);
    BallState { position: Pt { x: px, y: py }, velocity: Pt { x: vx, y: vy }, ..b }
}

/// The ball lies within the borders on both axes.
pub open spec fn inside(b: BallState, width: int, height: int) -> bool {
    &&& b.radius <= b.position.x <= width - b.radius
    &&& b.radius <= b.position.y <= height - b.radius
}

/// What reflection asks of a ball: a radius in range and velocity components
/// whose negation is representable.
pub open spec fn reflectable(b: Ball) -> bool {
    &&& 0 < b.radius <= COORD_LIMIT
    &&& b.velocity.x != i64::MIN
    &&& b.velocity.y != i64::MIN
}

fn reflect_component(p: i64, v: i64, lo: i64, hi: i64) -> (r: (i64, i64))
    requires
        v != i64::MIN,
    ensures
        r.0 == reflect_axis(p as int, v as int, lo as int, hi as int).0,
        r.1 == reflect_axis(p as int, v as int, lo as int, hi as int).1,
{
    if p < lo {
        (lo, -v)
    } else if p > hi {
        (hi, -v)
    } else {
        (p, v)
    }
}

/// Clamps every ball into the rectangle `[0, width] x [0, height]` shrunk by
/// its radius, reversing the velocity on each axis where it was outside.
pub fn ball_check_border(balls: &mut Vec<Ball>, width: i64, height: i64)
    requires
        0 <= width <= COORD_LIMIT,
        0 <= height <= COORD_LIMIT,
        forall|i: int| 0 <= i < old(balls).len() ==> reflectable(#[trigger] old(balls)[i]),
    ensures
        final(balls).len() == old(balls).len(),
        forall|i: int|
            0 <= i < final(balls).len() ==> (#[trigger] final(balls)[i])@ == reflected(
                old(balls)[i]@,
                width as int,
                height as int,
            ),
{
    let ghost before = balls@;
    let mut k: usize = 0;
    while k < balls.len()
        invariant
            0 <= width <= COORD_LIMIT,
            0 <= height <= COORD_LIMIT,
            k <= balls.len(),
            balls.len() == before.len(),
            forall|i: int| 0 <= i < before.len() ==> reflectable(#[trigger] before[i]),
            forall|i: int|
                0 <= i < k ==> (#[trigger] balls@[i])@ == reflected(
                    before[i]@,
                    width as int,
                    height as int,
                ),
            forall|i: int| k <= i < before.len() ==> #[trigger] balls@[i] == before[i],
        decreases balls.len() - k,
    {
        let mut b = balls[k];
        assert(reflectable(before[k as int]));
        let (px, vx) = reflect_component(b.position.x, b.velocity.x, b.radius, width - b.radius);
        let (py, vy) = reflect_component(b.position.y, b.velocity.y, b.radius, height - b.radius);
        b.position = Vec2 { x: px, y: py };
        b.velocity = Vec2 { x: vx, y: vy };
        balls.set(k, b);
        k = k + 1;
    }
}

/// A ball left of `x_min` is put on `x_min` with its horizontal velocity
/// reversed.
pub proof fn lemma_left_border_reflects(b: BallState, width: int, height: int)
    requires
        b.position.x < b.radius,
    ensures
        reflected(b, width, height).position.x == b.radius,
        reflected(b, width, height).velocity.x == -b.velocity.x,
{
}

/// A ball already within the borders is left as it is.
pub proof fn lemma_reflect_inside_is_identity(b: BallState, width: int, height: int)
    requires
        inside(b, width, height),
    ensures
        reflected(b, width, height) == b,
{
}

/// Where the ball fits between the borders, reflecting twice is the same as
/// reflecting once: the first reflection leaves the ball inside.
pub proof fn lemma_reflect_idempotent(b: BallState, width: int, height: int)
    requires
        2 * b.radius <= width,
        2 * b.radius <= height,
    ensures
        inside(reflected(b, width, height), width, height),
        reflected(reflected(b, width, height), width, height) == reflected(b, width, height),
{
}

} // verus!
