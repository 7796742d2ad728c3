use vstd::prelude::*;
use crate::ball::{Ball, BallState, COORD_LIMIT};
use crate::geometry::{div_toward_zero, Pt, Vec2};

verus! {

/// Largest time step, in ticks of the host's time unit, that integration accepts.
pub const DT_LIMIT: i64 = 1024;

/// A ball after one time step `dt` under constant `gravity`: the position
/// advances by `v dt + g dt^2 / 2` (the half rounded toward zero) with the
/// velocity from before the step, then the velocity advances by `g dt`.
pub open spec fn moved(b: BallState, gravity: Pt, dt: int) -> BallState {
    BallState {
        position: Pt {
            x: b.position.x + b.velocity.x * dt + div_toward_zero(gravity.x * dt * dt, 2),
            y: b.position.y + b.velocity.y * dt + div_toward_zero(gravity.y * dt * dt, 2),
        },
        velocity: Pt { x: b.velocity.x + gravity.x * dt, y: b.velocity.y + gravity.y * dt },
        ..b
    }
}

/// One component of a step: returns the new coordinate and velocity.
fn advance(p: i64, v: i64, g: i64, dt: i64) -> (r: (i64, i64))
    requires
        -COORD_LIMIT <= p <= COORD_LIMIT,
        -COORD_LIMIT <= v <= COORD_LIMIT,
        -COORD_LIMIT <= g <= COORD_LIMIT,
        0 < dt <= DT_LIMIT,
    ensures
        r.0 == p + v * dt + div_toward_zero(g * dt * dt, 2),
        r.1 == v + g * dt,
{
    assert(-COORD_LIMIT * DT_LIMIT <= v * dt <= COORD_LIMIT * DT_LIMIT) by (nonlinear_arith)
        requires
            -COORD_LIMIT <= v <= COORD_LIMIT,
            0 < dt <= DT_LIMIT,
    ;
    assert(-COORD_LIMIT * DT_LIMIT <= g * dt <= COORD_LIMIT * DT_LIMIT) by (nonlinear_arith)
        requires
            -COORD_LIMIT <= g <= COORD_LIMIT,
            0 < dt <= DT_LIMIT,
    ;
    let gdt: i64 = g * dt;
    assert(-COORD_LIMIT * DT_LIMIT * DT_LIMIT <= gdt * dt <= COORD_LIMIT * DT_LIMIT * DT_LIMIT)
        by (nonlinear_arith)
        requires
            -COORD_LIMIT * DT_LIMIT <= gdt <= COORD_LIMIT * DT_LIMIT,
            0 < dt <= DT_LIMIT,
    ;
    let gdt2: i64 = gdt * dt;
    assert(gdt2 == g * dt * dt) by (nonlinear_arith)
        requires
            gdt == g * dt,
            gdt2 == gdt * dt,
    ;
    let half: i64 = if gdt2 >= 0 {
        gdt2 / 2
    } else {
        -((-gdt2) / 2)
    };
    (p + v * dt + half, v + gdt)
}

/// Advances every ball by one time step `dt` under constant `gravity`.
pub fn ball_movement(balls: &mut Vec<Ball>, gravity: Vec2, dt: i64)
    requires
        0 < dt <= DT_LIMIT,
        -COORD_LIMIT <= gravity.x <= COORD_LIMIT,
        -COORD_LIMIT <= gravity.y <= COORD_LIMIT,
        forall|i: int| 0 <= i < old(balls).len() ==> (#[trigger] old(balls)[i]).within_limits(),
    ensures
        final(balls).len() == old(balls).len(),
        forall|i: int|
            0 <= i < final(balls).len() ==> (#[trigger] final(balls)[i])@ == moved(
                old(balls)[i]@,
                gravity@,
                dt as int,
            ),
{
    let ghost before = balls@;
    let mut k: usize = 0;
    while k < balls.len()
        invariant
            0 < dt <= DT_LIMIT,
            -COORD_LIMIT <= gravity.x <= COORD_LIMIT,
            -COORD_LIMIT <= gravity.y <= COORD_LIMIT,
            k <= balls.len(),
            balls.len() == before.len(),
            forall|i: int| 0 <= i < before.len() ==> (#[trigger] before[i]).within_limits(),
            forall|i: int| 0 <= i < k ==> (#[trigger] balls@[i])@ == moved(before[i]@, gravity@, dt as int),
            forall|i: int| k <= i < before.len() ==> #[trigger] balls@[i] == before[i],
        decreases balls.len() - k,
    {
        let mut b = balls[k];
        assert(b == before[k as int]);
        let (px, vx) = advance(b.position.x, b.velocity.x, gravity.x, dt);
        let (py, vy) = advance(b.position.y, b.velocity.y, gravity.y, dt);
        b.position = Vec2 { x: px, y: py };
        b.velocity = Vec2 { x: vx, y: vy };
        balls.set(k, b);
        k = k + 1;
    }
}

/// A ball after `k` time steps.
pub open spec fn moved_times(b: BallState, gravity: Pt, dt: int, k: nat) -> BallState
    decreases k,
{
    if k == 0 {
        b
    } else {
        moved(moved_times(b, gravity, dt, (k - 1) as nat), gravity, dt)
    }
}

/// A ball that starts at rest falls freely: after `k` steps its velocity is
/// `k g dt`, and its displacement is `g dt^2 k (k - 1) / 2 + k h`, where
/// `h = g dt^2 / 2` rounded toward zero is the displacement of one step from
/// rest (exactly `g (k dt)^2 / 2` when `g dt^2` is even).
pub proof fn lemma_free_fall(b: BallState, gravity: Pt, dt: int, k: nat)
    requires
        b.velocity == (Pt { x: 0, y: 0 }),
    ensures
        moved_times(b, gravity, dt, k).velocity == (Pt { x: k * gravity.x * dt, y: k * gravity.y * dt }),
        2 * (moved_times(b, gravity, dt, k).position.x - b.position.x) == gravity.x * dt * dt * k * (
        k - 1) + 2 * k * div_toward_zero(gravity.x * dt * dt, 2),
        2 * (moved_times(b, gravity, dt, k).position.y - b.position.y) == gravity.y * dt * dt * k * (
        k - 1) + 2 * k * div_toward_zero(gravity.y * dt * dt, 2),
    decreases k,
{
    if k > 0 {
        let j = (k - 1) as nat;
        lemma_free_fall(b, gravity, dt, j);
        let hx = div_toward_zero(gravity.x * dt * dt, 2);
        let hy = div_toward_zero(gravity.y * dt * dt, 2);
        assert(j * gravity.x * dt + gravity.x * dt == k * gravity.x * dt) by (nonlinear_arith)
            requires
                k == j + 1,
        ;
        assert(j * gravity.y * dt + gravity.y * dt == k * gravity.y * dt) by (nonlinear_arith)
            requires
                k == j + 1,
        ;
        assert(gravity.x * dt * dt * j * (j - 1) + 2 * j * hx + 2 * ((j * gravity.x * dt) * dt + hx)
            == gravity.x * dt * dt * k * (k - 1) + 2 * k * hx) by (nonlinear_arith)
            requires
                k == j + 1,
        ;
        assert(gravity.y * dt * dt * j * (j - 1) + 2 * j * hy + 2 * ((j * gravity.y * dt) * dt + hy)
            == gravity.y * dt * dt * k * (k - 1) + 2 * k * hy) by (nonlinear_arith)
            requires
                k == j + 1,
        ;
        assert(moved_times(b, gravity, dt, k) == moved(moved_times(b, gravity, dt, j), gravity, dt));
    } else {
        assert(k * gravity.x * dt == 0 && k * gravity.y * dt == 0) by (nonlinear_arith)
            requires
                k == 0,
        ;
        let hx = div_toward_zero(gravity.x * dt * dt, 2);
        let hy = div_toward_zero(gravity.y * dt * dt, 2);
        assert(gravity.x * dt * dt * k * (k - 1) + 2 * k * hx == 0 && gravity.y * dt * dt * k * (k
            - 1) + 2 * k * hy == 0) by (nonlinear_arith)
            requires
                k == 0,
        ;
    }
}

} // verus!
