use vstd::prelude::*;
use vstd::arithmetic::div_mod::{lemma_fundamental_div_mod, lemma_mod_pos_bound};
use crate::ball::{all_within_limits, states, Ball, BallState, COORD_LIMIT, MAX_BALLS};
use crate::geometry::{
    div_toward_zero, floor_sqrt, is_floor_sqrt, lemma_sqrt_floor_exists, lemma_sqrt_floor_is,
    sqrt_floor, Pt, Vec2,
};

verus! {

/// Denominator of the dampening factor: a dampening of `DAMPENING_SCALE`
/// keeps collision impulses whole.
pub const DAMPENING_SCALE: u64 = 1000;

/// Bound on one pair's correction, per component (2^34).
pub const TERM_BOUND: i64 = 17179869184;

/// Bound on a ball's summed correction, per component: `MAX_BALLS * TERM_BOUND`.
pub const SUM_BOUND: i64 = 1125899906842624;

pub open spec fn origin() -> Pt {
    Pt { x: 0, y: 0 }
}

pub open spec fn plus(p: Pt, q: Pt) -> Pt {
    Pt { x: p.x + q.x, y: p.y + q.y }
}

pub open spec fn minus(p: Pt) -> Pt {
    Pt { x: -p.x, y: -p.y }
}

pub open spec fn bounded(p: Pt, b: int) -> bool {
    -b <= p.x <= b && -b <= p.y <= b
}

/// The sum of a sequence of vectors.
pub open spec fn total(t: Seq<Pt>) -> Pt
    decreases t.len(),
{
    if t.len() == 0 {
        origin()
    } else {
        plus(total(t.drop_last()), t.last())
    }
}

/// Vector from the centre of `b` to the centre of `a`.
pub open spec fn offset(a: BallState, b: BallState) -> Pt {
    Pt { x: a.position.x - b.position.x, y: a.position.y - b.position.y }
}

/// Squared distance between the centres.
pub open spec fn dist_sq(a: BallState, b: BallState) -> int {
    offset(a, b).x * offset(a, b).x + offset(a, b).y * offset(a, b).y
}

/// Sum of the radii.
pub open spec fn reach(a: BallState, b: BallState) -> int {
    a.radius + b.radius
}

/// The balls touch or overlap and their centres differ: a pair with
/// coincident centres has no direction to be pushed along and is skipped.
pub open spec fn in_contact(a: BallState, b: BallState) -> bool {
    dist_sq(a, b) <= reach(a, b) * reach(a, b) && dist_sq(a, b) != 0
}

/// One component of the positional correction of `a` away from `b`:
/// `-0.4 * penetration * c / L`, where `L` is the centre distance rounded
/// down and `penetration = L - reach`.
pub open spec fn push_along(a: BallState, b: BallState, c: int) -> int {
    let l = sqrt_floor(dist_sq(a, b));
    div_toward_zero(2 * (reach(a, b) - l) * c, 5 * l)
}

/// Relative velocity of `a` with respect to `b`, projected on the offset
/// (unnormalised: the dot product).
pub open spec fn approach(a: BallState, b: BallState) -> int {
    (a.velocity.x - b.velocity.x) * offset(a, b).x + (a.velocity.y - b.velocity.y) * offset(a, b).y
}

/// One component of the elastic impulse on `a` from `b`:
/// `-(dot(dv, d) / |d|^2) * c`.
pub open spec fn impulse_along(a: BallState, b: BallState, c: int) -> int {
    -div_toward_zero(approach(a, b) * c, dist_sq(a, b))
}

/// The positional correction that `b` contributes to `a`.
pub open spec fn pair_push(a: BallState, b: BallState) -> Pt {
    if in_contact(a, b) {
        Pt { x: push_along(a, b, offset(a, b).x), y: push_along(a, b, offset(a, b).y) }
    } else {
        origin()
    }
}

/// The velocity correction that `b` contributes to `a`.
pub open spec fn pair_impulse(a: BallState, b: BallState) -> Pt {
    if in_contact(a, b) {
        Pt { x: impulse_along(a, b, offset(a, b).x), y: impulse_along(a, b, offset(a, b).y) }
    } else {
        origin()
    }
}

/// The positional corrections of ball `i` from each ball, none from itself.
pub open spec fn push_terms(s: Seq<BallState>, i: int) -> Seq<Pt> {
    Seq::new(s.len(), |j: int| if j == i { origin() } else { pair_push(s[i], s[j]) })
}

/// The velocity corrections of ball `i` from each ball, none from itself.
pub open spec fn impulse_terms(s: Seq<BallState>, i: int) -> Seq<Pt> {
    Seq::new(s.len(), |j: int| if j == i { origin() } else { pair_impulse(s[i], s[j]) })
}

/// Ball `i` after collision resolution: every correction is summed from the
/// states before the step, then the positional sum is added whole and the
/// velocity sum scaled by `dampening / DAMPENING_SCALE`.
pub open spec fn resolved(s: Seq<BallState>, i: int, dampening: int) -> BallState {
    let p = total(push_terms(s, i));
    let v = total(impulse_terms(s, i));
    BallState {
        position: plus(s[i].position, p),
        velocity: Pt {
            x: s[i].velocity.x + div_toward_zero(dampening * v.x, DAMPENING_SCALE as int),
            y: s[i].velocity.y + div_toward_zero(dampening * v.y, DAMPENING_SCALE as int),
        },
        ..s[i]
    }
}

proof fn lemma_quotient_bound(a: int, d: int, k: int)
    requires
        d > 0,
        k >= 0,
        -(k * d) <= a <= k * d,
    ensures
        -k <= div_toward_zero(a, d) <= k,
        -a <= div_toward_zero(a, d) <= a || a <= div_toward_zero(a, d) <= -a,
{
    let m = if a >= 0 {
        a
    } else {
        -a
    };
    lemma_fundamental_div_mod(m, d);
    lemma_mod_pos_bound(m, d);
    let q = m / d;
    assert(0 <= q <= k && q <= m) by (nonlinear_arith)
        requires
            m == d * q + m % d,
            0 <= m % d < d,
            0 <= m <= k * d,
            d > 0,
    ;
}

fn quotient_toward_zero(a: i128, d: i128) -> (q: i128)
    requires
        d > 0,
        a > i128::MIN,
    ensures
        q == div_toward_zero(a as int, d as int),
{
    if a >= 0 {
        a / d
    } else {
        -((-a) / d)
    }
}

proof fn lemma_component_within_root(c: int, e: int, l: int)
    requires
        is_floor_sqrt(l, c * c + e * e),
    ensures
        -l <= c <= l,
{
    assert(c * c <= c * c + e * e) by (nonlinear_arith);
    if c > l {
        assert((l + 1) * (l + 1) <= c * c) by (nonlinear_arith)
            requires
                0 <= l + 1 <= c,
        ;
    } else if c < -l {
        assert((l + 1) * (l + 1) <= c * c) by (nonlinear_arith)
            requires
                0 <= l + 1 <= -c,
        ;
    }
}

proof fn lemma_root_within_reach(l: int, n: int, r: int)
    requires
        is_floor_sqrt(l, n),
        n <= r * r,
        r >= 0,
    ensures
        l <= r,
{
    if l > r {
        assert(r * r < l * l) by (nonlinear_arith)
            requires
                0 <= r < l,
        ;
    }
}

proof fn lemma_projection_bound(vx: int, vy: int, px: int, py: int, c: int, w: int)
    requires
        -w <= vx <= w,
        -w <= vy <= w,
        c == px || c == py,
        w >= 0,
    ensures
        -(2 * w * (px * px + py * py)) <= (vx * px + vy * py) * c <= 2 * w * (px * px + py * py),
{
    let ax = if px >= 0 { px } else { -px };
    let ay = if py >= 0 { py } else { -py };
    let ac = if c >= 0 { c } else { -c };
    let dot = vx * px + vy * py;
    assert(-(w * (ax + ay)) <= dot <= w * (ax + ay)) by (nonlinear_arith)
        requires
            -w <= vx <= w,
            -w <= vy <= w,
            ax == if px >= 0 { px } else { -px },
            ay == if py >= 0 { py } else { -py },
            dot == vx * px + vy * py,
    ;
    assert((ax + ay) * ac <= 2 * (px * px + py * py)) by (nonlinear_arith)
        requires
            ax == if px >= 0 { px } else { -px },
            ay == if py >= 0 { py } else { -py },
            ac == ax || ac == ay,
    ;
    assert(-(w * (ax + ay) * ac) <= dot * c <= w * (ax + ay) * ac) by (nonlinear_arith)
        requires
            -(w * (ax + ay)) <= dot <= w * (ax + ay),
            ac == if c >= 0 { c } else { -c },
    ;
    assert(w * (ax + ay) * ac <= 2 * w * (px * px + py * py)) by (nonlinear_arith)
        requires
            (ax + ay) * ac <= 2 * (px * px + py * py),
            w >= 0,
    ;
}

/// The corrections that `b` contributes to `a`: position, then velocity.
fn pair_correction(a: &Ball, b: &Ball) -> (r: (Vec2, Vec2))
    requires
        a.within_limits(),
        b.within_limits(),
    ensures
        r.0@ == pair_push(a@, b@),
        r.1@ == pair_impulse(a@, b@),
        bounded(r.0@, TERM_BOUND as int),
        bounded(r.1@, TERM_BOUND as int),
{
    // Differences of two coordinates or velocities, and sums of two radii,
    // lie within 0x1_0000_0000 (twice COORD_LIMIT); the work is done in i128.
    let dx: i128 = a.position.x as i128 - b.position.x as i128;
    let dy: i128 = a.position.y as i128 - b.position.y as i128;
    assert(dx * dx <= 0x1_0000_0000 * 0x1_0000_0000) by (nonlinear_arith)
        requires
            -0x1_0000_0000 <= dx <= 0x1_0000_0000,
    ;
    assert(dy * dy <= 0x1_0000_0000 * 0x1_0000_0000) by (nonlinear_arith)
        requires
            -0x1_0000_0000 <= dy <= 0x1_0000_0000,
    ;
    assert(0 <= dx * dx && 0 <= dy * dy) by (nonlinear_arith);
    let d2: i128 = dx * dx + dy * dy;
    let rsum: i128 = a.radius as i128 + b.radius as i128;
    assert(0 <= rsum * rsum <= 0x1_0000_0000 * 0x1_0000_0000) by (nonlinear_arith)
        requires
            0 <= rsum <= 0x1_0000_0000,
    ;
    assert(d2 == dist_sq(a@, b@));
    assert(rsum == reach(a@, b@));
    if d2 > rsum * rsum || d2 == 0 {
        return (Vec2 { x: 0, y: 0 }, Vec2 { x: 0, y: 0 });
    }
    let l: u64 = floor_sqrt(d2 as u128);
    let l: i128 = l as i128;
    proof {
        lemma_component_within_root(dx as int, dy as int, l as int);
        lemma_component_within_root(dy as int, dx as int, l as int);
        assert(dy * dy + dx * dx == d2);
        lemma_root_within_reach(l as int, d2 as int, rsum as int);
        if l == 0 {
            assert((l + 1) * (l + 1) == 1) by (nonlinear_arith)
                requires
                    l == 0,
            ;
        }
    }
    let gap: i128 = rsum - l;
    assert(-(2 * gap * l) <= 2 * gap * dx <= 2 * gap * l) by (nonlinear_arith)
        requires
            -l <= dx <= l,
            0 <= gap,
    ;
    assert(-(2 * gap * l) <= 2 * gap * dy <= 2 * gap * l) by (nonlinear_arith)
        requires
            -l <= dy <= l,
            0 <= gap,
    ;
    assert(2 * gap * l <= 2 * 0x1_0000_0000 * 0x1_0000_0000) by (nonlinear_arith)
        requires
            0 <= gap <= 0x1_0000_0000,
            0 <= l <= 0x1_0000_0000,
    ;
    assert(2 * gap * l <= 2 * 0x1_0000_0000 * (5 * l)) by (nonlinear_arith)
        requires
            0 <= gap <= 0x1_0000_0000,
            l >= 1,
    ;
    let push_x: i128 = quotient_toward_zero(2 * gap * dx, 5 * l);
    let push_y: i128 = quotient_toward_zero(2 * gap * dy, 5 * l);
    proof {
        lemma_quotient_bound(2 * gap * dx, 5 * l, 0x2_0000_0000int);
        lemma_quotient_bound(2 * gap * dy, 5 * l, 0x2_0000_0000int);
    }
    let vdx: i128 = a.velocity.x as i128 - b.velocity.x as i128;
    let vdy: i128 = a.velocity.y as i128 - b.velocity.y as i128;
    proof {
        lemma_projection_bound(vdx as int, vdy as int, dx as int, dy as int, dx as int, 0x1_0000_0000);
        lemma_projection_bound(vdx as int, vdy as int, dx as int, dy as int, dy as int, 0x1_0000_0000);
    }
    assert(-0x1_0000_0000 * 0x1_0000_0000 <= vdx * dx <= 0x1_0000_0000 * 0x1_0000_0000) by (nonlinear_arith)
        requires
            -0x1_0000_0000 <= vdx <= 0x1_0000_0000,
            -0x1_0000_0000 <= dx <= 0x1_0000_0000,
    ;
    assert(-0x1_0000_0000 * 0x1_0000_0000 <= vdy * dy <= 0x1_0000_0000 * 0x1_0000_0000) by (nonlinear_arith)
        requires
            -0x1_0000_0000 <= vdy <= 0x1_0000_0000,
            -0x1_0000_0000 <= dy <= 0x1_0000_0000,
    ;
    let dot: i128 = vdx * dx + vdy * dy;
    assert(2 * 0x1_0000_0000 * d2 <= 2 * 0x1_0000_0000 * (2 * 0x1_0000_0000 * 0x1_0000_0000)) by (nonlinear_arith)
        requires
            0 <= d2 <= 2 * 0x1_0000_0000 * 0x1_0000_0000,
    ;
    let imp_x: i128 = -quotient_toward_zero(dot * dx, d2);
    let imp_y: i128 = -quotient_toward_zero(dot * dy, d2);
    proof {
        lemma_quotient_bound(dot * dx, d2 as int, 0x2_0000_0000int);
        lemma_quotient_bound(dot * dy, d2 as int, 0x2_0000_0000int);
        assert(in_contact(a@, b@));
        lemma_sqrt_floor_is(l as int, d2 as int);
    }
    (
        Vec2 { x: push_x as i64, y: push_y as i64 },
        Vec2 { x: imp_x as i64, y: imp_y as i64 },
    )
}

/// The corrections that all other balls contribute to ball `i`, summed:
/// position, then velocity.
fn accumulate(balls: &Vec<Ball>, i: usize) -> (r: (Vec2, Vec2))
    requires
        i < balls.len() <= MAX_BALLS,
        all_within_limits(balls@),
    ensures
        r.0@ == total(push_terms(states(balls@), i as int)),
        r.1@ == total(impulse_terms(states(balls@), i as int)),
        bounded(r.0@, SUM_BOUND as int),
        bounded(r.1@, SUM_BOUND as int),
{
    let ghost s = states(balls@);
    let ghost pt = push_terms(s, i as int);
    let ghost it = impulse_terms(s, i as int);
    let mut px: i64 = 0;
    let mut py: i64 = 0;
    let mut vx: i64 = 0;
    let mut vy: i64 = 0;
    let mut j: usize = 0;
    assert(pt.take(0) =~= Seq::<Pt>::empty());
    assert(it.take(0) =~= Seq::<Pt>::empty());
    while j < balls.len()
        invariant
            i < balls.len() <= MAX_BALLS,
            all_within_limits(balls@),
            s == states(balls@),
            pt == push_terms(s, i as int),
            it == impulse_terms(s, i as int),
            j <= balls.len(),
            (Pt { x: px as int, y: py as int }) == total(pt.take(j as int)),
            (Pt { x: vx as int, y: vy as int }) == total(it.take(j as int)),
            bounded(Pt { x: px as int, y: py as int }, j * TERM_BOUND),
            bounded(Pt { x: vx as int, y: vy as int }, j * TERM_BOUND),
        decreases balls.len() - j,
    {
        if j != i {
            let (push, impulse) = pair_correction(&balls[i], &balls[j]);
            assert(balls@[i as int]@ == s[i as int] && balls@[j as int]@ == s[j as int]);
            assert(j * TERM_BOUND + TERM_BOUND <= MAX_BALLS * TERM_BOUND) by (nonlinear_arith)
                requires
                    j < MAX_BALLS,
            ;
            px = px + push.x;
            py = py + push.y;
            vx = vx + impulse.x;
            vy = vy + impulse.y;
        }
        proof {
            assert(pt.take(j + 1).drop_last() =~= pt.take(j as int));
            assert(it.take(j + 1).drop_last() =~= it.take(j as int));
            assert(j * TERM_BOUND + TERM_BOUND == (j + 1) * TERM_BOUND) by (nonlinear_arith);
        }
        j = j + 1;
    }
    assert(pt.take(j as int) =~= pt);
    assert(it.take(j as int) =~= it);
    assert(j * TERM_BOUND <= MAX_BALLS * TERM_BOUND) by (nonlinear_arith)
        requires
            j <= MAX_BALLS,
    ;
    (Vec2 { x: px, y: py }, Vec2 { x: vx, y: vy })
}

/// Resolves every pair of touching balls with soft corrections. All
/// corrections are computed from the states before the step and summed per
/// ball; only then is any ball changed, so the order of the balls does not
/// bias the outcome. `dampening` is the share, in thousandths, of the summed
/// velocity correction that is applied.
pub fn check_ball_collision(balls: &mut Vec<Ball>, dampening: u64)
    requires
        old(balls).len() <= MAX_BALLS,
        all_within_limits(old(balls)@),
        0 < dampening <= DAMPENING_SCALE,
    ensures
        final(balls).len() == old(balls).len(),
        forall|i: int|
            0 <= i < final(balls).len() ==> (#[trigger] final(balls)[i])@ == resolved(
                states(old(balls)@),
                i,
                dampening as int,
            ),
{
    let ghost s = states(balls@);
    let n = balls.len();
    let mut pushes: Vec<Vec2> = Vec::with_capacity(n);
    let mut impulses: Vec<Vec2> = Vec::with_capacity(n);
    let mut i: usize = 0;
    while i < n
        invariant
            n == balls.len() <= MAX_BALLS,
            all_within_limits(balls@),
            s == states(balls@),
            i <= n,
            pushes.len() == i,
            impulses.len() == i,
            forall|k: int| 0 <= k < i ==> (#[trigger] pushes@[k])@ == total(push_terms(s, k)),
            forall|k: int| 0 <= k < i ==> (#[trigger] impulses@[k])@ == total(impulse_terms(s, k)),
            forall|k: int| 0 <= k < i ==> bounded((#[trigger] pushes@[k])@, SUM_BOUND as int),
            forall|k: int| 0 <= k < i ==> bounded((#[trigger] impulses@[k])@, SUM_BOUND as int),
        decreases n - i,
    {
        let (p, v) = accumulate(balls, i);
        pushes.push(p);
        impulses.push(v);
        i = i + 1;
    }
    let ghost before = balls@;
    let mut k: usize = 0;
    while k < n
        invariant
            n == balls.len() == before.len(),
            s == states(before),
            all_within_limits(before),
            0 < dampening <= DAMPENING_SCALE,
            k <= n,
            pushes.len() == n,
            impulses.len() == n,
            forall|m: int| 0 <= m < n ==> (#[trigger] pushes@[m])@ == total(push_terms(s, m)),
            forall|m: int| 0 <= m < n ==> (#[trigger] impulses@[m])@ == total(impulse_terms(s, m)),
            forall|m: int| 0 <= m < n ==> bounded((#[trigger] pushes@[m])@, SUM_BOUND as int),
            forall|m: int| 0 <= m < n ==> bounded((#[trigger] impulses@[m])@, SUM_BOUND as int),
            forall|m: int| 0 <= m < k ==> (#[trigger] balls@[m])@ == resolved(s, m, dampening as int),
            forall|m: int| k <= m < n ==> #[trigger] balls@[m] == before[m],
        decreases n - k,
    {
        let mut b = balls[k];
        assert(b.within_limits());
        assert(b@ == s[k as int]);
        let p = pushes[k];
        let v = impulses[k];
        let ghost (sx, sy) = (v.x as int, v.y as int);
        proof {
            assert(bounded(impulses@[k as int]@, SUM_BOUND as int));
            assert(bounded(pushes@[k as int]@, SUM_BOUND as int));
            assert(-(SUM_BOUND * DAMPENING_SCALE) <= dampening * sx <= SUM_BOUND * DAMPENING_SCALE) by (nonlinear_arith)
                requires
                    0 < dampening <= DAMPENING_SCALE,
                    -SUM_BOUND <= sx <= SUM_BOUND,
            ;
            assert(-(SUM_BOUND * DAMPENING_SCALE) <= dampening * sy <= SUM_BOUND * DAMPENING_SCALE) by (nonlinear_arith)
                requires
                    0 < dampening <= DAMPENING_SCALE,
                    -SUM_BOUND <= sy <= SUM_BOUND,
            ;
            lemma_quotient_bound(dampening * sx, DAMPENING_SCALE as int, SUM_BOUND as int);
            lemma_quotient_bound(dampening * sy, DAMPENING_SCALE as int, SUM_BOUND as int);
        }
        let dvx: i128 = quotient_toward_zero(dampening as i128 * v.x as i128, DAMPENING_SCALE as i128);
        let dvy: i128 = quotient_toward_zero(dampening as i128 * v.y as i128, DAMPENING_SCALE as i128);
        b.position = Vec2 { x: b.position.x + p.x, y: b.position.y + p.y };
        b.velocity = Vec2 { x: b.velocity.x + dvx as i64, y: b.velocity.y + dvy as i64 };
        balls.set(k, b);
        k = k + 1;
    }
}


proof fn lemma_div_toward_zero_odd(a: int, d: int)
    requires
        d > 0,
    ensures
        div_toward_zero(-a, d) == -div_toward_zero(a, d),
{
    if a == 0 {
        assert(0int / d == 0) by (nonlinear_arith)
            requires
                d > 0,
        ;
    }
}

/// What `b` contributes to `a` is the exact negation of what `a` contributes
/// to `b`, for the positional and for the velocity correction: with a
/// dampening of one, each pair conserves momentum.
pub proof fn lemma_pair_antisymmetric(a: BallState, b: BallState)
    ensures
        pair_push(a, b) == minus(pair_push(b, a)),
        pair_impulse(a, b) == minus(pair_impulse(b, a)),
{
    let d = offset(a, b);
    assert(offset(b, a) == minus(d));
    assert(dist_sq(b, a) == dist_sq(a, b)) by (nonlinear_arith)
        requires
            offset(b, a).x == -d.x,
            offset(b, a).y == -d.y,
            dist_sq(a, b) == d.x * d.x + d.y * d.y,
            dist_sq(b, a) == offset(b, a).x * offset(b, a).x + offset(b, a).y * offset(b, a).y,
    ;
    if in_contact(a, b) {
        let l = sqrt_floor(dist_sq(a, b));
        let g = reach(a, b) - l;
        assert(2 * g * (-d.x) == -(2 * g * d.x)) by (nonlinear_arith);
        assert(2 * g * (-d.y) == -(2 * g * d.y)) by (nonlinear_arith);
        assert(dist_sq(a, b) >= 0) by (nonlinear_arith)
            requires
                dist_sq(a, b) == d.x * d.x + d.y * d.y,
        ;
        assert(l >= 1) by {
            lemma_sqrt_floor_exists(dist_sq(a, b));
            if l == 0 {
                assert((l + 1) * (l + 1) == 1) by (nonlinear_arith)
                    requires
                        l == 0,
                ;
            }
        }
        lemma_div_toward_zero_odd(2 * g * d.x, 5 * l);
        lemma_div_toward_zero_odd(2 * g * d.y, 5 * l);
        let q = approach(a, b);
        assert(approach(b, a) == q) by (nonlinear_arith)
            requires
                offset(b, a).x == -d.x,
                offset(b, a).y == -d.y,
                q == (a.velocity.x - b.velocity.x) * d.x + (a.velocity.y - b.velocity.y) * d.y,
                approach(b, a) == (b.velocity.x - a.velocity.x) * offset(b, a).x + (b.velocity.y
                    - a.velocity.y) * offset(b, a).y,
        ;
        assert(q * (-d.x) == -(q * d.x)) by (nonlinear_arith);
        assert(q * (-d.y) == -(q * d.y)) by (nonlinear_arith);
        lemma_div_toward_zero_odd(q * d.x, dist_sq(a, b));
        lemma_div_toward_zero_odd(q * d.y, dist_sq(a, b));
    }
}

/// Two balls whose centres coincide contribute nothing to each other.
pub proof fn lemma_coincident_pair_is_skipped(a: BallState, b: BallState)
    requires
        a.position == b.position,
    ensures
        pair_push(a, b) == origin(),
        pair_impulse(a, b) == origin(),
{
    assert(dist_sq(a, b) == 0);
}

proof fn lemma_total_split_first(t: Seq<Pt>)
    requires
        t.len() >= 1,
    ensures
        total(t) == plus(t[0], total(t.drop_first())),
    decreases t.len(),
{
    if t.len() == 1 {
        assert(total(t.drop_last()) == origin());
        assert(total(t.drop_first()) == origin());
    } else {
        lemma_total_split_first(t.drop_last());
        assert(t.drop_last().drop_first() =~= t.drop_first().drop_last());
        assert(t.drop_last()[0] == t[0]);
        assert(t.drop_first().last() == t.last());
        assert(total(t.drop_first()) == plus(
            total(t.drop_first().drop_last()),
            t.drop_first().last(),
        ));
    }
}

/// Summing a sequence of vectors in reverse order gives the same sum.
pub proof fn lemma_total_reverse(t: Seq<Pt>)
    ensures
        total(t.reverse()) == total(t),
    decreases t.len(),
{
    if t.len() > 0 {
        let r = t.reverse();
        assert(r.drop_last() =~= t.drop_first().reverse());
        assert(r.last() == t[0]);
        lemma_total_reverse(t.drop_first());
        lemma_total_split_first(t);
    }
}

/// Resolving the balls listed in reverse order gives every ball the same
/// state as resolving them in the original order.
pub proof fn lemma_resolve_order_independent(s: Seq<BallState>, i: int, dampening: int)
    requires
        0 <= i < s.len(),
    ensures
        resolved(s.reverse(), s.len() - 1 - i, dampening) == resolved(s, i, dampening),
{
    let r = s.reverse();
    let n = s.len();
    let ri = n - 1 - i;
    assert(r[ri] == s[i]);
    assert(push_terms(r, ri) =~= push_terms(s, i).reverse());
    assert(impulse_terms(r, ri) =~= impulse_terms(s, i).reverse());
    lemma_total_reverse(push_terms(s, i));
    lemma_total_reverse(impulse_terms(s, i));
}

proof fn lemma_total_of_pair(t: Seq<Pt>)
    requires
        t.len() == 2,
    ensures
        total(t) == plus(t[0], t[1]),
{
    lemma_total_split_first(t);
    assert(t.drop_first().drop_last().len() == 0);
    assert(total(t.drop_first()) == plus(total(t.drop_first().drop_last()), t[1]));
}

/// For two balls, resolution moves them by opposite amounts, and with a
/// dampening of one their velocity changes are opposite too: momentum is
/// conserved.
pub proof fn lemma_two_balls_conserve_momentum(s: Seq<BallState>)
    requires
        s.len() == 2,
    ensures
        resolved(s, 0, DAMPENING_SCALE as int).position.x - s[0].position.x == -(resolved(
            s,
            1,
            DAMPENING_SCALE as int,
        ).position.x - s[1].position.x),
        resolved(s, 0, DAMPENING_SCALE as int).position.y - s[0].position.y == -(resolved(
            s,
            1,
            DAMPENING_SCALE as int,
        ).position.y - s[1].position.y),
        resolved(s, 0, DAMPENING_SCALE as int).velocity.x - s[0].velocity.x == -(resolved(
            s,
            1,
            DAMPENING_SCALE as int,
        ).velocity.x - s[1].velocity.x),
        resolved(s, 0, DAMPENING_SCALE as int).velocity.y - s[0].velocity.y == -(resolved(
            s,
            1,
            DAMPENING_SCALE as int,
        ).velocity.y - s[1].velocity.y),
{
    lemma_pair_antisymmetric(s[0], s[1]);
    lemma_total_of_pair(push_terms(s, 0));
    lemma_total_of_pair(push_terms(s, 1));
    lemma_total_of_pair(impulse_terms(s, 0));
    lemma_total_of_pair(impulse_terms(s, 1));
    let v = pair_impulse(s[0], s[1]);
    let scale = DAMPENING_SCALE as int;
    assert(scale * v.x / scale == v.x && scale * (-v.x) / scale == -v.x && scale * v.y / scale
        == v.y && scale * (-v.y) / scale == -v.y) by (nonlinear_arith)
        requires
            scale == 1000,
    ;
}

} // verus!
