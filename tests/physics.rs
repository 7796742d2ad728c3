use ball_physics::{
    ball_check_border, ball_movement, balls_within_limits, check_ball_collision, floor_sqrt,
    spawn_ball_function, spawn_positions, spawn_rate_limiter, speed_hue, Ball, Vec2,
    COORD_LIMIT, SPAWN_COOLDOWN_MICROS,
};

fn ball(id: u64, x: i64, y: i64, radius: i64, vx: i64, vy: i64) -> Ball {
    Ball::new(id, Vec2::new(x, y), radius, Vec2::new(vx, vy))
}

#[test]
fn two_overlapping_balls_at_rest_are_pushed_apart() {
    let mut balls = vec![ball(1, 0, 0, 10, 0, 0), ball(2, 15, 0, 10, 0, 0)];
    check_ball_collision(&mut balls, 998);
    assert_eq!(balls[0].position, Vec2::new(-2, 0));
    assert_eq!(balls[1].position, Vec2::new(17, 0));
    assert_eq!(balls[0].velocity, Vec2::new(0, 0));
    assert_eq!(balls[1].velocity, Vec2::new(0, 0));
    assert_eq!(balls[0].id, 1);
    assert_eq!(balls[1].radius, 10);
}

#[test]
fn head_on_collision_exchanges_velocities_without_dampening() {
    let mut balls = vec![ball(1, 0, 0, 10, 10, 0), ball(2, 15, 0, 10, -10, 0)];
    check_ball_collision(&mut balls, 1000);
    assert_eq!(balls[0].velocity, Vec2::new(-10, 0));
    assert_eq!(balls[1].velocity, Vec2::new(10, 0));
}

#[test]
fn dampening_scales_the_velocity_correction() {
    let mut balls = vec![ball(1, 0, 0, 10, 10, 0), ball(2, 15, 0, 10, -10, 0)];
    check_ball_collision(&mut balls, 998);
    // 10 + trunc(998 * -20 / 1000) = 10 - 19
    assert_eq!(balls[0].velocity, Vec2::new(-9, 0));
    assert_eq!(balls[1].velocity, Vec2::new(9, 0));
}

#[test]
fn pair_corrections_are_opposite() {
    let mut balls = vec![ball(1, 100, 200, 30, 7, -3), ball(2, 120, 237, 30, -7, 3)];
    let before = balls.clone();
    check_ball_collision(&mut balls, 1000);
    let dp0 = (balls[0].position.x - before[0].position.x, balls[0].position.y - before[0].position.y);
    let dp1 = (balls[1].position.x - before[1].position.x, balls[1].position.y - before[1].position.y);
    assert_eq!(dp0, (-dp1.0, -dp1.1));
    assert_ne!(dp0, (0, 0));
    let dv0 = (balls[0].velocity.x - before[0].velocity.x, balls[0].velocity.y - before[0].velocity.y);
    let dv1 = (balls[1].velocity.x - before[1].velocity.x, balls[1].velocity.y - before[1].velocity.y);
    assert_eq!(dv0, (-dv1.0, -dv1.1));
    assert_ne!(dv0, (0, 0));
}

#[test]
fn resolution_does_not_depend_on_order() {
    let a = ball(1, 0, 0, 20, 5, 1);
    let b = ball(2, 25, 4, 15, -3, 2);
    let c = ball(3, 12, 30, 18, 0, -6);
    let mut forward = vec![a, b, c];
    let mut backward = vec![c, b, a];
    check_ball_collision(&mut forward, 998);
    check_ball_collision(&mut backward, 998);
    assert_eq!(forward[0], backward[2]);
    assert_eq!(forward[1], backward[1]);
    assert_eq!(forward[2], backward[0]);
    assert_ne!(forward[0], a);
}

#[test]
fn coincident_balls_are_left_alone() {
    let mut balls = vec![ball(1, 50, 50, 10, 3, 4), ball(2, 50, 50, 10, -1, 2)];
    let before = balls.clone();
    check_ball_collision(&mut balls, 998);
    assert_eq!(balls, before);
}

#[test]
fn distant_balls_are_left_alone() {
    let mut balls = vec![ball(1, 0, 0, 10, 3, 4), ball(2, 21, 0, 10, -1, 2)];
    let before = balls.clone();
    check_ball_collision(&mut balls, 998);
    assert_eq!(balls, before);
}

#[test]
fn touching_balls_are_in_contact() {
    let mut balls = vec![ball(1, 0, 0, 10, 0, 0), ball(2, 20, 0, 10, 4, 0)];
    check_ball_collision(&mut balls, 1000);
    // no overlap to push out, but the approaching velocity is exchanged
    assert_eq!(balls[0].position, Vec2::new(0, 0));
    assert_eq!(balls[0].velocity, Vec2::new(4, 0));
    assert_eq!(balls[1].velocity, Vec2::new(0, 0));
}

#[test]
fn empty_set_is_unchanged() {
    let mut balls: Vec<Ball> = Vec::new();
    check_ball_collision(&mut balls, 998);
    ball_movement(&mut balls, Vec2::new(0, -100), 1);
    ball_check_border(&mut balls, 800, 600);
    assert!(balls.is_empty());
}

#[test]
fn free_fall_follows_closed_form() {
    let mut balls = vec![ball(1, 0, 1_000_000, 10, 0, 0)];
    for _ in 0..10 {
        ball_movement(&mut balls, Vec2::new(0, -100), 1);
    }
    assert_eq!(balls[0].velocity, Vec2::new(0, -1000));
    assert_eq!(balls[0].position, Vec2::new(0, 1_000_000 - 5000));
}

#[test]
fn movement_uses_velocity_before_the_step() {
    let mut balls = vec![ball(1, 10, 20, 5, 3, -4)];
    ball_movement(&mut balls, Vec2::new(2, -6), 2);
    // x: 10 + 3*2 + 2*4/2, y: 20 - 4*2 - 6*4/2
    assert_eq!(balls[0].position, Vec2::new(20, 0));
    assert_eq!(balls[0].velocity, Vec2::new(7, -16));
}

#[test]
fn odd_half_step_rounds_toward_zero() {
    let mut balls = vec![ball(1, 0, 0, 5, 0, 0)];
    ball_movement(&mut balls, Vec2::new(3, -3), 1);
    assert_eq!(balls[0].position, Vec2::new(1, -1));
    assert_eq!(balls[0].velocity, Vec2::new(3, -3));
}

#[test]
fn ball_crossing_left_border_is_clamped_and_reflected() {
    let mut balls = vec![ball(1, 10, 300, 10, -5, 0)];
    ball_movement(&mut balls, Vec2::new(0, 0), 1);
    assert_eq!(balls[0].position.x, 5);
    ball_check_border(&mut balls, 800, 600);
    assert_eq!(balls[0].position, Vec2::new(10, 300));
    assert_eq!(balls[0].velocity, Vec2::new(5, 0));
    let once = balls.clone();
    ball_check_border(&mut balls, 800, 600);
    assert_eq!(balls, once);
}

#[test]
fn boundary_scenario_left_edge() {
    let mut balls = vec![ball(1, -3, 300, 10, -7, 2)];
    ball_check_border(&mut balls, 800, 600);
    assert_eq!(balls[0].position, Vec2::new(10, 300));
    assert_eq!(balls[0].velocity, Vec2::new(7, 2));
}

#[test]
fn both_axes_are_reflected_at_a_corner() {
    let mut balls = vec![ball(1, 795, 598, 10, 4, 9)];
    ball_check_border(&mut balls, 800, 600);
    assert_eq!(balls[0].position, Vec2::new(790, 590));
    assert_eq!(balls[0].velocity, Vec2::new(-4, -9));
}

#[test]
fn ball_inside_is_not_reflected() {
    let mut balls = vec![ball(1, 400, 300, 10, -4, 9)];
    let before = balls.clone();
    ball_check_border(&mut balls, 800, 600);
    assert_eq!(balls, before);
}

#[test]
fn integer_square_root_rounds_down() {
    assert_eq!(floor_sqrt(0), 0);
    assert_eq!(floor_sqrt(1), 1);
    assert_eq!(floor_sqrt(224), 14);
    assert_eq!(floor_sqrt(225), 15);
    assert_eq!(floor_sqrt(1u128 << 64), 1u64 << 32);
}

#[test]
fn speed_and_hue() {
    let b = ball(1, 0, 0, 5, 300, 400);
    assert_eq!(b.speed(), 500);
    assert_eq!(speed_hue(500), 55);
    assert_eq!(speed_hue(9 * 365), 5);
}

#[test]
fn limits_are_checked() {
    let ok = vec![ball(1, COORD_LIMIT, -COORD_LIMIT, 1, 0, 0)];
    assert!(balls_within_limits(&ok));
    let too_far = vec![ball(1, 0, 0, 1, COORD_LIMIT + 1, 0)];
    assert!(!balls_within_limits(&too_far));
}

#[test]
fn rate_limiter_waits_for_cooldown() {
    let mut limiter = spawn_rate_limiter();
    assert_eq!(limiter.elapsed_micros, 0);
    assert!(!limiter.tick(SPAWN_COOLDOWN_MICROS - 1));
    assert!(limiter.tick(1));
    assert!(limiter.tick(u64::MAX));
    assert_eq!(limiter.elapsed_micros, u64::MAX);
    limiter.reset();
    assert_eq!(limiter.elapsed_micros, 0);
}

#[test]
fn spawn_positions_follow_input() {
    let mut limiter = spawn_rate_limiter();
    let touches = vec![Vec2::new(1, 2), Vec2::new(3, 4)];
    let early = spawn_positions(&mut limiter, 1000, Some(Vec2::new(9, 9)), true, &touches);
    assert!(early.is_empty());
    let ready = spawn_positions(&mut limiter, SPAWN_COOLDOWN_MICROS, Some(Vec2::new(9, 9)), true, &touches);
    assert_eq!(ready, vec![Vec2::new(9, 9), Vec2::new(1, 2), Vec2::new(3, 4)]);
    let no_click = spawn_positions(&mut limiter, 0, Some(Vec2::new(9, 9)), false, &touches);
    assert_eq!(no_click, touches);
    let no_cursor = spawn_positions(&mut limiter, 0, None, true, &Vec::new());
    assert!(no_cursor.is_empty());
}

#[test]
fn spawned_balls_are_drawn_from_the_ranges() {
    let mut limiter = spawn_rate_limiter();
    limiter.tick(SPAWN_COOLDOWN_MICROS);
    let mut radii = Vec::new();
    for id in 0..200u64 {
        let b = spawn_ball_function(&mut limiter, id, Vec2::new(40, 50), 5, 20, 40);
        assert_eq!(limiter.elapsed_micros, 0);
        assert_eq!(b.id, id);
        assert_eq!(b.position, Vec2::new(40, 50));
        assert!(5 <= b.radius && b.radius <= 20);
        assert!(-40 <= b.velocity.x && b.velocity.x <= 40);
        assert!(-40 <= b.velocity.y && b.velocity.y <= 40);
        radii.push(b.radius);
    }
    assert!(radii.iter().any(|&r| r != 5));
    assert!(radii.iter().any(|&r| r != radii[0]));
}
