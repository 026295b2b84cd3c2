use verlet_sim::body::{Bounds, Point, GRAVITY, UNIT};
use verlet_sim::collision::solve_collision;
use verlet_sim::world::step;

fn arena() -> Bounds {
    Bounds::new(-40 * UNIT, -12 * UNIT, 40 * UNIT, 40 * UNIT)
}

fn open_space() -> Bounds {
    Bounds::new(-100_000 * UNIT, -100_000 * UNIT, 100_000 * UNIT, 100_000 * UNIT)
}

fn same(a: &Point, b: &Point) -> bool {
    a.id == b.id
        && a.x == b.x
        && a.y == b.y
        && a.old_x == b.old_x
        && a.old_y == b.old_y
        && a.radius == b.radius
        && a.acc_x == b.acc_x
        && a.acc_y == b.acc_y
}

#[test]
fn new_derives_previous_position_from_velocity() {
    let p = Point::new(7, 5 * UNIT, 20 * UNIT, 100_000, -20_000);
    assert_eq!(p.id, 7);
    assert_eq!((p.x, p.y), (5_000_000, 20_000_000));
    assert_eq!((p.old_x, p.old_y), (4_900_000, 20_020_000));
    assert_eq!(p.radius, UNIT);
    assert_eq!((p.acc_x, p.acc_y), (0, 0));
    assert_eq!((p.vel_x(), p.vel_y()), (100_000, -20_000));
}

#[test]
fn accelerations_add_up() {
    let mut p = Point::new(0, 0, 0, 0, 0);
    p.apply_acceleration(3, GRAVITY);
    p.apply_acceleration(-5, 7);
    assert_eq!((p.acc_x, p.acc_y), (-2, GRAVITY + 7));
}

#[test]
fn move_point_damps_velocity_and_adds_acceleration() {
    let mut p = Point::new(0, 0, 0, 1000, 0);
    p.apply_acceleration(0, GRAVITY);
    p.move_point(&open_space(), 2000);
    // velocity 1000 damped to 990; gravity over 2 ms moves by -400
    assert_eq!((p.x, p.y), (990, -400));
    assert_eq!((p.old_x, p.old_y), (0, 0));
    assert_eq!((p.acc_x, p.acc_y), (0, 0));
}

#[test]
fn wall_on_max_side_clamps_and_reflects() {
    let mut p = Point::new(0, 39_900_000, 0, 200_000, 0);
    p.move_point(&arena(), 0);
    assert_eq!(p.x, 40_000_000);
    // overshoot velocity 198_000, damped twice by friction and once by bounce
    assert_eq!(p.old_x, 40_194_059);
    assert_eq!(p.vel_x(), -194_059);
}

#[test]
fn wall_on_min_side_clamps_and_reflects() {
    let mut p = Point::new(0, -39_900_000, 0, -200_000, 0);
    p.move_point(&arena(), 0);
    assert_eq!(p.x, -40_000_000);
    assert_eq!(p.old_x, -40_194_059);
}

#[test]
fn constrain_point_leaves_inside_point_alone() {
    let b = arena();
    let mut p = Point::new(0, UNIT, UNIT, 5, 5);
    b.constrain_point(&mut p, verlet_sim::body::Axis::Horizontal);
    b.constrain_point(&mut p, verlet_sim::body::Axis::Vertical);
    assert_eq!((p.x, p.y, p.old_x, p.old_y), (UNIT, UNIT, UNIT - 5, UNIT - 5));
}

#[test]
fn constrain_point_vertical_floor() {
    let b = arena();
    let mut p = Point::new(0, 0, -13 * UNIT, 0, -1000);
    b.constrain_point(&mut p, verlet_sim::body::Axis::Vertical);
    assert_eq!(p.y, -12 * UNIT);
    // raw velocity -1000 -> damped -990 -> bounced -980
    assert_eq!(p.old_y, -12 * UNIT - 980);
    assert_eq!(p.x, 0);
}

#[test]
fn distance_is_rounded_down() {
    let a = Point::new(0, 0, 0, 0, 0);
    let b = Point::new(1, 3 * UNIT, 4 * UNIT, 0, 0);
    assert_eq!(a.dist(&b), 5 * UNIT);
    let c = Point::new(2, 1, 1, 0, 0);
    assert_eq!(a.dist(&c), 1);
}

#[test]
fn touching_discs_do_not_collide() {
    let a = Point::new(0, 0, 0, 0, 0);
    let b = Point::new(1, 2 * UNIT, 0, 0, 0);
    assert!(!a.colliding(&b));
    let c = Point::new(2, 2 * UNIT - 1, 0, 0, 0);
    assert!(a.colliding(&c));
}

#[test]
fn overlapping_pair_separates_in_one_resolve() {
    let mut a = Point::new(0, 0, 0, 0, 0);
    let mut b = Point::new(1, UNIT, 0, 0, 0);
    solve_collision(&mut a, &mut b);
    // each moves half the penetration times 0.99 along x
    assert_eq!((a.x, a.y), (-495_000, 0));
    assert_eq!((b.x, b.y), (1_495_000, 0));
    assert_eq!(a.dist(&b), 1_990_000);
    assert!(a.dist(&b) >= 2 * UNIT - UNIT / 50);
}

#[test]
fn resolve_moves_by_opposite_vectors() {
    let mut a = Point::new(0, 0, 0, 0, 0);
    let mut b = Point::new(1, 300_000, 400_000, 0, 0);
    solve_collision(&mut a, &mut b);
    assert_eq!((a.x, a.y), (-445_500, -594_000));
    assert_eq!((b.x, b.y), (745_500, 994_000));
    assert_eq!(a.x - 0, -(b.x - 300_000));
    assert_eq!(a.y - 0, -(b.y - 400_000));
    assert_eq!((a.old_x, a.old_y, b.old_x, b.old_y), (0, 0, 300_000, 400_000));
}

#[test]
fn coincident_pair_is_left_alone() {
    let mut a = Point::new(0, UNIT, UNIT, 0, 0);
    let mut b = Point::new(1, UNIT, UNIT, 0, 0);
    solve_collision(&mut a, &mut b);
    assert_eq!((a.x, a.y, b.x, b.y), (UNIT, UNIT, UNIT, UNIT));
}

#[test]
fn repeated_resolve_never_deepens_penetration() {
    let mut a = Point::new(0, 0, 0, 0, 0);
    let mut b = Point::new(1, UNIT, 0, 0, 0);
    let mut pen = 2 * UNIT - a.dist(&b);
    let mut seen = Vec::new();
    for _ in 0..10 {
        solve_collision(&mut a, &mut b);
        let next = 2 * UNIT - a.dist(&b);
        assert!(next <= pen);
        pen = next;
        seen.push(pen);
    }
    assert_eq!(&seen[0..3], &[10_000, 100, 2]);
    assert!(pen <= 2);
}

#[test]
fn free_fall_settles_on_floor() {
    let b = arena();
    let mut points = vec![Point::new(0, 0, 50 * UNIT, 0, 0)];
    for _ in 0..243 {
        step(&mut points, &b, 16_666);
    }
    for _ in 0..200 {
        step(&mut points, &b, 16_666);
        assert_eq!(points[0].y, -12 * UNIT);
    }
}

#[test]
fn free_fall_first_frames() {
    let b = arena();
    let mut points = vec![Point::new(0, 0, 50 * UNIT, 0, 0)];
    step(&mut points, &b, 16_666);
    // the first frame starts above the ceiling and is clamped to it
    assert_eq!(points[0].y, 39_990_966);
    step(&mut points, &b, 16_666);
    assert_eq!(points[0].y, 39_956_290);
    step(&mut points, &b, 16_666);
    assert_eq!(points[0].y, 39_897_565);
}

#[test]
fn step_keeps_separate_points_inside() {
    let b = arena();
    let mut points = vec![
        Point::new(0, -30 * UNIT, 0, -3 * UNIT, 2 * UNIT),
        Point::new(1, 30 * UNIT, 10 * UNIT, 3 * UNIT, -2 * UNIT),
        Point::new(2, 0, 30 * UNIT, 0, 4 * UNIT),
    ];
    for _ in 0..50 {
        step(&mut points, &b, 16_666);
        for p in points.iter() {
            assert!(b.min_x <= p.x && p.x <= b.max_x);
            assert!(b.min_y <= p.y && p.y <= b.max_y);
        }
    }
}

#[test]
fn step_is_deterministic() {
    let b = arena();
    let start = vec![
        Point::new(0, 0, 20 * UNIT, 100_000, 20_000),
        Point::new(1, UNIT, 21 * UNIT, -50_000, 0),
        Point::new(2, -UNIT, 19 * UNIT, 0, 0),
        Point::new(3, 0, 18 * UNIT, 30_000, -40_000),
    ];
    let mut first = start.clone();
    let mut second = start.clone();
    for _ in 0..120 {
        step(&mut first, &b, 16_666);
        step(&mut second, &b, 16_666);
    }
    for k in 0..start.len() {
        assert!(same(&first[k], &second[k]));
    }
}

#[test]
fn lone_frame_matches_open_space_recurrence() {
    let mut points = vec![Point::new(0, 0, 0, 1000, 0)];
    step(&mut points, &open_space(), 16_000);
    let (mut x, mut y, mut vx, mut vy) = (0i64, 0i64, 1000i64, 0i64);
    for _ in 0..8 {
        vx = vx * 99 / 100;
        vy = vy * 99 / 100 + GRAVITY * 2000 * 2000 / 1_000_000_000_000;
        x += vx;
        y += vy;
    }
    assert_eq!((points[0].x, points[0].y), (x, y));
    assert_eq!((points[0].x - points[0].old_x, points[0].y - points[0].old_y), (vx, vy));
}

#[test]
fn collisions_resolve_after_every_substep_integration() {
    let b = arena();
    let mut points = vec![Point::new(0, 0, 0, 0, 0), Point::new(1, 1_500_000, 0, -600_000, 0)];
    step(&mut points, &b, 16_000);
    assert_eq!((points[0].x, points[0].y), (-4_183_591, -14_064));
    assert_eq!((points[0].old_x, points[0].old_y), (-3_678_853, -10_976));
    assert_eq!((points[1].x, points[1].y), (1_094_654, -14_064));
    assert_eq!((points[1].old_x, points[1].old_y), (1_143_557, -10_976));
}

#[test]
fn bounds_new_keeps_argument_order() {
    let b = Bounds::new(-1, -2, 3, 4);
    assert_eq!((b.min_x, b.min_y, b.max_x, b.max_y), (-1, -2, 3, 4));
}

#[test]
fn limits_are_checked() {
    assert!(arena().is_valid());
    assert!(!Bounds::new(1, 0, 0, 0).is_valid());
    assert!(Point::new(0, UNIT, UNIT, 0, 0).in_limits());
    let mut far = Point::new(0, 0, 0, 0, 0);
    far.x = i64::MAX;
    assert!(!far.in_limits());
}

#[test]
fn collision_pass_runs_after_the_wall_clamp() {
    // both particles fall onto each other; the lower one is clamped to the
    // floor first, then the collision pass pushes it slightly below it
    let b = arena();
    let mut points = vec![Point::new(0, 0, -12 * UNIT, 0, 0), Point::new(1, 0, -10 * UNIT, 0, 0)];
    step(&mut points, &b, 16_666);
    assert_eq!((points[0].x, points[0].y), (0, -12_000_407));
    assert_eq!((points[1].x, points[1].y), (0, -10_000_417));
}

#[test]
fn resting_point_stays_on_floor() {
    let b = arena();
    let mut points = vec![Point::new(0, 3 * UNIT, -12 * UNIT, 20_000, 0)];
    for _ in 0..100 {
        step(&mut points, &b, 16_666);
        assert_eq!(points[0].y, -12 * UNIT);
        assert!(points[0].y - points[0].old_y >= 0);
    }
}

#[test]
fn level_pair_penetration_shrinks_a_hundredfold() {
    let mut a = Point::new(0, 5 * UNIT, 0, 0, 0);
    let mut b = Point::new(1, 4 * UNIT, 0, 0, 0);
    let pen = 2 * UNIT - a.dist(&b);
    solve_collision(&mut a, &mut b);
    let next = 2 * UNIT - a.dist(&b);
    assert_eq!(next, 10_000);
    assert!(100 * next <= pen + 200);
}

#[test]
fn clone_drops_gathered_acceleration() {
    let mut p = Point::new(4, UNIT, 2 * UNIT, 300, -700);
    p.apply_acceleration(1, 1);
    let c = p.clone();
    assert_eq!((c.id, c.x, c.y, c.old_x, c.old_y, c.radius), (4, UNIT, 2 * UNIT, UNIT - 300, 2 * UNIT + 700, UNIT));
    assert_eq!((c.acc_x, c.acc_y), (0, 0));
    assert_eq!((p.acc_x, p.acc_y), (1, 1));
}

#[test]
fn diagonal_pair_penetration_shrinks_a_hundredfold() {
    let mut a = Point::new(0, 0, 0, 0, 0);
    let mut b = Point::new(1, 300_000, 400_000, 0, 0);
    let pen = 2 * UNIT - a.dist(&b);
    assert_eq!(pen, 1_500_000);
    solve_collision(&mut a, &mut b);
    let next = 2 * UNIT - a.dist(&b);
    assert_eq!(next, 15_000);
    assert!(100 * next <= pen + 900);
}
