//! One particle, the rectangular wall, and the Verlet integrator.
use vstd::prelude::*;
use crate::arith::{tdiv, lemma_tdiv_bound, div_toward_zero};

verus! {

/// Micro-units in one simulation unit.
pub const UNIT: i64 = 1_000_000;

/// Squared microseconds in one squared second.
pub const SECOND_SQUARED: i128 = 1_000_000_000_000;

/// Velocity kept per substep, as a fraction over 100.
pub const FRICTION_PERCENT: i64 = 99;

/// Velocity kept on a wall bounce, as a fraction over 100.
pub const BOUNCE_PERCENT: i64 = 99;

/// Downward acceleration in micro-units per second squared.
pub const GRAVITY: i64 = -100_000_000;

/// Largest magnitude of a wall coordinate (2^38 micro-units).
pub const BOUND_LIMIT: i64 = 274_877_906_944;

/// Largest magnitude of a position between substeps (2^41).
pub const COORD_LIMIT: i64 = 2_199_023_255_552;

/// Largest magnitude of a previous position (2^48).
pub const OLD_LIMIT: i64 = 281_474_976_710_656;

/// Largest magnitude of an accumulated acceleration between steps (2^39).
pub const ACC_LIMIT: i64 = 549_755_813_888;

/// Largest radius (2^24 micro-units).
pub const RADIUS_LIMIT: i64 = 16_777_216;

/// Longest substep in microseconds (2^18).
pub const SUBSTEP_LIMIT: i64 = 262_144;

/// `v` scaled by the friction factor, rounded toward zero.
pub open spec fn damp(v: int) -> int {
    tdiv(v * FRICTION_PERCENT, 100)
}

/// `v` scaled by the bounce factor, rounded toward zero.
pub open spec fn rebound(v: int) -> int {
    tdiv(v * BOUNCE_PERCENT, 100)
}

/// Displacement `acc · dt²` of an acceleration over `dt` microseconds.
pub open spec fn accel_offset(acc: int, dt: int) -> int {
    tdiv(acc * dt * dt, SECOND_SQUARED as int)
}

/// Position and previous position on one axis after the wall at `lo` and `hi`:
/// an overshoot is clamped and its velocity reflected, damped twice.
pub open spec fn constrain_axis(pos: int, old: int, lo: int, hi: int) -> (int, int) {
    if pos > hi {
        (hi, hi + rebound(damp(pos - old)))
    } else if pos < lo {
        (lo, lo + rebound(damp(pos - old)))
    } else {
        (pos, old)
    }
}

/// The mathematical state of a particle.
pub struct PointModel {
    pub id: int,
    pub x: int,
    pub y: int,
    pub old_x: int,
    pub old_y: int,
    pub radius: int,
    pub acc_x: int,
    pub acc_y: int,
}

/// A point mass. Its velocity is `position - previous position`.
#[derive(Copy, Debug)]
pub struct Point {
    pub id: i32,
    pub x: i64,
    pub y: i64,
    pub old_x: i64,
    pub old_y: i64,
    pub radius: i64,
    pub acc_x: i64,
    pub acc_y: i64,
}

/// A clone is the same particle with no acceleration gathered yet.
impl Clone for Point {
    fn clone(&self) -> (r: Point)
        ensures
            r@ == (PointModel { acc_x: 0, acc_y: 0, ..self@ }),
    {
        Point {
            id: self.id,
            x: self.x,
            y: self.y,
            old_x: self.old_x,
            old_y: self.old_y,
            radius: self.radius,
            acc_x: 0,
            acc_y: 0,
        }
    }
}

impl View for Point {
    type V = PointModel;

    open spec fn view(&self) -> PointModel {
        PointModel {
            id: self.id as int,
            x: self.x as int,
            y: self.y as int,
            old_x: self.old_x as int,
            old_y: self.old_y as int,
            radius: self.radius as int,
            acc_x: self.acc_x as int,
            acc_y: self.acc_y as int,
        }
    }
}

/// The axis-aligned wall that holds every particle.
#[derive(Clone, Copy, Debug)]
pub struct Bounds {
    pub min_x: i64,
    pub max_x: i64,
    pub min_y: i64,
    pub max_y: i64,
}

pub enum Axis {
    Horizontal,
    Vertical,
}

impl Bounds {
    pub open spec fn wf(&self) -> bool {
        -BOUND_LIMIT <= self.min_x <= self.max_x <= BOUND_LIMIT
            && -BOUND_LIMIT <= self.min_y <= self.max_y <= BOUND_LIMIT
    }

    pub open spec fn contains(&self, x: int, y: int) -> bool {
        self.min_x <= x <= self.max_x && self.min_y <= y <= self.max_y
    }

    /// Whether the wall is well formed and within the engine's limits.
    pub fn is_valid(&self) -> (r: bool)
        ensures
            r == self.wf(),
    {
        -BOUND_LIMIT <= self.min_x && self.min_x <= self.max_x && self.max_x <= BOUND_LIMIT
            && -BOUND_LIMIT <= self.min_y && self.min_y <= self.max_y && self.max_y <= BOUND_LIMIT
    }

    pub fn new(min_x: i64, min_y: i64, max_x: i64, max_y: i64) -> (b: Bounds)
        ensures
            b.min_x == min_x && b.min_y == min_y && b.max_x == max_x && b.max_y == max_y,
    {
        Bounds { min_x, min_y, max_x, max_y }
    }

    /// Clamps `point` to the wall on one axis, reflecting its velocity there.
    pub fn constrain_point(&self, point: &mut Point, axis: Axis)
        requires
            self.wf(),
            -OLD_LIMIT * 4 <= old(point).x <= OLD_LIMIT * 4,
            -OLD_LIMIT * 4 <= old(point).y <= OLD_LIMIT * 4,
            -OLD_LIMIT * 4 <= old(point).old_x <= OLD_LIMIT * 4,
            -OLD_LIMIT * 4 <= old(point).old_y <= OLD_LIMIT * 4,
        ensures
            match axis {
                Axis::Horizontal => {
                    (final(point)@.x, final(point)@.old_x) == constrain_axis(
                        old(point)@.x,
                        old(point)@.old_x,
                        self.min_x as int,
                        self.max_x as int,
                    ) && final(point)@ == (PointModel {
                        x: final(point)@.x,
                        old_x: final(point)@.old_x,
                        ..old(point)@
                    })
                },
                Axis::Vertical => {
                    (final(point)@.y, final(point)@.old_y) == constrain_axis(
                        old(point)@.y,
                        old(point)@.old_y,
                        self.min_y as int,
                        self.max_y as int,
                    ) && final(point)@ == (PointModel {
                        y: final(point)@.y,
                        old_y: final(point)@.old_y,
                        ..old(point)@
                    })
                },
            },
    {
        match axis {
            Axis::Horizontal => {
                if point.x > self.max_x {
                    let vel: i64 = damped(point.vel_x());
                    point.x = self.max_x;
                    point.old_x = self.max_x + rebounded(vel);
                } else if point.x < self.min_x {
                    let vel: i64 = damped(point.vel_x());
                    point.x = self.min_x;
                    point.old_x = self.min_x + rebounded(vel);
                }
            },
            Axis::Vertical => {
                if point.y > self.max_y {
                    let vel: i64 = damped(point.vel_y());
                    point.y = self.max_y;
                    point.old_y = self.max_y + rebounded(vel);
                } else if point.y < self.min_y {
                    let vel: i64 = damped(point.vel_y());
                    point.y = self.min_y;
                    point.old_y = self.min_y + rebounded(vel);
                }
            },
        }
    }
}

/// The state of `p` after one substep of `dt` microseconds inside `b`.
pub open spec fn integrated(p: PointModel, b: Bounds, dt: int) -> PointModel {
    let nx = p.x + damp(p.x - p.old_x) + accel_offset(p.acc_x, dt);
    let ny = p.y + damp(p.y - p.old_y) + accel_offset(p.acc_y, dt);
    let cx = constrain_axis(nx, p.x, b.min_x as int, b.max_x as int);
    let cy = constrain_axis(ny, p.y, b.min_y as int, b.max_y as int);
    PointModel { x: cx.0, old_x: cx.1, y: cy.0, old_y: cy.1, acc_x: 0, acc_y: 0, ..p }
}

/// Whether `v` lies within `-limit ..= limit`.
pub open spec fn within(v: int, limit: int) -> bool {
    -limit <= v <= limit
}

impl Point {
    /// The bounds that keep every step of the engine free of overflow.
    pub open spec fn wf(&self) -> bool {
        within(self.x as int, COORD_LIMIT as int) && within(self.y as int, COORD_LIMIT as int)
            && within(self.old_x as int, OLD_LIMIT as int) && within(
            self.old_y as int,
            OLD_LIMIT as int,
        ) && within(self.acc_x as int, ACC_LIMIT as int) && within(
            self.acc_y as int,
            ACC_LIMIT as int,
        ) && 0 <= self.radius <= RADIUS_LIMIT
    }

    /// Whether the particle lies within the engine's limits.
    pub fn in_limits(&self) -> (r: bool)
        ensures
            r == self.wf(),
    {
        -COORD_LIMIT <= self.x && self.x <= COORD_LIMIT && -COORD_LIMIT <= self.y && self.y
            <= COORD_LIMIT && -OLD_LIMIT <= self.old_x && self.old_x <= OLD_LIMIT && -OLD_LIMIT
            <= self.old_y && self.old_y <= OLD_LIMIT && -ACC_LIMIT <= self.acc_x && self.acc_x
            <= ACC_LIMIT && -ACC_LIMIT <= self.acc_y && self.acc_y <= ACC_LIMIT && 0 <= self.radius
            && self.radius <= RADIUS_LIMIT
    }

    /// A particle of radius one unit at `(x, y)` whose first substep moves it by
    /// `(vel_x, vel_y)`.
    pub fn new(id: i32, x: i64, y: i64, vel_x: i64, vel_y: i64) -> (p: Point)
        requires
            within(x as int, BOUND_LIMIT as int),
            within(y as int, BOUND_LIMIT as int),
            within(vel_x as int, BOUND_LIMIT as int),
            within(vel_y as int, BOUND_LIMIT as int),
        ensures
            p@ == (PointModel {
                id: id as int,
                x: x as int,
                y: y as int,
                old_x: x - vel_x,
                old_y: y - vel_y,
                radius: UNIT as int,
                acc_x: 0,
                acc_y: 0,
            }),
            p.vel_x_spec() == vel_x,
            p.vel_y_spec() == vel_y,
            p.wf(),
    {
        Point { id, x, y, old_x: x - vel_x, old_y: y - vel_y, radius: UNIT, acc_x: 0, acc_y: 0 }
    }

    pub open spec fn vel_x_spec(&self) -> int {
        self.x - self.old_x
    }

    pub open spec fn vel_y_spec(&self) -> int {
        self.y - self.old_y
    }

    /// Horizontal velocity per substep.
    pub fn vel_x(&self) -> (r: i64)
        requires
            within(self.x as int, OLD_LIMIT * 4),
            within(self.old_x as int, OLD_LIMIT * 4),
        ensures
            r == self.vel_x_spec(),
    {
        self.x - self.old_x
    }

    /// Vertical velocity per substep.
    pub fn vel_y(&self) -> (r: i64)
        requires
            within(self.y as int, OLD_LIMIT * 4),
            within(self.old_y as int, OLD_LIMIT * 4),
        ensures
            r == self.vel_y_spec(),
    {
        self.y - self.old_y
    }

    /// Adds `(x, y)` to the acceleration gathered for the next substep.
    pub fn apply_acceleration(&mut self, x: i64, y: i64)
        requires
            within(old(self).acc_x + x, i64::MAX as int),
            within(old(self).acc_y + y, i64::MAX as int),
        ensures
            final(self)@ == (PointModel {
                acc_x: old(self)@.acc_x + x,
                acc_y: old(self)@.acc_y + y,
                ..old(self)@
            }),
    {
        self.acc_x = self.acc_x + x;
        self.acc_y = self.acc_y + y;
    }

    /// One Verlet substep of `dt` microseconds: damp the velocity, add the
    /// gathered acceleration, clear it, then hold the particle inside `bounds`.
    pub fn move_point(&mut self, bounds: &Bounds, dt: i64)
        requires
            bounds.wf(),
            0 <= dt <= SUBSTEP_LIMIT,
            within(old(self).x as int, COORD_LIMIT as int),
            within(old(self).y as int, COORD_LIMIT as int),
            within(old(self).old_x as int, OLD_LIMIT as int),
            within(old(self).old_y as int, OLD_LIMIT as int),
            within(old(self).acc_x as int, 2 * ACC_LIMIT),
            within(old(self).acc_y as int, 2 * ACC_LIMIT),
        ensures
            final(self)@ == integrated(old(self)@, *bounds, dt as int),
            bounds.contains(final(self).x as int, final(self).y as int),
            within(final(self).old_x as int, OLD_LIMIT as int),
            within(final(self).old_y as int, OLD_LIMIT as int),
    {
        let vel_x: i64 = damped(self.vel_x());
        let vel_y: i64 = damped(self.vel_y());
        let ax: i64 = accel_step(self.acc_x, dt);
        let ay: i64 = accel_step(self.acc_y, dt);
        self.old_x = self.x;
        self.old_y = self.y;
        self.x = self.x + vel_x + ax;
        self.y = self.y + vel_y + ay;
        self.acc_x = 0;
        self.acc_y = 0;
        let ghost mid = *self;
        proof {
            lemma_wall_bound(mid.x as int, mid.old_x as int, vel_x as int, ax as int, bounds.min_x as int, bounds.max_x as int);
            lemma_wall_bound(mid.y as int, mid.old_y as int, vel_y as int, ay as int, bounds.min_y as int, bounds.max_y as int);
        }
        bounds.constrain_point(self, Axis::Horizontal);
        bounds.constrain_point(self, Axis::Vertical);
    }
}

/// After a wall bounce the previous position stays within its limit.
proof fn lemma_wall_bound(pos: int, prev: int, d: int, a: int, lo: int, hi: int)
    requires
        pos == prev + d + a,
        within(prev, COORD_LIMIT as int),
        d >= 0 ==> 100 * d <= 99 * (COORD_LIMIT + OLD_LIMIT),
        d < 0 ==> -100 * d <= 99 * (COORD_LIMIT + OLD_LIMIT),
        within(a, BOUND_LIMIT as int),
        -BOUND_LIMIT <= lo <= hi <= BOUND_LIMIT,
    ensures
        within(constrain_axis(pos, prev, lo, hi).1, OLD_LIMIT as int),
        lo <= constrain_axis(pos, prev, lo, hi).0 <= hi,
{
    let v = pos - prev;
    if v >= 0 {
        lemma_tdiv_bound(v * 99, 100);
        let w = damp(v);
        lemma_tdiv_bound(w * 99, 100);
    } else {
        lemma_tdiv_bound(v * 99, 100);
        let w = damp(v);
        lemma_tdiv_bound(w * 99, 100);
    }
}

/// Displacement of an acceleration over a substep.
fn accel_step(acc: i64, dt: i64) -> (r: i64)
    requires
        within(acc as int, 2 * ACC_LIMIT),
        0 <= dt <= SUBSTEP_LIMIT,
    ensures
        r == accel_offset(acc as int, dt as int),
        within(r as int, BOUND_LIMIT as int),
{
    let a: i128 = acc as i128;
    let t: i128 = dt as i128;
    assert(within(a * t, 2 * ACC_LIMIT * SUBSTEP_LIMIT)) by (nonlinear_arith)
        requires
            within(a as int, 2 * ACC_LIMIT),
            0 <= t <= SUBSTEP_LIMIT,
    {
    }
    let at: i128 = a * t;
    assert(within(at * t, 2 * ACC_LIMIT * SUBSTEP_LIMIT * SUBSTEP_LIMIT)) by (nonlinear_arith)
        requires
            within(at as int, 2 * ACC_LIMIT * SUBSTEP_LIMIT),
            0 <= t <= SUBSTEP_LIMIT,
    {
    }
    let prod: i128 = at * t;
    proof {
        lemma_tdiv_bound(prod as int, SECOND_SQUARED as int);
    }
    div_toward_zero(prod, SECOND_SQUARED) as i64
}

/// `v` scaled by the friction factor.
fn damped(v: i64) -> (r: i64)
    requires
        -OLD_LIMIT * 16 <= v <= OLD_LIMIT * 16,
    ensures
        r == damp(v as int),
        -OLD_LIMIT * 16 <= r <= OLD_LIMIT * 16,
        v >= 0 ==> 0 <= r && 100 * r <= 99 * v,
        v < 0 ==> r <= 0 && -100 * r <= -99 * v,
{
    proof {
        lemma_tdiv_bound(v * 99, 100);
    }
    div_toward_zero(v as i128 * FRICTION_PERCENT as i128, 100) as i64
}

/// `v` scaled by the bounce factor.
fn rebounded(v: i64) -> (r: i64)
    requires
        -OLD_LIMIT * 16 <= v <= OLD_LIMIT * 16,
    ensures
        r == rebound(v as int),
        v >= 0 ==> 0 <= r && 100 * r <= 99 * v,
        v < 0 ==> r <= 0 && -100 * r <= -99 * v,
{
    proof {
        lemma_tdiv_bound(v * 99, 100);
    }
    div_toward_zero(v as i128 * BOUNCE_PERCENT as i128, 100) as i64
}

} // verus!
