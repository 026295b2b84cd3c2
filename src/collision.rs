//! Pairwise collision: detection by distance, resolution by pushing the two
//! particles apart along the line through their centres.
use vstd::prelude::*;
use crate::arith::{tdiv, is_floor_sqrt, floor_sqrt, lemma_tdiv_bound, div_toward_zero, sqrt_floor};
use crate::body::{Point, PointModel, within, COORD_LIMIT, RADIUS_LIMIT, FRICTION_PERCENT};

verus! {

/// Squared distance between two centres.
pub open spec fn dist_sq(p: PointModel, q: PointModel) -> int {
    (p.x - q.x) * (p.x - q.x) + (p.y - q.y) * (p.y - q.y)
}

/// Distance between two centres, rounded down.
pub open spec fn distance(p: PointModel, q: PointModel) -> int {
    floor_sqrt(dist_sq(p, q))
}

/// The two discs overlap.
pub open spec fn collide(p: PointModel, q: PointModel) -> bool {
    p.radius + q.radius > distance(p, q)
}

/// Half the penetration along one axis of the normal, damped by friction:
/// `(r1 + r2 - d) · (delta / d) · 0.99 / 2`. Coincident centres give no normal,
/// and no push.
pub open spec fn push(p: PointModel, q: PointModel, delta: int) -> int {
    let d = distance(p, q);
    if d == 0 {
        0
    } else {
        tdiv((p.radius + q.radius - d) * delta * FRICTION_PERCENT, 200 * d)
    }
}

/// The two particles after one resolution: moved by opposite vectors.
pub open spec fn resolved(p: PointModel, q: PointModel) -> (PointModel, PointModel) {
    let px = push(p, q, p.x - q.x);
    let py = push(p, q, p.y - q.y);
    (PointModel { x: p.x + px, y: p.y + py, ..p }, PointModel { x: q.x - px, y: q.y - py, ..q })
}

/// The centres of both particles lie within the position limit.
pub open spec fn near(p: Point, q: Point) -> bool {
    within(p.x as int, COORD_LIMIT as int) && within(p.y as int, COORD_LIMIT as int)
        && within(q.x as int, COORD_LIMIT as int) && within(q.y as int, COORD_LIMIT as int)
}

proof fn lemma_square_bound(a: int)
    requires
        within(a, 2 * COORD_LIMIT),
    ensures
        0 <= a * a <= 0x1000000000000000000000,
{
    assert(0 <= a * a <= 0x1000000000000000000000) by (nonlinear_arith)
        requires
            -0x40000000000 <= a <= 0x40000000000,
    {
    }
}

/// A coordinate difference is at most the rounded-down distance.
pub proof fn lemma_delta_le_dist(a: int, b: int, d: int)
    requires
        is_floor_sqrt(a * a + b * b, d),
    ensures
        within(a, d),
{
    assert(b * b >= 0) by (nonlinear_arith);
    if a > d {
        assert(a * a >= (d + 1) * (d + 1)) by (nonlinear_arith)
            requires
                a >= d + 1,
                d >= 0,
        {
        }
    } else if a < -d {
        assert(a * a >= (d + 1) * (d + 1)) by (nonlinear_arith)
            requires
                -a >= d + 1,
                d >= 0,
        {
        }
    }
}

/// The push of a colliding pair is less than one largest radius.
pub proof fn lemma_push_bound(p: PointModel, q: PointModel, delta: int)
    requires
        0 <= p.radius <= RADIUS_LIMIT,
        0 <= q.radius <= RADIUS_LIMIT,
        within(delta, distance(p, q)),
        collide(p, q),
    ensures
        within(push(p, q, delta), RADIUS_LIMIT as int),
{
    let d = distance(p, q);
    if d != 0 {
        let pen = p.radius + q.radius - d;
        let n = pen * delta * 99;
        assert(d > 0);
        assert(within(n, 200 * d * RADIUS_LIMIT)) by (nonlinear_arith)
            requires
                0 < pen <= 2 * RADIUS_LIMIT,
                within(delta, d),
                n == pen * delta * 99,
                d > 0,
        {
        }
        lemma_tdiv_bound(n, 200 * d);
        let t = tdiv(n, 200 * d);
        assert(within(t, RADIUS_LIMIT as int)) by (nonlinear_arith)
            requires
                n >= 0 ==> 0 <= t && t * (200 * d) <= n,
                n < 0 ==> t <= 0 && -t * (200 * d) <= -n,
                within(n, 200 * d * RADIUS_LIMIT),
                d > 0,
        {
        }
    }
}

/// Resolving a colliding pair moves each centre by less than one largest
/// radius on each axis.
pub proof fn lemma_resolve_moves_little(p: PointModel, q: PointModel)
    requires
        0 <= p.radius <= RADIUS_LIMIT,
        0 <= q.radius <= RADIUS_LIMIT,
        is_floor_sqrt(dist_sq(p, q), distance(p, q)),
        collide(p, q),
    ensures
        within(push(p, q, p.x - q.x), RADIUS_LIMIT as int),
        within(push(p, q, p.y - q.y), RADIUS_LIMIT as int),
{
    let dx = p.x - q.x;
    let dy = p.y - q.y;
    lemma_delta_le_dist(dx, dy, distance(p, q));
    assert(dy * dy + dx * dx == dx * dx + dy * dy) by (nonlinear_arith);
    lemma_delta_le_dist(dy, dx, distance(p, q));
    lemma_push_bound(p, q, dx);
    lemma_push_bound(p, q, dy);
}

impl Point {
    /// Squared distance to `other`.
    fn dist_sq(&self, other: &Point) -> (r: u128)
        requires
            near(*self, *other),
        ensures
            r == dist_sq(self@, other@),
            r <= 0x2000000000000000000000,
    {
        let dx: i128 = self.x as i128 - other.x as i128;
        let dy: i128 = self.y as i128 - other.y as i128;
        proof {
            lemma_square_bound(dx as int);
            lemma_square_bound(dy as int);
        }
        (dx * dx + dy * dy) as u128
    }

    /// Distance to `other`, rounded down.
    pub fn dist(&self, other: &Point) -> (r: i64)
        requires
            near(*self, *other),
        ensures
            r == distance(self@, other@),
            is_floor_sqrt(dist_sq(self@, other@), r as int),
    {
        let s: u128 = self.dist_sq(other);
        sqrt_floor(s) as i64
    }

    /// The two discs overlap.
    pub fn colliding(&self, other: &Point) -> (r: bool)
        requires
            near(*self, *other),
            0 <= self.radius <= RADIUS_LIMIT,
            0 <= other.radius <= RADIUS_LIMIT,
        ensures
            r == collide(self@, other@),
            is_floor_sqrt(dist_sq(self@, other@), distance(self@, other@)),
    {
        let d: i64 = self.dist(other);
        self.radius + other.radius > d
    }
}

/// Half the penetration along one axis, as `push` states it.
fn push_along(pen: i64, delta: i64, d: i64) -> (r: i64)
    requires
        d > 0,
        within(delta as int, d as int),
        within(pen as int, 2 * COORD_LIMIT * 4),
        d <= 4 * COORD_LIMIT,
    ensures
        r == tdiv(pen * delta * FRICTION_PERCENT, 200 * d),
        within(r as int, 8 * COORD_LIMIT),
{
    assert(within(pen * delta, 8 * COORD_LIMIT * 4 * COORD_LIMIT)) by (nonlinear_arith)
        requires
            within(pen as int, 2 * COORD_LIMIT * 4),
            within(delta as int, d as int),
            d <= 4 * COORD_LIMIT,
    {
    }
    let n1: i128 = pen as i128 * delta as i128;
    let n: i128 = n1 * FRICTION_PERCENT as i128;
    proof {
        lemma_tdiv_bound(n as int, 200 * d);
    }
    assert(within(n as int, 200 * d * (8 * COORD_LIMIT))) by (nonlinear_arith)
        requires
            n1 == pen * delta,
            n == n1 * 99,
            within(pen as int, 2 * COORD_LIMIT * 4),
            within(delta as int, d as int),
            d > 0,
    {
    }
    assert(within(tdiv(n as int, 200 * d), 8 * COORD_LIMIT)) by (nonlinear_arith)
        requires
            n >= 0 ==> 0 <= tdiv(n as int, 200 * d) && tdiv(n as int, 200 * d) * (200 * d) <= n,
            n < 0 ==> tdiv(n as int, 200 * d) <= 0 && -tdiv(n as int, 200 * d) * (200 * d) <= -n,
            within(n as int, 200 * d * (8 * COORD_LIMIT)),
            d > 0,
    {
    }
    div_toward_zero(n, 200 * d as i128) as i64
}

/// Pushes two particles apart by opposite vectors along their normal.
/// A pair with coincident centres is left as it is.
pub fn solve_collision(p1: &mut Point, p2: &mut Point)
    requires
        near(*old(p1), *old(p2)),
        0 <= old(p1).radius <= RADIUS_LIMIT,
        0 <= old(p2).radius <= RADIUS_LIMIT,
    ensures
        (final(p1)@, final(p2)@) == resolved(old(p1)@, old(p2)@),
{
    let d: i64 = p1.dist(p2);
    if d == 0 {
        return;
    }
    let dx: i64 = p1.x - p2.x;
    let dy: i64 = p1.y - p2.y;
    proof {
        lemma_delta_le_dist(dx as int, dy as int, d as int);
        lemma_delta_le_dist(dy as int, dx as int, d as int);
        assert(dy * dy + dx * dx == dx * dx + dy * dy) by (nonlinear_arith);
        lemma_square_bound(dx as int);
        lemma_square_bound(dy as int);
        assert(d <= 4 * COORD_LIMIT) by (nonlinear_arith)
            requires
                d * d <= 0x2000000000000000000000,
                d >= 0,
        {
        }
    }
    let pen: i64 = p1.radius + p2.radius - d;
    let px: i64 = push_along(pen, dx, d);
    let py: i64 = push_along(pen, dy, d);
    p1.x = p1.x + px;
    p1.y = p1.y + py;
    p2.x = p2.x - px;
    p2.y = p2.y - py;
}

} // verus!
