//! Laws of the engine, proved over the models that the operations' contracts use.
use vstd::prelude::*;
use crate::arith::{tdiv, is_floor_sqrt, floor_sqrt, lemma_tdiv_bound, lemma_floor_sqrt_unique};
use crate::body::{Bounds, PointModel, integrated, constrain_axis, damp, rebound, accel_offset, FRICTION_PERCENT, GRAVITY};
use crate::collision::{collide, dist_sq, distance, resolved, push, lemma_delta_le_dist};
use crate::world::{integrate_all, collide_from, pair_step, substep, substeps, stepped, with_gravity};

verus! {

/// A frame is a function of its inputs: equal particles, wall and frame time
/// give equal particles after the frame.
pub proof fn lemma_step_deterministic(
    first: Seq<PointModel>,
    second: Seq<PointModel>,
    b: Bounds,
    dt_frame: int,
)
    requires
        first == second,
    ensures
        stepped(first, b, dt_frame) == stepped(second, b, dt_frame),
{
}

/// Resolving a pair moves the two centres by exactly opposite vectors, and
/// changes nothing else.
pub proof fn lemma_resolve_symmetric(p: PointModel, q: PointModel)
    ensures
        resolved(p, q).0.x - p.x == -(resolved(p, q).1.x - q.x),
        resolved(p, q).0.y - p.y == -(resolved(p, q).1.y - q.y),
        resolved(p, q).0 == (PointModel { x: resolved(p, q).0.x, y: resolved(p, q).0.y, ..p }),
        resolved(p, q).1 == (PointModel { x: resolved(p, q).1.x, y: resolved(p, q).1.y, ..q }),
{
}

/// Every integer has a floor square root.
pub proof fn lemma_floor_sqrt_exists(s: int)
    requires
        s >= 0,
    ensures
        is_floor_sqrt(s, floor_sqrt(s)),
    decreases s,
{
    if s == 0 {
        assert(is_floor_sqrt(0, 0));
    } else {
        lemma_floor_sqrt_exists(s - 1);
        let r = floor_sqrt(s - 1);
        if (r + 1) * (r + 1) <= s {
            assert((r + 1) * (r + 1) == s);
            assert(s < (r + 2) * (r + 2)) by (nonlinear_arith)
                requires
                    (r + 1) * (r + 1) == s,
                    r >= 0,
            {
            }
            assert(is_floor_sqrt(s, r + 1));
        } else {
            assert(is_floor_sqrt(s, r));
        }
    }
}

/// The floor square root does not decrease.
pub proof fn lemma_floor_sqrt_monotone(s: int, t: int)
    requires
        0 <= s <= t,
    ensures
        floor_sqrt(s) <= floor_sqrt(t),
{
    lemma_floor_sqrt_exists(s);
    lemma_floor_sqrt_exists(t);
    let a = floor_sqrt(s);
    let c = floor_sqrt(t);
    if a > c {
        assert((c + 1) * (c + 1) <= a * a) by (nonlinear_arith)
            requires
                0 <= c + 1 <= a,
        {
        }
    }
}

/// Pushing along a coordinate difference keeps its sign and can only grow it.
proof fn lemma_push_widens(p: PointModel, q: PointModel, delta: int)
    requires
        collide(p, q),
        distance(p, q) > 0,
    ensures
        delta >= 0 ==> delta + 2 * push(p, q, delta) >= delta,
        delta < 0 ==> delta + 2 * push(p, q, delta) <= delta,
{
    let d = distance(p, q);
    let pen = p.radius + q.radius - d;
    let n = pen * delta * FRICTION_PERCENT;
    assert(delta >= 0 ==> n >= 0) by (nonlinear_arith)
        requires
            pen > 0,
            n == pen * delta * 99,
    {
    }
    assert(delta < 0 ==> n <= 0) by (nonlinear_arith)
        requires
            pen > 0,
            n == pen * delta * 99,
    {
    }
    lemma_tdiv_bound(n, 200 * d);
}

/// Resolving an overlapping pair never deepens its penetration: the distance
/// between the centres does not decrease, and the radii stay.
pub proof fn lemma_resolve_never_deepens(p: PointModel, q: PointModel)
    requires
        collide(p, q),
    ensures
        distance(resolved(p, q).0, resolved(p, q).1) >= distance(p, q),
        p.radius + q.radius - distance(resolved(p, q).0, resolved(p, q).1) <= p.radius + q.radius
            - distance(p, q),
{
    let (p2, q2) = resolved(p, q);
    assert(0 <= dist_sq(p, q)) by (nonlinear_arith);
    lemma_floor_sqrt_exists(dist_sq(p, q));
    if distance(p, q) > 0 {
        let dx = p.x - q.x;
        let dy = p.y - q.y;
        lemma_push_widens(p, q, dx);
        lemma_push_widens(p, q, dy);
        let ex = p2.x - q2.x;
        let ey = p2.y - q2.y;
        assert(ex == dx + 2 * push(p, q, dx));
        assert(ey == dy + 2 * push(p, q, dy));
        assert(dx * dx <= ex * ex) by (nonlinear_arith)
            requires
                dx >= 0 ==> ex >= dx,
                dx < 0 ==> ex <= dx,
        {
        }
        assert(dy * dy <= ey * ey) by (nonlinear_arith)
            requires
                dy >= 0 ==> ey >= dy,
                dy < 0 ==> ey <= dy,
        {
        }
        assert(0 <= dx * dx + dy * dy) by (nonlinear_arith);
        lemma_floor_sqrt_monotone(dist_sq(p, q), dist_sq(p2, q2));
    } else {
        assert(p2 == p && q2 == q);
    }
}

/// The distance between centres on one horizontal line is their difference.
proof fn lemma_level_distance(p: PointModel, q: PointModel)
    requires
        p.y == q.y,
        p.x > q.x,
    ensures
        distance(p, q) == p.x - q.x,
{
    let dx = p.x - q.x;
    assert(dist_sq(p, q) == dx * dx);
    assert(is_floor_sqrt(dx * dx, dx)) by (nonlinear_arith)
        requires
            dx > 0,
    {
    }
    lemma_floor_sqrt_exists(dx * dx);
    lemma_floor_sqrt_unique(dx * dx, dx, floor_sqrt(dx * dx));
}

/// One resolution of an overlapping pair on one horizontal line leaves at most
/// a hundredth of the penetration, plus two micro-units of rounding: repeated
/// resolutions drive the penetration toward zero.
pub proof fn lemma_level_resolve_shrinks(p: PointModel, q: PointModel)
    requires
        p.y == q.y,
        p.x > q.x,
        collide(p, q),
    ensures
        100 * (p.radius + q.radius - distance(resolved(p, q).0, resolved(p, q).1)) <= (p.radius
            + q.radius - distance(p, q)) + 200,
{
    let dx = p.x - q.x;
    lemma_level_distance(p, q);
    let pen = p.radius + q.radius - dx;
    assert(pen > 0);
    let n = pen * dx * FRICTION_PERCENT;
    assert(n > 0) by (nonlinear_arith)
        requires
            pen > 0,
            dx > 0,
            n == pen * dx * 99,
    {
    }
    let px = push(p, q, dx);
    assert(px == n / (200 * dx));
    assert(200 * px > 99 * pen - 200) by (nonlinear_arith)
        requires
            px == n / (200 * dx),
            n == pen * dx * 99,
            dx > 0,
            pen > 0,
    {
        vstd::arithmetic::div_mod::lemma_fundamental_div_mod(n, 200 * dx);
        vstd::arithmetic::div_mod::lemma_mod_bound(n, 200 * dx);
        assert(dx * (200 * px) > dx * (99 * pen - 200));
    }
    assert(push(p, q, p.y - q.y) == 0);
    let (p2, q2) = resolved(p, q);
    assert(p2.y == q2.y);
    lemma_tdiv_bound(n, 200 * dx);
    assert(p2.x - q2.x == dx + 2 * px);
    assert(px >= 0);
    lemma_level_distance(p2, q2);
}

/// The push along a coordinate difference of size `a` is at least the exact
/// share `a · 99 · pen / (200 · d)` less one.
proof fn lemma_push_share(pen: int, delta: int, d: int)
    requires
        pen > 0,
        d > 0,
    ensures
        delta >= 0 ==> tdiv(pen * delta * 99, 200 * d) >= 0 && 200 * d * tdiv(
            pen * delta * 99,
            200 * d,
        ) > 99 * pen * delta - 200 * d,
        delta < 0 ==> tdiv(pen * delta * 99, 200 * d) <= 0 && 200 * d * (-tdiv(
            pen * delta * 99,
            200 * d,
        )) > 99 * pen * (-delta) - 200 * d,
{
    let n = pen * delta * 99;
    if delta >= 0 {
        assert(n >= 0) by (nonlinear_arith)
            requires
                pen > 0,
                delta >= 0,
                n == pen * delta * 99,
        {
        }
        vstd::arithmetic::div_mod::lemma_fundamental_div_mod(n, 200 * d);
        vstd::arithmetic::div_mod::lemma_mod_bound(n, 200 * d);
        lemma_tdiv_bound(n, 200 * d);
        assert(200 * d * (n / (200 * d)) > n - 200 * d);
        assert(n == 99 * pen * delta) by (nonlinear_arith)
            requires
                n == pen * delta * 99,
        {
        }
    } else {
        let m = -n;
        assert(m == pen * (-delta) * 99 && m > 0) by (nonlinear_arith)
            requires
                pen > 0,
                delta < 0,
                n == pen * delta * 99,
                m == -n,
        {
        }
        vstd::arithmetic::div_mod::lemma_fundamental_div_mod(m, 200 * d);
        vstd::arithmetic::div_mod::lemma_mod_bound(m, 200 * d);
        assert(200 * d * (m / (200 * d)) > m - 200 * d);
        assert(m == 99 * pen * (-delta)) by (nonlinear_arith)
            requires
                m == pen * (-delta) * 99,
        {
        }
    }
}

/// A coordinate difference of size `a` grows to `e` with
/// `100 · d · e ≥ a · M − 200 · d`; then `(100 · d · e)²` is at least
/// `a² · M² − 400 · d · a · M`.
proof fn lemma_grown_square(a: int, e: int, d: int, big: int)
    requires
        a >= 0,
        e >= 0,
        d > 0,
        big >= 0,
        100 * d * e >= a * big - 200 * d,
    ensures
        (100 * d * e) * (100 * d * e) >= a * a * big * big - 400 * d * a * big,
{
    let t = 100 * d * e;
    assert(t >= 0) by (nonlinear_arith)
        requires
            d > 0,
            e >= 0,
            t == 100 * d * e,
    {
    }
    if a * big >= 200 * d {
        assert(t * t >= (a * big - 200 * d) * (a * big - 200 * d)) by (nonlinear_arith)
            requires
                t >= a * big - 200 * d,
                a * big - 200 * d >= 0,
        {
        }
        assert((a * big - 200 * d) * (a * big - 200 * d) >= a * a * big * big - 400 * d * a * big)
            by (nonlinear_arith)
        {
        }
    } else {
        assert(a * a * big * big - 400 * d * a * big <= 0) by (nonlinear_arith)
            requires
                a * big < 200 * d,
                a >= 0,
                big >= 0,
                d > 0,
        {
        }
        assert(t * t >= 0) by (nonlinear_arith);
    }
}

/// Repeated resolutions drive the penetration of any pair with distinct
/// centres toward zero: one resolution leaves at most a hundredth of it, plus
/// nine micro-units of rounding.
pub proof fn lemma_resolve_shrinks(p: PointModel, q: PointModel)
    requires
        collide(p, q),
        distance(p, q) > 0,
        p.radius >= 0,
        q.radius >= 0,
    ensures
        100 * (p.radius + q.radius - distance(resolved(p, q).0, resolved(p, q).1)) <= (p.radius
            + q.radius - distance(p, q)) + 900,
{
    let d = distance(p, q);
    let r = p.radius + q.radius;
    let pen = r - d;
    let dx = p.x - q.x;
    let dy = p.y - q.y;
    let s = dist_sq(p, q);
    assert(0 <= s) by (nonlinear_arith)
        requires
            s == dx * dx + dy * dy,
    {
    }
    lemma_floor_sqrt_exists(s);
    lemma_delta_le_dist(dx, dy, d);
    assert(dy * dy + dx * dx == s) by (nonlinear_arith)
        requires
            s == dx * dx + dy * dy,
    {
    }
    lemma_delta_le_dist(dy, dx, d);
    lemma_push_share(pen, dx, d);
    lemma_push_share(pen, dy, d);
    let px = push(p, q, dx);
    let py = push(p, q, dy);
    let a = if dx >= 0 { dx } else { -dx };
    let b = if dy >= 0 { dy } else { -dy };
    let big = 100 * d + 99 * pen;
    let e = if dx >= 0 { dx + 2 * px } else { -(dx + 2 * px) };
    let f = if dy >= 0 { dy + 2 * py } else { -(dy + 2 * py) };
    assert(100 * d * e >= a * big - 200 * d) by (nonlinear_arith)
        requires
            e == a + 2 * (if dx >= 0 { px } else { -px }),
            200 * d * (if dx >= 0 { px } else { -px }) > 99 * pen * a - 200 * d,
            big == 100 * d + 99 * pen,
    {
    }
    assert(100 * d * f >= b * big - 200 * d) by (nonlinear_arith)
        requires
            f == b + 2 * (if dy >= 0 { py } else { -py }),
            200 * d * (if dy >= 0 { py } else { -py }) > 99 * pen * b - 200 * d,
            big == 100 * d + 99 * pen,
    {
    }
    lemma_grown_square(a, e, d, big);
    lemma_grown_square(b, f, d, big);
    let (p2, q2) = resolved(p, q);
    let s2 = dist_sq(p2, q2);
    assert(s2 == e * e + f * f) by (nonlinear_arith)
        requires
            s2 == (dx + 2 * px) * (dx + 2 * px) + (dy + 2 * py) * (dy + 2 * py),
            e == dx + 2 * px || e == -(dx + 2 * px),
            f == dy + 2 * py || f == -(dy + 2 * py),
    {
    }
    assert(a * a + b * b == s) by (nonlinear_arith)
        requires
            s == dx * dx + dy * dy,
            a == dx || a == -dx,
            b == dy || b == -dy,
    {
    }
    let t1 = (100 * d * e) * (100 * d * e);
    let t2 = (100 * d * f) * (100 * d * f);
    assert(10000 * d * d * s2 == t1 + t2) by (nonlinear_arith)
        requires
            s2 == e * e + f * f,
            t1 == (100 * d * e) * (100 * d * e),
            t2 == (100 * d * f) * (100 * d * f),
    {
    }
    assert(a * a * big * big + b * b * big * big == s * (big * big)) by (nonlinear_arith)
        requires
            a * a + b * b == s,
    {
    }
    assert(400 * d * a * big + 400 * d * b * big <= 800 * (d * d * big)) by (nonlinear_arith)
        requires
            0 <= a <= d,
            0 <= b <= d,
            d > 0,
            big >= 0,
    {
    }
    assert(s * (big * big) >= d * d * (big * big)) by (nonlinear_arith)
        requires
            d * d <= s,
    {
    }
    let dd = d * d;
    assert(dd * (10000 * s2) >= dd * (big * big - 800 * big)) by (nonlinear_arith)
        requires
            10000 * d * d * s2 >= d * d * (big * big) - 800 * (d * d * big),
            dd == d * d,
    {
    }
    assert(dd > 0) by (nonlinear_arith)
        requires
            d > 0,
            dd == d * d,
    {
    }
    assert(10000 * s2 >= big * big - 800 * big) by (nonlinear_arith)
        requires
            dd * (10000 * s2) >= dd * (big * big - 800 * big),
            dd > 0,
    {
    }
    assert(0 <= s2) by (nonlinear_arith)
        requires
            s2 == e * e + f * f,
    {
    }
    lemma_floor_sqrt_exists(s2);
    let d2 = floor_sqrt(s2);
    if big >= 800 {
        assert(100 * (d2 + 1) > big - 800) by (nonlinear_arith)
            requires
                10000 * s2 >= big * big - 800 * big,
                s2 < (d2 + 1) * (d2 + 1),
                big >= 800,
                d2 >= 0,
        {
            assert(big * big - 800 * big >= (big - 800) * (big - 800));
            assert(10000 * (d2 + 1) * (d2 + 1) > (big - 800) * (big - 800));
            if 100 * (d2 + 1) <= big - 800 {
                assert(10000 * (d2 + 1) * (d2 + 1) <= (big - 800) * (big - 800));
            }
        }
    }
}

/// A constrained coordinate lies between the walls.
pub proof fn lemma_constrain_inside(pos: int, old: int, lo: int, hi: int)
    requires
        lo <= hi,
    ensures
        lo <= constrain_axis(pos, old, lo, hi).0 <= hi,
{
}

/// After integration every particle lies inside the wall, wherever it began.
pub proof fn lemma_integrate_all_inside(ps: Seq<PointModel>, b: Bounds, dt: int)
    requires
        b.min_x <= b.max_x,
        b.min_y <= b.max_y,
    ensures
        forall|k: int|
            0 <= k < ps.len() ==> b.contains(
                (#[trigger] integrate_all(ps, b, dt)[k]).x,
                integrate_all(ps, b, dt)[k].y,
            ),
{
    assert forall|k: int| 0 <= k < ps.len() implies b.contains(
        (#[trigger] integrate_all(ps, b, dt)[k]).x,
        integrate_all(ps, b, dt)[k].y,
    ) by {
        let p = with_gravity(ps[k]);
        let nx = p.x + crate::body::damp(p.x - p.old_x) + crate::body::accel_offset(p.acc_x, dt);
        let ny = p.y + crate::body::damp(p.y - p.old_y) + crate::body::accel_offset(p.acc_y, dt);
        lemma_constrain_inside(nx, p.x, b.min_x as int, b.max_x as int);
        lemma_constrain_inside(ny, p.y, b.min_y as int, b.max_y as int);
    }
}

/// A collision pass over particles of which no two overlap changes nothing.
proof fn lemma_collide_from_idle(qs: Seq<PointModel>, n: int, i: int, j: int)
    requires
        n == qs.len(),
        0 <= i < j,
        forall|a: int, c: int| 0 <= a < c < n ==> !collide(#[trigger] qs[a], #[trigger] qs[c]),
    ensures
        collide_from(qs, n, i, j) == qs,
    decreases n - i, n - j,
{
    if i >= n {
    } else if j >= n {
        lemma_collide_from_idle(qs, n, i + 1, i + 2);
    } else {
        assert(pair_step(qs, i, j) == qs);
        lemma_collide_from_idle(qs, n, i, j + 1);
    }
}

/// A substep whose collision pass finds no overlapping pair leaves every
/// particle inside the wall.
pub proof fn lemma_substep_inside_without_contact(ps: Seq<PointModel>, b: Bounds, dt: int)
    requires
        b.min_x <= b.max_x,
        b.min_y <= b.max_y,
        forall|a: int, c: int|
            0 <= a < c < ps.len() ==> !collide(
                #[trigger] integrate_all(ps, b, dt)[a],
                #[trigger] integrate_all(ps, b, dt)[c],
            ),
    ensures
        substep(ps, b, dt).len() == ps.len(),
        forall|k: int|
            0 <= k < ps.len() ==> b.contains(
                (#[trigger] substep(ps, b, dt)[k]).x,
                substep(ps, b, dt)[k].y,
            ),
{
    let qs = integrate_all(ps, b, dt);
    lemma_integrate_all_inside(ps, b, dt);
    assert forall|a: int, c: int| 0 <= a < c < qs.len() implies !collide(
        #[trigger] qs[a],
        #[trigger] qs[c],
    ) by {
        assert(!collide(integrate_all(ps, b, dt)[a], integrate_all(ps, b, dt)[c]));
    }
    lemma_collide_from_idle(qs, ps.len() as int, 0, 1);
}

/// A lone particle is inside the wall after any number of substeps, at least one.
pub proof fn lemma_lone_point_inside(p: PointModel, b: Bounds, dt: int, k: nat)
    requires
        b.min_x <= b.max_x,
        b.min_y <= b.max_y,
        k >= 1,
    ensures
        substeps(seq![p], b, dt, k).len() == 1,
        b.contains(substeps(seq![p], b, dt, k)[0].x, substeps(seq![p], b, dt, k)[0].y),
    decreases k,
{
    let ps = seq![p];
    let once = integrate_all(ps, b, dt);
    lemma_integrate_all_inside(ps, b, dt);
    assert(collide_from(once, 1, 0, 1) == collide_from(once, 1, 1, 2));
    assert(substep(ps, b, dt) == once);
    assert(once =~= seq![once[0]]);
    if k > 1 {
        lemma_lone_point_inside(once[0], b, dt, (k - 1) as nat);
    } else {
        assert(substeps(once, b, dt, 0) == once);
    }
}

/// A frame keeps a lone particle inside the wall.
pub proof fn lemma_step_keeps_lone_point_inside(p: PointModel, b: Bounds, dt_frame: int)
    requires
        b.min_x <= b.max_x,
        b.min_y <= b.max_y,
    ensures
        stepped(seq![p], b, dt_frame).len() == 1,
        b.contains(stepped(seq![p], b, dt_frame)[0].x, stepped(seq![p], b, dt_frame)[0].y),
{
    lemma_lone_point_inside(p, b, dt_frame / 8, 8);
}

/// One substep in open space: the velocity is damped once, gravity and the
/// gathered acceleration are added, and nothing clamps the result.
pub open spec fn flight(p: PointModel, dt: int) -> PointModel {
    let q = with_gravity(p);
    PointModel {
        x: q.x + damp(q.x - q.old_x) + accel_offset(q.acc_x, dt),
        y: q.y + damp(q.y - q.old_y) + accel_offset(q.acc_y, dt),
        old_x: q.x,
        old_y: q.y,
        acc_x: 0,
        acc_y: 0,
        ..q
    }
}

/// `k` substeps in open space.
pub open spec fn flights(p: PointModel, dt: int, k: nat) -> PointModel
    decreases k,
{
    if k == 0 {
        p
    } else {
        flights(flight(p, dt), dt, (k - 1) as nat)
    }
}

/// A lone particle that meets no wall follows the open-space recurrence
/// substep by substep, friction compounding once per substep.
pub proof fn lemma_lone_flight(p: PointModel, b: Bounds, dt: int, k: nat)
    requires
        forall|i: nat|
            1 <= i <= k ==> b.contains(
                (#[trigger] flights(p, dt, i)).x,
                flights(p, dt, i).y,
            ),
    ensures
        substeps(seq![p], b, dt, k) == seq![flights(p, dt, k)],
    decreases k,
{
    if k > 0 {
        let ps = seq![p];
        let f = flight(p, dt);
        assert(flights(p, dt, 1) == flights(f, dt, 0));
        assert(b.contains(flights(p, dt, 1).x, flights(p, dt, 1).y));
        assert(integrated(with_gravity(p), b, dt) == f);
        let once = integrate_all(ps, b, dt);
        assert(once =~= seq![f]);
        assert(collide_from(once, 1, 0, 1) == collide_from(once, 1, 1, 2));
        assert(substep(ps, b, dt) == seq![f]);
        assert forall|i: nat| 1 <= i <= (k - 1) as nat implies b.contains(
            (#[trigger] flights(f, dt, i)).x,
            flights(f, dt, i).y,
        ) by {
            assert(flights(p, dt, i + 1) == flights(f, dt, i));
            assert(b.contains(flights(p, dt, (i + 1) as nat).x, flights(p, dt, (i + 1) as nat).y));
        }
        lemma_lone_flight(f, b, dt, (k - 1) as nat);
    }
}

/// A frame of a lone particle that meets no wall equals `SUBSTEPS` open-space
/// substeps of a `SUBSTEPS`-th of the frame each.
pub proof fn lemma_step_lone_flight(p: PointModel, b: Bounds, dt_frame: int)
    requires
        forall|i: nat|
            1 <= i <= 8 ==> b.contains(
                (#[trigger] flights(p, dt_frame / 8, i)).x,
                flights(p, dt_frame / 8, i).y,
            ),
    ensures
        stepped(seq![p], b, dt_frame) == seq![flights(p, dt_frame / 8, 8)],
{
    lemma_lone_flight(p, b, dt_frame / 8, 8);
}

/// Resting on the floor: on it, with no gathered vertical acceleration, and an
/// upward velocity that one substep of gravity more than cancels.
pub open spec fn resting(p: PointModel, b: Bounds, dt: int) -> bool {
    p.y == b.min_y && p.acc_y == 0 && 0 <= p.y - p.old_y < -accel_offset(GRAVITY as int, dt)
}

/// One substep keeps a resting lone particle resting.
proof fn lemma_rest_persists(p: PointModel, b: Bounds, dt: int)
    requires
        b.min_y <= b.max_y,
        resting(p, b, dt),
    ensures
        substep(seq![p], b, dt) == seq![integrated(with_gravity(p), b, dt)],
        resting(integrated(with_gravity(p), b, dt), b, dt),
{
    let ps = seq![p];
    let once = integrate_all(ps, b, dt);
    assert(once =~= seq![integrated(with_gravity(p), b, dt)]);
    assert(collide_from(once, 1, 0, 1) == collide_from(once, 1, 1, 2));
    let g = accel_offset(GRAVITY as int, dt);
    let c = p.y - p.old_y;
    lemma_tdiv_bound(c * 99, 100);
    let w = damp(c) + g;
    assert(w < 0);
    lemma_tdiv_bound(w * 99, 100);
    lemma_tdiv_bound(damp(w) * 99, 100);
    let q = integrated(with_gravity(p), b, dt);
    assert(q.y == b.min_y);
    assert(q.old_y == b.min_y + rebound(damp(w)));
}

/// A lone particle resting on the floor stays on it, substep after substep,
/// wherever it moves sideways.
pub proof fn lemma_resting_stays_on_floor(p: PointModel, b: Bounds, dt: int, k: nat)
    requires
        b.min_y <= b.max_y,
        resting(p, b, dt),
    ensures
        substeps(seq![p], b, dt, k).len() == 1,
        resting(substeps(seq![p], b, dt, k)[0], b, dt),
        substeps(seq![p], b, dt, k)[0].y == b.min_y,
    decreases k,
{
    if k > 0 {
        lemma_rest_persists(p, b, dt);
        lemma_resting_stays_on_floor(integrated(with_gravity(p), b, dt), b, dt, (k - 1) as nat);
    }
}

/// Every later frame leaves a resting lone particle on the floor.
pub proof fn lemma_step_keeps_resting_point_on_floor(p: PointModel, b: Bounds, dt_frame: int)
    requires
        b.min_y <= b.max_y,
        resting(p, b, dt_frame / 8),
    ensures
        stepped(seq![p], b, dt_frame).len() == 1,
        stepped(seq![p], b, dt_frame)[0].y == b.min_y,
        resting(stepped(seq![p], b, dt_frame)[0], b, dt_frame / 8),
{
    lemma_resting_stays_on_floor(p, b, dt_frame / 8, 8);
}

} // verus!
