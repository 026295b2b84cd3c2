//! One frame of the simulation: substeps of integration over every particle,
//! each followed by collision resolution over every pair.
use vstd::prelude::*;
use crate::body::{
    Bounds, Point, PointModel, integrated, within, ACC_LIMIT, BOUND_LIMIT, COORD_LIMIT,
    GRAVITY, OLD_LIMIT, RADIUS_LIMIT, SUBSTEP_LIMIT,
};
use crate::collision::{collide, resolved, solve_collision, lemma_resolve_moves_little};

verus! {

/// Substeps in one frame.
pub const SUBSTEPS: i64 = 8;

/// Most particles that one simulation holds: enough that a particle pushed by
/// every other one in a substep stays within the position limit,
/// `(COORD_LIMIT - BOUND_LIMIT) / RADIUS_LIMIT`.
pub const MAX_POINTS: usize = 114_688;

/// The models of a sequence of particles.
pub open spec fn models(ps: Seq<Point>) -> Seq<PointModel> {
    ps.map_values(|p: Point| p@)
}

/// Every particle lies within the engine's limits.
pub open spec fn all_wf(ps: Seq<Point>) -> bool {
    forall|k: int| 0 <= k < ps.len() ==> #[trigger] ps[k].wf()
}

pub open spec fn with_gravity(p: PointModel) -> PointModel {
    PointModel { acc_y: p.acc_y + GRAVITY, ..p }
}

/// Every particle pulled by gravity and integrated over `dt`.
pub open spec fn integrate_all(ps: Seq<PointModel>, b: Bounds, dt: int) -> Seq<PointModel> {
    ps.map_values(|p: PointModel| integrated(with_gravity(p), b, dt))
}

/// Resolves the pair `(i, j)` if it collides.
pub open spec fn pair_step(ps: Seq<PointModel>, i: int, j: int) -> Seq<PointModel> {
    if 0 <= i < ps.len() && 0 <= j < ps.len() && collide(ps[i], ps[j]) {
        let r = resolved(ps[i], ps[j]);
        ps.update(i, r.0).update(j, r.1)
    } else {
        ps
    }
}

/// Resolves, in order, every pair `(i, j)` with `i < j < n` from `(i, j)` on.
pub open spec fn collide_from(ps: Seq<PointModel>, n: int, i: int, j: int) -> Seq<PointModel>
    decreases n - i, n - j,
{
    if i >= n {
        ps
    } else if j >= n {
        collide_from(ps, n, i + 1, i + 2)
    } else {
        collide_from(pair_step(ps, i, j), n, i, j + 1)
    }
}

/// One substep: integrate all particles, then resolve all pairs.
pub open spec fn substep(ps: Seq<PointModel>, b: Bounds, dt: int) -> Seq<PointModel> {
    collide_from(integrate_all(ps, b, dt), ps.len() as int, 0, 1)
}

/// `k` substeps of `dt` each.
pub open spec fn substeps(ps: Seq<PointModel>, b: Bounds, dt: int, k: nat) -> Seq<PointModel>
    decreases k,
{
    if k == 0 {
        ps
    } else {
        substeps(substep(ps, b, dt), b, dt, (k - 1) as nat)
    }
}

/// One frame of `dt_frame` microseconds.
pub open spec fn stepped(ps: Seq<PointModel>, b: Bounds, dt_frame: int) -> Seq<PointModel> {
    substeps(ps, b, dt_frame / SUBSTEPS as int, SUBSTEPS as nat)
}

/// After integration: inside the wall, no acceleration left, within limits.
pub open spec fn settled(p: Point, b: Bounds) -> bool {
    b.contains(p.x as int, p.y as int) && within(p.old_x as int, OLD_LIMIT as int) && within(
        p.old_y as int,
        OLD_LIMIT as int,
    ) && p.acc_x == 0 && p.acc_y == 0 && 0 <= p.radius <= RADIUS_LIMIT
}

/// Within the wall widened by `slack` on every side, with limits as `settled`.
pub open spec fn loose(p: Point, slack: int) -> bool {
    within(p.x as int, BOUND_LIMIT + slack) && within(p.y as int, BOUND_LIMIT + slack) && within(
        p.old_x as int,
        OLD_LIMIT as int,
    ) && within(p.old_y as int, OLD_LIMIT as int) && p.acc_x == 0 && p.acc_y == 0 && 0 <= p.radius
        <= RADIUS_LIMIT
}

/// Applies gravity to every particle and integrates it over `dt`.
fn move_all(points: &mut Vec<Point>, bounds: &Bounds, dt: i64)
    requires
        bounds.wf(),
        0 <= dt <= SUBSTEP_LIMIT,
        all_wf(old(points)@),
    ensures
        models(final(points)@) == integrate_all(models(old(points)@), *bounds, dt as int),
        final(points)@.len() == old(points)@.len(),
        forall|k: int| 0 <= k < final(points)@.len() ==> settled(#[trigger] final(points)@[k], *bounds),
{
    let n: usize = points.len();
    let mut i: usize = 0;
    while i < n
        invariant
            n == points@.len(),
            n == old(points)@.len(),
            i <= n,
            bounds.wf(),
            0 <= dt <= SUBSTEP_LIMIT,
            all_wf(old(points)@),
            forall|k: int| i <= k < n ==> #[trigger] points@[k] == old(points)@[k],
            forall|k: int|
                0 <= k < i ==> #[trigger] points@[k]@ == integrated(
                    with_gravity(old(points)@[k]@),
                    *bounds,
                    dt as int,
                ),
            forall|k: int| 0 <= k < i ==> settled(#[trigger] points@[k], *bounds),
        decreases n - i,
    {
        let mut p: Point = points[i];
        assert(p.wf());
        p.apply_acceleration(0, GRAVITY);
        p.move_point(bounds, dt);
        points.set(i, p);
        i = i + 1;
    }
    assert(models(points@) =~= integrate_all(models(old(points)@), *bounds, dt as int));
}

/// How many pairs holding particle `k` a pass over `n` particles has resolved
/// before it reaches the pair `(i, j)`, at most: pairs `(a, k)` with `a < k`,
/// then pairs `(k, c)` with `c > k`.
pub open spec fn met(k: int, i: int, j: int, n: int) -> int {
    (if k < i {
        k
    } else {
        i
    }) + (if i < k && k < j {
        1int
    } else {
        0int
    }) + (if k < i {
        n - 1 - k
    } else if k == i {
        j - i - 1
    } else {
        0int
    })
}

/// Resolves every colliding pair once, in order of `(i, j)` with `i < j`.
/// Each particle is in at most `n - 1` pairs, and each resolution moves it by
/// at most one largest radius per axis.
fn resolve_all(points: &mut Vec<Point>)
    requires
        old(points)@.len() <= MAX_POINTS,
        forall|k: int| 0 <= k < old(points)@.len() ==> loose(#[trigger] old(points)@[k], 0),
    ensures
        models(final(points)@) == collide_from(
            models(old(points)@),
            old(points)@.len() as int,
            0,
            1,
        ),
        final(points)@.len() == old(points)@.len(),
        forall|k: int|
            0 <= k < final(points)@.len() ==> loose(
                #[trigger] final(points)@[k],
                (MAX_POINTS - 1) * RADIUS_LIMIT,
            ),
{
    let n: usize = points.len();
    let ghost target = collide_from(models(points@), n as int, 0, 1);
    let ghost mut cnt: Seq<int> = Seq::new(n as nat, |k: int| 0int);
    let mut i: usize = 0;
    while i < n
        invariant
            n == points@.len(),
            n <= MAX_POINTS,
            i <= n,
            cnt.len() == n,
            collide_from(models(points@), n as int, i as int, i + 1) == target,
            forall|k: int|
                0 <= k < n ==> 0 <= #[trigger] cnt[k] <= met(k, i as int, i + 1, n as int),
            forall|k: int| 0 <= k < n ==> loose(#[trigger] points@[k], cnt[k] * RADIUS_LIMIT),
        decreases n - i,
    {
        let mut j: usize = i + 1;
        while j < n
            invariant
                n == points@.len(),
                n <= MAX_POINTS,
                i < n,
                i + 1 <= j <= n,
                cnt.len() == n,
                collide_from(models(points@), n as int, i as int, j as int) == target,
                forall|k: int|
                    0 <= k < n ==> 0 <= #[trigger] cnt[k] <= met(k, i as int, j as int, n as int),
                forall|k: int| 0 <= k < n ==> loose(#[trigger] points@[k], cnt[k] * RADIUS_LIMIT),
            decreases n - j,
        {
            let mut a: Point = points[i];
            let mut b: Point = points[j];
            let ghost before = points@;
            let ghost cnt0 = cnt;
            assert(cnt[i as int] <= met(i as int, i as int, j as int, n as int));
            assert(cnt[j as int] <= met(j as int, i as int, j as int, n as int));
            assert(loose(a, cnt[i as int] * RADIUS_LIMIT) && loose(b, cnt[j as int] * RADIUS_LIMIT));
            let hit: bool = a.colliding(&b);
            if hit {
                proof {
                    lemma_resolve_moves_little(a@, b@);
                }
                solve_collision(&mut a, &mut b);
                points.set(i, a);
                points.set(j, b);
                assert(models(points@) =~= pair_step(models(before), i as int, j as int));
            } else {
                assert(models(points@) =~= pair_step(models(before), i as int, j as int));
            }
            proof {
                cnt = cnt.update(i as int, cnt[i as int] + 1).update(j as int, cnt[j as int] + 1);
                assert forall|k: int| 0 <= k < n implies 0 <= #[trigger] cnt[k] <= met(
                    k,
                    i as int,
                    j + 1,
                    n as int,
                ) by {
                    assert(cnt0[k] <= met(k, i as int, j as int, n as int));
                }
                assert forall|k: int| 0 <= k < n implies loose(
                    #[trigger] points@[k],
                    cnt[k] * RADIUS_LIMIT,
                ) by {
                    assert(loose(before[k], cnt0[k] * RADIUS_LIMIT));
                }
            }
            j = j + 1;
        }
        proof {
            assert forall|k: int| 0 <= k < n implies 0 <= #[trigger] cnt[k] <= met(
                k,
                i + 1,
                i + 2,
                n as int,
            ) by {
                assert(cnt[k] <= met(k, i as int, j as int, n as int));
            }
        }
        i = i + 1;
    }
    proof {
        assert forall|k: int| 0 <= k < n implies loose(
            #[trigger] points@[k],
            (MAX_POINTS - 1) * RADIUS_LIMIT,
        ) by {
            assert(cnt[k] <= met(k, i as int, i + 1, n as int));
            assert(loose(points@[k], cnt[k] * RADIUS_LIMIT));
        }
    }
}

/// Advances every particle by one frame of `dt_frame` microseconds, split into
/// `SUBSTEPS` equal substeps. Each substep applies gravity and integrates all
/// particles, then resolves all colliding pairs.
pub fn step(points: &mut Vec<Point>, bounds: &Bounds, dt_frame: i64)
    requires
        bounds.wf(),
        0 <= dt_frame <= SUBSTEPS * SUBSTEP_LIMIT,
        old(points)@.len() <= MAX_POINTS,
        all_wf(old(points)@),
    ensures
        models(final(points)@) == stepped(models(old(points)@), *bounds, dt_frame as int),
        final(points)@.len() == old(points)@.len(),
        all_wf(final(points)@),
{
    let sub_dt: i64 = dt_frame / SUBSTEPS;
    let ghost target = stepped(models(points@), *bounds, dt_frame as int);
    let n: usize = points.len();
    let mut k: i64 = 0;
    while k < SUBSTEPS
        invariant
            0 <= k <= SUBSTEPS,
            n == points@.len(),
            n <= MAX_POINTS,
            bounds.wf(),
            0 <= sub_dt <= SUBSTEP_LIMIT,
            sub_dt == dt_frame / SUBSTEPS,
            all_wf(points@),
            substeps(models(points@), *bounds, sub_dt as int, (SUBSTEPS - k) as nat) == target,
        decreases SUBSTEPS - k,
    {
        let ghost before = models(points@);
        move_all(points, bounds, sub_dt);
        resolve_all(points);
        assert(models(points@) == substep(before, *bounds, sub_dt as int));
        k = k + 1;
    }
}

} // verus!
