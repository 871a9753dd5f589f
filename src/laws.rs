//! Properties of casting that hold for all inputs.
use vstd::prelude::*;

use crate::utils::{cross, diff, dot};
use crate::{
    cast_spec, closer, det, nearest_hit, on_segment, param_den, param_t, param_u, t_num, u_num, Barrier, Ray, RayFail,
    RayHit,
};

verus! {

/// Casting is a function of the coordinates alone: equal rays against equal
/// barriers give equal outcomes.
pub proof fn lemma_cast_deterministic(ray1: Ray, bar1: Barrier, ray2: Ray, bar2: Barrier)
    requires
        ray1.position == ray2.position,
        ray1.end_position == ray2.end_position,
        bar1.positions == bar2.positions,
    ensures
        cast_spec(ray1, bar1) == cast_spec(ray2, bar2),
{
}

/// Cramer's rule for the two lines: `p1 * det + t_num * (p2 - p1)` and
/// `p3 * det + u_num * (p4 - p3)` are the same point.
proof fn lemma_lines_meet(ray: Ray, bar: Barrier)
    ensures
        ({
            let p1 = ray.origin();
            let p2 = ray.terminus();
            let p3 = bar.start();
            let p4 = bar.end();
            let den = det(ray, bar);
            let t = t_num(ray, bar);
            let u = u_num(ray, bar);
            &&& p1.0 * den + t * (p2.0 - p1.0) == p3.0 * den + u * (p4.0 - p3.0)
            &&& p1.1 * den + t * (p2.1 - p1.1) == p3.1 * den + u * (p4.1 - p3.1)
        }),
{
    let (x1, y1) = ray.origin();
    let (x2, y2) = ray.terminus();
    let (x3, y3) = bar.start();
    let (x4, y4) = bar.end();
    let (a, b) = (x1 - x3, y1 - y3);
    let (dx, dy) = (x2 - x1, y2 - y1);
    let (ex, ey) = (x4 - x3, y4 - y3);
    let den = dx * ey - dy * ex;
    let t = b * ex - a * ey;
    let u = b * dx - a * dy;
    assert(det(ray, bar) == den) by (nonlinear_arith)
        requires
            det(ray, bar) == (-dx) * (-ey) - (-dy) * (-ex),
            den == dx * ey - dy * ex,
    ;
    assert(t_num(ray, bar) == t) by (nonlinear_arith)
        requires
            t_num(ray, bar) == a * (-ey) - b * (-ex),
            t == b * ex - a * ey,
    ;
    assert(u_num(ray, bar) == u) by (nonlinear_arith)
        requires
            u_num(ray, bar) == a * (-dy) - b * (-dx),
            u == b * dx - a * dy,
    ;
    assert(a * den + t * dx - u * ex == 0) by (nonlinear_arith)
        requires
            den == dx * ey - dy * ex,
            t == b * ex - a * ey,
            u == b * dx - a * dy,
    ;
    assert(b * den + t * dy - u * ey == 0) by (nonlinear_arith)
        requires
            den == dx * ey - dy * ex,
            t == b * ex - a * ey,
            u == b * dx - a * dy,
    ;
    assert(x1 * den - x3 * den == a * den && y1 * den - y3 * den == b * den) by (nonlinear_arith)
        requires
            a == x1 - x3,
            b == y1 - y3,
    ;
}

/// The point `(a * s + k * e) / s` with `0 <= k <= s` lies on the segment from
/// `a` to `a + e`.
proof fn lemma_point_on_segment(a: (int, int), e: (int, int), s: int, k: int)
    requires
        0 < s,
        0 <= k <= s,
    ensures
        on_segment((a.0 * s + k * e.0, a.1 * s + k * e.1), s, a, (a.0 + e.0, a.1 + e.1)),
{
    let p = (a.0 * s + k * e.0, a.1 * s + k * e.1);
    let w = (p.0 - s * a.0, p.1 - s * a.1);
    assert(w == (k * e.0, k * e.1)) by (nonlinear_arith)
        requires
            p == (a.0 * s + k * e.0, a.1 * s + k * e.1),
            w == (p.0 - s * a.0, p.1 - s * a.1),
    ;
    assert(diff((a.0 + e.0, a.1 + e.1), a) == e);
    assert(cross(w, e) == 0) by (nonlinear_arith)
        requires
            w == (k * e.0, k * e.1),
    ;
    assert(0 <= dot(w, e) <= s * dot(e, e)) by (nonlinear_arith)
        requires
            w == (k * e.0, k * e.1),
            0 <= k <= s,
    ;
    assert(e == (0int, 0int) ==> w == (0int, 0int)) by (nonlinear_arith)
        requires
            w == (k * e.0, k * e.1),
    ;
}

/// A hit lies on both segments: on the ray and on the barrier.
pub proof fn lemma_hit_on_both_segments(ray: Ray, bar: Barrier)
    requires
        cast_spec(ray, bar) is Ok,
    ensures
        ({
            let h = cast_spec(ray, bar)->Ok_0;
            &&& 0 < h.scale
            &&& on_segment(h.scaled_position(), h.scale as int, ray.origin(), ray.terminus())
            &&& on_segment(h.scaled_position(), h.scale as int, bar.start(), bar.end())
        }),
{
    let h = cast_spec(ray, bar)->Ok_0;
    let p1 = ray.origin();
    let p2 = ray.terminus();
    let p3 = bar.start();
    let p4 = bar.end();
    crate::lemma_hit_fields(ray, bar);
    if ray.is_point() && !bar.is_degenerate() {
        lemma_point_on_segment(p1, (0, 0), 1, 0);
        assert((p1.0 + 0, p1.1 + 0) == p2);
    } else {
        let s = param_den(ray, bar);
        let t = param_t(ray, bar);
        let u = param_u(ray, bar);
        let d = diff(p2, p1);
        let e = diff(p4, p3);
        let p = (p1.0 * s + t * d.0, p1.1 * s + t * d.1);
        crate::lemma_hit_position(ray, bar);
        assert(h.scaled_position() == p);
        lemma_point_on_segment(p1, d, s, t);
        assert((p1.0 + d.0, p1.1 + d.1) == p2);
        lemma_lines_meet(ray, bar);
        assert(p == (p3.0 * s + u * e.0, p3.1 * s + u * e.1)) by (nonlinear_arith)
            requires
                p == (p1.0 * s + t * d.0, p1.1 * s + t * d.1),
                p1.0 * det(ray, bar) + t_num(ray, bar) * d.0 == p3.0 * det(ray, bar) + u_num(
                    ray,
                    bar,
                ) * e.0,
                p1.1 * det(ray, bar) + t_num(ray, bar) * d.1 == p3.1 * det(ray, bar) + u_num(
                    ray,
                    bar,
                ) * e.1,
                (s == det(ray, bar) && t == t_num(ray, bar) && u == u_num(ray, bar)) || (s == -det(
                    ray,
                    bar,
                ) && t == -t_num(ray, bar) && u == -u_num(ray, bar)),
        ;
        lemma_point_on_segment(p3, e, s, u);
        assert((p3.0 + e.0, p3.1 + e.1) == p4);
    }
}

/// A ray and a barrier whose directions are parallel (their cross product is
/// zero) fail with `Parallel`, unless the ray is a single point tested against
/// a barrier with length.
pub proof fn lemma_parallel_fails(ray: Ray, bar: Barrier)
    requires
        cross(diff(ray.terminus(), ray.origin()), diff(bar.end(), bar.start())) == 0,
        !ray.is_point() || bar.is_degenerate(),
    ensures
        cast_spec(ray, bar) == Err::<RayHit, RayFail>(RayFail::Parallel),
{
    let d = diff(ray.terminus(), ray.origin());
    let e = diff(bar.end(), bar.start());
    assert(det(ray, bar) == cross(d, e)) by (nonlinear_arith)
        requires
            det(ray, bar) == (-d.0) * (-e.1) - (-d.1) * (-e.0),
            cross(d, e) == d.0 * e.1 - d.1 * e.0,
    ;
}

/// A ray that ends exactly on an endpoint of a barrier it is not parallel to
/// hits it there.
pub proof fn lemma_hits_shared_endpoint(ray: Ray, bar: Barrier)
    requires
        det(ray, bar) != 0,
        ray.terminus() == bar.start() || ray.terminus() == bar.end(),
    ensures
        cast_spec(ray, bar) is Ok,
        ({
            let h = cast_spec(ray, bar)->Ok_0;
            let s = h.scale as int;
            h.scaled_position() == (ray.terminus().0 * s, ray.terminus().1 * s)
        }),
{
    let (x1, y1) = ray.origin();
    let (x2, y2) = ray.terminus();
    let (x3, y3) = bar.start();
    let (x4, y4) = bar.end();
    let den = det(ray, bar);
    assert((x1 == x2 && y1 == y2) ==> den == 0) by (nonlinear_arith)
        requires
            den == (x1 - x2) * (y3 - y4) - (y1 - y2) * (x3 - x4),
    ;
    if ray.terminus() == bar.start() {
        assert(t_num(ray, bar) == den);
        assert(u_num(ray, bar) == 0) by (nonlinear_arith)
            requires
                u_num(ray, bar) == (x1 - x2) * (y1 - y2) - (y1 - y2) * (x1 - x2),
        ;
    } else {
        assert(t_num(ray, bar) == den && u_num(ray, bar) == den) by (nonlinear_arith)
            requires
                x2 == x4,
                y2 == y4,
                den == (x1 - x2) * (y3 - y4) - (y1 - y2) * (x3 - x4),
                t_num(ray, bar) == (x1 - x3) * (y3 - y4) - (y1 - y3) * (x3 - x4),
                u_num(ray, bar) == (x1 - x3) * (y1 - y2) - (y1 - y3) * (x1 - x2),
        ;
    }
    let s = param_den(ray, bar);
    assert(param_t(ray, bar) == s && 0 <= param_u(ray, bar) <= s);
    crate::lemma_hit_fields(ray, bar);
    crate::lemma_hit_position(ray, bar);
    assert(x1 * s + s * (x2 - x1) == x2 * s && y1 * s + s * (y2 - y1) == y2 * s) by (nonlinear_arith);
}

/// A ray of no length tested against a barrier with length misses it unless
/// its point lies on the barrier; then it hits there, at distance zero.
pub proof fn lemma_point_ray(ray: Ray, bar: Barrier)
    requires
        ray.is_point(),
        !bar.is_degenerate(),
    ensures
        !on_segment(ray.origin(), 1, bar.start(), bar.end()) ==> cast_spec(ray, bar) == Err::<
            RayHit,
            RayFail,
        >(RayFail::NoHit),
        on_segment(ray.origin(), 1, bar.start(), bar.end()) ==> ({
            let h = cast_spec(ray, bar)->Ok_0;
            &&& cast_spec(ray, bar) is Ok
            &&& h.scale == 1
            &&& h.scaled_position() == ray.origin()
            &&& h.distance_squared == 0
        }),
{
}

/// The nearest hit among several barriers is unique: one barrier and one hit
/// meet its description.
pub proof fn lemma_nearest_hit_unique(ray: Ray, bars: Seq<Barrier>, k1: int, h1: RayHit, k2: int, h2: RayHit)
    requires
        nearest_hit(ray, bars, k1, h1),
        nearest_hit(ray, bars, k2, h2),
    ensures
        k1 == k2,
        h1 == h2,
{
    if k1 < k2 {
        assert(cast_spec(ray, bars[k1]) is Ok);
        assert(closer(h2, h1));
    } else if k2 < k1 {
        assert(cast_spec(ray, bars[k2]) is Ok);
        assert(closer(h1, h2));
    }
}

/// Against a single barrier, the nearest hit is that barrier's own hit.
pub proof fn lemma_nearest_of_one(ray: Ray, bar: Barrier, k: int, h: RayHit)
    requires
        nearest_hit(ray, seq![bar], k, h),
    ensures
        cast_spec(ray, bar) == Ok::<RayHit, RayFail>(h),
{
}

} // verus!
