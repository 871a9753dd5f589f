//! 2D ray casting against solid line segments ("barriers").
//!
//! Points lie on a 16-bit integer grid, and every quantity the casts compute is
//! exact: a hit position is a rational point, written as integer numerators over
//! a common positive `scale`, and a distance is reported as its exact square over
//! `scale * scale`. Nothing is rounded, so parallel lines are detected exactly and
//! a hit is reported exactly when the two closed segments meet.
use vstd::prelude::*;

pub mod laws;
pub mod utils;

use crate::utils::{
    cross, diff, dist_sq, distance_squared, dot, lemma_frac_lt_le_trans, lemma_frac_lt_trans,
    lemma_mul_abs_bound,
};

verus! {

/// Raycast failure states.
#[derive(Debug, Clone, Copy, PartialEq, Eq, Structural)]
pub enum RayFail {
    /// Did not hit any barrier.
    NoHit,
    /// Ray and barrier are parallel (or one of them has no direction); they
    /// cannot meet in a single point. Only a single-barrier cast reports it.
    Parallel,
}

/// Raycast collision data.
///
/// The collision point is `(position.0 / scale, position.1 / scale)`, and its
/// distance from the ray's origin is `sqrt(distance_squared) / scale`.
#[derive(Debug, Clone, Copy)]
pub struct RayHit {
    /// Numerators of the collision point's coordinates.
    pub position: (i64, i64),
    /// Common denominator of `position`; always positive.
    pub scale: i64,
    /// Squared distance of the collision point from the ray's origin, times
    /// `scale * scale`.
    pub distance_squared: i128,
}

/// Raycast collision unit: the closed segment from `position` to `end_position`.
#[derive(Debug, Clone, Copy)]
pub struct Ray {
    /// Origin position the ray is emitted from.
    pub position: (i16, i16),
    /// Position at which the ray ends.
    pub end_position: (i16, i16),
}

/// 1-dimensional collision subject: a solid line segment between two points.
#[derive(Debug, Clone, Copy)]
pub struct Barrier {
    pub positions: ((i16, i16), (i16, i16)),
}

/// A grid point as a pair of mathematical integers.
pub open spec fn pt(p: (i16, i16)) -> (int, int) {
    (p.0 as int, p.1 as int)
}

impl Ray {
    pub open spec fn origin(self) -> (int, int) {
        pt(self.position)
    }

    pub open spec fn terminus(self) -> (int, int) {
        pt(self.end_position)
    }

    /// The ray has no length: it is a single point.
    pub open spec fn is_point(self) -> bool {
        self.origin() == self.terminus()
    }
}

impl Barrier {
    pub open spec fn start(self) -> (int, int) {
        pt(self.positions.0)
    }

    pub open spec fn end(self) -> (int, int) {
        pt(self.positions.1)
    }

    /// The barrier's endpoints coincide.
    pub open spec fn is_degenerate(self) -> bool {
        self.start() == self.end()
    }
}

impl RayHit {
    /// The collision point, scaled by `scale`.
    pub open spec fn scaled_position(self) -> (int, int) {
        (self.position.0 as int, self.position.1 as int)
    }
}

/// The rational point `p / s` lies on the closed segment from `a` to `b`.
///
/// With `w = p - s * a` and `e = b - a`: `w` is parallel to `e`, and its
/// projection onto `e` lies between `0` and `s * |e|^2`. A segment without
/// length holds only its one point.
pub open spec fn on_segment(p: (int, int), s: int, a: (int, int), b: (int, int)) -> bool {
    let w = (p.0 - s * a.0, p.1 - s * a.1);
    let e = diff(b, a);
    &&& cross(w, e) == 0
    &&& 0 <= dot(w, e) <= s * dot(e, e)
    &&& (e == (0int, 0int) ==> w == (0int, 0int))
}

/// The determinant of the ray's and the barrier's lines; zero exactly when
/// they are parallel.
pub open spec fn det(ray: Ray, bar: Barrier) -> int {
    cross(diff(ray.origin(), ray.terminus()), diff(bar.start(), bar.end()))
}

/// Numerator of the intersection's parameter `t` along the ray.
pub open spec fn t_num(ray: Ray, bar: Barrier) -> int {
    cross(diff(ray.origin(), bar.start()), diff(bar.start(), bar.end()))
}

/// Numerator of the intersection's parameter `u` along the barrier.
pub open spec fn u_num(ray: Ray, bar: Barrier) -> int {
    cross(diff(ray.origin(), bar.start()), diff(ray.origin(), ray.terminus()))
}

/// `|det|`: the common denominator of both parameters.
pub open spec fn param_den(ray: Ray, bar: Barrier) -> int {
    if det(ray, bar) >= 0 { det(ray, bar) } else { -det(ray, bar) }
}

/// `t * param_den`: the ray parameter over a positive denominator.
pub open spec fn param_t(ray: Ray, bar: Barrier) -> int {
    if det(ray, bar) >= 0 { t_num(ray, bar) } else { -t_num(ray, bar) }
}

/// `u * param_den`: the barrier parameter over a positive denominator.
pub open spec fn param_u(ray: Ray, bar: Barrier) -> int {
    if det(ray, bar) >= 0 { u_num(ray, bar) } else { -u_num(ray, bar) }
}

/// The hit record for the scaled point `p / s`, at scaled squared distance `d`.
pub open spec fn hit_at(p: (int, int), s: int, d: int) -> RayHit {
    RayHit { position: (p.0 as i64, p.1 as i64), scale: s as i64, distance_squared: d as i128 }
}

/// The outcome of casting `ray` against `bar`.
///
/// A ray of no length is a point test against a barrier that has length: it
/// hits, at distance zero, exactly when its point lies on the barrier.
/// Otherwise the two lines are solved for `t` and `u`: a zero determinant is
/// `Parallel`; both parameters in `[0, 1]` is a hit at `origin + t * (terminus
/// - origin)`; anything else is `NoHit`.
pub open spec fn cast_spec(ray: Ray, bar: Barrier) -> Result<RayHit, RayFail> {
    let p1 = ray.origin();
    let p2 = ray.terminus();
    if ray.is_point() && !bar.is_degenerate() {
        if on_segment(p1, 1, bar.start(), bar.end()) {
            Ok(hit_at(p1, 1, 0))
        } else {
            Err(RayFail::NoHit)
        }
    } else if det(ray, bar) == 0 {
        Err(RayFail::Parallel)
    } else {
        let s = param_den(ray, bar);
        let t = param_t(ray, bar);
        let u = param_u(ray, bar);
        if 0 <= t <= s && 0 <= u <= s {
            let p = (p1.0 * s + t * (p2.0 - p1.0), p1.1 * s + t * (p2.1 - p1.1));
            Ok(hit_at(p, s, dist_sq((p1.0 * s, p1.1 * s), p)))
        } else {
            Err(RayFail::NoHit)
        }
    }
}

/// `position + direction * distance`, where it lies on the grid.
pub open spec fn reach(position: (i16, i16), direction: (i16, i16), distance: u16) -> (int, int) {
    (
        position.0 as int + direction.0 as int * distance as int,
        position.1 as int + direction.1 as int * distance as int,
    )
}

impl Ray {
    /// A ray from `position` to `end_position`.
    pub fn new(position: (i16, i16), end_position: (i16, i16)) -> (r: Ray)
        ensures
            r.position == position,
            r.end_position == end_position,
    {
        Ray { position, end_position }
    }

    /// A ray from `position` along `direction`, reaching `distance` times that
    /// vector; `None` where the end point falls off the grid.
    pub fn from_direction(position: (i16, i16), direction: (i16, i16), distance: u16) -> (r: Option<
        Ray,
    >)
        ensures
            r is Some <==> ({
                let e = reach(position, direction, distance);
                i16::MIN <= e.0 <= i16::MAX && i16::MIN <= e.1 <= i16::MAX
            }),
            r is Some ==> r->Some_0.position == position && r->Some_0.terminus() == reach(
                position,
                direction,
                distance,
            ),
    {
        proof {
            lemma_mul_abs_bound(direction.0 as int, distance as int, 32768, 65535);
            lemma_mul_abs_bound(direction.1 as int, distance as int, 32768, 65535);
        }
        let ex: i64 = position.0 as i64 + direction.0 as i64 * distance as i64;
        let ey: i64 = position.1 as i64 + direction.1 as i64 * distance as i64;
        if ex < i16::MIN as i64 || ex > i16::MAX as i64 || ey < i16::MIN as i64 || ey > i16::MAX as i64 {
            return None;
        }
        Some(Ray { position, end_position: (ex as i16, ey as i16) })
    }
}

impl Barrier {
    /// A barrier between two points.
    pub fn new(start: (i16, i16), end: (i16, i16)) -> (r: Barrier)
        ensures
            r.positions == (start, end),
    {
        Barrier { positions: (start, end) }
    }
}

/// `a.0 * b.1 - a.1 * b.0` for vectors between grid points.
fn cross_exec(a: (i64, i64), b: (i64, i64)) -> (r: i64)
    requires
        -65535 <= a.0 <= 65535,
        -65535 <= a.1 <= 65535,
        -65535 <= b.0 <= 65535,
        -65535 <= b.1 <= 65535,
    ensures
        r == cross((a.0 as int, a.1 as int), (b.0 as int, b.1 as int)),
        -8589672450 <= r <= 8589672450,
{
    proof {
        lemma_mul_abs_bound(a.0 as int, b.1 as int, 65535, 65535);
        lemma_mul_abs_bound(a.1 as int, b.0 as int, 65535, 65535);
    }
    a.0 * b.1 - a.1 * b.0
}

/// Cast a ray against a single [Barrier].
pub fn cast(ray: &Ray, bar: &Barrier) -> (r: Result<RayHit, RayFail>)
    ensures
        r == cast_spec(*ray, *bar),
{
    let x1: i64 = ray.position.0 as i64;
    let y1: i64 = ray.position.1 as i64;
    let x2: i64 = ray.end_position.0 as i64;
    let y2: i64 = ray.end_position.1 as i64;
    let x3: i64 = bar.positions.0.0 as i64;
    let y3: i64 = bar.positions.0.1 as i64;
    let x4: i64 = bar.positions.1.0 as i64;
    let y4: i64 = bar.positions.1.1 as i64;

    if x1 == x2 && y1 == y2 && (x3 != x4 || y3 != y4) {
        let w = (x1 - x3, y1 - y3);
        let e = (x4 - x3, y4 - y3);
        let c: i64 = cross_exec(w, e);
        proof {
            lemma_mul_abs_bound(w.0 as int, e.0 as int, 65535, 65535);
            lemma_mul_abs_bound(w.1 as int, e.1 as int, 65535, 65535);
            lemma_mul_abs_bound(e.0 as int, e.0 as int, 65535, 65535);
            lemma_mul_abs_bound(e.1 as int, e.1 as int, 65535, 65535);
        }
        let d: i64 = w.0 * e.0 + w.1 * e.1;
        let ee: i64 = e.0 * e.0 + e.1 * e.1;
        if c == 0 && 0 <= d && d <= ee {
            return Ok(RayHit { position: (x1, y1), scale: 1, distance_squared: 0 });
        } else {
            return Err(RayFail::NoHit);
        }
    }

    let den: i64 = cross_exec((x1 - x2, y1 - y2), (x3 - x4, y3 - y4));
    if den == 0 {
        return Err(RayFail::Parallel);
    }
    let t_n: i64 = cross_exec((x1 - x3, y1 - y3), (x3 - x4, y3 - y4));
    let u_n: i64 = cross_exec((x1 - x3, y1 - y3), (x1 - x2, y1 - y2));
    let (s, t, u): (i64, i64, i64) = if den > 0 {
        (den, t_n, u_n)
    } else {
        (-den, -t_n, -u_n)
    };

    if 0 <= t && t <= s && 0 <= u && u <= s {
        proof {
            lemma_mul_abs_bound(x1 as int, s as int, 32768, 8589672450);
            lemma_mul_abs_bound(y1 as int, s as int, 32768, 8589672450);
            lemma_mul_abs_bound(t as int, (x2 - x1) as int, 8589672450, 65535);
            lemma_mul_abs_bound(t as int, (y2 - y1) as int, 8589672450, 65535);
        }
        let origin = (x1 * s, y1 * s);
        let wx: i64 = t * (x2 - x1);
        let wy: i64 = t * (y2 - y1);
        let position = (origin.0 + wx, origin.1 + wy);
        proof {
            lemma_mul_abs_bound(wx as int, wx as int, 562932773560350, 562932773560350);
            lemma_mul_abs_bound(wy as int, wy as int, 562932773560350, 562932773560350);
        }
        let distance_squared: i128 = distance_squared(origin, position);
        Ok(RayHit { position, scale: s, distance_squared })
    } else {
        Err(RayFail::NoHit)
    }
}

/// `h` is strictly closer to the ray's origin than `g`: the exact distances
/// `sqrt(h.distance_squared) / h.scale` and `sqrt(g.distance_squared) / g.scale`
/// compared through their squares.
pub open spec fn closer(h: RayHit, g: RayHit) -> bool {
    (h.distance_squared as int) * ((g.scale as int) * (g.scale as int)) < (g.distance_squared as int)
        * ((h.scale as int) * (h.scale as int))
}

/// `bars[k]` holds the hit `h` that `cast_wide` returns: no barrier is hit
/// strictly closer, and every barrier before `k` that is hit is hit strictly
/// farther away.
pub open spec fn nearest_hit(ray: Ray, bars: Seq<Barrier>, k: int, h: RayHit) -> bool {
    &&& 0 <= k < bars.len()
    &&& cast_spec(ray, bars[k]) == Ok::<RayHit, RayFail>(h)
    &&& forall|j: int|
        0 <= j < bars.len() && (#[trigger] cast_spec(ray, bars[j])) is Ok ==> !closer(
            cast_spec(ray, bars[j])->Ok_0,
            h,
        )
    &&& forall|j: int|
        0 <= j < k && (#[trigger] cast_spec(ray, bars[j])) is Ok ==> closer(
            h,
            cast_spec(ray, bars[j])->Ok_0,
        )
}

/// Squared length of the ray.
pub open spec fn ray_len_sq(ray: Ray) -> int {
    dot(diff(ray.terminus(), ray.origin()), diff(ray.terminus(), ray.origin()))
}

/// Numerator of a hit's position along the ray, over `hit_den`.
pub open spec fn hit_num(ray: Ray, bar: Barrier) -> int {
    if ray.is_point() { 0 } else { param_t(ray, bar) }
}

/// Denominator of a hit's position along the ray.
pub open spec fn hit_den(ray: Ray, bar: Barrier) -> int {
    if ray.is_point() { 1 } else { param_den(ray, bar) }
}

proof fn lemma_cross_bound(a: (int, int), b: (int, int))
    requires
        -65535 <= a.0 <= 65535,
        -65535 <= a.1 <= 65535,
        -65535 <= b.0 <= 65535,
        -65535 <= b.1 <= 65535,
    ensures
        -8589672450 <= cross(a, b) <= 8589672450,
{
    lemma_mul_abs_bound(a.0, b.1, 65535, 65535);
    lemma_mul_abs_bound(a.1, b.0, 65535, 65535);
}

/// What a hit records, as integers: its scale is `hit_den`, and its squared
/// distance is `hit_num^2 * |ray|^2`.
pub(crate) proof fn lemma_hit_fields(ray: Ray, bar: Barrier)
    requires
        cast_spec(ray, bar) is Ok,
    ensures
        ({
            let h = cast_spec(ray, bar)->Ok_0;
            &&& h.scale as int == hit_den(ray, bar)
            &&& h.distance_squared as int == hit_num(ray, bar) * hit_num(ray, bar) * ray_len_sq(ray)
        }),
        0 < hit_den(ray, bar) <= 8589672450,
        0 <= hit_num(ray, bar) <= hit_den(ray, bar),
        0 <= ray_len_sq(ray),
        ray.is_point() <==> ray_len_sq(ray) == 0,
{
    let p1 = ray.origin();
    let p2 = ray.terminus();
    let d = diff(p2, p1);
    assert(0 <= d.0 * d.0) by (nonlinear_arith);
    assert(0 <= d.1 * d.1) by (nonlinear_arith);
    assert(d.0 != 0 ==> 0 < d.0 * d.0) by (nonlinear_arith);
    assert(d.1 != 0 ==> 0 < d.1 * d.1) by (nonlinear_arith);
    if !ray.is_point() {
        lemma_cross_bound(diff(p1, p2), diff(bar.start(), bar.end()));
        let s = param_den(ray, bar);
        let t = param_t(ray, bar);
        let w = (t * d.0, t * d.1);
        let p = (p1.0 * s + w.0, p1.1 * s + w.1);
        lemma_mul_abs_bound(t, d.0, 8589672450, 65535);
        lemma_mul_abs_bound(t, d.1, 8589672450, 65535);
        lemma_mul_abs_bound(w.0, w.0, 562932773560350, 562932773560350);
        lemma_mul_abs_bound(w.1, w.1, 562932773560350, 562932773560350);
        assert(dist_sq((p1.0 * s, p1.1 * s), p) == w.0 * w.0 + w.1 * w.1);
        assert(w.0 * w.0 + w.1 * w.1 == t * t * (d.0 * d.0 + d.1 * d.1)) by (nonlinear_arith)
            requires
                w == (t * d.0, t * d.1),
        ;
    }
}

/// Where a hit on a ray with length lies, as integers.
pub(crate) proof fn lemma_hit_position(ray: Ray, bar: Barrier)
    requires
        cast_spec(ray, bar) is Ok,
        !ray.is_point() || bar.is_degenerate(),
    ensures
        ({
            let h = cast_spec(ray, bar)->Ok_0;
            let p1 = ray.origin();
            let p2 = ray.terminus();
            let s = param_den(ray, bar);
            let t = param_t(ray, bar);
            h.scaled_position() == (p1.0 * s + t * (p2.0 - p1.0), p1.1 * s + t * (p2.1 - p1.1))
        }),
{
    let p1 = ray.origin();
    let p2 = ray.terminus();
    lemma_cross_bound(diff(p1, p2), diff(bar.start(), bar.end()));
    let s = param_den(ray, bar);
    let t = param_t(ray, bar);
    lemma_mul_abs_bound(p1.0, s, 32768, 8589672450);
    lemma_mul_abs_bound(p1.1, s, 32768, 8589672450);
    lemma_mul_abs_bound(t, p2.0 - p1.0, 8589672450, 65535);
    lemma_mul_abs_bound(t, p2.1 - p1.1, 8589672450, 65535);
}

/// For hits on one ray, `closer` is the order of their positions along it.
proof fn lemma_closer_by_param(ray: Ray, a: Barrier, b: Barrier)
    requires
        cast_spec(ray, a) is Ok,
        cast_spec(ray, b) is Ok,
    ensures
        closer(cast_spec(ray, a)->Ok_0, cast_spec(ray, b)->Ok_0) <==> hit_num(ray, a) * hit_den(
            ray,
            b,
        ) < hit_num(ray, b) * hit_den(ray, a),
{
    lemma_hit_fields(ray, a);
    lemma_hit_fields(ray, b);
    let ta = hit_num(ray, a);
    let sa = hit_den(ray, a);
    let tb = hit_num(ray, b);
    let sb = hit_den(ray, b);
    let l = ray_len_sq(ray);
    if l == 0 {
        assert(ta == 0 && tb == 0);
        assert(ta * sb == 0 && tb * sa == 0) by (nonlinear_arith)
            requires
                ta == 0,
                tb == 0,
        ;
        assert(ta * ta * l == 0 && tb * tb * l == 0) by (nonlinear_arith)
            requires
                l == 0,
        ;
        assert((ta * ta * l) * (sb * sb) == 0 && (tb * tb * l) * (sa * sa) == 0) by (nonlinear_arith)
            requires
                ta * ta * l == 0,
                tb * tb * l == 0,
        ;
    } else {
        let x = ta * sb;
        let y = tb * sa;
        assert(0 <= x && 0 <= y) by (nonlinear_arith)
            requires
                0 <= ta,
                0 <= tb,
                0 < sa,
                0 < sb,
                x == ta * sb,
                y == tb * sa,
        ;
        assert((ta * ta * l) * (sb * sb) == x * x * l && (tb * tb * l) * (sa * sa) == y * y * l)
            by (nonlinear_arith)
            requires
                x == ta * sb,
                y == tb * sa,
        ;
        assert(x * x * l < y * y * l <==> x < y) by (nonlinear_arith)
            requires
                0 <= x,
                0 <= y,
                0 < l,
        ;
    }
}

/// The hit's position along the ray, as a numerator over `hit_den`.
fn hit_param(ray: &Ray, bar: &Barrier) -> (t: i64)
    ensures
        t == hit_num(*ray, *bar),
{
    if ray.position.0 == ray.end_position.0 && ray.position.1 == ray.end_position.1 {
        return 0;
    }
    let x1: i64 = ray.position.0 as i64;
    let y1: i64 = ray.position.1 as i64;
    let x2: i64 = ray.end_position.0 as i64;
    let y2: i64 = ray.end_position.1 as i64;
    let x3: i64 = bar.positions.0.0 as i64;
    let y3: i64 = bar.positions.0.1 as i64;
    let x4: i64 = bar.positions.1.0 as i64;
    let y4: i64 = bar.positions.1.1 as i64;
    let den: i64 = cross_exec((x1 - x2, y1 - y2), (x3 - x4, y3 - y4));
    let t_n: i64 = cross_exec((x1 - x3, y1 - y3), (x3 - x4, y3 - y4));
    if den >= 0 {
        t_n
    } else {
        -t_n
    }
}

/// Cast a ray against several [Barrier]s, and return the hit nearest to the
/// ray's origin; among equally near hits, the one on the earliest barrier.
///
/// Every barrier is tested; a `Parallel` barrier counts as missed. `bars` must
/// not be empty.
pub fn cast_wide(ray: &Ray, bars: &[Barrier]) -> (r: Result<RayHit, RayFail>)
    requires
        bars@.len() > 0,
    ensures
        r is Err <==> forall|j: int| 0 <= j < bars@.len() ==> (#[trigger] cast_spec(*ray, bars@[j])) is Err,
        r is Err ==> r == Err::<RayHit, RayFail>(RayFail::NoHit),
        r is Ok ==> exists|k: int| nearest_hit(*ray, bars@, k, r->Ok_0),
{
    let mut best: Option<(RayHit, usize, i64)> = None;
    let mut i: usize = 0;
    while i < bars.len()
        invariant
            i <= bars@.len(),
            best is None ==> forall|j: int| 0 <= j < i ==> (#[trigger] cast_spec(*ray, bars@[j])) is Err,
            best is Some ==> ({
                let (h, k, t) = best->Some_0;
                &&& k < i
                &&& cast_spec(*ray, bars@[k as int]) == Ok::<RayHit, RayFail>(h)
                &&& t == hit_num(*ray, bars@[k as int])
                &&& h.scale == hit_den(*ray, bars@[k as int])
                &&& forall|j: int|
                    0 <= j < i && (#[trigger] cast_spec(*ray, bars@[j])) is Ok ==> !closer(
                        cast_spec(*ray, bars@[j])->Ok_0,
                        h,
                    )
                &&& forall|j: int|
                    0 <= j < k && (#[trigger] cast_spec(*ray, bars@[j])) is Ok ==> closer(
                        h,
                        cast_spec(*ray, bars@[j])->Ok_0,
                    )
            }),
        decreases bars@.len() - i,
    {
        let bar = &bars[i];
        match cast(ray, bar) {
            Ok(h) => {
                let t: i64 = hit_param(ray, bar);
                proof {
                    lemma_hit_fields(*ray, *bar);
                }
                match best {
                    None => {
                        best = Some((h, i, t));
                    },
                    Some((g, k, tg)) => {
                        proof {
                            lemma_hit_fields(*ray, bars@[k as int]);
                            lemma_mul_abs_bound(t as int, g.scale as int, 8589672450, 8589672450);
                            lemma_mul_abs_bound(tg as int, h.scale as int, 8589672450, 8589672450);
                            lemma_closer_by_param(*ray, *bar, bars@[k as int]);
                        }
                        if (t as i128) * (g.scale as i128) < (tg as i128) * (h.scale as i128) {
                            proof {
                                let hn = h.distance_squared as int;
                                let hd = (h.scale as int) * (h.scale as int);
                                let gn = g.distance_squared as int;
                                let gd = (g.scale as int) * (g.scale as int);
                                assert(hd > 0 && gd > 0) by (nonlinear_arith)
                                    requires
                                        h.scale > 0,
                                        g.scale > 0,
                                        hd == (h.scale as int) * (h.scale as int),
                                        gd == (g.scale as int) * (g.scale as int),
                                ;
                                assert forall|j: int|
                                    0 <= j < i + 1 && (#[trigger] cast_spec(
                                        *ray,
                                        bars@[j],
                                    )) is Ok implies !closer(cast_spec(*ray, bars@[j])->Ok_0, h)
                                    && (j < i ==> closer(h, cast_spec(*ray, bars@[j])->Ok_0)) by {
                                    let f = cast_spec(*ray, bars@[j])->Ok_0;
                                    lemma_hit_fields(*ray, bars@[j]);
                                    let fn_ = f.distance_squared as int;
                                    let fd = (f.scale as int) * (f.scale as int);
                                    assert(fd > 0) by (nonlinear_arith)
                                        requires
                                            f.scale > 0,
                                            fd == (f.scale as int) * (f.scale as int),
                                    ;
                                    if j < i {
                                        lemma_frac_lt_le_trans(hn, hd, gn, gd, fn_, fd);
                                        if closer(f, h) {
                                            lemma_frac_lt_trans(fn_, fd, hn, hd, gn, gd);
                                        }
                                    }
                                }
                            }
                            best = Some((h, i, t));
                        }
                    },
                }
            },
            Err(_) => {},
        }
        i = i + 1;
    }
    match best {
        Some((h, k, _)) => {
            assert(nearest_hit(*ray, bars@, k as int, h));
            Ok(h)
        },
        None => Err(RayFail::NoHit),
    }
}

} // verus!
