use vstd::prelude::*;

verus! {

/// The vector from `b` to `a`.
pub open spec fn diff(a: (int, int), b: (int, int)) -> (int, int) {
    (a.0 - b.0, a.1 - b.1)
}

/// The 2D cross product (determinant) of two vectors.
pub open spec fn cross(a: (int, int), b: (int, int)) -> int {
    a.0 * b.1 - a.1 * b.0
}

/// The dot product of two vectors.
pub open spec fn dot(a: (int, int), b: (int, int)) -> int {
    a.0 * b.0 + a.1 * b.1
}

/// `|a * b| <= ba * bb` whenever `|a| <= ba` and `|b| <= bb`.
pub proof fn lemma_mul_abs_bound(a: int, b: int, ba: int, bb: int)
    requires
        -ba <= a <= ba,
        -bb <= b <= bb,
    ensures
        -(ba * bb) <= a * b <= ba * bb,
        0 <= ba * bb,
{
    assert(-(ba * bb) <= a * b <= ba * bb && 0 <= ba * bb) by (nonlinear_arith)
        requires
            -ba <= a <= ba,
            -bb <= b <= bb,
    ;
}

/// Fractions with positive denominators: `a < b` and `b <= c` give `a < c`.
pub proof fn lemma_frac_lt_le_trans(an: int, ad: int, bn: int, bd: int, cn: int, cd: int)
    requires
        ad > 0,
        bd > 0,
        cd > 0,
        an * bd < bn * ad,
        bn * cd <= cn * bd,
    ensures
        an * cd < cn * ad,
{
    assert(an * bd * cd < bn * ad * cd) by (nonlinear_arith)
        requires
            an * bd < bn * ad,
            cd > 0,
    ;
    assert(bn * cd * ad <= cn * bd * ad) by (nonlinear_arith)
        requires
            bn * cd <= cn * bd,
            ad > 0,
    ;
    assert(an * cd * bd < cn * ad * bd) by (nonlinear_arith)
        requires
            an * bd * cd < bn * ad * cd,
            bn * cd * ad <= cn * bd * ad,
    ;
    assert(an * cd < cn * ad) by (nonlinear_arith)
        requires
            an * cd * bd < cn * ad * bd,
            bd > 0,
    ;
}

/// Fractions with positive denominators: `a < b` and `b < c` give `a < c`.
pub proof fn lemma_frac_lt_trans(an: int, ad: int, bn: int, bd: int, cn: int, cd: int)
    requires
        ad > 0,
        bd > 0,
        cd > 0,
        an * bd < bn * ad,
        bn * cd < cn * bd,
    ensures
        an * cd < cn * ad,
{
    lemma_frac_lt_le_trans(an, ad, bn, bd, cn, cd);
}

/// Squared Euclidean distance between two points, in exact integer arithmetic.
pub open spec fn dist_sq(p1: (int, int), p2: (int, int)) -> int {
    (p2.0 - p1.0) * (p2.0 - p1.0) + (p2.1 - p1.1) * (p2.1 - p1.1)
}

/// Squared Euclidean distance between two points.
///
/// The distance itself is in general irrational; its square is exact, and it
/// orders points by distance just as the distance does.
pub fn distance_squared(p1: (i64, i64), p2: (i64, i64)) -> (r: i128)
    requires
        dist_sq((p1.0 as int, p1.1 as int), (p2.0 as int, p2.1 as int)) <= i128::MAX,
    ensures
        r == dist_sq((p1.0 as int, p1.1 as int), (p2.0 as int, p2.1 as int)),
{
    let dx: i128 = p2.0 as i128 - p1.0 as i128;
    let dy: i128 = p2.1 as i128 - p1.1 as i128;
    assert(0 <= dx * dx) by (nonlinear_arith);
    assert(0 <= dy * dy) by (nonlinear_arith);
    assert(dx * dx <= i128::MAX) by (nonlinear_arith)
        requires dx * dx + dy * dy <= i128::MAX, 0 <= dy * dy;
    assert(dy * dy <= i128::MAX) by (nonlinear_arith)
        requires dx * dx + dy * dy <= i128::MAX, 0 <= dx * dx;
    dx * dx + dy * dy
}

} // verus!
