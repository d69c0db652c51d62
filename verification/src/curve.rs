//! Monotone cubic interpolation over sparse control points.
//!
//! A curve is built once from control points whose coordinates are
//! fixed-point thousandths: abscissas lie in `[0, SCALE]` and are
//! strictly increasing; ordinates lie in `[0, CURVE_Y_MAX]`, the
//! headroom admitting exposure-scaled points above 1.0.  Tangents
//! follow the Fritsch-Carlson rule (zero where adjacent slopes
//! disagree in sign, a weighted harmonic mean otherwise), and each
//! segment's cubic is kept as exact integer numerators over one
//! positive denominator, so evaluation at a knot returns the knot's
//! ordinate exactly.

use vstd::prelude::*;

use crate::numeric::SCALE;
use crate::numeric::floor_div_i128;

verus! {

/// Largest ordinate a control point may carry: sixteen units, the
/// headroom for exposure factors up to four stops.
pub const CURVE_Y_MAX: i64 = 16000;

/// Largest magnitude of a tangent numerator: `3 * 2000 * 16000 * 16000`.
const TAN_NUM_ABS: i64 = 3 * 2000 * 16000 * 16000;

/// Largest tangent denominator: `2 * 3000 * 1000 * 16000`.
const TAN_DEN_ABS: i64 = 2 * 3000 * 1000 * 16000;

/// A tangent's value never exceeds three times the ordinate bound.
const TAN_REL: i64 = 3 * 16000;

/// Largest segment denominator: two tangent denominators and a cubed width.
const SEG_DEN_ABS: i128 = 96_000_000_000 * 96_000_000_000 * 1_000_000_000;

/// A segment's value never exceeds this many thousandths in magnitude.
pub const CURVE_VAL_ABS: i64 = 300_000_000;

/// Abscissa of a control point, as a mathematical integer.
pub open spec fn px(pts: Seq<(i64, i64)>, i: int) -> int {
    pts[i].0 as int
}

/// Ordinate of a control point, as a mathematical integer.
pub open spec fn py(pts: Seq<(i64, i64)>, i: int) -> int {
    pts[i].1 as int
}

/// Width of segment `i`.
pub open spec fn seg_h(pts: Seq<(i64, i64)>, i: int) -> int {
    px(pts, i + 1) - px(pts, i)
}

/// Rise of segment `i`.
pub open spec fn seg_dy(pts: Seq<(i64, i64)>, i: int) -> int {
    py(pts, i + 1) - py(pts, i)
}

/// A usable control polygon: at least two points, coordinates in
/// range, abscissas strictly increasing.
pub open spec fn pts_wf(pts: Seq<(i64, i64)>) -> bool {
    &&& pts.len() >= 2
    &&& forall|i: int|
        0 <= i < pts.len() ==> 0 <= (#[trigger] pts[i]).0 <= SCALE && 0 <= pts[i].1 <= CURVE_Y_MAX
    &&& forall|i: int, j: int| 0 <= i < j < pts.len() ==> px(pts, i) < px(pts, j)
}

/// Numerator of the harmonic-mean tangent at an interior point,
/// before sign normalization.
pub open spec fn tan_raw_num(pts: Seq<(i64, i64)>, i: int) -> int {
    3 * (seg_h(pts, i - 1) + seg_h(pts, i)) * seg_dy(pts, i - 1) * seg_dy(pts, i)
}

/// Denominator of the harmonic-mean tangent at an interior point,
/// before sign normalization.
pub open spec fn tan_raw_den(pts: Seq<(i64, i64)>, i: int) -> int {
    let common = seg_h(pts, i - 1) + seg_h(pts, i);
    (common + seg_h(pts, i)) * seg_h(pts, i - 1) * seg_dy(pts, i) + (common + seg_h(
        pts,
        i - 1,
    )) * seg_h(pts, i) * seg_dy(pts, i - 1)
}

/// Numerator of the tangent at point `i`: the one-sided slope at the
/// ends, zero where the adjacent rises disagree in sign, and the
/// weighted harmonic mean otherwise, normalized to a positive
/// denominator.
pub open spec fn tan_num(pts: Seq<(i64, i64)>, i: int) -> int {
    if i == 0 {
        seg_dy(pts, 0)
    } else if i == pts.len() - 1 {
        seg_dy(pts, i - 1)
    } else if seg_dy(pts, i - 1) * seg_dy(pts, i) <= 0 {
        0
    } else if tan_raw_den(pts, i) < 0 {
        -tan_raw_num(pts, i)
    } else {
        tan_raw_num(pts, i)
    }
}

/// Denominator of the tangent at point `i`; always positive.
pub open spec fn tan_den(pts: Seq<(i64, i64)>, i: int) -> int {
    if i == 0 {
        seg_h(pts, 0)
    } else if i == pts.len() - 1 {
        seg_h(pts, i - 1)
    } else if seg_dy(pts, i - 1) * seg_dy(pts, i) <= 0 {
        1
    } else if tan_raw_den(pts, i) < 0 {
        -tan_raw_den(pts, i)
    } else {
        tan_raw_den(pts, i)
    }
}

/// Common denominator of segment `i`'s cubic.
pub open spec fn seg_den(pts: Seq<(i64, i64)>, i: int) -> int {
    tan_den(pts, i) * tan_den(pts, i + 1) * (seg_h(pts, i) * seg_h(pts, i) * seg_h(pts, i))
}

/// Constant numerator of segment `i`'s cubic.
pub open spec fn seg_c0(pts: Seq<(i64, i64)>, i: int) -> int {
    py(pts, i) * seg_den(pts, i)
}

/// Linear numerator of segment `i`'s cubic.
pub open spec fn seg_c1(pts: Seq<(i64, i64)>, i: int) -> int {
    tan_num(pts, i) * tan_den(pts, i + 1) * (seg_h(pts, i) * seg_h(pts, i) * seg_h(pts, i))
}

/// Quadratic numerator of segment `i`'s cubic.
pub open spec fn seg_c2(pts: Seq<(i64, i64)>, i: int) -> int {
    (3 * seg_dy(pts, i) * tan_den(pts, i) * tan_den(pts, i + 1) - 2 * tan_num(pts, i) * seg_h(
        pts,
        i,
    ) * tan_den(pts, i + 1) - tan_num(pts, i + 1) * seg_h(pts, i) * tan_den(pts, i)) * seg_h(pts, i)
}

/// Cubic numerator of segment `i`'s cubic.
pub open spec fn seg_c3(pts: Seq<(i64, i64)>, i: int) -> int {
    tan_num(pts, i) * tan_den(pts, i + 1) * seg_h(pts, i) + tan_num(pts, i + 1) * tan_den(
        pts,
        i,
    ) * seg_h(pts, i) - 2 * seg_dy(pts, i) * tan_den(pts, i) * tan_den(pts, i + 1)
}

/// Value of segment `i`'s cubic at offset `t` from its left knot,
/// rounded toward minus infinity.
pub open spec fn seg_eval(pts: Seq<(i64, i64)>, i: int, t: int) -> int {
    (seg_c0(pts, i) + seg_c1(pts, i) * t + seg_c2(pts, i) * (t * t) + seg_c3(pts, i) * (t * t
        * t)) / seg_den(pts, i)
}

/// The whole curve: flat beyond either end, the containing segment's
/// cubic in between.
pub open spec fn curve_value(pts: Seq<(i64, i64)>, x: int) -> int {
    if x >= px(pts, pts.len() - 1) {
        py(pts, pts.len() - 1)
    } else if x <= px(pts, 0) {
        py(pts, 0)
    } else {
        let i = choose|i: int| 0 <= i < pts.len() - 1 && #[trigger] px(pts, i) <= x < px(
            pts,
            i + 1,
        );
        seg_eval(pts, i, x - px(pts, i))
    }
}

/// The control points actually interpolated: `(0, 0)` is prepended
/// unless the caller's first point already anchors an axis, and
/// `(SCALE, SCALE)` is appended unless the last point already reaches
/// either far edge.
pub open spec fn spec_normalize(p: Seq<(i64, i64)>) -> Seq<(i64, i64)> {
    let front = if p.len() == 0 || (p[0].0 > 0 && p[0].1 > 0) {
        seq![(0i64, 0i64)] + p
    } else {
        p
    };
    if p.len() == 0 || (p[p.len() - 1].0 < SCALE && p[p.len() - 1].1 < SCALE) {
        front.push((SCALE, SCALE))
    } else {
        front
    }
}

/// Control points a caller may hand to [`CurveFunction::new`].
pub open spec fn input_pts_ok(p: Seq<(i64, i64)>) -> bool {
    &&& forall|i: int|
        0 <= i < p.len() ==> 0 <= (#[trigger] p[i]).0 <= SCALE && 0 <= p[i].1 <= CURVE_Y_MAX
    &&& forall|i: int| 0 < i < p.len() ==> p[i - 1].0 < (#[trigger] p[i]).0
    &&& spec_normalize(p).len() >= 2
}

/// Range facts for the harmonic-mean tangent built from two rises of
/// the same sign.
proof fn lemma_harmonic_pos(a: int, b: int, g: int, k: int) by (nonlinear_arith)
    requires
        1 <= a <= 16000,
        1 <= b <= 16000,
        1 <= g <= 1000,
        1 <= k <= 1000,
    ensures
        0 < 3 * (g + k) * a * b <= 3 * 2000 * 16000 * 16000,
        0 < ((g + k) + k) * g * b + ((g + k) + g) * k * a <= 2 * 3000 * 1000 * 16000,
        3 * (g + k) * a * b <= 48000 * (((g + k) + k) * g * b + ((g + k) + g) * k * a),
{
}

/// The tangent at any point has a positive, bounded denominator, a
/// bounded numerator, and a value of magnitude at most `TAN_REL`.
proof fn lemma_tan_props(pts: Seq<(i64, i64)>, i: int)
    requires
        pts_wf(pts),
        0 <= i < pts.len(),
    ensures
        1 <= tan_den(pts, i) <= TAN_DEN_ABS,
        -TAN_NUM_ABS <= tan_num(pts, i) <= TAN_NUM_ABS,
        -TAN_REL * tan_den(pts, i) <= tan_num(pts, i) <= TAN_REL * tan_den(pts, i),
{
    if i == 0 || i == pts.len() - 1 {
        let s = if i == 0 { 0int } else { i - 1 };
        assert(px(pts, s) < px(pts, s + 1));
        assert(1 <= seg_h(pts, s) <= 1000);
        assert(-16000 <= seg_dy(pts, s) <= 16000);
        assert(48000 * 1 <= 48000 * seg_h(pts, s)) by (nonlinear_arith)
            requires
                1 <= seg_h(pts, s),
        ;
    } else {
        let a = seg_dy(pts, i - 1);
        let b = seg_dy(pts, i);
        let g = seg_h(pts, i - 1);
        let k = seg_h(pts, i);
        assert(px(pts, i - 1) < px(pts, i) < px(pts, i + 1));
        assert(1 <= g <= 1000 && 1 <= k <= 1000);
        assert(-16000 <= a <= 16000 && -16000 <= b <= 16000);
        if a * b <= 0 {
        } else {
            assert((a > 0 && b > 0) || (a < 0 && b < 0)) by (nonlinear_arith)
                requires
                    a * b > 0,
            ;
            if a > 0 {
                lemma_harmonic_pos(a, b, g, k);
                assert(tan_raw_num(pts, i) == 3 * (g + k) * a * b);
                assert(tan_raw_den(pts, i) == ((g + k) + k) * g * b + ((g + k) + g) * k * a);
            } else {
                lemma_harmonic_pos(-a, -b, g, k);
                assert(3 * (g + k) * (-a) * (-b) == 3 * (g + k) * a * b) by (nonlinear_arith);
                assert(((g + k) + k) * g * (-b) + ((g + k) + g) * k * (-a) == -(((g + k) + k) * g
                    * b + ((g + k) + g) * k * a)) by (nonlinear_arith);
                assert(tan_raw_num(pts, i) == 3 * (g + k) * a * b);
                assert(tan_raw_den(pts, i) == ((g + k) + k) * g * b + ((g + k) + g) * k * a);
                assert(tan_raw_den(pts, i) < 0);
            }
        }
    }
}

/// Multiplying a bounded factor by a nonnegative bounded factor
/// bounds the product.
proof fn lemma_mul_bound(a: int, amax: int, b: int, bmax: int) by (nonlinear_arith)
    requires
        -amax <= a <= amax,
        0 <= b <= bmax,
    ensures
        -(amax * bmax) <= a * b <= amax * bmax,
{
}

/// The product of two factors that are at least one is at least one,
/// and no larger than the product of their bounds.
proof fn lemma_mul_pos(a: int, amax: int, b: int, bmax: int) by (nonlinear_arith)
    requires
        1 <= a <= amax,
        1 <= b <= bmax,
    ensures
        1 <= a * b <= amax * bmax,
{
}

/// Absolute and denominator-relative bounds on one segment's
/// coefficients, from the tangent bounds.
proof fn lemma_seg_coef_bounds(
    p: int,
    q: int,
    pp: int,
    qq: int,
    h: int,
    dy: int,
    den: int,
    c1: int,
    c2: int,
    c3: int,
)
    requires
        1 <= q <= 96_000_000_000,
        1 <= qq <= 96_000_000_000,
        -48000 * q <= p <= 48000 * q,
        -48000 * qq <= pp <= 48000 * qq,
        -1_536_000_000_000 <= p <= 1_536_000_000_000,
        -1_536_000_000_000 <= pp <= 1_536_000_000_000,
        1 <= h <= 1000,
        -16000 <= dy <= 16000,
        den == q * qq * (h * h * h),
        c1 == p * qq * (h * h * h),
        c2 == (3 * dy * q * qq - 2 * p * h * qq - pp * h * q) * h,
        c3 == p * qq * h + pp * q * h - 2 * dy * q * qq,
    ensures
        1 <= den <= 96_000_000_000 * 96_000_000_000 * 1_000_000_000,
        -(1_536_000_000_000int * 96_000_000_000 * 1_000_000_000) <= c1
            <= 1_536_000_000_000int * 96_000_000_000 * 1_000_000_000,
        -(900_000_000_000_000_000_000_000_000int * 1000) <= c2
            <= 900_000_000_000_000_000_000_000_000int * 1000,
        -600_000_000_000_000_000_000_000_000int <= c3
            <= 600_000_000_000_000_000_000_000_000int,
        -48_000_000 * den <= c1 * h <= 48_000_000 * den,
        -145_000_000 * den <= c2 * (h * h) <= 145_000_000 * den,
        -97_000_000 * den <= c3 * (h * h * h) <= 97_000_000 * den,
{
    let hh = h * h;
    let hhh = h * h * h;
    let s = q * qq;
    assert(1 <= hh <= 1_000_000 && 1 <= hhh <= 1_000_000_000 && hh <= hhh) by (nonlinear_arith)
        requires
            1 <= h <= 1000,
            hh == h * h,
            hhh == h * h * h,
    ;
    lemma_mul_pos(q, 96_000_000_000, qq, 96_000_000_000);
    lemma_mul_pos(s, 96_000_000_000int * 96_000_000_000, hhh, 1_000_000_000);

    // c1, absolute: build up |p * qq * h^3| factor by factor.
    lemma_mul_bound(p, 1_536_000_000_000int, qq, 96_000_000_000);
    lemma_mul_bound(p * qq, 1_536_000_000_000int * 96_000_000_000, hhh, 1_000_000_000);

    // c1, relative: |p| <= 48000 q gives |c1 * h| <= 48_000_000 den.
    lemma_mul_bound(p, 48000 * q, qq, qq);
    assert(48000 * q * qq == 48000 * s) by (nonlinear_arith)
        requires
            s == q * qq,
    ;
    lemma_mul_bound(p * qq, 48000 * s, hhh, hhh);
    lemma_mul_bound(c1, 48000 * s * hhh, h, 1000);
    assert(48000 * s * hhh * 1000 == 48_000_000 * (s * hhh)) by (nonlinear_arith);

    // The quadratic coefficient is `inner * h`.
    let inner = 3 * dy * q * qq - 2 * p * h * qq - pp * h * q;
    assert(3 * dy * q * qq == 3 * dy * s) by (nonlinear_arith)
        requires
            s == q * qq,
    ;
    lemma_mul_bound(3 * dy, 48000, s, 96_000_000_000int * 96_000_000_000);
    lemma_mul_bound(2 * p, 3_072_000_000_000int, h, 1000);
    lemma_mul_bound(2 * p * h, 3_072_000_000_000int * 1000, qq, 96_000_000_000);
    lemma_mul_bound(pp, 1_536_000_000_000int, h, 1000);
    lemma_mul_bound(pp * h, 1_536_000_000_000int * 1000, q, 96_000_000_000);
    assert(-900_000_000_000_000_000_000_000_000int <= inner
        <= 900_000_000_000_000_000_000_000_000int);
    lemma_mul_bound(inner, 900_000_000_000_000_000_000_000_000int, h, 1000);

    // c2, relative: |inner| <= 145_000_000 (q * qq).
    lemma_mul_bound(3 * dy, 48000, s, s);
    lemma_mul_bound(2 * p, 96000 * q, h, 1000);
    lemma_mul_bound(2 * p * h, 96000 * q * 1000, qq, qq);
    assert(96000 * q * 1000 * qq == 96_000_000 * s) by (nonlinear_arith)
        requires
            s == q * qq,
    ;
    lemma_mul_bound(pp, 48000 * qq, h, 1000);
    lemma_mul_bound(pp * h, 48000 * qq * 1000, q, q);
    assert(48000 * qq * 1000 * q == 48_000_000 * s) by (nonlinear_arith)
        requires
            s == q * qq,
    ;
    assert(-(145_000_000 * s) <= inner <= 145_000_000 * s);
    assert(c2 * hh == inner * hhh) by (nonlinear_arith)
        requires
            c2 == inner * h,
            hh == h * h,
            hhh == h * h * h,
    ;
    lemma_mul_bound(inner, 145_000_000 * s, hhh, hhh);
    assert(145_000_000 * s * hhh == 145_000_000 * (s * hhh)) by (nonlinear_arith);

    // c3, absolute: its three addends, factor by factor.
    lemma_mul_bound(p * qq, 1_536_000_000_000int * 96_000_000_000, h, 1000);
    lemma_mul_bound(pp, 1_536_000_000_000int, q, 96_000_000_000);
    lemma_mul_bound(pp * q, 1_536_000_000_000int * 96_000_000_000, h, 1000);
    assert(2 * dy * q * qq == 2 * dy * s) by (nonlinear_arith)
        requires
            s == q * qq,
    ;
    lemma_mul_bound(2 * dy, 32000, s, 96_000_000_000int * 96_000_000_000);
    assert(-600_000_000_000_000_000_000_000_000int <= c3
        <= 600_000_000_000_000_000_000_000_000int);

    // c3, relative: |c3| <= 97_000_000 (q * qq).
    lemma_mul_bound(p * qq, 48000 * s, h, 1000);
    assert(48000 * s * 1000 == 48_000_000 * s) by (nonlinear_arith);
    lemma_mul_bound(pp, 48000 * qq, q, q);
    assert(48000 * qq * q == 48000 * s) by (nonlinear_arith)
        requires
            s == q * qq,
    ;
    lemma_mul_bound(pp * q, 48000 * s, h, 1000);
    lemma_mul_bound(2 * dy, 32000, s, s);
    assert(-(97_000_000 * s) <= c3 <= 97_000_000 * s);
    lemma_mul_bound(c3, 97_000_000 * s, hhh, hhh);
    assert(97_000_000 * s * hhh == 97_000_000 * (s * hhh)) by (nonlinear_arith);
}

/// The cubic of segment `i` passes exactly through both of its knots.
proof fn lemma_anchor_identity(
    p: int,
    q: int,
    pp: int,
    qq: int,
    h: int,
    dy: int,
    y: int,
    den: int,
    c0: int,
    c1: int,
    c2: int,
    c3: int,
)
    requires
        den == q * qq * (h * h * h),
        c0 == y * den,
        c1 == p * qq * (h * h * h),
        c2 == (3 * dy * q * qq - 2 * p * h * qq - pp * h * q) * h,
        c3 == p * qq * h + pp * q * h - 2 * dy * q * qq,
    ensures
        c0 + c1 * h + c2 * (h * h) + c3 * (h * h * h) == (y + dy) * den,
{
    let hhh = h * h * h;
    let inner = 3 * dy * q * qq - 2 * p * h * qq - pp * h * q;
    let atom_p = p * qq * hhh * h;
    let atom_pp = pp * q * hhh * h;
    let atom_dy = dy * q * qq * hhh;
    assert(c1 * h == atom_p) by (nonlinear_arith)
        requires
            c1 == p * qq * hhh,
            atom_p == p * qq * hhh * h,
    ;
    assert(3 * dy * q * qq * hhh == 3 * atom_dy) by (nonlinear_arith)
        requires
            atom_dy == dy * q * qq * hhh,
    ;
    assert(2 * p * h * qq * hhh == 2 * atom_p) by (nonlinear_arith)
        requires
            atom_p == p * qq * hhh * h,
    ;
    assert(pp * h * q * hhh == atom_pp) by (nonlinear_arith)
        requires
            atom_pp == pp * q * hhh * h,
    ;
    assert(inner * hhh == 3 * dy * q * qq * hhh - 2 * p * h * qq * hhh - pp * h * q * hhh)
        by (nonlinear_arith)
        requires
            inner == 3 * dy * q * qq - 2 * p * h * qq - pp * h * q,
    ;
    assert(c2 * (h * h) == inner * hhh) by (nonlinear_arith)
        requires
            c2 == inner * h,
            hhh == h * h * h,
    ;
    assert(p * qq * h * hhh == atom_p) by (nonlinear_arith)
        requires
            atom_p == p * qq * hhh * h,
    ;
    assert(pp * q * h * hhh == atom_pp) by (nonlinear_arith)
        requires
            atom_pp == pp * q * hhh * h,
    ;
    assert(2 * dy * q * qq * hhh == 2 * atom_dy) by (nonlinear_arith)
        requires
            atom_dy == dy * q * qq * hhh,
    ;
    assert(c3 * hhh == p * qq * h * hhh + pp * q * h * hhh - 2 * dy * q * qq * hhh)
        by (nonlinear_arith)
        requires
            c3 == p * qq * h + pp * q * h - 2 * dy * q * qq,
    ;
    assert(c1 * h + c2 * (h * h) + c3 * (h * h * h) == atom_dy);
    assert(c0 + atom_dy == (y + dy) * den) by (nonlinear_arith)
        requires
            den == q * qq * hhh,
            c0 == y * den,
            atom_dy == dy * q * qq * hhh,
    ;
}

/// Strictly increasing abscissas: from each to the next, hence from
/// any to any later one.
proof fn lemma_px_increases(pts: Seq<(i64, i64)>, i: int, j: int)
    requires
        forall|k: int| 0 < k < pts.len() ==> px(pts, k - 1) < #[trigger] px(pts, k),
        0 <= i < j < pts.len(),
    ensures
        px(pts, i) < px(pts, j),
    decreases j - i,
{
    if i + 1 < j {
        lemma_px_increases(pts, i, j - 1);
    }
}

/// At most one segment contains a given abscissa.
proof fn lemma_seg_unique(pts: Seq<(i64, i64)>, x: int, i: int, j: int)
    requires
        pts_wf(pts),
        0 <= i < pts.len() - 1,
        0 <= j < pts.len() - 1,
        px(pts, i) <= x < px(pts, i + 1),
        px(pts, j) <= x < px(pts, j + 1),
    ensures
        i == j,
{
    if i < j {
        assert(px(pts, i + 1) <= px(pts, j));
    }
    if j < i {
        assert(px(pts, j + 1) <= px(pts, i));
    }
}

/// Exact cubic coefficients of one segment, over a shared positive
/// denominator.
struct SegCoef {
    den: i128,
    c0: i128,
    c1: i128,
    c2: i128,
    c3: i128,
}

/// A monotone cubic interpolant with precomputed per-segment
/// coefficients, immutable after construction.
pub struct CurveFunction {
    points: Vec<(i64, i64)>,
    tnums: Vec<i64>,
    tdens: Vec<i64>,
    segs: Vec<SegCoef>,
}

/// Builds the normalized control polygon: the caller's points with
/// the synthesized anchors of [`spec_normalize`].
fn build_normalized(p: &[(i64, i64)]) -> (r: Vec<(i64, i64)>)
    requires
        input_pts_ok(p@),
    ensures
        r@ == spec_normalize(p@),
        pts_wf(r@),
{
    let n = p.len();
    let mut pts: Vec<(i64, i64)> = Vec::new();
    let prepend = n == 0 || (p[0].0 > 0 && p[0].1 > 0);
    let ghost off: int = if prepend { 1 } else { 0 };
    if prepend {
        pts.push((0i64, 0i64));
    }
    let mut i: usize = 0;
    while i < n
        invariant
            0 <= i <= n,
            n == p@.len(),
            input_pts_ok(p@),
            off == if prepend { 1int } else { 0int },
            pts@.len() == i + off,
            prepend ==> pts@[0] == (0i64, 0i64),
            forall|k: int| 0 <= k < i ==> pts@[k + off] == p@[k],
        decreases n - i,
    {
        pts.push(p[i]);
        i += 1;
    }
    proof {
        if prepend {
            assert(pts@ =~= seq![(0i64, 0i64)] + p@);
        } else {
            assert(pts@ =~= p@);
        }
    }
    let append = n == 0 || (p[n - 1].0 < SCALE && p[n - 1].1 < SCALE);
    if append {
        pts.push((SCALE, SCALE));
    }
    proof {
        assert(pts@ =~= spec_normalize(p@));
        let m = pts@.len();
        assert(m >= 2);
        assert forall|k: int| 0 < k < m implies px(pts@, k - 1) < #[trigger] px(pts@, k) by {
            if k - 1 >= off && k < m - if append {
                1int
            } else {
                0int
            } {
                assert(pts@[k - 1] == p@[k - 1 - off] && pts@[k] == p@[k - off]);
            }
        }
        assert forall|a: int, b: int| 0 <= a < b < m implies px(pts@, a) < px(pts@, b) by {
            lemma_px_increases(pts@, a, b);
        }
    }
    pts
}

/// Computes every tangent of the normalized polygon.
fn build_tangents(pts: &Vec<(i64, i64)>) -> (r: (Vec<i64>, Vec<i64>))
    requires
        pts_wf(pts@),
    ensures
        r.0@.len() == pts@.len(),
        r.1@.len() == pts@.len(),
        forall|i: int|
            0 <= i < pts@.len() ==> (#[trigger] r.0@[i]) as int == tan_num(pts@, i)
                && r.1@[i] as int == tan_den(pts@, i),
{
    let n = pts.len();
    let mut tnums: Vec<i64> = Vec::new();
    let mut tdens: Vec<i64> = Vec::new();
    let mut i: usize = 0;
    while i < n
        invariant
            0 <= i <= n,
            n == pts@.len(),
            pts_wf(pts@),
            tnums@.len() == i,
            tdens@.len() == i,
            forall|k: int|
                0 <= k < i ==> (#[trigger] tnums@[k]) as int == tan_num(pts@, k)
                    && tdens@[k] as int == tan_den(pts@, k),
        decreases n - i,
    {
        let tn: i64;
        let td: i64;
        if i == 0 {
            tn = pts[1].1 - pts[0].1;
            td = pts[1].0 - pts[0].0;
        } else if i == n - 1 {
            tn = pts[i].1 - pts[i - 1].1;
            td = pts[i].0 - pts[i - 1].0;
        } else {
            let a = pts[i].1 - pts[i - 1].1;
            let b = pts[i + 1].1 - pts[i].1;
            proof {
                assert(-(16000int * 16000) <= a * b <= 16000int * 16000) by (nonlinear_arith)
                    requires
                        -16000 <= a <= 16000,
                        -16000 <= b <= 16000,
                ;
            }
            if a * b <= 0 {
                tn = 0;
                td = 1;
            } else {
                let g = pts[i].0 - pts[i - 1].0;
                let k = pts[i + 1].0 - pts[i].0;
                proof {
                    assert(px(pts@, i as int - 1) < px(pts@, i as int));
                    assert(px(pts@, i as int) < px(pts@, i as int + 1));
                    assert(1 <= g <= 1000 && 1 <= k <= 1000);
                    assert({
                        &&& -(96_000_000int) <= 3 * (g + k) * a <= 96_000_000int
                        &&& -(1_536_000_000_000int) <= 3 * (g + k) * a * b <= 1_536_000_000_000int
                    }) by (nonlinear_arith)
                        requires
                            1 <= g <= 1000,
                            1 <= k <= 1000,
                            -16000 <= a <= 16000,
                            -16000 <= b <= 16000,
                    ;
                    assert({
                        &&& -(3_000_000int) <= ((g + k) + k) * g <= 3_000_000int
                        &&& -(48_000_000_000int) <= ((g + k) + k) * g * b <= 48_000_000_000int
                        &&& -(3_000_000int) <= ((g + k) + g) * k <= 3_000_000int
                        &&& -(48_000_000_000int) <= ((g + k) + g) * k * a <= 48_000_000_000int
                    }) by (nonlinear_arith)
                        requires
                            1 <= g <= 1000,
                            1 <= k <= 1000,
                            -16000 <= a <= 16000,
                            -16000 <= b <= 16000,
                    ;
                }
                let rn = 3 * (g + k) * a * b;
                let rd = ((g + k) + k) * g * b + ((g + k) + g) * k * a;
                if rd < 0 {
                    tn = -rn;
                    td = -rd;
                } else {
                    tn = rn;
                    td = rd;
                }
            }
        }
        tnums.push(tn);
        tdens.push(td);
        i += 1;
    }
    (tnums, tdens)
}

impl CurveFunction {
    /// The normalized control points the curve interpolates.
    pub closed spec fn pts(&self) -> Seq<(i64, i64)> {
        self.points@
    }

    /// Every stored tangent and coefficient equals its defining
    /// formula over the stored control points.
    pub closed spec fn wf(&self) -> bool {
        let pts = self.points@;
        &&& pts_wf(pts)
        &&& self.tnums@.len() == pts.len()
        &&& self.tdens@.len() == pts.len()
        &&& self.segs@.len() == pts.len() - 1
        &&& forall|i: int|
            0 <= i < pts.len() ==> (#[trigger] self.tnums@[i]) as int == tan_num(pts, i)
                && self.tdens@[i] as int == tan_den(pts, i)
        &&& forall|i: int|
            0 <= i < pts.len() - 1 ==> {
                let s = #[trigger] self.segs@[i];
                &&& s.den as int == seg_den(pts, i)
                &&& s.c0 as int == seg_c0(pts, i)
                &&& s.c1 as int == seg_c1(pts, i)
                &&& s.c2 as int == seg_c2(pts, i)
                &&& s.c3 as int == seg_c3(pts, i)
            }
    }

    /// Builds the interpolant: normalizes the control points, derives
    /// the tangents, and precomputes every segment's cubic.
    pub fn new(p: &[(i64, i64)]) -> (r: CurveFunction)
        requires
            input_pts_ok(p@),
        ensures
            r.wf(),
            r.pts() == spec_normalize(p@),
    {
        let pts = build_normalized(p);
        let (tnums, tdens) = build_tangents(&pts);
        let n = pts.len();
        let mut segs: Vec<SegCoef> = Vec::new();
        let mut i: usize = 0;
        while i < n - 1
            invariant
                0 <= i <= n - 1,
                n == pts@.len(),
                pts_wf(pts@),
                tnums@.len() == n,
                tdens@.len() == n,
                forall|k: int|
                    0 <= k < n ==> (#[trigger] tnums@[k]) as int == tan_num(pts@, k)
                        && tdens@[k] as int == tan_den(pts@, k),
                segs@.len() == i,
                forall|k: int|
                    0 <= k < i ==> {
                        let s = #[trigger] segs@[k];
                        &&& s.den as int == seg_den(pts@, k)
                        &&& s.c0 as int == seg_c0(pts@, k)
                        &&& s.c1 as int == seg_c1(pts@, k)
                        &&& s.c2 as int == seg_c2(pts@, k)
                        &&& s.c3 as int == seg_c3(pts@, k)
                    },
            decreases n - 1 - i,
        {
            let h = pts[i + 1].0 - pts[i].0;
            let dy = pts[i + 1].1 - pts[i].1;
            let y = pts[i].1;
            let q1 = tdens[i] as i128;
            let p1 = tnums[i] as i128;
            let q2 = tdens[i + 1] as i128;
            let p2 = tnums[i + 1] as i128;
            let hq = h as i128;
            let dyq = dy as i128;
            let yq = y as i128;
            proof {
                lemma_tan_props(pts@, i as int);
                lemma_tan_props(pts@, i as int + 1);
                assert(px(pts@, i as int) < px(pts@, i as int + 1));
                assert(1 <= hq * hq <= 1_000_000 && 1 <= hq * hq * hq <= 1_000_000_000)
                    by (nonlinear_arith)
                    requires
                        1 <= hq <= 1000,
                ;
                lemma_mul_pos(q1 as int, 96_000_000_000, q2 as int, 96_000_000_000);
                lemma_mul_pos(
                    q1 as int * q2 as int,
                    96_000_000_000int * 96_000_000_000,
                    hq as int * hq as int * hq as int,
                    1_000_000_000,
                );
                lemma_mul_bound(
                    yq as int,
                    16000,
                    q1 as int * q2 as int * (hq as int * hq as int * hq as int),
                    96_000_000_000int * 96_000_000_000 * 1_000_000_000,
                );
                lemma_mul_bound(p1 as int, 1_536_000_000_000int, q2 as int, 96_000_000_000);
                lemma_mul_bound(
                    p1 as int * q2 as int,
                    1_536_000_000_000int * 96_000_000_000,
                    hq as int * hq as int * hq as int,
                    1_000_000_000,
                );
                lemma_mul_bound(3 * dyq as int, 48000, q1 as int, 96_000_000_000);
                lemma_mul_bound(
                    3 * dyq as int * q1 as int,
                    48000int * 96_000_000_000,
                    q2 as int,
                    96_000_000_000,
                );
                lemma_mul_bound(2 * p1 as int, 3_072_000_000_000int, hq as int, 1000);
                lemma_mul_bound(
                    2 * p1 as int * hq as int,
                    3_072_000_000_000int * 1000,
                    q2 as int,
                    96_000_000_000,
                );
                lemma_mul_bound(p2 as int, 1_536_000_000_000int, hq as int, 1000);
                lemma_mul_bound(
                    p2 as int * hq as int,
                    1_536_000_000_000int * 1000,
                    q1 as int,
                    96_000_000_000,
                );
                lemma_mul_bound(
                    3 * dyq as int * q1 as int * q2 as int - 2 * p1 as int * hq as int * q2 as int
                        - p2 as int * hq as int * q1 as int,
                    900_000_000_000_000_000_000_000_000int,
                    hq as int,
                    1000,
                );
                lemma_mul_bound(
                    p1 as int * q2 as int,
                    1_536_000_000_000int * 96_000_000_000,
                    hq as int,
                    1000,
                );
                lemma_mul_bound(p2 as int, 1_536_000_000_000int, q1 as int, 96_000_000_000);
                lemma_mul_bound(
                    p2 as int * q1 as int,
                    1_536_000_000_000int * 96_000_000_000,
                    hq as int,
                    1000,
                );
                lemma_mul_bound(2 * dyq as int, 32000, q1 as int, 96_000_000_000);
                lemma_mul_bound(
                    2 * dyq as int * q1 as int,
                    32000int * 96_000_000_000,
                    q2 as int,
                    96_000_000_000,
                );
            }
            let hhh = hq * hq * hq;
            let den = q1 * q2 * hhh;
            let c0 = yq * den;
            let c1 = p1 * q2 * hhh;
            let t1 = 3 * dyq * q1 * q2;
            let t2 = 2 * p1 * hq * q2;
            let t3 = p2 * hq * q1;
            let c2 = (t1 - t2 - t3) * hq;
            let c3 = p1 * q2 * hq + p2 * q1 * hq - 2 * dyq * q1 * q2;
            proof {
                assert(den as int == seg_den(pts@, i as int));
                assert(c0 as int == seg_c0(pts@, i as int));
                assert(c1 as int == seg_c1(pts@, i as int));
                assert(c2 as int == seg_c2(pts@, i as int));
                assert(c3 as int == seg_c3(pts@, i as int));
            }
            segs.push(SegCoef { den, c0, c1, c2, c3 });
            i += 1;
        }
        CurveFunction { points: pts, tnums, tdens, segs }
    }

    /// Evaluates the curve at `x`: exactly the first ordinate at or
    /// below the first knot, exactly the last ordinate at or beyond
    /// the last knot, and the containing segment's cubic in between.
    pub fn interpolate(&self, x: i64) -> (r: i64)
        requires
            self.wf(),
        ensures
            r as int == curve_value(self.pts(), x as int),
            -CURVE_VAL_ABS <= r <= CURVE_VAL_ABS,
    {
        let pts = &self.points;
        let n = pts.len();
        if x >= pts[n - 1].0 {
            return pts[n - 1].1;
        }
        if x <= pts[0].0 {
            proof {
                assert(px(pts@, 0) < px(pts@, n - 1));
            }
            return pts[0].1;
        }
        let mut lo: usize = 0;
        let mut hi: usize = n - 1;
        while hi - lo > 1
            invariant
                pts_wf(pts@),
                n == pts@.len(),
                0 <= lo < hi <= n - 1,
                px(pts@, lo as int) <= x as int,
                (x as int) < px(pts@, hi as int),
            decreases hi - lo,
        {
            let mid = lo + (hi - lo) / 2;
            if pts[mid].0 <= x {
                lo = mid;
            } else {
                hi = mid;
            }
        }
        let i = lo;
        let ghost gi = i as int;
        let t = x - pts[i].0;
        let s = &self.segs[i];
        proof {
            lemma_tan_props(pts@, gi);
            lemma_tan_props(pts@, gi + 1);
            assert(px(pts@, gi) < px(pts@, gi + 1));
            lemma_seg_coef_bounds(
                tan_num(pts@, gi),
                tan_den(pts@, gi),
                tan_num(pts@, gi + 1),
                tan_den(pts@, gi + 1),
                seg_h(pts@, gi),
                seg_dy(pts@, gi),
                s.den as int,
                s.c1 as int,
                s.c2 as int,
                s.c3 as int,
            );
            assert(0 <= (t as int) && (t as int) <= 1000);
            assert(0 <= (t as int) * (t as int) <= 1_000_000 && 0 <= (t as int) * (t as int) * (
            t as int) <= 1_000_000_000 && (t as int) * (t as int) * (t as int) <= seg_h(pts@, gi)
                * seg_h(pts@, gi) * seg_h(pts@, gi) && (t as int) * (t as int) <= seg_h(pts@, gi)
                * seg_h(pts@, gi)) by (nonlinear_arith)
                requires
                    0 <= (t as int) && (t as int) < seg_h(pts@, gi),
                    seg_h(pts@, gi) <= 1000,
            ;
            lemma_mul_bound(
                s.c1 as int,
                1_536_000_000_000int * 96_000_000_000 * 1_000_000_000,
                t as int,
                1000,
            );
            lemma_mul_bound(
                s.c2 as int,
                900_000_000_000_000_000_000_000_000int * 1000,
                (t as int) * (t as int),
                1_000_000,
            );
            lemma_mul_bound(
                s.c3 as int,
                600_000_000_000_000_000_000_000_000int,
                (t as int) * (t as int) * (t as int),
                1_000_000_000,
            );
            lemma_mul_bound(py(pts@, gi), 16000, s.den as int, s.den as int);
            assert({
                &&& -48_000_000 * (s.den as int) <= (s.c1 as int) * (t as int) <= 48_000_000 * (
                s.den as int)
                &&& -145_000_000 * (s.den as int) <= (s.c2 as int) * ((t as int) * (t as int))
                    <= 145_000_000 * (s.den as int)
                &&& -97_000_000 * (s.den as int) <= (s.c3 as int) * ((t as int) * (t as int) * (
                t as int)) <= 97_000_000 * (s.den as int)
            }) by (nonlinear_arith)
                requires
                    0 <= (t as int) && (t as int) <= seg_h(pts@, gi),
                    -48_000_000 * (s.den as int) <= (s.c1 as int) * seg_h(pts@, gi) <= 48_000_000
                        * (s.den as int),
                    -145_000_000 * (s.den as int) <= (s.c2 as int) * (seg_h(pts@, gi) * seg_h(
                        pts@,
                        gi,
                    )) <= 145_000_000 * (s.den as int),
                    -97_000_000 * (s.den as int) <= (s.c3 as int) * (seg_h(pts@, gi) * seg_h(
                        pts@,
                        gi,
                    ) * seg_h(pts@, gi)) <= 97_000_000 * (s.den as int),
            ;
        }
        let tq = t as i128;
        let num = s.c0 + s.c1 * tq + s.c2 * (tq * tq) + s.c3 * (tq * tq * tq);
        let r128 = floor_div_i128(num, s.den);
        proof {
            let d = s.den as int;
            assert(num as int <= 290_016_000 * d && -290_016_000 * d <= num as int);
            vstd::arithmetic::div_mod::lemma_div_is_ordered(num as int, 290_016_000 * d, d);
            vstd::arithmetic::div_mod::lemma_div_is_ordered(-290_016_000 * d, num as int, d);
            vstd::arithmetic::div_mod::lemma_div_multiples_vanish(290_016_000, d);
            vstd::arithmetic::div_mod::lemma_div_multiples_vanish(-290_016_000, d);
            assert(290_016_000 * d == d * 290_016_000 && -290_016_000 * d == d * (-290_016_000));
            assert(-290_016_000 <= r128 as int <= 290_016_000);
            let ci = choose|ci: int|
                0 <= ci < pts@.len() - 1 && #[trigger] px(pts@, ci) <= x as int && (x as int) < px(pts@, ci + 1);
            assert(px(pts@, gi) <= x as int && (x as int) < px(pts@, gi + 1));
            lemma_seg_unique(pts@, x as int, gi, ci);
            assert(r128 as int == seg_eval(pts@, gi, x as int - px(pts@, gi)));
        }
        r128 as i64
    }
}

/// The denominator of every segment's cubic is positive and bounded.
proof fn lemma_seg_den_pos(pts: Seq<(i64, i64)>, i: int)
    requires
        pts_wf(pts),
        0 <= i < pts.len() - 1,
    ensures
        1 <= seg_den(pts, i) <= 96_000_000_000 * 96_000_000_000 * 1_000_000_000,
{
    lemma_tan_props(pts, i);
    lemma_tan_props(pts, i + 1);
    assert(px(pts, i) < px(pts, i + 1));
    let h = seg_h(pts, i);
    assert(1 <= h * h * h <= 1_000_000_000) by (nonlinear_arith)
        requires
            1 <= h <= 1000,
    ;
    lemma_mul_pos(tan_den(pts, i), 96_000_000_000, tan_den(pts, i + 1), 96_000_000_000);
    lemma_mul_pos(
        tan_den(pts, i) * tan_den(pts, i + 1),
        96_000_000_000int * 96_000_000_000,
        h * h * h,
        1_000_000_000,
    );
}

/// Flat extrapolation: at or below the first control point the curve
/// is exactly that point's ordinate, and at or beyond the last it is
/// exactly the last point's ordinate.
pub proof fn lemma_flat_ends(pts: Seq<(i64, i64)>, x: int)
    requires
        pts_wf(pts),
    ensures
        x >= px(pts, pts.len() - 1) ==> curve_value(pts, x) == py(pts, pts.len() - 1),
        x <= px(pts, 0) ==> curve_value(pts, x) == py(pts, 0),
{
    assert(px(pts, 0) < px(pts, pts.len() - 1));
}

/// The curve passes exactly through every control point: evaluating
/// at a knot's abscissa returns that knot's ordinate, with no
/// interpolation drift.
pub proof fn lemma_knot_exact(pts: Seq<(i64, i64)>, i: int)
    requires
        pts_wf(pts),
        0 <= i < pts.len(),
    ensures
        curve_value(pts, px(pts, i)) == py(pts, i),
{
    let x = px(pts, i);
    if i == pts.len() - 1 {
    } else {
        assert(px(pts, i) < px(pts, pts.len() - 1));
        if i == 0 {
        } else {
            assert(px(pts, 0) < px(pts, i));
            assert(px(pts, i) <= x < px(pts, i + 1));
            let ci = choose|ci: int|
                0 <= ci < pts.len() - 1 && #[trigger] px(pts, ci) <= x < px(pts, ci + 1);
            lemma_seg_unique(pts, x, i, ci);
            lemma_segment_continuity(pts, i);
        }
    }
}

/// Continuity at shared knots: the cubic of segment `i`, evaluated at
/// its left and right knots, returns those knots' ordinates exactly,
/// so adjacent segments agree where they meet.
pub proof fn lemma_segment_continuity(pts: Seq<(i64, i64)>, i: int)
    requires
        pts_wf(pts),
        0 <= i < pts.len() - 1,
    ensures
        seg_eval(pts, i, 0) == py(pts, i),
        seg_eval(pts, i, seg_h(pts, i)) == py(pts, i + 1),
{
    lemma_seg_den_pos(pts, i);
    let den = seg_den(pts, i);
    let h = seg_h(pts, i);
    assert(seg_c0(pts, i) == py(pts, i) * den);
    assert(seg_c1(pts, i) * 0 == 0) by (nonlinear_arith);
    assert(seg_c2(pts, i) * (0 * 0) == 0) by (nonlinear_arith);
    assert(seg_c3(pts, i) * (0 * 0 * 0) == 0) by (nonlinear_arith);
    assert(seg_c0(pts, i) + seg_c1(pts, i) * 0 + seg_c2(pts, i) * (0 * 0) + seg_c3(pts, i) * (0 * 0
        * 0) == py(pts, i) * den);
    vstd::arithmetic::div_mod::lemma_div_multiples_vanish(py(pts, i), den);
    assert(py(pts, i) * den == den * py(pts, i)) by (nonlinear_arith);
    lemma_anchor_identity(
        tan_num(pts, i),
        tan_den(pts, i),
        tan_num(pts, i + 1),
        tan_den(pts, i + 1),
        h,
        seg_dy(pts, i),
        py(pts, i),
        den,
        seg_c0(pts, i),
        seg_c1(pts, i),
        seg_c2(pts, i),
        seg_c3(pts, i),
    );
    vstd::arithmetic::div_mod::lemma_div_multiples_vanish(py(pts, i) + seg_dy(pts, i), den);
    assert((py(pts, i) + seg_dy(pts, i)) * den == den * (py(pts, i) + seg_dy(pts, i))) by (nonlinear_arith);
}

} // verus!
