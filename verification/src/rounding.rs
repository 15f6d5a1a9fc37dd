//! What the roundings keep: scaling and turning never lengthen a vector,
//! each falls short of the exact length by less than a step of the grid in
//! each coordinate, a turn is off its angle by no more than rounding, and
//! along the axes of the grid nothing is rounded at all.

use crate::numeric::{
    floor_sqrt, lemma_floor_sqrt, lemma_floor_sqrt_monotone, lemma_floor_sqrt_square,
    lemma_square_monotone, lemma_square_strict,
};
use crate::planar::{
    bend_within_limit, between, displaced, div_toward_zero, is_axis, is_rotation, pulled, reach,
    scaled, share, size, straightened, times, turned, Point, Vector, BEND_COS, BEND_SIN, SPAN, UNIT,
};
use vstd::prelude::*;

verus! {

/// A product is bounded by the product of the bounds on its factors.
pub proof fn lemma_product_bound(a: int, m: int, b: int, k: int)
    requires
        -m <= a <= m,
        -k <= b <= k,
    ensures
        -(m * k) <= a * b <= m * k,
{
    assert(-(m * k) <= a * b <= m * k) by (nonlinear_arith)
        requires
            -m <= a <= m,
            -k <= b <= k,
    ;
}

/// The product of `k` and one of -1, 0 and 1.
pub proof fn lemma_times_unit(e: int, k: int)
    requires
        e == 0 || e == 1 || e == -1,
    ensures
        e == 0 ==> e * k == 0,
        e == 1 ==> e * k == k,
        e == -1 ==> e * k == -k,
{
    assert(0 * k == 0 && 1 * k == k && (-1) * k == -k) by (nonlinear_arith);
}

/// A non-negative `m` whose square does not exceed that of `a` is no larger
/// than `a` in size.
proof fn lemma_root_bound(m: int, a: int)
    requires
        0 <= m,
        m * m <= a * a,
    ensures
        a >= 0 ==> m <= a,
        a <= 0 ==> m <= -a,
{
    if a >= 0 {
        if m > a {
            lemma_square_strict(a, m);
        }
    } else {
        if m > -a {
            lemma_square_strict(-a, m);
            assert((-a) * (-a) == a * a) by (nonlinear_arith);
        }
    }
}

/// The quotient rounded toward zero, times the divisor, is no larger in size
/// than the dividend.
proof fn lemma_div_toward_zero(a: int, d: int)
    requires
        0 < d,
    ensures
        a >= 0 ==> 0 <= div_toward_zero(a, d) * d <= a,
        a <= 0 ==> a <= div_toward_zero(a, d) * d <= 0,
        div_toward_zero(a, d) * div_toward_zero(a, d) * (d * d) <= a * a,
{
    let q = div_toward_zero(a, d);
    if a >= 0 {
        assert(0 <= q * d <= a) by (nonlinear_arith)
            requires
                q == a / d,
                0 < d,
                0 <= a,
        ;
        assert(q * q * (d * d) <= a * a) by (nonlinear_arith)
            requires
                0 <= q * d <= a,
        ;
    } else {
        let p = (-a) / d;
        assert(0 <= p * d <= -a) by (nonlinear_arith)
            requires
                p == (-a) / d,
                0 < d,
                0 <= -a,
        ;
        assert(q * d == -(p * d)) by (nonlinear_arith)
            requires
                q == -p,
        ;
        assert(q * q * (d * d) <= a * a) by (nonlinear_arith)
            requires
                q == -p,
                0 <= p * d <= -a,
        ;
    }
}

/// The sum of squares is multiplicative: the squared length of a vector
/// turned and stretched by `(c, s)` is the product of the squared lengths.
proof fn lemma_two_squares(x: int, y: int, c: int, s: int)
    ensures
        (x * c - y * s) * (x * c - y * s) + (x * s + y * c) * (x * s + y * c) == (x * x + y * y) * (
        c * c + s * s),
{
    let p = x * c;
    let q = y * s;
    let r = x * s;
    let w = y * c;
    assert(p * q == r * w) by (nonlinear_arith)
        requires
            p == x * c,
            q == y * s,
            r == x * s,
            w == y * c,
    ;
    assert((p - q) * (p - q) + (r + w) * (r + w) == p * p + q * q + r * r + w * w)
        by (nonlinear_arith)
        requires
            p * q == r * w,
    ;
    assert(p * p == x * x * (c * c)) by (nonlinear_arith)
        requires
            p == x * c,
    ;
    assert(q * q == y * y * (s * s)) by (nonlinear_arith)
        requires
            q == y * s,
    ;
    assert(r * r == x * x * (s * s)) by (nonlinear_arith)
        requires
            r == x * s,
    ;
    assert(w * w == y * y * (c * c)) by (nonlinear_arith)
        requires
            w == y * c,
    ;
    let xx = x * x;
    let yy = y * y;
    let cc = c * c;
    let ss = s * s;
    assert((xx + yy) * (cc + ss) == xx * cc + yy * ss + xx * ss + yy * cc) by (nonlinear_arith);
}

/// The triangle inequality: one step of at most `p` and then one of at most
/// `q` lead no farther than `p + q`.
pub proof fn lemma_triangle(a: Vector, b: Vector, p: int, q: int)
    requires
        0 <= p,
        0 <= q,
        a.norm2() <= p * p,
        b.norm2() <= q * q,
    ensures
        (Vector { x: a.x + b.x, y: a.y + b.y }).norm2() <= (p + q) * (p + q),
{
    let s = a.dot(b);
    let c = a.cross(b);
    let (na, nb) = (a.norm2(), b.norm2());
    lemma_two_squares(a.x, a.y, b.y, b.x);
    assert(c * c + s * s == na * nb) by (nonlinear_arith)
        requires
            c * c + s * s == (a.x * a.x + a.y * a.y) * (b.y * b.y + b.x * b.x),
            na == a.x * a.x + a.y * a.y,
            nb == b.x * b.x + b.y * b.y,
    ;
    assert(0 <= na && 0 <= nb && 0 <= c * c) by (nonlinear_arith)
        requires
            na == a.x * a.x + a.y * a.y,
            nb == b.x * b.x + b.y * b.y,
    ;
    let pq = p * q;
    assert(na * nb <= pq * pq && 0 <= pq) by (nonlinear_arith)
        requires
            0 <= na <= p * p,
            0 <= nb <= q * q,
            0 <= p,
            0 <= q,
            pq == p * q,
    ;
    if s > pq {
        lemma_square_strict(pq, s);
    }
    let sum = Vector { x: a.x + b.x, y: a.y + b.y };
    assert(sum.norm2() == na + 2 * s + nb) by (nonlinear_arith)
        requires
            sum.norm2() == (a.x + b.x) * (a.x + b.x) + (a.y + b.y) * (a.y + b.y),
            na == a.x * a.x + a.y * a.y,
            nb == b.x * b.x + b.y * b.y,
            s == a.x * b.x + a.y * b.y,
    ;
    assert((p + q) * (p + q) == p * p + 2 * pq + q * q) by (nonlinear_arith)
        requires
            pq == p * q,
    ;
}

/// What the scaling of one coordinate promises: it is bounded by the length
/// asked for, and squaring it does not exceed the exact quotient.
pub proof fn lemma_share(a: int, b: int, len: int)
    requires
        0 <= len,
        a != 0 || b != 0,
    ensures
        0 <= share(a, a * a + b * b, len) <= len,
        share(a, a * a + b * b, len) * share(a, a * a + b * b, len) * (a * a + b * b) <= a * a
            * (len * len),
        len * len <= a * a + b * b ==> share(a, a * a + b * b, len) * share(
            a,
            a * a + b * b,
            len,
        ) <= a * a,
{
    let n = a * a + b * b;
    let num = a * a * (len * len);
    let q = num / n;
    assert(n > 0 && a * a <= n && 0 <= a * a && 0 <= len * len) by (nonlinear_arith)
        requires
            n == a * a + b * b,
            a != 0 || b != 0,
    ;
    assert(0 <= num <= n * (len * len)) by (nonlinear_arith)
        requires
            num == a * a * (len * len),
            0 <= a * a <= n,
            0 <= len * len,
    ;
    assert(0 <= q <= len * len && q * n <= num) by (nonlinear_arith)
        requires
            q == num / n,
            n > 0,
            0 <= num <= n * (len * len),
    ;
    lemma_floor_sqrt(q);
    let m = floor_sqrt(q);
    lemma_floor_sqrt_monotone(q, len * len);
    lemma_floor_sqrt_square(len);
    assert(m * m * n <= num) by (nonlinear_arith)
        requires
            m * m <= q,
            q * n <= num,
            n > 0,
    ;
    if len * len <= n {
        assert(q <= a * a) by (nonlinear_arith)
            requires
                q * n <= num,
                num == a * a * (len * len),
                0 <= len * len <= n,
                0 <= a * a,
                n > 0,
                0 <= q,
        ;
    }
}

/// A scaled vector is never longer than the length asked for.
pub proof fn lemma_scaled_within(v: Vector, len: int)
    requires
        0 <= len,
    ensures
        scaled(v, len).norm2() <= len * len,
{
    let n = v.norm2();
    if n == 0 {
        assert(0 <= len * len) by (nonlinear_arith);
    } else {
        let a = v.x;
        let b = v.y;
        lemma_share(a, b, len);
        lemma_share(b, a, len);
        assert(b * b + a * a == n);
        assert(n > 0) by (nonlinear_arith)
            requires
                n == a * a + b * b,
                n != 0,
        ;
        let mx = share(a, n, len);
        let my = share(b, n, len);
        let s = scaled(v, len);
        assert(s.x * s.x == mx * mx && s.y * s.y == my * my) by (nonlinear_arith)
            requires
                s.x == mx || s.x == -mx,
                s.y == my || s.y == -my,
        ;
        assert(mx * mx + my * my <= len * len) by (nonlinear_arith)
            requires
                mx * mx * n <= a * a * (len * len),
                my * my * n <= b * b * (len * len),
                n == a * a + b * b,
                n > 0,
        ;
    }
}

/// Scaling a vector down to a length it exceeds moves no coordinate past
/// zero and none beyond its old size.
pub proof fn lemma_scaled_shrinks(v: Vector, len: int)
    requires
        0 <= len,
        len * len <= v.norm2(),
    ensures
        0 <= v.x ==> 0 <= scaled(v, len).x <= v.x,
        v.x <= 0 ==> v.x <= scaled(v, len).x <= 0,
        0 <= v.y ==> 0 <= scaled(v, len).y <= v.y,
        v.y <= 0 ==> v.y <= scaled(v, len).y <= 0,
{
    let n = v.norm2();
    if n != 0 {
        lemma_share(v.x, v.y, len);
        lemma_share(v.y, v.x, len);
        assert(v.y * v.y + v.x * v.x == n);
        let mx = share(v.x, n, len);
        let my = share(v.y, n, len);
        lemma_root_bound(mx, v.x);
        lemma_root_bound(my, v.y);
    }
}

/// A scaled vector falls short of the length asked for by less than one
/// step of the grid in each coordinate.
pub proof fn lemma_scaled_reaches(v: Vector, len: int)
    requires
        0 <= len,
        v.norm2() != 0,
    ensures
        ({
            let s = scaled(v, len);
            (size(s.x) + 1) * (size(s.x) + 1) + (size(s.y) + 1) * (size(s.y) + 1) > len * len
        }),
{
    let a = v.x;
    let b = v.y;
    let n = v.norm2();
    let ll = len * len;
    let aa = a * a;
    let bb = b * b;
    assert(n > 0 && 0 <= aa && 0 <= bb && 0 <= ll) by (nonlinear_arith)
        requires
            n == a * a + b * b,
            n != 0,
            aa == a * a,
            bb == b * b,
            ll == len * len,
    ;
    let qa = (aa * ll) / n;
    let qb = (bb * ll) / n;
    assert(0 <= aa * ll && 0 <= bb * ll && aa * ll + bb * ll == n * ll) by (nonlinear_arith)
        requires
            0 <= aa,
            0 <= bb,
            0 <= ll,
            n == aa + bb,
    ;
    assert(0 <= qa && aa * ll < (qa + 1) * n) by (nonlinear_arith)
        requires
            qa == (aa * ll) / n,
            n > 0,
            0 <= aa * ll,
    ;
    assert(0 <= qb && bb * ll < (qb + 1) * n) by (nonlinear_arith)
        requires
            qb == (bb * ll) / n,
            n > 0,
            0 <= bb * ll,
    ;
    lemma_floor_sqrt(qa);
    lemma_floor_sqrt(qb);
    let ma = floor_sqrt(qa);
    let mb = floor_sqrt(qb);
    let s = scaled(v, len);
    assert(s.x == ma || s.x == -ma);
    assert(s.y == mb || s.y == -mb);
    let ua = (ma + 1) * (ma + 1);
    let ub = (mb + 1) * (mb + 1);
    assert(ll < ua + ub) by (nonlinear_arith)
        requires
            aa * ll < (qa + 1) * n,
            bb * ll < (qb + 1) * n,
            qa + 1 <= ua,
            qb + 1 <= ub,
            aa * ll + bb * ll == n * ll,
            n > 0,
    ;
}

/// Along a grid axis nothing is rounded: a vector that points along an axis
/// is scaled to exactly the length asked for.
pub proof fn lemma_scaled_axis(u: Vector, t: int, len: int)
    requires
        is_axis(u),
        0 < t,
        0 <= len,
    ensures
        scaled(times(u, t), len) == times(u, len),
        times(u, t).norm2() == t * t,
{
    let v = times(u, t);
    let n = v.norm2();
    let ll = len * len;
    assert(v.x == u.x * t && v.y == u.y * t);
    lemma_times_unit(u.x, len);
    lemma_times_unit(u.y, len);
    lemma_times_unit(u.x, t);
    lemma_times_unit(u.y, t);
    assert(n == t * t && t * t > 0 && 0 <= ll) by (nonlinear_arith)
        requires
            n == v.x * v.x + v.y * v.y,
            v.x == u.x * t,
            v.y == u.y * t,
            (u.x == 0 && (u.y == 1 || u.y == -1)) || (u.y == 0 && (u.x == 1 || u.x == -1)),
            0 < t,
            ll == len * len,
    ;
    lemma_floor_sqrt_square(len);
    lemma_floor_sqrt_square(0);
    assert((n * ll) / n == ll && (0 * ll) / n == 0) by (nonlinear_arith)
        requires
            n > 0,
            0 <= ll,
    ;
    if u.x == 0 {
        assert(v.x == 0 && v.x * v.x == 0) by (nonlinear_arith)
            requires
                v.x == u.x * t,
                u.x == 0,
        ;
        assert(v.y * v.y == n);
        assert(v.y == t || v.y == -t) by (nonlinear_arith)
            requires
                v.y == u.y * t,
                u.y == 1 || u.y == -1,
        ;
        assert(share(v.x, n, len) == 0);
        assert(share(v.y, n, len) == len);
    } else {
        assert(v.y == 0 && v.y * v.y == 0) by (nonlinear_arith)
            requires
                v.y == u.y * t,
                u.y == 0,
        ;
        assert(v.x * v.x == n);
        assert(v.x == t || v.x == -t) by (nonlinear_arith)
            requires
                v.x == u.x * t,
                u.x == 1 || u.x == -1,
        ;
        assert(share(v.y, n, len) == 0);
        assert(share(v.x, n, len) == len);
    }
}

/// Turning a vector never makes it longer.
pub proof fn lemma_turned_within(v: Vector, cos: int, sin: int)
    requires
        is_rotation(cos, sin),
    ensures
        turned(v, cos, sin).norm2() <= v.norm2(),
{
    let d: int = 0x4000_0000;
    assert(d == UNIT);
    let a = v.x * cos - v.y * sin;
    let b = v.x * sin + v.y * cos;
    let t = turned(v, cos, sin);
    lemma_div_toward_zero(a, d);
    lemma_div_toward_zero(b, d);
    lemma_two_squares(v.x, v.y, cos, sin);
    let n = v.norm2();
    let k = cos * cos + sin * sin;
    let dd = d * d;
    let tx2 = t.x * t.x;
    let ty2 = t.y * t.y;
    assert(0 <= n) by (nonlinear_arith)
        requires
            n == v.x * v.x + v.y * v.y,
    ;
    assert((tx2 + ty2) * dd <= n * k) by (nonlinear_arith)
        requires
            tx2 * dd <= a * a,
            ty2 * dd <= b * b,
            a * a + b * b == n * k,
    ;
    assert(n * k <= n * dd) by (nonlinear_arith)
        requires
            0 <= n,
            k <= dd,
    ;
    assert(tx2 + ty2 <= n) by (nonlinear_arith)
        requires
            (tx2 + ty2) * dd <= n * dd,
            0 < dd,
    ;
}

/// A turned vector keeps within twice the span of the grid.
pub proof fn lemma_turned_span(v: Vector, cos: int, sin: int)
    requires
        v.in_span(),
        -UNIT <= cos <= UNIT,
        -UNIT <= sin <= UNIT,
    ensures
        -0x2_0000_0000 <= turned(v, cos, sin).x <= 0x2_0000_0000,
        -0x2_0000_0000 <= turned(v, cos, sin).y <= 0x2_0000_0000,
{
    let d: int = 0x4000_0000;
    assert(d == UNIT);
    let a = v.x * cos - v.y * sin;
    let b = v.x * sin + v.y * cos;
    lemma_product_bound(v.x, 0x1_0000_0000, cos, d);
    lemma_product_bound(v.y, 0x1_0000_0000, sin, d);
    lemma_product_bound(v.x, 0x1_0000_0000, sin, d);
    lemma_product_bound(v.y, 0x1_0000_0000, cos, d);
    lemma_div_toward_zero(a, d);
    lemma_div_toward_zero(b, d);
    let tx = turned(v, cos, sin).x;
    let ty = turned(v, cos, sin).y;
    assert(-0x2_0000_0000 <= tx <= 0x2_0000_0000) by (nonlinear_arith)
        requires
            a >= 0 ==> 0 <= tx * d <= a,
            a <= 0 ==> a <= tx * d <= 0,
            -0x8000_0000_0000_0000 <= a <= 0x8000_0000_0000_0000,
            d == 0x4000_0000,
    ;
    assert(-0x2_0000_0000 <= ty <= 0x2_0000_0000) by (nonlinear_arith)
        requires
            b >= 0 ==> 0 <= ty * d <= b,
            b <= 0 ==> b <= ty * d <= 0,
            -0x8000_0000_0000_0000 <= b <= 0x8000_0000_0000_0000,
            d == 0x4000_0000,
    ;
}

/// What a division rounded toward zero leaves over is smaller in size than
/// the divisor.
proof fn lemma_div_remainder(a: int, d: int)
    requires
        0 < d,
    ensures
        -d < a - div_toward_zero(a, d) * d < d,
{
    if a >= 0 {
        assert(0 <= a - (a / d) * d < d) by (nonlinear_arith)
            requires
                0 < d,
                0 <= a,
        ;
    } else {
        let p = (-a) / d;
        assert(0 <= (-a) - p * d < d) by (nonlinear_arith)
            requires
                p == (-a) / d,
                0 < d,
                0 <= -a,
        ;
        assert((-p) * d == -(p * d)) by (nonlinear_arith);
    }
}

/// A turn falls short of the length of the exact rotation by less than a
/// step of the grid in each coordinate.
pub proof fn lemma_turned_reaches(v: Vector, cos: int, sin: int)
    ensures
        ({
            let t = turned(v, cos, sin);
            ((size(t.x) + 1) * (size(t.x) + 1) + (size(t.y) + 1) * (size(t.y) + 1)) * (UNIT * UNIT)
                > v.norm2() * (cos * cos + sin * sin)
        }),
{
    let d: int = 0x4000_0000;
    assert(d == UNIT);
    let t = turned(v, cos, sin);
    let ax = v.x * cos - v.y * sin;
    let ay = v.x * sin + v.y * cos;
    lemma_div_remainder(ax, d);
    lemma_div_remainder(ay, d);
    lemma_two_squares(v.x, v.y, cos, sin);
    let (mx, my) = (size(t.x) + 1, size(t.y) + 1);
    assert(size(t.x) * d == size(t.x * d) && size(t.y) * d == size(t.y * d)) by (nonlinear_arith)
        requires
            d > 0,
    ;
    assert(mx * d == size(t.x) * d + d && my * d == size(t.y) * d + d) by (nonlinear_arith)
        requires
            mx == size(t.x) + 1,
            my == size(t.y) + 1,
    ;
    lemma_square_strict(size(ax), mx * d);
    lemma_square_strict(size(ay), my * d);
    assert(size(ax) * size(ax) == ax * ax && size(ay) * size(ay) == ay * ay) by (nonlinear_arith);
    assert((mx * mx + my * my) * (d * d) == (mx * d) * (mx * d) + (my * d) * (my * d))
        by (nonlinear_arith);
}

/// How exact a turn is. Were nothing rounded, the vector product of `v`
/// with its turned copy would be the sine times the squared length of `v`,
/// and their scalar product the cosine times that. Rounded, each is off by
/// no more than the sum of the sizes of the coordinates of `v`.
pub proof fn lemma_turned_angle(v: Vector, cos: int, sin: int)
    ensures
        sin * v.norm2() - UNIT * (size(v.x) + size(v.y)) <= UNIT * v.cross(turned(v, cos, sin))
            <= sin * v.norm2() + UNIT * (size(v.x) + size(v.y)),
        cos * v.norm2() - UNIT * (size(v.x) + size(v.y)) <= UNIT * v.dot(turned(v, cos, sin))
            <= cos * v.norm2() + UNIT * (size(v.x) + size(v.y)),
{
    let d: int = 0x4000_0000;
    assert(d == UNIT);
    let t = turned(v, cos, sin);
    let (x, y) = (v.x, v.y);
    let ax = x * cos - y * sin;
    let ay = x * sin + y * cos;
    lemma_div_remainder(ax, d);
    lemma_div_remainder(ay, d);
    let ex = ax - t.x * d;
    let ey = ay - t.y * d;
    let n = v.norm2();
    let (xc, xs, yc, ys) = (x * cos, x * sin, y * cos, y * sin);
    let (dx, dy) = (t.x * d, t.y * d);
    assert(x * ey == x * xs + x * yc - x * dy) by (nonlinear_arith)
        requires
            ey == xs + yc - dy,
    ;
    assert(y * ey == y * xs + y * yc - y * dy) by (nonlinear_arith)
        requires
            ey == xs + yc - dy,
    ;
    assert(x * ex == x * xc - x * ys - x * dx) by (nonlinear_arith)
        requires
            ex == xc - ys - dx,
    ;
    assert(y * ex == y * xc - y * ys - y * dx) by (nonlinear_arith)
        requires
            ex == xc - ys - dx,
    ;
    assert(x * yc == y * xc && x * ys == y * xs) by (nonlinear_arith)
        requires
            xc == x * cos,
            yc == y * cos,
            xs == x * sin,
            ys == y * sin,
    ;
    assert(x * xs + y * ys == sin * n && x * xc + y * yc == cos * n) by (nonlinear_arith)
        requires
            xc == x * cos,
            yc == y * cos,
            xs == x * sin,
            ys == y * sin,
            n == x * x + y * y,
    ;
    assert(d * (x * t.y - y * t.x) == x * dy - y * dx && d * (x * t.x + y * t.y) == x * dx + y
        * dy) by (nonlinear_arith)
        requires
            dx == t.x * d,
            dy == t.y * d,
    ;
    lemma_product_bound(x, size(x), ey, d);
    lemma_product_bound(y, size(y), ex, d);
    lemma_product_bound(x, size(x), ex, d);
    lemma_product_bound(y, size(y), ey, d);
    assert(d * (size(x) + size(y)) == size(x) * d + size(y) * d) by (nonlinear_arith);
}

/// The limit is a rotation: its cosine and sine are those of an angle,
/// rounded toward zero.
pub proof fn lemma_bend_is_rotation()
    ensures
        is_rotation(BEND_COS as int, BEND_SIN as int),
        is_rotation(BEND_COS as int, -BEND_SIN),
{
    assert(1008987268int * 1008987268int + 367241332int * 367241332int <= 0x4000_0000int
        * 0x4000_0000int) by (nonlinear_arith);
    assert((-367241332int) * (-367241332int) == 367241332int * 367241332int) by (nonlinear_arith);
}

/// After the pull the two points are no farther apart than the rope is long,
/// and the free point lies between where it was and the fixed point.
pub proof fn lemma_pulled(fixed: Point, free: Point, len: int)
    requires
        0 <= len,
    ensures
        between(fixed, pulled(fixed, free, len)).norm2() <= len * len,
        between(fixed, free).norm2() > len * len ==> between(fixed, pulled(fixed, free, len))
            == scaled(between(fixed, free), len),
        pulled(fixed, free, len).z == free.z,
{
    let d = between(fixed, free);
    if d.norm2() > len * len {
        lemma_scaled_shrinks(d, len);
        lemma_scaled_within(d, len);
    }
}

/// Straightening never puts a node farther from the one before it than it
/// was.
pub proof fn lemma_straightened_within(n0: Point, n1: Point, n2: Point)
    ensures
        between(n1, straightened(n0, n1, n2)).norm2() <= between(n1, n2).norm2(),
        straightened(n0, n1, n2).z == n2.z,
{
    let a = between(n0, n1);
    let b = between(n1, n2);
    if !bend_within_limit(a, b) {
        let bn = b.norm2();
        assert(0 <= bn) by (nonlinear_arith)
            requires
                bn == b.x * b.x + b.y * b.y,
        ;
        lemma_floor_sqrt(bn);
        let len = reach(b);
        assert(0 <= len && len * len <= bn) by {
            let r = floor_sqrt(bn);
            if r > SPAN {
                lemma_square_monotone(SPAN as int, r);
            }
        }
        let u = scaled(a, len);
        lemma_scaled_within(a, len);
        let sin = if a.cross(b) < 0 {
            -BEND_SIN
        } else {
            BEND_SIN as int
        };
        lemma_bend_is_rotation();
        let t = turned(u, BEND_COS as int, sin);
        lemma_turned_within(u, BEND_COS as int, sin);
        let p = straightened(n0, n1, n2);
        let d = between(n1, p);
        assert(d.x * d.x <= t.x * t.x) by (nonlinear_arith)
            requires
                (0 <= d.x <= t.x) || (t.x <= d.x <= 0),
        ;
        assert(d.y * d.y <= t.y * t.y) by (nonlinear_arith)
            requires
                (0 <= d.y <= t.y) || (t.y <= d.y <= 0),
        ;
    }
}

/// What a correction does to a bend beyond the limit. The third point goes
/// to the end of the first segment, scaled to the length of the second and
/// turned by the limit to the side that the second one bent to. The turn is
/// the limit up to rounding: the vector and scalar products of the scaled
/// segment with the turned one are off from the sine and the cosine of the
/// limit, times the squared length, by no more than the sum of the sizes of
/// the scaled segment's coordinates. Where that sum is 6 or more, the turned
/// segment lies strictly on the side of the bend.
pub proof fn lemma_straightened_bend(n0: Point, n1: Point, n2: Point)
    requires
        !bend_within_limit(between(n0, n1), between(n1, n2)),
    ensures
        ({
            let a = between(n0, n1);
            let b = between(n1, n2);
            let u = scaled(a, reach(b));
            let sin = if a.cross(b) < 0 {
                -BEND_SIN
            } else {
                BEND_SIN as int
            };
            let t = turned(u, BEND_COS as int, sin);
            let slack = UNIT * (size(u.x) + size(u.y));
            &&& straightened(n0, n1, n2) == displaced(n1, t, n2.z)
            &&& sin * u.norm2() - slack <= UNIT * u.cross(t) <= sin * u.norm2() + slack
            &&& BEND_COS * u.norm2() - slack <= UNIT * u.dot(t) <= BEND_COS * u.norm2() + slack
            &&& size(u.x) + size(u.y) >= 6 && a.cross(b) >= 0 ==> u.cross(t) > 0
            &&& size(u.x) + size(u.y) >= 6 && a.cross(b) < 0 ==> u.cross(t) < 0
        }),
{
    let a = between(n0, n1);
    let b = between(n1, n2);
    let u = scaled(a, reach(b));
    let sin = if a.cross(b) < 0 {
        -BEND_SIN
    } else {
        BEND_SIN as int
    };
    let t = turned(u, BEND_COS as int, sin);
    lemma_turned_angle(u, BEND_COS as int, sin);
    let m = size(u.x) + size(u.y);
    let n = u.norm2();
    if m >= 6 {
        assert(2 * n >= m * m) by (nonlinear_arith)
            requires
                n == u.x * u.x + u.y * u.y,
                m == u.x + u.y || m == u.x - u.y || m == u.y - u.x || m == -u.x - u.y,
        ;
        assert(m * m >= 6 * m) by (nonlinear_arith)
            requires
                m >= 6,
        ;
        let c = u.cross(t);
        let d: int = 0x4000_0000;
        assert(d == UNIT);
        if a.cross(b) >= 0 {
            assert(d * c > 0) by (nonlinear_arith)
                requires
                    367241332 * n - d * m <= d * c,
                    n >= 3 * m,
                    m >= 6,
                    d == 0x4000_0000,
            ;
            assert(c > 0) by (nonlinear_arith)
                requires
                    d * c > 0,
                    d > 0,
            ;
        } else {
            assert(d * c < 0) by (nonlinear_arith)
                requires
                    d * c <= (-367241332) * n + d * m,
                    n >= 3 * m,
                    m >= 6,
                    d == 0x4000_0000,
            ;
            assert(c < 0) by (nonlinear_arith)
                requires
                    d * c < 0,
                    d > 0,
            ;
        }
    }
}

} // verus!
