//! Points and planar vectors on the integer grid, and the two roundings the
//! solver is built from: scaling a vector to a given length and turning it by
//! a fixed angle. Both round every coordinate toward zero, so neither ever
//! makes a vector longer than asked.

use crate::numeric::{floor_sqrt, isqrt, lemma_square_monotone};
use crate::rounding::{lemma_product_bound, lemma_share, lemma_turned_span};
use vstd::prelude::*;

verus! {

/// A position. `x` and `y` lie on the plane; `z` is a drawing depth that no
/// distance and no angle reads.
#[derive(Clone, Copy, Debug, PartialEq, Eq, Structural)]
pub struct Point {
    pub x: i32,
    pub y: i32,
    pub z: i32,
}

/// A planar vector over the integers: the model of every displacement.
pub struct Vector {
    pub x: int,
    pub y: int,
}

impl Vector {
    /// The squared length.
    pub open spec fn norm2(self) -> int {
        self.x * self.x + self.y * self.y
    }

    /// The scalar product with `other`.
    pub open spec fn dot(self, other: Vector) -> int {
        self.x * other.x + self.y * other.y
    }

    /// The third coordinate of the vector product with `other`: positive when
    /// `other` turns counterclockwise from `self`.
    pub open spec fn cross(self, other: Vector) -> int {
        self.x * other.y - self.y * other.x
    }

    /// The vector turned a quarter counterclockwise.
    pub open spec fn perp(self) -> Vector {
        Vector { x: -self.y, y: self.x }
    }

    /// The opposite vector.
    pub open spec fn neg(self) -> Vector {
        Vector { x: -self.x, y: -self.y }
    }

    /// Whether both coordinates lie within the span of two grid coordinates.
    pub open spec fn in_span(self) -> bool {
        -SPAN <= self.x <= SPAN && -SPAN <= self.y <= SPAN
    }
}

/// The largest difference between two grid coordinates.
pub const SPAN: i64 = 0xffff_ffff;

/// The denominator of every cosine and sine below.
pub const UNIT: i64 = 0x4000_0000;

/// A planar point or displacement with 64-bit coordinates: wide enough for
/// the difference of two grid points and for an outline point.
#[derive(Clone, Copy, Debug, PartialEq, Eq, Structural)]
pub struct Planar {
    pub x: i64,
    pub y: i64,
}

impl View for Planar {
    type V = Vector;

    open spec fn view(&self) -> Vector {
        Vector { x: self.x as int, y: self.y as int }
    }
}

impl Planar {
    /// The planar value with the coordinates of `v`.
    pub open spec fn of(v: Vector) -> Planar {
        Planar { x: v.x as i64, y: v.y as i64 }
    }
}

/// The planar displacement that leads from `a` to `b`.
pub open spec fn between(a: Point, b: Point) -> Vector {
    Vector { x: b.x - a.x, y: b.y - a.y }
}

/// The size of `a`.
pub open spec fn size(a: int) -> int {
    if a < 0 {
        -a
    } else {
        a
    }
}

/// `m` carrying the sign of `a`.
pub open spec fn with_sign(a: int, m: int) -> int {
    if a < 0 {
        -m
    } else {
        m
    }
}

/// The size of one coordinate of the vector of length `len` along a vector of
/// squared length `n` whose matching coordinate is `a`: the largest integer
/// `m` with `m * m * n <= a * a * len * len`.
pub open spec fn share(a: int, n: int, len: int) -> int {
    floor_sqrt((a * a * (len * len)) / n)
}

/// The vector of length `len` along `v`, each coordinate rounded toward
/// zero. The zero vector has no direction and stays zero.
pub open spec fn scaled(v: Vector, len: int) -> Vector {
    let n = v.norm2();
    if n == 0 {
        Vector { x: 0, y: 0 }
    } else {
        Vector { x: with_sign(v.x, share(v.x, n, len)), y: with_sign(v.y, share(v.y, n, len)) }
    }
}

/// `a / d` rounded toward zero, for a positive `d`.
pub open spec fn div_toward_zero(a: int, d: int) -> int {
    if a < 0 {
        -((-a) / d)
    } else {
        a / d
    }
}

/// `v` turned counterclockwise by the angle whose cosine is `cos / UNIT` and
/// whose sine is `sin / UNIT`, each coordinate rounded toward zero.
pub open spec fn turned(v: Vector, cos: int, sin: int) -> Vector {
    Vector {
        x: div_toward_zero(v.x * cos - v.y * sin, UNIT as int),
        y: div_toward_zero(v.x * sin + v.y * cos, UNIT as int),
    }
}

/// Whether `cos / UNIT` and `sin / UNIT` are the cosine and sine of an angle,
/// rounded toward zero.
pub open spec fn is_rotation(cos: int, sin: int) -> bool {
    cos * cos + sin * sin <= UNIT * UNIT
}

/// The grid coordinate nearest to `v`.
pub open spec fn clamped(v: int) -> i32 {
    if v < i32::MIN {
        i32::MIN
    } else if v > i32::MAX {
        i32::MAX
    } else {
        v as i32
    }
}

/// The point `p` displaced by `v` on the plane; a coordinate that would
/// leave the grid stops at its edge. The depth is that of `depth`.
pub open spec fn displaced(p: Point, v: Vector, depth: i32) -> Point {
    Point { x: clamped(p.x + v.x), y: clamped(p.y + v.y), z: depth }
}

/// Where `free` comes to rest when it hangs on a rope of length `len` fixed
/// at `fixed`: where it was, unless the rope is stretched, and then on the
/// way to `fixed`, at the rope's length from it.
pub open spec fn pulled(fixed: Point, free: Point, len: int) -> Point {
    let d = between(fixed, free);
    if d.norm2() > len * len {
        displaced(fixed, scaled(d, len), free.z)
    } else {
        free
    }
}

/// The length of `v` rounded down, and no more than `SPAN`.
pub open spec fn reach(v: Vector) -> int {
    let r = floor_sqrt(v.norm2());
    if r > SPAN {
        SPAN as int
    } else {
        r
    }
}

/// The cosine of the largest bend that the solver leaves alone, 20 degrees,
/// over `UNIT`.
pub const BEND_COS: i64 = 1008987268;

/// The sine of the largest bend that the solver leaves alone, over `UNIT`.
pub const BEND_SIN: i64 = 367241332;

/// Whether `b` bends away from `a` by no more than the limit. A vector bends
/// from the zero vector by nothing.
pub open spec fn bend_within_limit(a: Vector, b: Vector) -> bool {
    let c = a.cross(b);
    (if c < 0 {
        -c
    } else {
        c
    }) * BEND_COS <= BEND_SIN * a.dot(b)
}

/// Where the third of three points in a row belongs: where it is, if the
/// second segment bends from the first within the limit; else at the end of
/// the first segment turned by the limit to the side the second one bends
/// to, and as long as the second one.
pub open spec fn straightened(n0: Point, n1: Point, n2: Point) -> Point {
    let a = between(n0, n1);
    let b = between(n1, n2);
    if bend_within_limit(a, b) {
        n2
    } else {
        let u = scaled(a, reach(b));
        let sin = if a.cross(b) < 0 {
            -BEND_SIN
        } else {
            BEND_SIN as int
        };
        displaced(n1, turned(u, BEND_COS as int, sin), n2.z)
    }
}

/// Whether `u` is one of the four unit vectors along the grid's axes.
pub open spec fn is_axis(u: Vector) -> bool {
    (u.x == 0 && (u.y == 1 || u.y == -1)) || (u.y == 0 && (u.x == 1 || u.x == -1))
}

/// The vector `t` times as long as `u`.
pub open spec fn times(u: Vector, t: int) -> Vector {
    Vector { x: u.x * t, y: u.y * t }
}

/// The size of `v`.
fn magnitude(v: i64) -> (m: u128)
    ensures
        v >= 0 ==> m == v,
        v < 0 ==> m == -v,
{
    if v < 0 {
        (0 - v as i128) as u128
    } else {
        v as u128
    }
}

/// One coordinate of the scaled vector: `a` is its matching coordinate in
/// the vector, `b` the other one.
fn scale_coordinate(a: i64, b: i64, len: u32) -> (r: i64)
    requires
        -SPAN <= a <= SPAN,
        -SPAN <= b <= SPAN,
        a != 0 || b != 0,
    ensures
        r == with_sign(a as int, share(a as int, a * a + b * b, len as int)),
        -(len as int) <= r <= len,
{
    let ma = magnitude(a);
    let mb = magnitude(b);
    proof {
        lemma_square_monotone(ma as int, SPAN as int);
        lemma_square_monotone(mb as int, SPAN as int);
        lemma_square_monotone(len as int, SPAN as int);
        assert(ma * ma == a * a && mb * mb == b * b) by (nonlinear_arith)
            requires
                ma == a || ma == -a,
                mb == b || mb == -b,
        ;
        assert(SPAN * SPAN == 0xffff_fffe_0000_0001) by (nonlinear_arith);
        assert(ma * ma > 0 || mb * mb > 0) by (nonlinear_arith)
            requires
                ma > 0 || mb > 0,
                ma >= 0,
                mb >= 0,
        ;
    }
    let aa: u128 = ma * ma;
    let n: u128 = aa + mb * mb;
    let ll: u128 = (len as u128) * (len as u128);
    proof {
        assert(aa * ll <= 0xffff_fffe_0000_0001 * 0xffff_fffe_0000_0001) by (nonlinear_arith)
            requires
                0 <= aa <= 0xffff_fffe_0000_0001,
                0 <= ll <= 0xffff_fffe_0000_0001,
        ;
        assert(0xffff_fffe_0000_0001int * 0xffff_fffe_0000_0001int < u128::MAX) by (nonlinear_arith);
        lemma_share(a as int, b as int, len as int);
    }
    let q: u128 = (aa * ll) / n;
    let m: u64 = isqrt(q);
    if a < 0 {
        -(m as i64)
    } else {
        m as i64
    }
}

/// `a / UNIT`, rounded toward zero.
fn reduce(a: i128) -> (r: i64)
    requires
        -0x8000_0000_0000_0000 <= a <= 0x8000_0000_0000_0000,
    ensures
        r == div_toward_zero(a as int, UNIT as int),
        -0x2_0000_0000 <= r <= 0x2_0000_0000,
{
    if a < 0 {
        let m: u128 = (0 - a) as u128;
        let q: u128 = m / 0x4000_0000;
        -(q as i64)
    } else {
        let q: u128 = (a as u128) / 0x4000_0000;
        q as i64
    }
}

/// The grid coordinate nearest to `v`.
pub fn clamp(v: i64) -> (r: i32)
    ensures
        r == clamped(v as int),
{
    if v < i32::MIN as i64 {
        i32::MIN
    } else if v > i32::MAX as i64 {
        i32::MAX
    } else {
        v as i32
    }
}

impl Planar {
    /// The displacement that leads from `a` to `b`.
    pub fn span(a: &Point, b: &Point) -> (d: Planar)
        ensures
            d@ == between(*a, *b),
            d@.in_span(),
    {
        Planar { x: b.x as i64 - a.x as i64, y: b.y as i64 - a.y as i64 }
    }

    /// The vector of length `len` along `self`, each coordinate rounded
    /// toward zero; zero for the zero vector.
    pub fn scale_to(&self, len: u32) -> (r: Planar)
        requires
            self@.in_span(),
        ensures
            r@ == scaled(self@, len as int),
            r@.in_span(),
    {
        if self.x == 0 && self.y == 0 {
            Planar { x: 0, y: 0 }
        } else {
            proof {
                assert(self@.norm2() != 0) by (nonlinear_arith)
                    requires
                        self@.norm2() == self.x * self.x + self.y * self.y,
                        self.x != 0 || self.y != 0,
                ;
                assert(self.y * self.y + self.x * self.x == self@.norm2());
            }
            let x = scale_coordinate(self.x, self.y, len);
            let y = scale_coordinate(self.y, self.x, len);
            Planar { x, y }
        }
    }
}

impl Planar {
    /// The squared length.
    pub fn norm2(&self) -> (n: u128)
        requires
            self@.in_span(),
        ensures
            n == self@.norm2(),
            n <= 2 * (SPAN * SPAN),
    {
        let mx = magnitude(self.x);
        let my = magnitude(self.y);
        proof {
            lemma_square_monotone(mx as int, SPAN as int);
            lemma_square_monotone(my as int, SPAN as int);
            assert(SPAN * SPAN == 0xffff_fffe_0000_0001) by (nonlinear_arith);
            assert(mx * mx == self.x * self.x && my * my == self.y * self.y) by (nonlinear_arith)
                requires
                    mx == self.x || mx == -self.x,
                    my == self.y || my == -self.y,
            ;
        }
        mx * mx + my * my
    }

    /// The scalar product with `other`.
    pub fn dot(&self, other: &Planar) -> (r: i128)
        requires
            self@.in_span(),
            other@.in_span(),
        ensures
            r == self@.dot(other@),
            -2 * (SPAN * SPAN) <= r <= 2 * (SPAN * SPAN),
    {
        proof {
            lemma_product_bound(self.x as int, SPAN as int, other.x as int, SPAN as int);
            lemma_product_bound(self.y as int, SPAN as int, other.y as int, SPAN as int);
            assert(SPAN * SPAN == 0xffff_fffe_0000_0001) by (nonlinear_arith);
        }
        (self.x as i128) * (other.x as i128) + (self.y as i128) * (other.y as i128)
    }

    /// The third coordinate of the vector product with `other`.
    pub fn cross(&self, other: &Planar) -> (r: i128)
        requires
            self@.in_span(),
            other@.in_span(),
        ensures
            r == self@.cross(other@),
            -2 * (SPAN * SPAN) <= r <= 2 * (SPAN * SPAN),
    {
        proof {
            lemma_product_bound(self.x as int, SPAN as int, other.y as int, SPAN as int);
            lemma_product_bound(self.y as int, SPAN as int, other.x as int, SPAN as int);
            assert(SPAN * SPAN == 0xffff_fffe_0000_0001) by (nonlinear_arith);
        }
        (self.x as i128) * (other.y as i128) - (self.y as i128) * (other.x as i128)
    }

    /// The length rounded down, and no more than `SPAN`.
    pub fn length(&self) -> (r: u32)
        requires
            self@.in_span(),
        ensures
            r == reach(self@),
    {
        let root = isqrt(self.norm2());
        if root > 0xffff_ffff {
            0xffff_ffff
        } else {
            root as u32
        }
    }

    /// The vector turned counterclockwise by the angle whose cosine is
    /// `cos / UNIT` and whose sine is `sin / UNIT`, each coordinate rounded
    /// toward zero.
    pub fn turn(&self, cos: i64, sin: i64) -> (r: Planar)
        requires
            self@.in_span(),
            -UNIT <= cos <= UNIT,
            -UNIT <= sin <= UNIT,
        ensures
            r@ == turned(self@, cos as int, sin as int),
    {
        proof {
            lemma_product_bound(self.x as int, 0x1_0000_0000, cos as int, UNIT as int);
            lemma_product_bound(self.y as int, 0x1_0000_0000, sin as int, UNIT as int);
            lemma_product_bound(self.x as int, 0x1_0000_0000, sin as int, UNIT as int);
            lemma_product_bound(self.y as int, 0x1_0000_0000, cos as int, UNIT as int);
            assert(0x1_0000_0000 * UNIT == 0x4000_0000_0000_0000);
        }
        let a: i128 = (self.x as i128) * (cos as i128) - (self.y as i128) * (sin as i128);
        let b: i128 = (self.x as i128) * (sin as i128) + (self.y as i128) * (cos as i128);
        Planar { x: reduce(a), y: reduce(b) }
    }
}

impl Point {
    /// The point displaced by `v` on the plane, at depth `depth`; a
    /// coordinate that would leave the grid stops at its edge.
    pub fn displace(&self, v: &Planar, depth: i32) -> (p: Point)
        requires
            -0x2_0000_0000 <= v.x <= 0x2_0000_0000,
            -0x2_0000_0000 <= v.y <= 0x2_0000_0000,
        ensures
            p == displaced(*self, v@, depth),
    {
        Point { x: clamp(self.x as i64 + v.x), y: clamp(self.y as i64 + v.y), z: depth }
    }

    /// Where `free` comes to rest on a rope of length `len` fixed at `self`.
    pub fn pull(&self, free: &Point, len: u32) -> (p: Point)
        ensures
            p == pulled(*self, *free, len as int),
    {
        let d = Planar::span(self, free);
        proof {
            lemma_square_monotone(len as int, SPAN as int);
            assert(SPAN * SPAN == 0xffff_fffe_0000_0001) by (nonlinear_arith);
        }
        let limit: u128 = (len as u128) * (len as u128);
        if d.norm2() > limit {
            let s = d.scale_to(len);
            self.displace(&s, free.z)
        } else {
            *free
        }
    }

    /// Whether the segment from `n1` to `n2` bends from the one from `self`
    /// to `n1` by no more than the limit.
    pub fn bend_ok(&self, n1: &Point, n2: &Point) -> (ok: bool)
        ensures
            ok == bend_within_limit(between(*self, *n1), between(*n1, *n2)),
    {
        let a = Planar::span(self, n1);
        let b = Planar::span(n1, n2);
        let c = a.cross(&b);
        let d = a.dot(&b);
        proof {
            assert(SPAN * SPAN == 0xffff_fffe_0000_0001) by (nonlinear_arith);
            lemma_product_bound(BEND_SIN as int, UNIT as int, d as int, 0x1_ffff_fffc_0000_0002);
            lemma_product_bound(BEND_COS as int, UNIT as int, c as int, 0x1_ffff_fffc_0000_0002);
            assert(UNIT * 0x1_ffff_fffc_0000_0002 == 0x7fff_ffff_0000_0000_8000_0000);
        }
        let size: i128 = if c < 0 {
            -c
        } else {
            c
        };
        size * (BEND_COS as i128) <= (BEND_SIN as i128) * d
    }

    /// Where `n2` belongs after `self` and `n1`, so that the chain bends at
    /// `n1` by no more than the limit.
    pub fn straighten(&self, n1: &Point, n2: &Point) -> (p: Point)
        ensures
            p == straightened(*self, *n1, *n2),
    {
        if self.bend_ok(n1, n2) {
            *n2
        } else {
            let a = Planar::span(self, n1);
            let b = Planar::span(n1, n2);
            let u = a.scale_to(b.length());
            let sin: i64 = if a.cross(&b) < 0 {
                -BEND_SIN
            } else {
                BEND_SIN
            };
            let t = u.turn(BEND_COS, sin);
            proof {
                lemma_turned_span(u@, BEND_COS as int, sin as int);
            }
            n1.displace(&t, n2.z)
        }
    }
}

} // verus!
