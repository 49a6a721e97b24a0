use vstd::prelude::*;

verus! {

/// Fixed-point units per pixel: screen coordinates carry eight fractional bits.
pub const SUBPIXEL: i32 = 256;

/// A screen-space point in fixed-point units (`SUBPIXEL` units per pixel).
#[derive(Clone, Copy, Debug, PartialEq, Eq, Structural)]
pub struct Point {
    pub x: i32,
    pub y: i32,
}

impl Point {
    pub fn new(x: i32, y: i32) -> (p: Point)
        ensures
            p.x == x,
            p.y == y,
    {
        Point { x, y }
    }
}

/// Three screen-space vertices.
#[derive(Clone, Copy, Debug)]
pub struct Triangle {
    pub p1: Point,
    pub p2: Point,
    pub p3: Point,
}

/// A whole pixel position.
#[derive(Clone, Copy, Debug, PartialEq, Eq, Structural)]
pub struct Pixel {
    pub x: i64,
    pub y: i64,
}

/// An axis-aligned box of whole pixels, both corners included.
#[derive(Clone, Copy, Debug, PartialEq, Eq, Structural)]
pub struct Aabb {
    pub top_left: Pixel,
    pub bottom_right: Pixel,
}

/// Barycentric weights as fractions over a common positive `total`:
/// the weights are `w1 / total`, `w2 / total` and `w3 / total`.
#[derive(Clone, Copy, Debug, PartialEq, Eq, Structural)]
pub struct Barycentric {
    pub w1: i128,
    pub w2: i128,
    pub w3: i128,
    pub total: i128,
}

/// The area-ratio denominator; zero exactly when the vertices are collinear.
pub open spec fn denom(t: Triangle) -> int {
    (t.p2.y - t.p3.y) * (t.p1.x - t.p3.x) + (t.p3.x - t.p2.x) * (t.p1.y - t.p3.y)
}

/// Numerator of the first weight at `(x, y)`.
pub open spec fn num1(t: Triangle, x: int, y: int) -> int {
    (t.p2.y - t.p3.y) * (x - t.p3.x) + (t.p3.x - t.p2.x) * (y - t.p3.y)
}

/// Numerator of the second weight at `(x, y)`.
pub open spec fn num2(t: Triangle, x: int, y: int) -> int {
    (t.p3.y - t.p1.y) * (x - t.p3.x) + (t.p1.x - t.p3.x) * (y - t.p3.y)
}

pub open spec fn sign(d: int) -> int {
    if d < 0 {
        -1
    } else {
        1
    }
}

pub open spec fn abs(d: int) -> int {
    if d < 0 {
        -d
    } else {
        d
    }
}

/// The weights `(w1, w2, w3, total)` of `(x, y)`: `wi / total` is the i-th
/// barycentric weight, with `total > 0` for a non-degenerate triangle.
pub open spec fn weights(t: Triangle, x: int, y: int) -> (int, int, int, int) {
    let s = sign(denom(t));
    let w1 = s * num1(t, x, y);
    let w2 = s * num2(t, x, y);
    (w1, w2, abs(denom(t)) - w1 - w2, abs(denom(t)))
}

pub open spec fn min3(a: int, b: int, c: int) -> int {
    if a <= b && a <= c {
        a
    } else if b <= c {
        b
    } else {
        c
    }
}

pub open spec fn max3(a: int, b: int, c: int) -> int {
    if a >= b && a >= c {
        a
    } else if b >= c {
        b
    } else {
        c
    }
}

/// The whole pixel at or below a fixed-point coordinate.
pub open spec fn pixel_floor(v: int) -> int {
    v / (SUBPIXEL as int)
}

/// The whole pixel at or above a fixed-point coordinate.
pub open spec fn pixel_ceil(v: int) -> int {
    (v + SUBPIXEL as int - 1) / (SUBPIXEL as int)
}

/// The box from the floor of the smallest to the ceiling of the largest coordinate.
pub open spec fn aabb_of(t: Triangle) -> Aabb {
    Aabb {
        top_left: Pixel {
            x: pixel_floor(min3(t.p1.x as int, t.p2.x as int, t.p3.x as int)) as i64,
            y: pixel_floor(min3(t.p1.y as int, t.p2.y as int, t.p3.y as int)) as i64,
        },
        bottom_right: Pixel {
            x: pixel_ceil(max3(t.p1.x as int, t.p2.x as int, t.p3.x as int)) as i64,
            y: pixel_ceil(max3(t.p1.y as int, t.p2.y as int, t.p3.y as int)) as i64,
        },
    }
}

fn floor_px(v: i32) -> (r: i64)
    ensures
        r == pixel_floor(v as int),
        -8388608 <= r <= 8388607,
{
    let s = (v as i64 + 2147483648) as u64;
    assert(s as int / 256 == v as int / 256 + 8388608);
    (s / 256) as i64 - 8388608
}

fn ceil_px(v: i32) -> (r: i64)
    ensures
        r == pixel_ceil(v as int),
        -8388608 <= r <= 8388608,
{
    let s = (v as i64 + 2147483648 + 255) as u64;
    assert(s as int / 256 == (v as int + 255) / 256 + 8388608);
    (s / 256) as i64 - 8388608
}

fn min3_exec(a: i32, b: i32, c: i32) -> (r: i32)
    ensures
        r == min3(a as int, b as int, c as int),
{
    if a <= b && a <= c {
        a
    } else if b <= c {
        b
    } else {
        c
    }
}

fn max3_exec(a: i32, b: i32, c: i32) -> (r: i32)
    ensures
        r == max3(a as int, b as int, c as int),
{
    if a >= b && a >= c {
        a
    } else if b >= c {
        b
    } else {
        c
    }
}

pub(crate) proof fn lemma_mul_bound(a: int, b: int, ba: int, bb: int)
    requires
        -ba <= a <= ba,
        -bb <= b <= bb,
    ensures
        -(ba * bb) <= a * b <= ba * bb,
{
    assert(-(ba * bb) <= a * b <= ba * bb) by (nonlinear_arith)
        requires
            -ba <= a <= ba,
            -bb <= b <= bb,
    ;
}

impl Triangle {
    pub fn new(p1: Point, p2: Point, p3: Point) -> (t: Triangle)
        ensures
            t.p1 == p1,
            t.p2 == p2,
            t.p3 == p3,
    {
        Triangle { p1, p2, p3 }
    }

    /// Whether the three vertices are collinear, so that no weights exist.
    pub fn is_degenerate(&self) -> (r: bool)
        ensures
            r == (denom(*self) == 0),
    {
        self.denominator() == 0
    }

    fn denominator(&self) -> (d: i128)
        ensures
            d == denom(*self),
            -0x20000000000000000 <= d <= 0x20000000000000000,
    {
        let x1 = self.p1.x as i128;
        let y1 = self.p1.y as i128;
        let x2 = self.p2.x as i128;
        let y2 = self.p2.y as i128;
        let x3 = self.p3.x as i128;
        let y3 = self.p3.y as i128;
        proof {
            lemma_mul_bound(y2 - y3, x1 - x3, 0x100000000, 0x100000000);
            lemma_mul_bound(x3 - x2, y1 - y3, 0x100000000, 0x100000000);
        }
        (y2 - y3) * (x1 - x3) + (x3 - x2) * (y1 - y3)
    }

    /// The barycentric weights of the fixed-point position `(x, y)`, or `None`
    /// for a degenerate triangle.
    pub fn barycentric(&self, x: i64, y: i64) -> (r: Option<Barycentric>)
        ensures
            r is None <==> denom(*self) == 0,
            r matches Some(b) ==> (b.w1 as int, b.w2 as int, b.w3 as int, b.total as int) == weights(*self, x as int, y as int),
            r matches Some(b) ==> -0x4000000000000000000000000 <= b.w1 <= 0x4000000000000000000000000,
            r matches Some(b) ==> -0x4000000000000000000000000 <= b.w2 <= 0x4000000000000000000000000,
            r matches Some(b) ==> -0x10000000000000000000000000 <= b.w3 <= 0x10000000000000000000000000,
            r matches Some(b) ==> 0 < b.total <= 0x20000000000000000,
    {
        let d = self.denominator();
        if d == 0 {
            return None;
        }
        let x1 = self.p1.x as i128;
        let y1 = self.p1.y as i128;
        let x2 = self.p2.x as i128;
        let y2 = self.p2.y as i128;
        let x3 = self.p3.x as i128;
        let y3 = self.p3.y as i128;
        let xr = x as i128 - x3;
        let yr = y as i128 - y3;
        proof {
            lemma_mul_bound(y2 - y3, xr as int, 0x100000000, 0x10000000000000000);
            lemma_mul_bound(x3 - x2, yr as int, 0x100000000, 0x10000000000000000);
            lemma_mul_bound(y3 - y1, xr as int, 0x100000000, 0x10000000000000000);
            lemma_mul_bound(x1 - x3, yr as int, 0x100000000, 0x10000000000000000);
        }
        let n1 = (y2 - y3) * xr + (x3 - x2) * yr;
        let n2 = (y3 - y1) * xr + (x1 - x3) * yr;
        let (w1, w2, total) = if d < 0 {
            (-n1, -n2, -d)
        } else {
            (n1, n2, d)
        };
        Some(Barycentric { w1, w2, w3: total - w1 - w2, total })
    }

    /// The pixel box that bounds the triangle.
    pub fn aabb(&self) -> (r: Aabb)
        ensures
            r == aabb_of(*self),
    {
        let min_x = min3_exec(self.p1.x, self.p2.x, self.p3.x);
        let min_y = min3_exec(self.p1.y, self.p2.y, self.p3.y);
        let max_x = max3_exec(self.p1.x, self.p2.x, self.p3.x);
        let max_y = max3_exec(self.p1.y, self.p2.y, self.p3.y);
        Aabb {
            top_left: Pixel { x: floor_px(min_x), y: floor_px(min_y) },
            bottom_right: Pixel { x: ceil_px(max_x), y: ceil_px(max_y) },
        }
    }
}

proof fn lemma_scaled_numerator(
    e1: int,
    e2: int,
    u: int,
    v: int,
    p: int,
    q: int,
    r: int,
    w: int,
    s: int,
    a1: int,
    a2: int,
)
    requires
        s * u == a1 * p + a2 * q,
        s * v == a1 * r + a2 * w,
    ensures
        (e1 * u + e2 * v) * s == a1 * (e1 * p + e2 * r) + a2 * (e1 * q + e2 * w),
{
    assert((e1 * u + e2 * v) * s == e1 * (s * u) + e2 * (s * v)) by (nonlinear_arith);
    assert(e1 * (s * u) == e1 * (a1 * p + a2 * q));
    assert(e2 * (s * v) == e2 * (a1 * r + a2 * w));
    assert(e1 * (a1 * p + a2 * q) == a1 * (e1 * p) + a2 * (e1 * q)) by (nonlinear_arith);
    assert(e2 * (a1 * r + a2 * w) == a1 * (e2 * r) + a2 * (e2 * w)) by (nonlinear_arith);
    assert(a1 * (e1 * p + e2 * r) == a1 * (e1 * p) + a1 * (e2 * r)) by (nonlinear_arith);
    assert(a2 * (e1 * q + e2 * w) == a2 * (e1 * q) + a2 * (e2 * w)) by (nonlinear_arith);
}

/// A point that is a convex combination `(a1 p1 + a2 p2 + a3 p3) / (a1 + a2 + a3)`
/// with positive coefficients has the weights `ai / (a1 + a2 + a3)`: each lies
/// strictly between zero and one, and together they sum to one.
pub proof fn lemma_barycentric_interior(t: Triangle, x: int, y: int, a1: int, a2: int, a3: int)
    requires
        denom(t) != 0,
        a1 > 0,
        a2 > 0,
        a3 > 0,
        (a1 + a2 + a3) * x == a1 * t.p1.x + a2 * t.p2.x + a3 * t.p3.x,
        (a1 + a2 + a3) * y == a1 * t.p1.y + a2 * t.p2.y + a3 * t.p3.y,
    ensures
        ({
            let (w1, w2, w3, total) = weights(t, x, y);
            &&& w1 * (a1 + a2 + a3) == a1 * total
            &&& w2 * (a1 + a2 + a3) == a2 * total
            &&& w3 * (a1 + a2 + a3) == a3 * total
            &&& 0 < w1 < total
            &&& 0 < w2 < total
            &&& 0 < w3 < total
            &&& w1 + w2 + w3 == total
        }),
{
    let s = a1 + a2 + a3;
    let (x1, y1, x2, y2, x3, y3) = (
        t.p1.x as int,
        t.p1.y as int,
        t.p2.x as int,
        t.p2.y as int,
        t.p3.x as int,
        t.p3.y as int,
    );
    let d = denom(t);
    assert(s * (x - x3) == a1 * (x1 - x3) + a2 * (x2 - x3)) by (nonlinear_arith)
        requires
            s == a1 + a2 + a3,
            s * x == a1 * x1 + a2 * x2 + a3 * x3,
    ;
    assert(s * (y - y3) == a1 * (y1 - y3) + a2 * (y2 - y3)) by (nonlinear_arith)
        requires
            s == a1 + a2 + a3,
            s * y == a1 * y1 + a2 * y2 + a3 * y3,
    ;
    let n1 = num1(t, x, y);
    let n2 = num2(t, x, y);
    lemma_scaled_numerator(y2 - y3, x3 - x2, x - x3, y - y3, x1 - x3, x2 - x3, y1 - y3, y2 - y3, s, a1, a2);
    lemma_scaled_numerator(y3 - y1, x1 - x3, x - x3, y - y3, x1 - x3, x2 - x3, y1 - y3, y2 - y3, s, a1, a2);
    assert((y2 - y3) * (x2 - x3) + (x3 - x2) * (y2 - y3) == 0) by (nonlinear_arith);
    assert((y3 - y1) * (x1 - x3) + (x1 - x3) * (y1 - y3) == 0) by (nonlinear_arith);
    assert((y3 - y1) * (x2 - x3) + (x1 - x3) * (y2 - y3) == d) by (nonlinear_arith)
        requires
            d == (y2 - y3) * (x1 - x3) + (x3 - x2) * (y1 - y3),
    ;
    assert(n1 * s == a1 * d);
    assert(n2 * s == a2 * d);
    let (w1, w2, w3, total) = weights(t, x, y);
    let g = sign(d);
    assert(total == g * d);
    assert(w1 * s == a1 * total) by (nonlinear_arith)
        requires
            w1 == g * n1,
            total == g * d,
            n1 * s == a1 * d,
    ;
    assert(w2 * s == a2 * total) by (nonlinear_arith)
        requires
            w2 == g * n2,
            total == g * d,
            n2 * s == a2 * d,
    ;
    assert(w3 * s == a3 * total) by (nonlinear_arith)
        requires
            w3 == total - w1 - w2,
            w1 * s == a1 * total,
            w2 * s == a2 * total,
            s == a1 + a2 + a3,
    ;
    assert(0 < w1 < total && 0 < w2 < total && 0 < w3 < total) by (nonlinear_arith)
        requires
            w1 * s == a1 * total,
            w2 * s == a2 * total,
            w3 * s == a3 * total,
            s == a1 + a2 + a3,
            a1 > 0,
            a2 > 0,
            a3 > 0,
            total > 0,
    ;
}

/// At its own vertices the weights are `(1, 0, 0)`, `(0, 1, 0)` and `(0, 0, 1)`.
pub proof fn lemma_barycentric_at_vertices(t: Triangle)
    requires
        denom(t) != 0,
    ensures
        ({
            let (w1, w2, w3, total) = weights(t, t.p1.x as int, t.p1.y as int);
            w1 == total && w2 == 0 && w3 == 0
        }),
        ({
            let (w1, w2, w3, total) = weights(t, t.p2.x as int, t.p2.y as int);
            w1 == 0 && w2 == total && w3 == 0
        }),
        ({
            let (w1, w2, w3, total) = weights(t, t.p3.x as int, t.p3.y as int);
            w1 == 0 && w2 == 0 && w3 == total
        }),
{
    let (x1, y1, x2, y2, x3, y3) = (
        t.p1.x as int,
        t.p1.y as int,
        t.p2.x as int,
        t.p2.y as int,
        t.p3.x as int,
        t.p3.y as int,
    );
    let d = denom(t);
    assert((y3 - y1) * (x1 - x3) + (x1 - x3) * (y1 - y3) == 0) by (nonlinear_arith);
    assert((y2 - y3) * (x2 - x3) + (x3 - x2) * (y2 - y3) == 0) by (nonlinear_arith);
    assert((y3 - y1) * (x2 - x3) + (x1 - x3) * (y2 - y3) == d) by (nonlinear_arith)
        requires
            d == (y2 - y3) * (x1 - x3) + (x3 - x2) * (y1 - y3),
    ;
    assert((y2 - y3) * (x3 - x3) + (x3 - x2) * (y3 - y3) == 0) by (nonlinear_arith);
    assert((y3 - y1) * (x3 - x3) + (x1 - x3) * (y3 - y3) == 0) by (nonlinear_arith);
    assert(num1(t, x1, y1) == d);
    assert(num2(t, x1, y1) == 0);
    assert(num1(t, x2, y2) == 0);
    assert(num2(t, x2, y2) == d);
    assert(num1(t, x3, y3) == 0);
    assert(num2(t, x3, y3) == 0);
}

/// The box holds every vertex, and no smaller box of whole pixels does: each
/// side touches a vertex within one pixel.
pub proof fn lemma_aabb_tight(t: Triangle)
    ensures
        ({
            let b = aabb_of(t);
            let s = SUBPIXEL as int;
            &&& b.top_left.x * s <= t.p1.x && b.top_left.x * s <= t.p2.x && b.top_left.x * s <= t.p3.x
            &&& b.top_left.y * s <= t.p1.y && b.top_left.y * s <= t.p2.y && b.top_left.y * s <= t.p3.y
            &&& t.p1.x <= b.bottom_right.x * s && t.p2.x <= b.bottom_right.x * s && t.p3.x <= b.bottom_right.x * s
            &&& t.p1.y <= b.bottom_right.y * s && t.p2.y <= b.bottom_right.y * s && t.p3.y <= b.bottom_right.y * s
            &&& min3(t.p1.x as int, t.p2.x as int, t.p3.x as int) < (b.top_left.x + 1) * s
            &&& min3(t.p1.y as int, t.p2.y as int, t.p3.y as int) < (b.top_left.y + 1) * s
            &&& (b.bottom_right.x - 1) * s < max3(t.p1.x as int, t.p2.x as int, t.p3.x as int)
            &&& (b.bottom_right.y - 1) * s < max3(t.p1.y as int, t.p2.y as int, t.p3.y as int)
        }),
{
    let minx = min3(t.p1.x as int, t.p2.x as int, t.p3.x as int);
    let miny = min3(t.p1.y as int, t.p2.y as int, t.p3.y as int);
    let maxx = max3(t.p1.x as int, t.p2.x as int, t.p3.x as int);
    let maxy = max3(t.p1.y as int, t.p2.y as int, t.p3.y as int);
    assert(pixel_floor(minx) * 256 <= minx < (pixel_floor(minx) + 1) * 256);
    assert(pixel_floor(miny) * 256 <= miny < (pixel_floor(miny) + 1) * 256);
    assert((pixel_ceil(maxx) - 1) * 256 < maxx <= pixel_ceil(maxx) * 256);
    assert((pixel_ceil(maxy) - 1) * 256 < maxy <= pixel_ceil(maxy) * 256);
    assert(-8388608 <= pixel_floor(minx) <= 8388608);
    assert(-8388608 <= pixel_floor(miny) <= 8388608);
    assert(-8388608 <= pixel_ceil(maxx) <= 8388608);
    assert(-8388608 <= pixel_ceil(maxy) <= 8388608);
}

} // verus!
