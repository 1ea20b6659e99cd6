use vstd::prelude::*;

verus! {

/// Largest absolute value of a coordinate on the canvas.
pub const COORD_LIMIT: i64 = 65536;

/// A point of the canvas, in whole canvas units.
#[derive(Clone, Copy, Debug, PartialEq, Eq, Structural)]
pub struct Point {
    pub x: i64,
    pub y: i64,
}

impl Point {
    pub open spec fn in_bounds(self) -> bool {
        -COORD_LIMIT <= self.x <= COORD_LIMIT && -COORD_LIMIT <= self.y <= COORD_LIMIT
    }
}

/// Squared euclidean distance between two points.
pub open spec fn dist2_spec(a: Point, b: Point) -> int {
    (a.x - b.x) * (a.x - b.x) + (a.y - b.y) * (a.y - b.y)
}

pub proof fn lemma_dist2_bound(a: Point, b: Point)
    requires
        a.in_bounds(),
        b.in_bounds(),
    ensures
        0 <= dist2_spec(a, b) <= 0x8_0000_0000,
{
    let dx = a.x - b.x;
    let dy = a.y - b.y;
    assert(0 <= dx * dx <= 0x4_0000_0000) by (nonlinear_arith)
        requires -0x2_0000 <= dx <= 0x2_0000;
    assert(0 <= dy * dy <= 0x4_0000_0000) by (nonlinear_arith)
        requires -0x2_0000 <= dy <= 0x2_0000;
}

pub fn dist2(a: Point, b: Point) -> (r: i64)
    requires
        a.in_bounds(),
        b.in_bounds(),
    ensures
        r == dist2_spec(a, b),
        0 <= r <= 0x8_0000_0000,
{
    let dx = a.x - b.x;
    let dy = a.y - b.y;
    assert(0 <= dx * dx <= 0x4_0000_0000) by (nonlinear_arith)
        requires -0x2_0000 <= dx <= 0x2_0000;
    assert(0 <= dy * dy <= 0x4_0000_0000) by (nonlinear_arith)
        requires -0x2_0000 <= dy <= 0x2_0000;
    dx * dx + dy * dy
}

proof fn lemma_mul_bound(x: int, y: int, a: int, b: int)
    requires
        0 <= a,
        0 <= b,
        -a <= x <= a,
        -b <= y <= b,
    ensures
        -(a * b) <= x * y <= a * b,
{
    assert(-(a * b) <= x * y <= a * b) by (nonlinear_arith)
        requires 0 <= a, 0 <= b, -a <= x <= a, -b <= y <= b;
}

/// Where the projection of `p` on segment `a`–`b` falls, as a fraction
/// `(num, den)` of the way from `a` to `b`, kept `margin / 2` percent away from
/// either end.
pub open spec fn seg_param(p: Point, a: Point, b: Point, margin: u64) -> (int, int) {
    let w = (p.x - a.x) * (b.x - a.x) + (p.y - a.y) * (b.y - a.y);
    let l = dist2_spec(a, b);
    if 200 * w < margin * l {
        (margin as int, 200)
    } else if 200 * w > (200 - margin) * l {
        (200 - margin, 200)
    } else {
        (w, l)
    }
}

/// Squared distance from `p` to that projection, rounded down; from `p` to
/// `a` where the segment is a single point.
pub open spec fn seg_dist2_spec(p: Point, a: Point, b: Point, margin: u64) -> int {
    if dist2_spec(a, b) == 0 {
        dist2_spec(a, p)
    } else {
        let (tn, td) = seg_param(p, a, b, margin);
        let ex = td * (a.x - p.x) + tn * (b.x - a.x);
        let ey = td * (a.y - p.y) + tn * (b.y - a.y);
        (ex * ex + ey * ey) / (td * td)
    }
}

/// Squared distance from `p` to segment `a`–`b`, measured to the nearest
/// point that lies at least `margin / 2` percent of the way from either end.
pub fn seg_dist2(p: Point, a: Point, b: Point, margin: u64) -> (r: i128)
    requires
        p.in_bounds(),
        a.in_bounds(),
        b.in_bounds(),
        margin <= 100,
    ensures
        r == seg_dist2_spec(p, a, b, margin),
{
    let l = dist2(a, b);
    if l == 0 {
        return dist2(a, p) as i128;
    }
    let dx = (b.x - a.x) as i128;
    let dy = (b.y - a.y) as i128;
    let px = (p.x - a.x) as i128;
    let py = (p.y - a.y) as i128;
    proof {
        lemma_mul_bound(px as int, dx as int, 0x2_0000, 0x2_0000);
        lemma_mul_bound(py as int, dy as int, 0x2_0000, 0x2_0000);
    }
    let w = px * dx + py * dy;
    let l = l as i128;
    let m = margin as i128;
    proof {
        lemma_mul_bound(m as int, l as int, 100, 0x8_0000_0000);
        lemma_mul_bound((200 - m) as int, l as int, 200, 0x8_0000_0000);
    }
    let tn: i128;
    let td: i128;
    if 200 * w < m * l {
        tn = m;
        td = 200;
    } else if 200 * w > (200 - m) * l {
        tn = 200 - m;
        td = 200;
    } else {
        tn = w;
        td = l;
        assert(0 <= w <= l) by (nonlinear_arith)
            requires 200 * w >= m * l, 200 * w <= (200 - m) * l, 0 <= m <= 100, l > 0;
    }
    assert(0 <= tn <= td <= 0x8_0000_0000);
    let qx = (a.x - p.x) as i128;
    let qy = (a.y - p.y) as i128;
    proof {
        lemma_mul_bound(td as int, qx as int, 0x8_0000_0000, 0x2_0000);
        lemma_mul_bound(tn as int, dx as int, 0x8_0000_0000, 0x2_0000);
        lemma_mul_bound(td as int, qy as int, 0x8_0000_0000, 0x2_0000);
        lemma_mul_bound(tn as int, dy as int, 0x8_0000_0000, 0x2_0000);
    }
    let ex = td * qx + tn * dx;
    let ey = td * qy + tn * dy;
    proof {
        lemma_mul_bound(ex as int, ex as int, 0x20_0000_0000_0000, 0x20_0000_0000_0000);
        lemma_mul_bound(ey as int, ey as int, 0x20_0000_0000_0000, 0x20_0000_0000_0000);
        lemma_mul_bound(td as int, td as int, 0x8_0000_0000, 0x8_0000_0000);
        assert(td * td > 0) by (nonlinear_arith) requires td > 0;
        assert(ex * ex + ey * ey >= 0) by (nonlinear_arith);
        assert(w == (p.x - a.x) * (b.x - a.x) + (p.y - a.y) * (b.y - a.y));
        assert((tn as int, td as int) == seg_param(p, a, b, margin));
    }
    (ex * ex + ey * ey) / (td * td)
}

/// The integer square root of `n`: the `r` with `r * r <= n < (r + 1) * (r + 1)`.
pub open spec fn root(n: int) -> int {
    choose|r: int| is_root(n, r)
}

pub open spec fn is_root(n: int, r: int) -> bool {
    0 <= r && r * r <= n < (r + 1) * (r + 1)
}

proof fn lemma_root_unique(n: int, r: int)
    requires
        0 <= r,
        r * r <= n < (r + 1) * (r + 1),
    ensures
        root(n) == r,
{
    assert(is_root(n, r));
    let q = root(n);
    if q < r {
        assert((q + 1) * (q + 1) <= r * r) by (nonlinear_arith) requires 0 <= q < r;
    } else if q > r {
        assert((r + 1) * (r + 1) <= q * q) by (nonlinear_arith) requires 0 <= r < q;
    }
}

/// Integer square root of `n`, rounded down.
pub fn isqrt(n: u64) -> (r: u64)
    requires
        n <= 0x8_0000_0000,
    ensures
        r == root(n as int),
        r <= 0x4_0000,
{
    let mut lo: u64 = 0;
    let mut hi: u64 = 0x4_0000;
    assert(hi * hi > n) by (nonlinear_arith) requires hi == 0x4_0000, n <= 0x8_0000_0000;
    while hi - lo > 1
        invariant
            lo < hi <= 0x4_0000,
            lo * lo <= n,
            n < hi * hi,
        decreases hi - lo,
    {
        let mid = lo + (hi - lo) / 2;
        assert(mid * mid <= 0x10_0000_0000) by (nonlinear_arith) requires mid <= 0x4_0000;
        if mid * mid <= n {
            lo = mid;
        } else {
            hi = mid;
        }
    }
    proof {
        lemma_root_unique(n as int, lo as int);
    }
    lo
}

/// `k` times `d` over `len`, rounded down: `k` units of a direction `d / len`.
pub open spec fn along(k: int, d: int, len: int) -> int {
    (k * d) / len
}

fn along_exec(k: i64, d: i64, len: i64) -> (r: i64)
    requires
        0 <= k <= 16,
        -0x2_0000 <= d <= 0x2_0000,
        0 < len <= 0x4_0000,
    ensures
        r == along(k as int, d as int, len as int),
        -0x20_0000 <= r <= 0x20_0000,
{
    assert(-0x20_0000 <= k * d <= 0x20_0000) by (nonlinear_arith)
        requires 0 <= k <= 16, -0x2_0000 <= d <= 0x2_0000;
    let p = k * d;
    assert(-0x20_0000 <= p / len <= 0x20_0000) by (nonlinear_arith)
        requires -0x20_0000 <= p <= 0x20_0000, 0 < len;
    if p >= 0 {
        p / len
    } else {
        let q = (-p + len - 1) / len;
        assert(-q == p / len) by (nonlinear_arith)
            requires p < 0, 0 < len, q == (-p + len - 1) / (len as int);
        -q
    }
}

/// The lines of an arrow from one node to another: a shaft that stops a node
/// radius short of both centres, and two barbs back from its tip.
#[derive(Clone, Copy, Debug, PartialEq, Eq, Structural)]
pub struct Arrow {
    pub start: Point,
    pub tip: Point,
    pub left: Point,
    pub right: Point,
}

/// Radius of a node, as drawn and as picked.
pub const NODE_RADIUS: i64 = 14;

/// How far the barbs reach back along the shaft.
pub const BARB_LENGTH: i64 = 14;

/// How far the barbs reach out from the shaft.
pub const BARB_WIDTH: i64 = 5;

/// The arrow from `u` to `v`, with the direction `v - u` scaled to unit
/// length by the integer square root of its squared length; every point at
/// `u` where the two coincide.
pub fn draw_arrow(u: Point, v: Point) -> (r: Arrow)
    requires
        u.in_bounds(),
        v.in_bounds(),
    ensures
        ({
            let dx = v.x - u.x;
            let dy = v.y - u.y;
            let len = root(dist2_spec(u, v));
            if len == 0 {
                r == Arrow { start: u, tip: u, left: u, right: u }
            } else {
                let tx = v.x - along(NODE_RADIUS as int, dx, len);
                let ty = v.y - along(NODE_RADIUS as int, dy, len);
                &&& r.start.x == u.x + along(NODE_RADIUS as int, dx, len)
                &&& r.start.y == u.y + along(NODE_RADIUS as int, dy, len)
                &&& r.tip.x == tx && r.tip.y == ty
                &&& r.left.x == tx - along(BARB_LENGTH as int, dx, len) + along(BARB_WIDTH as int, dy, len)
                &&& r.left.y == ty - along(BARB_LENGTH as int, dy, len) - along(BARB_WIDTH as int, dx, len)
                &&& r.right.x == tx - along(BARB_LENGTH as int, dx, len) - along(BARB_WIDTH as int, dy, len)
                &&& r.right.y == ty - along(BARB_LENGTH as int, dy, len) + along(BARB_WIDTH as int, dx, len)
            }
        }),
{
    let d2 = dist2(u, v);
    let len = isqrt(d2 as u64) as i64;
    if len == 0 {
        return Arrow { start: u, tip: u, left: u, right: u };
    }
    let dx = v.x - u.x;
    let dy = v.y - u.y;
    let ix = along_exec(NODE_RADIUS, dx, len);
    let iy = along_exec(NODE_RADIUS, dy, len);
    let tip = Point { x: v.x - ix, y: v.y - iy };
    let bx = along_exec(BARB_LENGTH, dx, len);
    let by = along_exec(BARB_LENGTH, dy, len);
    let wx = along_exec(BARB_WIDTH, dx, len);
    let wy = along_exec(BARB_WIDTH, dy, len);
    Arrow {
        start: Point { x: u.x + ix, y: u.y + iy },
        tip,
        left: Point { x: tip.x - bx + wy, y: tip.y - by - wx },
        right: Point { x: tip.x - bx - wy, y: tip.y - by + wx },
    }
}

} // verus!
