use vstd::prelude::*;

verus! {

/// The parts that a world unit is divided into. Positions, sizes, ranges
/// and steps count parts, and speeds count parts per second.
pub const UNIT: u32 = 1000;

/// A point of the plane.
#[derive(Clone, Copy, Debug, PartialEq, Eq, Structural)]
pub struct Position {
    pub x: i32,
    pub y: i32,
}

/// Width and height of a bounding box centred on its owner's position.
#[derive(Clone, Copy, Debug, PartialEq, Eq, Structural)]
pub struct Size {
    pub width: u32,
    pub height: u32,
}

/// Square of the Euclidean distance between two points.
pub open spec fn dist_sq(a: Position, b: Position) -> int {
    (a.x - b.x) * (a.x - b.x) + (a.y - b.y) * (a.y - b.y)
}

/// The Euclidean distance between `a` and `b` is at most `range`.
pub open spec fn within(a: Position, b: Position, range: u32) -> bool {
    dist_sq(a, b) <= range * range
}

/// `r` is the whole part of the square root of `n`.
pub open spec fn is_sqrt_floor(n: int, r: int) -> bool {
    0 <= r && r * r <= n < (r + 1) * (r + 1)
}

/// The whole part of the square root of `n`.
pub open spec fn sqrt_floor(n: int) -> int {
    choose|r: int| is_sqrt_floor(n, r)
}

/// Squaring keeps the order of the naturals.
pub proof fn lemma_square_monotone(a: int, b: int)
    requires
        0 <= a <= b,
    ensures
        a * a <= b * b,
{
    assert(a * a <= b * b) by (nonlinear_arith)
        requires
            0 <= a <= b,
    ;
}

/// A number has one whole square root only.
pub proof fn lemma_sqrt_floor_unique(n: int, r: int)
    requires
        is_sqrt_floor(n, r),
    ensures
        sqrt_floor(n) == r,
{
    let s = sqrt_floor(n);
    assert(is_sqrt_floor(n, s));
    if s < r {
        lemma_square_monotone(s + 1, r);
    } else if r < s {
        lemma_square_monotone(r + 1, s);
    }
}

/// The distance that an entity of `speed` covers in `delta` microseconds,
/// in whole parts, never more than the plane is wide.
pub open spec fn step_length(speed: u32, delta: u64) -> int {
    let whole = (speed * delta) / 1_000_000;
    if whole <= u32::MAX {
        whole
    } else {
        u32::MAX as int
    }
}

/// How far a step of length `step` along the direction `(d, other)` carries
/// on the axis of `d`: the whole part of `|d| * step / len`, with the sign of
/// `d`, where `len` is the Euclidean length of the direction. A direction of
/// length zero carries nowhere.
pub open spec fn shift_along(d: int, other: int, step: int) -> int {
    if d == 0 && other == 0 {
        0
    } else {
        let m = sqrt_floor((d * d * step * step) / (d * d + other * other));
        if d < 0 {
            -m
        } else {
            m
        }
    }
}

/// `v`, held inside the range of a coordinate.
pub open spec fn clamp_coord(v: int) -> int {
    if v < i32::MIN {
        i32::MIN as int
    } else if v > i32::MAX {
        i32::MAX as int
    } else {
        v
    }
}

/// The point reached from `from` by a step of length `step` along the
/// direction `(dx, dy)`.
pub open spec fn displaced(from: Position, dx: int, dy: int, step: int) -> Position {
    Position {
        x: clamp_coord(from.x + shift_along(dx, dy, step)) as i32,
        y: clamp_coord(from.y + shift_along(dy, dx, step)) as i32,
    }
}

/// The point reached from `from` by a step of length `step` towards `to`.
pub open spec fn moved_toward(from: Position, to: Position, step: int) -> Position {
    displaced(from, to.x - from.x, to.y - from.y, step)
}

/// Two boxes, each centred on its position, overlap on both axes. Boxes that
/// only touch do not overlap.
pub open spec fn boxes_overlap(a: Position, a_size: Size, b: Position, b_size: Size) -> bool {
    &&& 2 * a.x - a_size.width < 2 * b.x + b_size.width
    &&& 2 * a.x + a_size.width > 2 * b.x - b_size.width
    &&& 2 * a.y - a_size.height < 2 * b.y + b_size.height
    &&& 2 * a.y + a_size.height > 2 * b.y - b_size.height
}

/// Absolute value of a coordinate difference.
fn magnitude(d: i64) -> (m: u64)
    requires
        -0x1_0000_0000 < d < 0x1_0000_0000,
    ensures
        m == if d < 0 { -d } else { d as int },
        m < 0x1_0000_0000,
{
    if d < 0 {
        (-d) as u64
    } else {
        d as u64
    }
}

/// Square of a coordinate difference.
fn square(d: i64) -> (s: u128)
    requires
        -0x1_0000_0000 < d < 0x1_0000_0000,
    ensures
        s == d * d,
        s <= 0xFFFF_FFFF * 0xFFFF_FFFF,
{
    let m: u64 = magnitude(d);
    assert(m * m == d * d) by (nonlinear_arith)
        requires
            m == if d < 0 { -d } else { d as int },
    ;
    assert(m * m <= 0xFFFF_FFFF * 0xFFFF_FFFF) by (nonlinear_arith)
        requires
            0 <= m <= 0xFFFF_FFFF,
    ;
    (m as u128) * (m as u128)
}

impl Position {
    pub fn new(x: i32, y: i32) -> (p: Self)
        ensures
            p == (Position { x, y }),
    {
        Position { x, y }
    }

    /// Square of the Euclidean distance to `other`.
    pub fn distance_squared(&self, other: &Position) -> (r: u128)
        ensures
            r == dist_sq(*self, *other),
    {
        let dx: i64 = self.x as i64 - other.x as i64;
        let dy: i64 = self.y as i64 - other.y as i64;
        square(dx) + square(dy)
    }

    /// Whether `other` lies within `range` of this point, the border included.
    pub fn is_within(&self, other: &Position, range: u32) -> (r: bool)
        ensures
            r == within(*self, *other, range),
    {
        assert(range * range <= 0xFFFF_FFFF * 0xFFFF_FFFF) by (nonlinear_arith)
            requires
                0 <= range <= 0xFFFF_FFFF,
        ;
        let limit: u128 = (range as u128) * (range as u128);
        self.distance_squared(other) <= limit
    }

    /// The point reached by a step of length `step` along `(dx, dy)`.
    pub fn displace(&self, dx: i64, dy: i64, step: u32) -> (p: Position)
        requires
            -0x1_0000_0000 < dx < 0x1_0000_0000,
            -0x1_0000_0000 < dy < 0x1_0000_0000,
        ensures
            p == displaced(*self, dx as int, dy as int, step as int),
    {
        Position {
            x: clamp_to_coord(self.x as i128 + shift(dx, dy, step)),
            y: clamp_to_coord(self.y as i128 + shift(dy, dx, step)),
        }
    }

    /// The point reached by a step of length `step` towards `to`.
    pub fn step_toward(&self, to: &Position, step: u32) -> (p: Position)
        ensures
            p == moved_toward(*self, *to, step as int),
    {
        let dx: i64 = to.x as i64 - self.x as i64;
        let dy: i64 = to.y as i64 - self.y as i64;
        self.displace(dx, dy, step)
    }
}

/// Whether two centred boxes overlap.
pub fn collide(a: &Position, a_size: &Size, b: &Position, b_size: &Size) -> (hit: bool)
    ensures
        hit == boxes_overlap(*a, *a_size, *b, *b_size),
{
    let ax: i64 = 2 * (a.x as i64);
    let ay: i64 = 2 * (a.y as i64);
    let bx: i64 = 2 * (b.x as i64);
    let by: i64 = 2 * (b.y as i64);
    let aw: i64 = a_size.width as i64;
    let ah: i64 = a_size.height as i64;
    let bw: i64 = b_size.width as i64;
    let bh: i64 = b_size.height as i64;
    ax - aw < bx + bw && ax + aw > bx - bw && ay - ah < by + bh && ay + ah > by - bh
}

/// The distance covered at `speed` in `delta` microseconds.
pub fn step_for(speed: u32, delta: u64) -> (step: u32)
    ensures
        step == step_length(speed, delta),
{
    assert(speed * delta <= 0xFFFF_FFFF * 0xFFFF_FFFF_FFFF_FFFF) by (nonlinear_arith)
        requires
            0 <= speed <= 0xFFFF_FFFF,
            0 <= delta <= 0xFFFF_FFFF_FFFF_FFFF,
    ;
    let whole: u128 = ((speed as u128) * (delta as u128)) / 1_000_000;
    if whole <= u32::MAX as u128 {
        whole as u32
    } else {
        u32::MAX
    }
}

/// The whole part of the square root of `n`.
pub fn isqrt(n: u128) -> (r: u64)
    ensures
        r == sqrt_floor(n as int),
        is_sqrt_floor(n as int, r as int),
{
    let mut lo: u128 = 0;
    let mut hi: u128 = 0x1_0000_0000_0000_0000;
    assert(0x1_0000_0000_0000_0000 * 0x1_0000_0000_0000_0000 > u128::MAX) by (nonlinear_arith);
    while hi - lo > 1
        invariant
            lo < hi <= 0x1_0000_0000_0000_0000,
            lo * lo <= n < hi * hi,
        decreases hi - lo,
    {
        let mid: u128 = lo + (hi - lo) / 2;
        assert(mid * mid <= 0xFFFF_FFFF_FFFF_FFFF * 0xFFFF_FFFF_FFFF_FFFF) by (nonlinear_arith)
            requires
                0 <= mid <= 0xFFFF_FFFF_FFFF_FFFF,
        ;
        if mid * mid <= n {
            lo = mid;
        } else {
            hi = mid;
        }
    }
    proof {
        lemma_sqrt_floor_unique(n as int, lo as int);
    }
    lo as u64
}

fn clamp_to_coord(v: i128) -> (c: i32)
    ensures
        c == clamp_coord(v as int),
{
    if v < i32::MIN as i128 {
        i32::MIN
    } else if v > i32::MAX as i128 {
        i32::MAX
    } else {
        v as i32
    }
}

/// `shift_along`, computed.
fn shift(d: i64, other: i64, step: u32) -> (s: i128)
    requires
        -0x1_0000_0000 < d < 0x1_0000_0000,
        -0x1_0000_0000 < other < 0x1_0000_0000,
    ensures
        s == shift_along(d as int, other as int, step as int),
        -0x1_0000_0000_0000_0000 < s < 0x1_0000_0000_0000_0000,
{
    if d == 0 && other == 0 {
        return 0;
    }
    let dd: u128 = square(d);
    let oo: u128 = square(other);
    assert(step * step <= 0xFFFF_FFFF * 0xFFFF_FFFF) by (nonlinear_arith)
        requires
            0 <= step <= 0xFFFF_FFFF,
    ;
    let ss: u128 = (step as u128) * (step as u128);
    assert(dd * ss <= (0xFFFF_FFFF * 0xFFFF_FFFF) * (0xFFFF_FFFF * 0xFFFF_FFFF))
        by (nonlinear_arith)
        requires
            0 <= dd <= 0xFFFF_FFFF * 0xFFFF_FFFF,
            0 <= ss <= 0xFFFF_FFFF * 0xFFFF_FFFF,
    ;
    assert(dd + oo > 0) by (nonlinear_arith)
        requires
            dd == d * d,
            oo == other * other,
            d != 0 || other != 0,
    ;
    assert(dd * ss == d * d * step * step) by (nonlinear_arith)
        requires
            dd == d * d,
            ss == step * step,
    ;
    let m: u64 = isqrt((dd * ss) / (dd + oo));
    if d < 0 {
        -(m as i128)
    } else {
        m as i128
    }
}

} // verus!
