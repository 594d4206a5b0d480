//! Bread fall integration and duck/bread box overlap.
//!
//! Lengths are thousandths of a world unit, times are milliseconds.
use vstd::prelude::*;

verus! {

/// Height, in thousandths of a unit, below which bread never falls.
pub const BREAD_FLOOR: i32 = 100;

/// Height from which bread is dropped (10 units).
pub const DROP_HEIGHT: i32 = 10_000;

/// Half-extent of a duck's box on each axis (0.5 units).
pub const DUCK_HALF_EXTENT: i32 = 500;

/// Half-extent of a bread item's box on each axis (0.2 units).
pub const BREAD_HALF_EXTENT: i32 = 200;

/// A step of this many milliseconds or more drops any bread to the floor.
pub const LONG_STEP_MS: u64 = 1_000_000;

/// A point in the arena, in thousandths of a unit.
#[derive(Clone, Copy, Debug, PartialEq, Eq, Structural)]
pub struct Vec3 {
    pub x: i32,
    pub y: i32,
    pub z: i32,
}

/// `r` is the integer square root of `n`.
pub open spec fn is_sqrt_floor(n: int, r: int) -> bool {
    0 <= r && r * r <= n && n < (r + 1) * (r + 1)
}

/// The integer square root of `n`.
pub open spec fn sqrt_floor(n: int) -> int {
    choose|r: int| is_sqrt_floor(n, r)
}

proof fn lemma_sqrt_unique(n: int, a: int, b: int)
    requires
        is_sqrt_floor(n, a),
        is_sqrt_floor(n, b),
    ensures
        a == b,
{
    if a < b {
        assert((a + 1) * (a + 1) <= b * b) by (nonlinear_arith)
            requires
                0 <= a < b,
        ;
    } else if b < a {
        assert((b + 1) * (b + 1) <= a * a) by (nonlinear_arith)
            requires
                0 <= b < a,
        ;
    }
}

/// Integer square root, by bisection.
pub fn isqrt(n: u64) -> (r: u64)
    requires
        n < 0x10_0000_0000_0000,
    ensures
        is_sqrt_floor(n as int, r as int),
        r as int == sqrt_floor(n as int),
{
    let mut lo: u64 = 0;
    let mut hi: u64 = 0x400_0000;
    assert(0x400_0000 * 0x400_0000 == 0x10_0000_0000_0000) by (nonlinear_arith);
    while hi - lo > 1
        invariant
            lo < hi <= 0x400_0000,
            lo * lo <= n,
            n < hi * hi,
        decreases hi - lo,
    {
        let mid: u64 = lo + (hi - lo) / 2;
        assert(mid * mid <= 0x400_0000 * 0x400_0000) by (nonlinear_arith)
            requires
                mid <= 0x400_0000,
        ;
        if mid * mid <= n {
            lo = mid;
        } else {
            hi = mid;
        }
    }
    assert(hi == lo + 1);
    proof {
        lemma_sqrt_unique(n as int, lo as int, sqrt_floor(n as int));
    }
    lo
}

/// How far a bread item at height `y` falls during `dt` milliseconds.
///
/// The fall speed is rebuilt from the distance already fallen from the drop
/// height under gravity 5 units/s², `v = sqrt(|2 g (10 - y)|)`, and the step
/// is `v dt + g dt² / 2`: in thousandths, `sqrt(|10000 - y| 10⁶) dt / 10⁴`
/// plus `dt² / 400`.
pub open spec fn fall_distance(y: int, dt: int) -> int {
    let d = if y <= DROP_HEIGHT { DROP_HEIGHT - y } else { y - DROP_HEIGHT };
    sqrt_floor(d * 1_000_000) * dt / 10_000 + dt * dt / 400
}

/// The height of a bread item after one step.
pub open spec fn fallen_height(y: int, dt: int) -> int {
    let h = y - fall_distance(y, dt);
    if h < BREAD_FLOOR {
        BREAD_FLOOR as int
    } else {
        h
    }
}

/// Advances one bread item's height by `dt_ms`, never below the floor.
pub fn fall_step(y: i32, dt_ms: u64) -> (r: i32)
    ensures
        r == fallen_height(y as int, dt_ms as int),
        r >= BREAD_FLOOR,
        r <= y || r == BREAD_FLOOR,
{
    let d: u64 = if y <= DROP_HEIGHT {
        (DROP_HEIGHT as i64 - y as i64) as u64
    } else {
        (y as i64 - DROP_HEIGHT as i64) as u64
    };
    let s = isqrt(d * 1_000_000);
    if dt_ms >= LONG_STEP_MS {
        proof {
            let t = dt_ms as int;
            assert(t * t >= LONG_STEP_MS * LONG_STEP_MS) by (nonlinear_arith)
                requires
                    t >= LONG_STEP_MS,
            ;
            assert(s as int * t >= 0) by (nonlinear_arith)
                requires
                    s >= 0,
                    t >= 0,
            ;
        }
        return BREAD_FLOOR;
    }
    assert(s * s <= d * 1_000_000);
    assert(s <= 0x400_0000) by (nonlinear_arith)
        requires
            s * s <= d * 1_000_000,
            d * 1_000_000 < 0x10_0000_0000_0000,
    ;
    assert(s * dt_ms <= 0x400_0000 * 1_000_000) by (nonlinear_arith)
        requires
            s <= 0x400_0000,
            dt_ms < 1_000_000,
    ;
    assert(dt_ms * dt_ms <= 1_000_000 * 1_000_000) by (nonlinear_arith)
        requires
            dt_ms < 1_000_000,
    ;
    let drop: i64 = (s * dt_ms / 10_000 + dt_ms * dt_ms / 400) as i64;
    let h: i64 = y as i64 - drop;
    if h < BREAD_FLOOR as i64 {
        BREAD_FLOOR
    } else {
        h as i32
    }
}

/// The duck's box (centred at `duck`) and the bread's box (centred at `bread`)
/// overlap on all three axes.
pub open spec fn overlaps(duck: Vec3, bread: Vec3) -> bool {
    let reach = DUCK_HALF_EXTENT + BREAD_HALF_EXTENT;
    &&& duck.x - reach <= bread.x && bread.x <= duck.x + reach
    &&& duck.y - reach <= bread.y && bread.y <= duck.y + reach
    &&& duck.z - reach <= bread.z && bread.z <= duck.z + reach
}

/// Whether a duck at `duck` touches a bread item at `bread`.
pub fn intersects(duck: &Vec3, bread: &Vec3) -> (r: bool)
    ensures
        r == overlaps(*duck, *bread),
{
    let reach: i64 = DUCK_HALF_EXTENT as i64 + BREAD_HALF_EXTENT as i64;
    let (dx, dy, dz) = (duck.x as i64, duck.y as i64, duck.z as i64);
    let (bx, by, bz) = (bread.x as i64, bread.y as i64, bread.z as i64);
    dx - reach <= bx && bx <= dx + reach && dy - reach <= by && by <= dy + reach && dz - reach
        <= bz && bz <= dz + reach
}

/// The bread items that a duck at `duck` does not touch.
pub open spec fn untouched(duck: Vec3, breads: Seq<Vec3>) -> Seq<Vec3> {
    breads.filter(|b: Vec3| !overlaps(duck, b))
}

/// The bread items that a duck at `duck` touches.
pub open spec fn touched(duck: Vec3, breads: Seq<Vec3>) -> Seq<Vec3> {
    breads.filter(|b: Vec3| overlaps(duck, b))
}

/// Every item goes to exactly one of the two sides of a filter.
pub proof fn lemma_split_len(duck: Vec3, breads: Seq<Vec3>)
    ensures
        untouched(duck, breads).len() + touched(duck, breads).len() == breads.len(),
    decreases breads.len(),
{
    reveal(Seq::filter);
    if breads.len() > 0 {
        lemma_split_len(duck, breads.drop_last());
    }
}

/// Removes every bread item that a duck at `duck` touches, keeping the order
/// of the others, and returns how many were removed.
pub fn collect_bread(duck: &Vec3, breads: &mut Vec<Vec3>) -> (eaten: usize)
    ensures
        final(breads)@ == untouched(*duck, old(breads)@),
        eaten == touched(*duck, old(breads)@).len(),
        final(breads)@.len() + eaten == old(breads)@.len(),
{
    let ghost all = breads@;
    let mut kept: Vec<Vec3> = Vec::new();
    let mut eaten: usize = 0;
    let mut i: usize = 0;
    while i < breads.len()
        invariant
            breads@ == all,
            0 <= i <= all.len(),
            kept@ == untouched(*duck, all.subrange(0, i as int)),
            eaten == touched(*duck, all.subrange(0, i as int)).len(),
            kept@.len() + eaten == i,
        decreases all.len() - i,
    {
        let b = breads[i];
        proof {
            reveal(Seq::filter);
            assert(all.subrange(0, i + 1).drop_last() == all.subrange(0, i as int));
            assert(all.subrange(0, i + 1).last() == b);
        }
        if intersects(duck, &b) {
            eaten = eaten + 1;
        } else {
            kept.push(b);
        }
        i = i + 1;
    }
    assert(all.subrange(0, all.len() as int) == all);
    *breads = kept;
    eaten
}

} // verus!
