//! Scalar conventions and the basic axis-aligned overlap test.
//!
//! All coordinates are integers in hundredths of a world unit, so the
//! skin width of one hundredth is exactly representable and every
//! computation of the collision core is exact.

use vstd::prelude::*;

verus! {

/// Skin width added along a collision normal after a resolved sweep,
/// in hundredths of a unit.
pub const MARGIN: i64 = 1;

/// Largest magnitude a position coordinate may have; movement clamps
/// resolved positions into this range.
pub const POS_BOUND: i64 = 4_000_000_000_000_000;

/// Largest magnitude a half-extent may have.
pub const EXT_BOUND: i64 = 1_000_000_000_000;

/// Largest magnitude a per-step displacement handed to the swept test
/// may have.
pub const DISP_BOUND: i64 = 2_000_000_000_000;

/// Largest magnitude of a mover's velocity or accumulated external
/// force, in hundredths of a unit per second.
pub const VEL_BOUND: i64 = 50_000_000_000;

/// Largest friction coefficient, in inverse seconds.
pub const FRICTION_BOUND: i64 = 1_000;

/// Largest frame time, in milliseconds.
pub const DT_MAX_MS: u32 = 10_000;

/// Velocities whose squared length is below this snap to zero; it is
/// one unit per second, squared, in hundredths.
pub const SNAP_SQ: i64 = 10_000;

/// A 2D vector of fixed-point coordinates.
#[derive(Clone, Copy, PartialEq, Eq, Structural, Debug)]
pub struct Vec2i {
    pub x: i64,
    pub y: i64,
}

impl Vec2i {
    pub fn new(x: i64, y: i64) -> (r: Vec2i)
        ensures
            r.x == x && r.y == y,
    {
        Vec2i { x, y }
    }

    pub fn zero() -> (r: Vec2i)
        ensures
            r.x == 0 && r.y == 0,
    {
        Vec2i { x: 0, y: 0 }
    }

    /// Both coordinates within `b` in magnitude.
    pub open spec fn bounded(self, b: int) -> bool {
        -b <= self.x <= b && -b <= self.y <= b
    }
}

/// Magnitude of an integer.
pub open spec fn abs(a: int) -> int {
    if a >= 0 {
        a
    } else {
        -a
    }
}

/// Division truncated toward zero, for a positive divisor.
pub open spec fn div_trunc(a: int, b: int) -> int
    recommends
        b > 0,
{
    if a >= 0 {
        a / b
    } else {
        -((-a) / b)
    }
}

/// Truncated division on machine integers. The quotient is computed on
/// magnitudes so that rounding is toward zero for either sign.
pub fn div_trunc_i128(a: i128, b: i128) -> (q: i128)
    requires
        0 < b,
        -0x4000_0000_0000_0000_0000_0000_0000_0000 < a,
    ensures
        q == div_trunc(a as int, b as int),
{
    if a >= 0 {
        let ua: u128 = a as u128;
        let ub: u128 = b as u128;
        let uq: u128 = ua / ub;
        assert(uq == a as int / b as int) by {
            assert(ua == a as int && ub == b as int);
        };
        uq as i128
    } else {
        let ua: u128 = (-a) as u128;
        let ub: u128 = b as u128;
        let uq: u128 = ua / ub;
        assert(uq <= ua) by {
            assert(ua / ub <= ua) by (nonlinear_arith)
                requires
                    ub >= 1,
            ;
        };
        -(uq as i128)
    }
}

/// Product of two machine words, computed in a type wide enough that it
/// never overflows.
pub fn mul64(a: i64, b: i64) -> (r: i128)
    ensures
        r == a as int * b as int,
{
    proof {
        assert(a as int * b as int <= 0x4000_0000_0000_0000_0000_0000_0000_0000
            && a as int * b as int >= -0x4000_0000_0000_0000_0000_0000_0000_0000)
            by (nonlinear_arith)
            requires
                -0x8000_0000_0000_0000 <= a <= 0x7fff_ffff_ffff_ffff,
                -0x8000_0000_0000_0000 <= b <= 0x7fff_ffff_ffff_ffff,
        ;
    }
    (a as i128) * (b as i128)
}

/// `div_trunc` by a positive divisor never enlarges a bound on the
/// quotient: if `abs(a) <= c * b` then `abs(div_trunc(a, b)) <= c`.
pub proof fn lemma_div_trunc_bound(a: int, b: int, c: int)
    requires
        b >= 1,
        0 <= c,
        abs(a) <= c * b,
    ensures
        abs(div_trunc(a, b)) <= c,
{
    assert(c * b == b * c);
    if a >= 0 {
        vstd::arithmetic::div_mod::lemma_div_pos_is_pos(a, b);
        vstd::arithmetic::div_mod::lemma_div_is_ordered(a, b * c, b);
        vstd::arithmetic::div_mod::lemma_div_multiples_vanish(c, b);
        assert(a / b <= c);
    } else {
        vstd::arithmetic::div_mod::lemma_div_pos_is_pos(-a, b);
        vstd::arithmetic::div_mod::lemma_div_is_ordered(-a, b * c, b);
        vstd::arithmetic::div_mod::lemma_div_multiples_vanish(c, b);
        assert((-a) / b <= c);
    }
}

/// Scaling by a fraction in `[0, 1]` never enlarges the magnitude.
pub proof fn lemma_muldiv_bound(v: int, num: int, den: int)
    requires
        den >= 1,
        0 <= num <= den,
    ensures
        abs(div_trunc(v * num, den)) <= abs(v),
{
    assert(abs(v * num) <= abs(v) * den) by (nonlinear_arith)
        requires
            0 <= num <= den,
    ;
    lemma_div_trunc_bound(v * num, den, abs(v));
}

/// One frame of the external-force decay on one coordinate: linear
/// interpolation toward zero by `friction * dt`, reaching zero exactly
/// when the interpolation parameter reaches or passes one. `dt` is in
/// milliseconds, `friction` in inverse seconds.
pub open spec fn spec_decay(ef: int, friction: int, dt: int) -> int {
    if friction * dt >= 1000 {
        0
    } else {
        ef - div_trunc(ef * (friction * dt), 1000)
    }
}

/// Decay never enlarges the magnitude of the force, and never flips
/// its sign.
pub proof fn lemma_decay_bound(ef: int, friction: int, dt: int)
    requires
        0 <= friction,
        0 <= dt,
    ensures
        abs(spec_decay(ef, friction, dt)) <= abs(ef),
{
    let q = friction * dt;
    vstd::arithmetic::mul::lemma_mul_nonnegative(friction, dt);
    if q < 1000 {
        let d = div_trunc(ef * q, 1000);
        assert(abs(ef * q) <= abs(ef) * 1000) by (nonlinear_arith)
            requires
                0 <= q < 1000,
        ;
        lemma_div_trunc_bound(ef * q, 1000, abs(ef));
        if ef >= 0 {
            assert(0 <= ef * q) by (nonlinear_arith)
                requires
                    0 <= q,
                    0 <= ef,
            ;
            vstd::arithmetic::div_mod::lemma_div_pos_is_pos(ef * q, 1000);
        } else {
            assert(0 <= (-ef) * q) by (nonlinear_arith)
                requires
                    0 <= q,
                    ef < 0,
            ;
            assert(-(ef * q) == (-ef) * q) by (nonlinear_arith);
            vstd::arithmetic::div_mod::lemma_div_pos_is_pos((-ef) * q, 1000);
        }
    }
}

/// Truncated multiply-then-divide on machine words: `v * num / den`.
pub fn muldiv64(v: i64, num: i64, den: i64) -> (r: i64)
    requires
        den >= 1,
        0 <= num <= den,
        -DISP_BOUND <= v <= DISP_BOUND,
    ensures
        r == div_trunc(v as int * num as int, den as int),
        abs(r as int) <= abs(v as int),
{
    proof {
        lemma_muldiv_bound(v as int, num as int, den as int);
    }
    let p: i128 = mul64(v, num);
    proof {
        assert(abs(v as int * num as int) <= DISP_BOUND * 0x7fff_ffff_ffff_ffff)
            by (nonlinear_arith)
            requires
                -DISP_BOUND <= v <= DISP_BOUND,
                0 <= num <= 0x7fff_ffff_ffff_ffff,
        ;
    }
    let q: i128 = div_trunc_i128(p, den as i128);
    q as i64
}

/// One coordinate of the external-force decay, on machine words.
pub fn decay64(ef: i64, friction: i64, dt_ms: u32) -> (r: i64)
    requires
        -VEL_BOUND <= ef <= VEL_BOUND,
        0 <= friction <= FRICTION_BOUND,
        dt_ms <= DT_MAX_MS,
    ensures
        r == spec_decay(ef as int, friction as int, dt_ms as int),
        abs(r as int) <= abs(ef as int),
{
    proof {
        lemma_decay_bound(ef as int, friction as int, dt_ms as int);
    }
    let q128: i128 = mul64(friction, dt_ms as i64);
    proof {
        assert(0 <= friction as int * dt_ms as int <= FRICTION_BOUND * DT_MAX_MS)
            by (nonlinear_arith)
            requires
                0 <= friction <= FRICTION_BOUND,
                0 <= dt_ms <= DT_MAX_MS,
        ;
    }
    let q: i64 = q128 as i64;
    if q >= 1000 {
        0
    } else {
        let p: i128 = mul64(ef, q);
        let d: i128 = div_trunc_i128(p, 1000);
        proof {
            assert(abs(ef as int * q as int) <= abs(ef as int) * 1000) by (nonlinear_arith)
                requires
                    0 <= q < 1000,
            ;
            lemma_div_trunc_bound(ef as int * q as int, 1000, abs(ef as int));
        }
        ef - (d as i64)
    }
}

/// A coordinate clamped into the world bound.
pub open spec fn spec_clamp_pos(c: int) -> int {
    if c < -POS_BOUND {
        -POS_BOUND as int
    } else if c > POS_BOUND {
        POS_BOUND as int
    } else {
        c
    }
}

/// One resolved coordinate: the traversable fraction of the
/// displacement, a skin-width bias along the normal, clamped into the
/// world bound.
pub open spec fn spec_apply_coord(p: int, v: int, num: int, den: int, nc: int) -> int {
    spec_clamp_pos(p + div_trunc(v * num, den) + nc * MARGIN)
}

/// One resolved coordinate, on machine words.
pub fn apply_coord(p: i64, v: i64, num: i64, den: i64, nc: i64) -> (r: i64)
    requires
        -POS_BOUND <= p <= POS_BOUND,
        -DISP_BOUND <= v <= DISP_BOUND,
        den >= 1,
        0 <= num <= den,
        -1 <= nc <= 1,
    ensures
        r == spec_apply_coord(p as int, v as int, num as int, den as int, nc as int),
        -POS_BOUND <= r <= POS_BOUND,
{
    let moved: i64 = muldiv64(v, num, den);
    let c: i64 = p + moved + nc * MARGIN;
    if c < -POS_BOUND {
        -POS_BOUND
    } else if c > POS_BOUND {
        POS_BOUND
    } else {
        c
    }
}

/// A velocity coordinate scaled by the frame time: `v * dt / 1000`,
/// truncated toward zero.
pub open spec fn spec_scale_dt(v: int, dt: int) -> int {
    div_trunc(v * dt, 1000)
}

/// One displacement coordinate from a raw velocity and the frame time,
/// on machine words.
pub fn scale_dt64(v: i64, dt_ms: u32) -> (r: i64)
    requires
        -2 * VEL_BOUND <= v <= 2 * VEL_BOUND,
        dt_ms <= DT_MAX_MS,
    ensures
        r == spec_scale_dt(v as int, dt_ms as int),
        -DISP_BOUND <= r <= DISP_BOUND,
{
    let p: i128 = mul64(v, dt_ms as i64);
    proof {
        assert(abs(v as int * dt_ms as int) <= (2 * VEL_BOUND * DT_MAX_MS / 1000) * 1000)
            by (nonlinear_arith)
            requires
                -2 * VEL_BOUND <= v <= 2 * VEL_BOUND,
                0 <= dt_ms <= DT_MAX_MS,
        ;
        lemma_div_trunc_bound(v as int * dt_ms as int, 1000, 2 * VEL_BOUND * DT_MAX_MS / 1000);
    }
    let q: i128 = div_trunc_i128(p, 1000);
    q as i64
}

/// Two boxes, each given by a center and half-extents, overlap; a pair
/// that merely touches counts as overlapping.
pub open spec fn spec_overlaps(p1: Vec2i, e1: Vec2i, p2: Vec2i, e2: Vec2i) -> bool {
    abs(p1.x - p2.x) <= e1.x + e2.x && abs(p1.y - p2.y) <= e1.y + e2.y
}

/// Static box-overlap test; touching boxes count as overlapping.
pub fn overlaps(pos1: &Vec2i, half_e1: &Vec2i, pos2: &Vec2i, half_e2: &Vec2i) -> (r: bool)
    requires
        pos1.bounded(POS_BOUND as int),
        pos2.bounded(POS_BOUND as int),
        half_e1.bounded(EXT_BOUND as int),
        half_e2.bounded(EXT_BOUND as int),
    ensures
        r == spec_overlaps(*pos1, *half_e1, *pos2, *half_e2),
{
    let dx: i64 = if pos1.x >= pos2.x {
        pos1.x - pos2.x
    } else {
        pos2.x - pos1.x
    };
    if dx > half_e1.x + half_e2.x {
        return false;
    }
    let dy: i64 = if pos1.y >= pos2.y {
        pos1.y - pos2.y
    } else {
        pos2.y - pos1.y
    };
    if dy > half_e1.y + half_e2.y {
        return false;
    }
    true
}

/// Overlap of two boxes given by their corner extremes; touching counts.
pub fn overlap_min_max(min1: &Vec2i, max1: &Vec2i, min2: &Vec2i, max2: &Vec2i) -> (r: bool)
    ensures
        r == (min1.x <= max2.x && min2.x <= max1.x && min1.y <= max2.y && min2.y <= max1.y),
{
    if max1.x < min2.x || min1.x > max2.x {
        return false;
    }
    if max1.y < min2.y || min1.y > max2.y {
        return false;
    }
    true
}

/// The static overlap test is symmetric in its two boxes.
pub proof fn lemma_overlaps_symmetric(p1: Vec2i, e1: Vec2i, p2: Vec2i, e2: Vec2i)
    ensures
        spec_overlaps(p1, e1, p2, e2) == spec_overlaps(p2, e2, p1, e1),
{
}

} // verus!
