//! Continuous (swept) collision between a moving box and a stationary
//! box: the time of first contact along a displacement and the face
//! normal struck, computed exactly on fixed-point coordinates.
//!
//! The time of impact is an exact rational `num / den` with
//! `0 <= num <= den` and `den >= 1`; `num == den` means the whole
//! displacement is traversable (`t = 1`), and a result with a zero
//! normal and `num == den == 1` reports that no contact constrains the
//! step at all.

use vstd::prelude::*;
use crate::geom::Vec2i;
use crate::geom::abs;
use crate::geom::mul64;
use crate::geom::DISP_BOUND;
use crate::geom::EXT_BOUND;
use crate::geom::POS_BOUND;

verus! {

/// Outcome of a swept test: a face normal (one of the four axis unit
/// vectors, or zero) and the traversable fraction `num / den`.
#[derive(Clone, Copy, PartialEq, Eq, Structural, Debug)]
pub struct Sweep {
    pub nx: i64,
    pub ny: i64,
    pub num: i64,
    pub den: i64,
}

/// Mathematical counterpart of `Sweep`.
pub ghost struct SweptRes {
    pub nx: int,
    pub ny: int,
    pub num: int,
    pub den: int,
}

impl View for Sweep {
    type V = SweptRes;

    open spec fn view(&self) -> SweptRes {
        SweptRes { nx: self.nx as int, ny: self.ny as int, num: self.num as int, den: self.den as int }
    }
}

/// The outcome that reports an unobstructed step.
pub open spec fn swept_no_hit() -> SweptRes {
    SweptRes { nx: 0, ny: 0, num: 1, den: 1 }
}

/// The two open intervals of an axis intersect; used for axes with no
/// velocity component, where touching does not count.
pub open spec fn open_overlap_axis(p1: int, e1: int, p2: int, e2: int) -> bool {
    p1 - e1 < p2 + e2 && p2 - e2 < p1 + e1
}

/// Signed distance the moving box travels on one axis before its
/// leading face touches the near face of the other box.
pub open spec fn entry_dist(p1: int, e1: int, p2: int, e2: int, v: int) -> int {
    if v > 0 {
        (p2 - e2) - (p1 + e1)
    } else {
        (p2 + e2) - (p1 - e1)
    }
}

/// Signed distance travelled on one axis before the trailing face
/// leaves the far face of the other box.
pub open spec fn exit_dist(p1: int, e1: int, p2: int, e2: int, v: int) -> int {
    if v > 0 {
        (p2 + e2) - (p1 - e1)
    } else {
        (p2 - e2) - (p1 + e1)
    }
}

/// Numerator of a distance-over-velocity time whose denominator is
/// `abs(v)`; the sign of `v` moves into the numerator.
pub open spec fn time_num(d: int, v: int) -> int {
    if v > 0 {
        d
    } else {
        -d
    }
}

/// First contact of box `(x1, y1, w1, h1)` moving by `(vx, vy)` against
/// the stationary box `(x2, y2, w2, h2)`, by the slab method: per-axis
/// entry and exit times as exact rationals, an axis with zero velocity
/// constraining nothing when its slabs already overlap and forbidding
/// contact otherwise; the entry time is the later axis entry, with the
/// x axis winning ties broken strictly, and a contact is rejected when
/// the entry follows an exit, both entries are negative, or either
/// entry exceeds one.
pub open spec fn spec_swept(
    x1: int, y1: int, w1: int, h1: int,
    x2: int, y2: int, w2: int, h2: int,
    vx: int, vy: int,
) -> SweptRes {
    let xo = open_overlap_axis(x1, w1, x2, w2);
    let yo = open_overlap_axis(y1, h1, y2, h2);
    if vx == 0 && !xo {
        swept_no_hit()
    } else if vy == 0 && !yo {
        swept_no_hit()
    } else if vx == 0 && vy == 0 {
        swept_no_hit()
    } else if vx == 0 {
        let yd = entry_dist(y1, h1, y2, h2, vy);
        let yn = time_num(yd, vy);
        let yxn = time_num(exit_dist(y1, h1, y2, h2, vy), vy);
        let dy = abs(vy);
        if yn > yxn || yn < 0 || yn > dy {
            swept_no_hit()
        } else {
            SweptRes { nx: 0, ny: if yd < 0 { 1 } else { -1 }, num: yn, den: dy }
        }
    } else if vy == 0 {
        let xd = entry_dist(x1, w1, x2, w2, vx);
        let xn = time_num(xd, vx);
        let xxn = time_num(exit_dist(x1, w1, x2, w2, vx), vx);
        let dx = abs(vx);
        if xn > xxn || xn < 0 || xn > dx {
            swept_no_hit()
        } else {
            SweptRes { nx: if xd < 0 { 1 } else { -1 }, ny: 0, num: xn, den: dx }
        }
    } else {
        let xd = entry_dist(x1, w1, x2, w2, vx);
        let yd = entry_dist(y1, h1, y2, h2, vy);
        let xn = time_num(xd, vx);
        let yn = time_num(yd, vy);
        let xxn = time_num(exit_dist(x1, w1, x2, w2, vx), vx);
        let yxn = time_num(exit_dist(y1, h1, y2, h2, vy), vy);
        let dx = abs(vx);
        let dy = abs(vy);
        let x_wins = xn * dy > yn * dx;
        let en = if x_wins { xn } else { yn };
        let ed = if x_wins { dx } else { dy };
        let x_exits = xxn * dy < yxn * dx;
        let xn2 = if x_exits { xxn } else { yxn };
        let xd2 = if x_exits { dx } else { dy };
        if en * xd2 > xn2 * ed || (xn < 0 && yn < 0) || xn > dx || yn > dy {
            swept_no_hit()
        } else if x_wins {
            SweptRes { nx: if xd < 0 { 1 } else { -1 }, ny: 0, num: xn, den: dx }
        } else {
            SweptRes { nx: 0, ny: if yd < 0 { 1 } else { -1 }, num: yn, den: dy }
        }
    }
}

/// Shape facts about every swept outcome: the fraction lies in `[0, 1]`
/// with a positive denominator, the normal is a unit axis vector or
/// zero, and a zero normal only reports an unobstructed step.
pub proof fn lemma_swept_wf(
    x1: int, y1: int, w1: int, h1: int,
    x2: int, y2: int, w2: int, h2: int,
    vx: int, vy: int,
)
    ensures
        ({
            let r = spec_swept(x1, y1, w1, h1, x2, y2, w2, h2, vx, vy);
            &&& r.den >= 1
            &&& 0 <= r.num <= r.den
            &&& r.nx * r.ny == 0
            &&& -1 <= r.nx <= 1
            &&& -1 <= r.ny <= 1
            &&& ((r.nx == 0 && r.ny == 0) ==> (r.num == 1 && r.den == 1))
        }),
{
    let r = spec_swept(x1, y1, w1, h1, x2, y2, w2, h2, vx, vy);
    if vx != 0 && vy != 0 {
        let xd = entry_dist(x1, w1, x2, w2, vx);
        let yd = entry_dist(y1, h1, y2, h2, vy);
        let xn = time_num(xd, vx);
        let yn = time_num(yd, vy);
        let dx = abs(vx);
        let dy = abs(vy);
        let x_wins = xn * dy > yn * dx;
        if x_wins && xn < 0 {
            assert(yn * dx < xn * dy && xn < 0 && dx >= 1 && dy >= 1 ==> yn < 0)
                by (nonlinear_arith);
        }
        if !x_wins && yn < 0 {
            assert(!(xn * dy > yn * dx) && yn < 0 && dx >= 1 && dy >= 1 ==> xn < 0)
                by (nonlinear_arith);
        }
    }
}

/// Swept test on machine integers; exact counterpart of `spec_swept`.
pub fn swept_aabb(pos1: &Vec2i, half_e1: &Vec2i, pos2: &Vec2i, half_e2: &Vec2i, vel: &Vec2i) -> (r: Sweep)
    requires
        pos1.bounded(POS_BOUND as int),
        pos2.bounded(POS_BOUND as int),
        half_e1.bounded(EXT_BOUND as int),
        half_e2.bounded(EXT_BOUND as int),
        vel.bounded(DISP_BOUND as int),
    ensures
        r@ == spec_swept(
            pos1.x as int, pos1.y as int, half_e1.x as int, half_e1.y as int,
            pos2.x as int, pos2.y as int, half_e2.x as int, half_e2.y as int,
            vel.x as int, vel.y as int,
        ),
{
    let x1: i64 = pos1.x;
    let y1: i64 = pos1.y;
    let w1: i64 = half_e1.x;
    let h1: i64 = half_e1.y;
    let x2: i64 = pos2.x;
    let y2: i64 = pos2.y;
    let w2: i64 = half_e2.x;
    let h2: i64 = half_e2.y;
    let vx: i64 = vel.x;
    let vy: i64 = vel.y;

    let xo: bool = x1 - w1 < x2 + w2 && x2 - w2 < x1 + w1;
    let yo: bool = y1 - h1 < y2 + h2 && y2 - h2 < y1 + h1;

    if vx == 0 && !xo {
        return Sweep { nx: 0, ny: 0, num: 1, den: 1 };
    }
    if vy == 0 && !yo {
        return Sweep { nx: 0, ny: 0, num: 1, den: 1 };
    }
    if vx == 0 && vy == 0 {
        return Sweep { nx: 0, ny: 0, num: 1, den: 1 };
    }

    if vx == 0 {
        let yd: i64 = if vy > 0 { (y2 - h2) - (y1 + h1) } else { (y2 + h2) - (y1 - h1) };
        let yxd: i64 = if vy > 0 { (y2 + h2) - (y1 - h1) } else { (y2 - h2) - (y1 + h1) };
        let yn: i64 = if vy > 0 { yd } else { -yd };
        let yxn: i64 = if vy > 0 { yxd } else { -yxd };
        let dy: i64 = if vy >= 0 { vy } else { -vy };
        if yn > yxn || yn < 0 || yn > dy {
            return Sweep { nx: 0, ny: 0, num: 1, den: 1 };
        }
        return Sweep { nx: 0, ny: if yd < 0 { 1 } else { -1 }, num: yn, den: dy };
    }
    if vy == 0 {
        let xd: i64 = if vx > 0 { (x2 - w2) - (x1 + w1) } else { (x2 + w2) - (x1 - w1) };
        let xxd: i64 = if vx > 0 { (x2 + w2) - (x1 - w1) } else { (x2 - w2) - (x1 + w1) };
        let xn: i64 = if vx > 0 { xd } else { -xd };
        let xxn: i64 = if vx > 0 { xxd } else { -xxd };
        let dx: i64 = if vx >= 0 { vx } else { -vx };
        if xn > xxn || xn < 0 || xn > dx {
            return Sweep { nx: 0, ny: 0, num: 1, den: 1 };
        }
        return Sweep { nx: if xd < 0 { 1 } else { -1 }, ny: 0, num: xn, den: dx };
    }

    let xd: i64 = if vx > 0 { (x2 - w2) - (x1 + w1) } else { (x2 + w2) - (x1 - w1) };
    let yd: i64 = if vy > 0 { (y2 - h2) - (y1 + h1) } else { (y2 + h2) - (y1 - h1) };
    let xxd: i64 = if vx > 0 { (x2 + w2) - (x1 - w1) } else { (x2 - w2) - (x1 + w1) };
    let yxd: i64 = if vy > 0 { (y2 + h2) - (y1 - h1) } else { (y2 - h2) - (y1 + h1) };
    let xn: i64 = if vx > 0 { xd } else { -xd };
    let yn: i64 = if vy > 0 { yd } else { -yd };
    let xxn: i64 = if vx > 0 { xxd } else { -xxd };
    let yxn: i64 = if vy > 0 { yxd } else { -yxd };
    let dx: i64 = if vx >= 0 { vx } else { -vx };
    let dy: i64 = if vy >= 0 { vy } else { -vy };

    let x_wins: bool = mul64(xn, dy) > mul64(yn, dx);
    let en: i64 = if x_wins { xn } else { yn };
    let ed: i64 = if x_wins { dx } else { dy };
    let x_exits: bool = mul64(xxn, dy) < mul64(yxn, dx);
    let xn2: i64 = if x_exits { xxn } else { yxn };
    let xd2: i64 = if x_exits { dx } else { dy };

    if mul64(en, xd2) > mul64(xn2, ed) || (xn < 0 && yn < 0) || xn > dx || yn > dy {
        return Sweep { nx: 0, ny: 0, num: 1, den: 1 };
    }
    if x_wins {
        Sweep { nx: if xd < 0 { 1 } else { -1 }, ny: 0, num: xn, den: dx }
    } else {
        Sweep { nx: 0, ny: if yd < 0 { 1 } else { -1 }, num: yn, den: dy }
    }
}

/// With no motion there is never a constraining contact: the swept
/// test returns the whole step and a zero normal, through either
/// branch. Boxes separated on some axis take that axis's early
/// rejection; boxes already overlapping take the zero-velocity overlap
/// branch, where both entries are unbounded below and the contact is
/// rejected as already penetrating.
pub proof fn lemma_swept_zero_velocity(
    x1: int, y1: int, w1: int, h1: int,
    x2: int, y2: int, w2: int, h2: int,
)
    ensures
        spec_swept(x1, y1, w1, h1, x2, y2, w2, h2, 0, 0) == swept_no_hit(),
{
}

/// Shrinking a displacement never lowers the traversable fraction:
/// for boxes that start separated and a displacement that is blocked
/// (`t < 1`), scaling the displacement by an exact rational factor in
/// `(0, 1]` returns a fraction at least as large, as rationals:
/// `t2 >= t1`. A shorter move along the same direction is at least as
/// unobstructed as the longer one.
pub proof fn lemma_swept_scale_monotonic(
    x1: int, y1: int, w1: int, h1: int,
    x2: int, y2: int, w2: int, h2: int,
    vx1: int, vy1: int, vx2: int, vy2: int, k_num: int, k_den: int,
)
    requires
        0 < k_num <= k_den,
        vx2 * k_den == vx1 * k_num,
        vy2 * k_den == vy1 * k_num,
        abs(x1 - x2) > w1 + w2 || abs(y1 - y2) > h1 + h2,
        ({
            let r1 = spec_swept(x1, y1, w1, h1, x2, y2, w2, h2, vx1, vy1);
            r1.num < r1.den
        }),
    ensures
        ({
            let r1 = spec_swept(x1, y1, w1, h1, x2, y2, w2, h2, vx1, vy1);
            let r2 = spec_swept(x1, y1, w1, h1, x2, y2, w2, h2, vx2, vy2);
            r2.num * r1.den >= r1.num * r2.den
        }),
{
    let r1 = spec_swept(x1, y1, w1, h1, x2, y2, w2, h2, vx1, vy1);
    let r2 = spec_swept(x1, y1, w1, h1, x2, y2, w2, h2, vx2, vy2);
    lemma_swept_wf(x1, y1, w1, h1, x2, y2, w2, h2, vx1, vy1);
    lemma_swept_wf(x1, y1, w1, h1, x2, y2, w2, h2, vx2, vy2);
    assert((vx2 > 0 <==> vx1 > 0) && (vx2 == 0 <==> vx1 == 0) && (vx2 < 0 <==> vx1 < 0))
        by (nonlinear_arith)
        requires
            vx2 * k_den == vx1 * k_num,
            0 < k_num <= k_den,
    ;
    assert((vy2 > 0 <==> vy1 > 0) && (vy2 == 0 <==> vy1 == 0) && (vy2 < 0 <==> vy1 < 0))
        by (nonlinear_arith)
        requires
            vy2 * k_den == vy1 * k_num,
            0 < k_num <= k_den,
    ;
    let xo = open_overlap_axis(x1, w1, x2, w2);
    let yo = open_overlap_axis(y1, h1, y2, h2);
    if vx1 == 0 && !xo {
        assert(r2.num * r1.den >= r1.num * r2.den);
    } else if vy1 == 0 && !yo {
        assert(r2.num * r1.den >= r1.num * r2.den);
    } else if vx1 == 0 && vy1 == 0 {
        assert(r2.num * r1.den >= r1.num * r2.den);
    } else if vx1 == 0 {
        let yd = entry_dist(y1, h1, y2, h2, vy1);
        let yn = time_num(yd, vy1);
        let yxn = time_num(exit_dist(y1, h1, y2, h2, vy1), vy1);
        let dy1 = abs(vy1);
        let dy2 = abs(vy2);
        assert(entry_dist(y1, h1, y2, h2, vy2) == yd);
        assert(time_num(yd, vy2) == yn);
        assert(time_num(exit_dist(y1, h1, y2, h2, vy2), vy2) == yxn);
        assert(dy2 * k_den == dy1 * k_num) by (nonlinear_arith)
            requires
                vy2 * k_den == vy1 * k_num,
                0 < k_num <= k_den,
                dy1 == abs(vy1),
                dy2 == abs(vy2),
        ;
        assert(dy2 <= dy1) by (nonlinear_arith)
            requires
                dy2 * k_den == dy1 * k_num,
                0 < k_num <= k_den,
                dy1 >= 0,
                dy2 >= 0,
        ;
        assert(!(yn > yxn || yn < 0 || yn > dy1));
        assert(r1.num == yn && r1.den == dy1);
        if yn > dy2 {
            assert(r2 == swept_no_hit());
            assert(r2.num == 1 && r2.den == 1);
            assert(r1.num <= r1.den);
            assert(r2.num * r1.den >= r1.num * r2.den) by (nonlinear_arith)
                requires
                    r2.num == 1,
                    r2.den == 1,
                    r1.num <= r1.den,
            ;
        } else {
            assert(r2.num == yn && r2.den == dy2);
            assert(r2.num * r1.den >= r1.num * r2.den) by (nonlinear_arith)
                requires
                    r1.num == yn,
                    r1.den == dy1,
                    r2.num == yn,
                    r2.den == dy2,
                    yn >= 0,
                    dy2 <= dy1,
            ;
        }
    } else if vy1 == 0 {
        let xd = entry_dist(x1, w1, x2, w2, vx1);
        let xn = time_num(xd, vx1);
        let xxn = time_num(exit_dist(x1, w1, x2, w2, vx1), vx1);
        let dx1 = abs(vx1);
        let dx2 = abs(vx2);
        assert(entry_dist(x1, w1, x2, w2, vx2) == xd);
        assert(time_num(xd, vx2) == xn);
        assert(time_num(exit_dist(x1, w1, x2, w2, vx2), vx2) == xxn);
        assert(dx2 * k_den == dx1 * k_num) by (nonlinear_arith)
            requires
                vx2 * k_den == vx1 * k_num,
                0 < k_num <= k_den,
                dx1 == abs(vx1),
                dx2 == abs(vx2),
        ;
        assert(dx2 <= dx1) by (nonlinear_arith)
            requires
                dx2 * k_den == dx1 * k_num,
                0 < k_num <= k_den,
                dx1 >= 0,
                dx2 >= 0,
        ;
        assert(!(xn > xxn || xn < 0 || xn > dx1));
        assert(r1.num == xn && r1.den == dx1);
        if xn > dx2 {
            assert(r2 == swept_no_hit());
            assert(r2.num == 1 && r2.den == 1);
            assert(r1.num <= r1.den);
            assert(r2.num * r1.den >= r1.num * r2.den) by (nonlinear_arith)
                requires
                    r2.num == 1,
                    r2.den == 1,
                    r1.num <= r1.den,
            ;
        } else {
            assert(r2.num == xn && r2.den == dx2);
            assert(r2.num * r1.den >= r1.num * r2.den) by (nonlinear_arith)
                requires
                    r1.num == xn,
                    r1.den == dx1,
                    r2.num == xn,
                    r2.den == dx2,
                    xn >= 0,
                    dx2 <= dx1,
            ;
        }
    } else {
        let xd = entry_dist(x1, w1, x2, w2, vx1);
        let yd = entry_dist(y1, h1, y2, h2, vy1);
        let xn = time_num(xd, vx1);
        let yn = time_num(yd, vy1);
        let xxn = time_num(exit_dist(x1, w1, x2, w2, vx1), vx1);
        let yxn = time_num(exit_dist(y1, h1, y2, h2, vy1), vy1);
        let dx1 = abs(vx1);
        let dy1 = abs(vy1);
        let dx2 = abs(vx2);
        let dy2 = abs(vy2);
        assert(entry_dist(x1, w1, x2, w2, vx2) == xd);
        assert(entry_dist(y1, h1, y2, h2, vy2) == yd);
        assert(time_num(xd, vx2) == xn && time_num(yd, vy2) == yn);
        assert(time_num(exit_dist(x1, w1, x2, w2, vx2), vx2) == xxn);
        assert(time_num(exit_dist(y1, h1, y2, h2, vy2), vy2) == yxn);
        assert(dx2 * k_den == dx1 * k_num && dy2 * k_den == dy1 * k_num) by (nonlinear_arith)
            requires
                vx2 * k_den == vx1 * k_num,
                vy2 * k_den == vy1 * k_num,
                0 < k_num <= k_den,
                dx1 == abs(vx1),
                dx2 == abs(vx2),
                dy1 == abs(vy1),
                dy2 == abs(vy2),
        ;
        assert(dx2 <= dx1 && dy2 <= dy1) by (nonlinear_arith)
            requires
                dx2 * k_den == dx1 * k_num,
                dy2 * k_den == dy1 * k_num,
                0 < k_num <= k_den,
                dx1 >= 0,
                dx2 >= 0,
                dy1 >= 0,
                dy2 >= 0,
        ;
        assert((xn * dy2 > yn * dx2) == (xn * dy1 > yn * dx1)) by (nonlinear_arith)
            requires
                dx2 * k_den == dx1 * k_num,
                dy2 * k_den == dy1 * k_num,
                0 < k_num <= k_den,
        ;
        assert((xxn * dy2 < yxn * dx2) == (xxn * dy1 < yxn * dx1)) by (nonlinear_arith)
            requires
                dx2 * k_den == dx1 * k_num,
                dy2 * k_den == dy1 * k_num,
                0 < k_num <= k_den,
        ;
        let x_wins = xn * dy1 > yn * dx1;
        let x_exits = xxn * dy1 < yxn * dx1;
        let en = if x_wins { xn } else { yn };
        let ed1 = if x_wins { dx1 } else { dy1 };
        let ed2 = if x_wins { dx2 } else { dy2 };
        let exn = if x_exits { xxn } else { yxn };
        let exd1 = if x_exits { dx1 } else { dy1 };
        let exd2 = if x_exits { dx2 } else { dy2 };
        assert((en * exd2 > exn * ed2) == (en * exd1 > exn * ed1)) by (nonlinear_arith)
            requires
                ed2 * k_den == ed1 * k_num,
                exd2 * k_den == exd1 * k_num,
                0 < k_num <= k_den,
        ;
        assert(!(en * exd1 > exn * ed1 || (xn < 0 && yn < 0) || xn > dx1 || yn > dy1));
        assert(r1.num == en && r1.den == ed1);
        if xn > dx2 || yn > dy2 {
            assert(r2 == swept_no_hit());
            assert(r2.num == 1 && r2.den == 1);
            assert(r1.num <= r1.den);
            assert(r2.num * r1.den >= r1.num * r2.den) by (nonlinear_arith)
                requires
                    r2.num == 1,
                    r2.den == 1,
                    r1.num <= r1.den,
            ;
        } else {
            assert(r2.num == en && r2.den == ed2);
            assert(en >= 0);
            assert(ed2 <= ed1);
            assert(r2.num * r1.den >= r1.num * r2.den) by (nonlinear_arith)
                requires
                    r1.num == en,
                    r1.den == ed1,
                    r2.num == en,
                    r2.den == ed2,
                    en >= 0,
                    ed2 <= ed1,
            ;
        }
    }
}

/// The colliding axis moves exactly its entry distance: the truncated
/// `v * num / den` with `num = time_num(d, v)` and `den = abs(v)` is
/// `d` itself.
pub proof fn lemma_move_exact(d: int, v: int)
    requires
        v != 0,
    ensures
        crate::geom::div_trunc(v * time_num(d, v), abs(v)) == d,
{
    let p = v * time_num(d, v);
    if v > 0 {
        assert(p == v * d);
        if d >= 0 {
            assert(p >= 0) by (nonlinear_arith)
                requires
                    v > 0,
                    d >= 0,
                    p == v * d,
            ;
            vstd::arithmetic::div_mod::lemma_div_multiples_vanish(d, v);
        } else {
            assert(p < 0) by (nonlinear_arith)
                requires
                    v > 0,
                    d < 0,
                    p == v * d,
            ;
            assert(-p == v * (-d)) by (nonlinear_arith)
                requires
                    p == v * d,
            ;
            vstd::arithmetic::div_mod::lemma_div_multiples_vanish(-d, v);
        }
    } else {
        assert(p == (-v) * d) by (nonlinear_arith)
            requires
                v < 0,
                p == v * time_num(d, v),
        ;
        if d >= 0 {
            assert(p >= 0) by (nonlinear_arith)
                requires
                    v < 0,
                    d >= 0,
                    p == (-v) * d,
            ;
            vstd::arithmetic::div_mod::lemma_div_multiples_vanish(d, -v);
        } else {
            assert(p < 0) by (nonlinear_arith)
                requires
                    v < 0,
                    d < 0,
                    p == (-v) * d,
            ;
            assert(-p == (-v) * (-d)) by (nonlinear_arith)
                requires
                    p == (-v) * d,
            ;
            vstd::arithmetic::div_mod::lemma_div_multiples_vanish(-d, -v);
        }
    }
}

/// Margin idempotence: after a resolved sweep against one stationary
/// obstacle — the winning fraction of the displacement applied, plus
/// the skin width along the reported normal — re-running the same
/// sweep from the new position never reports an immediate contact:
/// the returned fraction is strictly positive. The premise that the
/// normal opposes the motion excludes the degenerate corner where two
/// boxes touch exactly and the tie-broken normal points along the
/// motion.
pub proof fn lemma_margin_idempotent(
    x1: int, y1: int, w1: int, h1: int,
    x2: int, y2: int, w2: int, h2: int,
    vx: int, vy: int,
)
    requires
        ({
            let r = spec_swept(x1, y1, w1, h1, x2, y2, w2, h2, vx, vy);
            &&& r.num < r.den
            &&& r.nx * vx + r.ny * vy < 0
        }),
    ensures
        ({
            let r = spec_swept(x1, y1, w1, h1, x2, y2, w2, h2, vx, vy);
            let mx = crate::geom::div_trunc(vx * r.num, r.den);
            let my = crate::geom::div_trunc(vy * r.num, r.den);
            let r2 = spec_swept(
                x1 + mx + r.nx * (crate::geom::MARGIN as int),
                y1 + my + r.ny * (crate::geom::MARGIN as int),
                w1, h1, x2, y2, w2, h2, vx, vy,
            );
            r2.num > 0
        }),
{
    let r = spec_swept(x1, y1, w1, h1, x2, y2, w2, h2, vx, vy);
    lemma_swept_wf(x1, y1, w1, h1, x2, y2, w2, h2, vx, vy);
    let mx = crate::geom::div_trunc(vx * r.num, r.den);
    let my = crate::geom::div_trunc(vy * r.num, r.den);
    let nx1 = x1 + mx + r.nx * (crate::geom::MARGIN as int);
    let ny1 = y1 + my + r.ny * (crate::geom::MARGIN as int);
    let r2 = spec_swept(nx1, ny1, w1, h1, x2, y2, w2, h2, vx, vy);
    lemma_swept_wf(nx1, ny1, w1, h1, x2, y2, w2, h2, vx, vy);
    if r.nx != 0 {
        // The x axis collided, so vx != 0, the normal is -sign(vx),
        // and the x coordinate moved exactly its entry distance.
        assert(r.ny == 0);
        assert(vx != 0);
        let xd = entry_dist(x1, w1, x2, w2, vx);
        assert(r.num == time_num(xd, vx) && r.den == abs(vx));
        lemma_move_exact(xd, vx);
        assert(mx == xd);
        assert(r.nx * vx < 0) by (nonlinear_arith)
            requires
                r.nx * vx + r.ny * vy < 0,
                r.ny == 0,
        ;
        if vx > 0 {
            assert(r.nx == -1) by (nonlinear_arith)
                requires
                    r.nx * vx < 0,
                    vx > 0,
                    -1 <= r.nx <= 1,
            ;
        } else {
            assert(r.nx == 1) by (nonlinear_arith)
                requires
                    r.nx * vx < 0,
                    vx < 0,
                    -1 <= r.nx <= 1,
            ;
        }
        let xd2 = entry_dist(nx1, w1, x2, w2, vx);
        assert(xd2 == xd - mx - r.nx);
        assert(time_num(xd2, vx) == 1);
        // In the second run the x entry is one margin at time
        // 1/abs(vx) > 0; whatever axis wins, the entry time is
        // positive, and a rejection reports the whole step.
        if vy == 0 {
            assert(r2.num > 0);
        } else {
            let dx = abs(vx);
            let dy = abs(vy);
            let yd2 = entry_dist(ny1, h1, y2, h2, vy);
            let yn2 = time_num(yd2, vy);
            let xw2 = 1 * dy > yn2 * dx;
            if !xw2 {
                assert(yn2 * dx >= 1 * dy) by (nonlinear_arith)
                    requires
                        !(1 * dy > yn2 * dx),
                ;
                assert(yn2 > 0) by (nonlinear_arith)
                    requires
                        yn2 * dx >= 1 * dy,
                        dx >= 1,
                        dy >= 1,
                ;
            }
            assert(r2.num > 0);
        }
    } else {
        // The y axis collided.
        assert(r.ny != 0);
        assert(vy != 0);
        let yd = entry_dist(y1, h1, y2, h2, vy);
        assert(r.num == time_num(yd, vy) && r.den == abs(vy));
        lemma_move_exact(yd, vy);
        assert(my == yd);
        assert(r.ny * vy < 0) by (nonlinear_arith)
            requires
                r.nx * vx + r.ny * vy < 0,
                r.nx == 0,
        ;
        if vy > 0 {
            assert(r.ny == -1) by (nonlinear_arith)
                requires
                    r.ny * vy < 0,
                    vy > 0,
                    -1 <= r.ny <= 1,
            ;
        } else {
            assert(r.ny == 1) by (nonlinear_arith)
                requires
                    r.ny * vy < 0,
                    vy < 0,
                    -1 <= r.ny <= 1,
            ;
        }
        let yd2 = entry_dist(ny1, h1, y2, h2, vy);
        assert(yd2 == yd - my - r.ny);
        assert(time_num(yd2, vy) == 1);
        if vx == 0 {
            assert(mx == 0) by {
                vstd::arithmetic::div_mod::lemma_div_of0(r.den);
            }
            assert(r2.num > 0);
        } else {
            let dx = abs(vx);
            let dy = abs(vy);
            let xd2 = entry_dist(nx1, w1, x2, w2, vx);
            let xn2 = time_num(xd2, vx);
            let yw2 = !(xn2 * dy > 1 * dx);
            if !yw2 {
                assert(xn2 * dy > 1 * dx);
                assert(xn2 > 0) by (nonlinear_arith)
                    requires
                        xn2 * dy > 1 * dx,
                        dx >= 1,
                        dy >= 1,
                ;
            }
            assert(r2.num > 0);
        }
    }
}

} // verus!
